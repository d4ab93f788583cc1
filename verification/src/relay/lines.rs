//! What clients write to the relay, line by line, for its log.

use crate::text::{chars_of, push_all, push_str, slice_chars, string_of};
use vstd::prelude::*;
use vstd::utf8;

verus! {

/// How many bytes without the end of a line are kept before they are logged as they are.
pub const LINE_LIMIT: usize = 1024;

/// The bytes of a client that do not make up a line yet.
#[derive(Debug)]
pub struct LineBuffer {
    pending: Vec<u8>,
}

/// The length of the first line with its end, or 0 when no line ends.
pub open spec fn line_len(s: Seq<u8>) -> int
    decreases s.len(),
{
    if s.len() == 0 {
        0
    } else if s[0] == 10 {
        1
    } else if line_len(s.skip(1)) == 0 {
        0
    } else {
        1 + line_len(s.skip(1))
    }
}

proof fn lemma_line_len(s: Seq<u8>)
    ensures
        0 <= line_len(s) <= s.len(),
        line_len(s) == 0 ==> forall|i: int| 0 <= i < s.len() ==> s[i] != 10,
        line_len(s) > 0 ==> s[line_len(s) - 1] == 10 && forall|i: int|
            0 <= i < line_len(s) - 1 ==> s[i] != 10,
    decreases s.len(),
{
    if s.len() > 0 && s[0] != 10 {
        lemma_line_len(s.skip(1));
        let t = s.skip(1);
        assert forall|i: int| 1 <= i < s.len() implies s[i] == t[i - 1] by {}
    }
}

proof fn lemma_line_len_is(s: Seq<u8>, n: int)
    requires
        0 < n <= s.len(),
        s[n - 1] == 10,
        forall|i: int| 0 <= i < n - 1 ==> s[i] != 10,
    ensures
        line_len(s) == n,
    decreases n,
{
    if n > 1 {
        assert forall|i: int| 0 <= i < n - 2 implies s.skip(1)[i] != 10 by {
            assert(s[i + 1] != 10);
        }
        lemma_line_len_is(s.skip(1), n - 1);
    }
}

/// The lines that end within the bytes, each with its end.
pub open spec fn lines(s: Seq<u8>) -> Seq<Seq<u8>>
    decreases s.len(),
{
    if line_len(s) <= 0 || line_len(s) > s.len() {
        Seq::empty()
    } else {
        seq![s.take(line_len(s))] + lines(s.skip(line_len(s)))
    }
}

/// The bytes behind the last line that ends.
pub open spec fn tail(s: Seq<u8>) -> Seq<u8>
    decreases s.len(),
{
    if line_len(s) <= 0 || line_len(s) > s.len() {
        s
    } else {
        tail(s.skip(line_len(s)))
    }
}

/// The pieces that are logged once the bytes have come: every line, and a rest that has
/// grown too long.
pub open spec fn pieces(s: Seq<u8>) -> Seq<Seq<u8>> {
    if tail(s).len() >= LINE_LIMIT {
        lines(s).push(tail(s))
    } else {
        lines(s)
    }
}

/// The bytes that are kept for later.
pub open spec fn kept(s: Seq<u8>) -> Seq<u8> {
    if tail(s).len() >= LINE_LIMIT {
        Seq::empty()
    } else {
        tail(s)
    }
}

/// The bytes of each piece.
pub open spec fn byte_views(v: Seq<Vec<u8>>) -> Seq<Seq<u8>> {
    v.map_values(|p: Vec<u8>| p@)
}

fn slice_bytes(s: &Vec<u8>, from: usize, to: usize) -> (v: Vec<u8>)
    requires
        from <= to <= s@.len(),
    ensures
        v@ == s@.subrange(from as int, to as int),
{
    let mut v: Vec<u8> = Vec::new();
    let mut i: usize = from;
    while i < to
        invariant
            from <= i <= to <= s@.len(),
            v@ == s@.subrange(from as int, i as int),
        decreases to - i,
    {
        v.push(s[i]);
        assert(s@.subrange(from as int, i + 1) =~= s@.subrange(from as int, i as int).push(
            s@[i as int],
        ));
        i += 1;
    }
    v
}

fn end_of_line(s: &Vec<u8>, from: usize) -> (r: Option<usize>)
    requires
        from <= s@.len(),
    ensures
        match r {
            Some(n) => n == from + line_len(s@.skip(from as int)) && from < n <= s@.len(),
            None => line_len(s@.skip(from as int)) == 0,
        },
{
    let mut i: usize = from;
    while i < s.len()
        invariant
            from <= i <= s@.len(),
            forall|k: int| from <= k < i ==> s@[k] != 10,
        decreases s.len() - i,
    {
        if s[i] == 10 {
            proof {
                let rest = s@.skip(from as int);
                assert(rest[i - from] == 10);
                assert forall|k: int| 0 <= k < i - from implies rest[k] != 10 by {
                    assert(s@[from + k] != 10);
                }
                lemma_line_len_is(rest, i - from + 1);
            }
            return Some(i + 1);
        }
        i += 1;
    }
    proof {
        let rest = s@.skip(from as int);
        lemma_line_len(rest);
        if line_len(rest) > 0 {
            assert(rest[line_len(rest) - 1] == s@[from + line_len(rest) - 1]);
        }
    }
    None
}

impl LineBuffer {
    /// The bytes that are kept.
    pub closed spec fn view(&self) -> Seq<u8> {
        self.pending@
    }

    /// Nothing is kept.
    pub fn new() -> (r: LineBuffer)
        ensures
            r@ == Seq::<u8>::empty(),
    {
        LineBuffer { pending: Vec::new() }
    }

    /// Takes bytes in, and gives out what is to be logged.
    pub fn feed(&mut self, chunk: &[u8]) -> (r: Vec<Vec<u8>>)
        ensures
            byte_views(r@) == pieces(old(self)@ + chunk@),
            final(self)@ == kept(old(self)@ + chunk@),
    {
        let mut i: usize = 0;
        while i < chunk.len()
            invariant
                i <= chunk.len(),
                self@ == old(self)@ + chunk@.take(i as int),
            decreases chunk.len() - i,
        {
            self.pending.push(chunk[i]);
            assert(chunk@.take(i + 1) =~= chunk@.take(i as int).push(chunk@[i as int]));
            assert(self@ =~= old(self)@ + chunk@.take(i + 1));
            i += 1;
        }
        let ghost all = old(self)@ + chunk@;
        assert(chunk@.take(chunk@.len() as int) =~= chunk@);
        let mut out: Vec<Vec<u8>> = Vec::new();
        let mut from: usize = 0;
        assert(all.skip(0) =~= all);
        assert(byte_views(out@) =~= Seq::<Seq<u8>>::empty());
        assert(lines(all) =~= byte_views(out@) + lines(all.skip(0)));
        loop
            invariant
                from <= self.pending@.len(),
                self.pending@ == all,
                lines(all) == byte_views(out@) + lines(all.skip(from as int)),
                tail(all) == tail(all.skip(from as int)),
            ensures
                from <= self.pending@.len(),
                self.pending@ == all,
                lines(all) == byte_views(out@),
                tail(all) == all.skip(from as int),
            decreases self.pending@.len() - from,
        {
            let ghost rest = all.skip(from as int);
            match end_of_line(&self.pending, from) {
                Some(end) => {
                    let line: Vec<u8> = slice_bytes(&self.pending, from, end);
                    let ghost before = byte_views(out@);
                    assert(line@ =~= rest.take(line_len(rest)));
                    out.push(line);
                    proof {
                        assert(byte_views(out@) =~= before.push(rest.take(line_len(rest))));
                        assert(rest.skip(line_len(rest)) =~= all.skip(end as int));
                        assert(lines(all) =~= byte_views(out@) + lines(all.skip(end as int)));
                    }
                    from = end;
                },
                None => {
                    assert(lines(all) =~= byte_views(out@));
                    break ;
                },
            }
        }
        let end: usize = self.pending.len();
        let rest: Vec<u8> = slice_bytes(&self.pending, from, end);
        assert(rest@ =~= tail(all));
        if rest.len() >= LINE_LIMIT {
            let ghost before = byte_views(out@);
            out.push(rest);
            assert(byte_views(out@) =~= before.push(tail(all)));
            self.pending = Vec::new();
        } else {
            self.pending = rest;
        }
        out
    }

    /// What is left to be logged when the client has gone.
    pub fn finish(self) -> (r: Option<Vec<u8>>)
        ensures
            match r {
                Some(rest) => rest@ == self@ && self@.len() > 0,
                None => self@.len() == 0,
            },
    {
        if self.pending.len() == 0 {
            None
        } else {
            Some(self.pending)
        }
    }
}

/// The pieces one behind the other.
pub open spec fn together(parts: Seq<Seq<u8>>) -> Seq<u8>
    decreases parts.len(),
{
    if parts.len() == 0 {
        Seq::empty()
    } else {
        parts[0] + together(parts.skip(1))
    }
}

proof fn lemma_together_push(parts: Seq<Seq<u8>>, last: Seq<u8>)
    ensures
        together(parts.push(last)) == together(parts) + last,
    decreases parts.len(),
{
    if parts.len() == 0 {
        reveal_with_fuel(together, 2);
        assert(parts.push(last).skip(1) =~= Seq::<Seq<u8>>::empty());
        assert(together(parts.push(last)) =~= last);
        assert(together(parts) + last =~= last);
    } else {
        assert(parts.push(last).skip(1) =~= parts.skip(1).push(last));
        lemma_together_push(parts.skip(1), last);
        assert(together(parts.push(last)) =~= together(parts) + last);
    }
}

proof fn lemma_lines_and_tail(s: Seq<u8>)
    ensures
        together(lines(s)) + tail(s) == s,
        line_len(tail(s)) == 0,
    decreases s.len(),
{
    lemma_line_len(s);
    let n = line_len(s);
    if n > 0 {
        let rest = s.skip(n);
        lemma_lines_and_tail(rest);
        assert(lines(s).skip(1) =~= lines(rest));
        assert(lines(s)[0] == s.take(n));
        assert(together(lines(s)) + tail(s) =~= s.take(n) + (together(lines(rest)) + tail(rest)));
        assert(s =~= s.take(n) + rest);
    } else {
        assert(together(lines(s)) + tail(s) =~= s);
    }
}

/// No byte of a client is lost or moved: what is logged, and then what is kept, are the
/// bytes that came. What is kept holds no end of a line and is below the limit.
pub proof fn law_no_byte_is_lost(s: Seq<u8>)
    ensures
        together(pieces(s)) + kept(s) == s,
        kept(s).len() < LINE_LIMIT,
        forall|i: int| 0 <= i < kept(s).len() ==> kept(s)[i] != 10,
{
    lemma_lines_and_tail(s);
    lemma_line_len(tail(s));
    if tail(s).len() >= LINE_LIMIT {
        lemma_together_push(lines(s), tail(s));
        assert(together(pieces(s)) + kept(s) =~= s);
    }
}

/// The text that bytes stand for, with a mark in place of what is not UTF-8.
pub uninterp spec fn lossy_utf8(bytes: Seq<u8>) -> Seq<char>;

/// Calls `String::from_utf8_lossy`: the text depends on the bytes alone, and bytes that
/// are UTF-8 give just the text that they encode.
#[verifier::external_body]
fn decode_lossy(bytes: &[u8]) -> (r: String)
    ensures
        r@ == lossy_utf8(bytes@),
        utf8::valid_utf8(bytes@) ==> r@ == utf8::decode_utf8(bytes@),
{
    String::from_utf8_lossy(bytes).into_owned()
}

/// The text without the ends of lines behind it.
pub open spec fn trimmed(s: Seq<char>) -> Seq<char>
    decreases s.len(),
{
    if s.len() > 0 && (s.last() == '\r' || s.last() == '\n') {
        trimmed(s.drop_last())
    } else {
        s
    }
}

/// The words of the log for a text of a client, unless that is empty.
pub open spec fn log_words(peer: Seq<char>, s: Seq<char>) -> Option<Seq<char>> {
    if trimmed(s).len() == 0 {
        None
    } else {
        Some("[shm2_relayd] "@ + peer + ": "@ + trimmed(s))
    }
}

/// The line of the log for a text of a client, unless that is empty.
pub fn log_line(peer: &str, message: &str) -> (r: Option<String>)
    ensures
        match r {
            Some(line) => log_words(peer@, message@) == Some(line@),
            None => log_words(peer@, message@) is None,
        },
{
    let chars: Vec<char> = chars_of(message);
    let mut end: usize = chars.len();
    assert(chars@.take(end as int) =~= chars@);
    while end > 0 && (chars[end - 1] == '\r' || chars[end - 1] == '\n')
        invariant
            end <= chars@.len(),
            trimmed(message@) == trimmed(chars@.take(end as int)),
        decreases end,
    {
        assert(chars@.take(end as int).drop_last() =~= chars@.take(end - 1));
        end -= 1;
    }
    if end == 0 {
        return None;
    }
    let text: Vec<char> = slice_chars(chars.as_slice(), 0, end);
    assert(text@ =~= chars@.take(end as int));
    let mut out: Vec<char> = chars_of("[shm2_relayd] ");
    push_str(&mut out, peer);
    push_str(&mut out, ": ");
    push_all(&mut out, text.as_slice());
    Some(string_of(out.as_slice()))
}

/// The line of the log for a piece of what a client wrote, unless that is empty.
pub fn log_piece(peer: &str, piece: &[u8]) -> (r: Option<String>)
    ensures
        match r {
            Some(line) => log_words(peer@, lossy_utf8(piece@)) == Some(line@),
            None => log_words(peer@, lossy_utf8(piece@)) is None,
        },
        utf8::valid_utf8(piece@) ==> lossy_utf8(piece@) == utf8::decode_utf8(piece@),
{
    let message: String = decode_lossy(piece);
    log_line(peer, message.as_str())
}

/// The bytes are one line: they end with the end of a line, and hold no other.
pub open spec fn is_line(s: Seq<u8>) -> bool {
    s.len() > 0 && s.last() == '\n' as u8 && forall|i: int|
        0 <= i < s.len() - 1 ==> #[trigger] s[i] != '\n' as u8
}

proof fn lemma_lines_are_lines(s: Seq<u8>, k: int)
    requires
        0 <= k < lines(s).len(),
    ensures
        is_line(lines(s)[k]),
    decreases s.len(),
{
    lemma_line_len(s);
    let n = line_len(s);
    if n > 0 {
        if k == 0 {
            let first = s.take(n);
            assert(lines(s)[0] == first);
            assert forall|i: int| 0 <= i < first.len() - 1 implies #[trigger] first[i] != 10 by {
                assert(first[i] == s[i]);
            }
        } else {
            assert(lines(s)[k] == lines(s.skip(n))[k - 1]);
            lemma_lines_are_lines(s.skip(n), k - 1);
        }
    }
}

/// What is logged and then what is kept are, in their order, the bytes that were kept and
/// those that came. Each piece that is logged is one line, but for a last one of at least
/// 1024 bytes in which no line ends; what is kept is shorter and holds no end of a line.
pub proof fn law_client_is_logged_line_by_line(b: &mut LineBuffer, chunk: &[u8], r: Vec<Vec<u8>>)
    requires
        call_ensures(LineBuffer::feed, (b, chunk), r),
    ensures
        together(byte_views(r@)) + final(b)@ == old(b)@ + chunk@,
        forall|k: int|
            0 <= k < r@.len() ==> is_line((#[trigger] r@[k])@) || (k == r@.len() - 1 && r@[k]@.len()
                >= 1024 && !r@[k]@.contains('\n' as u8)),
        final(b)@.len() < 1024,
        !final(b)@.contains('\n' as u8),
{
    let s = old(b)@ + chunk@;
    law_no_byte_is_lost(s);
    lemma_lines_and_tail(s);
    lemma_line_len(tail(s));
    assert forall|k: int| 0 <= k < r@.len() implies is_line((#[trigger] r@[k])@) || (k == r@.len()
        - 1 && r@[k]@.len() >= 1024 && !r@[k]@.contains('\n' as u8)) by {
        assert(byte_views(r@)[k] == r@[k]@);
        if k < lines(s).len() {
            lemma_lines_are_lines(s, k);
            assert(pieces(s)[k] == lines(s)[k]);
        }
    }
}

/// A client that has gone has logged what was kept, unless that is nothing.
pub proof fn law_rest_is_logged_at_the_end(b: LineBuffer, r: Option<Vec<u8>>)
    requires
        call_ensures(LineBuffer::finish, (b,), r),
    ensures
        r is None <==> b@.len() == 0,
        r matches Some(rest) ==> rest@ == b@,
{
}

proof fn lemma_trimmed(body: Seq<char>, ends: Seq<char>)
    requires
        body.len() > 0 ==> body.last() != '\r' && body.last() != '\n',
        forall|k: int| 0 <= k < ends.len() ==> #[trigger] ends[k] == '\r' || ends[k] == '\n',
    ensures
        trimmed(body + ends) == body,
    decreases ends.len(),
{
    if ends.len() == 0 {
        assert(body + ends =~= body);
    } else {
        assert(ends[ends.len() - 1] == '\r' || ends[ends.len() - 1] == '\n');
        assert((body + ends).drop_last() =~= body + ends.drop_last());
        lemma_trimmed(body, ends.drop_last());
    }
}

/// A text is logged with who wrote it, without the ends of lines behind it and with all else
/// that it holds; one that holds nothing else is not logged.
pub proof fn law_text_is_logged_without_its_end(
    peer: &str,
    message: &str,
    body: Seq<char>,
    ends: Seq<char>,
    r: Option<String>,
)
    requires
        message@ == body + ends,
        body.len() > 0 ==> body.last() != '\r' && body.last() != '\n',
        forall|k: int| 0 <= k < ends.len() ==> #[trigger] ends[k] == '\r' || ends[k] == '\n',
        call_ensures(log_line, (peer, message), r),
    ensures
        body.len() == 0 ==> r is None,
        body.len() > 0 ==> (r matches Some(line) && line@ == "[shm2_relayd] "@ + peer@ + ": "@
            + body),
{
    lemma_trimmed(body, ends);
}

/// Bytes that encode a text are logged as that text is.
pub proof fn law_bytes_are_logged_as_their_text(
    peer: &str,
    piece: &[u8],
    message: &str,
    r: Option<String>,
    q: Option<String>,
)
    requires
        utf8::valid_utf8(piece@),
        message@ == utf8::decode_utf8(piece@),
        call_ensures(log_piece, (peer, piece), r),
        call_ensures(log_line, (peer, message), q),
    ensures
        r is Some <==> q is Some,
        r is Some ==> (r->0)@ == (q->0)@,
{
}

/// At first nothing is kept, and nothing is left to be logged.
pub proof fn law_new_buffer_keeps_nothing(b: LineBuffer, r: Option<Vec<u8>>)
    requires
        call_ensures(LineBuffer::new, (), b),
        call_ensures(LineBuffer::finish, (b,), r),
    ensures
        r is None,
{
}

} // verus!
