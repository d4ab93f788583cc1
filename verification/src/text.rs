//! Text as sequences of characters: the searches, splits and conversions that the
//! other modules need.

use vstd::prelude::*;

verus! {

/// `String::push` of the standard library: puts one character behind the others.
pub assume_specification[ String::push ](s: &mut String, c: char)
    ensures
        final(s)@ == old(s)@.push(c),
;

/// The characters of a text, one by one.
pub fn chars_of(s: &str) -> (v: Vec<char>)
    ensures
        v@ == s@,
{
    let mut v: Vec<char> = Vec::new();
    for c in it: s.chars()
        invariant
            it.seq() == s@,
            v@ == s@.take(it.index()),
    {
        assert(s@.take(it.index() + 1) =~= s@.take(it.index()).push(c));
        v.push(c);
    }
    assert(s@.take(s@.len() as int) =~= s@);
    v
}

/// The text that the characters make up.
pub fn string_of(chars: &[char]) -> (s: String)
    ensures
        s@ == chars@,
{
    let mut s: String = String::new();
    let mut i: usize = 0;
    while i < chars.len()
        invariant
            i <= chars.len(),
            s@ == chars@.take(i as int),
        decreases chars.len() - i,
    {
        assert(chars@.take(i + 1) =~= chars@.take(i as int).push(chars@[i as int]));
        s.push(chars[i]);
        i += 1;
    }
    assert(chars@.take(chars@.len() as int) =~= chars@);
    s
}

/// The characters from `from` up to, not including, `to`.
pub fn slice_chars(s: &[char], from: usize, to: usize) -> (v: Vec<char>)
    requires
        from <= to <= s@.len(),
    ensures
        v@ == s@.subrange(from as int, to as int),
{
    let mut v: Vec<char> = Vec::new();
    let mut i: usize = from;
    while i < to
        invariant
            from <= i <= to <= s@.len(),
            v@ == s@.subrange(from as int, i as int),
        decreases to - i,
    {
        assert(s@.subrange(from as int, i + 1) =~= s@.subrange(from as int, i as int).push(
            s@[i as int],
        ));
        v.push(s[i]);
        i += 1;
    }
    v
}

/// Puts the characters behind those of `out`.
pub fn push_all(out: &mut Vec<char>, more: &[char])
    ensures
        final(out)@ == old(out)@ + more@,
{
    let ghost before = out@;
    let mut i: usize = 0;
    while i < more.len()
        invariant
            i <= more.len(),
            out@ == before + more@.take(i as int),
        decreases more.len() - i,
    {
        assert(before + more@.take(i + 1) =~= (before + more@.take(i as int)).push(
            more@[i as int],
        ));
        out.push(more[i]);
        i += 1;
    }
    assert(more@.take(more@.len() as int) =~= more@);
}

/// Puts the characters of a text behind those of `out`.
pub fn push_str(out: &mut Vec<char>, more: &str)
    ensures
        final(out)@ == old(out)@ + more@,
{
    let more: Vec<char> = chars_of(more);
    push_all(out, more.as_slice());
}

/// Whether two texts are the same.
pub fn same_text(a: &[char], b: &[char]) -> (r: bool)
    ensures
        r == (a@ == b@),
{
    if a.len() != b.len() {
        return false;
    }
    let mut i: usize = 0;
    while i < a.len()
        invariant
            i <= a.len(),
            a@.len() == b@.len(),
            forall|k: int| 0 <= k < i ==> a@[k] == b@[k],
        decreases a.len() - i,
    {
        if a[i] != b[i] {
            return false;
        }
        i += 1;
    }
    assert(a@ =~= b@);
    true
}

/// Whether a text is the given one.
pub fn is_text(a: &[char], b: &str) -> (r: bool)
    ensures
        r == (a@ == b@),
{
    let b: Vec<char> = chars_of(b);
    same_text(a, b.as_slice())
}

/// `pat` stands in `s` at position `i`.
pub open spec fn occurs_at(s: Seq<char>, pat: Seq<char>, i: int) -> bool {
    0 <= i && i + pat.len() <= s.len() && s.subrange(i, i + pat.len()) == pat
}

/// `s` begins with `pat`.
pub open spec fn starts_with(s: Seq<char>, pat: Seq<char>) -> bool {
    occurs_at(s, pat, 0)
}

fn occurs_here(s: &[char], pat: &[char], i: usize) -> (r: bool)
    ensures
        r == occurs_at(s@, pat@, i as int),
{
    if i > s.len() || pat.len() > s.len() - i {
        return false;
    }
    let mut k: usize = 0;
    while k < pat.len()
        invariant
            i + pat.len() <= s.len(),
            k <= pat.len(),
            forall|j: int| 0 <= j < k ==> s@[i + j] == pat@[j],
        decreases pat.len() - k,
    {
        if s[i + k] != pat[k] {
            assert(s@.subrange(i as int, i + pat@.len())[k as int] == s@[i + k]);
            return false;
        }
        k += 1;
    }
    assert(s@.subrange(i as int, i + pat@.len()) =~= pat@);
    true
}

/// Whether the text begins with `pat`.
pub fn has_prefix(s: &[char], pat: &str) -> (r: bool)
    ensures
        r == starts_with(s@, pat@),
{
    let pat: Vec<char> = chars_of(pat);
    occurs_here(s, pat.as_slice(), 0)
}

/// What follows `pat`, when the text begins with it.
pub fn strip_prefix(s: &[char], pat: &str) -> (r: Option<Vec<char>>)
    ensures
        match r {
            Some(rest) => starts_with(s@, pat@) && rest@ == s@.skip(pat@.len() as int),
            None => !starts_with(s@, pat@),
        },
{
    let pat: Vec<char> = chars_of(pat);
    if occurs_here(s, pat.as_slice(), 0) {
        assert(s@.skip(pat@.len() as int) =~= s@.subrange(pat@.len() as int, s@.len() as int));
        Some(slice_chars(s, pat.len(), s.len()))
    } else {
        None
    }
}

/// Finds the first place where `pat` stands.
pub fn find_text(s: &[char], pat: &str) -> (r: Option<usize>)
    ensures
        match r {
            Some(i) => occurs_at(s@, pat@, i as int) && forall|k: int|
                0 <= k < i ==> !occurs_at(s@, pat@, k),
            None => forall|k: int| !occurs_at(s@, pat@, k),
        },
{
    let wanted: Vec<char> = chars_of(pat);
    let mut i: usize = 0;
    while i < s.len()
        invariant
            wanted@ == pat@,
            i <= s.len(),
            forall|k: int| 0 <= k < i ==> !occurs_at(s@, pat@, k),
        decreases s.len() - i,
    {
        if occurs_here(s, wanted.as_slice(), i) {
            return Some(i);
        }
        i += 1;
    }
    if occurs_here(s, wanted.as_slice(), i) {
        return Some(i);
    }
    None
}

/// Finds the first place of a character.
pub fn find_char(s: &[char], c: char) -> (r: Option<usize>)
    ensures
        match r {
            Some(i) => i < s@.len() && s@[i as int] == c && forall|k: int|
                0 <= k < i ==> s@[k] != c,
            None => forall|k: int| 0 <= k < s@.len() ==> s@[k] != c,
        },
{
    let mut i: usize = 0;
    while i < s.len()
        invariant
            i <= s.len(),
            forall|k: int| 0 <= k < i ==> s@[k] != c,
        decreases s.len() - i,
    {
        if s[i] == c {
            return Some(i);
        }
        i += 1;
    }
    None
}

/// Finds the last place of a character.
pub fn find_last_char(s: &[char], c: char) -> (r: Option<usize>)
    ensures
        match r {
            Some(i) => i < s@.len() && s@[i as int] == c && forall|k: int|
                i < k < s@.len() ==> s@[k] != c,
            None => forall|k: int| 0 <= k < s@.len() ==> s@[k] != c,
        },
{
    let mut i: usize = s.len();
    while i > 0
        invariant
            i <= s.len(),
            forall|k: int| i <= k < s@.len() ==> s@[k] != c,
        decreases i,
    {
        i -= 1;
        if s[i] == c {
            return Some(i);
        }
    }
    None
}

/// The text with every `from` in it turned into `to`.
pub open spec fn with_char_replaced(s: Seq<char>, from: char, to: char) -> Seq<char> {
    s.map_values(
        |c: char|
            if c == from {
                to
            } else {
                c
            },
    )
}

/// Turns every `from` of the text into `to`.
pub fn replace_char(s: &[char], from: char, to: char) -> (v: Vec<char>)
    ensures
        v@ == with_char_replaced(s@, from, to),
{
    let mut v: Vec<char> = Vec::new();
    let mut i: usize = 0;
    while i < s.len()
        invariant
            i <= s.len(),
            v@ == with_char_replaced(s@, from, to).take(i as int),
        decreases s.len() - i,
    {
        let c: char = if s[i] == from {
            to
        } else {
            s[i]
        };
        assert(with_char_replaced(s@, from, to).take(i + 1) =~= with_char_replaced(
            s@,
            from,
            to,
        ).take(i as int).push(c));
        v.push(c);
        i += 1;
    }
    assert(v@ =~= with_char_replaced(s@, from, to));
    v
}

/// The text from position `i` on with every `pat` in it, taken from the left and
/// without overlap, turned into `by`.
pub open spec fn with_text_replaced(s: Seq<char>, pat: Seq<char>, by: Seq<char>, i: int) -> Seq<
    char,
>
    decreases s.len() - i,
{
    if i >= s.len() {
        seq![]
    } else if pat.len() > 0 && occurs_at(s, pat, i) {
        by + with_text_replaced(s, pat, by, i + pat.len())
    } else {
        seq![s[i]] + with_text_replaced(s, pat, by, i + 1)
    }
}

/// Turns every `pat` of the text into `by`.
pub fn replace_text(s: &[char], pat: &str, by: &str) -> (v: Vec<char>)
    requires
        0 < pat@.len(),
    ensures
        v@ == with_text_replaced(s@, pat@, by@, 0),
{
    let ghost want = with_text_replaced(s@, pat@, by@, 0);
    let pat: Vec<char> = chars_of(pat);
    let by: Vec<char> = chars_of(by);
    let mut v: Vec<char> = Vec::new();
    let mut i: usize = 0;
    while i < s.len()
        invariant
            0 < pat@.len(),
            i <= s.len(),
            want == v@ + with_text_replaced(s@, pat@, by@, i as int),
        decreases s.len() - i,
    {
        let ghost before = v@;
        if occurs_here(s, pat.as_slice(), i) {
            push_all(&mut v, by.as_slice());
            assert(want =~= v@ + with_text_replaced(s@, pat@, by@, i + pat@.len()));
            i += pat.len();
        } else {
            v.push(s[i]);
            assert(want =~= v@ + with_text_replaced(s@, pat@, by@, i + 1));
            i += 1;
        }
    }
    assert(want =~= v@);
    v
}

/// The characters of the Unicode property `White_Space`.
pub open spec fn is_whitespace(c: char) -> bool {
    let n = c as u32;
    ||| 0x9 <= n <= 0xd
    ||| n == 0x20
    ||| n == 0x85
    ||| n == 0xa0
    ||| n == 0x1680
    ||| 0x2000 <= n <= 0x200a
    ||| n == 0x2028
    ||| n == 0x2029
    ||| n == 0x202f
    ||| n == 0x205f
    ||| n == 0x3000
}

fn whitespace(c: char) -> (r: bool)
    ensures
        r == is_whitespace(c),
{
    let n: u32 = c as u32;
    (0x9 <= n && n <= 0xd) || n == 0x20 || n == 0x85 || n == 0xa0 || n == 0x1680 || (0x2000 <= n
        && n <= 0x200a) || n == 0x2028 || n == 0x2029 || n == 0x202f || n == 0x205f || n == 0x3000
}

/// The first position from `i` on that is blank or the end, if `blank` is set, and
/// else the first that is neither.
pub open spec fn scan(s: Seq<char>, i: int, blank: bool) -> int
    decreases s.len() - i,
{
    if i >= s.len() {
        s.len() as int
    } else if is_whitespace(s[i]) == blank {
        i
    } else {
        scan(s, i + 1, blank)
    }
}

proof fn lemma_scan(s: Seq<char>, i: int, blank: bool)
    requires
        0 <= i <= s.len(),
    ensures
        i <= scan(s, i, blank) <= s.len(),
        scan(s, i, blank) < s.len() ==> is_whitespace(s[scan(s, i, blank)]) == blank,
    decreases s.len() - i,
{
    if i < s.len() && is_whitespace(s[i]) != blank {
        lemma_scan(s, i + 1, blank);
    }
}

/// The words of the text from position `i` on: its longest runs without a blank.
pub open spec fn words(s: Seq<char>, i: int) -> Seq<Seq<char>>
    decreases s.len() - i,
    via words_decreases
{
    let from = scan(s, i, false);
    let to = scan(s, from, true);
    if i < 0 || from >= s.len() {
        seq![]
    } else {
        seq![s.subrange(from, to)] + words(s, to)
    }
}

#[via_fn]
proof fn words_decreases(s: Seq<char>, i: int) {
    if 0 <= i && i <= s.len() {
        lemma_scan(s, i, false);
        let from = scan(s, i, false);
        lemma_scan(s, from, true);
        if from < s.len() {
            assert(scan(s, from, true) == scan(s, from + 1, true));
            lemma_scan(s, from + 1, true);
        }
    }
}

/// The characters of each of the texts.
pub open spec fn views(v: Seq<Vec<char>>) -> Seq<Seq<char>> {
    v.map_values(|t: Vec<char>| t@)
}

fn scan_from(s: &[char], i: usize, blank: bool) -> (r: usize)
    requires
        i <= s@.len(),
    ensures
        r == scan(s@, i as int, blank),
        i <= r <= s@.len(),
{
    let mut k: usize = i;
    while k < s.len() && whitespace(s[k]) != blank
        invariant
            i <= k <= s@.len(),
            scan(s@, i as int, blank) == scan(s@, k as int, blank),
        decreases s.len() - k,
    {
        k += 1;
    }
    k
}

/// Splits the text into its words.
pub fn split_words(s: &[char]) -> (v: Vec<Vec<char>>)
    ensures
        views(v@) == words(s@, 0),
{
    let ghost want = words(s@, 0);
    let mut v: Vec<Vec<char>> = Vec::new();
    let mut i: usize = 0;
    loop
        invariant
            i <= s@.len(),
            want == views(v@) + words(s@, i as int),
        ensures
            want == views(v@),
        decreases s.len() - i,
    {
        let from: usize = scan_from(s, i, false);
        if from >= s.len() {
            assert(want =~= views(v@));
            break;
        }
        let to: usize = scan_from(s, from, true);
        proof {
            lemma_scan(s@, i as int, false);
            assert(scan(s@, from as int, true) == scan(s@, from + 1, true));
            lemma_scan(s@, from + 1, true);
        }
        let ghost before = v@;
        let word: Vec<char> = slice_chars(s, from, to);
        v.push(word);
        assert(views(v@) =~= views(before).push(s@.subrange(from as int, to as int)));
        assert(want =~= views(v@) + words(s@, to as int));
        i = to;
    }
    v
}

/// The texts one behind the other with `sep` between them.
pub open spec fn joined(parts: Seq<Seq<char>>, sep: Seq<char>) -> Seq<char>
    decreases parts.len(),
{
    if parts.len() == 0 {
        seq![]
    } else if parts.len() == 1 {
        parts[0]
    } else {
        joined(parts.drop_last(), sep) + sep + parts.last()
    }
}

/// Puts the texts one behind the other with `sep` between them.
pub fn join(parts: &Vec<Vec<char>>, sep: &str) -> (v: Vec<char>)
    ensures
        v@ == joined(views(parts@), sep@),
{
    let ghost all = views(parts@);
    let mut v: Vec<char> = Vec::new();
    let mut i: usize = 0;
    while i < parts.len()
        invariant
            i <= parts.len(),
            all == views(parts@),
            v@ == joined(all.take(i as int), sep@),
        decreases parts.len() - i,
    {
        if i > 0 {
            push_str(&mut v, sep);
        }
        push_all(&mut v, parts[i].as_slice());
        proof {
            assert(all.take(i + 1).drop_last() =~= all.take(i as int));
            assert(all.take(i + 1).last() == parts@[i as int]@);
            if i == 0 {
                assert(v@ =~= parts@[0]@);
            }
        }
        i += 1;
    }
    assert(all.take(all.len() as int) =~= all);
    v
}

/// The value of a decimal digit.
pub open spec fn digit(c: char) -> int {
    c as u32 as int - 0x30
}

/// The characters are decimal digits, all of them.
pub open spec fn all_digits(s: Seq<char>) -> bool {
    forall|i: int| 0 <= i < s.len() ==> 0 <= #[trigger] digit(s[i]) <= 9
}

/// The number that the digits write down.
pub open spec fn digits_value(s: Seq<char>) -> int
    decreases s.len(),
{
    if s.len() == 0 {
        0
    } else {
        digits_value(s.drop_last()) * 10 + digit(s.last())
    }
}

/// The digits of a number: the text without the one `+` that may come first.
pub open spec fn unsigned_digits(s: Seq<char>) -> Seq<char> {
    if s.len() > 0 && s[0] == '+' {
        s.skip(1)
    } else {
        s
    }
}

/// The number no larger than `max` that the text writes down in decimal, if it is one.
pub open spec fn decimal(s: Seq<char>, max: int) -> Option<int> {
    let d = unsigned_digits(s);
    if d.len() > 0 && all_digits(d) && digits_value(d) <= max {
        Some(digits_value(d))
    } else {
        None
    }
}

proof fn lemma_digits_value_mono(s: Seq<char>, i: int)
    requires
        all_digits(s),
        0 <= i <= s.len(),
    ensures
        0 <= digits_value(s.take(i)) <= digits_value(s),
    decreases s.len(),
{
    if i == s.len() {
        assert(s.take(i) =~= s);
        if i > 0 {
            assert(all_digits(s.drop_last())) by {
                assert forall|k: int| 0 <= k < s.drop_last().len() implies 0
                    <= #[trigger] digit(s.drop_last()[k]) <= 9 by {
                    assert(digit(s[k]) == digit(s.drop_last()[k]));
                }
            }
            lemma_digits_value_mono(s.drop_last(), i - 1);
            assert(digit(s[s.len() - 1]) == digit(s.last()));
        }
    } else {
        assert(all_digits(s.drop_last())) by {
            assert forall|k: int| 0 <= k < s.drop_last().len() implies 0
                <= #[trigger] digit(s.drop_last()[k]) <= 9 by {
                assert(digit(s[k]) == digit(s.drop_last()[k]));
            }
        }
        assert(s.take(i) =~= s.drop_last().take(i));
        lemma_digits_value_mono(s.drop_last(), i);
        assert(digit(s[s.len() - 1]) == digit(s.last()));
    }
}

/// Reads a decimal number no larger than `max`; a `+` in front is accepted.
pub fn parse_decimal(s: &[char], max: u64) -> (r: Option<u64>)
    ensures
        match r {
            Some(n) => decimal(s@, max as int) == Some(n as int),
            None => decimal(s@, max as int) is None,
        },
{
    let from: usize = if s.len() > 0 && s[0] == '+' {
        1
    } else {
        0
    };
    let ghost d = unsigned_digits(s@);
    assert(d =~= s@.skip(from as int));
    if from == s.len() {
        return None;
    }
    let mut value: u64 = 0;
    let mut i: usize = from;
    while i < s.len()
        invariant
            from <= i <= s.len(),
            d == s@.skip(from as int),
            d == unsigned_digits(s@),
            d.len() > 0,
            all_digits(d.take(i - from)),
            value == digits_value(d.take(i - from)),
            value <= max,
        decreases s.len() - i,
    {
        let c: u32 = s[i] as u32;
        assert(d[i - from] == s@[i as int]);
        if c < 0x30 || c > 0x39 {
            assert(!(0 <= digit(d[i - from]) <= 9));
            return None;
        }
        let next: Option<u64> = match value.checked_mul(10) {
            Some(tens) => tens.checked_add((c - 0x30) as u64),
            None => None,
        };
        proof {
            let k = i - from;
            assert(d.take(k + 1).drop_last() =~= d.take(k));
            assert(d.take(k + 1).last() == d[k]);
            assert(all_digits(d.take(k + 1))) by {
                assert forall|j: int| 0 <= j < d.take(k + 1).len() implies 0
                    <= #[trigger] digit(d.take(k + 1)[j]) <= 9 by {
                    if j < k {
                        assert(digit(d.take(k)[j]) == digit(d.take(k + 1)[j]));
                    }
                }
            }
            assert(digits_value(d.take(k + 1)) == value * 10 + (c - 0x30));
            if all_digits(d) {
                lemma_digits_value_mono(d, k + 1);
            }
        }
        match next {
            Some(n) => {
                if n > max {
                    return None;
                }
                value = n;
            },
            None => {
                return None;
            },
        }
        i += 1;
    }
    assert(d.take(d.len() as int) =~= d);
    Some(value)
}

/// The character in upper case, where it is a letter of ASCII.
pub open spec fn ascii_upper(c: char) -> char {
    if 'a' <= c <= 'z' {
        ((c as u32 - 0x20) as u32) as char
    } else {
        c
    }
}

/// The UTF-16 units of a character.
pub open spec fn utf16_units(c: char) -> Seq<u16> {
    let n = c as u32 as int;
    if n < 0x1_0000 {
        seq![n as u16]
    } else {
        seq![
            (0xd800 + (n - 0x1_0000) / 0x400) as u16,
            (0xdc00 + (n - 0x1_0000) % 0x400) as u16,
        ]
    }
}

/// The UTF-16 units of a text.
pub open spec fn utf16(s: Seq<char>) -> Seq<u16>
    decreases s.len(),
{
    if s.len() == 0 {
        seq![]
    } else {
        utf16(s.drop_last()) + utf16_units(s.last())
    }
}

/// The text as UTF-16 with a zero behind it, as the Windows interfaces take names.
pub fn to_wide(s: &str) -> (w: Vec<u16>)
    ensures
        w@ == utf16(s@).push(0),
{
    let chars: Vec<char> = chars_of(s);
    let mut w: Vec<u16> = Vec::new();
    let mut i: usize = 0;
    while i < chars.len()
        invariant
            chars@ == s@,
            i <= chars.len(),
            w@ == utf16(s@.take(i as int)),
        decreases chars.len() - i,
    {
        let n: u32 = chars[i] as u32;
        proof {
            assert(s@.take(i + 1).drop_last() =~= s@.take(i as int));
            assert(s@.take(i + 1).last() == s@[i as int]);
        }
        let ghost before = w@;
        if n < 0x1_0000 {
            w.push(n as u16);
        } else {
            let rest: u32 = n - 0x1_0000;
            w.push((0xd800 + rest / 0x400) as u16);
            w.push((0xdc00 + rest % 0x400) as u16);
        }
        assert(w@ =~= before + utf16_units(s@[i as int]));
        i += 1;
    }
    assert(s@.take(s@.len() as int) =~= s@);
    w.push(0);
    w
}

/// The first place of a character, or the length of a text without it.
pub open spec fn first_index(s: Seq<char>, c: char) -> int
    decreases s.len(),
{
    if s.len() == 0 || s[0] == c {
        0
    } else {
        1 + first_index(s.skip(1), c)
    }
}

/// The last place of a character, or -1 in a text without it.
pub open spec fn last_index(s: Seq<char>, c: char) -> int
    decreases s.len(),
{
    if s.len() == 0 {
        -1
    } else if s.last() == c {
        s.len() - 1
    } else {
        last_index(s.drop_last(), c)
    }
}

/// The first place of a character is where it stands with none before it.
pub proof fn lemma_first_index(s: Seq<char>, c: char, i: int)
    requires
        0 <= i <= s.len(),
        forall|k: int| 0 <= k < i ==> s[k] != c,
        i < s.len() ==> s[i] == c,
    ensures
        first_index(s, c) == i,
    decreases s.len(),
{
    if i > 0 {
        assert(s[0] != c);
        assert forall|k: int| 0 <= k < i - 1 implies s.skip(1)[k] != c by {
            assert(s[k + 1] != c);
        }
        lemma_first_index(s.skip(1), c, i - 1);
    }
}

/// The last place of a character is where it stands with none behind it.
pub proof fn lemma_last_index(s: Seq<char>, c: char, i: int)
    requires
        -1 <= i < s.len(),
        forall|k: int| i < k < s.len() ==> s[k] != c,
        i >= 0 ==> s[i] == c,
    ensures
        last_index(s, c) == i,
    decreases s.len(),
{
    if i < s.len() - 1 {
        assert(s[s.len() - 1] != c);
        lemma_last_index(s.drop_last(), c, i);
    }
}

/// The two parts of a text around the first place of a character.
pub fn split_once(s: &[char], c: char) -> (r: Option<(Vec<char>, Vec<char>)>)
    ensures
        match r {
            Some((a, b)) => {
                &&& 0 <= first_index(s@, c) < s@.len()
                &&& a@ == s@.take(first_index(s@, c))
                &&& b@ == s@.skip(first_index(s@, c) + 1)
            },
            None => first_index(s@, c) == s@.len(),
        },
{
    match find_char(s, c) {
        Some(i) => {
            proof {
                lemma_first_index(s@, c, i as int);
            }
            let end: usize = s.len();
            Some((slice_chars(s, 0, i), slice_chars(s, i + 1, end)))
        },
        None => {
            proof {
                lemma_first_index(s@, c, s@.len() as int);
            }
            None
        },
    }
}

/// The two parts of a text around the last place of a character.
pub fn rsplit_once(s: &[char], c: char) -> (r: Option<(Vec<char>, Vec<char>)>)
    ensures
        match r {
            Some((a, b)) => {
                &&& 0 <= last_index(s@, c) < s@.len()
                &&& a@ == s@.take(last_index(s@, c))
                &&& b@ == s@.skip(last_index(s@, c) + 1)
            },
            None => last_index(s@, c) == -1,
        },
{
    match find_last_char(s, c) {
        Some(i) => {
            proof {
                lemma_last_index(s@, c, i as int);
            }
            let end: usize = s.len();
            Some((slice_chars(s, 0, i), slice_chars(s, i + 1, end)))
        },
        None => {
            proof {
                lemma_last_index(s@, c, -1);
            }
            None
        },
    }
}

/// The digit of a value below 10.
pub open spec fn digit_char(d: int) -> char {
    (0x30 + d) as char
}

/// A number in decimal.
pub open spec fn decimal_text(n: nat) -> Seq<char>
    decreases n,
{
    if n < 10 {
        seq![digit_char(n as int)]
    } else {
        decimal_text(n / 10).push(digit_char((n % 10) as int))
    }
}

fn char_of_digit(d: u64) -> (c: char)
    requires
        d < 10,
    ensures
        c == digit_char(d as int),
{
    match d {
        0 => '0',
        1 => '1',
        2 => '2',
        3 => '3',
        4 => '4',
        5 => '5',
        6 => '6',
        7 => '7',
        8 => '8',
        _ => '9',
    }
}

/// Appends a number in decimal.
pub fn push_decimal(out: &mut Vec<char>, n: u64)
    ensures
        final(out)@ == old(out)@ + decimal_text(n as nat),
    decreases n,
{
    if n >= 10 {
        push_decimal(out, n / 10);
    }
    out.push(char_of_digit(n % 10));
    assert(out@ =~= old(out)@ + decimal_text(n as nat));
}

/// A number that was written in decimal is read back as it was.
pub proof fn law_decimal_survives(n: nat, max: int)
    requires
        n <= max,
    ensures
        decimal(decimal_text(n), max) == Some(n as int),
{
    lemma_decimal_text(n);
}

proof fn lemma_decimal_text(n: nat)
    ensures
        decimal_text(n).len() > 0,
        all_digits(decimal_text(n)),
        digits_value(decimal_text(n)) == n,
        decimal_text(n)[0] != '+',
    decreases n,
{
    let s = decimal_text(n);
    if n < 10 {
        assert(s.drop_last() =~= Seq::<char>::empty());
        assert(digits_value(s.drop_last()) == 0);
    } else {
        lemma_decimal_text(n / 10);
        let t = decimal_text(n / 10);
        assert(s.drop_last() =~= t);
        assert forall|i: int| 0 <= i < s.len() implies 0 <= #[trigger] digit(s[i]) <= 9 by {
            if i < t.len() {
                assert(digit(s[i]) == digit(t[i]));
            }
        }
    }
}

/// No character of the text is blank.
pub open spec fn is_solid(s: Seq<char>) -> bool {
    forall|i: int| 0 <= i < s.len() ==> !is_whitespace(#[trigger] s[i])
}

/// The text writes this number down with digits, the first of them with the greatest weight.
pub open spec fn weighs(s: Seq<char>) -> int
    decreases s.len(),
{
    if s.len() == 0 {
        0
    } else {
        (s[0] as int - '0' as int) * vstd::arithmetic::power::pow(10, (s.len() - 1) as nat)
            + weighs(s.skip(1))
    }
}

/// A blank is a space, one of the controls that move the pen, or one of the wider or
/// narrower spaces of the world's scripts.
pub proof fn law_blanks_are_these(c: char)
    ensures
        is_whitespace(c) <==> ({
            ||| c == ' ' || c == '\t' || c == '\n' || c == '\r'
            ||| c == '\u{b}' || c == '\u{c}' || c == '\u{85}' || c == '\u{a0}'
            ||| c == '\u{1680}' || '\u{2000}' <= c <= '\u{200a}'
            ||| c == '\u{2028}' || c == '\u{2029}' || c == '\u{202f}'
            ||| c == '\u{205f}' || c == '\u{3000}'
        }),
{
}

proof fn lemma_scan_stops(s: Seq<char>, i: int, blank: bool)
    requires
        0 <= i <= s.len(),
    ensures
        i <= scan(s, i, blank) <= s.len(),
        forall|k: int|
            i <= k < scan(s, i, blank) ==> is_whitespace(#[trigger] s[k]) != blank,
        scan(s, i, blank) < s.len() ==> is_whitespace(s[scan(s, i, blank)]) == blank,
    decreases s.len() - i,
{
    if i < s.len() && is_whitespace(s[i]) != blank {
        lemma_scan_stops(s, i + 1, blank);
    }
}

proof fn lemma_scan_is(s: Seq<char>, i: int, blank: bool, at: int)
    requires
        0 <= i <= at <= s.len(),
        forall|k: int| i <= k < at ==> is_whitespace(#[trigger] s[k]) != blank,
        at < s.len() ==> is_whitespace(s[at]) == blank,
    ensures
        scan(s, i, blank) == at,
    decreases at - i,
{
    if i < at {
        assert(is_whitespace(s[i]) != blank);
        lemma_scan_is(s, i + 1, blank, at);
    }
}

proof fn lemma_words_of_the_rest(s: Seq<char>, t: Seq<char>, by: int, j: int)
    requires
        0 <= by,
        0 <= j <= t.len(),
        s.len() == by + t.len(),
        t == s.skip(by),
    ensures
        words(s, by + j) == words(t, j),
    decreases t.len() - j,
{
    let from = scan(t, j, false);
    lemma_scan_stops(t, j, false);
    assert forall|k: int| by + j <= k < by + from implies is_whitespace(#[trigger] s[k]) by {
        assert(t[k - by] == s[k]);
    }
    assert(from < t.len() ==> t[from] == s[by + from]);
    lemma_scan_is(s, by + j, false, by + from);
    if from < t.len() {
        let to = scan(t, from, true);
        lemma_scan_stops(t, from, true);
        assert(from < to);
        assert forall|k: int| by + from <= k < by + to implies !is_whitespace(
            #[trigger] s[k],
        ) by {
            assert(t[k - by] == s[k]);
        }
        assert(to < t.len() ==> t[to] == s[by + to]);
        lemma_scan_is(s, by + from, true, by + to);
        assert(s.subrange(by + from, by + to) =~= t.subrange(from, to));
        lemma_words_of_the_rest(s, t, by, to);
    }
}

proof fn lemma_words_apart(s: Seq<char>, b: char, t: Seq<char>, i: int)
    requires
        is_whitespace(b),
        0 <= i <= s.len(),
    ensures
        words(s.push(b) + t, i) == words(s, i) + words(t, 0),
    decreases s.len() - i,
{
    let u = s.push(b) + t;
    let n = s.len() as int;
    let from = scan(s, i, false);
    lemma_scan_stops(s, i, false);
    assert(u.skip(n + 1) =~= t);
    lemma_words_of_the_rest(u, t, n + 1, 0);
    if from < n {
        assert forall|k: int| i <= k < from implies is_whitespace(#[trigger] u[k]) by {
            assert(s[k] == u[k]);
        }
        assert(u[from] == s[from]);
        lemma_scan_is(u, i, false, from);
        let to = scan(s, from, true);
        lemma_scan_stops(s, from, true);
        assert(from < to);
        assert forall|k: int| from <= k < to implies !is_whitespace(#[trigger] u[k]) by {
            assert(s[k] == u[k]);
        }
        assert(to < n ==> u[to] == s[to]);
        lemma_scan_is(u, from, true, to);
        assert(u.subrange(from, to) =~= s.subrange(from, to));
        lemma_words_apart(s, b, t, to);
        assert(words(u, i) =~= words(s, i) + words(t, 0));
    } else {
        let on = scan(u, n + 1, false);
        lemma_scan_stops(u, n + 1, false);
        assert forall|k: int| i <= k < on implies is_whitespace(#[trigger] u[k]) by {
            if k < n {
                assert(s[k] == u[k]);
            }
        }
        lemma_scan_is(u, i, false, on);
        assert(words(u, i) == words(u, n + 1));
        assert(words(s, i) + words(t, 0) =~= words(t, 0));
    }
}

proof fn lemma_words_are_solid(s: Seq<char>, i: int)
    requires
        0 <= i <= s.len(),
    ensures
        forall|k: int|
            0 <= k < words(s, i).len() ==> (#[trigger] words(s, i)[k]).len() > 0 && is_solid(
                words(s, i)[k],
            ),
    decreases s.len() - i,
{
    let from = scan(s, i, false);
    lemma_scan_stops(s, i, false);
    if from < s.len() {
        let to = scan(s, from, true);
        lemma_scan_stops(s, from, true);
        lemma_words_are_solid(s, to);
        let first = s.subrange(from, to);
        assert(is_solid(first)) by {
            assert forall|k: int| 0 <= k < first.len() implies !is_whitespace(
                #[trigger] first[k],
            ) by {
                assert(first[k] == s[from + k]);
            }
        }
        assert forall|k: int| 0 <= k < words(s, i).len() implies (#[trigger] words(s, i)[k]).len()
            > 0 && is_solid(words(s, i)[k]) by {
            if k > 0 {
                assert(words(s, i)[k] == words(s, to)[k - 1]);
            }
        }
    }
}

proof fn lemma_solid_word(s: Seq<char>)
    requires
        is_solid(s),
    ensures
        words(s, 0) == if s.len() == 0 {
            Seq::<Seq<char>>::empty()
        } else {
            seq![s]
        },
{
    if s.len() > 0 {
        lemma_scan_is(s, 0, false, 0);
        lemma_scan_is(s, 0, true, s.len() as int);
        assert(s.subrange(0, s.len() as int) =~= s);
        assert(words(s, s.len() as int) =~= seq![]);
        assert(words(s, 0) =~= seq![s]);
    }
}

/// No word of a text is empty, and none holds a blank.
pub proof fn law_words_are_solid(s: Seq<char>)
    ensures
        forall|k: int|
            0 <= k < words(s, 0).len() ==> (#[trigger] words(s, 0)[k]).len() > 0 && is_solid(
                words(s, 0)[k],
            ),
{
    lemma_words_are_solid(s, 0);
}

/// No word is empty or holds a blank. A text without blanks is its own only word, and the
/// words of two texts with a blank between them are those of the one and then those of the
/// other.
pub proof fn law_text_is_split_at_blanks(
    s: &[char],
    b: char,
    t: &[char],
    both: &[char],
    one: Vec<Vec<char>>,
    other: Vec<Vec<char>>,
    all: Vec<Vec<char>>,
)
    requires
        is_whitespace(b),
        both@ == s@.push(b) + t@,
        call_ensures(split_words, (s,), one),
        call_ensures(split_words, (t,), other),
        call_ensures(split_words, (both,), all),
    ensures
        all@.len() == one@.len() + other@.len(),
        forall|k: int|
            0 <= k < all@.len() ==> (#[trigger] all@[k])@ == if k < one@.len() {
                one@[k]@
            } else {
                other@[k - one@.len()]@
            },
        forall|k: int| 0 <= k < one@.len() ==> (#[trigger] one@[k])@.len() > 0 && is_solid(one@[k]@),
        is_solid(s@) && s@.len() > 0 ==> one@.len() == 1 && one@[0]@ == s@,
        s@.len() == 0 ==> one@.len() == 0,
{
    lemma_words_apart(s@, b, t@, 0);
    lemma_words_are_solid(s@, 0);
    if is_solid(s@) {
        lemma_solid_word(s@);
    }
    assert(views(one@).len() == one@.len() && views(other@).len() == other@.len());
    assert(views(all@).len() == all@.len());
    assert forall|k: int| 0 <= k < all@.len() implies (#[trigger] all@[k])@ == if k < one@.len() {
        one@[k]@
    } else {
        other@[k - one@.len()]@
    } by {
        assert(views(all@)[k] == all@[k]@);
        if k < one@.len() {
            assert(views(one@)[k] == one@[k]@);
        } else {
            assert(views(other@)[k - one@.len()] == other@[k - one@.len()]@);
        }
    }
    assert forall|k: int| 0 <= k < one@.len() implies (#[trigger] one@[k])@.len() > 0 && is_solid(
        one@[k]@,
    ) by {
        assert(views(one@)[k] == one@[k]@);
    }
    if s@.len() > 0 && is_solid(s@) {
        assert(views(one@)[0] == one@[0]@);
    }
}

/// Words that are put one behind the other with a blank between them are the words of the
/// text that comes out.
pub proof fn law_joined_words_are_split_again(ws: Seq<Seq<char>>)
    requires
        forall|k: int| 0 <= k < ws.len() ==> (#[trigger] ws[k]).len() > 0 && is_solid(ws[k]),
    ensures
        words(joined(ws, " "@), 0) == ws,
    decreases ws.len(),
{
    reveal_strlit(" ");
    if ws.len() == 0 {
        assert(words(seq![], 0) =~= ws);
    } else if ws.len() == 1 {
        assert(ws[0].len() > 0);
        lemma_solid_word(ws[0]);
        assert(ws =~= seq![ws[0]]);
    } else {
        let init = ws.drop_last();
        assert forall|k: int| 0 <= k < init.len() implies (#[trigger] init[k]).len() > 0
            && is_solid(init[k]) by {
            assert(init[k] == ws[k]);
        }
        law_joined_words_are_split_again(init);
        assert(ws[ws.len() - 1].len() > 0);
        lemma_solid_word(ws.last());
        assert(" "@ =~= seq![' ']);
        assert(joined(ws, " "@) =~= joined(init, " "@).push(' ') + ws.last());
        lemma_words_apart(joined(init, " "@), ' ', ws.last(), 0);
        assert(ws =~= init + seq![ws.last()]);
    }
}

/// One text alone is joined to itself, and two lists of texts are joined by joining each and
/// putting what separates them between.
pub proof fn law_joined_lists_are_joined(
    a: &Vec<Vec<char>>,
    b: &Vec<Vec<char>>,
    both: &Vec<Vec<char>>,
    sep: &str,
    one: Vec<char>,
    other: Vec<char>,
    all: Vec<char>,
)
    requires
        a@.len() > 0 && b@.len() > 0,
        both@ == a@ + b@,
        call_ensures(join, (a, sep), one),
        call_ensures(join, (b, sep), other),
        call_ensures(join, (both, sep), all),
    ensures
        all@ == one@ + sep@ + other@,
        a@.len() == 1 ==> one@ == a@[0]@,
{
    assert(views(both@) =~= views(a@) + views(b@));
    lemma_joined_apart(views(a@), views(b@), sep@);
    if a@.len() == 1 {
        assert(views(a@)[0] == a@[0]@);
    }
}

proof fn lemma_joined_apart(a: Seq<Seq<char>>, b: Seq<Seq<char>>, sep: Seq<char>)
    requires
        a.len() > 0 && b.len() > 0,
    ensures
        joined(a + b, sep) == joined(a, sep) + sep + joined(b, sep),
    decreases b.len(),
{
    assert((a + b).drop_last() =~= a + b.drop_last());
    assert((a + b).last() == b.last());
    if b.len() == 1 {
        assert(a + b.drop_last() =~= a);
        assert(joined(a + b, sep) =~= joined(a, sep) + sep + joined(b, sep));
    } else {
        lemma_joined_apart(a, b.drop_last(), sep);
        assert(joined(a + b, sep) =~= joined(a, sep) + sep + joined(b, sep));
    }
}

proof fn lemma_replaced_in_the_rest(s: Seq<char>, pat: Seq<char>, by: Seq<char>, n: int, i: int)
    requires
        0 <= n <= s.len(),
        0 <= i,
    ensures
        with_text_replaced(s, pat, by, n + i) == with_text_replaced(s.skip(n), pat, by, i),
    decreases s.len() - n - i,
{
    let t = s.skip(n);
    if n + i < s.len() {
        if n + i + pat.len() <= s.len() {
            assert(s.subrange(n + i, n + i + pat.len()) =~= t.subrange(i, i + pat.len()));
        }
        assert(occurs_at(s, pat, n + i) == occurs_at(t, pat, i));
        if pat.len() > 0 && occurs_at(t, pat, i) {
            lemma_replaced_in_the_rest(s, pat, by, n, i + pat.len());
        } else {
            lemma_replaced_in_the_rest(s, pat, by, n, i + 1);
        }
    }
}

proof fn lemma_replaced_behind(s: Seq<char>, pat: Seq<char>, by: Seq<char>, i: int, at: int)
    requires
        0 <= i <= at <= s.len(),
        forall|k: int| i <= k < at ==> !#[trigger] occurs_at(s, pat, k),
    ensures
        with_text_replaced(s, pat, by, i) == s.subrange(i, at) + with_text_replaced(
            s,
            pat,
            by,
            at,
        ),
    decreases at - i,
{
    if i < at {
        assert(!occurs_at(s, pat, i));
        lemma_replaced_behind(s, pat, by, i + 1, at);
        assert(s.subrange(i, at) =~= seq![s[i]] + s.subrange(i + 1, at));
        assert(with_text_replaced(s, pat, by, i) =~= s.subrange(i, at) + with_text_replaced(
            s,
            pat,
            by,
            at,
        ));
    } else {
        assert(with_text_replaced(s, pat, by, i) =~= s.subrange(i, at) + with_text_replaced(
            s,
            pat,
            by,
            at,
        ));
    }
}

/// A text in which the pattern stands nowhere stays as it is. In any other, what comes before
/// its first place stays, the pattern there is replaced, and the same is done with what
/// follows.
pub proof fn law_every_place_is_replaced(
    s: &[char],
    pat: &str,
    by: &str,
    r: Vec<char>,
    at: int,
    rest: &[char],
    q: Vec<char>,
)
    requires
        pat@.len() > 0,
        0 <= at <= s@.len(),
        forall|k: int|
            #![trigger s@.subrange(k, k + pat@.len())]
            0 <= k < at && k + pat@.len() <= s@.len() ==> s@.subrange(k, k + pat@.len()) != pat@,
        call_ensures(replace_text, (s, pat, by), r),
        call_ensures(replace_text, (rest, pat, by), q),
    ensures
        at == s@.len() ==> r@ == s@,
        s@ == s@.take(at) + pat@ + rest@ ==> r@ == s@.take(at) + by@ + q@,
{
    assert forall|k: int| 0 <= k < at implies !#[trigger] occurs_at(s@, pat@, k) by {
        if k + pat@.len() <= s@.len() {
            assert(s@.subrange(k, k + pat@.len()) != pat@);
        }
    }
    lemma_replaced_behind(s@, pat@, by@, 0, at);
    if at == s@.len() {
        assert(s@.subrange(0, at) + with_text_replaced(s@, pat@, by@, at) =~= s@);
    }
    if s@ == s@.take(at) + pat@ + rest@ {
        assert(s@.len() == at + pat@.len() + rest@.len());
        assert(s@.subrange(at, at + pat@.len()) =~= pat@);
        assert(occurs_at(s@, pat@, at));
        lemma_replaced_in_the_rest(s@, pat@, by@, at + pat@.len(), 0);
        assert(s@.skip(at + pat@.len()) =~= rest@);
        assert(r@ =~= s@.take(at) + by@ + q@);
    }
}

/// A character is replaced wherever it stands, and no other is.
pub proof fn law_every_character_is_replaced(s: &[char], from: char, to: char, r: Vec<char>, i: int)
    requires
        call_ensures(replace_char, (s, from, to), r),
        0 <= i < s@.len(),
    ensures
        r@.len() == s@.len(),
        s@[i] == from ==> r@[i] == to,
        s@[i] != from ==> r@[i] == s@[i],
{
}

/// A text is split at the first place of a character: it does not stand in the first part,
/// and the two parts with it between them are the text. Only a text without it is not split.
pub proof fn law_text_is_split_at_the_first(
    s: &[char],
    c: char,
    r: Option<(Vec<char>, Vec<char>)>,
)
    requires
        call_ensures(split_once, (s, c), r),
    ensures
        r is None <==> !s@.contains(c),
        r matches Some((a, b)) ==> s@ == a@.push(c) + b@ && !a@.contains(c),
{
    lemma_first_place(s@, c);
    let i = first_index(s@, c);
    if i < s@.len() {
        assert(s@.contains(s@[i]));
        assert(s@ =~= s@.take(i).push(c) + s@.skip(i + 1));
    }
}

proof fn lemma_first_place(s: Seq<char>, c: char)
    ensures
        0 <= first_index(s, c) <= s.len(),
        forall|k: int| 0 <= k < first_index(s, c) ==> #[trigger] s[k] != c,
        first_index(s, c) < s.len() ==> s[first_index(s, c)] == c,
    decreases s.len(),
{
    if s.len() > 0 && s[0] != c {
        lemma_first_place(s.skip(1), c);
        assert forall|k: int| 0 <= k < first_index(s, c) implies #[trigger] s[k] != c by {
            if k > 0 {
                assert(s[k] == s.skip(1)[k - 1]);
            }
        }
    }
}

/// A text is split at the last place of a character: it does not stand in the second part,
/// and the two parts with it between them are the text. Only a text without it is not split.
pub proof fn law_text_is_split_at_the_last(
    s: &[char],
    c: char,
    r: Option<(Vec<char>, Vec<char>)>,
)
    requires
        call_ensures(rsplit_once, (s, c), r),
    ensures
        r is None <==> !s@.contains(c),
        r matches Some((a, b)) ==> s@ == a@.push(c) + b@ && !b@.contains(c),
{
    lemma_last_place(s@, c);
    let i = last_index(s@, c);
    if i >= 0 {
        assert(s@.contains(s@[i]));
        assert(s@ =~= s@.take(i).push(c) + s@.skip(i + 1));
        let b = s@.skip(i + 1);
        assert forall|k: int| 0 <= k < b.len() implies #[trigger] b[k] != c by {
            assert(s@[i + 1 + k] != c);
        }
    }
}

proof fn lemma_last_place(s: Seq<char>, c: char)
    ensures
        -1 <= last_index(s, c) < s.len(),
        forall|k: int| last_index(s, c) < k < s.len() ==> #[trigger] s[k] != c,
        last_index(s, c) >= 0 ==> s[last_index(s, c)] == c,
    decreases s.len(),
{
    if s.len() > 0 && s.last() != c {
        lemma_last_place(s.drop_last(), c);
        assert forall|k: int| last_index(s, c) < k < s.len() implies #[trigger] s[k] != c by {
            if k < s.len() - 1 {
                assert(s[k] == s.drop_last()[k]);
            }
        }
    }
}

/// Exactly what the pattern is put in front of begins with it, and is left when it is taken
/// away.
pub proof fn law_prefix_is_taken_away(
    s: &[char],
    pat: &str,
    rest: Seq<char>,
    begins: bool,
    r: Option<Vec<char>>,
)
    requires
        call_ensures(has_prefix, (s, pat), begins),
        call_ensures(strip_prefix, (s, pat), r),
    ensures
        begins <==> r is Some,
        r is Some ==> s@ == pat@ + (r->0)@,
        s@ == pat@ + rest ==> begins && (r->0)@ == rest,
{
    if r is Some {
        assert(s@ =~= pat@ + (r->0)@);
    }
    if s@ == pat@ + rest {
        assert(s@.subrange(0, pat@.len() as int) =~= pat@);
        assert(s@.skip(pat@.len() as int) =~= rest);
    }
}

proof fn lemma_digit(c: char)
    ensures
        digit(c) == c as int - '0' as int,
        0 <= digit(c) <= 9 <==> '0' <= c <= '9',
{
}

proof fn lemma_weighs(s: Seq<char>)
    ensures
        weighs(s) == digits_value(s),
    decreases s.len(),
{
    if s.len() > 0 {
        let init = s.drop_last();
        lemma_digit(s.last());
        lemma_weighs(init);
        lemma_weighs_behind(init, s.last());
        assert(init.push(s.last()) =~= s);
    }
}

proof fn lemma_weighs_behind(s: Seq<char>, c: char)
    ensures
        weighs(s.push(c)) == weighs(s) * 10 + (c as int - '0' as int),
    decreases s.len(),
{
    let t = s.push(c);
    vstd::arithmetic::power::lemma_pow0(10);
    if s.len() == 0 {
        assert(t.skip(1) =~= Seq::<char>::empty());
        assert(weighs(t.skip(1)) == 0);
    } else {
        lemma_weighs_behind(s.skip(1), c);
        assert(t.skip(1) =~= s.skip(1).push(c));
        let d = s[0] as int - '0' as int;
        let p = vstd::arithmetic::power::pow(10, (s.len() - 1) as nat);
        assert(vstd::arithmetic::power::pow(10, s.len()) == 10 * p) by {
            reveal(vstd::arithmetic::power::pow);
        }
        assert(d * (10 * p) == (d * p) * 10) by (nonlinear_arith);
    }
}

/// A number is written with digits alone, none of them a needless zero, that weigh what the
/// number is.
pub proof fn law_number_is_written_in_digits(out: &mut Vec<char>, n: u64)
    requires
        call_ensures(push_decimal, (out, n), ()),
    ensures
        ({
            let t = final(out)@.skip(old(out)@.len() as int);
            &&& final(out)@ == old(out)@ + t
            &&& t.len() > 0
            &&& forall|i: int| 0 <= i < t.len() ==> '0' <= #[trigger] t[i] <= '9'
            &&& t[0] == '0' ==> n == 0 && t.len() == 1
            &&& weighs(t) == n
        }),
{
    let t = decimal_text(n as nat);
    assert(final(out)@.skip(old(out)@.len() as int) =~= t);
    lemma_decimal_text(n as nat);
    lemma_weighs(t);
    lemma_no_needless_zero(n as nat);
    assert forall|i: int| 0 <= i < t.len() implies '0' <= #[trigger] t[i] <= '9' by {
        lemma_digit(t[i]);
        assert(0 <= digit(t[i]) <= 9);
    }
}

proof fn lemma_no_needless_zero(n: nat)
    ensures
        decimal_text(n)[0] == '0' ==> n == 0 && decimal_text(n).len() == 1,
    decreases n,
{
    if n >= 10 {
        lemma_no_needless_zero(n / 10);
        lemma_decimal_text(n / 10);
    }
}

/// A number is read from digits alone, with or without a `+` in front, when it is not too
/// large, and is what they weigh. Nothing else is a number.
pub proof fn law_number_is_read_from_digits(s: &[char], t: Seq<char>, max: u64, r: Option<u64>)
    requires
        s@ == seq!['+'] + t || (s@ == t && (t.len() > 0 ==> t[0] != '+')),
        call_ensures(parse_decimal, (s, max), r),
    ensures
        r is Some <==> t.len() > 0 && (forall|i: int|
            0 <= i < t.len() ==> '0' <= #[trigger] t[i] <= '9') && weighs(t) <= max,
        r matches Some(n) ==> n == weighs(t),
{
    assert(t =~= unsigned_digits(s@));
    lemma_weighs(t);
    assert(all_digits(t) <==> (forall|i: int| 0 <= i < t.len() ==> '0' <= #[trigger] t[i] <= '9'))
        by {
        if all_digits(t) {
            assert forall|i: int| 0 <= i < t.len() implies '0' <= #[trigger] t[i] <= '9' by {
                lemma_digit(t[i]);
                assert(0 <= digit(t[i]) <= 9);
            }
        } else {
            let i = choose|i: int| 0 <= i < t.len() && !(0 <= #[trigger] digit(t[i]) <= 9);
            lemma_digit(t[i]);
        }
    }
}

/// A character below the surrogates' planes is one unit of the same number; any other is a
/// pair of a high and a low one whose low ten bits hold how far it is beyond them. The units
/// of a longer text are those of its beginning and then those of its last character, and a
/// zero ends them.
pub proof fn law_text_is_widened_character_by_character(
    init: &str,
    c: char,
    s: &str,
    one: Vec<u16>,
    all: Vec<u16>,
)
    requires
        s@ == init@.push(c),
        call_ensures(to_wide, (init,), one),
        call_ensures(to_wide, (s,), all),
    ensures
        ({
            let n = one@.len() - 1;
            &&& one@[n] == 0 && all@.last() == 0
            &&& init@.len() == 0 ==> n == 0
            &&& forall|k: int| 0 <= k < n ==> #[trigger] all@[k] == one@[k]
            &&& (c as int) < 0x1_0000 ==> all@.len() == n + 2 && all@[n] == c as int
            &&& c as int >= 0x1_0000 ==> {
                &&& all@.len() == n + 3
                &&& 0xd800 <= all@[n] < 0xdc00
                &&& 0xdc00 <= all@[n + 1] < 0xe000
                &&& c as int == 0x1_0000 + (all@[n] - 0xd800) * 0x400 + (all@[n + 1] - 0xdc00)
            }
        }),
{
    assert(s@.drop_last() =~= init@);
    assert(s@.last() == c);
}

/// A text is made up of its characters, and a part of them is cut out where it stands.
pub proof fn law_text_is_made_of_its_characters(
    s: &str,
    v: Vec<char>,
    chars: &[char],
    r: String,
    from: usize,
    to: usize,
    part: Vec<char>,
    i: int,
)
    requires
        call_ensures(chars_of, (s,), v),
        chars@ == v@,
        call_ensures(string_of, (chars,), r),
        from <= to <= chars@.len(),
        call_ensures(slice_chars, (chars, from, to), part),
    ensures
        r@ == s@,
        part@.len() == to - from,
        from <= i < to ==> part@[i - from] == s@[i],
{
}

} // verus!
