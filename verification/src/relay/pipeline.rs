//! The texts of the relay's pipelines.

use crate::text;
use crate::text::{chars_of, has_prefix, is_text, join, push_all, push_decimal, push_str};
use crate::text::{replace_text, split_words, string_of};
use vstd::prelude::*;

verus! {

/// The word names media types, not an element.
pub open spec fn is_caps(word: Seq<char>) -> bool {
    text::starts_with(word, "video/"@) || text::starts_with(word, "audio/"@) || text::starts_with(
        word,
        "text/"@,
    ) || text::starts_with(word, "application/"@)
}

/// The words from the `i`-th on, with an element in front of media types that follow a
/// `!` on their own.
pub open spec fn with_capsfilters(words: Seq<Seq<char>>, i: int) -> Seq<Seq<char>>
    decreases words.len() - i,
{
    if i < 0 || i >= words.len() {
        Seq::empty()
    } else if words[i] == "!"@ && i + 1 < words.len() && is_caps(words[i + 1]) {
        seq!["!"@, "capsfilter"@, "caps="@ + words[i + 1]] + with_capsfilters(words, i + 2)
    } else {
        seq![words[i]] + with_capsfilters(words, i + 1)
    }
}

/// A pipeline with its media types put into elements; one without words stays as it is.
pub open spec fn filtered(s: Seq<char>) -> Seq<char> {
    if text::words(s, 0).len() == 0 {
        s
    } else {
        text::joined(with_capsfilters(text::words(s, 0), 0), " "@)
    }
}

/// A pipeline as a user writes it, made ready to be parsed: each escaped `!` loses its
/// backslash first.
pub open spec fn normalized(s: Seq<char>) -> Seq<char> {
    filtered(text::with_text_replaced(s, "\\!"@, "!"@, 0))
}

fn is_caps_word(word: &[char]) -> (r: bool)
    ensures
        r == is_caps(word@),
{
    has_prefix(word, "video/") || has_prefix(word, "audio/") || has_prefix(word, "text/")
        || has_prefix(word, "application/")
}

fn copied(word: &Vec<char>) -> (r: Vec<char>)
    ensures
        r@ == word@,
{
    let mut out: Vec<char> = Vec::new();
    push_all(&mut out, word.as_slice());
    assert(out@ =~= word@);
    out
}

fn filter_chars(input: &[char]) -> (r: Vec<char>)
    ensures
        r@ == filtered(input@),
{
    let words: Vec<Vec<char>> = split_words(input);
    let ghost all = text::views(words@);
    if words.len() == 0 {
        let mut same: Vec<char> = Vec::new();
        push_all(&mut same, input);
        assert(same@ =~= input@);
        return same;
    }
    let mut out: Vec<Vec<char>> = Vec::new();
    let mut i: usize = 0;
    while i < words.len()
        invariant
            i <= words.len(),
            all == text::views(words@),
            with_capsfilters(all, 0) == text::views(out@) + with_capsfilters(all, i as int),
        decreases words.len() - i,
    {
        let ghost before = text::views(out@);
        assert(all[i as int] == words@[i as int]@);
        if is_text(words[i].as_slice(), "!") && i + 1 < words.len() {
            assert(all[i + 1] == words@[i + 1]@);
            if is_caps_word(words[i + 1].as_slice()) {
                let mut caps: Vec<char> = chars_of("caps=");
                push_all(&mut caps, words[i + 1].as_slice());
                out.push(chars_of("!"));
                out.push(chars_of("capsfilter"));
                out.push(caps);
                proof {
                    assert(text::views(out@) =~= before + seq![
                        "!"@,
                        "capsfilter"@,
                        "caps="@ + all[i + 1],
                    ]);
                    assert(with_capsfilters(all, 0) =~= text::views(out@) + with_capsfilters(
                        all,
                        i + 2,
                    ));
                }
                i += 2;
                continue ;
            }
        }
        out.push(copied(&words[i]));
        proof {
            assert(text::views(out@) =~= before + seq![all[i as int]]);
            assert(with_capsfilters(all, 0) =~= text::views(out@) + with_capsfilters(all, i + 1));
        }
        i += 1;
    }
    assert(text::views(out@) =~= with_capsfilters(all, 0));
    join(&out, " ")
}

/// Puts media types that follow a `!` on their own into elements.
pub fn normalize_caps_filters(input: &str) -> (r: String)
    ensures
        r@ == filtered(input@),
{
    let chars: Vec<char> = chars_of(input);
    string_of(filter_chars(chars.as_slice()).as_slice())
}

/// Makes a pipeline that a user wrote ready to be parsed.
pub fn normalize_pipeline(input: &str) -> (r: String)
    ensures
        r@ == normalized(input@),
{
    let chars: Vec<char> = chars_of(input);
    proof {
        reveal_strlit("\\!");
    }
    let plain: Vec<char> = replace_text(chars.as_slice(), "\\!", "!");
    string_of(filter_chars(plain.as_slice()).as_slice())
}

/// The pipeline from the relay into a region.
pub fn output_pipeline(shm_path: &str, shm_size: u64) -> (r: String)
    ensures
        r@
            == "appsrc name=appsrc is-live=true format=time stream-type=stream ! queue max-size-buffers=8 max-size-bytes=0 max-size-time=0 leaky=downstream ! shm2sink shm-path="@
            + shm_path@ + " shm-size="@ + text::decimal_text(shm_size as nat),
{
    let mut out: Vec<char> = chars_of(
        "appsrc name=appsrc is-live=true format=time stream-type=stream ! queue max-size-buffers=8 max-size-bytes=0 max-size-time=0 leaky=downstream ! shm2sink shm-path=",
    );
    push_str(&mut out, shm_path);
    push_str(&mut out, " shm-size=");
    push_decimal(&mut out, shm_size);
    string_of(out.as_slice())
}

/// The text begins with these characters.
pub open spec fn begins(s: Seq<char>, with: Seq<char>) -> bool {
    with.len() <= s.len() && forall|k: int| 0 <= k < with.len() ==> #[trigger] s[k] == with[k]
}

/// The word names media types.
pub open spec fn names_media(word: Seq<char>) -> bool {
    begins(word, "video/"@) || begins(word, "audio/"@) || begins(word, "text/"@) || begins(
        word,
        "application/"@,
    )
}

/// The `i`-th word names media types and stands right behind a `!`.
pub open spec fn is_bare(words: Seq<Seq<char>>, i: int) -> bool {
    1 <= i < words.len() && words[i - 1] == "!"@ && names_media(words[i])
}

/// How many such words there are before the `i`-th.
pub open spec fn bare_before(words: Seq<Seq<char>>, i: int) -> nat
    decreases i,
{
    if i <= 0 {
        0
    } else {
        bare_before(words, i - 1) + if is_bare(words, i - 1) {
            1nat
        } else {
            0
        }
    }
}

/// The `i`-th word of one text stands, behind the words that were put in before it, in the
/// other: as the value of an element's property, the element before it, where it was a bare
/// media type, and as it is where it was not.
pub open spec fn is_carried(from: Seq<Seq<char>>, to: Seq<Seq<char>>, i: int) -> bool {
    let at = i + bare_before(from, i);
    if is_bare(from, i) {
        &&& at + 1 < to.len()
        &&& to[at] == "capsfilter"@
        &&& to[at + 1] == "caps="@ + from[i]
    } else {
        at < to.len() && to[at] == from[i]
    }
}

proof fn lemma_begins(s: Seq<char>, with: Seq<char>)
    ensures
        begins(s, with) == text::starts_with(s, with),
{
    if with.len() <= s.len() {
        let head = s.subrange(0, with.len() as int);
        if begins(s, with) {
            assert(head =~= with);
        } else {
            let k = choose|k: int| 0 <= k < with.len() && #[trigger] s[k] != with[k];
            assert(head[k] != with[k]);
        }
    }
}

proof fn lemma_media(word: Seq<char>)
    ensures
        names_media(word) == is_caps(word),
{
    lemma_begins(word, "video/"@);
    lemma_begins(word, "audio/"@);
    lemma_begins(word, "text/"@);
    lemma_begins(word, "application/"@);
}

proof fn lemma_fixed_words(word: Seq<char>)
    ensures
        text::is_solid("!"@) && "!"@.len() == 1,
        text::is_solid("capsfilter"@) && "capsfilter"@.len() == 10,
        text::is_solid("caps="@) && "caps="@.len() == 5,
        "capsfilter"@ != "!"@,
        "caps="@ + word != "!"@,
        !names_media("!"@),
        !names_media("capsfilter"@),
        !names_media("caps="@ + word),
{
    reveal_strlit("!");
    reveal_strlit("capsfilter");
    reveal_strlit("caps=");
    reveal_strlit("video/");
    reveal_strlit("audio/");
    reveal_strlit("text/");
    reveal_strlit("application/");
    assert("video/"@[0] == 'v' && "audio/"@[0] == 'a' && "text/"@[0] == 't');
    assert("application/"@[0] == 'a');
    assert("!"@[0] == '!' && "capsfilter"@[0] == 'c');
    assert(("caps="@ + word)[0] == 'c');
    assert("!"@.len() == 1 && "capsfilter"@.len() == 10 && "caps="@.len() == 5);
    assert("video/"@.len() == 6 && "audio/"@.len() == 6 && "text/"@.len() == 5
        && "application/"@.len() == 12);
}

spec fn lands(words: Seq<Seq<char>>, i: int, out: Seq<Seq<char>>, j: int) -> bool {
    let at = j - i + bare_before(words, j) - bare_before(words, i);
    if is_bare(words, j) {
        &&& 0 <= at && at + 1 < out.len()
        &&& out[at] == "capsfilter"@
        &&& out[at + 1] == "caps="@ + words[j]
    } else {
        0 <= at < out.len() && out[at] == words[j]
    }
}

proof fn lemma_pair(words: Seq<Seq<char>>, i: int)
    requires
        0 <= i && i + 1 < words.len(),
        words[i] == "!"@ && is_caps(words[i + 1]),
        !is_bare(words, i),
    ensures
        is_bare(words, i + 1),
        !is_bare(words, i + 2),
        bare_before(words, i + 1) == bare_before(words, i),
        bare_before(words, i + 2) == bare_before(words, i) + 1,
{
    lemma_media(words[i + 1]);
    lemma_fixed_words(words[i + 1]);
    assert(words[i + 1] != "!"@);
    reveal_with_fuel(bare_before, 3);
}

proof fn lemma_lands(words: Seq<Seq<char>>, i: int, j: int)
    requires
        0 <= i <= words.len(),
        !is_bare(words, i),
    ensures
        with_capsfilters(words, i).len() == words.len() - i + bare_before(
            words,
            words.len() as int,
        ) - bare_before(words, i),
        i <= j < words.len() ==> lands(words, i, with_capsfilters(words, i), j),
    decreases words.len() - i,
{
    let out = with_capsfilters(words, i);
    if i < words.len() {
        if words[i] == "!"@ && i + 1 < words.len() && is_caps(words[i + 1]) {
            lemma_pair(words, i);
            lemma_lands(words, i + 2, j);
            let rest = with_capsfilters(words, i + 2);
            assert(out == seq!["!"@, "capsfilter"@, "caps="@ + words[i + 1]] + rest);
            if i + 2 <= j < words.len() {
                let at = j - (i + 2) + bare_before(words, j) - bare_before(words, i + 2);
                assert(out[at + 3] == rest[at]);
                if is_bare(words, j) {
                    assert(out[at + 4] == rest[at + 1]);
                }
            }
        } else {
            if i + 1 < words.len() {
                lemma_media(words[i + 1]);
            }
            assert(!is_bare(words, i + 1));
            lemma_lands(words, i + 1, j);
            let rest = with_capsfilters(words, i + 1);
            assert(out == seq![words[i]] + rest);
            assert(bare_before(words, i + 1) == bare_before(words, i));
            if i + 1 <= j < words.len() {
                let at = j - (i + 1) + bare_before(words, j) - bare_before(words, i + 1);
                assert(out[at + 1] == rest[at]);
                if is_bare(words, j) {
                    assert(out[at + 2] == rest[at + 1]);
                }
            }
        }
    }
}

proof fn lemma_none_left(words: Seq<Seq<char>>, i: int, k: int)
    requires
        0 <= i <= words.len(),
        !is_bare(words, i),
    ensures
        i < words.len() ==> with_capsfilters(words, i).len() > 0 && with_capsfilters(words, i)[0]
            == words[i],
        !is_bare(with_capsfilters(words, i), k),
    decreases words.len() - i,
{
    let out = with_capsfilters(words, i);
    if i < words.len() {
        if words[i] == "!"@ && i + 1 < words.len() && is_caps(words[i + 1]) {
            lemma_pair(words, i);
            lemma_none_left(words, i + 2, k - 3);
            lemma_fixed_words(words[i + 1]);
            let rest = with_capsfilters(words, i + 2);
            assert(out == seq!["!"@, "capsfilter"@, "caps="@ + words[i + 1]] + rest);
            if k == 1 {
                assert(out[1] == "capsfilter"@);
            } else if k == 2 {
                assert(out[1] == "capsfilter"@);
            } else if k == 3 {
                assert(out[2] == "caps="@ + words[i + 1]);
            } else if 4 <= k < out.len() {
                assert(out[k] == rest[k - 3] && out[k - 1] == rest[k - 4]);
            }
        } else {
            if i + 1 < words.len() {
                lemma_media(words[i + 1]);
            }
            assert(!is_bare(words, i + 1));
            lemma_none_left(words, i + 1, k - 1);
            let rest = with_capsfilters(words, i + 1);
            assert(out == seq![words[i]] + rest);
            if k == 1 && 1 < out.len() {
                assert(out[1] == rest[0] && out[0] == words[i]);
            } else if 2 <= k < out.len() {
                assert(out[k] == rest[k - 1] && out[k - 1] == rest[k - 2]);
            }
        }
    }
}

proof fn lemma_words_stay_solid(words: Seq<Seq<char>>, i: int)
    requires
        0 <= i,
        forall|k: int|
            0 <= k < words.len() ==> (#[trigger] words[k]).len() > 0 && text::is_solid(words[k]),
    ensures
        forall|k: int|
            0 <= k < with_capsfilters(words, i).len() ==> (#[trigger] with_capsfilters(
                words,
                i,
            )[k]).len() > 0 && text::is_solid(with_capsfilters(words, i)[k]),
    decreases words.len() - i,
{
    let out = with_capsfilters(words, i);
    if i < words.len() {
        assert(words[i].len() > 0);
        if words[i] == "!"@ && i + 1 < words.len() && is_caps(words[i + 1]) {
            lemma_words_stay_solid(words, i + 2);
            lemma_fixed_words(words[i + 1]);
            let rest = with_capsfilters(words, i + 2);
            let value = "caps="@ + words[i + 1];
            assert(words[i + 1].len() > 0);
            assert forall|k: int| 0 <= k < value.len() implies !text::is_whitespace(
                #[trigger] value[k],
            ) by {
                if k < 5 {
                    assert(value[k] == "caps="@[k]);
                } else {
                    assert(value[k] == words[i + 1][k - 5]);
                }
            }
            assert forall|k: int| 0 <= k < out.len() implies (#[trigger] out[k]).len() > 0
                && text::is_solid(out[k]) by {
                if k >= 3 {
                    assert(out[k] == rest[k - 3]);
                }
            }
        } else {
            lemma_words_stay_solid(words, i + 1);
            let rest = with_capsfilters(words, i + 1);
            assert forall|k: int| 0 <= k < out.len() implies (#[trigger] out[k]).len() > 0
                && text::is_solid(out[k]) by {
                if k >= 1 {
                    assert(out[k] == rest[k - 1]);
                }
            }
        }
    }
}

proof fn lemma_filtered_words(s: Seq<char>)
    ensures
        text::words(filtered(s), 0) == with_capsfilters(text::words(s, 0), 0),
{
    let words = text::words(s, 0);
    if words.len() > 0 {
        text::law_words_are_solid(s);
        lemma_words_stay_solid(words, 0);
        text::law_joined_words_are_split_again(with_capsfilters(words, 0));
    }
}

/// Every media type that stands right behind a `!` is put into an element, however many there
/// are, every other word is kept, and the words stay in their order. No media type is left
/// behind a `!`, so that none is put into an element twice. A text without words stays as it
/// is, and the words of any other come out with one blank between them.
pub proof fn law_media_types_become_elements(input: &str, r: String)
    requires
        call_ensures(normalize_caps_filters, (input,), r),
    ensures
        ({
            let from = text::words(input@, 0);
            let to = text::words(r@, 0);
            &&& to.len() == from.len() + bare_before(from, from.len() as int)
            &&& forall|i: int| 0 <= i < from.len() ==> #[trigger] is_carried(from, to, i)
            &&& forall|k: int| !#[trigger] is_bare(to, k)
            &&& from.len() == 0 ==> r@ == input@
            &&& from.len() > 0 ==> r@ == text::joined(to, " "@)
        }),
{
    let from = text::words(input@, 0);
    let to = text::words(r@, 0);
    lemma_filtered_words(input@);
    lemma_lands(from, 0, 0);
    assert forall|i: int| 0 <= i < from.len() implies #[trigger] is_carried(from, to, i) by {
        lemma_lands(from, 0, i);
    }
    assert forall|k: int| !#[trigger] is_bare(to, k) by {
        lemma_none_left(from, 0, k);
    }
}

/// A pipeline that was made ready stays as it is when that is done again.
pub proof fn law_elements_are_made_once(input: &str, r: String, ready: &str, again: String)
    requires
        call_ensures(normalize_caps_filters, (input,), r),
        ready@ == r@,
        call_ensures(normalize_caps_filters, (ready,), again),
    ensures
        again@ == r@,
{
    let from = text::words(input@, 0);
    let to = text::words(r@, 0);
    law_media_types_become_elements(input, r);
    law_media_types_become_elements(ready, again);
    lemma_none_before(to, to.len() as int);
    if from.len() == 0 {
        assert(bare_before(from, 0) == 0);
    } else {
        let last = text::words(again@, 0);
        assert forall|i: int| 0 <= i < to.len() implies last[i] == to[i] by {
            lemma_none_before(to, i);
            assert(is_carried(to, last, i) && !is_bare(to, i));
        }
        assert(last =~= to);
    }
}

proof fn lemma_none_before(words: Seq<Seq<char>>, i: int)
    requires
        forall|k: int| !#[trigger] is_bare(words, k),
    ensures
        bare_before(words, i) == 0,
    decreases i,
{
    if i > 0 {
        lemma_none_before(words, i - 1);
        assert(!is_bare(words, i - 1));
    }
}

/// A user's pipeline is made ready by taking the backslash from each escaped `!` first and
/// putting its media types into elements then.
pub proof fn law_pipeline_is_unescaped_first(
    input: &str,
    chars: &[char],
    plain: Vec<char>,
    text: &str,
    r: String,
    q: String,
)
    requires
        chars@ == input@,
        call_ensures(replace_text, (chars, "\\!", "!"), plain),
        text@ == plain@,
        call_ensures(normalize_caps_filters, (text,), q),
        call_ensures(normalize_pipeline, (input,), r),
    ensures
        r@ == q@,
{
}

/// The pipeline into a region plays a live source without blocking it, into a sink at the
/// region's place and with its size, which is written as the number that it is.
pub proof fn law_output_pipeline_names_the_region(shm_path: &str, shm_size: u64, r: String)
    requires
        call_ensures(output_pipeline, (shm_path, shm_size), r),
    ensures
        ({
            let head =
                "appsrc name=appsrc is-live=true format=time stream-type=stream ! queue max-size-buffers=8 max-size-bytes=0 max-size-time=0 leaky=downstream ! shm2sink shm-path="@;
            let size = r@.skip((head + shm_path@ + " shm-size="@).len() as int);
            &&& r@ == head + shm_path@ + " shm-size="@ + size
            &&& text::decimal(size, u64::MAX as int) == Some(shm_size as int)
        }),
{
    let head =
        "appsrc name=appsrc is-live=true format=time stream-type=stream ! queue max-size-buffers=8 max-size-bytes=0 max-size-time=0 leaky=downstream ! shm2sink shm-path="@
        + shm_path@ + " shm-size="@;
    assert(r@.skip(head.len() as int) =~= text::decimal_text(shm_size as nat));
    text::law_decimal_survives(shm_size as nat, u64::MAX as int);
}

} // verus!
