//! Texts as sequences of characters: splitting at whitespace, trimming,
//! decimal numerals and the removal of direction-steering characters.

use vstd::prelude::*;
use vstd::std_specs::iter::IteratorSpec;
use vstd::string::{StrSliceExecFns, StringExecFns};

verus! {

/// Whether Unicode counts `c` as whitespace: the controls U+0009 to U+000D
/// and U+0085, the space, and the spaces and separators U+00A0, U+1680,
/// U+2000 to U+200A, U+2028, U+2029, U+202F, U+205F and U+3000.
pub open spec fn char_is_whitespace(c: char) -> bool {
    ||| '\u{0009}' <= c <= '\u{000d}'
    ||| c == ' '
    ||| c == '\u{0085}'
    ||| c == '\u{00a0}'
    ||| c == '\u{1680}'
    ||| '\u{2000}' <= c <= '\u{200a}'
    ||| c == '\u{2028}'
    ||| c == '\u{2029}'
    ||| c == '\u{202f}'
    ||| c == '\u{205f}'
    ||| c == '\u{3000}'
}

/// Tells whether Unicode counts `c` as whitespace.
pub fn is_whitespace(c: char) -> (b: bool)
    ensures
        b == char_is_whitespace(c),
{
    ('\u{0009}' <= c && c <= '\u{000d}') || c == ' ' || c == '\u{0085}' || c == '\u{00a0}' || c
        == '\u{1680}' || ('\u{2000}' <= c && c <= '\u{200a}') || c == '\u{2028}' || c
        == '\u{2029}' || c == '\u{202f}' || c == '\u{205f}' || c == '\u{3000}'
}

/// The strings as texts.
pub open spec fn texts(strings: Seq<String>) -> Seq<Seq<char>> {
    strings.map_values(|string: String| string@)
}

/// Whether `c` is one of the Unicode characters that steer the direction of
/// text: the marks U+061C, U+200E and U+200F, the embeddings and overrides
/// U+202A to U+202E, and the isolates U+2066 to U+2069.
pub open spec fn is_bidi_control(c: char) -> bool {
    ||| c == '\u{061c}'
    ||| c == '\u{200e}'
    ||| c == '\u{200f}'
    ||| '\u{202a}' <= c <= '\u{202e}'
    ||| '\u{2066}' <= c <= '\u{2069}'
}

/// The text without its direction-steering characters.
pub open spec fn without_bidi_controls(text: Seq<char>) -> Seq<char> {
    text.filter(|c: char| !is_bidi_control(c))
}

proof fn lemma_without_bidi_keeps(run: Seq<char>)
    requires
        forall|j: int| 0 <= j < run.len() ==> !is_bidi_control(#[trigger] run[j]),
    ensures
        without_bidi_controls(run) == run,
    decreases run.len(),
{
    reveal_with_fuel(Seq::filter, 2);
    if run.len() > 0 {
        let front = run.drop_last();
        assert forall|j: int| 0 <= j < front.len() implies !is_bidi_control(
            #[trigger] front[j],
        ) by {
            assert(front[j] == run[j]);
        }
        lemma_without_bidi_keeps(front);
        assert(front.push(run.last()) == run);
    }
}

proof fn lemma_without_bidi_run(text: Seq<char>, start: int, end: int)
    requires
        0 <= start <= end <= text.len(),
        forall|j: int| start <= j < end ==> !is_bidi_control(#[trigger] text[j]),
    ensures
        without_bidi_controls(text.take(end)) == without_bidi_controls(text.take(start))
            + text.subrange(start, end),
{
    let run = text.subrange(start, end);
    assert(text.take(end) == text.take(start) + run);
    Seq::filter_distributes_over_add(text.take(start), run, |c: char| !is_bidi_control(c));
    lemma_without_bidi_keeps(run);
}

proof fn lemma_without_bidi_skips(text: Seq<char>, i: int)
    requires
        0 <= i < text.len(),
        is_bidi_control(text[i]),
    ensures
        without_bidi_controls(text.take(i + 1)) == without_bidi_controls(text.take(i)),
{
    let head = text.take(i + 1);
    assert(head.drop_last() == text.take(i));
    assert(head.last() == text[i]);
    reveal_with_fuel(Seq::filter, 2);
}

/// Tells whether `c` steers the direction of text.
pub fn bidi_control(c: char) -> (steers: bool)
    ensures
        steers == is_bidi_control(c),
{
    c == '\u{061c}' || c == '\u{200e}' || c == '\u{200f}' || ('\u{202a}' <= c && c
        <= '\u{202e}') || ('\u{2066}' <= c && c <= '\u{2069}')
}

/// Copies `text`, leaving out its direction-steering characters.
pub fn strip_bidi_controls(text: &str) -> (stripped: String)
    ensures
        stripped@ == without_bidi_controls(text@),
{
    let len = text.unicode_len();
    let mut stripped = String::new();
    let mut start: usize = 0;
    let mut i: usize = 0;
    proof {
        assert(without_bidi_controls(text@.take(0)) =~= Seq::<char>::empty());
    }
    for c in it: text.chars()
        invariant
            it.seq() == text@,
            len == text@.len(),
            i == it.index(),
            start <= i,
            forall|j: int| start <= j < i ==> !is_bidi_control(#[trigger] text@[j]),
            stripped@ == without_bidi_controls(text@.take(start as int)),
    {
        if bidi_control(c) {
            proof {
                lemma_without_bidi_run(text@, start as int, i as int);
                lemma_without_bidi_skips(text@, i as int);
            }
            stripped.append(text.substring_char(start, i));
            start = i + 1;
        }
        i = i + 1;
    }
    proof {
        lemma_without_bidi_run(text@, start as int, len as int);
        assert(text@.take(len as int) == text@);
    }
    stripped.append(text.substring_char(start, len));
    stripped
}

/// Position of the first whitespace character of `text`, or its length where it has none.
pub open spec fn first_whitespace(text: Seq<char>) -> nat
    decreases text.len(),
{
    if text.len() == 0 || char_is_whitespace(text[0]) {
        0
    } else {
        1 + first_whitespace(text.drop_first())
    }
}

/// Position of the first occurrence of `mark` in `text`, or its length where it has none.
pub open spec fn first_occurrence(text: Seq<char>, mark: char) -> nat
    decreases text.len(),
{
    if text.len() == 0 || text[0] == mark {
        0
    } else {
        1 + first_occurrence(text.drop_first(), mark)
    }
}

/// `first_whitespace` is the least position that holds a whitespace character.
pub proof fn lemma_first_whitespace(text: Seq<char>)
    ensures
        first_whitespace(text) <= text.len(),
        forall|j: int| 0 <= j < first_whitespace(text) ==> !char_is_whitespace(#[trigger] text[j]),
        first_whitespace(text) < text.len() ==> char_is_whitespace(
            text[first_whitespace(text) as int],
        ),
    decreases text.len(),
{
    if text.len() == 0 || char_is_whitespace(text[0]) {
    } else {
        let rest = text.drop_first();
        lemma_first_whitespace(rest);
        assert forall|j: int| 0 <= j < first_whitespace(text) implies !char_is_whitespace(
            #[trigger] text[j],
        ) by {
            if j > 0 {
                assert(text[j] == rest[j - 1]);
            }
        }
    }
}

/// A position before which no whitespace stands, and which holds whitespace
/// or ends the text, is `first_whitespace`.
pub proof fn lemma_first_whitespace_is(text: Seq<char>, k: int)
    requires
        0 <= k <= text.len(),
        forall|j: int| 0 <= j < k ==> !char_is_whitespace(#[trigger] text[j]),
        k < text.len() ==> char_is_whitespace(text[k]),
    ensures
        first_whitespace(text) == k,
    decreases text.len(),
{
    if text.len() == 0 || char_is_whitespace(text[0]) {
    } else {
        let rest = text.drop_first();
        assert forall|j: int| 0 <= j < k - 1 implies !char_is_whitespace(#[trigger] rest[j]) by {
            assert(rest[j] == text[j + 1]);
        }
        lemma_first_whitespace_is(rest, k - 1);
    }
}

/// `first_occurrence` is the least position that holds `mark`.
pub proof fn lemma_first_occurrence(text: Seq<char>, mark: char)
    ensures
        first_occurrence(text, mark) <= text.len(),
        forall|j: int| 0 <= j < first_occurrence(text, mark) ==> #[trigger] text[j] != mark,
        first_occurrence(text, mark) < text.len() ==> text[first_occurrence(text, mark) as int]
            == mark,
    decreases text.len(),
{
    if text.len() == 0 || text[0] == mark {
    } else {
        let rest = text.drop_first();
        lemma_first_occurrence(rest, mark);
        assert forall|j: int| 0 <= j < first_occurrence(text, mark) implies #[trigger] text[j]
            != mark by {
            if j > 0 {
                assert(text[j] == rest[j - 1]);
            }
        }
    }
}

/// A position before which `mark` does not stand, and which holds `mark` or
/// ends the text, is `first_occurrence`.
pub proof fn lemma_first_occurrence_is(text: Seq<char>, mark: char, k: int)
    requires
        0 <= k <= text.len(),
        forall|j: int| 0 <= j < k ==> #[trigger] text[j] != mark,
        k < text.len() ==> text[k] == mark,
    ensures
        first_occurrence(text, mark) == k,
    decreases text.len(),
{
    if text.len() == 0 || text[0] == mark {
    } else {
        let rest = text.drop_first();
        assert forall|j: int| 0 <= j < k - 1 implies #[trigger] rest[j] != mark by {
            assert(rest[j] == text[j + 1]);
        }
        lemma_first_occurrence_is(rest, mark, k - 1);
    }
}

/// Finds the first whitespace character of `text`, counting in characters.
pub fn find_whitespace(text: &str) -> (at: usize)
    ensures
        at == first_whitespace(text@),
{
    let len = text.unicode_len();
    let mut at: usize = 0;
    let mut found = false;
    for c in it: text.chars()
        invariant
            it.seq() == text@,
            len == text@.len(),
            at <= it.index(),
            found ==> at < it.index() && char_is_whitespace(text@[at as int]),
            !found ==> at == it.index(),
            forall|j: int| 0 <= j < at ==> !char_is_whitespace(#[trigger] text@[j]),
    {
        if !found {
            if is_whitespace(c) {
                found = true;
            } else {
                at = at + 1;
            }
        }
    }
    proof {
        lemma_first_whitespace_is(text@, at as int);
    }
    at
}

/// Finds the first occurrence of `mark` in `text`, counting in characters.
pub fn find_char(text: &str, mark: char) -> (at: usize)
    ensures
        at == first_occurrence(text@, mark),
{
    let len = text.unicode_len();
    let mut at: usize = 0;
    let mut found = false;
    for c in it: text.chars()
        invariant
            it.seq() == text@,
            len == text@.len(),
            at <= it.index(),
            found ==> at < it.index() && text@[at as int] == mark,
            !found ==> at == it.index(),
            forall|j: int| 0 <= j < at ==> #[trigger] text@[j] != mark,
    {
        if !found {
            if c == mark {
                found = true;
            } else {
                at = at + 1;
            }
        }
    }
    proof {
        lemma_first_occurrence_is(text@, mark, at as int);
    }
    at
}

/// The text without the whitespace characters it begins with.
pub open spec fn trim_start(text: Seq<char>) -> Seq<char>
    decreases text.len(),
{
    if text.len() > 0 && char_is_whitespace(text[0]) {
        trim_start(text.drop_first())
    } else {
        text
    }
}

/// The text without the whitespace characters it ends with.
pub open spec fn trim_end(text: Seq<char>) -> Seq<char>
    decreases text.len(),
{
    if text.len() > 0 && char_is_whitespace(text.last()) {
        trim_end(text.drop_last())
    } else {
        text
    }
}

/// The text without leading and trailing whitespace.
pub open spec fn trimmed(text: Seq<char>) -> Seq<char> {
    trim_end(trim_start(text))
}

proof fn lemma_trim_start_is(text: Seq<char>, k: int)
    requires
        0 <= k <= text.len(),
        forall|j: int| 0 <= j < k ==> char_is_whitespace(#[trigger] text[j]),
        k < text.len() ==> !char_is_whitespace(text[k]),
    ensures
        trim_start(text) == text.skip(k),
    decreases text.len(),
{
    if k == 0 {
        assert(text.skip(0) == text);
    } else {
        let rest = text.drop_first();
        assert(char_is_whitespace(text[0]));
        assert forall|j: int| 0 <= j < k - 1 implies char_is_whitespace(#[trigger] rest[j]) by {
            assert(rest[j] == text[j + 1]);
        }
        lemma_trim_start_is(rest, k - 1);
        assert(rest.skip(k - 1) == text.skip(k));
    }
}

proof fn lemma_trim_end_is(text: Seq<char>, k: int)
    requires
        0 <= k <= text.len(),
        forall|j: int| k <= j < text.len() ==> char_is_whitespace(#[trigger] text[j]),
        k > 0 ==> !char_is_whitespace(text[k - 1]),
    ensures
        trim_end(text) == text.take(k),
    decreases text.len(),
{
    if k == text.len() {
        assert(text.take(k) == text);
    } else {
        let rest = text.drop_last();
        assert(char_is_whitespace(text[text.len() - 1]));
        assert forall|j: int| k <= j < rest.len() implies char_is_whitespace(
            #[trigger] rest[j],
        ) by {
            assert(rest[j] == text[j]);
        }
        lemma_trim_end_is(rest, k);
        assert(rest.take(k) == text.take(k));
    }
}

/// The part of `text` between its leading and its trailing whitespace.
pub fn trim(text: &str) -> (inner: &str)
    ensures
        inner@ == trimmed(text@),
{
    let len = text.unicode_len();
    let mut start: usize = 0;
    let mut end: usize = 0;
    let mut seen = false;
    let mut i: usize = 0;
    for c in it: text.chars()
        invariant
            it.seq() == text@,
            len == text@.len(),
            i == it.index(),
            !seen ==> start == i && end == i,
            seen ==> start < end <= i,
            seen ==> !char_is_whitespace(text@[start as int]) && !char_is_whitespace(
                text@[end - 1],
            ),
            forall|j: int| 0 <= j < start ==> char_is_whitespace(#[trigger] text@[j]),
            forall|j: int| end <= j < i ==> char_is_whitespace(#[trigger] text@[j]),
    {
        if !is_whitespace(c) {
            if !seen {
                seen = true;
                start = i;
            }
            end = i + 1;
        } else if !seen {
            start = i + 1;
            end = i + 1;
        }
        i = i + 1;
    }
    proof {
        lemma_trim_start_is(text@, start as int);
        let tail = text@.skip(start as int);
        assert forall|j: int| end - start <= j < tail.len() implies char_is_whitespace(
            #[trigger] tail[j],
        ) by {
            assert(tail[j] == text@[j + start]);
        }
        if end - start > 0 {
            assert(tail[end - start - 1] == text@[end - 1]);
        }
        lemma_trim_end_is(tail, end - start);
        assert(tail.take(end - start) == text@.subrange(start as int, end as int));
    }
    text.substring_char(start, end)
}

/// The character that writes the decimal digit `d`.
pub open spec fn digit_char(d: nat) -> char {
    if d == 0 {
        '0'
    } else if d == 1 {
        '1'
    } else if d == 2 {
        '2'
    } else if d == 3 {
        '3'
    } else if d == 4 {
        '4'
    } else if d == 5 {
        '5'
    } else if d == 6 {
        '6'
    } else if d == 7 {
        '7'
    } else if d == 8 {
        '8'
    } else {
        '9'
    }
}

/// The decimal numeral of `n`, without leading zeros.
pub open spec fn decimal(n: nat) -> Seq<char>
    decreases n,
{
    if n < 10 {
        seq![digit_char(n)]
    } else {
        decimal(n / 10).push(digit_char(n % 10))
    }
}

/// The decimal numeral of `i`, with a minus sign where it is negative.
pub open spec fn signed_decimal(i: int) -> Seq<char> {
    if i < 0 {
        seq!['-'] + decimal((-i) as nat)
    } else {
        decimal(i as nat)
    }
}

fn digit_text(d: u8) -> (text: &'static str)
    requires
        d < 10,
    ensures
        text@ == seq![digit_char(d as nat)],
{
    proof {
        reveal_strlit("0");
        reveal_strlit("1");
        reveal_strlit("2");
        reveal_strlit("3");
        reveal_strlit("4");
        reveal_strlit("5");
        reveal_strlit("6");
        reveal_strlit("7");
        reveal_strlit("8");
        reveal_strlit("9");
    }
    let text = if d == 0 {
        "0"
    } else if d == 1 {
        "1"
    } else if d == 2 {
        "2"
    } else if d == 3 {
        "3"
    } else if d == 4 {
        "4"
    } else if d == 5 {
        "5"
    } else if d == 6 {
        "6"
    } else if d == 7 {
        "7"
    } else if d == 8 {
        "8"
    } else {
        "9"
    };
    assert(text@ =~= seq![digit_char(d as nat)]);
    text
}

/// Appends the decimal numeral of `n` to `s`.
pub fn push_decimal(s: &mut String, n: u128)
    ensures
        final(s)@ == old(s)@ + decimal(n as nat),
    decreases n,
{
    if n >= 10 {
        push_decimal(s, n / 10);
    }
    s.append(digit_text((n % 10) as u8));
    assert(s@ == old(s)@ + decimal(n as nat));
}

/// Appends the decimal numeral of `i` to `s`, with a minus sign where it is negative.
pub fn push_signed(s: &mut String, i: i64)
    ensures
        final(s)@ == old(s)@ + signed_decimal(i as int),
{
    let wide: i128 = i as i128;
    if wide < 0 {
        proof {
            reveal_strlit("-");
            assert("-"@ =~= seq!['-']);
        }
        s.append("-");
        push_decimal(s, (-wide) as u128);
        assert(s@ == old(s)@ + signed_decimal(i as int));
    } else {
        push_decimal(s, wide as u128);
    }
}

/// Whether two texts hold the same characters.
pub fn same_text(a: &str, b: &str) -> (same: bool)
    ensures
        same == (a@ == b@),
{
    let mut left = a.chars();
    let mut right = b.chars();
    let ghost mut done: int = 0;
    loop
        invariant
            0 <= done <= a@.len(),
            done <= b@.len(),
            left.remaining() == a@.skip(done),
            right.remaining() == b@.skip(done),
            a@.take(done) == b@.take(done),
        decreases a@.len() - done,
    {
        let x = left.next();
        let y = right.next();
        match (x, y) {
            (None, None) => {
                proof {
                    assert(a@.take(done) == a@);
                    assert(b@.take(done) == b@);
                }
                return true;
            },
            (Some(c), Some(d)) => {
                if c != d {
                    proof {
                        assert(a@[done] != b@[done]);
                    }
                    return false;
                }
                proof {
                    assert(a@.take(done + 1) == a@.take(done).push(a@[done]));
                    assert(b@.take(done + 1) == b@.take(done).push(b@[done]));
                    assert(a@.skip(done).drop_first() == a@.skip(done + 1));
                    assert(b@.skip(done).drop_first() == b@.skip(done + 1));
                    done = done + 1;
                }
            },
            _ => {
                return false;
            },
        }
    }
}

} // verus!
