//! The search for keywords in message texts.

use crate::text::{first_occurrence, lemma_first_occurrence_is, texts};
use aho_corasick::AhoCorasickBuilder;
use vstd::prelude::*;
use vstd::string::StrSliceExecFns;

verus! {

/// The keywords found in `text`, each given by its position in `keywords`,
/// in the order in which they occur: what an Aho-Corasick automaton over
/// `keywords` that ignores the case of ASCII letters reports as its
/// non-overlapping matches.
pub uninterp spec fn keyword_matches(keywords: Seq<Seq<char>>, text: Seq<char>) -> Seq<usize>;

/// Builds an automaton with `AhoCorasickBuilder::build`, set to ignore ASCII
/// case, and walks `text` with `AhoCorasick::find_iter`. The matches depend
/// on the keywords and the text alone. Each is reported by `Match::pattern`,
/// the position of its keyword in the list that the automaton was built from.
#[verifier::external_body]
pub(crate) fn find_keywords(keywords: &Vec<String>, text: &str) -> (hits: Vec<usize>)
    ensures
        hits@ == keyword_matches(texts(keywords@), text@),
        forall|i: int| 0 <= i < hits@.len() ==> (#[trigger] hits@[i]) < keywords@.len(),
{
    AhoCorasickBuilder::new()
        .ascii_case_insensitive(true)
        .build(keywords)
        .find_iter(text)
        .map(|found| found.pattern())
        .collect()
}

/// The keywords that a list names: the pieces between its commas, in order.
/// A list without a comma names one keyword, itself.
pub open spec fn listed_keywords(list: Seq<char>) -> Seq<Seq<char>>
    decreases list.len(),
{
    let comma = first_occurrence(list, ',') as int;
    if comma >= list.len() {
        seq![list]
    } else {
        seq![list.take(comma)] + listed_keywords(list.skip(comma + 1))
    }
}

/// Splits a list of keywords at its commas.
pub fn split_keywords(list: &str) -> (keywords: Vec<String>)
    ensures
        texts(keywords@) == listed_keywords(list@),
{
    let len = list.unicode_len();
    let mut keywords: Vec<String> = Vec::new();
    let mut start: usize = 0;
    let mut i: usize = 0;
    proof {
        assert(list@.skip(0) == list@);
        assert(texts(keywords@) =~= Seq::<Seq<char>>::empty());
    }
    for c in it: list.chars()
        invariant
            it.seq() == list@,
            len == list@.len(),
            i == it.index(),
            start <= i,
            forall|j: int| start <= j < i ==> #[trigger] list@[j] != ',',
            listed_keywords(list@) == texts(keywords@) + listed_keywords(
                list@.skip(start as int),
            ),
    {
        if c == ',' {
            let ghost rest = list@.skip(start as int);
            let ghost earlier = texts(keywords@);
            proof {
                assert forall|j: int| 0 <= j < i - start implies #[trigger] rest[j] != ',' by {
                    assert(rest[j] == list@[start + j]);
                }
                lemma_first_occurrence_is(rest, ',', i - start);
                assert(rest.take(i - start) == list@.subrange(start as int, i as int));
                assert(rest.skip(i - start + 1) == list@.skip(i + 1));
            }
            keywords.push(list.substring_char(start, i).to_owned());
            proof {
                assert(texts(keywords@) =~= earlier + seq![rest.take(i - start)]);
            }
            start = i + 1;
        }
        i = i + 1;
    }
    let ghost rest = list@.skip(start as int);
    let ghost earlier = texts(keywords@);
    proof {
        assert forall|j: int| 0 <= j < rest.len() implies #[trigger] rest[j] != ',' by {
            assert(rest[j] == list@[start + j]);
        }
        lemma_first_occurrence_is(rest, ',', rest.len() as int);
        assert(rest == list@.subrange(start as int, len as int));
    }
    keywords.push(list.substring_char(start, len).to_owned());
    proof {
        assert(texts(keywords@) =~= earlier + seq![rest]);
    }
    keywords
}

} // verus!
