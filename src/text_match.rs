//! Word-overlap matching of a query against a title, case-insensitive:
//! either the whole query occurs in the text, or some number of the
//! query's words each occur inside one of the text's words.

use vstd::prelude::*;
use crate::metric::{lower_of, lowercase};

verus! {

/// Whether `needle` occurs as a contiguous run of characters in `hay`.
pub open spec fn occurs_in(hay: Seq<char>, needle: Seq<char>) -> bool {
    exists|i: int| 0 <= i && i + needle.len() <= hay.len() && #[trigger] hay.subrange(i, i + needle.len()) == needle
}

/// The whitespace-separated words of a text, in order, as Unicode defines
/// whitespace.
pub uninterp spec fn words_of(s: Seq<char>) -> Seq<Seq<char>>;

/// Relies on `str::contains` with a `&str` pattern: true exactly when the
/// pattern occurs as a substring.
#[verifier::external_body]
fn text_contains(hay: &str, needle: &str) -> (r: bool)
    ensures
        r == occurs_in(hay@, needle@),
{
    hay.contains(needle)
}

/// Relies on `str::split_whitespace`: the words depend on the text alone.
#[verifier::external_body]
fn split_words(s: &str) -> (r: Vec<String>)
    ensures
        r@.len() == words_of(s@).len(),
        forall|i: int| 0 <= i < r@.len() ==> #[trigger] r@[i]@ == words_of(s@)[i],
{
    s.split_whitespace().map(|w| w.to_string()).collect()
}

/// How a query matched a text.
#[derive(Debug, Clone, Copy, PartialEq, Eq, Structural)]
pub enum TextMatch {
    /// The whole query occurs in the text.
    Contained,
    /// `matched` of the query's `total` words each occur inside some word
    /// of the text.
    Words { matched: usize, total: usize },
}

/// Whether the query word `w` occurs inside some word of `text_words`.
pub open spec fn word_found(w: Seq<char>, text_words: Seq<Seq<char>>) -> bool {
    exists|j: int| 0 <= j < text_words.len() && occurs_in(#[trigger] text_words[j], w)
}

/// How many of the first `n` query words are found among `text_words`.
pub open spec fn found_count(query_words: Seq<Seq<char>>, text_words: Seq<Seq<char>>, n: int) -> nat
    decreases n,
{
    if n <= 0 {
        0
    } else {
        found_count(query_words, text_words, n - 1) + if word_found(query_words[n - 1], text_words) {
            1nat
        } else {
            0nat
        }
    }
}

/// The match of an already lower-cased query against an already
/// lower-cased text.
pub open spec fn match_of(query: Seq<char>, text: Seq<char>) -> TextMatch {
    if occurs_in(text, query) {
        TextMatch::Contained
    } else {
        TextMatch::Words {
            matched: found_count(words_of(query), words_of(text), words_of(query).len() as int) as usize,
            total: words_of(query).len() as usize,
        }
    }
}

proof fn lemma_found_count_bound(q: Seq<Seq<char>>, t: Seq<Seq<char>>, n: int)
    requires
        0 <= n,
    ensures
        found_count(q, t, n) <= n,
    decreases n,
{
    if n > 0 {
        lemma_found_count_bound(q, t, n - 1);
    }
}

/// The match of `query` against `text`, both already in lower case.
pub fn match_lowercase(query: &str, text: &str) -> (r: TextMatch)
    ensures
        r == match_of(query@, text@),
{
    if text_contains(text, query) {
        return TextMatch::Contained;
    }
    let query_words = split_words(query);
    let text_words = split_words(text);
    let ghost qw = words_of(query@);
    let ghost tw = words_of(text@);
    let mut matched: usize = 0;
    let mut i: usize = 0;
    while i < query_words.len()
        invariant
            i <= query_words@.len(),
            query_words@.len() == qw.len(),
            text_words@.len() == tw.len(),
            forall|a: int| 0 <= a < query_words@.len() ==> #[trigger] query_words@[a]@ == qw[a],
            forall|a: int| 0 <= a < text_words@.len() ==> #[trigger] text_words@[a]@ == tw[a],
            matched == found_count(qw, tw, i as int),
            matched <= i,
        decreases query_words@.len() - i,
    {
        let mut found = false;
        let mut j: usize = 0;
        while j < text_words.len()
            invariant_except_break
                !found,
            invariant
                i < query_words@.len(),
                query_words@.len() == qw.len(),
                j <= text_words@.len(),
                text_words@.len() == tw.len(),
                query_words@[i as int]@ == qw[i as int],
                forall|a: int| 0 <= a < text_words@.len() ==> #[trigger] text_words@[a]@ == tw[a],
                forall|b: int| 0 <= b < j ==> !occurs_in(#[trigger] tw[b], qw[i as int]),
            ensures
                found ==> word_found(qw[i as int], tw),
                !found ==> forall|b: int| 0 <= b < tw.len() ==> !occurs_in(#[trigger] tw[b], qw[i as int]),
            decreases text_words@.len() - j,
        {
            if text_contains(text_words[j].as_str(), query_words[i].as_str()) {
                found = true;
                assert(occurs_in(tw[j as int], qw[i as int]));
                break;
            }
            j += 1;
        }
        assert(found == word_found(qw[i as int], tw));
        if found {
            matched += 1;
        }
        i += 1;
    }
    proof {
        lemma_found_count_bound(qw, tw, qw.len() as int);
    }
    TextMatch::Words { matched, total: query_words.len() }
}

/// The case-insensitive match of `query` against `text`.
pub fn match_text(query: &str, text: &str) -> (r: TextMatch)
    ensures
        r == match_of(lower_of(query@), lower_of(text@)),
{
    let q = lowercase(query);
    let t = lowercase(text);
    match_lowercase(q.as_str(), t.as_str())
}

} // verus!
