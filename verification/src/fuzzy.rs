//! Case-insensitive ordered-subsequence matching.

use vstd::prelude::*;
use vstd::std_specs::iter::IteratorSpec;

verus! {

broadcast use vstd::string::group_string_axioms;

/// The text that `str::to_lowercase` returns for `text`.
pub uninterp spec fn lowercase(text: Seq<char>) -> Seq<char>;

/// Calls `str::to_lowercase`. Nothing is proved of it: the result is only
/// given its name, `lowercase` of the argument.
#[verifier::external_body]
fn to_lowercase(text: &str) -> (folded: String)
    ensures
        folded@ == lowercase(text@),
{
    text.to_lowercase()
}

/// `picks[i]` is where the `i`-th character of `needle` is found in `hay`:
/// one position for each character, the positions strictly increasing.
pub open spec fn is_embedding(picks: Seq<int>, needle: Seq<char>, hay: Seq<char>) -> bool {
    &&& picks.len() == needle.len()
    &&& forall|i: int|
        0 <= i < picks.len() ==> 0 <= #[trigger] picks[i] < hay.len() && hay[picks[i]] == needle[i]
    &&& forall|i: int, j: int| 0 <= i < j < picks.len() ==> picks[i] < picks[j]
}

/// Every character of `needle` occurs in `hay`, in the same relative order,
/// with any number of other characters in between.
pub open spec fn is_subsequence(needle: Seq<char>, hay: Seq<char>) -> bool {
    exists|picks: Seq<int>| is_embedding(picks, needle, hay)
}

/// What `fuzzy_find` decides: the empty query matches everything; any other
/// query matches when its lowercase form is a subsequence of the candidate's.
pub open spec fn fuzzy_matches(query: Seq<char>, candidate: Seq<char>) -> bool {
    query.len() == 0 || is_subsequence(lowercase(query), lowercase(candidate))
}

/// The empty text is a subsequence of every text.
pub proof fn lemma_empty_is_subsequence(hay: Seq<char>)
    ensures
        is_subsequence(Seq::<char>::empty(), hay),
{
    assert(is_embedding(Seq::<int>::empty(), Seq::<char>::empty(), hay));
}

/// Nothing but the empty text is a subsequence of the empty text.
pub proof fn lemma_subsequence_of_empty(needle: Seq<char>)
    ensures
        is_subsequence(needle, Seq::<char>::empty()) <==> needle.len() == 0,
{
    if needle.len() == 0 {
        assert(needle =~= Seq::<char>::empty());
        lemma_empty_is_subsequence(Seq::<char>::empty());
    }
    if is_subsequence(needle, Seq::<char>::empty()) && needle.len() > 0 {
        let picks = choose|picks: Seq<int>| is_embedding(picks, needle, Seq::<char>::empty());
        assert(picks[0] < Seq::<char>::empty().len());
    }
}

/// One step of the left-to-right scan: when the heads agree both advance,
/// otherwise only the hay does, and the answer is the same.
pub proof fn lemma_subsequence_step(needle: Seq<char>, hay: Seq<char>)
    requires
        needle.len() > 0,
        hay.len() > 0,
    ensures
        needle[0] == hay[0] ==> (is_subsequence(needle, hay) <==> is_subsequence(
            needle.drop_first(),
            hay.drop_first(),
        )),
        needle[0] != hay[0] ==> (is_subsequence(needle, hay) <==> is_subsequence(
            needle,
            hay.drop_first(),
        )),
{
    let needle_tail = needle.drop_first();
    let hay_tail = hay.drop_first();
    if needle[0] == hay[0] {
        if is_subsequence(needle, hay) {
            let picks = choose|picks: Seq<int>| is_embedding(picks, needle, hay);
            let shifted = Seq::new((picks.len() - 1) as nat, |i: int| picks[i + 1] - 1);
            assert forall|i: int| 0 <= i < shifted.len() implies 0 <= #[trigger] shifted[i]
                < hay_tail.len() && hay_tail[shifted[i]] == needle_tail[i] by {
                assert(picks[0] < picks[i + 1]);
            }
            assert forall|i: int, j: int| 0 <= i < j < shifted.len() implies shifted[i]
                < shifted[j] by {
                assert(picks[i + 1] < picks[j + 1]);
            }
            assert(is_embedding(shifted, needle_tail, hay_tail));
        }
        if is_subsequence(needle_tail, hay_tail) {
            let picks = choose|picks: Seq<int>| is_embedding(picks, needle_tail, hay_tail);
            let grown = Seq::new(
                picks.len() + 1,
                |i: int|
                    if i == 0 {
                        0
                    } else {
                        picks[i - 1] + 1
                    },
            );
            assert forall|i: int| 0 <= i < grown.len() implies 0 <= #[trigger] grown[i] < hay.len()
                && hay[grown[i]] == needle[i] by {
                if i > 0 {
                    assert(hay_tail[picks[i - 1]] == needle_tail[i - 1]);
                }
            }
            assert forall|i: int, j: int| 0 <= i < j < grown.len() implies grown[i] < grown[j] by {
                if i > 0 {
                    assert(picks[i - 1] < picks[j - 1]);
                } else {
                    assert(0 <= picks[j - 1]);
                }
            }
            assert(is_embedding(grown, needle, hay));
        }
    } else {
        if is_subsequence(needle, hay) {
            let picks = choose|picks: Seq<int>| is_embedding(picks, needle, hay);
            let shifted = Seq::new(picks.len(), |i: int| picks[i] - 1);
            assert(picks[0] != 0);
            assert forall|i: int| 0 <= i < shifted.len() implies 0 <= #[trigger] shifted[i]
                < hay_tail.len() && hay_tail[shifted[i]] == needle[i] by {
                if i > 0 {
                    assert(picks[0] < picks[i]);
                }
            }
            assert forall|i: int, j: int| 0 <= i < j < shifted.len() implies shifted[i]
                < shifted[j] by {
                assert(picks[i] < picks[j]);
            }
            assert(is_embedding(shifted, needle, hay_tail));
        }
        if is_subsequence(needle, hay_tail) {
            let picks = choose|picks: Seq<int>| is_embedding(picks, needle, hay_tail);
            let grown = Seq::new(picks.len(), |i: int| picks[i] + 1);
            assert forall|i: int| 0 <= i < grown.len() implies 0 <= #[trigger] grown[i] < hay.len()
                && hay[grown[i]] == needle[i] by {
                assert(hay_tail[picks[i]] == needle[i]);
            }
            assert forall|i: int, j: int| 0 <= i < j < grown.len() implies grown[i] < grown[j] by {
                assert(picks[i] < picks[j]);
            }
            assert(is_embedding(grown, needle, hay));
        }
    }
}

/// Being a subsequence is transitive.
pub proof fn lemma_subsequence_transitive(inner: Seq<char>, middle: Seq<char>, outer: Seq<char>)
    requires
        is_subsequence(inner, middle),
        is_subsequence(middle, outer),
    ensures
        is_subsequence(inner, outer),
{
    let low = choose|picks: Seq<int>| is_embedding(picks, inner, middle);
    let high = choose|picks: Seq<int>| is_embedding(picks, middle, outer);
    let both = Seq::new(low.len(), |i: int| high[low[i]]);
    assert forall|i: int| 0 <= i < both.len() implies 0 <= #[trigger] both[i] < outer.len()
        && outer[both[i]] == inner[i] by {
        assert(0 <= low[i] < middle.len());
        assert(outer[high[low[i]]] == middle[low[i]]);
    }
    assert forall|i: int, j: int| 0 <= i < j < both.len() implies both[i] < both[j] by {
        assert(low[i] < low[j]);
        assert(0 <= low[i] && low[j] < middle.len());
    }
    assert(is_embedding(both, inner, outer));
}

/// A subsequence of a text is a subsequence of every text that continues it.
pub proof fn lemma_subsequence_survives_append(needle: Seq<char>, hay: Seq<char>, more: Seq<char>)
    requires
        is_subsequence(needle, hay),
    ensures
        is_subsequence(needle, hay + more),
{
    let picks = choose|picks: Seq<int>| is_embedding(picks, needle, hay);
    assert forall|i: int| 0 <= i < picks.len() implies 0 <= #[trigger] picks[i] < (hay
        + more).len() && (hay + more)[picks[i]] == needle[i] by {
        assert(hay[picks[i]] == needle[i]);
    }
    assert(is_embedding(picks, needle, hay + more));
}

/// The empty query matches every candidate.
pub proof fn lemma_empty_query_matches(candidate: Seq<char>)
    ensures
        fuzzy_matches(Seq::<char>::empty(), candidate),
{
}

/// A query that matches a candidate still matches after text is appended to
/// the candidate, provided that the lowercase form of the longer candidate
/// still holds that of the shorter one as a subsequence. (Lowercasing looks at
/// a letter's neighbours, so a continuation can change how the last letters
/// of the candidate fold.)
pub proof fn lemma_match_survives_append(query: Seq<char>, candidate: Seq<char>, more: Seq<char>)
    requires
        fuzzy_matches(query, candidate),
        is_subsequence(lowercase(candidate), lowercase(candidate + more)),
    ensures
        fuzzy_matches(query, candidate + more),
{
    if query.len() > 0 {
        lemma_subsequence_transitive(
            lowercase(query),
            lowercase(candidate),
            lowercase(candidate + more),
        );
    }
}

/// Decides whether `needle` is a subsequence of `hay`, as written: no case
/// folding is done here. The scan stops as soon as the rest of `hay` cannot
/// hold the next character of `needle`.
pub fn is_subsequence_of(needle: &str, hay: &str) -> (found: bool)
    ensures
        found == is_subsequence(needle@, hay@),
{
    let mut wanted = needle.chars();
    let mut rest = hay.chars();
    loop
        invariant
            wanted.decrease() is Some,
            rest.decrease() is Some,
            is_subsequence(needle@, hay@) == is_subsequence(wanted.remaining(), rest.remaining()),
        decreases wanted.decrease()->0,
    {
        let ghost wanted_before = wanted.remaining();
        match wanted.next() {
            None => {
                proof {
                    assert(wanted_before =~= Seq::<char>::empty());
                    lemma_empty_is_subsequence(rest.remaining());
                }
                return true;
            },
            Some(qc) => {
                loop
                    invariant_except_break
                        is_subsequence(needle@, hay@) == is_subsequence(
                            wanted_before,
                            rest.remaining(),
                        ),
                    invariant
                        rest.decrease() is Some,
                        wanted_before.len() > 0,
                        wanted_before[0] == qc,
                        wanted.remaining() == wanted_before.drop_first(),
                    ensures
                        is_subsequence(needle@, hay@) == is_subsequence(
                            wanted.remaining(),
                            rest.remaining(),
                        ),
                    decreases rest.decrease()->0,
                {
                    let ghost rest_before = rest.remaining();
                    match rest.next() {
                        None => {
                            proof {
                                assert(rest_before =~= Seq::<char>::empty());
                                lemma_subsequence_of_empty(wanted_before);
                            }
                            return false;
                        },
                        Some(sc) => {
                            proof {
                                lemma_subsequence_step(wanted_before, rest_before);
                            }
                            if sc == qc {
                                break ;
                            }
                        },
                    }
                }
            },
        }
    }
}

/// Decides whether `query` loosely matches `candidate`: the empty query
/// always does; otherwise both are put in lowercase and the query must be a
/// subsequence of the candidate.
pub fn fuzzy_find(query: &str, candidate: &str) -> (hit: bool)
    ensures
        hit == fuzzy_matches(query@, candidate@),
        query@.len() == 0 ==> hit,
{
    if query.is_empty() {
        return true;
    }
    let folded_query = to_lowercase(query);
    let folded_candidate = to_lowercase(candidate);
    is_subsequence_of(folded_query.as_str(), folded_candidate.as_str())
}

} // verus!
