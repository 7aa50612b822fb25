//! The ranked filter: which store positions match a query, nickname matches
//! first.

use crate::fuzzy::{fuzzy_find, fuzzy_matches};
use crate::store::{views_of, ClipboardStorage, EntryView};
use vstd::prelude::*;

verus! {

/// The entry has a nickname and the query matches it.
pub open spec fn nickname_hit(entry: EntryView, query: Seq<char>) -> bool {
    match entry.nickname {
        Some(nickname) => fuzzy_matches(query, nickname),
        None => false,
    }
}

/// The query matches the entry's content.
pub open spec fn content_hit(entry: EntryView, query: Seq<char>) -> bool {
    fuzzy_matches(query, entry.content)
}

/// The positions `0, 1, .., count - 1`.
pub open spec fn positions(count: nat) -> Seq<int> {
    Seq::new(count, |i: int| i)
}

/// Tells the positions whose entry the query matches by nickname.
pub open spec fn by_nickname(entries: Seq<EntryView>, query: Seq<char>) -> spec_fn(int) -> bool {
    |i: int| nickname_hit(entries[i], query)
}

/// Tells the positions whose entry the query matches by content but not by
/// nickname.
pub open spec fn by_content_only(entries: Seq<EntryView>, query: Seq<char>) -> spec_fn(
    int,
) -> bool {
    |i: int| !nickname_hit(entries[i], query) && content_hit(entries[i], query)
}

/// The filtered view of `entries` under `query`: the positions matched by
/// nickname in store order, then those matched by content alone in store
/// order.
pub open spec fn filtered_view(entries: Seq<EntryView>, query: Seq<char>) -> Seq<int> {
    positions(entries.len()).filter(by_nickname(entries, query)) + positions(entries.len()).filter(
        by_content_only(entries, query),
    )
}

/// Positions held as machine integers, read as integers.
pub open spec fn as_positions(held: Seq<usize>) -> Seq<int> {
    held.map_values(|p: usize| p as int)
}

/// What ranks a filtered view: it names exactly the matching positions;
/// nickname matches come before the others; and two positions that match in
/// the same way keep their store order.
pub open spec fn is_ranked_view(view: Seq<int>, entries: Seq<EntryView>, query: Seq<char>) -> bool {
    &&& forall|k: int|
        0 <= k < view.len() ==> 0 <= #[trigger] view[k] < entries.len() && (nickname_hit(
            entries[view[k]],
            query,
        ) || content_hit(entries[view[k]], query))
    &&& forall|p: int|
        0 <= p < entries.len() && (nickname_hit(#[trigger] entries[p], query) || content_hit(
            entries[p],
            query,
        )) ==> view.contains(p)
    &&& forall|a: int, b: int|
        0 <= a < b < view.len() && nickname_hit(entries[#[trigger] view[b]], query)
            ==> nickname_hit(entries[#[trigger] view[a]], query)
    &&& forall|a: int, b: int|
        0 <= a < b < view.len() && (nickname_hit(entries[#[trigger] view[a]], query)
            <==> nickname_hit(entries[#[trigger] view[b]], query)) ==> view[a] < view[b]
}

/// Filtering the first `count` positions keeps exactly those that satisfy
/// `keep`, in increasing order.
proof fn lemma_kept_positions(count: nat, keep: spec_fn(int) -> bool)
    ensures
        forall|k: int|
            0 <= k < positions(count).filter(keep).len() ==> 0 <= #[trigger] positions(
                count,
            ).filter(keep)[k] < count && keep(positions(count).filter(keep)[k]),
        forall|a: int, b: int|
            0 <= a < b < positions(count).filter(keep).len() ==> positions(count).filter(keep)[a]
                < positions(count).filter(keep)[b],
        forall|p: int|
            0 <= p < count && keep(p) ==> #[trigger] positions(count).filter(keep).contains(p),
    decreases count,
{
    let kept = positions(count).filter(keep);
    if count == 0 {
        reveal(Seq::filter);
    } else {
        let fewer = (count - 1) as nat;
        let before = positions(fewer).filter(keep);
        lemma_kept_positions(fewer, keep);
        assert(positions(count) =~= positions(fewer).push(fewer as int));
        positions(fewer).lemma_filter_push(fewer as int, keep);
        assert forall|p: int| 0 <= p < count && keep(p) implies #[trigger] kept.contains(p) by {
            if p < fewer {
                assert(before.contains(p));
                let k = choose|k: int| 0 <= k < before.len() && before[k] == p;
                assert(kept[k] == p);
            } else {
                assert(kept[kept.len() - 1] == p);
            }
        }
    }
}

/// The filtered view is ranked: exactly the matching positions, nickname
/// matches before the others, store order kept among those that match in the
/// same way.
pub proof fn lemma_filtered_view_is_ranked(entries: Seq<EntryView>, query: Seq<char>)
    ensures
        is_ranked_view(filtered_view(entries, query), entries, query),
{
    let first = positions(entries.len()).filter(by_nickname(entries, query));
    let second = positions(entries.len()).filter(by_content_only(entries, query));
    let view = filtered_view(entries, query);
    lemma_kept_positions(entries.len(), by_nickname(entries, query));
    lemma_kept_positions(entries.len(), by_content_only(entries, query));
    assert forall|k: int| 0 <= k < view.len() implies 0 <= #[trigger] view[k] < entries.len() && (
    nickname_hit(entries[view[k]], query) || content_hit(entries[view[k]], query)) by {
        if k < first.len() {
            assert(view[k] == first[k]);
        } else {
            assert(view[k] == second[k - first.len()]);
        }
    }
    assert forall|p: int|
        0 <= p < entries.len() && (nickname_hit(#[trigger] entries[p], query) || content_hit(
            entries[p],
            query,
        )) implies view.contains(p) by {
        if nickname_hit(entries[p], query) {
            assert(first.contains(p));
            let k = choose|k: int| 0 <= k < first.len() && first[k] == p;
            assert(view[k] == p);
        } else {
            assert(by_content_only(entries, query)(p));
            assert(second.contains(p));
            let k = choose|k: int| 0 <= k < second.len() && second[k] == p;
            assert(view[first.len() + k] == p);
        }
    }
    assert forall|a: int, b: int|
        0 <= a < b < view.len() && nickname_hit(
            entries[#[trigger] view[b]],
            query,
        ) implies nickname_hit(entries[#[trigger] view[a]], query) by {
        if b >= first.len() {
            assert(view[b] == second[b - first.len()]);
        }
        assert(view[a] == first[a]);
    }
    assert forall|a: int, b: int|
        0 <= a < b < view.len() && (nickname_hit(entries[#[trigger] view[a]], query)
            <==> nickname_hit(entries[#[trigger] view[b]], query)) implies view[a] < view[b] by {
        if b < first.len() {
            assert(view[a] == first[a] && view[b] == first[b]);
        } else {
            assert(view[b] == second[b - first.len()]);
            if a < first.len() {
                assert(view[a] == first[a]);
            } else {
                assert(view[a] == second[a - first.len()]);
            }
        }
    }
}

/// Two ranked views of the same entries under the same query agree on their
/// first `upto` positions.
proof fn lemma_ranked_views_agree(
    one: Seq<int>,
    other: Seq<int>,
    entries: Seq<EntryView>,
    query: Seq<char>,
    upto: int,
)
    requires
        is_ranked_view(one, entries, query),
        is_ranked_view(other, entries, query),
        0 <= upto <= one.len(),
    ensures
        upto <= other.len(),
        forall|i: int| 0 <= i < upto ==> one[i] == other[i],
    decreases upto,
{
    if upto > 0 {
        let m = upto - 1;
        lemma_ranked_views_agree(one, other, entries, query, m);
        let p = one[m];
        assert(nickname_hit(entries[p], query) || content_hit(entries[p], query));
        assert(other.contains(p));
        let j = choose|j: int| 0 <= j < other.len() && other[j] == p;
        if j < m {
            assert(one[j] == other[j]);
            assert(one[j] < one[m]);
        }
        if other[m] != one[m] {
            let q = other[m];
            assert(nickname_hit(entries[q], query) || content_hit(entries[q], query));
            assert(one.contains(q));
            let k = choose|k: int| 0 <= k < one.len() && one[k] == q;
            if k < m {
                assert(one[k] == other[k]);
                assert(other[k] < other[m]);
            }
            assert(nickname_hit(entries[other[j]], query) ==> nickname_hit(
                entries[other[m]],
                query,
            ));
            assert(nickname_hit(entries[one[k]], query) ==> nickname_hit(entries[one[m]], query));
            assert(other[m] < other[j]);
            assert(one[m] < one[k]);
        }
    }
}

/// The ranking rule leaves no choice: any two ranked views of the same
/// entries under the same query are the same sequence. So filtering twice
/// gives the same view twice.
pub proof fn lemma_ranked_view_is_unique(
    one: Seq<int>,
    other: Seq<int>,
    entries: Seq<EntryView>,
    query: Seq<char>,
)
    requires
        is_ranked_view(one, entries, query),
        is_ranked_view(other, entries, query),
    ensures
        one == other,
{
    lemma_ranked_views_agree(one, other, entries, query, one.len() as int);
    lemma_ranked_views_agree(other, one, entries, query, other.len() as int);
    assert(one =~= other);
}

/// Computes the filtered view of the store under `query`: for every entry in
/// store order, whether the query matches its nickname and whether it
/// matches its content; the positions matched by nickname come first.
pub fn refilter(store: &ClipboardStorage, query: &str) -> (view: Vec<usize>)
    ensures
        as_positions(view@) == filtered_view(store@, query@),
        is_ranked_view(as_positions(view@), store@, query@),
{
    let entries = store.get_entries();
    let ghost seen = views_of(entries@);
    let mut first: Vec<usize> = Vec::new();
    let mut second: Vec<usize> = Vec::new();
    let mut i: usize = 0;
    proof {
        reveal(Seq::filter);
        assert(as_positions(first@) =~= positions(0).filter(by_nickname(seen, query@)));
        assert(as_positions(second@) =~= positions(0).filter(by_content_only(seen, query@)));
    }
    while i < entries.len()
        invariant
            i <= entries.len(),
            seen == views_of(entries@),
            as_positions(first@) == positions(i as nat).filter(by_nickname(seen, query@)),
            as_positions(second@) == positions(i as nat).filter(by_content_only(seen, query@)),
        decreases entries.len() - i,
    {
        let entry = &entries[i];
        let nickname_match = match &entry.nickname {
            Some(nickname) => fuzzy_find(query, nickname.as_str()),
            None => false,
        };
        let content_match = fuzzy_find(query, entry.content.as_str());
        proof {
            assert(seen[i as int] == entry@);
            assert(nickname_match == nickname_hit(seen[i as int], query@));
            assert(content_match == content_hit(seen[i as int], query@));
            assert(positions((i + 1) as nat) =~= positions(i as nat).push(i as int));
            positions(i as nat).lemma_filter_push(i as int, by_nickname(seen, query@));
            positions(i as nat).lemma_filter_push(i as int, by_content_only(seen, query@));
        }
        let ghost first_before = first@;
        let ghost second_before = second@;
        if nickname_match {
            first.push(i);
            assert(as_positions(first@) =~= as_positions(first_before).push(i as int));
        } else if content_match {
            second.push(i);
            assert(as_positions(second@) =~= as_positions(second_before).push(i as int));
        }
        i += 1;
    }
    let ghost first_done = first@;
    let ghost second_done = second@;
    first.append(&mut second);
    proof {
        assert(as_positions(first@) =~= as_positions(first_done) + as_positions(second_done));
        lemma_filtered_view_is_ranked(seen, query@);
    }
    first
}

} // verus!
