//! Bringing the outputs of a run back into the order of its items, so that
//! what is made of them does not depend on the order of completion.

use vstd::prelude::*;

verus! {

/// Whether the tags never go down along the sequence.
pub open spec fn ascending<O>(tagged: Seq<(usize, O)>) -> bool {
    forall|i: int, j: int| 0 <= i < j < tagged.len() ==> (#[trigger] tagged[i]).0 <= (
    #[trigger] tagged[j]).0
}

/// Whether no tag occurs twice.
pub open spec fn distinct_tags<O>(tagged: Seq<(usize, O)>) -> bool {
    forall|i: int, j: int|
        0 <= i < tagged.len() && 0 <= j < tagged.len() && i != j ==> (#[trigger] tagged[i]).0 != (
        #[trigger] tagged[j]).0
}

/// Where an output with the tag `tag` goes among outputs in ascending order:
/// behind the last one whose tag is not greater.
pub open spec fn place<O>(sorted: Seq<(usize, O)>, tag: usize) -> int
    decreases sorted.len(),
{
    if sorted.len() == 0 {
        0
    } else if sorted.last().0 <= tag {
        sorted.len() as int
    } else {
        place(sorted.drop_last(), tag)
    }
}

/// The tagged outputs in ascending order of their tags; outputs with one tag
/// keep the order in which they came.
pub open spec fn by_tag<O>(tagged: Seq<(usize, O)>) -> Seq<(usize, O)>
    decreases tagged.len(),
{
    if tagged.len() == 0 {
        Seq::empty()
    } else {
        let before = by_tag(tagged.drop_last());
        before.insert(place(before, tagged.last().0), tagged.last())
    }
}

/// The outputs without their tags.
pub open spec fn untagged<O>(tagged: Seq<(usize, O)>) -> Seq<O> {
    tagged.map_values(|pair: (usize, O)| pair.1)
}

/// The place of a tag splits an ascending sequence into the outputs whose
/// tags are not greater and those whose tags are.
pub proof fn lemma_place<O>(sorted: Seq<(usize, O)>, tag: usize)
    requires
        ascending(sorted),
    ensures
        0 <= place(sorted, tag) <= sorted.len(),
        forall|i: int| 0 <= i < place(sorted, tag) ==> (#[trigger] sorted[i]).0 <= tag,
        forall|i: int| place(sorted, tag) <= i < sorted.len() ==> (#[trigger] sorted[i]).0 > tag,
    decreases sorted.len(),
{
    if sorted.len() > 0 {
        if sorted.last().0 <= tag {
            assert forall|i: int| 0 <= i < sorted.len() implies (#[trigger] sorted[i]).0
                <= tag by {
                if i < sorted.len() - 1 {
                    assert(sorted[i].0 <= sorted[sorted.len() - 1].0);
                }
            }
        } else {
            let rest = sorted.drop_last();
            assert forall|i: int, j: int| 0 <= i < j < rest.len() implies (#[trigger] rest[i]).0
                <= (#[trigger] rest[j]).0 by {
                assert(rest[i] == sorted[i]);
                assert(rest[j] == sorted[j]);
            }
            lemma_place(rest, tag);
            assert forall|i: int| 0 <= i < place(sorted, tag) implies (#[trigger] sorted[i]).0
                <= tag by {
                assert(sorted[i] == rest[i]);
            }
            assert forall|i: int| place(sorted, tag) <= i < sorted.len() implies (
            #[trigger] sorted[i]).0 > tag by {
                if i < rest.len() {
                    assert(sorted[i] == rest[i]);
                }
            }
        }
    }
}

/// Ordering by tag rearranges and loses nothing: the result is ascending and
/// holds the very outputs that came, each as often as it came.
pub proof fn lemma_by_tag<O>(tagged: Seq<(usize, O)>)
    ensures
        ascending(by_tag(tagged)),
        by_tag(tagged).len() == tagged.len(),
        by_tag(tagged).to_multiset() == tagged.to_multiset(),
    decreases tagged.len(),
{
    broadcast use vstd::seq_lib::group_to_multiset_ensures;

    if tagged.len() > 0 {
        let rest = tagged.drop_last();
        let before = by_tag(rest);
        let last = tagged.last();
        let at = place(before, last.0);
        let after = before.insert(at, last);
        lemma_by_tag(rest);
        lemma_place(before, last.0);
        assert forall|i: int, j: int| 0 <= i < j < after.len() implies (#[trigger] after[i]).0 <= (
        #[trigger] after[j]).0 by {
            if i < at {
                assert(after[i] == before[i]);
            } else if i > at {
                assert(after[i] == before[i - 1]);
            }
            if j < at {
                assert(after[j] == before[j]);
            } else if j > at {
                assert(after[j] == before[j - 1]);
            }
        }
        assert(tagged =~= rest.push(last));
        assert(rest.push(last).to_multiset() =~= rest.to_multiset().insert(last));
        assert(after.to_multiset() =~= before.to_multiset().insert(last));
    }
}

/// Two ascending sequences with distinct tags that hold the same outputs are
/// the same sequence.
pub proof fn lemma_ascending_unique<O>(first: Seq<(usize, O)>, second: Seq<(usize, O)>)
    requires
        ascending(first),
        ascending(second),
        distinct_tags(first),
        first.to_multiset() == second.to_multiset(),
    ensures
        first == second,
    decreases first.len(),
{
    first.to_multiset_ensures();
    second.to_multiset_ensures();
    if first.len() > 0 {
        let n = first.len() - 1;
        assert(second.contains(second[n]));
        assert(first.contains(first[n]));
        assert(first.to_multiset().count(second[n]) > 0);
        assert(second.to_multiset().count(first[n]) > 0);
        let i = choose|i: int| 0 <= i < first.len() && first[i] == second[n];
        let j = choose|j: int| 0 <= j < second.len() && second[j] == first[n];
        assert(first[i].0 <= first[n].0);
        assert(second[j].0 <= second[n].0);
        assert(i == n);
        let first_rest = first.drop_last();
        let second_rest = second.drop_last();
        assert(first_rest =~= first.remove(n));
        assert(second_rest =~= second.remove(n));
        assert(first_rest.to_multiset() =~= first.to_multiset().remove(first[n]));
        assert(second_rest.to_multiset() =~= second.to_multiset().remove(second[n]));
        assert forall|a: int, b: int| 0 <= a < b < first_rest.len() implies (
        #[trigger] first_rest[a]).0 <= (#[trigger] first_rest[b]).0 by {
            assert(first_rest[a] == first[a]);
            assert(first_rest[b] == first[b]);
        }
        assert forall|a: int, b: int| 0 <= a < b < second_rest.len() implies (
        #[trigger] second_rest[a]).0 <= (#[trigger] second_rest[b]).0 by {
            assert(second_rest[a] == second[a]);
            assert(second_rest[b] == second[b]);
        }
        assert forall|a: int, b: int|
            0 <= a < first_rest.len() && 0 <= b < first_rest.len() && a != b implies (
        #[trigger] first_rest[a]).0 != (#[trigger] first_rest[b]).0 by {
            assert(first_rest[a] == first[a]);
            assert(first_rest[b] == first[b]);
        }
        lemma_ascending_unique(first_rest, second_rest);
        assert(first =~= first_rest.push(first[n]));
        assert(second =~= second_rest.push(second[n]));
    }
}

/// The order of completion does not matter: where every output carries the
/// index of its item as its tag, two runs that completed the same units give
/// the same outputs in item order.
pub proof fn lemma_item_order_is_determined<O>(first: Seq<(usize, O)>, second: Seq<(usize, O)>)
    requires
        distinct_tags(first),
        first.to_multiset() == second.to_multiset(),
    ensures
        untagged(by_tag(first)) == untagged(by_tag(second)),
{
    lemma_by_tag(first);
    lemma_by_tag(second);
    let sorted = by_tag(first);
    assert forall|i: int, j: int|
        0 <= i < sorted.len() && 0 <= j < sorted.len() && i != j implies (#[trigger] sorted[i]).0
        != (#[trigger] sorted[j]).0 by {
        lemma_distinct_tags_permute(first, sorted, i, j);
    }
    lemma_ascending_unique(sorted, by_tag(second));
}

/// Distinct tags stay distinct however the outputs are rearranged.
proof fn lemma_distinct_tags_permute<O>(
    tagged: Seq<(usize, O)>,
    other: Seq<(usize, O)>,
    i: int,
    j: int,
)
    requires
        distinct_tags(tagged),
        tagged.to_multiset() == other.to_multiset(),
        0 <= i < other.len(),
        0 <= j < other.len(),
        i != j,
    ensures
        other[i].0 != other[j].0,
{
    tagged.to_multiset_ensures();
    other.to_multiset_ensures();
    assert(other.contains(other[i]));
    assert(other.contains(other[j]));
    assert(tagged.to_multiset().count(other[i]) > 0);
    assert(tagged.to_multiset().count(other[j]) > 0);
    let a = choose|a: int| 0 <= a < tagged.len() && tagged[a] == other[i];
    let b = choose|b: int| 0 <= b < tagged.len() && tagged[b] == other[j];
    if a == b {
        // One output of `tagged` would occur twice in `other`.
        assert(tagged.no_duplicates());
        tagged.lemma_multiset_has_no_duplicates();
        other.lemma_multiset_has_no_duplicates_conv();
        assert(other[i] != other[j]);
    }
}

/// Brings tagged outputs into the ascending order of their tags and takes the
/// tags off. Where the tags are the indices of the items, this is the order
/// of the items.
pub fn in_item_order<O>(tagged: Vec<(usize, O)>) -> (outputs: Vec<O>)
    ensures
        outputs@ == untagged(by_tag(tagged@)),
{
    let ghost all = tagged@;
    let mut sorted: Vec<(usize, O)> = Vec::new();
    for pair in it: tagged
        invariant
            it.seq() == all,
            sorted@ == by_tag(all.take(it.index() as int)),
    {
        proof {
            let next = all.take(it.index() as int + 1);
            assert(next.drop_last() =~= all.take(it.index() as int));
            assert(next.last() == pair);
        }
        let mut at: usize = sorted.len();
        assert(sorted@.take(at as int) =~= sorted@);
        while at > 0 && sorted[at - 1].0 > pair.0
            invariant
                at <= sorted.len(),
                place(sorted@, pair.0) == place(sorted@.take(at as int), pair.0),
            decreases at,
        {
            assert(sorted@.take(at as int).drop_last() =~= sorted@.take(at as int - 1));
            at -= 1;
        }
        sorted.insert(at, pair);
    }
    proof {
        assert(all.take(all.len() as int) =~= all);
    }
    let ghost ordered = sorted@;
    let mut outputs: Vec<O> = Vec::new();
    for pair in it: sorted
        invariant
            it.seq() == ordered,
            outputs@ == untagged(ordered.take(it.index() as int)),
    {
        outputs.push(pair.1);
        assert(outputs@ =~= untagged(ordered.take(it.index() as int + 1)));
    }
    proof {
        assert(ordered.take(ordered.len() as int) =~= ordered);
    }
    outputs
}

} // verus!
