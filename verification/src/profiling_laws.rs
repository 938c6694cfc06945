//! What holds of a bounded list of the slowest inputs over any run of
//! insertions.
#[allow(unused_imports)]
use crate::profiling::{
    bytes_le, entry_le, is_least, least, lemma_entry_le_total, lemma_entry_le_transitive,
    lemma_least_is_unique, offered, Entry,
};
use vstd::multiset::Multiset;
use vstd::prelude::*;

verus! {

/// What an empty list of the given capacity holds after the entries were
/// inserted one by one.
pub open spec fn kept(capacity: nat, inserted: Seq<Entry>) -> Multiset<Entry>
    decreases inserted.len(),
{
    if inserted.len() == 0 {
        Multiset::empty()
    } else {
        offered(capacity, kept(capacity, inserted.drop_last()), inserted.last())
    }
}

/// The entry was inserted and is no longer, or never came to be, in the list.
pub open spec fn dropped(capacity: nat, inserted: Seq<Entry>, entry: Entry) -> bool {
    inserted.to_multiset().count(entry) > kept(capacity, inserted).count(entry)
}

/// A list that is not empty has a least entry.
proof fn lemma_least_exists(contents: Multiset<Entry>)
    requires
        contents.len() > 0,
    ensures
        is_least(contents, least(contents)),
    decreases contents.len(),
{
    broadcast use vstd::multiset::group_multiset_axioms;

    let some = contents.choose();
    let rest = contents.remove(some);
    assert(contents =~= rest.insert(some));
    let candidate = if rest.len() == 0 {
        some
    } else {
        lemma_least_exists(rest);
        lemma_entry_le_total(some, least(rest));
        if entry_le(some, least(rest)) {
            some
        } else {
            least(rest)
        }
    };
    assert forall|other: Entry| #[trigger] contents.contains(other) implies entry_le(
        candidate,
        other,
    ) by {
        lemma_entry_le_total(some, some);
        if rest.contains(other) {
            assert(rest.len() > 0);
            assert(entry_le(least(rest), other));
            if candidate == some {
                lemma_entry_le_transitive(some, least(rest), other);
            }
        } else {
            assert(other == some);
        }
    }
    assert(is_least(contents, candidate));
}

/// One more insertion is one more step.
pub proof fn law_insertions_add_up(capacity: nat, inserted: Seq<Entry>, entry: Entry)
    ensures
        kept(capacity, inserted.push(entry)) == offered(capacity, kept(capacity, inserted), entry),
{
    assert(inserted.push(entry).drop_last() =~= inserted);
}

/// The list keeps what was inserted as long as there is room, never more than
/// its capacity, and nothing that was not inserted. No entry that it dropped
/// took longer than any that it kept.
pub proof fn law_keeps_the_largest(capacity: nat, inserted: Seq<Entry>)
    ensures
        kept(capacity, inserted).len() == if inserted.len() < capacity {
            inserted.len()
        } else {
            capacity
        },
        kept(capacity, inserted).subset_of(inserted.to_multiset()),
        forall|in_list: Entry, out: Entry|
            #[trigger] kept(capacity, inserted).count(in_list) > 0 && #[trigger] dropped(
                capacity,
                inserted,
                out,
            ) ==> out.time <= in_list.time,
    decreases inserted.len(),
{
    broadcast use vstd::multiset::group_multiset_axioms;

    vstd::seq_lib::to_multiset_len(inserted);
    if inserted.len() == 0 {
        assert(inserted =~= Seq::empty());
    } else {
        let before = inserted.drop_last();
        let entry = inserted.last();
        law_keeps_the_largest(capacity, before);
        vstd::seq_lib::to_multiset_len(before);
        assert(inserted =~= before.push(entry));
        vstd::seq_lib::to_multiset_build(before, entry);
        let old_kept = kept(capacity, before);
        let new_kept = kept(capacity, inserted);
        let offers = before.to_multiset();
        if old_kept.len() < capacity {
            assert(old_kept.len() == offers.len());
            assert(offers.sub(old_kept).len() == 0);
            assert forall|out: Entry| !dropped(capacity, before, out) by {
                assert(offers.sub(old_kept).count(out) == 0);
            }
            assert forall|out: Entry| !dropped(capacity, inserted, out) by {
                assert(!dropped(capacity, before, out));
            }
        } else if old_kept.len() > 0 {
            lemma_least_exists(old_kept);
            let smallest = least(old_kept);
            assert forall|in_list: Entry, out: Entry|
                #[trigger] new_kept.count(in_list) > 0 && #[trigger] dropped(
                    capacity,
                    inserted,
                    out,
                ) implies out.time <= in_list.time by {
                assert(old_kept.contains(smallest));
                if out != smallest && out != entry {
                    assert(dropped(capacity, before, out));
                }
                if in_list != entry {
                    assert(old_kept.contains(in_list));
                }
                if dropped(capacity, before, out) {
                    assert(old_kept.count(smallest) > 0);
                    assert(out.time <= smallest.time);
                }
            }
        }
    }
}

/// At capacity, an entry that took no longer than the least one changes
/// nothing, and one that took longer takes its place.
pub proof fn law_only_longer_entries_evict(
    capacity: nat,
    contents: Multiset<Entry>,
    entry: Entry,
)
    requires
        contents.len() == capacity,
        capacity > 0,
    ensures
        entry.time <= least(contents).time ==> offered(capacity, contents, entry) == contents,
        entry.time > least(contents).time ==> offered(capacity, contents, entry) == contents.remove(
            least(contents),
        ).insert(entry),
        is_least(contents, least(contents)),
{
    lemma_least_exists(contents);
}

/// Whatever a list within its capacity is offered, it stays within it.
pub proof fn law_capacity_is_never_exceeded(
    capacity: nat,
    contents: Multiset<Entry>,
    entry: Entry,
)
    requires
        contents.len() <= capacity,
    ensures
        offered(capacity, contents, entry).len() <= capacity,
{
    broadcast use vstd::multiset::group_multiset_axioms;

    if contents.len() > 0 {
        lemma_least_exists(contents);
        assert(contents.contains(least(contents)));
    }
}

/// A list of capacity zero stays empty.
pub proof fn law_no_capacity_keeps_nothing(inserted: Seq<Entry>)
    ensures
        kept(0, inserted) == Multiset::<Entry>::empty(),
{
    law_keeps_the_largest(0, inserted);
    vstd::multiset::lemma_multiset_empty_len(kept(0, inserted));
}

/// `a` comes before `b` in a dictionary of byte strings, or is `b`: the two
/// agree up to some place, where `a` ends or has the smaller byte.
pub open spec fn not_after(a: Seq<u8>, b: Seq<u8>) -> bool {
    exists|n: int| #[trigger]
        agree_up_to(a, b, n) && (n == a.len() || (n < b.len() && a[n] < b[n]))
}

/// The first `n` bytes of the two are there and are the same.
pub open spec fn agree_up_to(a: Seq<u8>, b: Seq<u8>, n: int) -> bool {
    &&& 0 <= n <= a.len()
    &&& n <= b.len()
    &&& forall|i: int| 0 <= i < n ==> #[trigger] a[i] == b[i]
}

/// Labels are compared as byte strings in a dictionary are.
pub proof fn law_order_of_bytes(a: Seq<u8>, b: Seq<u8>)
    ensures
        bytes_le(a, b) == not_after(a, b),
    decreases a.len(),
{
    if a.len() == 0 {
        assert(agree_up_to(a, b, 0));
    } else if b.len() == 0 {
        assert forall|n: int| #[trigger] agree_up_to(a, b, n) implies n == 0 by {}
    } else if a[0] != b[0] {
        assert(agree_up_to(a, b, 0));
        assert forall|n: int| #[trigger] agree_up_to(a, b, n) implies n == 0 by {
            if n > 0 {
                assert(a[0] == b[0]);
            }
        }
    } else {
        let (x, y) = (a.drop_first(), b.drop_first());
        law_order_of_bytes(x, y);
        if not_after(x, y) {
            let n = choose|n: int| #[trigger]
                agree_up_to(x, y, n) && (n == x.len() || (n < y.len() && x[n] < y[n]));
            assert forall|i: int| 0 <= i < n + 1 implies #[trigger] a[i] == b[i] by {
                if i > 0 {
                    assert(x[i - 1] == y[i - 1]);
                }
            }
            assert(agree_up_to(a, b, n + 1));
        }
        if not_after(a, b) {
            let n = choose|n: int| #[trigger]
                agree_up_to(a, b, n) && (n == a.len() || (n < b.len() && a[n] < b[n]));
            assert(n > 0);
            assert forall|i: int| 0 <= i < n - 1 implies #[trigger] x[i] == y[i] by {
                assert(a[i + 1] == b[i + 1]);
            }
            assert(agree_up_to(x, y, n - 1));
        }
    }
}

/// The entry took less time than the other, or the same and has a label that
/// does not come after the other's.
pub open spec fn smaller_or_same(entry: Entry, other: Entry) -> bool {
    entry.time < other.time || (entry.time == other.time && not_after(
        vstd::utf8::encode_utf8(entry.label),
        vstd::utf8::encode_utf8(other.label),
    ))
}

/// What inserting does: with room the entry joins; without room it takes the
/// place of the smallest entry if it took longer than that one, and nothing
/// happens if it did not, or if there is no entry at all.
pub proof fn law_what_an_insertion_does(
    capacity: nat,
    contents: Multiset<Entry>,
    entry: Entry,
    smallest: Entry,
)
    ensures
        contents.len() < capacity ==> offered(capacity, contents, entry) == contents.insert(entry),
        contents.len() >= capacity && contents.len() == 0 ==> offered(capacity, contents, entry)
            == contents,
        contents.len() >= capacity && contents.count(smallest) > 0 && (forall|other: Entry|
            #[trigger] contents.count(other) > 0 ==> smaller_or_same(smallest, other)) ==> offered(
            capacity,
            contents,
            entry,
        ) == if entry.time > smallest.time {
            contents.remove(smallest).insert(entry)
        } else {
            contents
        },
{
    if contents.count(smallest) > 0 && (forall|other: Entry| #[trigger]
        contents.count(other) > 0 ==> smaller_or_same(smallest, other)) {
        assert forall|other: Entry| #[trigger] contents.contains(other) implies entry_le(
            smallest,
            other,
        ) by {
            assert(contents.count(other) > 0);
            law_order_of_bytes(
                vstd::utf8::encode_utf8(smallest.label),
                vstd::utf8::encode_utf8(other.label),
            );
        }
        assert(is_least(contents, smallest));
        lemma_least_is_unique(contents, smallest);
        broadcast use vstd::multiset::group_multiset_axioms;

        assert(contents.len() > 0);
    }
}

} // verus!
