//! Profiling helpers: a bounded list of the slowest inputs, and the
//! [`FileTime`] data type that attributes scan time to a labelled input.
use std::time::Duration;
use vstd::multiset::Multiset;
use vstd::prelude::*;

verus! {

/// The total number of nanoseconds of a duration, as `Duration::as_nanos`
/// counts them.
pub uninterp spec fn duration_nanos(d: Duration) -> nat;

/// `Duration::as_nanos` returns the total number of nanoseconds contained by
/// the duration. Durations compare as these numbers do.
pub assume_specification[ Duration::as_nanos ](d: &Duration) -> (nanos: u128)
    ensures
        nanos == duration_nanos(*d),
;

/// A single (label, time) pair used in offender lists.
#[derive(Debug, PartialEq, Eq)]
pub struct FileTime {
    /// Label identifying the scanned input.
    pub label: String,
    /// Time spent on this single scan.
    pub time: Duration,
}

/// An entry as the contracts see it: its time in nanoseconds and its label.
pub struct Entry {
    pub time: nat,
    pub label: Seq<char>,
}

impl View for FileTime {
    type V = Entry;

    open spec fn view(&self) -> Entry {
        Entry { time: duration_nanos(self.time), label: self.label@ }
    }
}

impl Clone for FileTime {
    fn clone(&self) -> (copy: Self)
        ensures
            copy == *self,
    {
        FileTime { label: self.label.clone(), time: self.time }
    }
}

pub open spec fn entries(list: Seq<FileTime>) -> Seq<Entry> {
    list.map_values(|f: FileTime| f@)
}

/// Byte-wise lexicographic order.
pub open spec fn bytes_le(a: Seq<u8>, b: Seq<u8>) -> bool
    decreases a.len(),
{
    if a.len() == 0 {
        true
    } else if b.len() == 0 {
        false
    } else if a[0] == b[0] {
        bytes_le(a.drop_first(), b.drop_first())
    } else {
        a[0] < b[0]
    }
}

/// Entries are ordered by time, and entries of one time by the bytes of their
/// labels.
pub open spec fn entry_le(a: Entry, b: Entry) -> bool {
    ||| a.time < b.time
    ||| a.time == b.time && bytes_le(
        vstd::utf8::encode_utf8(a.label),
        vstd::utf8::encode_utf8(b.label),
    )
}

/// `entry` is in `contents`, and nothing there is smaller.
pub open spec fn is_least(contents: Multiset<Entry>, entry: Entry) -> bool {
    &&& contents.contains(entry)
    &&& forall|other: Entry| #[trigger] contents.contains(other) ==> entry_le(entry, other)
}

pub open spec fn least(contents: Multiset<Entry>) -> Entry {
    choose|entry: Entry| is_least(contents, entry)
}

/// What a list of at most `capacity` entries holds after `entry` was offered to
/// it: the entry joins while there is room, and takes the place of the least
/// entry if it took strictly longer than that one.
pub open spec fn offered(
    capacity: nat,
    contents: Multiset<Entry>,
    entry: Entry,
) -> Multiset<Entry> {
    if contents.len() < capacity {
        contents.insert(entry)
    } else if contents.len() > 0 && entry.time > least(contents).time {
        contents.remove(least(contents)).insert(entry)
    } else {
        contents
    }
}

proof fn lemma_bytes_le_total(a: Seq<u8>, b: Seq<u8>)
    ensures
        bytes_le(a, b) || bytes_le(b, a),
    decreases a.len(),
{
    if a.len() > 0 && b.len() > 0 && a[0] == b[0] {
        lemma_bytes_le_total(a.drop_first(), b.drop_first());
    }
}

proof fn lemma_bytes_le_antisymmetric(a: Seq<u8>, b: Seq<u8>)
    requires
        bytes_le(a, b),
        bytes_le(b, a),
    ensures
        a == b,
    decreases a.len(),
{
    if a.len() > 0 && b.len() > 0 {
        lemma_bytes_le_antisymmetric(a.drop_first(), b.drop_first());
        assert(a =~= seq![a[0]] + a.drop_first());
        assert(b =~= seq![b[0]] + b.drop_first());
    } else {
        assert(a =~= b);
    }
}

proof fn lemma_bytes_le_transitive(a: Seq<u8>, b: Seq<u8>, c: Seq<u8>)
    requires
        bytes_le(a, b),
        bytes_le(b, c),
    ensures
        bytes_le(a, c),
    decreases a.len(),
{
    if a.len() > 0 && b.len() > 0 && c.len() > 0 && a[0] == b[0] && b[0] == c[0] {
        lemma_bytes_le_transitive(a.drop_first(), b.drop_first(), c.drop_first());
    }
}

pub(crate) proof fn lemma_entry_le_total(a: Entry, b: Entry)
    ensures
        entry_le(a, b) || entry_le(b, a),
{
    lemma_bytes_le_total(
        vstd::utf8::encode_utf8(a.label),
        vstd::utf8::encode_utf8(b.label),
    );
}

pub(crate) proof fn lemma_entry_le_transitive(a: Entry, b: Entry, c: Entry)
    requires
        entry_le(a, b),
        entry_le(b, c),
    ensures
        entry_le(a, c),
{
    if a.time == b.time && b.time == c.time {
        lemma_bytes_le_transitive(
            vstd::utf8::encode_utf8(a.label),
            vstd::utf8::encode_utf8(b.label),
            vstd::utf8::encode_utf8(c.label),
        );
    }
}

/// The order is strict on different entries, so the least one is unique.
pub(crate) proof fn lemma_least_is_unique(contents: Multiset<Entry>, entry: Entry)
    requires
        is_least(contents, entry),
    ensures
        least(contents) == entry,
{
    let other = least(contents);
    assert(is_least(contents, other));
    assert(entry_le(entry, other) && entry_le(other, entry));
    lemma_bytes_le_antisymmetric(
        vstd::utf8::encode_utf8(entry.label),
        vstd::utf8::encode_utf8(other.label),
    );
    vstd::utf8::encode_utf8_decode_utf8(entry.label);
    vstd::utf8::encode_utf8_decode_utf8(other.label);
}

/// Largest entries first.
pub open spec fn descending(list: Seq<Entry>) -> bool {
    forall|i: int, j: int|
        0 <= i < j < list.len() ==> entry_le(#[trigger] list[j], #[trigger] list[i])
}

proof fn lemma_last_is_least(list: Seq<Entry>)
    requires
        descending(list),
        list.len() > 0,
    ensures
        is_least(list.to_multiset(), list.last()),
{
    broadcast use vstd::seq_lib::group_to_multiset_ensures;

    let last = list.last();
    assert(list.contains(last));
    assert forall|other: Entry| #[trigger] list.to_multiset().contains(other) implies entry_le(
        last,
        other,
    ) by {
        let i = choose|i: int| 0 <= i < list.len() && list[i] == other;
        lemma_bytes_le_total(
            vstd::utf8::encode_utf8(last.label),
            vstd::utf8::encode_utf8(last.label),
        );
        if i < list.len() - 1 {
            assert(entry_le(list[list.len() - 1], list[i]));
        }
    }
}

fn bytes_not_greater(a: &[u8], b: &[u8]) -> (le: bool)
    ensures
        le == bytes_le(a@, b@),
{
    let mut i: usize = 0;
    assert(a@.skip(0) =~= a@);
    assert(b@.skip(0) =~= b@);
    while i < a.len() && i < b.len()
        invariant
            i <= a.len(),
            i <= b.len(),
            bytes_le(a@, b@) == bytes_le(a@.skip(i as int), b@.skip(i as int)),
        decreases a.len() - i,
    {
        assert(a@.skip(i as int).drop_first() =~= a@.skip(i + 1));
        assert(b@.skip(i as int).drop_first() =~= b@.skip(i + 1));
        if a[i] != b[i] {
            return a[i] < b[i];
        }
        i += 1;
    }
    i == a.len()
}

fn not_greater(a: &FileTime, b: &FileTime) -> (le: bool)
    ensures
        le == entry_le(a@, b@),
{
    let a_time: u128 = a.time.as_nanos();
    let b_time: u128 = b.time.as_nanos();
    if a_time == b_time {
        bytes_not_greater(a.label.as_str().as_bytes(), b.label.as_str().as_bytes())
    } else {
        a_time < b_time
    }
}

/// A list of at most `capacity` pairs of a time and a label that keeps the
/// pairs with the largest times.
///
/// Insertions past the capacity evict the smallest entry. An empty list does
/// not allocate.
pub struct BoundedTopK {
    capacity: usize,
    ranked: Vec<FileTime>,
}

impl BoundedTopK {
    pub closed spec fn capacity(&self) -> nat {
        self.capacity as nat
    }

    /// The entries, largest first.
    pub closed spec fn ranking(&self) -> Seq<Entry> {
        entries(self.ranked@)
    }

    pub open spec fn contents(&self) -> Multiset<Entry> {
        self.ranking().to_multiset()
    }

    #[verifier::type_invariant]
    spec fn well_formed(&self) -> bool {
        &&& self.ranked@.len() <= self.capacity
        &&& descending(entries(self.ranked@))
    }

    pub fn new(capacity: usize) -> (list: Self)
        ensures
            list.capacity() == capacity,
            list.contents() == Multiset::<Entry>::empty(),
    {
        let list = BoundedTopK { capacity, ranked: Vec::new() };
        assert(list.ranking() =~= Seq::empty());
        proof {
            vstd::seq_lib::to_multiset_len(list.ranking());
            assert(list.contents().len() == 0);
        }
        list
    }

    /// Inserts `(time, label)`. If the list is at capacity, evicts the
    /// smallest entry when `time` is greater.
    pub fn insert(&mut self, time: Duration, label: String)
        ensures
            final(self).capacity() == old(self).capacity(),
            final(self).contents() == offered(
                old(self).capacity(),
                old(self).contents(),
                (Entry { time: duration_nanos(time), label: label@ }),
            ),
            final(self).contents().len() <= final(self).capacity(),
    {
        proof {
            use_type_invariant(&*self);
        }
        let entry = FileTime { label, time };
        let mut ranked: Vec<FileTime> = Vec::new();
        std::mem::swap(&mut ranked, &mut self.ranked);
        let full = ranked.len() >= self.capacity;
        proof {
            vstd::seq_lib::to_multiset_len(entries(ranked@));
            if ranked@.len() > 0 {
                lemma_last_is_least(entries(ranked@));
                lemma_least_is_unique(entries(ranked@).to_multiset(), entries(ranked@).last());
            }
        }
        if full {
            if ranked.len() == 0 || entry.time.as_nanos() <= ranked[ranked.len()
                - 1].time.as_nanos() {
                self.ranked = ranked;
                return ;
            }
            let ghost before = entries(ranked@);
            ranked.pop();
            proof {
                assert(entries(ranked@) =~= before.remove(before.len() - 1));
                vstd::seq_lib::to_multiset_remove(before, before.len() - 1);
            }
        }
        insert_ranked(&mut ranked, entry);
        self.ranked = ranked;
        proof {
            vstd::seq_lib::to_multiset_len(self.ranking());
        }
    }

    /// Returns a sorted snapshot of the contents, descending by `time`. Does
    /// not modify the list.
    pub fn sorted_snapshot(&self) -> (snapshot: Vec<FileTime>)
        ensures
            entries(snapshot@) == self.ranking(),
            entries(snapshot@).to_multiset() == self.contents(),
            snapshot@.len() <= self.capacity(),
            forall|i: int, j: int|
                0 <= i < j < snapshot@.len() ==> (#[trigger] snapshot@[i])@.time >= (
                #[trigger] snapshot@[j])@.time,
    {
        proof {
            use_type_invariant(self);
        }
        let mut snapshot: Vec<FileTime> = Vec::new();
        let mut i: usize = 0;
        while i < self.ranked.len()
            invariant
                i <= self.ranked@.len(),
                entries(snapshot@) == entries(self.ranked@).take(i as int),
            decreases self.ranked@.len() - i,
        {
            let ghost before = snapshot@;
            snapshot.push(self.ranked[i].clone());
            assert(entries(snapshot@) =~= entries(before).push(self.ranked@[i as int]@));
            i += 1;
            assert(entries(snapshot@) =~= entries(self.ranked@).take(i as int));
        }
        assert(entries(snapshot@) =~= entries(self.ranked@));
        assert forall|i: int, j: int| 0 <= i < j < snapshot@.len() implies (
        #[trigger] snapshot@[i])@.time >= (#[trigger] snapshot@[j])@.time by {
            assert(entries(snapshot@)[i] == snapshot@[i]@);
            assert(entries(snapshot@)[j] == snapshot@[j]@);
            assert(entry_le(entries(snapshot@)[j], entries(snapshot@)[i]));
        }
        snapshot
    }

    pub fn is_empty(&self) -> (empty: bool)
        ensures
            empty == (self.contents().len() == 0),
    {
        proof {
            vstd::seq_lib::to_multiset_len(self.ranking());
        }
        self.ranked.len() == 0
    }
}

/// Puts `entry` where it belongs.
fn insert_ranked(ranked: &mut Vec<FileTime>, entry: FileTime)
    requires
        descending(entries(old(ranked)@)),
    ensures
        descending(entries(final(ranked)@)),
        final(ranked)@.len() == old(ranked)@.len() + 1,
        entries(final(ranked)@).to_multiset() == entries(old(ranked)@).to_multiset().insert(entry@),
{
    let mut at: usize = 0;
    while at < ranked.len() && not_greater(&entry, &ranked[at])
        invariant
            at <= ranked@.len(),
            forall|j: int| 0 <= j < at ==> entry_le(entry@, (#[trigger] ranked@[j])@),
        decreases ranked@.len() - at,
    {
        at += 1;
    }
    let ghost before = entries(ranked@);
    let ghost new = entry@;
    proof {
        assert forall|j: int| 0 <= j < at implies entry_le(new, #[trigger] before[j]) by {
            assert(before[j] == ranked@[j]@);
        }
        assert forall|j: int| at <= j < before.len() implies entry_le(#[trigger] before[j], new) by {
            lemma_entry_le_total(new, before[at as int]);
            if j > at {
                lemma_entry_le_transitive(before[j], before[at as int], new);
            }
        }
        vstd::seq_lib::to_multiset_insert(before, at as int, new);
    }
    ranked.insert(at, entry);
    let ghost after = entries(ranked@);
    proof {
        assert(after =~= before.insert(at as int, new));
        assert forall|i: int, j: int| 0 <= i < j < after.len() implies entry_le(
            #[trigger] after[j],
            #[trigger] after[i],
        ) by {
            let old_i = if i < at {
                i
            } else {
                i - 1
            };
            let old_j = if j < at {
                j
            } else {
                j - 1
            };
            if i != at && j != at {
                assert(entry_le(before[old_j], before[old_i]));
            }
        }
    }
}

} // verus!
