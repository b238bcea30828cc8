//! Transposition table: two fixed arrays of optional entries, addressed by the
//! low bits of a 64-bit position hash. Writes always replace; reads return an
//! entry only when its full key matches the key asked for.

use vstd::prelude::*;

verus! {

/// Number of slots in each of the two arrays.
pub const CAPACITY: usize = 262144;

/// Mask that maps a hash to its slot.
pub const MASK: usize = CAPACITY - 1;

/// A search result remembered for a position.
#[derive(Clone, Copy, Debug, PartialEq, Eq, Structural)]
pub struct Entry {
    /// Full hash of the position.
    pub zobrist: u64,
    /// Score of the position, seen from the side to move.
    pub score: i32,
    /// Remaining depth at which `score` was computed.
    pub depth_of_score: i16,
    /// Total depth of the search that stored the entry.
    pub depth_of_search: i16,
}

/// A remembered static evaluation of a position.
#[derive(Clone, Copy, Debug, PartialEq, Eq, Structural)]
pub struct NNUEEntry {
    /// Full hash of the position.
    pub zobrist: u64,
    /// Evaluation of the position, seen from the side to move.
    pub score: i32,
}

/// The slot that a hash is stored in: its low eighteen bits.
pub open spec fn slot_of(zobrist: u64) -> int {
    (zobrist & (MASK as u64)) as int
}

/// What a read of `zobrist` finds in `slots`: the entry in the hash's slot,
/// provided that it carries the same full key.
pub open spec fn lookup(slots: Seq<Option<Entry>>, zobrist: u64) -> Option<Entry> {
    match slots[slot_of(zobrist)] {
        Some(e) if e.zobrist == zobrist => Some(e),
        _ => None,
    }
}

/// What a read of `zobrist` finds in the evaluation cache `slots`.
pub open spec fn lookup_nnue(slots: Seq<Option<NNUEEntry>>, zobrist: u64) -> Option<NNUEEntry> {
    match slots[slot_of(zobrist)] {
        Some(e) if e.zobrist == zobrist => Some(e),
        _ => None,
    }
}

/// The two arrays of a table as sequences of `CAPACITY` slots each.
pub struct TableView {
    pub entries: Seq<Option<Entry>>,
    pub nnue: Seq<Option<NNUEEntry>>,
}

impl TableView {
    /// Both arrays have `CAPACITY` slots, and every entry sits in the slot of
    /// its own hash.
    pub open spec fn wf(self) -> bool {
        &&& self.entries.len() == CAPACITY
        &&& self.nnue.len() == CAPACITY
        &&& forall|i: int|
            0 <= i < self.entries.len() ==> (#[trigger] self.entries[i] matches Some(e) ==> slot_of(
                e.zobrist,
            ) == i)
        &&& forall|i: int|
            0 <= i < self.nnue.len() ==> (#[trigger] self.nnue[i] matches Some(e) ==> slot_of(
                e.zobrist,
            ) == i)
    }

    /// The table after `entry` was written.
    pub open spec fn put(self, entry: Entry) -> TableView {
        TableView { entries: self.entries.update(slot_of(entry.zobrist), Some(entry)), ..self }
    }

    /// The table after `entry` was written to the evaluation cache.
    pub open spec fn put_nnue(self, entry: NNUEEntry) -> TableView {
        TableView { nnue: self.nnue.update(slot_of(entry.zobrist), Some(entry)), ..self }
    }
}

/// The table that holds nothing.
pub open spec fn empty_view() -> TableView {
    TableView {
        entries: Seq::new(CAPACITY as nat, |i: int| None),
        nnue: Seq::new(CAPACITY as nat, |i: int| None),
    }
}

/// The table shared by one search.
pub struct TransTable {
    entries: Vec<Option<Entry>>,
    entries_nnue: Vec<Option<NNUEEntry>>,
}

impl View for TransTable {
    type V = TableView;

    closed spec fn view(&self) -> TableView {
        TableView { entries: self.entries@, nnue: self.entries_nnue@ }
    }
}

/// A hash's slot is below `CAPACITY`.
pub proof fn lemma_slot_in_range(zobrist: u64)
    ensures
        0 <= slot_of(zobrist) < CAPACITY,
{
    assert(zobrist & 0x3ffff <= 0x3ffff) by (bit_vector);
    assert(MASK as u64 == 0x3ffff);
}

/// The slot of `zobrist` as an index.
fn slot_index(zobrist: u64) -> (index: usize)
    ensures
        index == slot_of(zobrist),
        index < CAPACITY,
{
    proof {
        lemma_slot_in_range(zobrist);
    }
    (zobrist & (MASK as u64)) as usize
}

impl TransTable {
    /// Both arrays have `CAPACITY` slots, and every entry sits in the slot of
    /// its own hash.
    pub open spec fn wf(&self) -> bool {
        self@.wf()
    }

    /// Reads the search entry stored for `zobrist`, if the slot holds one with
    /// this very key.
    pub fn get(&self, zobrist: u64) -> (found: Option<Entry>)
        requires
            self.wf(),
        ensures
            found == lookup(self@.entries, zobrist),
            found matches Some(e) ==> e.zobrist == zobrist,
    {
        let index = slot_index(zobrist);
        match self.entries[index] {
            Some(entry) => if entry.zobrist == zobrist {
                Some(entry)
            } else {
                None
            },
            None => None,
        }
    }

    /// Reads the cached evaluation stored for `zobrist`, if the slot holds one
    /// with this very key.
    pub fn get_nnue(&self, zobrist: u64) -> (found: Option<NNUEEntry>)
        requires
            self.wf(),
        ensures
            found == lookup_nnue(self@.nnue, zobrist),
            found matches Some(e) ==> e.zobrist == zobrist,
    {
        let index = slot_index(zobrist);
        match self.entries_nnue[index] {
            Some(entry) => if entry.zobrist == zobrist {
                Some(entry)
            } else {
                None
            },
            None => None,
        }
    }

    /// Writes `entry` into the slot of its hash, replacing what was there.
    pub fn put(&mut self, entry: Entry)
        requires
            old(self).wf(),
        ensures
            final(self).wf(),
            final(self)@ == old(self)@.put(entry),
    {
        let index = slot_index(entry.zobrist);
        self.entries.set(index, Some(entry));
    }

    /// Writes `entry` into the evaluation cache, replacing what was there.
    pub fn put_nnue(&mut self, entry: NNUEEntry)
        requires
            old(self).wf(),
        ensures
            final(self).wf(),
            final(self)@ == old(self)@.put_nnue(entry),
    {
        let index = slot_index(entry.zobrist);
        self.entries_nnue.set(index, Some(entry));
    }

    /// An empty table.
    pub fn new() -> (table: Self)
        ensures
            table.wf(),
            table@ == empty_view(),
            forall|zobrist: u64| lookup(table@.entries, zobrist) is None,
            forall|zobrist: u64| lookup_nnue(table@.nnue, zobrist) is None,
    {
        let mut entries: Vec<Option<Entry>> = Vec::new();
        let mut entries_nnue: Vec<Option<NNUEEntry>> = Vec::new();
        let mut i: usize = 0;
        while i < CAPACITY
            invariant
                i <= CAPACITY,
                entries@.len() == i,
                entries_nnue@.len() == i,
                forall|j: int| 0 <= j < i ==> entries@[j] is None,
                forall|j: int| 0 <= j < i ==> entries_nnue@[j] is None,
            decreases CAPACITY - i,
        {
            entries.push(None);
            entries_nnue.push(None);
            i += 1;
        }
        assert(entries@ =~= empty_view().entries);
        assert(entries_nnue@ =~= empty_view().nnue);
        assert forall|zobrist: u64| lookup(entries@, zobrist) is None && lookup_nnue(
            entries_nnue@,
            zobrist,
        ) is None by {
            lemma_slot_in_range(zobrist);
        }
        TransTable { entries, entries_nnue }
    }
}

/// Reading a key after writing an entry gives that entry for the entry's own
/// key, and for any other key either what was there before or nothing.
pub proof fn lemma_get_after_put(table: TableView, entry: Entry, zobrist: u64)
    requires
        table.wf(),
    ensures
        table.put(entry).wf(),
        lookup(table.put(entry).entries, entry.zobrist) == Some(entry),
        zobrist != entry.zobrist ==> lookup(table.put(entry).entries, zobrist) == (if slot_of(zobrist)
            == slot_of(entry.zobrist) {
            None
        } else {
            lookup(table.entries, zobrist)
        }),
{
    lemma_slot_in_range(entry.zobrist);
    lemma_slot_in_range(zobrist);
}

/// The same for the evaluation cache.
pub proof fn lemma_get_nnue_after_put(table: TableView, entry: NNUEEntry, zobrist: u64)
    requires
        table.wf(),
    ensures
        table.put_nnue(entry).wf(),
        lookup_nnue(table.put_nnue(entry).nnue, entry.zobrist) == Some(entry),
        zobrist != entry.zobrist ==> lookup_nnue(table.put_nnue(entry).nnue, zobrist) == (if slot_of(
            zobrist,
        ) == slot_of(entry.zobrist) {
            None
        } else {
            lookup_nnue(table.nnue, zobrist)
        }),
{
    lemma_slot_in_range(entry.zobrist);
    lemma_slot_in_range(zobrist);
}

} // verus!
