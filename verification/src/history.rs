//! Undo/redo bookkeeping for timing-point edits: a bounded list of entries
//! with a cursor, and the application of an entry to the collection.

use vstd::arithmetic::div_mod::{
    lemma_div_nonincreasing, lemma_div_pos_is_pos, lemma_mod_division_less_than_divisor,
};
use vstd::prelude::*;
use vstd::string::StringSliceAdditionalSpecFns;

use crate::timing::{spec_remove_id, TimingPoint, TimingPoints};
use crate::util::{push_decimal, spec_decimal, spec_pad2, spec_pad3};

verus! {

/// Most entries the history keeps; older ones fall off the front.
pub const MAX_HISTORY_CAPACITY: usize = 200;

/// One edit, as the amount of state needed to play it back in either
/// direction.
#[derive(Clone, Copy, Debug)]
pub enum EditHistoryEntry {
    CreateTimingPoint(TimingPoint),
    DeleteTimingPoint(TimingPoint),
    ModifyTimingPoint { before: TimingPoint, after: TimingPoint },
}

/// A tempo in milli-BPM as text with two decimals, rounded half up.
pub open spec fn spec_bpm_text(bpm: int) -> Seq<u8> {
    let c = (bpm + 5) / 10;
    spec_decimal(c / 100) + seq![46u8] + spec_pad2(c % 100)
}

/// An offset in microseconds as millisecond text; fractional milliseconds
/// show three decimal digits.
pub open spec fn spec_offset_text(us: int) -> Seq<u8> {
    if us % 1000 == 0 {
        spec_decimal(us / 1000)
    } else {
        spec_decimal(us / 1000) + seq![46u8] + spec_pad3(us % 1000)
    }
}

/// The words an entry shows in the history panel; a modification names the
/// first field that changed, tempo before offset before signature.
pub open spec fn spec_entry_label(e: EditHistoryEntry) -> Seq<u8> {
    match e {
        EditHistoryEntry::CreateTimingPoint(_) => "Create timing point".spec_bytes(),
        EditHistoryEntry::DeleteTimingPoint(_) => "Delete timing point".spec_bytes(),
        EditHistoryEntry::ModifyTimingPoint { before, after } => {
            if before.bpm != after.bpm {
                "Change BPM ".spec_bytes() + spec_bpm_text(before.bpm as int)
                    + " -> ".spec_bytes() + spec_bpm_text(after.bpm as int)
            } else if before.offset != after.offset {
                "Change offset ".spec_bytes() + spec_offset_text(before.offset as int)
                    + " -> ".spec_bytes() + spec_offset_text(after.offset as int)
            } else {
                "Change signature ".spec_bytes() + spec_decimal(before.signature.0 as int)
                    + seq![47u8] + spec_decimal(before.signature.1 as int) + " -> ".spec_bytes()
                    + spec_decimal(after.signature.0 as int) + seq![47u8] + spec_decimal(
                    after.signature.1 as int,
                )
            }
        },
    }
}

/// Appends the bytes of a text fragment.
fn append_text(out: &mut Vec<u8>, text: &str)
    ensures
        final(out)@ == old(out)@ + text.spec_bytes(),
{
    let b = text.as_bytes();
    let n = b.len();
    let mut i: usize = 0;
    while i < n
        invariant
            i <= n,
            n == b@.len(),
            b@ == text.spec_bytes(),
            out@ == old(out)@ + b@.subrange(0, i as int),
        decreases n - i,
    {
        out.push(b[i]);
        proof {
            assert(out@ =~= old(out)@ + b@.subrange(0, i + 1 as int));
        }
        i = i + 1;
    }
    proof {
        assert(out@ =~= old(out)@ + text.spec_bytes());
    }
}

/// Appends a tempo in milli-BPM as text with two decimals, rounded half up.
fn append_bpm_text(out: &mut Vec<u8>, bpm: i64)
    requires
        1 <= bpm <= crate::timing::MAX_BPM_MILLI,
    ensures
        final(out)@ == old(out)@ + spec_bpm_text(bpm as int),
{
    proof {
        lemma_div_pos_is_pos(bpm + 5, 10);
        lemma_div_nonincreasing(bpm + 5, 10);
    }
    let c = (bpm + 5) / 10;
    proof {
        lemma_div_pos_is_pos(c as int, 100);
        lemma_div_nonincreasing(c as int, 100);
        lemma_mod_division_less_than_divisor(c as int, 100);
    }
    push_decimal((c / 100) as u64, out);
    out.push(46);
    let frac = c % 100;
    if frac < 10 {
        out.push(48);
    }
    push_decimal(frac as u64, out);
    proof {
        assert(out@ =~= old(out)@ + spec_bpm_text(bpm as int));
    }
}

/// Appends an offset in microseconds as millisecond text.
fn append_offset_text(out: &mut Vec<u8>, us: i64)
    requires
        0 <= us <= crate::MAX_TIME_US,
    ensures
        final(out)@ == old(out)@ + spec_offset_text(us as int),
{
    proof {
        lemma_div_pos_is_pos(us as int, 1000);
        lemma_div_nonincreasing(us as int, 1000);
        lemma_mod_division_less_than_divisor(us as int, 1000);
    }
    push_decimal((us / 1000) as u64, out);
    let frac = us % 1000;
    if frac != 0 {
        out.push(46);
        if frac < 100 {
            out.push(48);
        }
        if frac < 10 {
            out.push(48);
        }
        push_decimal(frac as u64, out);
    }
    proof {
        assert(out@ =~= old(out)@ + spec_offset_text(us as int));
    }
}

impl EditHistoryEntry {
    /// Every timing point the entry carries is well formed.
    pub open spec fn wf(&self) -> bool {
        match *self {
            EditHistoryEntry::CreateTimingPoint(tp) => tp.wf(),
            EditHistoryEntry::DeleteTimingPoint(tp) => tp.wf(),
            EditHistoryEntry::ModifyTimingPoint { before, after } => before.wf() && after.wf(),
        }
    }

    /// The ASCII text the history panel shows for this entry.
    pub fn label(&self) -> (r: Vec<u8>)
        requires
            self.wf(),
        ensures
            r@ == spec_entry_label(*self),
    {
        let mut out: Vec<u8> = Vec::new();
        match self {
            EditHistoryEntry::CreateTimingPoint(_) => {
                append_text(&mut out, "Create timing point");
            },
            EditHistoryEntry::DeleteTimingPoint(_) => {
                append_text(&mut out, "Delete timing point");
            },
            EditHistoryEntry::ModifyTimingPoint { before, after } => {
                if before.bpm != after.bpm {
                    append_text(&mut out, "Change BPM ");
                    append_bpm_text(&mut out, before.bpm);
                    append_text(&mut out, " -> ");
                    append_bpm_text(&mut out, after.bpm);
                } else if before.offset != after.offset {
                    append_text(&mut out, "Change offset ");
                    append_offset_text(&mut out, before.offset);
                    append_text(&mut out, " -> ");
                    append_offset_text(&mut out, after.offset);
                } else {
                    append_text(&mut out, "Change signature ");
                    push_decimal(before.signature.0 as u64, &mut out);
                    out.push(47);
                    push_decimal(before.signature.1 as u64, &mut out);
                    append_text(&mut out, " -> ");
                    push_decimal(after.signature.0 as u64, &mut out);
                    out.push(47);
                    push_decimal(after.signature.1 as u64, &mut out);
                }
            },
        }
        proof {
            assert(out@ =~= spec_entry_label(*self));
        }
        out
    }
}

/// The edit history: entries in the order they were made, and a cursor;
/// everything before the cursor can be undone, everything after it redone.
pub struct EditHistory {
    changes: Vec<EditHistoryEntry>,
    cursor: usize,
}

impl View for EditHistory {
    type V = Seq<EditHistoryEntry>;

    closed spec fn view(&self) -> Seq<EditHistoryEntry> {
        self.changes@
    }
}

impl EditHistory {
    /// The cursor stays within the entries, and the capacity is respected.
    pub open spec fn wf(&self) -> bool {
        &&& 0 <= self.spec_cursor() <= self@.len()
        &&& self@.len() <= MAX_HISTORY_CAPACITY
    }

    pub closed spec fn spec_cursor(&self) -> int {
        self.cursor as int
    }

    pub fn new() -> (r: EditHistory)
        ensures
            r@ == Seq::<EditHistoryEntry>::empty(),
            r.spec_cursor() == 0,
            r.wf(),
    {
        EditHistory { changes: Vec::new(), cursor: 0 }
    }

    /// Records an edit: drops everything after the cursor (a new edit ends a
    /// redo chain), appends the entry, and lets the oldest entry go when the
    /// capacity is exceeded.
    pub fn push(&mut self, entry: EditHistoryEntry)
        requires
            old(self).wf(),
        ensures
            final(self).wf(),
            final(self)@ == {
                let t = old(self)@.subrange(0, old(self).spec_cursor()).push(entry);
                if t.len() <= MAX_HISTORY_CAPACITY {
                    t
                } else {
                    t.subrange(t.len() - MAX_HISTORY_CAPACITY, t.len() as int)
                }
            },
            final(self).spec_cursor() == final(self)@.len(),
    {
        self.changes.truncate(self.cursor);
        self.changes.push(entry);
        if self.changes.len() > MAX_HISTORY_CAPACITY {
            self.changes.remove(0);
            proof {
                let t = old(self)@.subrange(0, old(self).spec_cursor()).push(entry);
                assert(self@ =~= t.subrange(t.len() - MAX_HISTORY_CAPACITY, t.len() as int));
            }
        }
        self.cursor = self.changes.len();
    }

    pub fn can_undo(&self) -> (r: bool)
        ensures
            r == (self.spec_cursor() != 0),
    {
        self.cursor != 0
    }

    /// Steps the cursor back and hands out the entry to play backwards.
    pub fn undo(&mut self) -> (r: Option<EditHistoryEntry>)
        requires
            old(self).wf(),
        ensures
            final(self).wf(),
            final(self)@ == old(self)@,
            old(self).spec_cursor() == 0 ==> r is None && final(self).spec_cursor() == 0,
            old(self).spec_cursor() > 0 ==> {
                &&& final(self).spec_cursor() == old(self).spec_cursor() - 1
                &&& r == Option::Some(old(self)@[old(self).spec_cursor() - 1])
            },
    {
        if self.cursor == 0 {
            Option::None
        } else {
            self.cursor = self.cursor - 1;
            Option::Some(self.changes[self.cursor])
        }
    }

    /// The entry `undo` would hand out. The cursor must not sit at the
    /// start; callers check `can_undo` first.
    pub fn peek_undo(&self) -> (r: Option<EditHistoryEntry>)
        requires
            self.wf(),
            self.spec_cursor() >= 1,
        ensures
            r == Option::Some(self@[self.spec_cursor() - 1]),
    {
        Option::Some(self.changes[self.cursor - 1])
    }

    pub fn can_redo(&self) -> (r: bool)
        ensures
            r == (self.spec_cursor() < self@.len()),
    {
        self.cursor < self.changes.len()
    }

    /// Steps the cursor forward and hands out the entry to play again.
    pub fn redo(&mut self) -> (r: Option<EditHistoryEntry>)
        requires
            old(self).wf(),
        ensures
            final(self).wf(),
            final(self)@ == old(self)@,
            old(self).spec_cursor() == old(self)@.len() ==> r is None && final(self).spec_cursor()
                == old(self).spec_cursor(),
            old(self).spec_cursor() < old(self)@.len() ==> {
                &&& final(self).spec_cursor() == old(self).spec_cursor() + 1
                &&& r == Option::Some(old(self)@[old(self).spec_cursor()])
            },
    {
        if self.cursor == self.changes.len() {
            Option::None
        } else {
            self.cursor = self.cursor + 1;
            Option::Some(self.changes[self.cursor - 1])
        }
    }

    /// The entry `redo` would hand out, if the cursor has anything ahead.
    pub fn peek_redo(&self) -> (r: Option<EditHistoryEntry>)
        requires
            self.wf(),
        ensures
            self.spec_cursor() == self@.len() ==> r is None,
            self.spec_cursor() < self@.len() ==> r == Option::Some(self@[self.spec_cursor()]),
    {
        if self.cursor < self.changes.len() {
            Option::Some(self.changes[self.cursor])
        } else {
            Option::None
        }
    }
}

/// Plays an entry backwards against the collection: a recorded creation is
/// removed, a recorded deletion re-inserted, a recorded modification put
/// back to its before-state (re-sorted, as every offset mutation must be).
pub fn apply_undo(entry: &EditHistoryEntry, tps: &mut TimingPoints)
    requires
        old(tps).wf(),
        entry.wf(),
        old(tps)@.len() < 1_000_000,
    ensures
        final(tps).wf(),
        match *entry {
            EditHistoryEntry::CreateTimingPoint(tp) => final(tps)@ == spec_remove_id(
                old(tps)@,
                tp.id,
            ),
            EditHistoryEntry::DeleteTimingPoint(tp) => final(tps)@.to_multiset() == old(
                tps,
            )@.to_multiset().insert(tp),
            EditHistoryEntry::ModifyTimingPoint { before, after } => final(tps)@.to_multiset()
                == spec_remove_id(old(tps)@, after.id).to_multiset().insert(before),
        },
{
    match entry {
        EditHistoryEntry::CreateTimingPoint(tp) => {
            tps.remove_by_id(tp.id());
        },
        EditHistoryEntry::DeleteTimingPoint(tp) => {
            tps.insert(*tp);
        },
        EditHistoryEntry::ModifyTimingPoint { before, after } => {
            tps.remove_by_id(after.id());
            proof {
                crate::timing::lemma_remove_id_shrinks(old(tps)@, after.id);
            }
            tps.insert(*before);
        },
    }
}

/// Plays an entry forwards against the collection: the mirror image of
/// `apply_undo`.
pub fn apply_redo(entry: &EditHistoryEntry, tps: &mut TimingPoints)
    requires
        old(tps).wf(),
        entry.wf(),
        old(tps)@.len() < 1_000_000,
    ensures
        final(tps).wf(),
        match *entry {
            EditHistoryEntry::CreateTimingPoint(tp) => final(tps)@.to_multiset() == old(
                tps,
            )@.to_multiset().insert(tp),
            EditHistoryEntry::DeleteTimingPoint(tp) => final(tps)@ == spec_remove_id(
                old(tps)@,
                tp.id,
            ),
            EditHistoryEntry::ModifyTimingPoint { before, after } => final(tps)@.to_multiset()
                == spec_remove_id(old(tps)@, before.id).to_multiset().insert(after),
        },
{
    match entry {
        EditHistoryEntry::CreateTimingPoint(tp) => {
            tps.insert(*tp);
        },
        EditHistoryEntry::DeleteTimingPoint(tp) => {
            tps.remove_by_id(tp.id());
        },
        EditHistoryEntry::ModifyTimingPoint { before, after } => {
            tps.remove_by_id(before.id());
            proof {
                crate::timing::lemma_remove_id_shrinks(old(tps)@, before.id);
            }
            tps.insert(*after);
        },
    }
}

} // verus!
