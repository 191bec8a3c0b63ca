//! The stake ledger: a slot-indexed arena of stake entries. Each slot carries
//! a generation tag; removing an entry vacates its slot, and a later insert
//! may reuse the slot under a bumped generation, so stale references are
//! rejected without ever compacting the ledger.
use vstd::prelude::*;
use crate::state::LotteryEntries;
use crate::sums::{sum_by, lemma_sum_by_push, lemma_sum_by_update, lemma_sum_by_nonneg};

verus! {

/// A reference to a ledger slot: the slot number and the generation the
/// referenced entry was stored under.
#[derive(Clone, Copy, Debug, PartialEq, Eq, Structural)]
pub struct EntryIndex {
    pub slot: usize,
    pub generation: u64,
}

/// One ledger slot. A vacant slot keeps its generation so that a reuse can
/// bump it past every reference handed out before.
#[derive(Clone, Debug, PartialEq)]
pub struct Slot {
    pub generation: u64,
    pub value: Option<LotteryEntries>,
}

/// The measure a slot contributes to the ledger's total: its entry's amount,
/// or zero when vacant.
pub open spec fn slot_amount(s: Slot) -> int {
    match s.value {
        Some(e) => e.amount as int,
        None => 0,
    }
}

/// The occupied entries of a slot sequence, in slot order.
pub open spec fn occupied_seq(slots: Seq<Slot>) -> Seq<LotteryEntries>
    decreases slots.len(),
{
    if slots.len() == 0 {
        Seq::empty()
    } else {
        match slots[0].value {
            Some(e) => seq![e] + occupied_seq(slots.skip(1)),
            None => occupied_seq(slots.skip(1)),
        }
    }
}

pub proof fn lemma_occupied_seq_push(slots: Seq<Slot>, s: Slot)
    ensures
        occupied_seq(slots.push(s)) == match s.value {
            Some(e) => occupied_seq(slots).push(e),
            None => occupied_seq(slots),
        },
    decreases slots.len(),
{
    if slots.len() == 0 {
        assert(slots.push(s).skip(1) =~= Seq::<Slot>::empty());
        assert(occupied_seq(Seq::<Slot>::empty()) == Seq::<LotteryEntries>::empty());
        assert(slots.push(s)[0] == s);
        match s.value {
            Some(e) => {
                assert(occupied_seq(slots.push(s)) == seq![e] + occupied_seq(
                    slots.push(s).skip(1),
                ));
                assert(occupied_seq(slots.push(s)) =~= occupied_seq(slots).push(e));
            },
            None => {
                assert(occupied_seq(slots.push(s)) == occupied_seq(slots.push(s).skip(1)));
                assert(occupied_seq(slots) == Seq::<LotteryEntries>::empty());
            },
        }
    } else {
        assert(slots.push(s).skip(1) =~= slots.skip(1).push(s));
        lemma_occupied_seq_push(slots.skip(1), s);
        assert(slots.push(s)[0] == slots[0]);
        match slots[0].value {
            Some(e0) => {
                assert(occupied_seq(slots.push(s)) == seq![e0] + occupied_seq(
                    slots.skip(1).push(s),
                ));
                assert(occupied_seq(slots) == seq![e0] + occupied_seq(slots.skip(1)));
                match s.value {
                    Some(e) => {
                        assert(occupied_seq(slots.push(s)) =~= occupied_seq(slots).push(e));
                    },
                    None => {},
                }
            },
            None => {
                assert(occupied_seq(slots.push(s)) == occupied_seq(slots.skip(1).push(s)));
                assert(occupied_seq(slots) == occupied_seq(slots.skip(1)));
            },
        }
    }
}

/// The occupied entries' amounts sum to the slots' total measure.
pub proof fn lemma_occupied_sum(slots: Seq<Slot>)
    ensures
        sum_by(occupied_seq(slots), |e: LotteryEntries| e.amount as int) == sum_by(
            slots,
            |s: Slot| slot_amount(s),
        ),
    decreases slots.len(),
{
    if slots.len() > 0 {
        lemma_occupied_sum(slots.skip(1));
        match slots[0].value {
            Some(e) => {
                assert(occupied_seq(slots).skip(1) =~= occupied_seq(slots.skip(1)));
                assert(occupied_seq(slots)[0] == e);
            },
            None => {},
        }
    }
}

/// Total amount held by the occupied slots of a slot sequence.
pub open spec fn slots_total(slots: Seq<Slot>) -> int {
    sum_by(slots, |s: Slot| slot_amount(s))
}

/// Whether a reference is valid against a slot sequence: its slot exists, is
/// occupied, and carries the reference's generation.
pub open spec fn valid_in(slots: Seq<Slot>, idx: EntryIndex) -> bool {
    &&& (idx.slot as int) < slots.len()
    &&& slots[idx.slot as int].generation == idx.generation
    &&& slots[idx.slot as int].value is Some
}

pub open spec fn entry_in(slots: Seq<Slot>, idx: EntryIndex) -> LotteryEntries
    recommends
        valid_in(slots, idx),
{
    slots[idx.slot as int].value->0
}

/// Sum of the amounts of the entries a reference list points at.
pub open spec fn idx_sum(slots: Seq<Slot>, idxs: Seq<EntryIndex>) -> int
    decreases idxs.len(),
{
    if idxs.len() == 0 {
        0
    } else {
        entry_in(slots, idxs[0]).amount + idx_sum(slots, idxs.skip(1))
    }
}

pub proof fn lemma_idx_sum_nonneg(slots: Seq<Slot>, idxs: Seq<EntryIndex>)
    ensures
        idx_sum(slots, idxs) >= 0,
    decreases idxs.len(),
{
    if idxs.len() > 0 {
        lemma_idx_sum_nonneg(slots, idxs.skip(1));
    }
}

pub proof fn lemma_idx_sum_push(slots: Seq<Slot>, idxs: Seq<EntryIndex>, ix: EntryIndex)
    ensures
        idx_sum(slots, idxs.push(ix)) == idx_sum(slots, idxs) + entry_in(slots, ix).amount,
    decreases idxs.len(),
{
    if idxs.len() == 0 {
        assert(idxs.push(ix).skip(1) =~= Seq::<EntryIndex>::empty());
        assert(idx_sum(slots, Seq::<EntryIndex>::empty()) == 0);
        assert(idxs.push(ix)[0] == ix);
        assert(idx_sum(slots, idxs.push(ix)) == entry_in(slots, ix).amount + idx_sum(
            slots,
            idxs.push(ix).skip(1),
        ));
    } else {
        assert(idxs.push(ix).skip(1) =~= idxs.skip(1).push(ix));
        assert(idxs.push(ix)[0] == idxs[0]);
        lemma_idx_sum_push(slots, idxs.skip(1), ix);
        assert(idx_sum(slots, idxs.push(ix)) == entry_in(slots, idxs[0]).amount + idx_sum(
            slots,
            idxs.skip(1).push(ix),
        ));
    }
}

pub proof fn lemma_idx_sum_split(slots: Seq<Slot>, idxs: Seq<EntryIndex>, m: int)
    requires
        0 <= m <= idxs.len(),
    ensures
        idx_sum(slots, idxs) == idx_sum(slots, idxs.take(m)) + idx_sum(slots, idxs.skip(m)),
    decreases idxs.len(),
{
    if m == 0 {
        assert(idxs.take(0) =~= Seq::<EntryIndex>::empty());
        assert(idxs.skip(0) =~= idxs);
    } else {
        lemma_idx_sum_split(slots, idxs.skip(1), m - 1);
        assert(idxs.skip(1).take(m - 1) =~= idxs.take(m).skip(1));
        assert(idxs.skip(1).skip(m - 1) =~= idxs.skip(m));
        assert(idxs.take(m)[0] == idxs[0]);
        assert(idx_sum(slots, idxs.take(m)) == entry_in(slots, idxs[0]).amount + idx_sum(
            slots,
            idxs.take(m).skip(1),
        ));
    }
}

/// The sum only reads the referenced entries: two slot sequences that agree on
/// them give the same sum.
pub proof fn lemma_idx_sum_congruence(s1: Seq<Slot>, s2: Seq<Slot>, idxs: Seq<EntryIndex>)
    requires
        forall|k: int| 0 <= k < idxs.len() ==> entry_in(s1, #[trigger] idxs[k]) == entry_in(
            s2,
            idxs[k],
        ),
    ensures
        idx_sum(s1, idxs) == idx_sum(s2, idxs),
    decreases idxs.len(),
{
    if idxs.len() > 0 {
        assert(forall|k: int| 0 <= k < idxs.skip(1).len() ==> #[trigger] idxs.skip(1)[k] == idxs[
            k + 1
        ]);
        lemma_idx_sum_congruence(s1, s2, idxs.skip(1));
    }
}

/// References to distinct occupied slots never sum to more than the ledger
/// holds in total.
pub proof fn lemma_idx_sum_le_total(slots: Seq<Slot>, idxs: Seq<EntryIndex>)
    requires
        forall|k: int| 0 <= k < idxs.len() ==> valid_in(slots, #[trigger] idxs[k]),
        forall|k1: int, k2: int| 0 <= k1 < k2 < idxs.len() ==> (#[trigger] idxs[k1]).slot != (
        #[trigger] idxs[k2]).slot,
    ensures
        idx_sum(slots, idxs) <= slots_total(slots),
        slots_total(slots) >= 0,
    decreases idxs.len(),
{
    let amount_fn = |s: Slot| slot_amount(s);
    assert(forall|j: int| 0 <= j < slots.len() ==> #[trigger] amount_fn(slots[j]) >= 0);
    lemma_sum_by_nonneg(slots, amount_fn);
    if idxs.len() > 0 {
        let i0 = idxs[0];
        let tail = idxs.skip(1);
        assert(forall|k: int| 0 <= k < tail.len() ==> #[trigger] tail[k] == idxs[k + 1]);
        let emptied = Slot { generation: slots[i0.slot as int].generation, value: None };
        let slots2 = slots.update(i0.slot as int, emptied);
        assert forall|k: int| 0 <= k < tail.len() implies valid_in(slots2, #[trigger] tail[k])
            && entry_in(slots2, tail[k]) == entry_in(slots, tail[k]) by {
            assert(tail[k] == idxs[k + 1]);
            assert(idxs[k + 1].slot != i0.slot);
        }
        lemma_idx_sum_congruence(slots, slots2, tail);
        lemma_idx_sum_le_total(slots2, tail);
        lemma_sum_by_update(slots, amount_fn, i0.slot as int, emptied);
    }
}

/// How many leading references a withdrawal of `w` consumes entirely.
pub open spec fn fifo_removed(slots: Seq<Slot>, idxs: Seq<EntryIndex>, w: int) -> int
    decreases idxs.len(),
{
    if w <= 0 || idxs.len() == 0 {
        0
    } else if entry_in(slots, idxs[0]).amount <= w {
        1 + fifo_removed(slots, idxs.skip(1), w - entry_in(slots, idxs[0]).amount)
    } else {
        0
    }
}

/// What is still owed after the fully consumed leading references; it is taken
/// off the next entry in place.
pub open spec fn fifo_residual(slots: Seq<Slot>, idxs: Seq<EntryIndex>, w: int) -> int
    decreases idxs.len(),
{
    if w <= 0 || idxs.len() == 0 {
        w
    } else if entry_in(slots, idxs[0]).amount <= w {
        fifo_residual(slots, idxs.skip(1), w - entry_in(slots, idxs[0]).amount)
    } else {
        w
    }
}

pub proof fn lemma_fifo_props(slots: Seq<Slot>, idxs: Seq<EntryIndex>, w: int)
    requires
        w >= 0,
    ensures
        0 <= fifo_removed(slots, idxs, w) <= idxs.len(),
        0 <= fifo_residual(slots, idxs, w) <= w,
        fifo_residual(slots, idxs, w) == w - idx_sum(slots, idxs.take(fifo_removed(slots, idxs, w))),
        fifo_removed(slots, idxs, w) < idxs.len() && fifo_residual(slots, idxs, w) > 0
            ==> fifo_residual(slots, idxs, w) < entry_in(
            slots,
            idxs[fifo_removed(slots, idxs, w)],
        ).amount,
    decreases idxs.len(),
{
    let m = fifo_removed(slots, idxs, w);
    if w == 0 || idxs.len() == 0 {
        assert(idxs.take(0) =~= Seq::<EntryIndex>::empty());
    } else {
        let a0 = entry_in(slots, idxs[0]).amount as int;
        if a0 <= w {
            let tail = idxs.skip(1);
            lemma_fifo_props(slots, tail, w - a0);
            let mt = fifo_removed(slots, tail, w - a0);
            assert(m == 1 + mt);
            let head = idxs.take(m);
            assert(head[0] == idxs[0]);
            assert(head.skip(1) =~= tail.take(mt));
            assert(idx_sum(slots, head) == a0 + idx_sum(slots, tail.take(mt)));
            if m < idxs.len() {
                assert(idxs[m] == tail[mt]);
            }
        } else {
            assert(idxs.take(0) =~= Seq::<EntryIndex>::empty());
        }
    }
}

/// The stake ledger.
#[derive(Clone, Debug, PartialEq)]
pub struct EntryArena {
    pub slots: Vec<Slot>,
}

impl EntryArena {
    /// A reference is valid when its slot exists, is occupied, and carries the
    /// reference's generation.
    #[verifier::inline]
    pub open spec fn valid(&self, idx: EntryIndex) -> bool {
        valid_in(self.slots@, idx)
    }

    #[verifier::inline]
    pub open spec fn entry_at(&self, idx: EntryIndex) -> LotteryEntries
        recommends
            self.valid(idx),
    {
        entry_in(self.slots@, idx)
    }

    /// Total amount held by all occupied slots.
    #[verifier::inline]
    pub open spec fn total_amount(&self) -> int {
        slots_total(self.slots@)
    }

    #[verifier::inline]
    pub open spec fn occupied(&self) -> Seq<LotteryEntries> {
        occupied_seq(self.slots@)
    }

    pub fn new() -> (r: EntryArena)
        ensures
            r.slots@.len() == 0,
            r.total_amount() == 0,
            forall|j: EntryIndex| !r.valid(j),
    {
        EntryArena { slots: Vec::new() }
    }

    /// Store a new entry, reusing the first vacant slot whose generation can
    /// still be bumped, else appending a fresh slot.
    pub fn insert(&mut self, e: LotteryEntries) -> (idx: EntryIndex)
        ensures
            final(self).valid(idx),
            final(self).entry_at(idx) == e,
            forall|j: EntryIndex| #[trigger] old(self).valid(j) ==> final(self).valid(j)
                && final(self).entry_at(j) == old(self).entry_at(j) && j.slot != idx.slot,
            forall|j: EntryIndex| #[trigger] final(self).valid(j) ==> j == idx || old(self).valid(j),
            final(self).total_amount() == old(self).total_amount() + e.amount,
    {
        let n = self.slots.len();
        let mut i: usize = 0;
        while i < n
            invariant
                n == self.slots@.len(),
                i <= n,
                *self == *old(self),
            decreases n - i,
        {
            let free = self.slots[i].value.is_none();
            let gen = self.slots[i].generation;
            if free && gen < u64::MAX {
                let ghost amount_fn = |s: Slot| slot_amount(s);
                let new_slot = Slot { generation: gen + 1, value: Some(e) };
                proof {
                    lemma_sum_by_update(self.slots@, amount_fn, i as int, new_slot);
                }
                *vstd::std_specs::vec::vec_index_mut(&mut self.slots, i) = new_slot;
                return EntryIndex { slot: i, generation: gen + 1 };
            }
            i = i + 1;
        }
        let ghost amount_fn = |s: Slot| slot_amount(s);
        let new_slot = Slot { generation: 0, value: Some(e) };
        proof {
            lemma_sum_by_push(self.slots@, amount_fn, new_slot);
        }
        self.slots.push(new_slot);
        EntryIndex { slot: n, generation: 0 }
    }

    /// Read the entry a valid reference points at.
    pub fn get(&self, idx: EntryIndex) -> (r: &LotteryEntries)
        requires
            self.valid(idx),
        ensures
            *r == self.entry_at(idx),
    {
        match &self.slots[idx.slot].value {
            Some(e) => e,
            None => vstd::pervasive::unreached(),
        }
    }

    /// Replace the amount of the entry a valid reference points at.
    pub fn set_amount(&mut self, idx: EntryIndex, new_amount: u128)
        requires
            old(self).valid(idx),
        ensures
            final(self).valid(idx),
            final(self).entry_at(idx) == (LotteryEntries {
                amount: new_amount,
                ..old(self).entry_at(idx)
            }),
            forall|j: EntryIndex| #[trigger] old(self).valid(j) && j.slot != idx.slot
                ==> final(self).valid(j) && final(self).entry_at(j) == old(self).entry_at(j),
            forall|j: EntryIndex| #[trigger] final(self).valid(j) ==> old(self).valid(j),
            final(self).total_amount() == old(self).total_amount()
                - old(self).entry_at(idx).amount + new_amount,
            final(self).slots@.len() == old(self).slots@.len(),
    {
        let ghost amount_fn = |s: Slot| slot_amount(s);
        let (addr, time) = {
            let e = self.get(idx);
            (e.user_address.clone(), e.entry_time)
        };
        let new_slot = Slot {
            generation: idx.generation,
            value: Some(LotteryEntries { user_address: addr, amount: new_amount, entry_time: time }),
        };
        proof {
            lemma_sum_by_update(self.slots@, amount_fn, idx.slot as int, new_slot);
        }
        *vstd::std_specs::vec::vec_index_mut(&mut self.slots, idx.slot) = new_slot;
    }

    /// Vacate the slot a valid reference points at.
    pub fn remove(&mut self, idx: EntryIndex)
        requires
            old(self).valid(idx),
        ensures
            forall|j: EntryIndex| #[trigger] final(self).valid(j)
                <==> old(self).valid(j) && j.slot != idx.slot,
            forall|j: EntryIndex| #[trigger] old(self).valid(j) && j.slot != idx.slot
                ==> final(self).entry_at(j) == old(self).entry_at(j),
            final(self).total_amount() == old(self).total_amount() - old(self).entry_at(idx).amount,
            final(self).slots@.len() == old(self).slots@.len(),
    {
        let ghost amount_fn = |s: Slot| slot_amount(s);
        let new_slot = Slot { generation: idx.generation, value: None };
        proof {
            lemma_sum_by_update(self.slots@, amount_fn, idx.slot as int, new_slot);
        }
        *vstd::std_specs::vec::vec_index_mut(&mut self.slots, idx.slot) = new_slot;
    }

    /// All occupied entries, in slot order.
    pub fn occupied_entries(&self) -> (r: Vec<LotteryEntries>)
        ensures
            r@ == self.occupied(),
    {
        let mut r: Vec<LotteryEntries> = Vec::new();
        let n = self.slots.len();
        let mut i: usize = 0;
        while i < n
            invariant
                n == self.slots@.len(),
                i <= n,
                r@ == occupied_seq(self.slots@.take(i as int)),
            decreases n - i,
        {
            proof {
                assert(self.slots@.take(i as int + 1) =~= self.slots@.take(i as int).push(
                    self.slots@[i as int],
                ));
                lemma_occupied_seq_push(self.slots@.take(i as int), self.slots@[i as int]);
            }
            match &self.slots[i].value {
                Some(e) => {
                    let copy = LotteryEntries {
                        user_address: e.user_address.clone(),
                        amount: e.amount,
                        entry_time: e.entry_time,
                    };
                    assert(copy == self.slots@[i as int].value->0);
                    r.push(copy);
                },
                None => {},
            }
            i = i + 1;
        }
        proof {
            assert(self.slots@.take(n as int) =~= self.slots@);
        }
        r
    }
}

} // verus!
