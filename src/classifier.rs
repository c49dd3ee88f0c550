//! Return classification with per-function duplicate tracking.

use vstd::prelude::*;
use crate::listing::{InstrClass, Instruction, ReturnKind};

verus! {

/// One return found in the stream.
#[derive(Debug, Clone)]
pub struct ReturnEvent {
    /// Position of the return in the instruction stream.
    pub at_index: usize,
    pub kind: ReturnKind,
    /// Name of the enclosing function.
    pub function: String,
    /// The previous return of the same kind lies in a function of the same name.
    pub is_duplicate: bool,
}

/// Where `z` counts, kind by kind, what `x` and `y` count together, its total
/// is theirs together.
proof fn lemma_total_of_sum(x: KindCounts, y: KindCounts, z: KindCounts)
    requires
        forall|k: ReturnKind| #![auto] z.count(k) == x.count(k) + y.count(k),
    ensures
        z.total() == x.total() + y.total(),
{
    assert(z.count(ReturnKind::PopWithPC) == x.count(ReturnKind::PopWithPC) + y.count(
        ReturnKind::PopWithPC,
    ));
    assert(z.count(ReturnKind::LoadMultipleWritebackPC) == x.count(
        ReturnKind::LoadMultipleWritebackPC,
    ) + y.count(ReturnKind::LoadMultipleWritebackPC));
    assert(z.count(ReturnKind::LoadRegisterPCFromStack) == x.count(
        ReturnKind::LoadRegisterPCFromStack,
    ) + y.count(ReturnKind::LoadRegisterPCFromStack));
    assert(z.count(ReturnKind::BranchExchangeLR) == x.count(ReturnKind::BranchExchangeLR)
        + y.count(ReturnKind::BranchExchangeLR));
}

/// A count for each return kind.
#[derive(Debug, Clone, Copy, PartialEq, Eq, Structural)]
pub struct KindCounts {
    pub pop_with_pc: usize,
    pub load_multiple_writeback_pc: usize,
    pub load_register_pc_from_stack: usize,
    pub branch_exchange_lr: usize,
}

impl KindCounts {
    pub open spec fn count(&self, kind: ReturnKind) -> nat {
        match kind {
            ReturnKind::PopWithPC => self.pop_with_pc as nat,
            ReturnKind::LoadMultipleWritebackPC => self.load_multiple_writeback_pc as nat,
            ReturnKind::LoadRegisterPCFromStack => self.load_register_pc_from_stack as nat,
            ReturnKind::BranchExchangeLR => self.branch_exchange_lr as nat,
        }
    }

    /// All counts zero.
    pub fn zero() -> (r: KindCounts)
        ensures
            r.total() == 0,
            forall|k: ReturnKind| r.count(k) == 0,
    {
        KindCounts {
            pop_with_pc: 0,
            load_multiple_writeback_pc: 0,
            load_register_pc_from_stack: 0,
            branch_exchange_lr: 0,
        }
    }

    /// The count of `kind`.
    pub fn get(&self, kind: ReturnKind) -> (r: usize)
        ensures
            r == self.count(kind),
    {
        match kind {
            ReturnKind::PopWithPC => self.pop_with_pc,
            ReturnKind::LoadMultipleWritebackPC => self.load_multiple_writeback_pc,
            ReturnKind::LoadRegisterPCFromStack => self.load_register_pc_from_stack,
            ReturnKind::BranchExchangeLR => self.branch_exchange_lr,
        }
    }

    /// Adds one to the count of `kind`.
    pub fn bump(&mut self, kind: ReturnKind)
        requires
            old(self).count(kind) < usize::MAX,
        ensures
            final(self).count(kind) == old(self).count(kind) + 1,
            forall|k: ReturnKind| k != kind ==> final(self).count(k) == old(self).count(k),
    {
        match kind {
            ReturnKind::PopWithPC => self.pop_with_pc = self.pop_with_pc + 1,
            ReturnKind::LoadMultipleWritebackPC => self.load_multiple_writeback_pc =
            self.load_multiple_writeback_pc + 1,
            ReturnKind::LoadRegisterPCFromStack => self.load_register_pc_from_stack =
            self.load_register_pc_from_stack + 1,
            ReturnKind::BranchExchangeLR => self.branch_exchange_lr = self.branch_exchange_lr + 1,
        }
    }

    /// Adding `other` to each count stays within `usize`.
    pub open spec fn can_add(&self, other: KindCounts) -> bool {
        forall|k: ReturnKind| #![auto] self.count(k) + other.count(k) <= usize::MAX
    }

    /// Adds the counts of `other`, kind by kind.
    pub fn add(&mut self, other: &KindCounts)
        requires
            old(self).can_add(*other),
        ensures
            final(self).total() == old(self).total() + other.total(),
            forall|k: ReturnKind|
                #![auto]
                final(self).count(k) == old(self).count(k) + other.count(k),
    {
        assert(self.count(ReturnKind::PopWithPC) + other.count(ReturnKind::PopWithPC)
            <= usize::MAX);
        assert(self.count(ReturnKind::LoadMultipleWritebackPC) + other.count(
            ReturnKind::LoadMultipleWritebackPC,
        ) <= usize::MAX);
        assert(self.count(ReturnKind::LoadRegisterPCFromStack) + other.count(
            ReturnKind::LoadRegisterPCFromStack,
        ) <= usize::MAX);
        assert(self.count(ReturnKind::BranchExchangeLR) + other.count(ReturnKind::BranchExchangeLR)
            <= usize::MAX);
        self.pop_with_pc = self.pop_with_pc + other.pop_with_pc;
        self.load_multiple_writeback_pc = self.load_multiple_writeback_pc
            + other.load_multiple_writeback_pc;
        self.load_register_pc_from_stack = self.load_register_pc_from_stack
            + other.load_register_pc_from_stack;
        self.branch_exchange_lr = self.branch_exchange_lr + other.branch_exchange_lr;
        proof {
            lemma_total_of_sum(*old(self), *other, *self);
        }
    }

    /// Whether adding `other` stays within `usize`.
    pub fn fits_with(&self, other: &KindCounts) -> (r: bool)
        ensures
            r == self.can_add(*other),
    {
        let r = self.pop_with_pc <= usize::MAX - other.pop_with_pc
            && self.load_multiple_writeback_pc <= usize::MAX - other.load_multiple_writeback_pc
            && self.load_register_pc_from_stack <= usize::MAX - other.load_register_pc_from_stack
            && self.branch_exchange_lr <= usize::MAX - other.branch_exchange_lr;
        proof {
            if !r {
                if self.pop_with_pc > usize::MAX - other.pop_with_pc {
                    assert(self.count(ReturnKind::PopWithPC) + other.count(ReturnKind::PopWithPC)
                        > usize::MAX);
                } else if self.load_multiple_writeback_pc > usize::MAX
                    - other.load_multiple_writeback_pc {
                    assert(self.count(ReturnKind::LoadMultipleWritebackPC) + other.count(
                        ReturnKind::LoadMultipleWritebackPC,
                    ) > usize::MAX);
                } else if self.load_register_pc_from_stack > usize::MAX
                    - other.load_register_pc_from_stack {
                    assert(self.count(ReturnKind::LoadRegisterPCFromStack) + other.count(
                        ReturnKind::LoadRegisterPCFromStack,
                    ) > usize::MAX);
                } else {
                    assert(self.count(ReturnKind::BranchExchangeLR) + other.count(
                        ReturnKind::BranchExchangeLR,
                    ) > usize::MAX);
                }
            }
        }
        r
    }

    /// The sum over the four kinds.
    pub open spec fn total(&self) -> nat {
        (self.pop_with_pc + self.load_multiple_writeback_pc + self.load_register_pc_from_stack
            + self.branch_exchange_lr) as nat
    }
}

/// Return counts of one analysis: all returns, first ones and duplicates by kind.
#[derive(Debug, Clone, Copy, PartialEq, Eq, Structural)]
pub struct ReturnTally {
    pub total: usize,
    pub primary: KindCounts,
    pub duplicates: KindCounts,
}

/// The classified returns of a stream with their tally.
#[derive(Debug, Clone)]
pub struct ReturnReport {
    pub events: Vec<ReturnEvent>,
    pub tally: ReturnTally,
}

/// A return event as (position, kind, function name, duplicate).
pub type EventView = (int, ReturnKind, Seq<char>, bool);

/// The enclosing function of the last return of `kind` in `s`, if any.
pub open spec fn last_function_of_kind(s: Seq<Instruction>, kind: ReturnKind) -> Option<
    Seq<char>,
>
    decreases s.len(),
{
    if s.len() == 0 {
        None
    } else if s.last().class == InstrClass::Return(kind) {
        Some(s.last().function@)
    } else {
        last_function_of_kind(s.drop_last(), kind)
    }
}

/// The return events of a stream, in order.
pub open spec fn return_events(s: Seq<Instruction>) -> Seq<EventView>
    decreases s.len(),
{
    if s.len() == 0 {
        seq![]
    } else {
        let rest = return_events(s.drop_last());
        let ins = s.last();
        match ins.class {
            InstrClass::Return(k) => rest.push(
                (
                    s.len() - 1,
                    k,
                    ins.function@,
                    last_function_of_kind(s.drop_last(), k) == Some(ins.function@),
                ),
            ),
            _ => rest,
        }
    }
}

/// Number of events of `kind` whose duplicate flag is `dup`.
pub open spec fn count_events(ev: Seq<EventView>, kind: ReturnKind, dup: bool) -> nat
    decreases ev.len(),
{
    if ev.len() == 0 {
        0
    } else {
        count_events(ev.drop_last(), kind, dup) + if ev.last().1 == kind && ev.last().3 == dup {
            1nat
        } else {
            0nat
        }
    }
}

/// `t` counts the events `ev`.
pub open spec fn tally_of(t: ReturnTally, ev: Seq<EventView>) -> bool {
    &&& t.total == ev.len()
    &&& forall|k: ReturnKind|
        #![auto]
        t.primary.count(k) == count_events(ev, k, false) && t.duplicates.count(k) == count_events(
            ev,
            k,
            true,
        )
}

proof fn lemma_count_bound(ev: Seq<EventView>, kind: ReturnKind, dup: bool)
    ensures
        count_events(ev, kind, dup) <= ev.len(),
    decreases ev.len(),
{
    if ev.len() > 0 {
        lemma_count_bound(ev.drop_last(), kind, dup);
    }
}

proof fn lemma_events_bound(s: Seq<Instruction>)
    ensures
        return_events(s).len() <= s.len(),
    decreases s.len(),
{
    if s.len() > 0 {
        lemma_events_bound(s.drop_last());
    }
}

/// Summed over the four kinds, first returns and duplicates together make up
/// every return event.
pub proof fn lemma_counts_cover_returns(ev: Seq<EventView>)
    ensures
        count_events(ev, ReturnKind::PopWithPC, false) + count_events(
            ev,
            ReturnKind::PopWithPC,
            true,
        ) + count_events(ev, ReturnKind::LoadMultipleWritebackPC, false) + count_events(
            ev,
            ReturnKind::LoadMultipleWritebackPC,
            true,
        ) + count_events(ev, ReturnKind::LoadRegisterPCFromStack, false) + count_events(
            ev,
            ReturnKind::LoadRegisterPCFromStack,
            true,
        ) + count_events(ev, ReturnKind::BranchExchangeLR, false) + count_events(
            ev,
            ReturnKind::BranchExchangeLR,
            true,
        ) == ev.len(),
    decreases ev.len(),
{
    if ev.len() > 0 {
        lemma_counts_cover_returns(ev.drop_last());
    }
}

/// For any tally of a stream's returns, the first-return and duplicate counts
/// summed over all kinds equal the total return count.
pub proof fn tally_sums_to_returns(t: ReturnTally, s: Seq<Instruction>)
    requires
        tally_of(t, return_events(s)),
    ensures
        t.primary.total() + t.duplicates.total() == t.total,
{
    lemma_counts_cover_returns(return_events(s));
    assert(t.primary.count(ReturnKind::PopWithPC) == count_events(
        return_events(s),
        ReturnKind::PopWithPC,
        false,
    ));
    assert(t.primary.count(ReturnKind::LoadMultipleWritebackPC) == count_events(
        return_events(s),
        ReturnKind::LoadMultipleWritebackPC,
        false,
    ));
    assert(t.primary.count(ReturnKind::LoadRegisterPCFromStack) == count_events(
        return_events(s),
        ReturnKind::LoadRegisterPCFromStack,
        false,
    ));
    assert(t.primary.count(ReturnKind::BranchExchangeLR) == count_events(
        return_events(s),
        ReturnKind::BranchExchangeLR,
        false,
    ));
    assert(t.duplicates.count(ReturnKind::PopWithPC) == count_events(
        return_events(s),
        ReturnKind::PopWithPC,
        true,
    ));
    assert(t.duplicates.count(ReturnKind::LoadMultipleWritebackPC) == count_events(
        return_events(s),
        ReturnKind::LoadMultipleWritebackPC,
        true,
    ));
    assert(t.duplicates.count(ReturnKind::LoadRegisterPCFromStack) == count_events(
        return_events(s),
        ReturnKind::LoadRegisterPCFromStack,
        true,
    ));
    assert(t.duplicates.count(ReturnKind::BranchExchangeLR) == count_events(
        return_events(s),
        ReturnKind::BranchExchangeLR,
        true,
    ));
}

proof fn lemma_last_function_since(s: Seq<Instruction>, a: int, b: int, kind: ReturnKind)
    requires
        0 <= a < b <= s.len(),
        s[a].class == InstrClass::Return(kind),
        forall|j: int| a <= j < b ==> #[trigger] s[j].function@ == s[a].function@,
    ensures
        last_function_of_kind(s.subrange(0, b), kind) == Some(s[a].function@),
    decreases b - a,
{
    let sub = s.subrange(0, b);
    assert(sub.last() == s[b - 1]);
    if s[b - 1].class != InstrClass::Return(kind) {
        assert(sub.drop_last() =~= s.subrange(0, b - 1));
        lemma_last_function_since(s, a, b - 1, kind);
    }
}

/// Of two returns of one kind with no label between them (every instruction
/// from the first to the second lies in the same function), the second is a
/// duplicate: it adds one to the duplicate count of its kind and nothing to
/// the count of first returns.
pub proof fn later_return_in_same_function_is_duplicate(
    s: Seq<Instruction>,
    a: int,
    b: int,
    kind: ReturnKind,
)
    requires
        0 <= a < b < s.len(),
        s[a].class == InstrClass::Return(kind),
        s[b].class == InstrClass::Return(kind),
        forall|j: int| a <= j <= b ==> #[trigger] s[j].function@ == s[b].function@,
    ensures
        return_events(s.subrange(0, b + 1)) == return_events(s.subrange(0, b)).push(
            (b, kind, s[b].function@, true),
        ),
        count_events(return_events(s.subrange(0, b + 1)), kind, true) == count_events(
            return_events(s.subrange(0, b)),
            kind,
            true,
        ) + 1,
        count_events(return_events(s.subrange(0, b + 1)), kind, false) == count_events(
            return_events(s.subrange(0, b)),
            kind,
            false,
        ),
{
    assert forall|j: int| a <= j < b implies #[trigger] s[j].function@ == s[a].function@ by {
        assert(s[j].function@ == s[b].function@);
    }
    lemma_last_function_since(s, a, b, kind);
    let next = s.subrange(0, b + 1);
    assert(next.drop_last() =~= s.subrange(0, b));
    assert(next.last() == s[b]);
    let ev = return_events(next);
    let prev = return_events(s.subrange(0, b));
    assert(ev == prev.push((b, kind, s[b].function@, true)));
    assert(ev.drop_last() =~= prev);
}

/// The kind tracked in slot `j` of the duplicate tracker.
pub open spec fn slot_kind(j: int) -> ReturnKind {
    if j == 0 {
        ReturnKind::PopWithPC
    } else if j == 1 {
        ReturnKind::LoadMultipleWritebackPC
    } else if j == 2 {
        ReturnKind::LoadRegisterPCFromStack
    } else {
        ReturnKind::BranchExchangeLR
    }
}

fn slot(kind: ReturnKind) -> (r: usize)
    ensures
        r < 4,
        slot_kind(r as int) == kind,
{
    match kind {
        ReturnKind::PopWithPC => 0,
        ReturnKind::LoadMultipleWritebackPC => 1,
        ReturnKind::LoadRegisterPCFromStack => 2,
        ReturnKind::BranchExchangeLR => 3,
    }
}

/// `events` are exactly the event views `ev`.
pub open spec fn events_match(events: Seq<ReturnEvent>, ev: Seq<EventView>) -> bool {
    &&& events.len() == ev.len()
    &&& forall|k: int|
        0 <= k < ev.len() ==> {
            let e = #[trigger] events[k];
            &&& e.at_index == ev[k].0
            &&& e.kind == ev[k].1
            &&& e.function@ == ev[k].2
            &&& e.is_duplicate == ev[k].3
        }
}

/// Finds the returns of a stream, in order, marking a return as a duplicate
/// when the previous return of its kind lies in a function of the same name,
/// and counts them.
///
/// Functions are told apart by name only: two functions at different
/// addresses that share a name also share duplicate tracking.
pub fn classify_returns(instructions: &Vec<Instruction>) -> (r: ReturnReport)
    ensures
        events_match(r.events@, return_events(instructions@)),
        tally_of(r.tally, return_events(instructions@)),
{
    let mut seen: Vec<bool> = vec![false, false, false, false];
    let mut last: Vec<String> = vec![String::new(), String::new(), String::new(), String::new()];
    let mut events: Vec<ReturnEvent> = Vec::new();
    let mut tally = ReturnTally {
        total: 0,
        primary: KindCounts::zero(),
        duplicates: KindCounts::zero(),
    };
    let mut i: usize = 0;
    while i < instructions.len()
        invariant
            i <= instructions@.len(),
            seen@.len() == 4,
            last@.len() == 4,
            forall|j: int|
                0 <= j < 4 ==> {
                    let prev = last_function_of_kind(
                        instructions@.subrange(0, i as int),
                        slot_kind(j),
                    );
                    &&& (#[trigger] seen@[j] <==> prev is Some)
                    &&& (seen@[j] ==> last@[j]@ == prev->Some_0)
                },
            events_match(events@, return_events(instructions@.subrange(0, i as int))),
            tally_of(tally, return_events(instructions@.subrange(0, i as int))),
            return_events(instructions@.subrange(0, i as int)).len() <= i,
        decreases instructions@.len() - i,
    {
        let ghost pre = instructions@.subrange(0, i as int);
        let ghost next = instructions@.subrange(0, i + 1);
        assert(next.drop_last() =~= pre);
        let ghost ev = return_events(pre);
        let ins = &instructions[i];
        match ins.class {
            InstrClass::Return(kind) => {
                let j = slot(kind);
                let dup = seen[j] && last[j] == ins.function;
                assert(dup == (last_function_of_kind(pre, kind) == Some(ins.function@)));
                proof {
                    lemma_count_bound(ev, kind, dup);
                }
                if !dup {
                    last.set(j, ins.function.clone());
                    seen.set(j, true);
                }
                events.push(
                    ReturnEvent {
                        at_index: i,
                        kind,
                        function: ins.function.clone(),
                        is_duplicate: dup,
                    },
                );
                if dup {
                    tally.duplicates.bump(kind);
                } else {
                    tally.primary.bump(kind);
                }
                tally.total = tally.total + 1;
                assert forall|jj: int| 0 <= jj < 4 implies {
                    let prev = last_function_of_kind(next, slot_kind(jj));
                    &&& (#[trigger] seen@[jj] <==> prev is Some)
                    &&& (seen@[jj] ==> last@[jj]@ == prev->Some_0)
                } by {
                    if slot_kind(jj) != kind {
                        assert(jj != j);
                    }
                }
                let ghost e = (i as int, kind, ins.function@, dup);
                assert(return_events(next) == ev.push(e));
                assert(ev.push(e).drop_last() =~= ev);
                assert forall|k: ReturnKind|
                    #![auto]
                    tally.primary.count(k) == count_events(ev.push(e), k, false)
                        && tally.duplicates.count(k) == count_events(ev.push(e), k, true) by {}
                assert(tally_of(tally, return_events(next)));
            },
            _ => {},
        }
        i = i + 1;
    }
    assert(instructions@.subrange(0, instructions@.len() as int) =~= instructions@);
    ReturnReport { events, tally }
}

} // verus!
