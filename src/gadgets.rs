//! Gadget measurements: distances between returns, and from calls to the
//! nearest following return.

use vstd::prelude::*;
use crate::listing::{CallKind, InstrClass, Instruction};

verus! {

/// How a gadget is measured.
#[derive(Debug, Clone, Copy, PartialEq, Eq, Structural)]
pub enum GadgetType {
    /// From the previous return (or the start of the stream) to a return.
    Regular,
    /// From a call to the nearest return after it.
    CallPreceeded,
}

impl GadgetType {
    /// The name of the mode as shown to users.
    pub fn as_str(&self) -> (r: &'static str)
        ensures
            *self == GadgetType::Regular ==> r@ == "regular"@,
            *self == GadgetType::CallPreceeded ==> r@ == "call-preceeded"@,
    {
        match self {
            GadgetType::Regular => "regular",
            GadgetType::CallPreceeded => "call-preceeded",
        }
    }
}

/// Number of instructions after a call that are searched for a return.
pub const CALL_WINDOW: usize = 10;

/// Number of histogram buckets: lengths 0 through 10.
pub const HISTOGRAM_BUCKETS: usize = 11;

/// One measured gadget.
#[derive(Debug, Clone, Copy, PartialEq, Eq, Structural)]
pub struct Gadget {
    /// Instructions between the start point and the return.
    pub length: usize,
    pub origin: GadgetType,
    /// The call the gadget starts at; only for call-preceded gadgets.
    pub call_kind: Option<CallKind>,
}

/// Calls counted by kind.
#[derive(Debug, Clone, Copy, PartialEq, Eq, Structural)]
pub struct CallTally {
    pub branch_link: usize,
    pub branch_link_exchange: usize,
}

/// Whether an instruction is a return of any kind.
pub open spec fn is_return(ins: Instruction) -> bool {
    ins.class is Return
}

/// Instructions since the last return in `s`, or since its start.
pub open spec fn distance_since_return(s: Seq<Instruction>) -> nat
    decreases s.len(),
{
    if s.len() == 0 {
        0
    } else if is_return(s.last()) {
        0
    } else {
        distance_since_return(s.drop_last()) + 1
    }
}

/// One gadget per return, measured from the previous return or the start.
pub open spec fn stream_gadgets(s: Seq<Instruction>) -> Seq<Gadget>
    decreases s.len(),
{
    if s.len() == 0 {
        seq![]
    } else {
        let rest = stream_gadgets(s.drop_last());
        if is_return(s.last()) {
            rest.push(
                Gadget {
                    length: distance_since_return(s.drop_last()) as usize,
                    origin: GadgetType::Regular,
                    call_kind: None,
                },
            )
        } else {
            rest
        }
    }
}

proof fn lemma_distance_bound(s: Seq<Instruction>)
    ensures
        distance_since_return(s) <= s.len(),
    decreases s.len(),
{
    if s.len() > 0 {
        lemma_distance_bound(s.drop_last());
    }
}

/// Measures a gadget at every return: the number of instructions since the
/// previous return, or since the start of the stream.
pub fn scan_unconditional(instructions: &Vec<Instruction>) -> (r: Vec<Gadget>)
    ensures
        r@ == stream_gadgets(instructions@),
{
    let mut gadgets: Vec<Gadget> = Vec::new();
    let mut dist: usize = 0;
    let mut i: usize = 0;
    while i < instructions.len()
        invariant
            i <= instructions@.len(),
            dist == distance_since_return(instructions@.subrange(0, i as int)),
            gadgets@ == stream_gadgets(instructions@.subrange(0, i as int)),
        decreases instructions@.len() - i,
    {
        let ghost pre = instructions@.subrange(0, i as int);
        assert(instructions@.subrange(0, i + 1).drop_last() =~= pre);
        proof {
            lemma_distance_bound(pre);
        }
        match instructions[i].class {
            InstrClass::Return(_) => {
                gadgets.push(Gadget { length: dist, origin: GadgetType::Regular, call_kind: None });
                dist = 0;
            },
            _ => {
                dist = dist + 1;
            },
        }
        i = i + 1;
    }
    assert(instructions@.subrange(0, instructions@.len() as int) =~= instructions@);
    gadgets
}

/// The smallest offset `j` with `i <= j <= CALL_WINDOW` such that the
/// instruction at `c + j` exists and is a return.
pub open spec fn return_offset(s: Seq<Instruction>, c: int, i: int) -> Option<nat>
    decreases CALL_WINDOW + 1 - i,
{
    if i < 1 || i > CALL_WINDOW || c + i >= s.len() {
        None
    } else if is_return(s[c + i]) {
        Some(i as nat)
    } else {
        return_offset(s, c, i + 1)
    }
}

/// Offset (1 to `CALL_WINDOW`) of the first return after position `c`, if
/// one lies within the window and the stream.
pub fn find_return_after(instructions: &Vec<Instruction>, c: usize) -> (r: Option<usize>)
    requires
        c < instructions@.len(),
    ensures
        r matches Some(i) ==> 1 <= i <= CALL_WINDOW && return_offset(instructions@, c as int, 1)
            == Some(i as nat),
        r is None ==> return_offset(instructions@, c as int, 1) is None,
{
    let n = instructions.len();
    let mut i: usize = 1;
    while i <= CALL_WINDOW
        invariant
            c < n == instructions@.len(),
            1 <= i <= CALL_WINDOW + 1,
            return_offset(instructions@, c as int, 1) == return_offset(
                instructions@,
                c as int,
                i as int,
            ),
        decreases CALL_WINDOW + 1 - i,
    {
        if i >= n - c {
            return None;
        }
        if matches!(instructions[c + i].class, InstrClass::Return(_)) {
            return Some(i);
        }
        i = i + 1;
    }
    None
}

/// The call-preceded gadgets of the calls among the first `n` instructions.
pub open spec fn call_gadgets(s: Seq<Instruction>, n: int) -> Seq<Gadget>
    decreases n,
{
    if n <= 0 {
        seq![]
    } else {
        let rest = call_gadgets(s, n - 1);
        match s[n - 1].class {
            InstrClass::Call(ck) => match return_offset(s, n - 1, 1) {
                Some(i) => rest.push(
                    Gadget {
                        length: (i - 1) as usize,
                        origin: GadgetType::CallPreceeded,
                        call_kind: Some(ck),
                    },
                ),
                None => rest,
            },
            _ => rest,
        }
    }
}

/// Number of calls of kind `ck` among the first `n` instructions.
pub open spec fn count_calls(s: Seq<Instruction>, n: int, ck: CallKind) -> nat
    decreases n,
{
    if n <= 0 {
        0
    } else {
        count_calls(s, n - 1, ck) + if s[n - 1].class == InstrClass::Call(ck) {
            1nat
        } else {
            0nat
        }
    }
}

proof fn lemma_calls_bound(s: Seq<Instruction>, n: int, ck: CallKind)
    ensures
        count_calls(s, n, ck) <= if n < 0 {
            0
        } else {
            n
        },
    decreases n,
{
    if n > 0 {
        lemma_calls_bound(s, n - 1, ck);
    }
}

/// Call-preceded gadgets of a stream, with its calls counted by kind.
#[derive(Debug, Clone)]
pub struct CallScan {
    pub gadgets: Vec<Gadget>,
    pub calls: CallTally,
}

/// For every call, counts it by kind and looks up to `CALL_WINDOW`
/// instructions ahead for the first return; where one is found at offset
/// `i`, records a gadget of length `i - 1`.
pub fn scan_call_preceded(instructions: &Vec<Instruction>) -> (r: CallScan)
    ensures
        r.gadgets@ == call_gadgets(instructions@, instructions@.len() as int),
        r.calls.branch_link == count_calls(
            instructions@,
            instructions@.len() as int,
            CallKind::BranchLink,
        ),
        r.calls.branch_link_exchange == count_calls(
            instructions@,
            instructions@.len() as int,
            CallKind::BranchLinkExchange,
        ),
{
    let mut gadgets: Vec<Gadget> = Vec::new();
    let mut calls = CallTally { branch_link: 0, branch_link_exchange: 0 };
    let mut idx: usize = 0;
    while idx < instructions.len()
        invariant
            idx <= instructions@.len(),
            gadgets@ == call_gadgets(instructions@, idx as int),
            calls.branch_link == count_calls(instructions@, idx as int, CallKind::BranchLink),
            calls.branch_link_exchange == count_calls(
                instructions@,
                idx as int,
                CallKind::BranchLinkExchange,
            ),
        decreases instructions@.len() - idx,
    {
        proof {
            lemma_calls_bound(instructions@, idx as int, CallKind::BranchLink);
            lemma_calls_bound(instructions@, idx as int, CallKind::BranchLinkExchange);
        }
        match instructions[idx].class {
            InstrClass::Call(ck) => {
                match find_return_after(instructions, idx) {
                    Some(i) => {
                        gadgets.push(
                            Gadget {
                                length: i - 1,
                                origin: GadgetType::CallPreceeded,
                                call_kind: Some(ck),
                            },
                        );
                    },
                    None => {},
                }
                match ck {
                    CallKind::BranchLink => calls.branch_link = calls.branch_link + 1,
                    CallKind::BranchLinkExchange => calls.branch_link_exchange =
                    calls.branch_link_exchange + 1,
                }
            },
            _ => {},
        }
        idx = idx + 1;
    }
    CallScan { gadgets, calls }
}

/// Whether a gadget of length `len` is counted in bucket `i`: lengths of at
/// least `i` for regular gadgets, exactly `i` for call-preceded ones.
pub open spec fn in_bucket(len: usize, i: int, mode: GadgetType) -> bool {
    match mode {
        GadgetType::Regular => len >= i,
        GadgetType::CallPreceeded => len == i,
    }
}

/// Number of lengths counted in bucket `i`.
pub open spec fn bucket_count(lengths: Seq<usize>, i: int, mode: GadgetType) -> nat
    decreases lengths.len(),
{
    if lengths.len() == 0 {
        0
    } else {
        bucket_count(lengths.drop_last(), i, mode) + if in_bucket(lengths.last(), i, mode) {
            1nat
        } else {
            0nat
        }
    }
}

fn count_bucket(lengths: &Vec<usize>, i: usize, mode: GadgetType) -> (r: usize)
    ensures
        r == bucket_count(lengths@, i as int, mode),
{
    let mut count: usize = 0;
    let mut k: usize = 0;
    while k < lengths.len()
        invariant
            k <= lengths@.len(),
            count == bucket_count(lengths@.subrange(0, k as int), i as int, mode),
            count <= k,
        decreases lengths@.len() - k,
    {
        assert(lengths@.subrange(0, k + 1).drop_last() =~= lengths@.subrange(0, k as int));
        let hit = match mode {
            GadgetType::Regular => lengths[k] >= i,
            GadgetType::CallPreceeded => lengths[k] == i,
        };
        if hit {
            count = count + 1;
        }
        k = k + 1;
    }
    assert(lengths@.subrange(0, lengths@.len() as int) =~= lengths@);
    count
}

/// The gadget-length histogram of `mode`: bucket `i`, for `i` from 0 to 10,
/// counts the lengths that `in_bucket` places there.
pub fn histogram(lengths: &Vec<usize>, mode: GadgetType) -> (r: Vec<usize>)
    ensures
        r@.len() == HISTOGRAM_BUCKETS,
        forall|i: int| 0 <= i < HISTOGRAM_BUCKETS ==> r@[i] == bucket_count(lengths@, i, mode),
{
    let mut buckets: Vec<usize> = Vec::new();
    let mut i: usize = 0;
    while i < HISTOGRAM_BUCKETS
        invariant
            i <= HISTOGRAM_BUCKETS,
            buckets@.len() == i,
            forall|j: int| 0 <= j < i ==> buckets@[j] == bucket_count(lengths@, j, mode),
        decreases HISTOGRAM_BUCKETS - i,
    {
        buckets.push(count_bucket(lengths, i, mode));
        i = i + 1;
    }
    buckets
}

/// Scanning the same stream twice for regular gadgets gives the same gadgets.
pub proof fn unconditional_scan_repeats(s: Seq<Instruction>, first: Seq<Gadget>, second: Seq<
    Gadget,
>)
    requires
        first == stream_gadgets(s),
        second == stream_gadgets(s),
    ensures
        first == second,
{
}

/// A stream without instructions has no returns, no gadgets of either kind,
/// no calls, and every histogram bucket of its gadgets is empty.
pub proof fn empty_stream_is_quiet(s: Seq<Instruction>, mode: GadgetType)
    requires
        s.len() == 0,
    ensures
        crate::classifier::return_events(s).len() == 0,
        stream_gadgets(s).len() == 0,
        call_gadgets(s, 0).len() == 0,
        count_calls(s, 0, CallKind::BranchLink) == 0,
        count_calls(s, 0, CallKind::BranchLinkExchange) == 0,
        forall|i: int| 0 <= i < HISTOGRAM_BUCKETS ==> bucket_count(seq![], i, mode) == 0,
{
}

proof fn lemma_no_return_from(s: Seq<Instruction>, c: int, i: int)
    requires
        0 <= c < s.len(),
        forall|j: int| c < j < s.len() ==> !is_return(#[trigger] s[j]),
    ensures
        return_offset(s, c, i) is None,
    decreases CALL_WINDOW + 1 - i,
{
    if 1 <= i <= CALL_WINDOW && c + i < s.len() {
        lemma_no_return_from(s, c, i + 1);
    }
}

/// The lookahead from any position reads only instructions that exist: an
/// offset it finds lies in the window and before the end of the stream, also
/// where fewer than `CALL_WINDOW` instructions remain.
pub proof fn lookahead_stays_in_stream(s: Seq<Instruction>, c: int)
    requires
        0 <= c < s.len(),
    ensures
        return_offset(s, c, 1) matches Some(i) ==> 1 <= i <= CALL_WINDOW && c + i < s.len()
            && is_return(s[c + i]),
{
    lemma_offset_in_window(s, c, 1);
    lemma_offset_is_return(s, c, 1);
}

proof fn lemma_offset_is_return(s: Seq<Instruction>, c: int, i: int)
    requires
        0 <= c,
    ensures
        return_offset(s, c, i) matches Some(j) ==> 0 <= c + j < s.len() && is_return(s[c + j]),
    decreases CALL_WINDOW + 1 - i,
{
    if 1 <= i <= CALL_WINDOW && c + i < s.len() && !is_return(s[c + i]) {
        lemma_offset_is_return(s, c, i + 1);
    }
}

/// A call with no return among the instructions after it, however few remain
/// before the end of the stream, yields no call-preceded gadget.
pub proof fn call_without_following_return(s: Seq<Instruction>, c: int)
    requires
        0 <= c < s.len(),
        forall|j: int| c < j < s.len() ==> !is_return(#[trigger] s[j]),
    ensures
        return_offset(s, c, 1) is None,
        call_gadgets(s, c + 1) == call_gadgets(s, c),
{
    lemma_no_return_from(s, c, 1);
}

proof fn lemma_offset_in_window(s: Seq<Instruction>, c: int, i: int)
    ensures
        return_offset(s, c, i) matches Some(j) ==> i <= j <= CALL_WINDOW && c + j < s.len(),
    decreases CALL_WINDOW + 1 - i,
{
    if 1 <= i <= CALL_WINDOW && c + i < s.len() && !is_return(s[c + i]) {
        lemma_offset_in_window(s, c, i + 1);
    }
}

/// Every call-preceded gadget is shorter than the lookahead window and
/// records the call it starts at.
pub proof fn call_gadgets_within_window(s: Seq<Instruction>, n: int)
    ensures
        forall|k: int|
            0 <= k < call_gadgets(s, n).len() ==> {
                let g = #[trigger] call_gadgets(s, n)[k];
                &&& g.length <= CALL_WINDOW - 1
                &&& g.origin == GadgetType::CallPreceeded
                &&& g.call_kind is Some
            },
    decreases n,
{
    if n > 0 {
        call_gadgets_within_window(s, n - 1);
        lemma_offset_in_window(s, n - 1, 1);
        let rest = call_gadgets(s, n - 1);
        let all = call_gadgets(s, n);
        assert forall|k: int| 0 <= k < all.len() implies {
            let g = #[trigger] all[k];
            &&& g.length <= CALL_WINDOW - 1
            &&& g.origin == GadgetType::CallPreceeded
            &&& g.call_kind is Some
        } by {
            if k < rest.len() {
                assert(all[k] == rest[k]);
            }
        }
    }
}

} // verus!
