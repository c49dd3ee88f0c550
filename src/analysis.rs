//! Whole-listing analysis and the totals accumulated over a batch of binaries.

use vstd::prelude::*;
use crate::classifier::{
    KindCounts, ReturnReport, classify_returns, events_match, return_events, tally_of,
    tally_sums_to_returns,
};
use crate::gadgets::{
    CallScan, Gadget, GadgetType, call_gadgets, count_calls, histogram, bucket_count,
    scan_call_preceded, scan_unconditional, stream_gadgets, HISTOGRAM_BUCKETS,
};
use crate::listing::{
    CallKind, Listing, ListingPatterns, line_facts, line_views, listing_of, parse_listing,
};

verus! {

/// Everything measured on one binary's listing.
#[derive(Debug, Clone)]
pub struct BinaryAnalysis {
    pub listing: Listing,
    pub return_report: ReturnReport,
    /// One regular gadget per return.
    pub stream: Vec<Gadget>,
    pub calls: CallScan,
}

/// `a` is the analysis of the listing `lines`.
pub open spec fn analysis_of(a: BinaryAnalysis, lines: Seq<Seq<char>>) -> bool {
    let s = a.listing.instructions@;
    &&& listing_of(a.listing, line_facts(lines))
    &&& events_match(a.return_report.events@, return_events(s))
    &&& tally_of(a.return_report.tally, return_events(s))
    &&& a.stream@ == stream_gadgets(s)
    &&& a.calls.gadgets@ == call_gadgets(s, s.len() as int)
    &&& a.calls.calls.branch_link == count_calls(s, s.len() as int, CallKind::BranchLink)
    &&& a.calls.calls.branch_link_exchange == count_calls(
        s,
        s.len() as int,
        CallKind::BranchLinkExchange,
    )
}

/// Analyses one binary's disassembly listing.
pub fn analyze_listing(patterns: &ListingPatterns, lines: &Vec<String>) -> (r: BinaryAnalysis)
    requires
        patterns.wf(),
    ensures
        analysis_of(r, line_views(lines@)),
{
    let listing = parse_listing(patterns, lines);
    let return_report = classify_returns(&listing.instructions);
    let stream = scan_unconditional(&listing.instructions);
    let calls = scan_call_preceded(&listing.instructions);
    BinaryAnalysis { listing, return_report, stream, calls }
}

/// The lengths of a sequence of gadgets.
pub open spec fn lengths_of(g: Seq<Gadget>) -> Seq<usize> {
    g.map_values(|x: Gadget| x.length)
}

/// The gadgets of `a` that `mode` measures.
pub open spec fn mode_gadgets(a: BinaryAnalysis, mode: GadgetType) -> Seq<Gadget> {
    match mode {
        GadgetType::Regular => a.stream@,
        GadgetType::CallPreceeded => a.calls.gadgets@,
    }
}

/// Counters accumulated over the binaries of one run.
#[derive(Debug, Clone)]
pub struct AnalysisTotals {
    /// Which gadgets are collected.
    pub mode: GadgetType,
    pub instructions: usize,
    pub total_returns: usize,
    pub primary: KindCounts,
    pub duplicates: KindCounts,
    pub branch_link: usize,
    pub branch_link_exchange: usize,
    /// Lengths of the collected gadgets, in order of discovery.
    pub gadget_lengths: Vec<usize>,
    /// Function symbols counted in symbol tables.
    pub function_symbols: usize,
    /// Summed size of the `.text` sections.
    pub text_size: u64,
}

impl AnalysisTotals {
    /// Empty totals collecting the gadgets of `mode`.
    pub fn new(mode: GadgetType) -> (r: AnalysisTotals)
        ensures
            r.mode == mode,
            r.instructions == 0,
            r.total_returns == 0,
            forall|k| #![auto] r.primary.count(k) == 0 && r.duplicates.count(k) == 0,
            r.branch_link == 0,
            r.branch_link_exchange == 0,
            r.function_symbols == 0,
            r.text_size == 0,
            r.balanced(),
            r.gadget_lengths@.len() == 0,
    {
        AnalysisTotals {
            mode,
            instructions: 0,
            total_returns: 0,
            primary: KindCounts::zero(),
            duplicates: KindCounts::zero(),
            branch_link: 0,
            branch_link_exchange: 0,
            gadget_lengths: Vec::new(),
            function_symbols: 0,
            text_size: 0,
        }
    }

    /// First returns and duplicates, summed over all kinds, make up every
    /// return counted.
    pub open spec fn balanced(&self) -> bool {
        self.primary.total() + self.duplicates.total() == self.total_returns
    }

    /// Adding the counters of `a` stays within `usize`.
    pub open spec fn can_absorb(&self, a: BinaryAnalysis) -> bool {
        &&& self.instructions + a.listing.instructions@.len() <= usize::MAX
        &&& self.total_returns + a.return_report.tally.total <= usize::MAX
        &&& self.primary.can_add(a.return_report.tally.primary)
        &&& self.duplicates.can_add(a.return_report.tally.duplicates)
        &&& self.branch_link + a.calls.calls.branch_link <= usize::MAX
        &&& self.branch_link_exchange + a.calls.calls.branch_link_exchange <= usize::MAX
    }

    /// Adds the counters and gadget lengths of one binary. Returns false, and
    /// changes nothing, when a counter would exceed `usize::MAX`.
    pub fn absorb(&mut self, a: &BinaryAnalysis) -> (r: bool)
        ensures
            r == old(self).can_absorb(*a),
            !r ==> *final(self) == *old(self),
            old(self).balanced() && tally_of(
                a.return_report.tally,
                return_events(a.listing.instructions@),
            ) ==> final(self).balanced(),
            r ==> {
                &&& final(self).mode == old(self).mode
                &&& final(self).function_symbols == old(self).function_symbols
                &&& final(self).text_size == old(self).text_size
                &&& final(self).instructions == old(self).instructions
                    + a.listing.instructions@.len()
                &&& final(self).total_returns == old(self).total_returns + a.return_report.tally.total
                &&& forall|k|
                    #![auto]
                    final(self).primary.count(k) == old(self).primary.count(k)
                        + a.return_report.tally.primary.count(k)
                        && final(self).duplicates.count(k) == old(self).duplicates.count(k)
                        + a.return_report.tally.duplicates.count(k)
                &&& final(self).branch_link == old(self).branch_link + a.calls.calls.branch_link
                &&& final(self).branch_link_exchange == old(self).branch_link_exchange
                    + a.calls.calls.branch_link_exchange
                &&& final(self).gadget_lengths@ == old(self).gadget_lengths@ + lengths_of(
                    mode_gadgets(*a, old(self).mode),
                )
            },
    {
        proof {
            if old(self).balanced() && tally_of(
                a.return_report.tally,
                return_events(a.listing.instructions@),
            ) {
                tally_sums_to_returns(a.return_report.tally, a.listing.instructions@);
            }
        }
        let fits = self.instructions <= usize::MAX - a.listing.instructions.len() && self.total_returns
            <= usize::MAX - a.return_report.tally.total && self.primary.fits_with(
            &a.return_report.tally.primary,
        ) && self.duplicates.fits_with(&a.return_report.tally.duplicates) && self.branch_link
            <= usize::MAX - a.calls.calls.branch_link && self.branch_link_exchange <= usize::MAX
            - a.calls.calls.branch_link_exchange;
        if !fits {
            return false;
        }
        self.instructions = self.instructions + a.listing.instructions.len();
        self.total_returns = self.total_returns + a.return_report.tally.total;
        self.primary.add(&a.return_report.tally.primary);
        self.duplicates.add(&a.return_report.tally.duplicates);
        self.branch_link = self.branch_link + a.calls.calls.branch_link;
        self.branch_link_exchange = self.branch_link_exchange + a.calls.calls.branch_link_exchange;
        let gadgets = match self.mode {
            GadgetType::Regular => &a.stream,
            GadgetType::CallPreceeded => &a.calls.gadgets,
        };
        assert(gadgets@ == mode_gadgets(*a, self.mode));
        let ghost mid = *self;
        let ghost start = self.gadget_lengths@;
        let mut i: usize = 0;
        while i < gadgets.len()
            invariant
                i <= gadgets@.len(),
                self.mode == mid.mode,
                self.instructions == mid.instructions,
                self.total_returns == mid.total_returns,
                self.primary == mid.primary,
                self.duplicates == mid.duplicates,
                self.branch_link == mid.branch_link,
                self.branch_link_exchange == mid.branch_link_exchange,
                self.function_symbols == mid.function_symbols,
                self.text_size == mid.text_size,
                self.gadget_lengths@ == start + lengths_of(gadgets@.subrange(0, i as int)),
            decreases gadgets@.len() - i,
        {
            self.gadget_lengths.push(gadgets[i].length);
            assert(lengths_of(gadgets@.subrange(0, i + 1)) =~= lengths_of(
                gadgets@.subrange(0, i as int),
            ).push(gadgets@[i as int].length));
            i = i + 1;
        }
        assert(gadgets@.subrange(0, gadgets@.len() as int) =~= gadgets@);
        true
    }

    /// Adds `n` function symbols. Returns false, and changes nothing, when the
    /// count would exceed `usize::MAX`.
    pub fn add_function_symbols(&mut self, n: usize) -> (r: bool)
        ensures
            r == (old(self).function_symbols + n <= usize::MAX),
            r ==> final(self).function_symbols == old(self).function_symbols + n,
            !r ==> final(self).function_symbols == old(self).function_symbols,
            final(self).mode == old(self).mode,
            final(self).instructions == old(self).instructions,
            final(self).total_returns == old(self).total_returns,
            final(self).primary == old(self).primary,
            final(self).duplicates == old(self).duplicates,
            final(self).branch_link == old(self).branch_link,
            final(self).branch_link_exchange == old(self).branch_link_exchange,
            final(self).gadget_lengths@ == old(self).gadget_lengths@,
            final(self).text_size == old(self).text_size,
    {
        if self.function_symbols > usize::MAX - n {
            return false;
        }
        self.function_symbols = self.function_symbols + n;
        true
    }

    /// Adds `size` bytes of `.text`. Returns false, and changes nothing, when
    /// the sum would exceed `u64::MAX`.
    pub fn add_text_size(&mut self, size: u64) -> (r: bool)
        ensures
            r == (old(self).text_size + size <= u64::MAX),
            r ==> final(self).text_size == old(self).text_size + size,
            !r ==> final(self).text_size == old(self).text_size,
            final(self).mode == old(self).mode,
            final(self).instructions == old(self).instructions,
            final(self).total_returns == old(self).total_returns,
            final(self).primary == old(self).primary,
            final(self).duplicates == old(self).duplicates,
            final(self).branch_link == old(self).branch_link,
            final(self).branch_link_exchange == old(self).branch_link_exchange,
            final(self).gadget_lengths@ == old(self).gadget_lengths@,
            final(self).function_symbols == old(self).function_symbols,
    {
        if self.text_size > u64::MAX - size {
            return false;
        }
        self.text_size = self.text_size + size;
        true
    }

    /// The histogram of the collected gadget lengths for this mode.
    pub fn histogram(&self) -> (r: Vec<usize>)
        ensures
            r@.len() == HISTOGRAM_BUCKETS,
            forall|i: int|
                0 <= i < HISTOGRAM_BUCKETS ==> r@[i] == bucket_count(
                    self.gadget_lengths@,
                    i,
                    self.mode,
                ),
    {
        histogram(&self.gadget_lengths, self.mode)
    }
}

} // verus!
