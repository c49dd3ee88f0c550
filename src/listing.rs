//! Turning listing lines into an instruction stream and function spans.

use vstd::prelude::*;
use vstd::string::StringSliceAdditionalSpecFns;
use crate::pattern::{LinePattern, PatternError, matches_line, regex_compiles, regex_group};
use crate::text::{bytes_contain, bytes_have_token, contains, has_token};

verus! {

/// Label line `<address> <name>:`; group 1 is the function name.
pub const LABEL_PATTERN: &'static str = "[\\w]{1,8} <([\\w_]*)>:";

/// A raw dump of four byte pairs.
pub const BYTE_DUMP_PATTERN: &'static str = "\\t[\\w]{2} [\\w]{2} [\\w]{2} [\\w]{2}";

/// A pair of eight-digit words with no mnemonic.
pub const WORD_PAIR_PATTERN: &'static str = "\\t[\\w]{8} [\\w]{8}";

/// An eight-digit word followed only by padding.
pub const PADDED_WORD_PATTERN: &'static str = "\\t[\\w]{8}[ ]{2,}";

pub const POP: &'static str = "pop";
pub const PC: &'static str = "pc";
pub const LDMIA_W: &'static str = "ldmia.w";
pub const SP_WRITEBACK: &'static str = "sp!";
pub const LDR_W: &'static str = "ldr.w";
pub const SP_TOP: &'static str = "[sp]";
pub const BX: &'static str = "bx";
pub const LR: &'static str = "lr";
pub const BL: &'static str = "bl";
pub const BLX: &'static str = "blx";
pub const SECTION_BANNER: &'static str = "Disassembly";
pub const FORMAT_BANNER: &'static str = "file format";
pub const WORD_DIRECTIVE: &'static str = ".word";
pub const BYTE_DIRECTIVE: &'static str = ".byte";
pub const SHORT_DIRECTIVE: &'static str = ".short";
pub const ELISION: &'static str = "...";

/// The four recognised forms of a return.
#[derive(Debug, Clone, Copy, PartialEq, Eq, Structural)]
pub enum ReturnKind {
    PopWithPC,
    LoadMultipleWritebackPC,
    LoadRegisterPCFromStack,
    BranchExchangeLR,
}

/// The two recognised forms of a call.
#[derive(Debug, Clone, Copy, PartialEq, Eq, Structural)]
pub enum CallKind {
    BranchLink,
    BranchLinkExchange,
}

/// What an instruction is, as far as the analysis cares.
#[derive(Debug, Clone, Copy, PartialEq, Eq, Structural)]
pub enum InstrClass {
    Return(ReturnKind),
    Call(CallKind),
    Other,
}

/// The UTF-8 bytes of a line.
pub open spec fn bytes_of(s: Seq<char>) -> Seq<u8> {
    vstd::utf8::encode_utf8(s)
}

/// The return form of a line, testing the forms in priority order.
pub open spec fn return_kind_of(s: Seq<char>) -> Option<ReturnKind> {
    let b = bytes_of(s);
    if contains(b, POP.spec_bytes()) && contains(b, PC.spec_bytes()) {
        Some(ReturnKind::PopWithPC)
    } else if contains(b, LDMIA_W.spec_bytes()) && contains(b, SP_WRITEBACK.spec_bytes())
        && contains(b, PC.spec_bytes()) {
        Some(ReturnKind::LoadMultipleWritebackPC)
    } else if contains(b, LDR_W.spec_bytes()) && contains(b, PC.spec_bytes()) && contains(
        b,
        SP_TOP.spec_bytes(),
    ) {
        Some(ReturnKind::LoadRegisterPCFromStack)
    } else if contains(b, BX.spec_bytes()) && contains(b, LR.spec_bytes()) {
        Some(ReturnKind::BranchExchangeLR)
    } else {
        None
    }
}

/// The class of a line: a return form first, then a call mnemonic, else other.
pub open spec fn class_of(s: Seq<char>) -> InstrClass {
    match return_kind_of(s) {
        Some(k) => InstrClass::Return(k),
        None => if has_token(bytes_of(s), BL.spec_bytes()) {
            InstrClass::Call(CallKind::BranchLink)
        } else if has_token(bytes_of(s), BLX.spec_bytes()) {
            InstrClass::Call(CallKind::BranchLinkExchange)
        } else {
            InstrClass::Other
        },
    }
}

/// Classifies one instruction line.
pub fn classify_instruction(line: &str) -> (r: InstrClass)
    ensures
        r == class_of(line@),
{
    let b = line.as_bytes();
    let pc = bytes_contain(b, PC.as_bytes());
    if bytes_contain(b, POP.as_bytes()) && pc {
        InstrClass::Return(ReturnKind::PopWithPC)
    } else if bytes_contain(b, LDMIA_W.as_bytes()) && bytes_contain(b, SP_WRITEBACK.as_bytes())
        && pc {
        InstrClass::Return(ReturnKind::LoadMultipleWritebackPC)
    } else if bytes_contain(b, LDR_W.as_bytes()) && pc && bytes_contain(b, SP_TOP.as_bytes()) {
        InstrClass::Return(ReturnKind::LoadRegisterPCFromStack)
    } else if bytes_contain(b, BX.as_bytes()) && bytes_contain(b, LR.as_bytes()) {
        InstrClass::Return(ReturnKind::BranchExchangeLR)
    } else if bytes_have_token(b, BL.as_bytes()) {
        InstrClass::Call(CallKind::BranchLink)
    } else if bytes_have_token(b, BLX.as_bytes()) {
        InstrClass::Call(CallKind::BranchLinkExchange)
    } else {
        InstrClass::Other
    }
}

/// The four compiled line patterns of a listing.
pub struct ListingPatterns {
    pub label: LinePattern,
    pub byte_dump: LinePattern,
    pub word_pair: LinePattern,
    pub padded_word: LinePattern,
}

/// All four listing patterns are accepted by the regex crate.
pub open spec fn patterns_compile() -> bool {
    &&& regex_compiles(LABEL_PATTERN@)
    &&& regex_compiles(BYTE_DUMP_PATTERN@)
    &&& regex_compiles(WORD_PAIR_PATTERN@)
    &&& regex_compiles(PADDED_WORD_PATTERN@)
}

impl ListingPatterns {
    /// Each field was compiled from its pattern constant.
    pub open spec fn wf(&self) -> bool {
        &&& self.label.pattern() == LABEL_PATTERN@
        &&& self.byte_dump.pattern() == BYTE_DUMP_PATTERN@
        &&& self.word_pair.pattern() == WORD_PAIR_PATTERN@
        &&& self.padded_word.pattern() == PADDED_WORD_PATTERN@
    }

    /// Compiles the four listing patterns.
    pub fn new() -> (r: Result<ListingPatterns, PatternError>)
        ensures
            r is Ok <==> patterns_compile(),
            r matches Ok(p) ==> p.wf(),
    {
        let label = LinePattern::compile(LABEL_PATTERN)?;
        let byte_dump = LinePattern::compile(BYTE_DUMP_PATTERN)?;
        let word_pair = LinePattern::compile(WORD_PAIR_PATTERN)?;
        let padded_word = LinePattern::compile(PADDED_WORD_PATTERN)?;
        Ok(ListingPatterns { label, byte_dump, word_pair, padded_word })
    }
}

/// The function name that a label line declares.
pub open spec fn label_of(s: Seq<char>) -> Option<Seq<char>> {
    regex_group(LABEL_PATTERN@, s, 1)
}

/// A line that the text tests alone mark as carrying no instruction: blank,
/// a banner, a data directive or an elision.
pub open spec fn is_text_noise(s: Seq<char>) -> bool {
    let b = bytes_of(s);
    ||| b.len() == 0
    ||| b == seq![10u8]
    ||| b == seq![13u8, 10u8]
    ||| contains(b, SECTION_BANNER.spec_bytes())
    ||| contains(b, WORD_DIRECTIVE.spec_bytes())
    ||| contains(b, BYTE_DIRECTIVE.spec_bytes())
    ||| contains(b, SHORT_DIRECTIVE.spec_bytes())
    ||| contains(b, ELISION.spec_bytes())
    ||| contains(b, FORMAT_BANNER.spec_bytes())
}

/// A line that one of the listing patterns marks as carrying no instruction:
/// a label or a bare hex dump.
pub open spec fn is_pattern_noise(s: Seq<char>) -> bool {
    ||| matches_line(BYTE_DUMP_PATTERN@, s)
    ||| matches_line(LABEL_PATTERN@, s)
    ||| matches_line(WORD_PAIR_PATTERN@, s)
    ||| matches_line(PADDED_WORD_PATTERN@, s)
}

/// A line that carries no instruction.
pub open spec fn is_noise(s: Seq<char>) -> bool {
    is_text_noise(s) || is_pattern_noise(s)
}

/// Whether the text tests alone mark a line as carrying no instruction.
pub fn is_text_noise_line(line: &str) -> (r: bool)
    ensures
        r == is_text_noise(line@),
{
    let b = line.as_bytes();
    if b.len() == 0 || (b.len() == 1 && b[0] == 10u8) || (b.len() == 2 && b[0] == 13u8 && b[1]
        == 10u8) {
        proof {
            if b@.len() == 1 {
                assert(b@ =~= seq![10u8]);
            } else if b@.len() == 2 {
                assert(b@ =~= seq![13u8, 10u8]);
            }
        }
        return true;
    }
    assert(b@ != seq![10u8] && b@ != seq![13u8, 10u8]) by {
        if b@ == seq![10u8] {
            assert(b@[0] == 10u8);
        }
        if b@ == seq![13u8, 10u8] {
            assert(b@[0] == 13u8 && b@[1] == 10u8);
        }
    }
    bytes_contain(b, SECTION_BANNER.as_bytes()) || bytes_contain(b, WORD_DIRECTIVE.as_bytes())
        || bytes_contain(b, BYTE_DIRECTIVE.as_bytes()) || bytes_contain(
        b,
        SHORT_DIRECTIVE.as_bytes(),
    ) || bytes_contain(b, ELISION.as_bytes()) || bytes_contain(b, FORMAT_BANNER.as_bytes())
}

/// Whether one of the listing patterns marks a line as carrying no instruction.
pub fn is_pattern_noise_line(patterns: &ListingPatterns, line: &str) -> (r: bool)
    requires
        patterns.wf(),
    ensures
        r == is_pattern_noise(line@),
{
    patterns.byte_dump.is_match(line) || patterns.label.is_match(line)
        || patterns.word_pair.is_match(line) || patterns.padded_word.is_match(line)
}

/// Whether a line carries no instruction.
pub fn is_noise_line(patterns: &ListingPatterns, line: &str) -> (r: bool)
    requires
        patterns.wf(),
    ensures
        r == is_noise(line@),
{
    is_text_noise_line(line) || is_pattern_noise_line(patterns, line)
}

/// One instruction of the filtered stream.
#[derive(Debug, Clone)]
pub struct Instruction {
    /// Position in the filtered stream.
    pub sequence_index: usize,
    /// The listing line the instruction came from.
    pub raw_line: String,
    /// Name of the enclosing function; empty before the first label.
    pub function: String,
    pub class: InstrClass,
}

/// A named function, extending from `start_index` to the next span's start.
#[derive(Debug, Clone)]
pub struct FunctionSpan {
    pub name: String,
    pub start_index: usize,
}

/// An analysed listing: its instruction stream and its function spans.
#[derive(Debug, Clone)]
pub struct Listing {
    pub instructions: Vec<Instruction>,
    pub functions: Vec<FunctionSpan>,
}

/// The character views of a sequence of lines.
pub open spec fn line_views(lines: Seq<String>) -> Seq<Seq<char>> {
    lines.map_values(|l: String| l@)
}

/// What the analysis needs of one line: its text, the function name it
/// declares if it is a label, and whether a listing pattern marks it as noise.
pub type LineFact = (Seq<char>, Option<Seq<char>>, bool);

/// The facts of each line, as the listing patterns give them.
pub open spec fn line_facts(lines: Seq<Seq<char>>) -> Seq<LineFact> {
    lines.map_values(|s: Seq<char>| (s, label_of(s), is_pattern_noise(s)))
}

/// The line described by `f` carries no instruction.
pub open spec fn fact_is_noise(f: LineFact) -> bool {
    is_text_noise(f.0) || f.2
}

/// The facts made of lines, label names and pattern-noise flags given side by side.
pub open spec fn facts_from(lines: Seq<String>, labels: Seq<Option<String>>, noise: Seq<bool>) -> Seq<
    LineFact,
> {
    Seq::new(
        lines.len(),
        |i: int|
            (
                lines[i]@,
                match labels[i] {
                    Some(n) => Some(n@),
                    None => None,
                },
                noise[i],
            ),
    )
}

/// The lines that carry instructions, in order.
pub open spec fn code_lines(lines: Seq<LineFact>) -> Seq<Seq<char>>
    decreases lines.len(),
{
    if lines.len() == 0 {
        seq![]
    } else {
        let rest = code_lines(lines.drop_last());
        if fact_is_noise(lines.last()) {
            rest
        } else {
            rest.push(lines.last().0)
        }
    }
}

/// The name declared by the last label among `lines`, or empty if there is none.
pub open spec fn current_function(lines: Seq<LineFact>) -> Seq<char>
    decreases lines.len(),
{
    if lines.len() == 0 {
        seq![]
    } else {
        match lines.last().1 {
            Some(name) => name,
            None => current_function(lines.drop_last()),
        }
    }
}

/// The enclosing function of each instruction line, in order.
pub open spec fn code_functions(lines: Seq<LineFact>) -> Seq<Seq<char>>
    decreases lines.len(),
{
    if lines.len() == 0 {
        seq![]
    } else {
        let rest = code_functions(lines.drop_last());
        if fact_is_noise(lines.last()) {
            rest
        } else {
            rest.push(current_function(lines))
        }
    }
}

/// Each label as (name, number of instructions before it).
pub open spec fn spans_of(lines: Seq<LineFact>) -> Seq<(Seq<char>, nat)>
    decreases lines.len(),
{
    if lines.len() == 0 {
        seq![]
    } else {
        let rest = spans_of(lines.drop_last());
        match lines.last().1 {
            Some(name) => rest.push((name, code_lines(lines.drop_last()).len())),
            None => rest,
        }
    }
}

proof fn lemma_code_lengths(lines: Seq<LineFact>)
    ensures
        code_functions(lines).len() == code_lines(lines).len(),
    decreases lines.len(),
{
    if lines.len() > 0 {
        lemma_code_lengths(lines.drop_last());
    }
}

/// `listing` holds exactly the instructions and spans of the lines `lines`
/// describes.
pub open spec fn listing_of(listing: Listing, lines: Seq<LineFact>) -> bool {
    let code = code_lines(lines);
    let fns = code_functions(lines);
    let spans = spans_of(lines);
    &&& listing.instructions@.len() == code.len()
    &&& forall|k: int|
        0 <= k < code.len() ==> {
            let ins = #[trigger] listing.instructions@[k];
            &&& ins.sequence_index == k
            &&& ins.raw_line@ == code[k]
            &&& ins.function@ == fns[k]
            &&& ins.class == class_of(code[k])
        }
    &&& listing.functions@.len() == spans.len()
    &&& forall|k: int|
        0 <= k < spans.len() ==> {
            let f = #[trigger] listing.functions@[k];
            &&& f.name@ == spans[k].0
            &&& f.start_index == spans[k].1
        }
}

/// Splits listing lines into the instruction stream and the function spans,
/// given for each line the function name it declares (`labels`) and whether a
/// listing pattern marks it as noise (`pattern_noise`).
pub fn build_listing(
    lines: &Vec<String>,
    labels: &Vec<Option<String>>,
    pattern_noise: &Vec<bool>,
) -> (r: Listing)
    requires
        labels@.len() == lines@.len(),
        pattern_noise@.len() == lines@.len(),
    ensures
        listing_of(r, facts_from(lines@, labels@, pattern_noise@)),
{
    let ghost all = facts_from(lines@, labels@, pattern_noise@);
    let mut instructions: Vec<Instruction> = Vec::new();
    let mut functions: Vec<FunctionSpan> = Vec::new();
    let mut current = String::new();
    let mut i: usize = 0;
    while i < lines.len()
        invariant
            i <= lines@.len(),
            labels@.len() == lines@.len(),
            pattern_noise@.len() == lines@.len(),
            all == facts_from(lines@, labels@, pattern_noise@),
            current@ == current_function(all.subrange(0, i as int)),
            listing_of(Listing { instructions, functions }, all.subrange(0, i as int)),
        decreases lines@.len() - i,
    {
        let ghost pre = all.subrange(0, i as int);
        let ghost next = all.subrange(0, i + 1);
        assert(next.drop_last() =~= pre);
        assert(next.last() == all[i as int]);
        proof {
            lemma_code_lengths(pre);
        }
        let line = &lines[i];
        match &labels[i] {
            Some(name) => {
                current = name.clone();
                functions.push(FunctionSpan { name: name.clone(), start_index: instructions.len() });
            },
            None => {},
        }
        if !(is_text_noise_line(line.as_str()) || pattern_noise[i]) {
            let class = classify_instruction(line.as_str());
            let ins = Instruction {
                sequence_index: instructions.len(),
                raw_line: line.clone(),
                function: current.clone(),
                class,
            };
            instructions.push(ins);
        }
        i = i + 1;
    }
    assert(all.subrange(0, lines@.len() as int) =~= all);
    Listing { instructions, functions }
}

/// Splits a listing into its instruction stream and its function spans.
pub fn parse_listing(patterns: &ListingPatterns, lines: &Vec<String>) -> (r: Listing)
    requires
        patterns.wf(),
    ensures
        listing_of(r, line_facts(line_views(lines@))),
{
    let mut labels: Vec<Option<String>> = Vec::new();
    let mut noise: Vec<bool> = Vec::new();
    let mut i: usize = 0;
    while i < lines.len()
        invariant
            patterns.wf(),
            i <= lines@.len(),
            labels@.len() == i,
            noise@.len() == i,
            forall|k: int|
                0 <= k < i ==> {
                    &&& #[trigger] noise@[k] == is_pattern_noise(lines@[k]@)
                    &&& match labels@[k] {
                        Some(n) => label_of(lines@[k]@) == Some(n@),
                        None => label_of(lines@[k]@) is None,
                    }
                },
        decreases lines@.len() - i,
    {
        labels.push(patterns.label.group(lines[i].as_str(), 1));
        noise.push(is_pattern_noise_line(patterns, lines[i].as_str()));
        i = i + 1;
    }
    let r = build_listing(lines, &labels, &noise);
    assert(facts_from(lines@, labels@, noise@) =~= line_facts(line_views(lines@))) by {
        assert forall|k: int| 0 <= k < lines@.len() implies #[trigger] facts_from(
            lines@,
            labels@,
            noise@,
        )[k] == line_facts(line_views(lines@))[k] by {
            assert(noise@[k] == is_pattern_noise(lines@[k]@));
        }
    }
    r
}

proof fn lemma_code_lines_grow(lines: Seq<LineFact>)
    ensures
        lines.len() > 0 ==> code_lines(lines.drop_last()).len() <= code_lines(lines).len(),
{
}

proof fn lemma_spans_ordered(lines: Seq<LineFact>)
    ensures
        forall|i: int, j: int|
            0 <= i <= j < spans_of(lines).len() ==> spans_of(lines)[i].1 <= spans_of(lines)[j].1,
        forall|i: int|
            0 <= i < spans_of(lines).len() ==> spans_of(lines)[i].1 <= code_lines(lines).len(),
    decreases lines.len(),
{
    if lines.len() > 0 {
        let pre = lines.drop_last();
        lemma_spans_ordered(pre);
        lemma_code_lines_grow(lines);
        let rest = spans_of(pre);
        let n = code_lines(pre).len();
        match lines.last().1 {
            Some(name) => {
                let all = rest.push((name, n));
                assert(spans_of(lines) == all);
                assert forall|i: int, j: int| 0 <= i <= j < all.len() implies all[i].1
                    <= all[j].1 by {
                    if j == all.len() - 1 {
                        assert(all[j].1 == n);
                        if i < j {
                            assert(all[i] == rest[i]);
                        }
                    } else {
                        assert(all[i] == rest[i] && all[j] == rest[j]);
                    }
                }
                assert forall|i: int| 0 <= i < all.len() implies all[i].1 <= code_lines(
                    lines,
                ).len() by {
                    if i < all.len() - 1 {
                        assert(all[i] == rest[i]);
                    }
                }
            },
            None => {
                assert(spans_of(lines) == rest);
            },
        }
    }
}

/// The instructions of a parsed listing are numbered 0, 1, 2, ... in order.
pub proof fn instruction_indices_dense(listing: Listing, lines: Seq<LineFact>)
    requires
        listing_of(listing, lines),
    ensures
        forall|k: int|
            0 <= k < listing.instructions@.len() ==> #[trigger] listing.instructions@[k].sequence_index
                == k,
        forall|i: int, j: int|
            0 <= i < j < listing.instructions@.len() ==> listing.instructions@[i].sequence_index
                < listing.instructions@[j].sequence_index,
{
}

/// The function spans of a parsed listing start at non-decreasing positions,
/// none beyond the end of the instruction stream.
pub proof fn function_spans_ordered(listing: Listing, lines: Seq<LineFact>)
    requires
        listing_of(listing, lines),
    ensures
        forall|i: int, j: int|
            0 <= i <= j < listing.functions@.len() ==> listing.functions@[i].start_index
                <= listing.functions@[j].start_index,
        forall|i: int|
            0 <= i < listing.functions@.len() ==> listing.functions@[i].start_index
                <= listing.instructions@.len(),
{
    lemma_spans_ordered(lines);
    assert forall|i: int, j: int|
        0 <= i <= j < listing.functions@.len() implies listing.functions@[i].start_index
        <= listing.functions@[j].start_index by {
        assert(listing.functions@[i].start_index == spans_of(lines)[i].1);
        assert(listing.functions@[j].start_index == spans_of(lines)[j].1);
    }
    assert forall|i: int| 0 <= i < listing.functions@.len() implies listing.functions@[i].start_index
        <= listing.instructions@.len() by {
        assert(listing.functions@[i].start_index == spans_of(lines)[i].1);
    }
}

/// The positions among `lines` of the lines that carry instructions, in order.
pub open spec fn code_positions(lines: Seq<LineFact>) -> Seq<int>
    decreases lines.len(),
{
    if lines.len() == 0 {
        seq![]
    } else {
        let rest = code_positions(lines.drop_last());
        if fact_is_noise(lines.last()) {
            rest
        } else {
            rest.push(lines.len() - 1)
        }
    }
}

proof fn lemma_code_positions(lines: Seq<LineFact>)
    ensures
        code_positions(lines).len() == code_lines(lines).len(),
        forall|k: int|
            0 <= k < code_positions(lines).len() ==> {
                let p = #[trigger] code_positions(lines)[k];
                &&& 0 <= p < lines.len()
                &&& lines[p].0 == code_lines(lines)[k]
                &&& !fact_is_noise(lines[p])
            },
        forall|i: int, j: int|
            0 <= i < j < code_positions(lines).len() ==> code_positions(lines)[i] < code_positions(
                lines,
            )[j],
    decreases lines.len(),
{
    if lines.len() > 0 {
        let pre = lines.drop_last();
        lemma_code_positions(pre);
        let rest = code_positions(pre);
        let all = code_positions(lines);
        assert forall|k: int| 0 <= k < all.len() implies {
            let p = #[trigger] all[k];
            &&& 0 <= p < lines.len()
            &&& lines[p].0 == code_lines(lines)[k]
            &&& !fact_is_noise(lines[p])
        } by {
            if k < rest.len() {
                assert(all[k] == rest[k]);
                assert(lines[rest[k]] == pre[rest[k]]);
            }
        }
        assert forall|i: int, j: int| 0 <= i < j < all.len() implies all[i] < all[j] by {
            if j < rest.len() {
                assert(all[i] == rest[i] && all[j] == rest[j]);
            } else {
                assert(all[i] == rest[i]);
            }
        }
    }
}

/// The instructions of a parsed listing are its instruction lines in listing
/// order: instruction `k` is the line at position `code_positions(lines)[k]`,
/// which is no noise, and the positions strictly increase.
pub proof fn instructions_keep_line_order(listing: Listing, lines: Seq<LineFact>)
    requires
        listing_of(listing, lines),
    ensures
        code_positions(lines).len() == listing.instructions@.len(),
        forall|k: int|
            0 <= k < listing.instructions@.len() ==> {
                let p = #[trigger] code_positions(lines)[k];
                &&& 0 <= p < lines.len()
                &&& lines[p].0 == listing.instructions@[k].raw_line@
                &&& !fact_is_noise(lines[p])
            },
        forall|i: int, j: int|
            0 <= i < j < listing.instructions@.len() ==> code_positions(lines)[i] < code_positions(
                lines,
            )[j],
{
    lemma_code_positions(lines);
}

} // verus!
