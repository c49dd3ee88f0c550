use rop_scan::analysis::{analyze_listing, AnalysisTotals};
use rop_scan::classifier::classify_returns;
use rop_scan::gadgets::{
    find_return_after, histogram, scan_call_preceded, scan_unconditional, Gadget, GadgetType,
};
use rop_scan::listing::{
    build_listing, classify_instruction, is_noise_line, parse_listing, CallKind, InstrClass, ListingPatterns,
    ReturnKind,
};

fn lines(src: &[&str]) -> Vec<String> {
    src.iter().map(|s| s.to_string()).collect()
}

fn patterns() -> ListingPatterns {
    ListingPatterns::new().unwrap()
}

const OBJDUMP: [&str; 12] = [
    "",
    "firmware.elf:     file format elf32-littlearm",
    "Disassembly of section .text:",
    "00008000 <main>:",
    "    8000:\tb580      \tpush\t{r7, lr}",
    "    8002:\tf000 f801 \tbl\t8008 <helper>",
    "    8006:\tbd80      \tpop\t{r7, pc}",
    "00008008 <helper>:",
    "    8008:\t4770      \tbx\tlr",
    "    800a:\t0000      \t.short\t0x0000",
    "\t...",
    "    800c:\t00 01 02 03\t",
];

#[test]
fn scenario_single_pop_return() {
    let p = patterns();
    let listing = parse_listing(&p, &lines(&["pop {r4, pc}"]));
    assert_eq!(listing.instructions.len(), 1);
    let report = classify_returns(&listing.instructions);
    assert_eq!(report.events.len(), 1);
    assert_eq!(report.events[0].kind, ReturnKind::PopWithPC);
    assert!(!report.events[0].is_duplicate);
    assert_eq!(report.events[0].at_index, 0);
    let gadgets = scan_unconditional(&listing.instructions);
    assert_eq!(
        gadgets,
        vec![Gadget { length: 0, origin: GadgetType::Regular, call_kind: None }]
    );
}

#[test]
fn scenario_call_then_pop() {
    let p = patterns();
    let listing = parse_listing(&p, &lines(&["bl foo", "mov r0, r1", "pop {r4, pc}"]));
    let scan = scan_call_preceded(&listing.instructions);
    assert_eq!(
        scan.gadgets,
        vec![Gadget {
            length: 1,
            origin: GadgetType::CallPreceeded,
            call_kind: Some(CallKind::BranchLink)
        }]
    );
    assert_eq!(scan.calls.branch_link, 1);
    assert_eq!(scan.calls.branch_link_exchange, 0);
}

#[test]
fn scenario_duplicate_in_same_function() {
    let p = patterns();
    let listing = parse_listing(
        &p,
        &lines(&["00008000 <main>:", "pop {r4, pc}", "mov r0, r1", "pop {r5, pc}"]),
    );
    let report = classify_returns(&listing.instructions);
    assert_eq!(report.events.len(), 2);
    assert!(!report.events[0].is_duplicate);
    assert!(report.events[1].is_duplicate);
    assert_eq!(report.events[1].function, "main");
    assert_eq!(report.tally.primary.pop_with_pc, 1);
    assert_eq!(report.tally.duplicates.pop_with_pc, 1);
    assert_eq!(report.tally.total, 2);
}

#[test]
fn returns_in_different_functions_are_not_duplicates() {
    let p = patterns();
    let listing = parse_listing(
        &p,
        &lines(&["00008000 <a>:", "bx lr", "00008004 <b>:", "bx lr", "bx lr"]),
    );
    let report = classify_returns(&listing.instructions);
    let dups: Vec<bool> = report.events.iter().map(|e| e.is_duplicate).collect();
    assert_eq!(dups, vec![false, false, true]);
    assert_eq!(report.tally.primary.branch_exchange_lr, 2);
    assert_eq!(report.tally.duplicates.branch_exchange_lr, 1);
}

#[test]
fn duplicate_tracking_is_per_kind() {
    let p = patterns();
    let listing = parse_listing(
        &p,
        &lines(&["00008000 <f>:", "pop {r4, pc}", "bx lr", "pop {r4, pc}", "bx lr"]),
    );
    let report = classify_returns(&listing.instructions);
    let dups: Vec<bool> = report.events.iter().map(|e| e.is_duplicate).collect();
    assert_eq!(dups, vec![false, false, true, true]);
}

#[test]
fn scenario_call_with_no_return_in_window() {
    let p = patterns();
    let mut src: Vec<&str> = vec!["mov r0, r1"; 12];
    src.push("bl foo");
    let listing = parse_listing(&p, &lines(&src));
    let scan = scan_call_preceded(&listing.instructions);
    assert!(scan.gadgets.is_empty());
    assert_eq!(scan.calls.branch_link, 1);
}

#[test]
fn scenario_histogram_at_least() {
    let h = histogram(&vec![0, 3, 7], GadgetType::Regular);
    assert_eq!(h, vec![3, 2, 2, 2, 1, 1, 1, 1, 0, 0, 0]);
}

#[test]
fn histogram_exact_lengths() {
    let h = histogram(&vec![0, 3, 3, 9, 12], GadgetType::CallPreceeded);
    assert_eq!(h, vec![1, 0, 0, 2, 0, 0, 0, 0, 0, 1, 0]);
}

#[test]
fn empty_stream_is_all_zero() {
    let p = patterns();
    let a = analyze_listing(&p, &Vec::new());
    assert!(a.listing.instructions.is_empty());
    assert!(a.listing.functions.is_empty());
    assert!(a.return_report.events.is_empty());
    assert_eq!(a.return_report.tally.total, 0);
    assert!(a.stream.is_empty());
    assert!(a.calls.gadgets.is_empty());
    assert_eq!(histogram(&Vec::new(), GadgetType::Regular), vec![0; 11]);
    assert_eq!(histogram(&Vec::new(), GadgetType::CallPreceeded), vec![0; 11]);
}

#[test]
fn call_near_stream_end_without_return() {
    let p = patterns();
    let listing = parse_listing(&p, &lines(&["bl foo", "mov r0, r1", "add r1, r2"]));
    assert_eq!(find_return_after(&listing.instructions, 0), None);
    assert_eq!(find_return_after(&listing.instructions, 2), None);
    let scan = scan_call_preceded(&listing.instructions);
    assert!(scan.gadgets.is_empty());
    assert_eq!(scan.calls.branch_link, 1);
}

#[test]
fn call_window_is_ten_instructions() {
    let p = patterns();
    let mut at_ten: Vec<&str> = vec!["blx r3"];
    at_ten.extend(vec!["mov r0, r1"; 9]);
    at_ten.push("bx lr");
    let listing = parse_listing(&p, &lines(&at_ten));
    let scan = scan_call_preceded(&listing.instructions);
    assert_eq!(
        scan.gadgets,
        vec![Gadget {
            length: 9,
            origin: GadgetType::CallPreceeded,
            call_kind: Some(CallKind::BranchLinkExchange)
        }]
    );
    assert_eq!(scan.calls.branch_link_exchange, 1);

    let mut at_eleven: Vec<&str> = vec!["bl foo"];
    at_eleven.extend(vec!["mov r0, r1"; 10]);
    at_eleven.push("bx lr");
    let listing = parse_listing(&p, &lines(&at_eleven));
    assert!(scan_call_preceded(&listing.instructions).gadgets.is_empty());
}

#[test]
fn one_return_serves_several_calls() {
    let p = patterns();
    let listing = parse_listing(&p, &lines(&["bl a", "bl b", "pop {pc}"]));
    let lens: Vec<usize> = scan_call_preceded(&listing.instructions)
        .gadgets
        .iter()
        .map(|g| g.length)
        .collect();
    assert_eq!(lens, vec![1, 0]);
}

#[test]
fn objdump_listing_is_filtered_and_indexed() {
    let p = patterns();
    let listing = parse_listing(&p, &lines(&OBJDUMP));
    let idx: Vec<usize> = listing.instructions.iter().map(|i| i.sequence_index).collect();
    assert_eq!(idx, vec![0, 1, 2, 3]);
    assert_eq!(listing.instructions[0].raw_line, OBJDUMP[4]);
    assert_eq!(listing.instructions[3].raw_line, OBJDUMP[8]);
    assert_eq!(listing.instructions[2].function, "main");
    assert_eq!(listing.instructions[3].function, "helper");
    assert_eq!(listing.functions.len(), 2);
    assert_eq!(listing.functions[0].name, "main");
    assert_eq!(listing.functions[0].start_index, 0);
    assert_eq!(listing.functions[1].name, "helper");
    assert_eq!(listing.functions[1].start_index, 3);
}

#[test]
fn objdump_listing_gadgets() {
    let p = patterns();
    let a = analyze_listing(&p, &lines(&OBJDUMP));
    let stream: Vec<usize> = a.stream.iter().map(|g| g.length).collect();
    assert_eq!(stream, vec![2, 0]);
    let calls: Vec<usize> = a.calls.gadgets.iter().map(|g| g.length).collect();
    assert_eq!(calls, vec![0]);
    assert_eq!(a.return_report.tally.primary.pop_with_pc, 1);
    assert_eq!(a.return_report.tally.primary.branch_exchange_lr, 1);
    assert_eq!(a.return_report.tally.total, 2);
}

#[test]
fn noise_lines() {
    let p = patterns();
    for l in [
        "",
        "\r\n",
        "Disassembly of section .text:",
        "a.elf:     file format elf32-littlearm",
        "\t.word\t0x12345678",
        "\t.byte\t0x01",
        "\t...",
        "00008000 <main>:",
        "    8000:\t00 01 02 03\t",
        "    8000:\t12345678 9abcdef0",
        "    8000:\t12345678    ",
    ] {
        assert!(is_noise_line(&p, l), "{:?}", l);
    }
    assert!(!is_noise_line(&p, "    8000:\tb580      \tpush\t{r7, lr}"));
    assert!(!is_noise_line(&p, "pop {r4, pc}"));
}

#[test]
fn classify_each_form() {
    assert_eq!(classify_instruction("pop {r4, pc}"), InstrClass::Return(ReturnKind::PopWithPC));
    assert_eq!(
        classify_instruction("ldmia.w sp!, {r4, r5, pc}"),
        InstrClass::Return(ReturnKind::LoadMultipleWritebackPC)
    );
    assert_eq!(
        classify_instruction("ldr.w pc, [sp], #4"),
        InstrClass::Return(ReturnKind::LoadRegisterPCFromStack)
    );
    assert_eq!(
        classify_instruction("\tbx\tlr"),
        InstrClass::Return(ReturnKind::BranchExchangeLR)
    );
    assert_eq!(classify_instruction("\tbl\t8008 <f>"), InstrClass::Call(CallKind::BranchLink));
    assert_eq!(classify_instruction("blx r3"), InstrClass::Call(CallKind::BranchLinkExchange));
    assert_eq!(classify_instruction("bls 8000"), InstrClass::Other);
    assert_eq!(classify_instruction("push {r4, lr}"), InstrClass::Other);
    assert_eq!(classify_instruction("ldr r0, [sp]"), InstrClass::Other);
}

#[test]
fn totals_accumulate_over_binaries() {
    let p = patterns();
    let mut totals = AnalysisTotals::new(GadgetType::Regular);
    let a = analyze_listing(&p, &lines(&OBJDUMP));
    let b = analyze_listing(&p, &lines(&["mov r0, r1", "pop {r4, pc}", "bl x"]));
    assert!(totals.absorb(&a));
    assert!(totals.absorb(&b));
    assert_eq!(totals.instructions, 7);
    assert_eq!(totals.total_returns, 3);
    assert_eq!(totals.primary.pop_with_pc, 2);
    assert_eq!(totals.primary.branch_exchange_lr, 1);
    assert_eq!(totals.branch_link, 2);
    assert_eq!(totals.gadget_lengths, vec![2, 0, 1]);
    assert_eq!(totals.histogram(), vec![3, 2, 1, 0, 0, 0, 0, 0, 0, 0, 0]);
}

#[test]
fn call_totals_collect_call_gadgets() {
    let p = patterns();
    let mut totals = AnalysisTotals::new(GadgetType::CallPreceeded);
    let a = analyze_listing(&p, &lines(&OBJDUMP));
    assert!(totals.absorb(&a));
    assert_eq!(totals.gadget_lengths, vec![0]);
    assert_eq!(totals.histogram(), vec![1, 0, 0, 0, 0, 0, 0, 0, 0, 0, 0]);
}

#[test]
fn gadget_type_names() {
    assert_eq!(GadgetType::Regular.as_str(), "regular");
    assert_eq!(GadgetType::CallPreceeded.as_str(), "call-preceeded");
}

#[test]
fn build_listing_from_line_facts() {
    let src = lines(&["00008000 <main>:", "pop {r4, pc}", "\t00 01 02 03", "bx lr"]);
    let labels = vec![Some("main".to_string()), None, None, None];
    let noise = vec![true, false, true, false];
    let listing = build_listing(&src, &labels, &noise);
    assert_eq!(listing.instructions.len(), 2);
    assert_eq!(listing.instructions[0].raw_line, "pop {r4, pc}");
    assert_eq!(listing.instructions[1].sequence_index, 1);
    assert_eq!(listing.instructions[1].function, "main");
    assert_eq!(listing.functions.len(), 1);
    assert_eq!(listing.functions[0].start_index, 0);
}

#[test]
fn scenario_single_pop_return_from_facts() {
    let listing = build_listing(&lines(&["pop {r4, pc}"]), &vec![None], &vec![false]);
    let report = classify_returns(&listing.instructions);
    assert_eq!(report.events.len(), 1);
    assert_eq!(report.events[0].kind, ReturnKind::PopWithPC);
    assert!(!report.events[0].is_duplicate);
}

#[test]
fn totals_carry_symbols_and_sizes() {
    let mut totals = AnalysisTotals::new(GadgetType::Regular);
    assert!(totals.add_function_symbols(3));
    assert!(totals.add_function_symbols(4));
    assert_eq!(totals.function_symbols, 7);
    assert!(!totals.add_function_symbols(usize::MAX));
    assert_eq!(totals.function_symbols, 7);
    assert!(totals.add_text_size(0xabc));
    assert!(!totals.add_text_size(u64::MAX));
    assert_eq!(totals.text_size, 0xabc);
}
