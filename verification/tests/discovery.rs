use lifter::ast::{ExprKind, Symbol};
use lifter::errors::AnalysisError;
use lifter::inst::Opcode;
use lifter::memory::{Memory, Section};
use lifter::worklist::{discover_functions, lift_function};

fn memory_with(start: u64, block: Vec<u8>) -> Memory {
    let mut mem = Memory::new();
    assert!(mem.insert_section(Section { name: ".text".to_string(), start, block }));
    mem
}

#[test]
fn xor_then_halt_end_to_end() {
    // xor %ebp,%ebp ; hlt
    let mem = memory_with(0x1040, vec![0x31, 0xED, 0xF4]);
    let mut symbols: Vec<Symbol> = Vec::new();
    let (exprs, targets) = lift_function(&mem, 0x1040, &mut symbols).expect("the pass succeeds");
    assert_eq!(exprs.len(), 2);
    assert_eq!(exprs[0].render(), "@EBP = 0x0");
    match &exprs[1].kind {
        ExprKind::Unparsed(i) => assert!(matches!(i.opcode, Opcode::Hlt)),
        _ => panic!("the halt stays opaque and ends the decode"),
    }
    assert!(targets.is_empty());
    assert_eq!(symbols.len(), 1);
    assert_eq!(symbols[0].render(), "@EBP");
}

#[test]
fn decode_stops_at_return() {
    // mov %rdx,%r9 ; ret ; hlt
    let mem = memory_with(0x2000, vec![0x49, 0x89, 0xD1, 0xC3, 0xF4]);
    let mut symbols: Vec<Symbol> = Vec::new();
    let (exprs, _targets) = lift_function(&mem, 0x2000, &mut symbols).expect("the pass succeeds");
    // The move, then the opaque return; the halt after the return is
    // never decoded.
    assert_eq!(exprs.len(), 2);
    assert_eq!(exprs[0].render(), "@R9 = @RDX");
    match &exprs[1].kind {
        ExprKind::Unparsed(i) => assert!(matches!(i.opcode, Opcode::Retnq)),
        _ => panic!("the return stays opaque"),
    }
}

#[test]
fn unmapped_entry_is_reported() {
    let mem = Memory::new();
    let mut symbols: Vec<Symbol> = Vec::new();
    let r = lift_function(&mem, 0x1161, &mut symbols);
    assert!(matches!(r, Err(AnalysisError::UnmappedAddress)));
}

#[test]
fn self_calling_entry_visited_once() {
    // call *-6(%rip)  -> resolves to 0x1161 itself ; ret
    let mem = memory_with(0x1161, vec![0xFF, 0x15, 0xFA, 0xFF, 0xFF, 0xFF, 0xC3]);
    let mut symbols: Vec<Symbol> = Vec::new();
    let entries = vec![0x1161];
    let result = discover_functions(&mem, &entries, &mut symbols);
    assert_eq!(result.len(), 1);
    assert_eq!(result[0].addr, 0x1161);
    let (exprs, targets) = result[0].body.as_ref().expect("the pass succeeds");
    assert_eq!(exprs[0].render(), "FUN_1161()");
    assert_eq!(targets, &vec![0x1161]);
}

#[test]
fn discovered_call_target_is_decoded() {
    // At 0x1000: call *0x0FA(%rip) with displacement resolving to 0x1100 ; ret
    // next ip = 0x1006, disp32 = 0x1100 - 0x1006 = 0xFA.
    let mut mem = Memory::new();
    assert!(mem.insert_section(Section {
        name: "a".to_string(),
        start: 0x1000,
        block: vec![0xFF, 0x15, 0xFA, 0x00, 0x00, 0x00, 0xC3],
    }));
    assert!(mem.insert_section(Section {
        name: "b".to_string(),
        start: 0x1100,
        block: vec![0xF4],
    }));
    let mut symbols: Vec<Symbol> = Vec::new();
    let entries = vec![0x1000];
    let result = discover_functions(&mem, &entries, &mut symbols);
    assert_eq!(result.len(), 2);
    assert_eq!(result[0].addr, 0x1000);
    assert_eq!(result[1].addr, 0x1100);
    let (exprs_b, _) = result[1].body.as_ref().expect("the target decodes");
    match &exprs_b[0].kind {
        ExprKind::Unparsed(i) => assert!(matches!(i.opcode, Opcode::Hlt)),
        _ => panic!("the target's halt stays opaque"),
    }
}

#[test]
fn duplicate_seeds_decoded_once() {
    let mem = memory_with(0x1040, vec![0x31, 0xED, 0xF4]);
    let mut symbols: Vec<Symbol> = Vec::new();
    let entries = vec![0x1040, 0x1040, 0x1040];
    let result = discover_functions(&mem, &entries, &mut symbols);
    assert_eq!(result.len(), 1);
    assert_eq!(result[0].addr, 0x1040);
}

#[test]
fn start_stub_sequence() {
    // xor %ebp,%ebp ; mov %rdx,%r9 ; and $-16,%rsp ; push %rax ; hlt
    let mem = memory_with(
        0x1040,
        vec![0x31, 0xED, 0x49, 0x89, 0xD1, 0x48, 0x83, 0xE4, 0xF0, 0x50, 0xF4],
    );
    let mut symbols: Vec<Symbol> = Vec::new();
    let (exprs, _) = lift_function(&mem, 0x1040, &mut symbols).expect("the pass succeeds");
    assert_eq!(exprs.len(), 5);
    assert_eq!(exprs[0].render(), "@EBP = 0x0");
    assert_eq!(exprs[1].render(), "@R9 = @RDX");
    assert_eq!(exprs[2].render(), "@RSP = @RSP & 0xFFFFFFFFFFFFFFF0");
    assert_eq!(exprs[3].render(), "UNK");
    assert_eq!(symbols.len(), 5);
}
