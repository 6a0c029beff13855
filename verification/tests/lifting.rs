use lifter::ast::{ExprKind, Lit, Symbol, get_new_symbol_from_inst, get_new_var_symbol};
use lifter::errors::AnalysisError;
use lifter::inst::{Inst, Opcode, Operand, Reg};
use lifter::parser::to_expression;

fn reg(id: u32, name: &str) -> Operand {
    Operand::Reg(Reg { id, name: name.to_string() })
}

fn two_op_inst(opcode: Opcode, mnemonic: &str, op0: Operand, op1: Operand) -> Inst {
    Inst {
        opcode,
        mnemonic: mnemonic.to_string(),
        len: 2,
        op0,
        op1,
        op2: Operand::Other,
        op3: Operand::Other,
    }
}

#[test]
fn unparsed_round_trip() {
    let mut stack: Vec<Lit> = Vec::new();
    let mut symbols: Vec<Symbol> = Vec::new();
    let i = Inst {
        opcode: Opcode::Other(4242),
        mnemonic: "Aadd_m32_r32".to_string(),
        len: 4,
        op0: Operand::Mem(0x2000),
        op1: reg(53, "EBX"),
        op2: Operand::Imm(-7),
        op3: Operand::Other,
    };
    let e = to_expression(&mut stack, &mut symbols, i).unwrap();
    match e.kind {
        ExprKind::Unparsed(raw) => {
            assert!(matches!(raw.opcode, Opcode::Other(4242)));
            assert_eq!(raw.len, 4);
            assert_eq!(raw.mnemonic, "Aadd_m32_r32");
            assert!(matches!(raw.op0, Operand::Mem(0x2000)));
            match &raw.op1 {
                Operand::Reg(r) => {
                    assert_eq!(r.id, 53);
                    assert_eq!(r.name, "EBX");
                },
                _ => panic!("operand 1 lost its register"),
            }
            assert!(matches!(raw.op2, Operand::Imm(-7)));
            assert!(matches!(raw.op3, Operand::Other));
        },
        _ => panic!("an instruction without a rule must stay opaque"),
    }
    assert!(stack.is_empty());
    assert!(symbols.is_empty());
}

#[test]
fn terminators_have_no_rule() {
    let mut stack: Vec<Lit> = Vec::new();
    let mut symbols: Vec<Symbol> = Vec::new();
    let ret = two_op_inst(Opcode::Retnq, "Retnq", Operand::Other, Operand::Other);
    let e = to_expression(&mut stack, &mut symbols, ret).unwrap();
    assert!(matches!(e.kind, ExprKind::Unparsed(_)));
    let hlt = two_op_inst(Opcode::Hlt, "Hlt", Operand::Other, Operand::Other);
    let e2 = to_expression(&mut stack, &mut symbols, hlt).unwrap();
    assert!(matches!(e2.kind, ExprKind::Unparsed(_)));
    assert!(symbols.is_empty());
}

#[test]
fn register_clear_idiom() {
    let mut stack: Vec<Lit> = Vec::new();
    let mut symbols: Vec<Symbol> = Vec::new();
    let i = two_op_inst(Opcode::XorRm32R32, "Xor_rm32_r32", reg(21, "EBP"), reg(21, "EBP"));
    let e = to_expression(&mut stack, &mut symbols, i).unwrap();
    assert_eq!(e.render(), "@EBP = 0x0");
    assert!(matches!(e.kind, ExprKind::Assign(_, _)));
    assert_eq!(symbols.len(), 1);
    assert_eq!(symbols[0].render(), "@EBP");
    assert!(stack.is_empty());
}

#[test]
fn register_clear_idiom_any_register() {
    let mut stack: Vec<Lit> = Vec::new();
    let mut symbols: Vec<Symbol> = Vec::new();
    let i = two_op_inst(Opcode::XorRm32R32, "Xor_rm32_r32", reg(41, "R8D"), reg(41, "R8D"));
    let e = to_expression(&mut stack, &mut symbols, i).unwrap();
    assert_eq!(e.render(), "@R8D = 0x0");
}

#[test]
fn generic_xor_two_distinct_entries() {
    let mut stack: Vec<Lit> = Vec::new();
    let mut symbols: Vec<Symbol> = Vec::new();
    let i = two_op_inst(Opcode::XorRm32R32, "Xor_rm32_r32", reg(41, "R8D"), reg(17, "ECX"));
    let e = to_expression(&mut stack, &mut symbols, i).unwrap();
    assert_eq!(e.render(), "@R8D ^ @ECX");
    assert!(matches!(e.kind, ExprKind::Binary(_, _, _)));
    assert_eq!(symbols.len(), 2);
    assert_eq!(symbols[0].render(), "@R8D");
    assert_eq!(symbols[1].render(), "@ECX");
}

#[test]
fn mov_assigns_fresh_symbols() {
    let mut stack: Vec<Lit> = Vec::new();
    let mut symbols: Vec<Symbol> = Vec::new();
    let i = two_op_inst(Opcode::MovRm64R64, "Mov_rm64_r64", reg(51, "RDX"), reg(58, "R9"));
    let e = to_expression(&mut stack, &mut symbols, i).unwrap();
    assert_eq!(e.render(), "@RDX = @R9");
    assert_eq!(symbols.len(), 2);
}

#[test]
fn and_with_immediate_reuses_destination() {
    let mut stack: Vec<Lit> = Vec::new();
    let mut symbols: Vec<Symbol> = Vec::new();
    let i = two_op_inst(Opcode::AndRm64Imm8, "And_rm64_imm8", reg(52, "RSP"), Operand::Imm(-16));
    let e = to_expression(&mut stack, &mut symbols, i).unwrap();
    assert_eq!(e.render(), "@RSP = @RSP & 0xFFFFFFFFFFFFFFF0");
    // One destination symbol serves both sides: only one table entry was
    // issued for the register, none for the immediate.
    assert_eq!(symbols.len(), 1);
    assert_eq!(symbols[0].render(), "@RSP");
    match e.kind {
        ExprKind::Assign(lhs, rhs) => {
            let left = lhs.render();
            match rhs.kind {
                ExprKind::Binary(_, inner_lhs, _) => assert_eq!(left, inner_lhs.render()),
                _ => panic!("the assigned value must be the conjunction"),
            }
        },
        _ => panic!("the rule must produce an assignment"),
    }
}

#[test]
fn push_feeds_the_shadow_stack() {
    let mut stack: Vec<Lit> = Vec::new();
    let mut symbols: Vec<Symbol> = Vec::new();
    let i = two_op_inst(Opcode::PushR64, "Push_r64", reg(35, "RAX"), Operand::Other);
    let e = to_expression(&mut stack, &mut symbols, i).unwrap();
    assert_eq!(e.render(), "UNK");
    assert_eq!(stack.len(), 1);
    assert_eq!(stack[0].render(), "@RAX");
    assert_eq!(symbols.len(), 1);
}

#[test]
fn indirect_call_through_memory() {
    let mut stack: Vec<Lit> = Vec::new();
    let mut symbols: Vec<Symbol> = Vec::new();
    let i = two_op_inst(Opcode::CallRm64, "Call_rm64", Operand::Mem(0x3FC0), Operand::Other);
    let e = to_expression(&mut stack, &mut symbols, i).unwrap();
    assert_eq!(e.render(), "FUN_3FC0()");
    assert!(symbols.is_empty());
}

#[test]
fn indirect_call_through_register_is_unsupported() {
    let mut stack: Vec<Lit> = Vec::new();
    let mut symbols: Vec<Symbol> = Vec::new();
    let i = two_op_inst(Opcode::CallRm64, "Call_rm64", reg(35, "RAX"), Operand::Other);
    let r = to_expression(&mut stack, &mut symbols, i);
    assert!(matches!(r, Err(AnalysisError::UnsupportedOperand)));
    assert!(symbols.is_empty());
    assert!(stack.is_empty());
}

#[test]
fn new_variable_indices_strictly_increase() {
    let mut symbols: Vec<Symbol> = Vec::new();
    let mut last: Option<usize> = None;
    for _ in 0..5 {
        let s = get_new_var_symbol(&mut symbols);
        match s {
            Symbol::Var(n) => {
                if let Some(prev) = last {
                    assert!(n > prev);
                }
                last = Some(n);
            },
            _ => panic!("a fresh variable must be synthetic"),
        }
    }
    assert_eq!(symbols.len(), 5);
    // A register issuance in between still advances the index.
    let i = two_op_inst(Opcode::PushR64, "Push_r64", reg(35, "RAX"), Operand::Other);
    let _ = get_new_symbol_from_inst(&mut symbols, &i, 0);
    let s = get_new_var_symbol(&mut symbols);
    assert!(matches!(s, Symbol::Var(6)));
}

#[test]
fn operand_resolution_by_slot() {
    let mut symbols: Vec<Symbol> = Vec::new();
    let i = Inst {
        opcode: Opcode::Other(7),
        mnemonic: "Nopw".to_string(),
        len: 2,
        op0: Operand::Imm(-1),
        op1: Operand::Mem(0x10),
        op2: reg(1, "AL"),
        op3: Operand::Imm(9),
    };
    // An 8-to-64-bit immediate resolves to the value itself, whatever
    // the slot, and issues no symbol.
    let l0 = get_new_symbol_from_inst(&mut symbols, &i, 0);
    assert!(matches!(l0, Lit::I64(-1)));
    assert!(symbols.is_empty());
    // A memory operand falls back to a fresh synthetic variable.
    let l1 = get_new_symbol_from_inst(&mut symbols, &i, 1);
    assert_eq!(l1.render(), "#0");
    // A register resolves to a fresh register symbol.
    let l2 = get_new_symbol_from_inst(&mut symbols, &i, 2);
    assert_eq!(l2.render(), "@AL");
    // The immediate rule holds in the last slot as well.
    let l3 = get_new_symbol_from_inst(&mut symbols, &i, 3);
    assert!(matches!(l3, Lit::I64(9)));
    // Past the last slot: a fresh synthetic variable again.
    let l4 = get_new_symbol_from_inst(&mut symbols, &i, 4);
    assert_eq!(l4.render(), "#2");
    assert_eq!(symbols.len(), 3);
}
