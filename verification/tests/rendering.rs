use lifter::ast::{BinOpKind, Expr, ExprKind, Lit, Symbol};
use lifter::inst::{Inst, Opcode, Operand, Reg};

fn lit_expr(l: Lit) -> Box<Expr> {
    Box::new(Expr { id: 0, kind: ExprKind::Lit(l) })
}

#[test]
fn symbols_render_with_markers() {
    assert_eq!(Symbol::Var(0).render(), "#0");
    assert_eq!(Symbol::Var(12345).render(), "#12345");
    assert_eq!(Symbol::Reg("EBP".to_string()).render(), "@EBP");
    assert_eq!(Symbol::Reg("r8d".to_string()).render(), "@R8D");
}

#[test]
fn literals_render_like_the_trace_format() {
    assert_eq!(Lit::StillUnknown.render(), "UNK");
    assert_eq!(Lit::Bool(true).render(), "true");
    assert_eq!(Lit::Bool(false).render(), "false");
    assert_eq!(Lit::U32(0).render(), "0x0");
    assert_eq!(Lit::U32(0x1A2B).render(), "0x1A2B");
    assert_eq!(Lit::I64(255).render(), "0xFF");
    assert_eq!(Lit::I64(-1).render(), "0xFFFFFFFFFFFFFFFF");
    assert_eq!(Lit::I64(i64::MIN).render(), "0x8000000000000000");
    assert_eq!(Lit::Str("hi".to_string()).render(), "hi");
}

#[test]
fn operators_render_as_in_the_table() {
    assert_eq!(BinOpKind::Add.render(), "+");
    assert_eq!(BinOpKind::BitXor.render(), "^");
    assert_eq!(BinOpKind::And.render(), "&");
    assert_eq!(BinOpKind::BitAnd.render(), "bit&");
    assert_eq!(BinOpKind::BitOr.render(), "bit|");
    assert_eq!(BinOpKind::Shl.render(), "<<");
    assert_eq!(BinOpKind::Ne.render(), "!=");
    assert_eq!(BinOpKind::Ge.render(), ">=");
}

#[test]
fn compound_expressions_render_recursively() {
    let bin = Expr {
        id: 0,
        kind: ExprKind::Binary(
            BinOpKind::BitXor,
            lit_expr(Lit::Symbol(Symbol::Reg("R8D".to_string()))),
            lit_expr(Lit::Symbol(Symbol::Reg("ECX".to_string()))),
        ),
    };
    assert_eq!(bin.render(), "@R8D ^ @ECX");
    let assign = Expr {
        id: 0,
        kind: ExprKind::Assign(lit_expr(Lit::Symbol(Symbol::Var(3))), Box::new(bin)),
    };
    assert_eq!(assign.render(), "#3 = @R8D ^ @ECX");
    let call = Expr { id: 7, kind: ExprKind::Call(0x3FC0, Vec::new()) };
    assert_eq!(call.render(), "FUN_3FC0()");
}

#[test]
fn opaque_instructions_render_their_operands() {
    let i = Inst {
        opcode: Opcode::Other(99),
        mnemonic: "Aadd_m32_r32".to_string(),
        len: 6,
        op0: Operand::Mem(0x4050),
        op1: Operand::Reg(Reg { id: 53, name: "EBX".to_string() }),
        op2: Operand::Imm(-5),
        op3: Operand::Other,
    };
    let e = Expr { id: 0, kind: ExprKind::Unparsed(i) };
    assert_eq!(e.render(), "Aadd_m32_r32 0x4050 EBX -5");
}

#[test]
fn absent_register_operand_renders_nothing() {
    let i = Inst {
        opcode: Opcode::Other(99),
        mnemonic: "Nopq".to_string(),
        len: 1,
        op0: Operand::Reg(Reg { id: 0, name: "None".to_string() }),
        op1: Operand::Other,
        op2: Operand::Other,
        op3: Operand::Other,
    };
    let kind_render = i.mnemonic.clone();
    let e = Expr { id: 0, kind: ExprKind::Unparsed(i) };
    assert_eq!(e.render(), kind_render);
}

#[test]
fn expr_kind_renders_like_expr() {
    let k = ExprKind::Lit(Lit::Symbol(Symbol::Var(4)));
    assert_eq!(k.render(), "#4");
}
