//! The instruction lifter: a fixed rule table keyed by opcode discriminant
//! maps one decoded instruction, a shadow operand stack and the symbol
//! table to at most one expression.

use vstd::prelude::*;

use crate::ast::{
    BinOpKind, Expr, ExprKind, ExprKindV, ExprV, Lit, LitV, Symbol, SymbolV, exprs_view,
    get_new_symbol_from_inst, lit_views, slot_lit, slot_syms, sym_views,
};
use crate::errors::AnalysisError;
use crate::inst::{Inst, InstV, Opcode, Operand, OperandV, RegV};

verus! {

/// An expression tree that is just one literal.
pub open spec fn lit_expr(l: LitV) -> ExprV {
    ExprV { id: 0, kind: ExprKindV::Lit(l) }
}

/// The register-clear idiom: a bitwise-xor whose two operands are the same
/// register.
pub open spec fn is_reg_clear(i: InstV) -> bool {
    &&& i.op0 matches OperandV::Reg(r0)
    &&& i.op1 matches OperandV::Reg(r1)
    &&& r0.id == r1.id
}

/// The symbol-table length after resolving operand slot 0 of `i` from a
/// table of `n` entries.
pub open spec fn after_slot0(i: InstV, n: int) -> int {
    n + slot_syms(i, 0, n).len()
}

/// The rule table: what lifting `i` against a symbol table of `n` entries
/// produces. `None` is the unsupported-operand failure; an instruction no
/// rule matches is preserved opaquely as an `Unparsed` node.
pub open spec fn lift_result(i: InstV, n: int) -> Option<ExprV> {
    match i.opcode {
        Opcode::PushR64 => Some(lit_expr(LitV::StillUnknown)),
        Opcode::CallRm64 => match i.op0 {
            OperandV::Mem(d) => Some(ExprV { id: 0, kind: ExprKindV::Call(d, Seq::empty()) }),
            _ => None,
        },
        Opcode::XorRm32R32 => if is_reg_clear(i) {
            Some(ExprV {
                id: 0,
                kind: ExprKindV::Assign(
                    Box::new(lit_expr(slot_lit(i, 0, n))),
                    Box::new(lit_expr(LitV::U32(0))),
                ),
            })
        } else {
            Some(ExprV {
                id: 0,
                kind: ExprKindV::Binary(
                    BinOpKind::BitXor,
                    Box::new(lit_expr(slot_lit(i, 0, n))),
                    Box::new(lit_expr(slot_lit(i, 1, after_slot0(i, n)))),
                ),
            })
        },
        Opcode::MovRm64R64 => Some(ExprV {
            id: 0,
            kind: ExprKindV::Assign(
                Box::new(lit_expr(slot_lit(i, 0, n))),
                Box::new(lit_expr(slot_lit(i, 1, after_slot0(i, n)))),
            ),
        }),
        Opcode::AndRm64Imm8 => Some(ExprV {
            id: 0,
            kind: ExprKindV::Assign(
                Box::new(lit_expr(slot_lit(i, 0, n))),
                Box::new(ExprV {
                    id: 0,
                    kind: ExprKindV::Binary(
                        BinOpKind::And,
                        Box::new(lit_expr(slot_lit(i, 0, n))),
                        Box::new(lit_expr(slot_lit(i, 1, after_slot0(i, n)))),
                    ),
                }),
            ),
        }),
        _ => Some(ExprV { id: 0, kind: ExprKindV::Unparsed(i) }),
    }
}

/// The symbols that lifting `i` appends to a table of `n` entries.
pub open spec fn lift_new_syms(i: InstV, n: int) -> Seq<SymbolV> {
    match i.opcode {
        Opcode::PushR64 => slot_syms(i, 0, n),
        Opcode::CallRm64 => Seq::empty(),
        Opcode::XorRm32R32 => if is_reg_clear(i) {
            slot_syms(i, 0, n)
        } else {
            slot_syms(i, 0, n) + slot_syms(i, 1, after_slot0(i, n))
        },
        Opcode::MovRm64R64 => slot_syms(i, 0, n) + slot_syms(i, 1, after_slot0(i, n)),
        Opcode::AndRm64Imm8 => slot_syms(i, 0, n) + slot_syms(i, 1, after_slot0(i, n)),
        _ => Seq::empty(),
    }
}

/// The literals that lifting `i` pushes onto the shadow operand stack.
pub open spec fn lift_stack_push(i: InstV, n: int) -> Seq<LitV> {
    match i.opcode {
        Opcode::PushR64 => seq![slot_lit(i, 0, n)],
        _ => Seq::empty(),
    }
}

/// An expression node that is just one literal.
fn lit_node(l: Lit) -> (e: Expr)
    ensures
        e@ == lit_expr(l@),
{
    Expr { id: 0, kind: ExprKind::Lit(l) }
}


/// Whether the rule table has a rule for this opcode.
pub open spec fn has_rule(op: Opcode) -> bool {
    ||| op == Opcode::PushR64
    ||| op == Opcode::CallRm64
    ||| op == Opcode::XorRm32R32
    ||| op == Opcode::MovRm64R64
    ||| op == Opcode::AndRm64Imm8
}

/// Law: an instruction no rule matches lifts to an `Unparsed` node that
/// wraps exactly the input instruction — opcode and all four operand
/// slots recoverable unchanged — and issues no symbol and pushes nothing
/// onto the shadow operand stack.
pub proof fn lemma_no_rule_preserves_instruction(i: InstV, n: int)
    requires
        !has_rule(i.opcode),
    ensures
        lift_result(i, n) == Some(ExprV { id: 0, kind: ExprKindV::Unparsed(i) }),
        lift_new_syms(i, n) == Seq::<SymbolV>::empty(),
        lift_stack_push(i, n) == Seq::<LitV>::empty(),
{
}

/// Law: the register-clear idiom. A bitwise-xor whose two operands are
/// the same register lifts to an assignment of literal zero to that
/// register's symbol — never the generic binary form — whatever the
/// register is, and issues exactly one symbol for it.
pub proof fn lemma_register_clear_idiom(i: InstV, n: int, r: RegV)
    requires
        i.opcode == Opcode::XorRm32R32,
        i.op0 == OperandV::Reg(r),
        i.op1 == OperandV::Reg(r),
    ensures
        lift_result(i, n) == Some(
            ExprV {
                id: 0,
                kind: ExprKindV::Assign(
                    Box::new(lit_expr(LitV::Symbol(SymbolV::Reg(r.name)))),
                    Box::new(lit_expr(LitV::U32(0))),
                ),
            },
        ),
        lift_new_syms(i, n) == seq![SymbolV::Reg(r.name)],
{
}

/// Law: a bitwise-xor of two distinct registers lifts to the generic
/// binary form over one fresh symbol per register, appending exactly two
/// distinct entries to the symbol table.
pub proof fn lemma_generic_xor_two_symbols(i: InstV, n: int, r0: RegV, r1: RegV)
    requires
        i.opcode == Opcode::XorRm32R32,
        i.op0 == OperandV::Reg(r0),
        i.op1 == OperandV::Reg(r1),
        r0.id != r1.id,
    ensures
        lift_result(i, n) == Some(
            ExprV {
                id: 0,
                kind: ExprKindV::Binary(
                    BinOpKind::BitXor,
                    Box::new(lit_expr(LitV::Symbol(SymbolV::Reg(r0.name)))),
                    Box::new(lit_expr(LitV::Symbol(SymbolV::Reg(r1.name)))),
                ),
            },
        ),
        lift_new_syms(i, n) == seq![SymbolV::Reg(r0.name), SymbolV::Reg(r1.name)],
        lift_new_syms(i, n).len() == 2,
{
    assert(lift_new_syms(i, n) =~= seq![SymbolV::Reg(r0.name), SymbolV::Reg(r1.name)]);
}

/// Law: the and-with-immediate rule resolves its destination operand
/// once — at most one symbol issued for it, exactly one when it is a
/// register — and that single literal stands on both sides of the
/// produced read-modify-write assignment.
pub proof fn lemma_and_reuses_destination(i: InstV, n: int)
    requires
        i.opcode == Opcode::AndRm64Imm8,
    ensures
        lift_result(i, n) matches Some(e) && ({
            &&& e.kind matches ExprKindV::Assign(l, rhs)
            &&& *l == lit_expr(slot_lit(i, 0, n))
            &&& rhs.kind matches ExprKindV::Binary(op, bl, _br) && op == BinOpKind::And && *bl
                == lit_expr(slot_lit(i, 0, n))
        }),
        lift_new_syms(i, n) == slot_syms(i, 0, n) + slot_syms(i, 1, after_slot0(i, n)),
        slot_syms(i, 0, n).len() <= 1,
        i.op0 is Reg ==> slot_syms(i, 0, n).len() == 1,
{
}

/// Lifts one decoded instruction. Dispatches on the opcode to the fixed
/// rule table; an unsupported operand shape under a matched rule is the
/// one failure, and an instruction no rule matches is wrapped verbatim in
/// an `Unparsed` node.
pub fn to_expression(current_stack: &mut Vec<Lit>, symbols: &mut Vec<Symbol>, inst: Inst) -> (r:
    Result<Expr, AnalysisError>)
    ensures
        match lift_result(inst@, old(symbols)@.len() as int) {
            Some(e) => r matches Ok(ex) && ex@ == e,
            None => r matches Err(err) && err == AnalysisError::UnsupportedOperand,
        },
        sym_views(final(symbols)@) == sym_views(old(symbols)@) + lift_new_syms(
            inst@,
            old(symbols)@.len() as int,
        ),
        lit_views(final(current_stack)@) == lit_views(old(current_stack)@) + lift_stack_push(
            inst@,
            old(symbols)@.len() as int,
        ),
{
    proof {
        reveal_with_fuel(crate::ast::expr_view, 3);
        assert(lit_views(old(current_stack)@) =~= lit_views(old(current_stack)@) + Seq::empty());
        assert(sym_views(old(symbols)@) =~= sym_views(old(symbols)@) + Seq::empty());
    }
    match inst.opcode {
        Opcode::PushR64 => {
            let pushed = get_new_symbol_from_inst(symbols, &inst, 0);
            current_stack.push(pushed);
            proof {
                assert(lit_views(current_stack@) =~= lit_views(old(current_stack)@)
                    + lift_stack_push(inst@, old(symbols)@.len() as int));
            }
            Ok(lit_node(Lit::StillUnknown))
        },
        Opcode::CallRm64 => {
            match &inst.op0 {
                Operand::Mem(d) => {
                    let args: Vec<Box<Expr>> = Vec::new();
                    proof {
                        assert(exprs_view(args@) =~= Seq::<ExprV>::empty());
                    }
                    Ok(Expr { id: 0, kind: ExprKind::Call(*d, args) })
                },
                _ => Err(AnalysisError::UnsupportedOperand),
            }
        },
        Opcode::XorRm32R32 => {
            let clear = match (&inst.op0, &inst.op1) {
                (Operand::Reg(r0), Operand::Reg(r1)) => r0.id == r1.id,
                _ => false,
            };
            if clear {
                let dst = get_new_symbol_from_inst(symbols, &inst, 0);
                Ok(Expr {
                    id: 0,
                    kind: ExprKind::Assign(
                        Box::new(lit_node(dst)),
                        Box::new(lit_node(Lit::U32(0))),
                    ),
                })
            } else {
                let lhs = get_new_symbol_from_inst(symbols, &inst, 0);
                let rhs = get_new_symbol_from_inst(symbols, &inst, 1);
                proof {
                    assert(sym_views(symbols@) =~= sym_views(old(symbols)@)
                        + lift_new_syms(inst@, old(symbols)@.len() as int));
                }
                Ok(Expr {
                    id: 0,
                    kind: ExprKind::Binary(
                        BinOpKind::BitXor,
                        Box::new(lit_node(lhs)),
                        Box::new(lit_node(rhs)),
                    ),
                })
            }
        },
        Opcode::MovRm64R64 => {
            let lhs = get_new_symbol_from_inst(symbols, &inst, 0);
            let rhs = get_new_symbol_from_inst(symbols, &inst, 1);
            proof {
                assert(sym_views(symbols@) =~= sym_views(old(symbols)@) + lift_new_syms(
                    inst@,
                    old(symbols)@.len() as int,
                ));
            }
            Ok(Expr {
                id: 0,
                kind: ExprKind::Assign(
                    Box::new(lit_node(lhs)),
                    Box::new(lit_node(rhs)),
                ),
            })
        },
        Opcode::AndRm64Imm8 => {
            let dst = get_new_symbol_from_inst(symbols, &inst, 0);
            let src = get_new_symbol_from_inst(symbols, &inst, 1);
            proof {
                assert(sym_views(symbols@) =~= sym_views(old(symbols)@) + lift_new_syms(
                    inst@,
                    old(symbols)@.len() as int,
                ));
            }
            Ok(Expr {
                id: 0,
                kind: ExprKind::Assign(
                    Box::new(lit_node(dst.duplicate())),
                    Box::new(Expr {
                        id: 0,
                        kind: ExprKind::Binary(
                            BinOpKind::And,
                            Box::new(lit_node(dst)),
                            Box::new(lit_node(src)),
                        ),
                    }),
                ),
            })
        },
        _ => Ok(Expr { id: 0, kind: ExprKind::Unparsed(inst) }),
    }
}

} // verus!
