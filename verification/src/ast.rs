//! The expression model: symbols, literals, operators and expression
//! nodes, together with the symbol-table discipline that issues them.

use vstd::prelude::*;

use crate::inst::{Inst, InstV, Operand, OperandV, Reg, slot};

verus! {

/// A symbolic name standing in for a value: either a fresh synthetic
/// variable with a table index, or a name derived from an architectural
/// register. Register symbols are not deduplicated: reading the same
/// register twice yields two distinct table entries.
#[derive(Clone)]
pub enum Symbol {
    Var(usize),
    Reg(String),
}

/// Mathematical image of a `Symbol`.
pub enum SymbolV {
    Var(int),
    Reg(Seq<char>),
}

impl View for Symbol {
    type V = SymbolV;

    open spec fn view(&self) -> SymbolV {
        match self {
            Symbol::Var(n) => SymbolV::Var(*n as int),
            Symbol::Reg(name) => SymbolV::Reg(name@),
        }
    }
}

/// The images of a whole symbol table.
pub open spec fn sym_views(s: Seq<Symbol>) -> Seq<SymbolV> {
    s.map_values(|x: Symbol| x@)
}

/// A literal leaf of the expression tree.
#[derive(Clone)]
pub enum Lit {
    StillUnknown,
    Symbol(Symbol),
    Bool(bool),
    U32(u32),
    I64(i64),
    Str(String),
}

/// Mathematical image of a `Lit`.
pub enum LitV {
    StillUnknown,
    Symbol(SymbolV),
    Bool(bool),
    U32(u32),
    I64(i64),
    Str(Seq<char>),
}

impl View for Lit {
    type V = LitV;

    open spec fn view(&self) -> LitV {
        match self {
            Lit::StillUnknown => LitV::StillUnknown,
            Lit::Symbol(s) => LitV::Symbol(s@),
            Lit::Bool(b) => LitV::Bool(*b),
            Lit::U32(v) => LitV::U32(*v),
            Lit::I64(v) => LitV::I64(*v),
            Lit::Str(s) => LitV::Str(s@),
        }
    }
}

/// The images of a whole shadow operand stack.
pub open spec fn lit_views(s: Seq<Lit>) -> Seq<LitV> {
    s.map_values(|x: Lit| x@)
}

impl Lit {
    /// A second literal with the same image, so that one resolved operand
    /// can stand on both sides of a read-modify-write assignment.
    pub fn duplicate(&self) -> (r: Lit)
        ensures
            r@ == self@,
    {
        match self {
            Lit::StillUnknown => Lit::StillUnknown,
            Lit::Symbol(Symbol::Var(n)) => Lit::Symbol(Symbol::Var(*n)),
            Lit::Symbol(Symbol::Reg(name)) => Lit::Symbol(Symbol::Reg(name.clone())),
            Lit::Bool(b) => Lit::Bool(*b),
            Lit::U32(v) => Lit::U32(*v),
            Lit::I64(v) => Lit::I64(*v),
            Lit::Str(s) => Lit::Str(s.clone()),
        }
    }
}

/// Binary operators the rule table can target.
#[derive(Clone, Copy, PartialEq, Eq, Structural, Debug)]
pub enum BinOpKind {
    Add,
    Sub,
    Mul,
    Div,
    Rem,
    And,
    Or,
    BitXor,
    BitAnd,
    BitOr,
    Shl,
    Shr,
    Eq,
    Lt,
    Le,
    Ne,
    Ge,
    Gt,
}

/// An expression node. Compound nodes own their children outright: the
/// model is a tree, never a graph.
pub enum ExprKind {
    Call(u64, Vec<Box<Expr>>),
    Binary(BinOpKind, Box<Expr>, Box<Expr>),
    Lit(Lit),
    Assign(Box<Expr>, Box<Expr>),
    Unparsed(Inst),
}

/// An expression with its node identifier.
pub struct Expr {
    pub id: u32,
    pub kind: ExprKind,
}

/// Mathematical image of an `ExprKind`.
pub enum ExprKindV {
    Call(u64, Seq<ExprV>),
    Binary(BinOpKind, Box<ExprV>, Box<ExprV>),
    Lit(LitV),
    Assign(Box<ExprV>, Box<ExprV>),
    Unparsed(InstV),
}

/// Mathematical image of an `Expr`.
pub struct ExprV {
    pub id: u32,
    pub kind: ExprKindV,
}

/// Image of one expression tree.
pub open spec fn expr_view(e: Expr) -> ExprV
    decreases e,
{
    ExprV {
        id: e.id,
        kind: match e.kind {
            ExprKind::Call(addr, args) => ExprKindV::Call(addr, exprs_view(args@)),
            ExprKind::Binary(op, l, r) => ExprKindV::Binary(
                op,
                Box::new(expr_view(*l)),
                Box::new(expr_view(*r)),
            ),
            ExprKind::Lit(l) => ExprKindV::Lit(l@),
            ExprKind::Assign(l, r) => ExprKindV::Assign(
                Box::new(expr_view(*l)),
                Box::new(expr_view(*r)),
            ),
            ExprKind::Unparsed(i) => ExprKindV::Unparsed(i@),
        },
    }
}

/// Images of a list of owned children.
pub open spec fn exprs_view(s: Seq<Box<Expr>>) -> Seq<ExprV>
    decreases s,
{
    if s.len() == 0 {
        Seq::empty()
    } else {
        seq![expr_view(*s[0])] + exprs_view(s.drop_first())
    }
}

impl View for Expr {
    type V = ExprV;

    open spec fn view(&self) -> ExprV {
        expr_view(*self)
    }
}

impl View for ExprKind {
    type V = ExprKindV;

    open spec fn view(&self) -> ExprKindV {
        expr_view(Expr { id: 0, kind: *self }).kind
    }
}

/// Appends and returns a fresh synthetic variable symbol whose index is
/// the table length at the moment of issue; indices are never reused.
pub fn get_new_var_symbol(symbols: &mut Vec<Symbol>) -> (sym: Symbol)
    ensures
        sym@ == SymbolV::Var(old(symbols)@.len() as int),
        final(symbols)@ == old(symbols)@.push(sym),
        sym_views(final(symbols)@) == sym_views(old(symbols)@).push(sym@),
{
    let idx = symbols.len();
    symbols.push(Symbol::Var(idx));
    proof {
        assert(sym_views(symbols@) =~= sym_views(old(symbols)@).push(Symbol::Var(idx)@));
    }
    Symbol::Var(idx)
}

/// Appends and returns a fresh register symbol carrying `reg`'s name; the
/// table does not deduplicate by register identity.
pub fn get_new_reg_symbol(symbols: &mut Vec<Symbol>, reg: &Reg) -> (sym: Symbol)
    ensures
        sym@ == SymbolV::Reg(reg.name@),
        sym_views(final(symbols)@) == sym_views(old(symbols)@).push(sym@),
{
    let sym = Symbol::Reg(get_register_name(reg));
    symbols.push(Symbol::Reg(get_register_name(reg)));
    proof {
        assert(sym_views(symbols@) =~= sym_views(old(symbols)@).push(sym@));
    }
    sym
}

/// The printable name of a register operand.
pub fn get_register_name(reg: &Reg) -> (name: String)
    ensures
        name@ == reg.name@,
{
    reg.name.clone()
}

/// The literal that operand slot `idx` of `i` resolves to when the symbol
/// table holds `n` entries: a fresh register symbol for a register, the
/// immediate value itself for a sign-extended immediate, and a fresh
/// synthetic variable for every other shape — the same resolution for
/// every slot.
pub open spec fn slot_lit(i: InstV, idx: int, n: int) -> LitV {
    match slot(i, idx) {
        OperandV::Reg(r) => LitV::Symbol(SymbolV::Reg(r.name)),
        OperandV::Imm(v) => LitV::I64(v),
        _ => LitV::Symbol(SymbolV::Var(n)),
    }
}

/// The symbols that resolving operand slot `idx` of `i` appends to a table
/// of `n` entries. An immediate appends nothing: no symbol stands in for
/// a value that is already known.
pub open spec fn slot_syms(i: InstV, idx: int, n: int) -> Seq<SymbolV> {
    match slot(i, idx) {
        OperandV::Reg(r) => seq![SymbolV::Reg(r.name)],
        OperandV::Imm(_) => Seq::empty(),
        _ => seq![SymbolV::Var(n)],
    }
}

/// Resolves operand slot `idx` of `inst` to a literal, issuing the symbols
/// `slot_syms` describes.
pub fn get_new_symbol_from_inst(symbols: &mut Vec<Symbol>, inst: &Inst, idx: usize) -> (lit: Lit)
    ensures
        lit@ == slot_lit(inst@, idx as int, old(symbols)@.len() as int),
        sym_views(final(symbols)@) == sym_views(old(symbols)@) + slot_syms(
            inst@,
            idx as int,
            old(symbols)@.len() as int,
        ),
{
    let op: &Operand = match idx {
        0 => &inst.op0,
        1 => &inst.op1,
        2 => &inst.op2,
        3 => &inst.op3,
        _ => &Operand::Other,
    };
    let lit: Lit = match op {
        Operand::Reg(r) => Lit::Symbol(get_new_reg_symbol(symbols, r)),
        Operand::Imm(v) => Lit::I64(*v),
        _ => Lit::Symbol(get_new_var_symbol(symbols)),
    };
    proof {
        assert(sym_views(final(symbols)@) =~= sym_views(old(symbols)@) + slot_syms(
            inst@,
            idx as int,
            old(symbols)@.len() as int,
        ));
    }
    lit
}

/// The table reached from `t` after `k` issuances by `get_new_var_symbol`.
pub open spec fn table_after_vars(t: Seq<SymbolV>, k: nat) -> Seq<SymbolV>
    decreases k,
{
    if k == 0 {
        t
    } else {
        table_after_vars(t, (k - 1) as nat).push(
            SymbolV::Var(table_after_vars(t, (k - 1) as nat).len() as int),
        )
    }
}

/// The index issued by the `k + 1`-th of those calls.
pub open spec fn issued_index(t: Seq<SymbolV>, k: nat) -> int {
    table_after_vars(t, k).len() as int
}

/// Each issuance grows the table by exactly one entry.
pub proof fn lemma_table_after_vars_len(t: Seq<SymbolV>, k: nat)
    ensures
        table_after_vars(t, k).len() == t.len() + k,
    decreases k,
{
    if k > 0 {
        lemma_table_after_vars_len(t, (k - 1) as nat);
    }
}

/// Law: over any run of `get_new_var_symbol` calls from any starting
/// table, the issued indices are strictly increasing, so no index is ever
/// issued twice.
pub proof fn lemma_var_indices_strictly_increase(t: Seq<SymbolV>, i: nat, j: nat)
    requires
        i < j,
    ensures
        issued_index(t, i) < issued_index(t, j),
{
    lemma_table_after_vars_len(t, i);
    lemma_table_after_vars_len(t, j);
}

/// Every variable symbol in a table built by the two issuance functions
/// carries exactly its own position as its index.
pub open spec fn var_indices_positional(t: Seq<SymbolV>) -> bool {
    forall|k: int| 0 <= k < t.len() ==> (#[trigger] t[k] matches SymbolV::Var(n) ==> n == k)
}

/// Issuing a variable or a register symbol preserves the positional
/// discipline: a variable lands at the index it carries, a register
/// symbol carries none.
pub proof fn lemma_issue_keeps_positions(t: Seq<SymbolV>, s: SymbolV)
    requires
        var_indices_positional(t),
        s matches SymbolV::Var(n) ==> n == t.len(),
    ensures
        var_indices_positional(t.push(s)),
{
    assert forall|k: int| 0 <= k < t.push(s).len() implies (#[trigger] t.push(s)[k] matches
        SymbolV::Var(n) ==> n == k) by {
        if k < t.len() {
            assert(t.push(s)[k] == t[k]);
        }
    }
}

/// Law: symbol indices never repeat. In a table that obeys the
/// positional discipline — as any table built by the issuance functions
/// does — the next variable to be issued differs from every symbol the
/// table already holds.
pub proof fn lemma_fresh_var_never_repeats(t: Seq<SymbolV>)
    requires
        var_indices_positional(t),
    ensures
        !t.contains(SymbolV::Var(t.len() as int)),
{
    if t.contains(SymbolV::Var(t.len() as int)) {
        let k = choose|k: int| 0 <= k < t.len() && t[k] == SymbolV::Var(t.len() as int);
        assert(t[k] matches SymbolV::Var(n) && n == t.len());
    }
}

} // verus!
