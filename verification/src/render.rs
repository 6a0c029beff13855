//! Textual rendering of symbols, literals, operators and expression
//! trees, used for tracing and testing. Each renderer is specified
//! against a character-sequence model of its output.

use vstd::prelude::*;

use crate::ast::{BinOpKind, Expr, ExprKind, ExprKindV, ExprV, Lit, LitV, Symbol, SymbolV};
use crate::inst::{InstV, OperandV};

verus! {

/// The digit character for one value below sixteen.
pub open spec fn digit_char(d: int) -> char {
    if d == 0 {
        '0'
    } else if d == 1 {
        '1'
    } else if d == 2 {
        '2'
    } else if d == 3 {
        '3'
    } else if d == 4 {
        '4'
    } else if d == 5 {
        '5'
    } else if d == 6 {
        '6'
    } else if d == 7 {
        '7'
    } else if d == 8 {
        '8'
    } else if d == 9 {
        '9'
    } else if d == 10 {
        'A'
    } else if d == 11 {
        'B'
    } else if d == 12 {
        'C'
    } else if d == 13 {
        'D'
    } else if d == 14 {
        'E'
    } else {
        'F'
    }
}

/// Decimal digits of a number, most significant first; a number below
/// one renders as a single zero digit.
pub open spec fn dec_digits(n: int) -> Seq<char>
    decreases n,
{
    if n < 10 {
        seq![digit_char(if 0 <= n { n } else { 0 })]
    } else {
        dec_digits(n / 10) + seq![digit_char(n % 10)]
    }
}

/// Uppercase hexadecimal digits of a number, most significant first.
pub open spec fn hex_digits(n: int) -> Seq<char>
    decreases n,
{
    if n < 16 {
        seq![digit_char(if 0 <= n { n } else { 0 })]
    } else {
        hex_digits(n / 16) + seq![digit_char(n % 16)]
    }
}

/// The decimal rendering of a signed number: a minus sign before the
/// digits of its magnitude.
pub open spec fn signed_dec(v: int) -> Seq<char> {
    if v < 0 {
        seq!['-'] + dec_digits(-v)
    } else {
        dec_digits(v)
    }
}

/// The unsigned number carrying a signed number's two's-complement bits.
pub open spec fn u64_of_i64(v: int) -> int {
    if v >= 0 {
        v
    } else {
        v + 0x1_0000_0000_0000_0000
    }
}

/// A character mapped to plain ASCII uppercase.
pub open spec fn upper_char(c: char) -> char {
    if 'a' <= c && c <= 'z' {
        (((c as u32) - 32) as u8) as char
    } else {
        c
    }
}

/// A whole name mapped to plain ASCII uppercase.
pub open spec fn upper_seq(s: Seq<char>) -> Seq<char> {
    s.map_values(|c: char| upper_char(c))
}

/// How a symbol renders: `#` before a variable's index, `@` before a
/// register's uppercased name.
pub open spec fn render_sym(s: SymbolV) -> Seq<char> {
    match s {
        SymbolV::Var(n) => seq!['#'] + dec_digits(n),
        SymbolV::Reg(name) => seq!['@'] + upper_seq(name),
    }
}

/// How a literal renders: the still-unknown marker, a symbol, a boolean,
/// a number in hexadecimal, or a plain string.
pub open spec fn render_lit(l: LitV) -> Seq<char> {
    match l {
        LitV::StillUnknown => seq!['U', 'N', 'K'],
        LitV::Symbol(s) => render_sym(s),
        LitV::Bool(b) => if b {
            seq!['t', 'r', 'u', 'e']
        } else {
            seq!['f', 'a', 'l', 's', 'e']
        },
        LitV::U32(v) => seq!['0', 'x'] + hex_digits(v as int),
        LitV::I64(v) => seq!['0', 'x'] + hex_digits(u64_of_i64(v as int)),
        LitV::Str(s) => s,
    }
}

/// How a binary operator renders.
pub open spec fn render_binop(op: BinOpKind) -> Seq<char> {
    match op {
        BinOpKind::Add => seq!['+'],
        BinOpKind::Sub => seq!['-'],
        BinOpKind::Mul => seq!['*'],
        BinOpKind::Div => seq!['/'],
        BinOpKind::Rem => seq!['%'],
        BinOpKind::And => seq!['&'],
        BinOpKind::Or => seq!['|'],
        BinOpKind::BitXor => seq!['^'],
        BinOpKind::BitAnd => seq!['b', 'i', 't', '&'],
        BinOpKind::BitOr => seq!['b', 'i', 't', '|'],
        BinOpKind::Shl => seq!['<', '<'],
        BinOpKind::Shr => seq!['>', '>'],
        BinOpKind::Eq => seq!['=', '='],
        BinOpKind::Lt => seq!['<'],
        BinOpKind::Le => seq!['<', '='],
        BinOpKind::Ne => seq!['!', '='],
        BinOpKind::Ge => seq!['>', '='],
        BinOpKind::Gt => seq!['>'],
    }
}

/// How one operand slot of an opaque instruction renders after the
/// opcode name: a register's name unless it is the absent register
/// (numeric identifier zero), a memory displacement in hexadecimal, or
/// an immediate in signed decimal.
pub open spec fn render_unparsed_op(op: OperandV) -> Seq<char> {
    match op {
        OperandV::Reg(r) => if r.id != 0 {
            seq![' '] + r.name
        } else {
            Seq::empty()
        },
        OperandV::Mem(d) => seq![' ', '0', 'x'] + hex_digits(d as int),
        OperandV::Imm(v) => seq![' '] + signed_dec(v as int),
        OperandV::Other => Seq::empty(),
    }
}

/// How an opaque instruction renders: its opcode name, then whatever its
/// four operand slots contribute.
pub open spec fn render_unparsed(i: InstV) -> Seq<char> {
    i.mnemonic + render_unparsed_op(i.op0) + render_unparsed_op(i.op1) + render_unparsed_op(i.op2)
        + render_unparsed_op(i.op3)
}

/// How an expression tree renders.
pub open spec fn render_expr(e: ExprV) -> Seq<char>
    decreases e,
{
    match e.kind {
        ExprKindV::Binary(op, l, r) => render_expr(*l) + seq![' '] + render_binop(op) + seq![' ']
            + render_expr(*r),
        ExprKindV::Lit(l) => render_lit(l),
        ExprKindV::Assign(l, r) => render_expr(*l) + seq![' ', '=', ' '] + render_expr(*r),
        ExprKindV::Call(a, _) => seq!['F', 'U', 'N', '_'] + hex_digits(a as int) + seq!['(', ')'],
        ExprKindV::Unparsed(i) => render_unparsed(i),
    }
}

/// Relies on str's FromIterator String::from_iter through Iterator::collect:
/// collecting characters concatenates exactly those characters.
#[verifier::external_body]
pub(crate) fn chars_to_string(v: &Vec<char>) -> (r: String)
    ensures
        r@ == v@,
{
    v.iter().collect()
}

/// The digit character of one value below sixteen.
pub(crate) fn emit_digit(out: &mut Vec<char>, d: u8)
    requires
        d < 16,
    ensures
        final(out)@ == old(out)@.push(digit_char(d as int)),
{
    let c: char = match d {
        0 => '0',
        1 => '1',
        2 => '2',
        3 => '3',
        4 => '4',
        5 => '5',
        6 => '6',
        7 => '7',
        8 => '8',
        9 => '9',
        10 => 'A',
        11 => 'B',
        12 => 'C',
        13 => 'D',
        14 => 'E',
        _ => 'F',
    };
    out.push(c);
}

/// Appends the decimal digits of `n`.
fn emit_dec(out: &mut Vec<char>, n: u64)
    ensures
        final(out)@ == old(out)@ + dec_digits(n as int),
    decreases n,
{
    if n < 10 {
        emit_digit(out, n as u8);
        proof {
            assert(final(out)@ =~= old(out)@ + dec_digits(n as int));
        }
    } else {
        emit_dec(out, n / 10);
        emit_digit(out, (n % 10) as u8);
        proof {
            assert(final(out)@ =~= old(out)@ + dec_digits(n as int));
        }
    }
}

/// Appends the uppercase hexadecimal digits of `n`.
pub(crate) fn emit_hex(out: &mut Vec<char>, n: u128)
    ensures
        final(out)@ == old(out)@ + hex_digits(n as int),
    decreases n,
{
    if n < 16 {
        emit_digit(out, n as u8);
        proof {
            assert(final(out)@ =~= old(out)@ + hex_digits(n as int));
        }
    } else {
        emit_hex(out, n / 16);
        emit_digit(out, (n % 16) as u8);
        proof {
            assert(final(out)@ =~= old(out)@ + hex_digits(n as int));
        }
    }
}

/// Appends the signed decimal rendering of `v`.
fn emit_i64_dec(out: &mut Vec<char>, v: i64)
    ensures
        final(out)@ == old(out)@ + signed_dec(v as int),
{
    if v >= 0 {
        emit_dec(out, v as u64);
    } else {
        out.push('-');
        let magnitude: u64 = if v == i64::MIN {
            0x8000_0000_0000_0000
        } else {
            (-v) as u64
        };
        emit_dec(out, magnitude);
        proof {
            assert(final(out)@ =~= old(out)@ + signed_dec(v as int));
        }
    }
}

/// Appends every character of `s`.
pub(crate) fn emit_str_chars(out: &mut Vec<char>, s: &str)
    ensures
        final(out)@ == old(out)@ + s@,
{
    let n = s.unicode_len();
    let mut i: usize = 0;
    while i < n
        invariant
            n == s@.len(),
            0 <= i <= n,
            out@ == old(out)@ + s@.subrange(0, i as int),
        decreases n - i,
    {
        out.push(s.get_char(i));
        proof {
            assert(out@ =~= old(out)@ + s@.subrange(0, i + 1));
        }
        i = i + 1;
    }
    proof {
        assert(out@ =~= old(out)@ + s@);
    }
}

/// Appends `s` mapped to plain ASCII uppercase.
fn emit_upper(out: &mut Vec<char>, s: &str)
    ensures
        final(out)@ == old(out)@ + upper_seq(s@),
{
    let n = s.unicode_len();
    let mut i: usize = 0;
    while i < n
        invariant
            n == s@.len(),
            0 <= i <= n,
            out@ == old(out)@ + upper_seq(s@).subrange(0, i as int),
        decreases n - i,
    {
        let c = s.get_char(i);
        let u: char = if 'a' <= c && c <= 'z' {
            (((c as u32) - 32) as u8) as char
        } else {
            c
        };
        out.push(u);
        proof {
            assert(u == upper_char(s@[i as int]));
            assert(out@ =~= old(out)@ + upper_seq(s@).subrange(0, i + 1));
        }
        i = i + 1;
    }
    proof {
        assert(out@ =~= old(out)@ + upper_seq(s@));
    }
}

/// Appends the rendering of a symbol.
fn emit_sym(out: &mut Vec<char>, s: &Symbol)
    ensures
        final(out)@ == old(out)@ + render_sym(s@),
{
    match s {
        Symbol::Var(n) => {
            out.push('#');
            emit_dec(out, *n as u64);
            proof {
                assert(final(out)@ =~= old(out)@ + render_sym(s@));
            }
        },
        Symbol::Reg(name) => {
            out.push('@');
            emit_upper(out, name.as_str());
            proof {
                assert(final(out)@ =~= old(out)@ + render_sym(s@));
            }
        },
    }
}

/// Appends the rendering of a literal.
fn emit_lit(out: &mut Vec<char>, l: &Lit)
    ensures
        final(out)@ == old(out)@ + render_lit(l@),
{
    match l {
        Lit::StillUnknown => {
            out.push('U');
            out.push('N');
            out.push('K');
            proof {
                assert(final(out)@ =~= old(out)@ + render_lit(l@));
            }
        },
        Lit::Symbol(s) => {
            emit_sym(out, s);
        },
        Lit::Bool(b) => {
            if *b {
                out.push('t');
                out.push('r');
                out.push('u');
                out.push('e');
            } else {
                out.push('f');
                out.push('a');
                out.push('l');
                out.push('s');
                out.push('e');
            }
            proof {
                assert(final(out)@ =~= old(out)@ + render_lit(l@));
            }
        },
        Lit::U32(v) => {
            out.push('0');
            out.push('x');
            emit_hex(out, *v as u128);
            proof {
                assert(final(out)@ =~= old(out)@ + render_lit(l@));
            }
        },
        Lit::I64(v) => {
            out.push('0');
            out.push('x');
            let bits: u64 = if *v >= 0 {
                *v as u64
            } else {
                let magnitude: u64 = if *v == i64::MIN {
                    0x8000_0000_0000_0000
                } else {
                    (-*v) as u64
                };
                0xFFFF_FFFF_FFFF_FFFF - (magnitude - 1)
            };
            proof {
                assert(bits as int == u64_of_i64(*v as int));
            }
            emit_hex(out, bits as u128);
            proof {
                assert(final(out)@ =~= old(out)@ + render_lit(l@));
            }
        },
        Lit::Str(s) => {
            emit_str_chars(out, s.as_str());
        },
    }
}

/// Appends the rendering of a binary operator.
fn emit_binop(out: &mut Vec<char>, op: BinOpKind)
    ensures
        final(out)@ == old(out)@ + render_binop(op),
{
    match op {
        BinOpKind::Add => out.push('+'),
        BinOpKind::Sub => out.push('-'),
        BinOpKind::Mul => out.push('*'),
        BinOpKind::Div => out.push('/'),
        BinOpKind::Rem => out.push('%'),
        BinOpKind::And => out.push('&'),
        BinOpKind::Or => out.push('|'),
        BinOpKind::BitXor => out.push('^'),
        BinOpKind::BitAnd => {
            out.push('b');
            out.push('i');
            out.push('t');
            out.push('&');
        },
        BinOpKind::BitOr => {
            out.push('b');
            out.push('i');
            out.push('t');
            out.push('|');
        },
        BinOpKind::Shl => {
            out.push('<');
            out.push('<');
        },
        BinOpKind::Shr => {
            out.push('>');
            out.push('>');
        },
        BinOpKind::Eq => {
            out.push('=');
            out.push('=');
        },
        BinOpKind::Lt => out.push('<'),
        BinOpKind::Le => {
            out.push('<');
            out.push('=');
        },
        BinOpKind::Ne => {
            out.push('!');
            out.push('=');
        },
        BinOpKind::Ge => {
            out.push('>');
            out.push('=');
        },
        BinOpKind::Gt => out.push('>'),
    }
    proof {
        assert(final(out)@ =~= old(out)@ + render_binop(op));
    }
}

/// Appends the rendering of one opaque-instruction operand slot.
fn emit_unparsed_op(out: &mut Vec<char>, op: &crate::inst::Operand)
    ensures
        final(out)@ == old(out)@ + render_unparsed_op(op@),
{
    match op {
        crate::inst::Operand::Reg(r) => {
            if r.id != 0 {
                out.push(' ');
                emit_str_chars(out, r.name.as_str());
            }
            proof {
                assert(final(out)@ =~= old(out)@ + render_unparsed_op(op@));
            }
        },
        crate::inst::Operand::Mem(d) => {
            out.push(' ');
            out.push('0');
            out.push('x');
            emit_hex(out, *d as u128);
            proof {
                assert(final(out)@ =~= old(out)@ + render_unparsed_op(op@));
            }
        },
        crate::inst::Operand::Imm(v) => {
            out.push(' ');
            emit_i64_dec(out, *v);
            proof {
                assert(final(out)@ =~= old(out)@ + render_unparsed_op(op@));
            }
        },
        crate::inst::Operand::Other => {
            proof {
                assert(final(out)@ =~= old(out)@ + render_unparsed_op(op@));
            }
        },
    }
}

/// Appends the rendering of an expression tree.
fn emit_expr(out: &mut Vec<char>, e: &Expr)
    ensures
        final(out)@ == old(out)@ + render_expr(e@),
    decreases *e,
{
    match &e.kind {
        ExprKind::Binary(op, l, r) => {
            emit_expr(out, l);
            out.push(' ');
            emit_binop(out, *op);
            out.push(' ');
            emit_expr(out, r);
            proof {
                assert(final(out)@ =~= old(out)@ + render_expr(e@));
            }
        },
        ExprKind::Lit(l) => {
            emit_lit(out, l);
            proof {
                assert(final(out)@ =~= old(out)@ + render_expr(e@));
            }
        },
        ExprKind::Assign(l, r) => {
            emit_expr(out, l);
            out.push(' ');
            out.push('=');
            out.push(' ');
            emit_expr(out, r);
            proof {
                assert(final(out)@ =~= old(out)@ + render_expr(e@));
            }
        },
        ExprKind::Call(a, _) => {
            out.push('F');
            out.push('U');
            out.push('N');
            out.push('_');
            emit_hex(out, *a as u128);
            out.push('(');
            out.push(')');
            proof {
                assert(final(out)@ =~= old(out)@ + render_expr(e@));
            }
        },
        ExprKind::Unparsed(i) => {
            emit_str_chars(out, i.mnemonic.as_str());
            emit_unparsed_op(out, &i.op0);
            emit_unparsed_op(out, &i.op1);
            emit_unparsed_op(out, &i.op2);
            emit_unparsed_op(out, &i.op3);
            proof {
                assert(final(out)@ =~= old(out)@ + render_expr(e@));
            }
        },
    }
}

impl Symbol {
    /// This symbol's textual form.
    pub fn render(&self) -> (r: String)
        ensures
            r@ == render_sym(self@),
    {
        let mut out: Vec<char> = Vec::new();
        emit_sym(&mut out, self);
        chars_to_string(&out)
    }
}

impl Lit {
    /// This literal's textual form.
    pub fn render(&self) -> (r: String)
        ensures
            r@ == render_lit(self@),
    {
        let mut out: Vec<char> = Vec::new();
        emit_lit(&mut out, self);
        chars_to_string(&out)
    }
}

impl BinOpKind {
    /// This operator's textual form.
    pub fn render(&self) -> (r: String)
        ensures
            r@ == render_binop(*self),
    {
        let mut out: Vec<char> = Vec::new();
        emit_binop(&mut out, *self);
        chars_to_string(&out)
    }
}

impl ExprKind {
    /// This node's textual form.
    pub fn render(&self) -> (r: String)
        ensures
            r@ == render_expr(ExprV { id: 0, kind: self@ }),
    {
        let mut out: Vec<char> = Vec::new();
        let ghost e = ExprV { id: 0, kind: self@ };
        match self {
            ExprKind::Binary(op, l, r) => {
                emit_expr(&mut out, l);
                out.push(' ');
                emit_binop(&mut out, *op);
                out.push(' ');
                emit_expr(&mut out, r);
            },
            ExprKind::Lit(l) => {
                emit_lit(&mut out, l);
            },
            ExprKind::Assign(l, r) => {
                emit_expr(&mut out, l);
                out.push(' ');
                out.push('=');
                out.push(' ');
                emit_expr(&mut out, r);
            },
            ExprKind::Call(a, _) => {
                out.push('F');
                out.push('U');
                out.push('N');
                out.push('_');
                emit_hex(&mut out, *a as u128);
                out.push('(');
                out.push(')');
            },
            ExprKind::Unparsed(i) => {
                emit_str_chars(&mut out, i.mnemonic.as_str());
                emit_unparsed_op(&mut out, &i.op0);
                emit_unparsed_op(&mut out, &i.op1);
                emit_unparsed_op(&mut out, &i.op2);
                emit_unparsed_op(&mut out, &i.op3);
            },
        }
        proof {
            assert(out@ =~= render_expr(e));
        }
        chars_to_string(&out)
    }
}

impl Expr {
    /// This expression's textual form; the node identifier does not
    /// show.
    pub fn render(&self) -> (r: String)
        ensures
            r@ == render_expr(self@),
    {
        let mut out: Vec<char> = Vec::new();
        emit_expr(&mut out, self);
        chars_to_string(&out)
    }
}

} // verus!
