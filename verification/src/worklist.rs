//! Function discovery: a worklist of pending entry addresses drives
//! linear decoding of each function until a return or halt terminator,
//! and every successfully lifted call feeds its target back into the
//! worklist, each address decoded at most once per run.

use vstd::prelude::*;

use crate::ast::{Expr, ExprKind, ExprKindV, ExprV, Lit, Symbol, SymbolV, sym_views};
use crate::errors::AnalysisError;
use crate::inst::{Opcode, decode_one, decoded};
use crate::memory::{Memory, SectionV};
use crate::parser::{lift_new_syms, lift_result, to_expression};

verus! {

/// The images of a sequence of lifted expressions.
pub open spec fn expr_seq_views(s: Seq<Expr>) -> Seq<ExprV> {
    s.map_values(|e: Expr| e@)
}

/// The call targets one lifted expression contributes to the worklist.
pub open spec fn expr_targets(e: ExprV) -> Seq<u64> {
    match e.kind {
        ExprKindV::Call(a, _) => seq![a],
        _ => Seq::empty(),
    }
}

/// A return or halt instruction ends the linear decode of a function.
pub open spec fn is_terminator(op: Opcode) -> bool {
    op == Opcode::Retnq || op == Opcode::Hlt
}

/// What one linear decode pass produces: the lifted expressions in
/// order, the symbols issued, the call targets discovered, and the
/// failure that ended the pass early, if one did.
pub struct RunV {
    pub exprs: Seq<ExprV>,
    pub syms: Seq<SymbolV>,
    pub targets: Seq<u64>,
    pub err: Option<AnalysisError>,
}

/// The model of one linear decode pass over `tail`, the bytes from the
/// function's entry to the end of its section, with `ip` the entry
/// address and `n` the symbol-table length on entry: decode, lift,
/// collect, and stop at a terminator, at the end of the bytes, or at an
/// unsupported operand shape.
pub open spec fn run_model(tail: Seq<u8>, ip: u64, n: int) -> RunV
    decreases tail.len(),
{
    if tail.len() == 0 {
        RunV { exprs: Seq::empty(), syms: Seq::empty(), targets: Seq::empty(), err: None }
    } else {
        let d = decoded(tail, ip);
        match lift_result(d, n) {
            None => RunV {
                exprs: Seq::empty(),
                syms: lift_new_syms(d, n),
                targets: Seq::empty(),
                err: Some(AnalysisError::UnsupportedOperand),
            },
            Some(e) => {
                let syms1 = lift_new_syms(d, n);
                if is_terminator(d.opcode) {
                    RunV { exprs: seq![e], syms: syms1, targets: expr_targets(e), err: None }
                } else if 1 <= d.len <= tail.len() && ip + d.len <= u64::MAX {
                    let rest = run_model(
                        tail.skip(d.len as int),
                        (ip + d.len) as u64,
                        n + syms1.len(),
                    );
                    RunV {
                        exprs: seq![e] + rest.exprs,
                        syms: syms1 + rest.syms,
                        targets: expr_targets(e) + rest.targets,
                        err: rest.err,
                    }
                } else {
                    RunV { exprs: seq![e], syms: syms1, targets: expr_targets(e), err: None }
                }
            },
        }
    }
}

/// The byte window a function entry decodes from: the bytes of the
/// owning section from the entry address to the section's end.
pub open spec fn function_input(m: Map<int, SectionV>, addr: u64) -> Option<Seq<u8>> {
    if m.dom().contains(addr as int) && ({
        let s = m[addr as int];
        s.start <= addr < s.start + s.bytes.len()
    }) {
        Some(m[addr as int].bytes.skip(addr - m[addr as int].start))
    } else {
        None
    }
}

/// A decode pass caught mid-way: what has been collected so far plus the
/// model of the remaining bytes accounts for the model of the whole pass.
spec fn mid_state(
    tail0: Seq<u8>,
    addr: u64,
    n0: int,
    syms0: Seq<Symbol>,
    symbols: Seq<Symbol>,
    exprs: Seq<Expr>,
    targets: Seq<u64>,
    off: int,
    ip: u64,
) -> bool {
    &&& 0 <= off <= tail0.len()
    &&& ip == addr + off
    &&& sym_views(syms0) + run_model(tail0, addr, n0).syms == sym_views(symbols) + run_model(
        tail0.skip(off),
        ip,
        symbols.len() as int,
    ).syms
    &&& run_model(tail0, addr, n0).exprs == expr_seq_views(exprs) + run_model(
        tail0.skip(off),
        ip,
        symbols.len() as int,
    ).exprs
    &&& run_model(tail0, addr, n0).targets == targets + run_model(
        tail0.skip(off),
        ip,
        symbols.len() as int,
    ).targets
    &&& run_model(tail0, addr, n0).err == run_model(tail0.skip(off), ip, symbols.len() as int).err
}

/// A decode pass that has ended without failure, everything collected.
spec fn done_state(
    tail0: Seq<u8>,
    addr: u64,
    n0: int,
    syms0: Seq<Symbol>,
    symbols: Seq<Symbol>,
    exprs: Seq<Expr>,
    targets: Seq<u64>,
) -> bool {
    &&& sym_views(symbols) == sym_views(syms0) + run_model(tail0, addr, n0).syms
    &&& expr_seq_views(exprs) == run_model(tail0, addr, n0).exprs
    &&& targets == run_model(tail0, addr, n0).targets
    &&& run_model(tail0, addr, n0).err is None
}

/// Decodes and lifts one function: from `addr` until a return or halt
/// terminator or the end of the section's bytes, against a fresh shadow
/// operand stack, issuing symbols into the shared table. Returns the
/// lifted expressions and the discovered call targets; reports an
/// unmapped-address failure when no section covers `addr`, and an
/// unsupported-operand failure where a lift rule reports one.
pub fn lift_function(mem: &Memory, addr: u64, symbols: &mut Vec<Symbol>) -> (r: Result<
    (Vec<Expr>, Vec<u64>),
    AnalysisError,
>)
    requires
        mem.wf(),
    ensures
        match function_input(mem@, addr) {
            None => r matches Err(e) && e == AnalysisError::UnmappedAddress && sym_views(
                final(symbols)@,
            ) == sym_views(old(symbols)@),
            Some(tail) => ({
                let run = run_model(tail, addr, old(symbols)@.len() as int);
                &&& sym_views(final(symbols)@) == sym_views(old(symbols)@) + run.syms
                &&& match run.err {
                    Some(err) => r matches Err(e) && e == err,
                    None => r matches Ok(pair) && expr_seq_views(pair.0@) == run.exprs
                        && pair.1@ == run.targets,
                }
            }),
        },
{
    let bytes: Vec<u8> = match mem.read(addr) {
        None => return Err(AnalysisError::UnmappedAddress),
        Some(pair) => pair.1,
    };
    let ghost tail0 = bytes@;
    let ghost syms0 = symbols@;
    let ghost n0 = symbols@.len() as int;
    proof {
        assert(function_input(mem@, addr) == Some(tail0));
        assert(addr + bytes@.len() <= u64::MAX);
        assert(tail0.skip(0) =~= tail0);
        assert(sym_views(syms0) + run_model(tail0, addr, n0).syms =~= sym_views(syms0) + run_model(
            tail0.skip(0),
            addr,
            syms0.len() as int,
        ).syms);
        assert(run_model(tail0, addr, n0).exprs =~= expr_seq_views(Seq::empty()) + run_model(
            tail0.skip(0),
            addr,
            syms0.len() as int,
        ).exprs);
        assert(run_model(tail0, addr, n0).targets =~= Seq::<u64>::empty() + run_model(
            tail0.skip(0),
            addr,
            syms0.len() as int,
        ).targets);
    }
    let mut exprs: Vec<Expr> = Vec::new();
    let mut targets: Vec<u64> = Vec::new();
    let mut stack: Vec<Lit> = Vec::new();
    let mut off: usize = 0;
    let mut ip: u64 = addr;
    while off < bytes.len()
        invariant_except_break
            tail0 == bytes@,
            syms0 == old(symbols)@,
            n0 == syms0.len(),
            function_input(mem@, addr) == Some(tail0),
            addr + bytes@.len() <= u64::MAX,
            mid_state(tail0, addr, n0, syms0, symbols@, exprs@, targets@, off as int, ip),
        ensures
            tail0 == bytes@,
            (off >= bytes@.len() && mid_state(
                tail0,
                addr,
                n0,
                syms0,
                symbols@,
                exprs@,
                targets@,
                off as int,
                ip,
            )) || done_state(tail0, addr, n0, syms0, symbols@, exprs@, targets@),
        decreases bytes@.len() - off,
    {
        let ghost tail_cur = tail0.skip(off as int);
        let ghost syms_entry = symbols@;
        let ghost exprs_entry = exprs@;
        let ghost targets_entry = targets@;
        let ghost n_cur = symbols@.len() as int;
        let ghost rem_cur = run_model(tail_cur, ip, n_cur);
        let window = vstd::slice::slice_subrange(bytes.as_slice(), off, bytes.len());
        proof {
            assert(window@ =~= tail_cur);
        }
        let inst = match decode_one(window, ip) {
            None => {
                proof {
                    assert(false);
                }
                return Err(AnalysisError::UnmappedAddress);
            },
            Some(i) => i,
        };
        let ghost d = decoded(tail_cur, ip);
        let op = inst.opcode;
        let ilen = inst.len;
        proof {
            assert(inst@ == d);
            assert(1 <= ilen <= tail_cur.len());
        }
        let lifted = to_expression(&mut stack, symbols, inst);
        let ghost syms1 = lift_new_syms(d, n_cur);
        proof {
            assert(sym_views(symbols@) == sym_views(syms_entry) + syms1);
            assert(sym_views(symbols@).len() == sym_views(syms_entry).len() + syms1.len());
            assert(symbols@.len() as int == n_cur + syms1.len());
        }
        let expr = match lifted {
            Err(e) => {
                proof {
                    assert(rem_cur.err == Some(AnalysisError::UnsupportedOperand));
                    assert(rem_cur.syms == syms1);
                    assert(sym_views(symbols@) =~= sym_views(syms0) + run_model(
                        tail0,
                        addr,
                        n0,
                    ).syms);
                }
                return Err(e);
            },
            Ok(expr) => expr,
        };
        let ghost e = lift_result(d, n_cur)->Some_0;
        proof {
            assert(expr@ == e);
        }
        match &expr.kind {
            ExprKind::Call(a, _) => {
                let t = *a;
                targets.push(t);
                proof {
                    assert(e.kind is Call && e.kind->Call_0 == t);
                    assert(expr_targets(e) =~= seq![t]);
                    assert(targets@ =~= targets_entry + expr_targets(e));
                }
            },
            _ => {
                proof {
                    assert(!(e.kind is Call));
                    assert(expr_targets(e) =~= Seq::<u64>::empty());
                    assert(targets@ =~= targets_entry + expr_targets(e));
                }
            },
        }
        exprs.push(expr);
        proof {
            assert(expr_seq_views(exprs@) =~= expr_seq_views(exprs_entry) + seq![e]);
        }
        if op == Opcode::Retnq || op == Opcode::Hlt {
            proof {
                assert(is_terminator(d.opcode));
                assert(rem_cur.exprs == seq![e] && rem_cur.syms == syms1 && rem_cur.targets
                    == expr_targets(e) && rem_cur.err is None);
                assert(expr_seq_views(exprs@) =~= run_model(tail0, addr, n0).exprs);
                assert(targets@ =~= run_model(tail0, addr, n0).targets);
                assert(sym_views(symbols@) =~= sym_views(syms0) + run_model(tail0, addr, n0).syms);
                assert(done_state(tail0, addr, n0, syms0, symbols@, exprs@, targets@));
            }
            break;
        }
        proof {
            assert(!is_terminator(d.opcode));
            assert(ip + d.len <= u64::MAX);
            let rest = run_model(
                tail_cur.skip(d.len as int),
                (ip + d.len) as u64,
                n_cur + syms1.len(),
            );
            assert(rem_cur.exprs == seq![e] + rest.exprs);
            assert(rem_cur.syms == syms1 + rest.syms);
            assert(rem_cur.targets == expr_targets(e) + rest.targets);
            assert(rem_cur.err == rest.err);
            assert(tail0.skip(off + ilen) =~= tail_cur.skip(ilen as int));
            assert(run_model(tail0, addr, n0).exprs =~= expr_seq_views(exprs@) + rest.exprs);
            assert(run_model(tail0, addr, n0).targets =~= targets@ + rest.targets);
            assert(sym_views(syms0) + run_model(tail0, addr, n0).syms =~= sym_views(symbols@)
                + rest.syms);
        }
        off = off + ilen;
        ip = ip + ilen as u64;
    }
    proof {
        if !done_state(tail0, addr, n0, syms0, symbols@, exprs@, targets@) {
            assert(tail0.skip(off as int).len() == 0);
            assert(run_model(tail0.skip(off as int), ip, symbols@.len() as int).err is None);
            assert(sym_views(symbols@) =~= sym_views(syms0) + run_model(tail0, addr, n0).syms);
            assert(expr_seq_views(exprs@) =~= run_model(tail0, addr, n0).exprs);
            assert(targets@ =~= run_model(tail0, addr, n0).targets);
        }
    }
    Ok((exprs, targets))
}

/// One discovered function: the address it was decoded from and what the
/// decode pass produced for it.
pub struct FunctionLift {
    pub addr: u64,
    pub body: Result<(Vec<Expr>, Vec<u64>), AnalysisError>,
}

/// The addresses of a run's discovered functions, in decode order.
pub open spec fn lift_addrs(s: Seq<FunctionLift>) -> Seq<u64> {
    s.map_values(|f: FunctionLift| f.addr)
}

/// The call targets a discovered function contributes.
pub open spec fn flift_targets(f: FunctionLift) -> Seq<u64> {
    match f.body {
        Ok(pair) => pair.1@,
        Err(_) => Seq::empty(),
    }
}

/// A discovered function's body is what one decode pass from its address
/// produces against a symbol table of `n` entries.
pub open spec fn function_body_ok(m: Map<int, SectionV>, f: FunctionLift, n: int) -> bool {
    match function_input(m, f.addr) {
        None => f.body matches Err(e) && e == AnalysisError::UnmappedAddress,
        Some(tail) => ({
            let run = run_model(tail, f.addr, n);
            match run.err {
                Some(err) => f.body matches Err(e) && e == err,
                None => f.body matches Ok(pair) && expr_seq_views(pair.0@) == run.exprs
                    && pair.1@ == run.targets,
            }
        }),
    }
}

/// A discovered function's body is what one decode pass from its address
/// produces against some symbol-table length.
pub open spec fn function_body_ok_some(m: Map<int, SectionV>, f: FunctionLift) -> bool {
    exists|n: int| 0 <= n && #[trigger] function_body_ok(m, f, n)
}

/// A sequence of distinct addresses can hold each address at most once.
proof fn lemma_distinct_u64_len(s: Seq<u64>)
    requires
        s.no_duplicates(),
    ensures
        s.len() <= 0x1_0000_0000_0000_0000,
{
    let t = s.map_values(|x: u64| x as int);
    assert(t.no_duplicates());
    t.unique_seq_to_set();
    let range = vstd::set_lib::set_int_range(0, 0x1_0000_0000_0000_0000);
    assert forall|x: int| t.to_set().contains(x) implies range.contains(x) by {
        assert(t.contains(x));
    }
    vstd::set_lib::lemma_int_range(0, 0x1_0000_0000_0000_0000);
    vstd::set_lib::lemma_len_subset(t.to_set(), range);
}

/// Whether an address is already listed.
fn contains_u64(v: &Vec<u64>, a: u64) -> (r: bool)
    ensures
        r == v@.contains(a),
{
    let mut i: usize = 0;
    while i < v.len()
        invariant
            0 <= i <= v@.len(),
            forall|k: int| 0 <= k < i ==> v@[k] != a,
        decreases v@.len() - i,
    {
        if v[i] == a {
            return true;
        }
        i = i + 1;
    }
    false
}

/// Whether an address was already decoded in this run.
fn contains_addr(v: &Vec<FunctionLift>, a: u64) -> (r: bool)
    ensures
        r == lift_addrs(v@).contains(a),
{
    let mut i: usize = 0;
    while i < v.len()
        invariant
            0 <= i <= v@.len(),
            forall|k: int| 0 <= k < i ==> lift_addrs(v@)[k] != a,
        decreases v@.len() - i,
    {
        if v[i].addr == a {
            proof {
                assert(lift_addrs(v@)[i as int] == a);
            }
            return true;
        }
        i = i + 1;
    }
    false
}

/// A second list of the same addresses.
fn copy_addrs(v: &Vec<u64>) -> (r: Vec<u64>)
    ensures
        r@ == v@,
{
    let mut out: Vec<u64> = Vec::new();
    let mut i: usize = 0;
    while i < v.len()
        invariant
            0 <= i <= v@.len(),
            out@ == v@.subrange(0, i as int),
        decreases v@.len() - i,
    {
        out.push(v[i]);
        proof {
            assert(out@ =~= v@.subrange(0, i + 1));
        }
        i = i + 1;
    }
    proof {
        assert(out@ =~= v@);
    }
    out
}

/// Runs the function-discovery worklist: seeds it with the given entry
/// addresses, pops one pending address at a time, decodes and lifts the
/// function there, and enqueues every discovered call target that was
/// neither decoded nor already queued. Each address is decoded at most
/// once per run; every seed is decoded; every address decoded was a seed
/// or a call target of an earlier function; and every discovered target
/// is decoded by the time the worklist drains.
pub fn discover_functions(mem: &Memory, entries: &Vec<u64>, symbols: &mut Vec<Symbol>) -> (r: Vec<
    FunctionLift,
>)
    requires
        mem.wf(),
    ensures
        lift_addrs(r@).no_duplicates(),
        forall|k: int| 0 <= k < entries@.len() ==> lift_addrs(r@).contains(#[trigger] entries@[k]),
        forall|j: int|
            0 <= j < r@.len() ==> entries@.contains((#[trigger] r@[j]).addr) || exists|j2: int|
                0 <= j2 < j && flift_targets(r@[j2]).contains(r@[j].addr),
        forall|j: int, t: u64|
            0 <= j < r@.len() && #[trigger] flift_targets(r@[j]).contains(t) ==> lift_addrs(
                r@,
            ).contains(t),
        forall|j: int| 0 <= j < r@.len() ==> #[trigger] function_body_ok_some(mem@, r@[j]),
        old(symbols)@.len() <= final(symbols)@.len(),
        sym_views(final(symbols)@).subrange(0, old(symbols)@.len() as int) == sym_views(
            old(symbols)@,
        ),
{
    let ghost syms0 = symbols@;
    let mut pending: Vec<u64> = Vec::new();
    let mut i: usize = 0;
    while i < entries.len()
        invariant
            0 <= i <= entries@.len(),
            pending@.no_duplicates(),
            forall|k: int| 0 <= k < i ==> pending@.contains(#[trigger] entries@[k]),
            forall|k: int| 0 <= k < pending@.len() ==> entries@.contains(#[trigger] pending@[k]),
        decreases entries@.len() - i,
    {
        let e = entries[i];
        let ghost pending_before = pending@;
        if !contains_u64(&pending, e) {
            pending.push(e);
            proof {
                assert forall|x: int, y: int|
                    0 <= x < pending@.len() && 0 <= y < pending@.len() && x != y implies pending@[x]
                    != pending@[y] by {
                    if x < pending_before.len() && y < pending_before.len() {
                    } else if y == pending_before.len() {
                        assert(pending@[x] == pending_before[x]);
                    } else {
                        assert(pending@[y] == pending_before[y]);
                    }
                }
                assert forall|k: int| 0 <= k < i + 1 implies pending@.contains(
                    #[trigger] entries@[k],
                ) by {
                    if k < i {
                        let w = choose|w: int|
                            0 <= w < pending_before.len() && pending_before[w] == entries@[k];
                        assert(pending@[w] == entries@[k]);
                    } else {
                        assert(pending@[pending_before.len() as int] == e);
                    }
                }
            }
        } else {
            proof {
                assert forall|k: int| 0 <= k < i + 1 implies pending@.contains(
                    #[trigger] entries@[k],
                ) by {
                    if k == i {
                        assert(pending@.contains(e));
                    }
                }
            }
        }
        i = i + 1;
    }
    let mut result: Vec<FunctionLift> = Vec::new();
    proof {
        assert(sym_views(symbols@).subrange(0, syms0.len() as int) =~= sym_views(syms0));
    }
    while pending.len() > 0
        invariant
            mem.wf(),
            syms0 == old(symbols)@,
            lift_addrs(result@).no_duplicates(),
            pending@.no_duplicates(),
            forall|k: int|
                0 <= k < pending@.len() ==> !lift_addrs(result@).contains(#[trigger] pending@[k]),
            forall|k: int|
                0 <= k < entries@.len() ==> lift_addrs(result@).contains(#[trigger] entries@[k])
                    || pending@.contains(entries@[k]),
            forall|j: int|
                0 <= j < result@.len() ==> entries@.contains((#[trigger] result@[j]).addr) || exists|
                    j2: int,
                |
                    0 <= j2 < j && flift_targets(result@[j2]).contains(result@[j].addr),
            forall|k: int|
                0 <= k < pending@.len() ==> entries@.contains(#[trigger] pending@[k]) || exists|
                    j2: int,
                |
                    0 <= j2 < result@.len() && flift_targets(result@[j2]).contains(pending@[k]),
            forall|j: int, t: u64|
                0 <= j < result@.len() && #[trigger] flift_targets(result@[j]).contains(t)
                    ==> lift_addrs(result@).contains(t) || pending@.contains(t),
            forall|j: int|
                0 <= j < result@.len() ==> #[trigger] function_body_ok_some(mem@, result@[j]),
            syms0.len() <= symbols@.len(),
            sym_views(symbols@).subrange(0, syms0.len() as int) == sym_views(syms0),
        decreases 0x1_0000_0000_0000_0000 - result@.len(),
    {
        let ghost pending_before = pending@;
        let ghost result_before = result@;
        let addr = pending.pop().unwrap();
        proof {
            assert(addr == pending_before.last());
            assert(pending_before.contains(addr));
            assert(!lift_addrs(result@).contains(addr));
            assert forall|x: int, y: int|
                0 <= x < pending@.len() && 0 <= y < pending@.len() && x != y implies pending@[x]
                != pending@[y] by {
                assert(pending@[x] == pending_before[x]);
                assert(pending@[y] == pending_before[y]);
            }
        }
        let ghost syms_entry = symbols@;
        let ghost n_before = symbols@.len() as int;
        let body = lift_function(mem, addr, symbols);
        proof {
            match function_input(mem@, addr) {
                None => {
                    assert(sym_views(symbols@) == sym_views(syms_entry));
                    assert(sym_views(symbols@).subrange(0, syms0.len() as int) =~= sym_views(
                        syms0,
                    ));
                },
                Some(tail) => {
                    let run = run_model(tail, addr, n_before);
                    assert(sym_views(symbols@) == sym_views(syms_entry) + run.syms);
                    assert(sym_views(symbols@).subrange(0, syms_entry.len() as int) =~= sym_views(
                        syms_entry,
                    ));
                    assert(sym_views(symbols@).subrange(0, syms0.len() as int) =~= sym_views(
                        symbols@,
                    ).subrange(0, syms_entry.len() as int).subrange(0, syms0.len() as int));
                    assert(sym_views(syms_entry).subrange(0, syms0.len() as int) =~= sym_views(
                        syms0,
                    ));
                },
            }
        }
        let f = FunctionLift { addr, body };
        let tgts: Vec<u64> = match &f.body {
            Ok(pair) => copy_addrs(&pair.1),
            Err(_) => Vec::new(),
        };
        proof {
            assert(tgts@ =~= flift_targets(f));
            assert(function_body_ok(mem@, f, n_before));
        }
        result.push(f);
        proof {
            assert(lift_addrs(result@) =~= lift_addrs(result_before).push(addr));
            assert forall|x: int, y: int|
                0 <= x < lift_addrs(result@).len() && 0 <= y < lift_addrs(result@).len() && x != y
                    implies lift_addrs(result@)[x] != lift_addrs(result@)[y] by {
                if x < result_before.len() && y < result_before.len() {
                } else if y == result_before.len() {
                    assert(lift_addrs(result@)[x] == lift_addrs(result_before)[x]);
                    assert(lift_addrs(result_before).contains(lift_addrs(result_before)[x]));
                } else {
                    assert(lift_addrs(result@)[y] == lift_addrs(result_before)[y]);
                    assert(lift_addrs(result_before).contains(lift_addrs(result_before)[y]));
                }
            }
            lemma_distinct_u64_len(lift_addrs(result@));
            assert(result@[result_before.len() as int] == f);
            assert(function_body_ok_some(mem@, result@[result_before.len() as int])) by {
                assert(function_body_ok(mem@, result@[result_before.len() as int], n_before));
            }
        }
        proof {
            assert forall|k: int|
                0 <= k < entries@.len() implies lift_addrs(result@).contains(#[trigger] entries@[k])
                || pending@.contains(entries@[k]) by {
                if lift_addrs(result_before).contains(entries@[k]) {
                    let w = choose|w: int|
                        0 <= w < result_before.len() && lift_addrs(result_before)[w]
                            == entries@[k];
                    assert(lift_addrs(result@)[w] == entries@[k]);
                } else if pending_before.contains(entries@[k]) {
                    let w = choose|w: int|
                        0 <= w < pending_before.len() && pending_before[w] == entries@[k];
                    if w == pending_before.len() - 1 {
                        assert(lift_addrs(result@)[result_before.len() as int] == addr);
                    } else {
                        assert(pending@[w] == entries@[k]);
                    }
                }
            }
            assert forall|k: int|
                0 <= k < pending@.len() implies entries@.contains(#[trigger] pending@[k]) || exists|
                j2: int,
            |
                0 <= j2 < result@.len() && flift_targets(result@[j2]).contains(pending@[k]) by {
                assert(pending@[k] == pending_before[k]);
                if !entries@.contains(pending@[k]) {
                    let j2 = choose|j2: int|
                        0 <= j2 < result_before.len() && flift_targets(result_before[j2]).contains(
                            pending@[k],
                        );
                    assert(result@[j2] == result_before[j2]);
                    assert(flift_targets(result@[j2]).contains(pending@[k]));
                }
            }
            assert forall|k: int|
                0 <= k < pending@.len() implies !lift_addrs(result@).contains(
                #[trigger] pending@[k],
            ) by {
                assert(pending@[k] == pending_before[k]);
                assert(pending_before[k] != addr);
                if lift_addrs(result@).contains(pending@[k]) {
                    let w = choose|w: int|
                        0 <= w < lift_addrs(result@).len() && lift_addrs(result@)[w]
                            == pending@[k];
                    if w < result_before.len() {
                        assert(lift_addrs(result_before)[w] == pending@[k]);
                        assert(lift_addrs(result_before).contains(pending@[k]));
                    } else {
                        assert(lift_addrs(result@)[w] == addr);
                    }
                }
            }
            assert forall|j: int|
                0 <= j < result@.len() implies entries@.contains((#[trigger] result@[j]).addr)
                || exists|j2: int|
                0 <= j2 < j && flift_targets(result@[j2]).contains(result@[j].addr) by {
                if j < result_before.len() {
                    assert(result@[j] == result_before[j]);
                    if !entries@.contains(result_before[j].addr) {
                        let j2 = choose|j2: int|
                            0 <= j2 < j && flift_targets(result_before[j2]).contains(
                                result_before[j].addr,
                            );
                        assert(result@[j2] == result_before[j2]);
                        assert(flift_targets(result@[j2]).contains(result@[j].addr));
                    }
                } else {
                    assert(result@[j] == f);
                    assert(pending_before[pending_before.len() - 1] == addr);
                    if !entries@.contains(addr) {
                        let j2 = choose|j2: int|
                            0 <= j2 < result_before.len() && flift_targets(
                                result_before[j2],
                            ).contains(addr);
                        assert(result@[j2] == result_before[j2]);
                        assert(flift_targets(result@[j2]).contains(result@[j].addr));
                    }
                }
            }
            assert forall|j: int, t: u64|
                0 <= j < result@.len() && #[trigger] flift_targets(result@[j]).contains(t) implies
                lift_addrs(result@).contains(t) || pending@.contains(t) || exists|k: int|
                0 <= k < tgts@.len() && tgts@[k] == t by {
                if j < result_before.len() {
                    assert(result@[j] == result_before[j]);
                    assert(flift_targets(result_before[j]).contains(t));
                    if lift_addrs(result_before).contains(t) {
                        let w = choose|w: int|
                            0 <= w < result_before.len() && lift_addrs(result_before)[w] == t;
                        assert(lift_addrs(result@)[w] == t);
                    } else {
                        assert(pending_before.contains(t));
                        let w = choose|w: int|
                            0 <= w < pending_before.len() && pending_before[w] == t;
                        if w == pending_before.len() - 1 {
                            assert(lift_addrs(result@)[result_before.len() as int] == addr);
                        } else {
                            assert(pending@[w] == t);
                        }
                    }
                } else {
                    assert(result@[j] == f);
                    assert(tgts@.contains(t));
                }
            }
            assert forall|j: int| 0 <= j < result@.len() implies #[trigger] function_body_ok_some(
                mem@,
                result@[j],
            ) by {
                if j < result_before.len() {
                    assert(result@[j] == result_before[j]);
                    assert(function_body_ok_some(mem@, result_before[j]));
                } else {
                    assert(function_body_ok(mem@, result@[j], n_before));
                    assert(function_body_ok_some(mem@, result@[j]));
                }
            }
        }
        let mut m: usize = 0;
        while m < tgts.len()
            invariant
                0 <= m <= tgts@.len(),
                result@.len() > 0,
                mem.wf(),
                syms0 == old(symbols)@,
                syms0.len() <= symbols@.len(),
                sym_views(symbols@).subrange(0, syms0.len() as int) == sym_views(syms0),
                forall|j: int|
                    0 <= j < result@.len() ==> #[trigger] function_body_ok_some(
                        mem@,
                        result@[j],
                    ),
                tgts@ == flift_targets(result@[result@.len() - 1]),
                lift_addrs(result@).no_duplicates(),
                pending@.no_duplicates(),
                forall|k: int|
                    0 <= k < pending@.len() ==> !lift_addrs(result@).contains(
                        #[trigger] pending@[k],
                    ),
                forall|k: int|
                    0 <= k < entries@.len() ==> lift_addrs(result@).contains(#[trigger] entries@[k])
                        || pending@.contains(entries@[k]),
                forall|j: int|
                    0 <= j < result@.len() ==> entries@.contains((#[trigger] result@[j]).addr)
                        || exists|j2: int|
                        0 <= j2 < j && flift_targets(result@[j2]).contains(result@[j].addr),
                forall|k: int|
                    0 <= k < pending@.len() ==> entries@.contains(#[trigger] pending@[k]) || exists|
                        j2: int,
                    |
                        0 <= j2 < result@.len() && flift_targets(result@[j2]).contains(pending@[k]),
                forall|j: int, t: u64|
                    0 <= j < result@.len() && #[trigger] flift_targets(result@[j]).contains(t)
                        ==> lift_addrs(result@).contains(t) || pending@.contains(t) || exists|
                        k: int,
                    |
                        m <= k < tgts@.len() && tgts@[k] == t,
            decreases tgts@.len() - m,
        {
            let t = tgts[m];
            let ghost pend_in = pending@;
            let in_result = contains_addr(&result, t);
            let in_pending = contains_u64(&pending, t);
            if !in_result && !in_pending {
                pending.push(t);
                proof {
                    assert forall|x: int, y: int|
                        0 <= x < pending@.len() && 0 <= y < pending@.len() && x != y implies
                        pending@[x] != pending@[y] by {
                        if x < pend_in.len() && y < pend_in.len() {
                        } else if y == pend_in.len() {
                            assert(pending@[x] == pend_in[x]);
                            assert(pend_in.contains(pend_in[x]));
                        } else {
                            assert(pending@[y] == pend_in[y]);
                            assert(pend_in.contains(pend_in[y]));
                        }
                    }
                    assert(pending@[pend_in.len() as int] == t);
                    assert(flift_targets(result@[result@.len() - 1]).contains(t)) by {
                        assert(tgts@[m as int] == t);
                    }
                    assert forall|k: int|
                        0 <= k < pending@.len() implies !lift_addrs(result@).contains(
                        #[trigger] pending@[k],
                    ) by {
                        if k < pend_in.len() {
                            assert(pending@[k] == pend_in[k]);
                            assert(pend_in.contains(pend_in[k]));
                        }
                    }
                }
            }
            proof {
                assert(pend_in.len() <= pending@.len());
                assert forall|k: int| 0 <= k < pend_in.len() implies pending@[k] == pend_in[k] by {}
                assert forall|k: int|
                    0 <= k < entries@.len() implies lift_addrs(result@).contains(
                    #[trigger] entries@[k],
                ) || pending@.contains(entries@[k]) by {
                    if !lift_addrs(result@).contains(entries@[k]) {
                        let w = choose|w: int| 0 <= w < pend_in.len() && pend_in[w] == entries@[k];
                        assert(pending@[w] == entries@[k]);
                    }
                }
                assert forall|k: int|
                    0 <= k < pending@.len() implies entries@.contains(#[trigger] pending@[k])
                    || exists|j2: int|
                    0 <= j2 < result@.len() && flift_targets(result@[j2]).contains(pending@[k]) by {
                    if k == pend_in.len() {
                        assert(flift_targets(result@[result@.len() - 1]).contains(pending@[k]));
                    }
                }
                assert forall|j: int, t2: u64|
                    0 <= j < result@.len() && #[trigger] flift_targets(result@[j]).contains(t2)
                        implies lift_addrs(result@).contains(t2) || pending@.contains(t2) || exists|
                    k: int,
                |
                    m + 1 <= k < tgts@.len() && tgts@[k] == t2 by {
                    if !lift_addrs(result@).contains(t2) {
                        if pend_in.contains(t2) {
                            let w = choose|w: int| 0 <= w < pend_in.len() && pend_in[w] == t2;
                            assert(pending@[w] == t2);
                        } else if exists|k: int| m <= k < tgts@.len() && tgts@[k] == t2 {
                            let k = choose|k: int| m <= k < tgts@.len() && tgts@[k] == t2;
                            if k == m {
                                if t2 == t {
                                    assert(pending@.contains(t2) || lift_addrs(result@).contains(
                                        t2,
                                    ));
                                }
                            }
                        }
                    }
                }
            }
            m = m + 1;
        }
        proof {
            lemma_distinct_u64_len(lift_addrs(result@));
        }
    }
    proof {
        assert forall|k: int| 0 <= k < entries@.len() implies lift_addrs(result@).contains(
            #[trigger] entries@[k],
        ) by {
            assert(!pending@.contains(entries@[k]));
        }
        assert forall|j: int, t: u64|
            0 <= j < result@.len() && #[trigger] flift_targets(result@[j]).contains(t) implies
            lift_addrs(result@).contains(t) by {
            assert(!pending@.contains(t));
        }
    }
    result
}

} // verus!
