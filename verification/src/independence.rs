//! Dependency-graph independence analysis for auto-parallelization: which statements of a
//! straight-line sequence may run as one group of independent calls.
//!
//! Two statements are independent only if neither defines a binding the other reads, they
//! do not define the same binding, both are direct calls, and neither passes an argument
//! at a mutable-heap parameter position (the conservative write floor: a shape, array,
//! map, … argument may be written through and may alias any other heap binding).
use vstd::prelude::*;

use crate::names::{lookup, NameSet};
use crate::signatures::{resolve_sig, resolve_signature, FunctionSig, SignatureTable};
use crate::syntax::{Expr, FieldInit, MapEntryLit, Stmt, StringPart};
use crate::types::{Type, TypeView};

verus! {

/// Scalars passed by copy: `int`, `float`, `bool`, `number`.
pub open spec fn spec_trivially_copyable(t: TypeView) -> bool {
    match t {
        TypeView::Int | TypeView::Float | TypeView::Bool | TypeView::Number { .. } => true,
        _ => false,
    }
}

/// Is `ty` a scalar passed by copy?
pub fn is_trivially_copyable(ty: &Type) -> (b: bool)
    ensures
        b == spec_trivially_copyable(ty@),
{
    match ty {
        Type::Int | Type::Float | Type::Bool | Type::Number { .. } => true,
        _ => false,
    }
}

/// A value of this type is a mutable heap reference: neither a copied scalar nor an
/// immutable string.
pub open spec fn spec_mutable_heap(t: TypeView) -> bool {
    !spec_trivially_copyable(t) && !(t is String)
}

/// Is a value of `ty` a mutable heap reference (the only kind of argument that can be a
/// potential aliased write)?
pub fn is_mutable_heap_type(ty: &Type) -> (b: bool)
    ensures
        b == spec_mutable_heap(ty@),
{
    if is_trivially_copyable(ty) {
        return false;
    }
    match ty {
        Type::String => false,
        _ => true,
    }
}

/// Position `i` of `sig` is write-capable: its parameter type is a mutable heap reference.
pub open spec fn heap_position(sig: FunctionSig, i: int) -> bool {
    0 <= i < sig.params@.len() && spec_mutable_heap(sig.params@[i].1@)
}

/// The write-capable parameter positions of one function, ascending.
pub fn write_positions_for_sig(sig: &FunctionSig) -> (r: Vec<usize>)
    ensures
        forall|i: int| (exists|k: int| 0 <= k < r@.len() && r@[k] as int == i) <==> heap_position(*sig, i),
{
    let mut r: Vec<usize> = Vec::new();
    let mut i: usize = 0;
    while i < sig.params.len()
        invariant
            i <= sig.params@.len(),
            forall|k: int| 0 <= k < r@.len() ==> (r@[k] as int) < i && heap_position(*sig, r@[k] as int),
            forall|j: int| 0 <= j < i && heap_position(*sig, j) ==> exists|k: int| 0 <= k < r@.len() && r@[k] as int == j,
        decreases sig.params@.len() - i,
    {
        let ghost before = r@;
        if is_mutable_heap_type(&sig.params[i].1) {
            r.push(i);
        }
        proof {
            assert forall|j: int| 0 <= j < i + 1 && heap_position(*sig, j) implies exists|k: int|
                0 <= k < r@.len() && r@[k] as int == j by {
                if j == i {
                    assert(r@[r@.len() - 1] as int == j);
                } else {
                    let k = choose|k: int| 0 <= k < before.len() && before[k] as int == j;
                    assert(r@[k] == before[k]);
                }
            }
        }
        i = i + 1;
    }
    r
}

/// Position `i` of a call to `callee` is write-capable, by the local signature of `callee`
/// or else the imported one (no signature: no write position).
pub open spec fn write_capable(
    local: Seq<(String, FunctionSig)>,
    imported: Seq<(String, FunctionSig)>,
    callee: Seq<char>,
    i: int,
) -> bool {
    match resolve_sig(local, imported, callee) {
        Some(sig) => heap_position(sig, i),
        None => false,
    }
}

/// The write-capable positions of a call to `callee`.
pub fn write_effects_of(local: &SignatureTable, imported: &Vec<(String, FunctionSig)>, callee: &str) -> (r: Vec<usize>)
    ensures
        forall|i: int|
            (exists|k: int| 0 <= k < r@.len() && r@[k] as int == i) <==> write_capable(local.fns@, imported@, callee@, i),
{
    match resolve_signature(local, imported, callee) {
        Some(sig) => write_positions_for_sig(sig),
        None => Vec::new(),
    }
}

/// The binding names an expression references (a direct callee name is a function, not a
/// binding, and is not counted).
pub open spec fn refs_expr(e: Expr) -> Set<Seq<char>>
    decreases e,
{
    match e {
        Expr::Ident(n, _) => set![n@],
        Expr::Call(c) => match *c.callee {
            Expr::Ident(_, _) => refs_exprs(c.args@),
            other => refs_expr(other).union(refs_exprs(c.args@)),
        },
        Expr::Wait(inner, _) => refs_expr(*inner),
        Expr::Background(inner, _) => refs_expr(*inner),
        Expr::BinOp { lhs, rhs, .. } => refs_expr(*lhs).union(refs_expr(*rhs)),
        Expr::UnaryOp { operand, .. } => refs_expr(*operand),
        Expr::FieldAccess { receiver, .. } => refs_expr(*receiver),
        Expr::MethodCall { receiver, args, .. } => refs_expr(*receiver).union(refs_exprs(args@)),
        Expr::IndexAccess { receiver, index, .. } => refs_expr(*receiver).union(refs_expr(*index)),
        Expr::StructLit { fields, .. } => refs_fields(fields@),
        Expr::ArrayLit { elements, .. } => refs_exprs(elements@),
        Expr::MapLit { entries, .. } => refs_entries(entries@),
        Expr::InterpolatedString(parts, _) => refs_parts(parts@),
        Expr::PostfixOp { receiver, .. } => refs_expr(*receiver),
        Expr::Is { expr, .. } => refs_expr(*expr),
        _ => Set::empty(),
    }
}

pub open spec fn refs_exprs(s: Seq<Expr>) -> Set<Seq<char>>
    decreases s,
{
    if s.len() == 0 {
        Set::empty()
    } else {
        refs_exprs(s.subrange(0, s.len() - 1)).union(refs_expr(s[s.len() - 1]))
    }
}

pub open spec fn refs_fields(s: Seq<FieldInit>) -> Set<Seq<char>>
    decreases s,
{
    if s.len() == 0 {
        Set::empty()
    } else {
        refs_fields(s.subrange(0, s.len() - 1)).union(refs_expr(s[s.len() - 1].value))
    }
}

pub open spec fn refs_entries(s: Seq<MapEntryLit>) -> Set<Seq<char>>
    decreases s,
{
    if s.len() == 0 {
        Set::empty()
    } else {
        refs_entries(s.subrange(0, s.len() - 1)).union(refs_expr(s[s.len() - 1].key)).union(
            refs_expr(s[s.len() - 1].value),
        )
    }
}

pub open spec fn refs_parts(s: Seq<StringPart>) -> Set<Seq<char>>
    decreases s,
{
    if s.len() == 0 {
        Set::empty()
    } else {
        refs_parts(s.subrange(0, s.len() - 1)).union(
            match s[s.len() - 1] {
                StringPart::Expr(e, _) => refs_expr(e),
                StringPart::Text(_) => Set::empty(),
            },
        )
    }
}

/// Add the binding names `e` references to `out`.
pub fn collect_ident_names(e: &Expr, out: &mut NameSet)
    ensures
        final(out)@ == old(out)@.union(refs_expr(*e)),
    decreases e,
{
    let ghost start = out@;
    proof {
        assert(start.union(Set::empty()) =~= start);
    }
    match e {
        Expr::Ident(n, _) => {
            out.insert(n.clone());
            proof {
                assert(out@ =~= start.union(set![n@]));
            }
        },
        Expr::Call(c) => {
            match &*c.callee {
                Expr::Ident(_, _) => {
                    collect_names_all(&c.args, out);
                },
                other => {
                    collect_ident_names(other, out);
                    collect_names_all(&c.args, out);
                    proof {
                        assert(out@ =~= start.union(refs_expr(*other).union(refs_exprs(c.args@))));
                    }
                },
            }
        },
        Expr::Wait(inner, _) => collect_ident_names(inner, out),
        Expr::Background(inner, _) => collect_ident_names(inner, out),
        Expr::BinOp { lhs, rhs, .. } => {
            collect_ident_names(lhs, out);
            collect_ident_names(rhs, out);
            proof {
                assert(out@ =~= start.union(refs_expr(**lhs).union(refs_expr(**rhs))));
            }
        },
        Expr::UnaryOp { operand, .. } => collect_ident_names(operand, out),
        Expr::FieldAccess { receiver, .. } => collect_ident_names(receiver, out),
        Expr::MethodCall { receiver, args, .. } => {
            collect_ident_names(receiver, out);
            collect_names_all(args, out);
            proof {
                assert(out@ =~= start.union(refs_expr(**receiver).union(refs_exprs(args@))));
            }
        },
        Expr::IndexAccess { receiver, index, .. } => {
            collect_ident_names(receiver, out);
            collect_ident_names(index, out);
            proof {
                assert(out@ =~= start.union(refs_expr(**receiver).union(refs_expr(**index))));
            }
        },
        Expr::StructLit { fields, .. } => collect_names_fields(fields, out),
        Expr::ArrayLit { elements, .. } => collect_names_all(elements, out),
        Expr::MapLit { entries, .. } => collect_names_entries(entries, out),
        Expr::InterpolatedString(parts, _) => collect_names_parts(parts, out),
        Expr::PostfixOp { receiver, .. } => collect_ident_names(receiver, out),
        Expr::Is { expr, .. } => collect_ident_names(expr, out),
        _ => {},
    }
}

fn collect_names_all(v: &Vec<Expr>, out: &mut NameSet)
    ensures
        final(out)@ == old(out)@.union(refs_exprs(v@)),
    decreases v,
{
    let ghost start = out@;
    let mut i: usize = 0;
    proof {
        assert(v@.subrange(0, 0) =~= Seq::<Expr>::empty());
        assert(start.union(Set::empty()) =~= start);
    }
    while i < v.len()
        invariant
            i <= v.len(),
            out@ == start.union(refs_exprs(v@.subrange(0, i as int))),
        decreases v.len() - i,
    {
        collect_ident_names(&v[i], out);
        proof {
            let pre = v@.subrange(0, i + 1);
            assert(pre.subrange(0, i as int) =~= v@.subrange(0, i as int));
            assert(pre[i as int] == v@[i as int]);
            assert(out@ =~= start.union(refs_exprs(pre)));
        }
        i = i + 1;
    }
    proof {
        assert(v@.subrange(0, v.len() as int) =~= v@);
    }
}

fn collect_names_fields(v: &Vec<FieldInit>, out: &mut NameSet)
    ensures
        final(out)@ == old(out)@.union(refs_fields(v@)),
    decreases v,
{
    let ghost start = out@;
    let mut i: usize = 0;
    proof {
        assert(v@.subrange(0, 0) =~= Seq::<FieldInit>::empty());
        assert(start.union(Set::empty()) =~= start);
    }
    while i < v.len()
        invariant
            i <= v.len(),
            out@ == start.union(refs_fields(v@.subrange(0, i as int))),
        decreases v.len() - i,
    {
        collect_ident_names(&v[i].value, out);
        proof {
            let pre = v@.subrange(0, i + 1);
            assert(pre.subrange(0, i as int) =~= v@.subrange(0, i as int));
            assert(pre[i as int] == v@[i as int]);
            assert(out@ =~= start.union(refs_fields(pre)));
        }
        i = i + 1;
    }
    proof {
        assert(v@.subrange(0, v.len() as int) =~= v@);
    }
}

fn collect_names_entries(v: &Vec<MapEntryLit>, out: &mut NameSet)
    ensures
        final(out)@ == old(out)@.union(refs_entries(v@)),
    decreases v,
{
    let ghost start = out@;
    let mut i: usize = 0;
    proof {
        assert(v@.subrange(0, 0) =~= Seq::<MapEntryLit>::empty());
        assert(start.union(Set::empty()) =~= start);
    }
    while i < v.len()
        invariant
            i <= v.len(),
            out@ == start.union(refs_entries(v@.subrange(0, i as int))),
        decreases v.len() - i,
    {
        collect_ident_names(&v[i].key, out);
        collect_ident_names(&v[i].value, out);
        proof {
            let pre = v@.subrange(0, i + 1);
            assert(pre.subrange(0, i as int) =~= v@.subrange(0, i as int));
            assert(pre[i as int] == v@[i as int]);
            assert(out@ =~= start.union(refs_entries(pre)));
        }
        i = i + 1;
    }
    proof {
        assert(v@.subrange(0, v.len() as int) =~= v@);
    }
}

fn collect_names_parts(v: &Vec<StringPart>, out: &mut NameSet)
    ensures
        final(out)@ == old(out)@.union(refs_parts(v@)),
    decreases v,
{
    let ghost start = out@;
    let mut i: usize = 0;
    proof {
        assert(v@.subrange(0, 0) =~= Seq::<StringPart>::empty());
        assert(start.union(Set::empty()) =~= start);
    }
    while i < v.len()
        invariant
            i <= v.len(),
            out@ == start.union(refs_parts(v@.subrange(0, i as int))),
        decreases v.len() - i,
    {
        let ghost before = out@;
        match &v[i] {
            StringPart::Expr(e, _) => collect_ident_names(e, out),
            StringPart::Text(_) => {},
        }
        proof {
            let pre = v@.subrange(0, i + 1);
            assert(pre.subrange(0, i as int) =~= v@.subrange(0, i as int));
            assert(pre[i as int] == v@[i as int]);
            assert(before.union(Set::empty()) =~= before);
            assert(out@ =~= start.union(refs_parts(pre)));
        }
        i = i + 1;
    }
    proof {
        assert(v@.subrange(0, v.len() as int) =~= v@);
    }
}

} // verus!

verus! {

/// The binding a statement introduces at top level (a `let`).
pub open spec fn spec_defines(st: Stmt) -> Set<Seq<char>> {
    match st {
        Stmt::Let { name, .. } => set![name@],
        _ => Set::empty(),
    }
}

/// The binding names a statement's own expressions read (nested blocks are not walked).
pub open spec fn spec_reads(st: Stmt) -> Set<Seq<char>> {
    match st {
        Stmt::Let { value, .. } => refs_expr(value),
        Stmt::Assign { value, .. } => refs_expr(value),
        Stmt::Expr(e) => refs_expr(e),
        Stmt::Return { value, .. } => match value {
            Some(v) => refs_expr(v),
            None => Set::empty(),
        },
        Stmt::FieldAssign { target, value, .. } => refs_expr(target).union(refs_expr(value)),
        Stmt::IndexAssign { receiver, index, value, .. } => refs_expr(receiver).union(refs_expr(index)).union(
            refs_expr(value),
        ),
        _ => Set::empty(),
    }
}

/// The set of binding names defined by a statement.
pub fn stmt_defines(stmt: &Stmt) -> (r: NameSet)
    ensures
        r@ == spec_defines(*stmt),
{
    let mut r = NameSet::new();
    match stmt {
        Stmt::Let { name, .. } => {
            r.insert(name.clone());
            proof {
                assert(r@ =~= set![name@]);
            }
        },
        _ => {},
    }
    r
}

/// The set of binding names read by a statement's expressions.
pub fn stmt_reads(stmt: &Stmt) -> (r: NameSet)
    ensures
        r@ == spec_reads(*stmt),
{
    let mut r = NameSet::new();
    proof {
        assert(Set::<Seq<char>>::empty().union(Set::<Seq<char>>::empty()) =~= Set::<Seq<char>>::empty());
    }
    match stmt {
        Stmt::Let { value, .. } => collect_ident_names(value, &mut r),
        Stmt::Assign { value, .. } => collect_ident_names(value, &mut r),
        Stmt::Expr(e) => collect_ident_names(e, &mut r),
        Stmt::Return { value, .. } => match value {
            Some(v) => collect_ident_names(v, &mut r),
            None => {},
        },
        Stmt::FieldAssign { target, value, .. } => {
            collect_ident_names(target, &mut r);
            collect_ident_names(value, &mut r);
        },
        Stmt::IndexAssign { receiver, index, value, .. } => {
            collect_ident_names(receiver, &mut r);
            collect_ident_names(index, &mut r);
            collect_ident_names(value, &mut r);
        },
        _ => {},
    }
    proof {
        assert(r@ =~= spec_reads(*stmt));
    }
    r
}

/// The callee name and arguments of a `let x = f(args)` or bare `f(args)` statement
/// (optionally `wait`-prefixed) whose callee is a plain name.
pub open spec fn spec_call_args(st: Stmt) -> Option<(Seq<char>, Seq<Expr>)> {
    let v = match st {
        Stmt::Let { value, .. } => Some(value),
        Stmt::Expr(e) => Some(e),
        _ => None,
    };
    match v {
        Some(e) => {
            let call = match e {
                Expr::Call(c) => Some(c),
                Expr::Wait(inner, _) => match *inner {
                    Expr::Call(c) => Some(c),
                    _ => None,
                },
                _ => None,
            };
            match call {
                Some(c) => match *c.callee {
                    Expr::Ident(n, _) => Some((n@, c.args@)),
                    _ => None,
                },
                None => None,
            }
        },
        None => None,
    }
}

/// The callee name and arguments of a direct call statement, if it is one.
pub fn stmt_call_args(stmt: &Stmt) -> (r: Option<(&str, &Vec<Expr>)>)
    ensures
        match r {
            Some((n, args)) => spec_call_args(*stmt) == Some((n@, args@)),
            None => spec_call_args(*stmt) is None,
        },
{
    let e = match stmt {
        Stmt::Let { value, .. } => value,
        Stmt::Expr(e) => e,
        _ => {
            return None;
        },
    };
    let c = match e {
        Expr::Call(c) => c,
        Expr::Wait(inner, _) => match &**inner {
            Expr::Call(c) => c,
            _ => {
                return None;
            },
        },
        _ => {
            return None;
        },
    };
    match &*c.callee {
        Expr::Ident(n, _) => Some((n.as_str(), &c.args)),
        _ => None,
    }
}

/// The callee of a `let x = f(args)` or bare `f(args)` statement (no `wait`) when `f` is in
/// `suspend_set`.
pub open spec fn spec_direct_suspending_callee(st: Stmt, suspend_set: Set<Seq<char>>) -> Option<Seq<char>> {
    let v = match st {
        Stmt::Let { value, .. } => Some(value),
        Stmt::Expr(e) => Some(e),
        _ => None,
    };
    match v {
        Some(Expr::Call(c)) => match *c.callee {
            Expr::Ident(n, _) => if suspend_set.contains(n@) {
                Some(n@)
            } else {
                None
            },
            _ => None,
        },
        _ => None,
    }
}

/// The callee name if `stmt` is a direct suspending call (no `wait` prefix).
pub fn stmt_direct_suspending_callee(stmt: &Stmt, suspend_set: &NameSet) -> (r: Option<String>)
    ensures
        match r {
            Some(n) => spec_direct_suspending_callee(*stmt, suspend_set@) == Some(n@),
            None => spec_direct_suspending_callee(*stmt, suspend_set@) is None,
        },
{
    let e = match stmt {
        Stmt::Let { value, .. } => value,
        Stmt::Expr(e) => e,
        _ => {
            return None;
        },
    };
    match e {
        Expr::Call(c) => match &*c.callee {
            Expr::Ident(n, _) => if suspend_set.contains(n.as_str()) {
                Some(n.clone())
            } else {
                None
            },
            _ => None,
        },
        _ => None,
    }
}

/// The direct callee name of a `let x = f(args)` or bare `f(args)` statement, regardless
/// of class or `wait` prefix.
pub fn stmt_direct_callee_name(stmt: &Stmt) -> (r: Option<String>)
    ensures
        match r {
            Some(n) => match spec_call_args(*stmt) {
                Some(p) => p.0 == n@,
                None => false,
            },
            None => spec_call_args(*stmt) is None,
        },
{
    match stmt_call_args(stmt) {
        Some((n, _)) => Some(crate::text::lit(n)),
        None => None,
    }
}

/// The statement is `wait`-prefixed: `wait e` or `let x = wait e`.
pub open spec fn spec_has_explicit_wait(st: Stmt) -> bool {
    match st {
        Stmt::Expr(Expr::Wait(_, _)) => true,
        Stmt::Let { value: Expr::Wait(_, _), .. } => true,
        _ => false,
    }
}

/// Does the statement have an explicit `wait` prefix?
pub fn stmt_has_explicit_wait(stmt: &Stmt) -> (b: bool)
    ensures
        b == spec_has_explicit_wait(*stmt),
{
    match stmt {
        Stmt::Expr(Expr::Wait(_, _)) => true,
        Stmt::Let { value: Expr::Wait(_, _), .. } => true,
        _ => false,
    }
}

/// Some argument position below `n` of a call to `callee` is write-capable.
pub open spec fn has_write_arg(
    local: Seq<(String, FunctionSig)>,
    imported: Seq<(String, FunctionSig)>,
    callee: Seq<char>,
    n: int,
) -> bool {
    exists|i: int| 0 <= i < n && write_capable(local, imported, callee, i)
}

/// The two statements are provably independent: no data dependency either way, no binding
/// defined by both, both direct calls, and neither passes an argument at a write-capable
/// position.
pub open spec fn spec_independent(
    a: Stmt,
    b: Stmt,
    local: Seq<(String, FunctionSig)>,
    imported: Seq<(String, FunctionSig)>,
) -> bool {
    &&& spec_defines(a).disjoint(spec_reads(b))
    &&& spec_defines(b).disjoint(spec_reads(a))
    &&& spec_defines(a).disjoint(spec_defines(b))
    &&& match (spec_call_args(a), spec_call_args(b)) {
        (Some(x), Some(y)) => !has_write_arg(local, imported, x.0, x.1.len() as int) && !has_write_arg(
            local,
            imported,
            y.0,
            y.1.len() as int,
        ),
        _ => false,
    }
}

fn sets_intersect(a: &NameSet, b: &NameSet) -> (r: bool)
    ensures
        r == !a@.disjoint(b@),
{
    let n = a.len();
    let mut i: usize = 0;
    while i < n
        invariant
            i <= n,
            n == a.entries().len(),
            forall|j: int| 0 <= j < i ==> !b@.contains(#[trigger] a.entries()[j]),
        decreases n - i,
    {
        if b.contains(a.name_at(i).as_str()) {
            proof {
                assert(a@.contains(a.entries()[i as int]));
            }
            return true;
        }
        i = i + 1;
    }
    proof {
        assert forall|x: Seq<char>| a@.contains(x) implies !b@.contains(x) by {
            let j = choose|j: int| 0 <= j < a.entries().len() && a.entries()[j] == x;
        }
    }
    false
}

fn has_position_below(w: &Vec<usize>, n: usize) -> (r: bool)
    ensures
        r == exists|k: int| 0 <= k < w@.len() && (w@[k] as int) < n,
{
    let mut k: usize = 0;
    while k < w.len()
        invariant
            k <= w@.len(),
            forall|q: int| 0 <= q < k ==> (w@[q] as int) >= n,
        decreases w@.len() - k,
    {
        if w[k] < n {
            return true;
        }
        k = k + 1;
    }
    false
}

/// The binding names referenced by the arguments at write-capable positions.
pub fn call_site_write_set(args: &Vec<Expr>, write_positions: &Vec<usize>) -> (r: NameSet)
    ensures
        forall|x: Seq<char>|
            r@.contains(x) <==> exists|i: int|
                0 <= i < args@.len() && (exists|k: int| 0 <= k < write_positions@.len() && write_positions@[k] as int == i)
                    && #[trigger] refs_expr(args@[i]).contains(x),
{
    let mut r = NameSet::new();
    let mut i: usize = 0;
    while i < args.len()
        invariant
            i <= args@.len(),
            forall|x: Seq<char>|
                r@.contains(x) <==> exists|j: int|
                    0 <= j < i && (exists|k: int| 0 <= k < write_positions@.len() && write_positions@[k] as int == j)
                        && #[trigger] refs_expr(args@[j]).contains(x),
        decreases args@.len() - i,
    {
        let ghost before = r@;
        let mut at_write = false;
        let mut k: usize = 0;
        while k < write_positions.len()
            invariant
                k <= write_positions@.len(),
                at_write == exists|q: int| 0 <= q < k && write_positions@[q] as int == i,
            decreases write_positions@.len() - k,
        {
            if write_positions[k] == i {
                at_write = true;
            }
            k = k + 1;
        }
        if at_write {
            collect_ident_names(&args[i], &mut r);
        }
        proof {
            assert forall|x: Seq<char>|
                r@.contains(x) <==> exists|j: int|
                    0 <= j < i + 1 && (exists|k: int| 0 <= k < write_positions@.len() && write_positions@[k] as int == j)
                        && #[trigger] refs_expr(args@[j]).contains(x) by {
                if exists|j: int|
                    0 <= j < i + 1 && (exists|k: int| 0 <= k < write_positions@.len() && write_positions@[k] as int == j)
                        && #[trigger] refs_expr(args@[j]).contains(x) {
                    let j = choose|j: int|
                        0 <= j < i + 1 && (exists|k: int|
                            0 <= k < write_positions@.len() && write_positions@[k] as int == j) && #[trigger] refs_expr(
                            args@[j],
                        ).contains(x);
                    if j < i {
                        assert(before.contains(x));
                    }
                }
            }
        }
        i = i + 1;
    }
    r
}

/// Are `a` and `b` provably independent?
pub fn stmts_are_independent(
    a: &Stmt,
    b: &Stmt,
    local: &SignatureTable,
    imported: &Vec<(String, FunctionSig)>,
) -> (r: bool)
    ensures
        r == spec_independent(*a, *b, local.fns@, imported@),
{
    let defs_a = stmt_defines(a);
    let reads_a = stmt_reads(a);
    let defs_b = stmt_defines(b);
    let reads_b = stmt_reads(b);
    if sets_intersect(&defs_a, &reads_b) {
        return false;
    }
    if sets_intersect(&defs_b, &reads_a) {
        return false;
    }
    if sets_intersect(&defs_a, &defs_b) {
        return false;
    }
    let (callee_a, args_a) = match stmt_call_args(a) {
        Some(x) => x,
        None => {
            return false;
        },
    };
    let (callee_b, args_b) = match stmt_call_args(b) {
        Some(x) => x,
        None => {
            return false;
        },
    };
    let write_a = write_effects_of(local, imported, callee_a);
    let write_b = write_effects_of(local, imported, callee_b);
    let a_has_write_arg = has_position_below(&write_a, args_a.len());
    let b_has_write_arg = has_position_below(&write_b, args_b.len());
    proof {
        assert(a_has_write_arg == has_write_arg(local.fns@, imported@, callee_a@, args_a@.len() as int)) by {
            if a_has_write_arg {
                let k = choose|k: int| 0 <= k < write_a@.len() && (write_a@[k] as int) < args_a@.len();
                assert(write_capable(local.fns@, imported@, callee_a@, write_a@[k] as int));
            }
            if has_write_arg(local.fns@, imported@, callee_a@, args_a@.len() as int) {
                let i = choose|i: int| 0 <= i < args_a@.len() && write_capable(local.fns@, imported@, callee_a@, i);
                let k = choose|k: int| 0 <= k < write_a@.len() && write_a@[k] as int == i;
            }
        }
        assert(b_has_write_arg == has_write_arg(local.fns@, imported@, callee_b@, args_b@.len() as int)) by {
            if b_has_write_arg {
                let k = choose|k: int| 0 <= k < write_b@.len() && (write_b@[k] as int) < args_b@.len();
                assert(write_capable(local.fns@, imported@, callee_b@, write_b@[k] as int));
            }
            if has_write_arg(local.fns@, imported@, callee_b@, args_b@.len() as int) {
                let i = choose|i: int| 0 <= i < args_b@.len() && write_capable(local.fns@, imported@, callee_b@, i);
                let k = choose|k: int| 0 <= k < write_b@.len() && write_b@[k] as int == i;
            }
        }
    }
    if a_has_write_arg || b_has_write_arg {
        return false;
    }
    let writes_a = call_site_write_set(args_a, &write_a);
    let writes_b = call_site_write_set(args_b, &write_b);
    proof {
        assert forall|x: Seq<char>| !writes_a@.contains(x) by {
            if writes_a@.contains(x) {
                let i = choose|i: int|
                    0 <= i < args_a@.len() && (exists|k: int| 0 <= k < write_a@.len() && write_a@[k] as int == i)
                        && #[trigger] refs_expr(args_a@[i]).contains(x);
                let k = choose|k: int| 0 <= k < write_a@.len() && write_a@[k] as int == i;
            }
        }
        assert forall|x: Seq<char>| !writes_b@.contains(x) by {
            if writes_b@.contains(x) {
                let i = choose|i: int|
                    0 <= i < args_b@.len() && (exists|k: int| 0 <= k < write_b@.len() && write_b@[k] as int == i)
                        && #[trigger] refs_expr(args_b@[i]).contains(x);
                let k = choose|k: int| 0 <= k < write_b@.len() && write_b@[k] as int == i;
            }
        }
    }
    if sets_intersect(&writes_a, &reads_b) || sets_intersect(&writes_a, &writes_b) {
        return false;
    }
    if sets_intersect(&writes_b, &reads_a) {
        return false;
    }
    true
}

} // verus!

verus! {

/// A group of statement positions: lowered alone, or as one parallel group.
pub enum GroupShape {
    Single(int),
    Par(Seq<int>),
}

/// The partition so far: closed groups, and the group being collected.
pub struct PartState {
    pub groups: Seq<GroupShape>,
    pub pending: Seq<int>,
}

/// What the partition reads besides the statements.
pub struct PartEnv {
    pub suspend: Set<Seq<char>>,
    pub local: Seq<(String, FunctionSig)>,
    pub imported: Seq<(String, FunctionSig)>,
}

/// Close the pending group: nothing when empty, a single statement alone, two or more as
/// one parallel group.
pub open spec fn flush(st: PartState) -> PartState {
    if st.pending.len() == 0 {
        st
    } else if st.pending.len() == 1 {
        PartState { groups: st.groups.push(GroupShape::Single(st.pending[0])), pending: Seq::empty() }
    } else {
        PartState { groups: st.groups.push(GroupShape::Par(st.pending)), pending: Seq::empty() }
    }
}

/// One step of the partition, for the statement at position `i`: a `wait`-prefixed or
/// non-candidate statement closes the pending group and stands alone; a suspending call
/// whose callee is already pending, or that is not independent of every pending member,
/// closes the pending group and starts a new one; otherwise it joins the pending group.
pub open spec fn part_step(stmts: Seq<Stmt>, env: PartEnv, st: PartState, i: int) -> PartState {
    let s = stmts[i];
    if spec_has_explicit_wait(s) || spec_direct_suspending_callee(s, env.suspend) is None {
        let f = flush(st);
        PartState { groups: f.groups.push(GroupShape::Single(i)), pending: Seq::empty() }
    } else {
        let c = spec_direct_suspending_callee(s, env.suspend);
        let same_callee = exists|k: int|
            0 <= k < st.pending.len() && spec_direct_suspending_callee(stmts[#[trigger] st.pending[k]], env.suspend) == c;
        let independent = forall|k: int|
            0 <= k < st.pending.len() ==> spec_independent(stmts[#[trigger] st.pending[k]], s, env.local, env.imported);
        if !same_callee && independent {
            PartState { groups: st.groups, pending: st.pending.push(i) }
        } else {
            PartState { groups: flush(st).groups, pending: seq![i] }
        }
    }
}

/// The partition state after the first `n` statements.
pub open spec fn part_upto(stmts: Seq<Stmt>, env: PartEnv, n: int) -> PartState
    decreases n,
{
    if n <= 0 {
        PartState { groups: Seq::empty(), pending: Seq::empty() }
    } else {
        part_step(stmts, env, part_upto(stmts, env, n - 1), n - 1)
    }
}

/// The groups of the whole statement list, in source order.
pub open spec fn spec_partition(stmts: Seq<Stmt>, env: PartEnv) -> Seq<GroupShape> {
    flush(part_upto(stmts, env, stmts.len() as int)).groups
}

/// A group of statements to lower together.
#[derive(Debug)]
pub enum IndependentGroup<'a> {
    /// A single statement, lowered sequentially.
    Singleton(&'a Stmt),
    /// Two or more independent suspending calls with distinct callees.
    Parallel(Vec<&'a Stmt>),
}

/// The executable groups are the statements at the positions of the group shapes.
pub open spec fn groups_match<'a>(r: Seq<IndependentGroup<'a>>, gs: Seq<GroupShape>, stmts: Seq<Stmt>) -> bool {
    &&& r.len() == gs.len()
    &&& forall|k: int|
        0 <= k < r.len() ==> match (#[trigger] r[k], gs[k]) {
            (IndependentGroup::Singleton(s), GroupShape::Single(i)) => 0 <= i < stmts.len() && *s == stmts[i],
            (IndependentGroup::Parallel(v), GroupShape::Par(is)) => v@.len() == is.len() && forall|j: int|
                0 <= j < is.len() ==> 0 <= #[trigger] is[j] < stmts.len() && *v@[j] == stmts[is[j]],
            _ => false,
        }
}

fn flush_pending<'a>(
    stmts: &'a Vec<Stmt>,
    pending: &mut Vec<usize>,
    groups: &mut Vec<IndependentGroup<'a>>,
    Ghost(st): Ghost<PartState>,
) -> (r: Ghost<PartState>)
    requires
        groups_match(old(groups)@, st.groups, stmts@),
        st.pending == old(pending)@.map_values(|p: usize| p as int),
        forall|k: int| 0 <= k < old(pending)@.len() ==> (#[trigger] old(pending)@[k]) < stmts@.len(),
    ensures
        r@ == flush(st),
        groups_match(final(groups)@, r@.groups, stmts@),
        final(pending)@.len() == 0,
{
    let ghost f = flush(st);
    if pending.len() == 0 {
        return Ghost(f);
    }
    if pending.len() == 1 {
        let p = pending[0];
        groups.push(IndependentGroup::Singleton(&stmts[p]));
        pending.clear();
        proof {
            assert forall|k: int| 0 <= k < groups@.len() implies match (#[trigger] groups@[k], f.groups[k]) {
                (IndependentGroup::Singleton(s), GroupShape::Single(i)) => 0 <= i < stmts@.len() && *s == stmts@[i],
                (IndependentGroup::Parallel(v), GroupShape::Par(is)) => v@.len() == is.len() && forall|j: int|
                    0 <= j < is.len() ==> 0 <= #[trigger] is[j] < stmts@.len() && *v@[j] == stmts@[is[j]],
                _ => false,
            } by {
                if k < groups@.len() - 1 {
                    assert(groups@[k] == old(groups)@[k]);
                }
            }
        }
        return Ghost(f);
    }
    let mut members: Vec<&'a Stmt> = Vec::new();
    let mut j: usize = 0;
    while j < pending.len()
        invariant
            j <= pending@.len(),
            pending@ == old(pending)@,
            members@.len() == j,
            forall|q: int| 0 <= q < old(pending)@.len() ==> (#[trigger] old(pending)@[q]) < stmts@.len(),
            forall|q: int| 0 <= q < j ==> *members@[q] == stmts@[pending@[q] as int],
        decreases pending@.len() - j,
    {
        members.push(&stmts[pending[j]]);
        j = j + 1;
    }
    groups.push(IndependentGroup::Parallel(members));
    pending.clear();
    proof {
        assert forall|k: int| 0 <= k < groups@.len() implies match (#[trigger] groups@[k], f.groups[k]) {
            (IndependentGroup::Singleton(s), GroupShape::Single(i)) => 0 <= i < stmts@.len() && *s == stmts@[i],
            (IndependentGroup::Parallel(v), GroupShape::Par(is)) => v@.len() == is.len() && forall|j: int|
                0 <= j < is.len() ==> 0 <= #[trigger] is[j] < stmts@.len() && *v@[j] == stmts@[is[j]],
            _ => false,
        } by {
            if k < groups@.len() - 1 {
                assert(groups@[k] == old(groups)@[k]);
            }
        }
    }
    Ghost(f)
}

/// Partition a straight-line statement list into independence groups, in source order:
/// each `Parallel` group holds two or more suspending calls that may be interleaved, each
/// `Singleton` one statement lowered sequentially (see [`part_step`] for the rule).
pub fn partition_independent_groups<'a>(
    stmts: &'a Vec<Stmt>,
    suspend_set: &NameSet,
    sig_table: &SignatureTable,
    imported_fns: &Vec<(String, FunctionSig)>,
) -> (r: Vec<IndependentGroup<'a>>)
    ensures
        groups_match(
            r@,
            spec_partition(stmts@, PartEnv { suspend: suspend_set@, local: sig_table.fns@, imported: imported_fns@ }),
            stmts@,
        ),
{
    let ghost env = PartEnv { suspend: suspend_set@, local: sig_table.fns@, imported: imported_fns@ };
    let mut groups: Vec<IndependentGroup<'a>> = Vec::new();
    let mut pending: Vec<usize> = Vec::new();
    let ghost mut st = PartState { groups: Seq::empty(), pending: Seq::empty() };
    let mut i: usize = 0;
    proof {
        assert(st.pending =~= pending@.map_values(|p: usize| p as int));
    }
    while i < stmts.len()
        invariant
            i <= stmts@.len(),
            env == (PartEnv { suspend: suspend_set@, local: sig_table.fns@, imported: imported_fns@ }),
            st == part_upto(stmts@, env, i as int),
            groups_match(groups@, st.groups, stmts@),
            st.pending == pending@.map_values(|p: usize| p as int),
            forall|k: int| 0 <= k < pending@.len() ==> (#[trigger] pending@[k]) < i,
        decreases stmts@.len() - i,
    {
        let stmt = &stmts[i];
        let ghost next = part_step(stmts@, env, st, i as int);
        let callee = if stmt_has_explicit_wait(stmt) {
            None
        } else {
            stmt_direct_suspending_callee(stmt, suspend_set)
        };
        match callee {
            None => {
                let Ghost(f) = flush_pending(stmts, &mut pending, &mut groups, Ghost(st));
                groups.push(IndependentGroup::Singleton(stmt));
                proof {
                    st = next;
                    assert forall|k: int| 0 <= k < groups@.len() implies match (#[trigger] groups@[k], st.groups[k]) {
                        (IndependentGroup::Singleton(s), GroupShape::Single(i)) => 0 <= i < stmts@.len() && *s == stmts@[i],
                        (IndependentGroup::Parallel(v), GroupShape::Par(is)) => v@.len() == is.len() && forall|j: int|
                            0 <= j < is.len() ==> 0 <= #[trigger] is[j] < stmts@.len() && *v@[j] == stmts@[is[j]],
                        _ => false,
                    } by {
                        if k < groups@.len() - 1 {
                            assert(st.groups[k] == f.groups[k]);
                        }
                    }
                    assert(st.pending =~= pending@.map_values(|p: usize| p as int));
                }
            },
            Some(c) => {
                let mut same = false;
                let mut independent = true;
                let mut k: usize = 0;
                while k < pending.len()
                    invariant
                        k <= pending@.len(),
                        i < stmts@.len(),
                        stmt == &stmts@[i as int],
                        env == (PartEnv { suspend: suspend_set@, local: sig_table.fns@, imported: imported_fns@ }),
                        st.pending == pending@.map_values(|p: usize| p as int),
                        forall|q: int| 0 <= q < pending@.len() ==> (#[trigger] pending@[q]) < i,
                        spec_direct_suspending_callee(stmts@[i as int], env.suspend) == Some(c@),
                        same == exists|q: int|
                            0 <= q < k && spec_direct_suspending_callee(stmts@[#[trigger] st.pending[q]], env.suspend)
                                == Some(c@),
                        independent == forall|q: int|
                            0 <= q < k ==> spec_independent(
                                stmts@[#[trigger] st.pending[q]],
                                stmts@[i as int],
                                env.local,
                                env.imported,
                            ),
                    decreases pending@.len() - k,
                {
                    let prev = &stmts[pending[k]];
                    let pc = stmt_direct_suspending_callee(prev, suspend_set);
                    let hit = match pc {
                        Some(p) => crate::text::str_eq(p.as_str(), c.as_str()),
                        None => false,
                    };
                    if hit {
                        same = true;
                    }
                    if !stmts_are_independent(prev, stmt, sig_table, imported_fns) {
                        independent = false;
                    }
                    proof {
                        assert(st.pending[k as int] == pending@[k as int] as int);
                    }
                    k = k + 1;
                }
                proof {
                    assert(!spec_has_explicit_wait(stmts@[i as int]));
                }
                if !same && independent {
                    pending.push(i);
                    proof {
                        st = next;
                        assert(st.pending =~= pending@.map_values(|p: usize| p as int));
                    }
                } else {
                    let Ghost(f) = flush_pending(stmts, &mut pending, &mut groups, Ghost(st));
                    pending.push(i);
                    proof {
                        st = next;
                        assert(st.pending =~= pending@.map_values(|p: usize| p as int));
                    }
                }
            },
        }
        i = i + 1;
    }
    let Ghost(f) = flush_pending(stmts, &mut pending, &mut groups, Ghost(st));
    groups
}

} // verus!

verus! {

/// The positions a group covers.
pub open spec fn group_positions(g: GroupShape) -> Seq<int> {
    match g {
        GroupShape::Single(i) => seq![i],
        GroupShape::Par(is) => is,
    }
}

/// The positions the groups cover, in order.
pub open spec fn positions_of(gs: Seq<GroupShape>) -> Seq<int>
    decreases gs.len(),
{
    if gs.len() == 0 {
        Seq::empty()
    } else {
        positions_of(gs.drop_last()) + group_positions(gs.last())
    }
}

/// A candidate member of a parallel group: a suspending direct call with no `wait` prefix.
pub open spec fn parallel_candidate(s: Stmt, env: PartEnv) -> bool {
    !spec_has_explicit_wait(s) && spec_direct_suspending_callee(s, env.suspend) is Some
}

/// Ascending positions of candidate statements that are pairwise independent (each
/// earlier one of each later one) with pairwise distinct callees.
pub open spec fn compatible(stmts: Seq<Stmt>, env: PartEnv, is: Seq<int>) -> bool {
    &&& forall|j: int| 0 <= j < is.len() ==> 0 <= #[trigger] is[j] < stmts.len() && parallel_candidate(stmts[is[j]], env)
    &&& forall|j: int, k: int|
        0 <= j < k < is.len() ==> #[trigger] is[j] < #[trigger] is[k] && spec_independent(
            stmts[is[j]],
            stmts[is[k]],
            env.local,
            env.imported,
        ) && spec_direct_suspending_callee(stmts[is[j]], env.suspend) != spec_direct_suspending_callee(
            stmts[is[k]],
            env.suspend,
        )
}

/// Every parallel group has at least two members and they are compatible.
pub open spec fn groups_sound(stmts: Seq<Stmt>, env: PartEnv, gs: Seq<GroupShape>) -> bool {
    forall|k: int|
        0 <= k < gs.len() ==> match #[trigger] gs[k] {
            GroupShape::Par(is) => is.len() >= 2 && compatible(stmts, env, is),
            GroupShape::Single(i) => 0 <= i < stmts.len(),
        }
}

spec fn part_inv(stmts: Seq<Stmt>, env: PartEnv, st: PartState, n: int) -> bool {
    &&& positions_of(st.groups) + st.pending == Seq::new(n as nat, |i: int| i)
    &&& groups_sound(stmts, env, st.groups)
    &&& compatible(stmts, env, st.pending)
    &&& forall|j: int| 0 <= j < st.pending.len() ==> #[trigger] st.pending[j] < n
}

proof fn lemma_flush_inv(stmts: Seq<Stmt>, env: PartEnv, st: PartState, n: int)
    requires
        part_inv(stmts, env, st, n),
    ensures
        positions_of(flush(st).groups) == Seq::new(n as nat, |i: int| i),
        groups_sound(stmts, env, flush(st).groups),
        flush(st).pending.len() == 0,
{
    let f = flush(st);
    if st.pending.len() == 0 {
        assert(positions_of(st.groups) + st.pending =~= positions_of(st.groups));
    } else {
        assert(f.groups.drop_last() =~= st.groups);
        assert forall|k: int| 0 <= k < f.groups.len() implies match #[trigger] f.groups[k] {
            GroupShape::Par(is) => is.len() >= 2 && compatible(stmts, env, is),
            GroupShape::Single(i) => 0 <= i < stmts.len(),
        } by {
            if k < st.groups.len() {
                assert(f.groups[k] == st.groups[k]);
            }
        }
        if st.pending.len() == 1 {
            assert(group_positions(f.groups.last()) =~= st.pending);
        }
    }
}

proof fn lemma_part_inv(stmts: Seq<Stmt>, env: PartEnv, n: int)
    requires
        0 <= n <= stmts.len(),
    ensures
        part_inv(stmts, env, part_upto(stmts, env, n), n),
    decreases n,
{
    if n == 0 {
        let st = part_upto(stmts, env, 0);
        assert(positions_of(st.groups) + st.pending =~= Seq::new(0, |i: int| i));
    } else {
        lemma_part_inv(stmts, env, n - 1);
        let st = part_upto(stmts, env, n - 1);
        let i = n - 1;
        let s = stmts[i];
        let next = part_step(stmts, env, st, i);
        let f = flush(st);
        lemma_flush_inv(stmts, env, st, n - 1);
        let full = Seq::new(n as nat, |x: int| x);
        let prev = Seq::new((n - 1) as nat, |x: int| x);
        assert(full =~= prev.push(i));
        if spec_has_explicit_wait(s) || spec_direct_suspending_callee(s, env.suspend) is None {
            assert(next.groups.drop_last() =~= f.groups);
            assert(positions_of(next.groups) =~= positions_of(f.groups) + seq![i]);
            assert(positions_of(next.groups) + next.pending =~= full);
            assert forall|k: int| 0 <= k < next.groups.len() implies match #[trigger] next.groups[k] {
                GroupShape::Par(is) => is.len() >= 2 && compatible(stmts, env, is),
                GroupShape::Single(x) => 0 <= x < stmts.len(),
            } by {
                if k < f.groups.len() {
                    assert(next.groups[k] == f.groups[k]);
                }
            }
        } else {
            let c = spec_direct_suspending_callee(s, env.suspend);
            let same_callee = exists|k: int|
                0 <= k < st.pending.len() && spec_direct_suspending_callee(stmts[#[trigger] st.pending[k]], env.suspend)
                    == c;
            let independent = forall|k: int|
                0 <= k < st.pending.len() ==> spec_independent(stmts[#[trigger] st.pending[k]], s, env.local, env.imported);
            if !same_callee && independent {
                assert(next.groups == st.groups);
                assert(next.pending == st.pending.push(i));
                assert(positions_of(next.groups) + next.pending =~= (positions_of(st.groups) + st.pending).push(i));
                assert forall|j: int, k: int|
                    0 <= j < k < next.pending.len() implies #[trigger] next.pending[j] < #[trigger] next.pending[k]
                        && spec_independent(stmts[next.pending[j]], stmts[next.pending[k]], env.local, env.imported)
                        && spec_direct_suspending_callee(stmts[next.pending[j]], env.suspend)
                        != spec_direct_suspending_callee(stmts[next.pending[k]], env.suspend) by {
                    if k == st.pending.len() {
                        assert(next.pending[j] == st.pending[j]);
                        assert(next.pending[k] == i);
                    } else {
                        assert(next.pending[j] == st.pending[j]);
                        assert(next.pending[k] == st.pending[k]);
                    }
                }
                assert forall|j: int| 0 <= j < next.pending.len() implies 0 <= #[trigger] next.pending[j] < stmts.len()
                    && parallel_candidate(stmts[next.pending[j]], env) by {
                    if j < st.pending.len() {
                        assert(next.pending[j] == st.pending[j]);
                    }
                }
            } else {
                assert(next.groups == f.groups);
                assert(next.pending =~= seq![i]);
                assert(positions_of(next.groups) + next.pending =~= full);
            }
        }
    }
}

/// The partition covers every statement exactly once and in source order, and every
/// parallel group holds two or more candidate calls, each independent of every later one,
/// with pairwise distinct callees.
pub proof fn lemma_partition_sound(stmts: Seq<Stmt>, env: PartEnv)
    ensures
        positions_of(spec_partition(stmts, env)) == Seq::new(stmts.len(), |i: int| i),
        groups_sound(stmts, env, spec_partition(stmts, env)),
{
    lemma_part_inv(stmts, env, stmts.len() as int);
    lemma_flush_inv(stmts, env, part_upto(stmts, env, stmts.len() as int), stmts.len() as int);
}

} // verus!

verus! {

/// The execution class of a parallel-group member.
#[derive(Clone, Copy, Debug, PartialEq, Eq)]
pub enum MemberClass {
    /// A suspending (I/O) call, interleaved by inline polling.
    Suspending,
    /// A non-suspending call whose callee does real work, spawned onto the blocking pool.
    Cpu,
}

/// What CPU candidacy needs beyond the suspending path: the functions that do real work,
/// and the function whose body is being partitioned (a call to it is a self-recursive
/// spawn and never a CPU member).
pub struct CpuCandidacy<'a> {
    pub does_real_work: &'a NameSet,
    pub enclosing_fn: &'a str,
}

/// The `T` of a `T errors` return whose success word fits the CPU result slot.
pub open spec fn spec_ec_inner_is_safe(t: TypeView) -> bool {
    match t {
        TypeView::Int | TypeView::Float | TypeView::Bool | TypeView::String | TypeView::BuiltinArray { .. }
        | TypeView::BuiltinMap { .. } => true,
        _ => false,
    }
}

/// The return classes a CPU-parallel member may have: scalars, `number`, `string`,
/// `array`, `map`, and `T errors` for a safe `T`.
pub open spec fn spec_cpu_result_abi_supports(t: TypeView) -> bool {
    match t {
        TypeView::Int | TypeView::Float | TypeView::Bool | TypeView::Number { .. } | TypeView::String => true,
        TypeView::BuiltinArray { .. } | TypeView::BuiltinMap { .. } => true,
        TypeView::ErrorsCapable { inner } => spec_ec_inner_is_safe(*inner),
        _ => false,
    }
}

/// Is `inner`, in a `T errors` return, safe to carry in the success word?
pub fn cpu_result_ec_inner_is_safe(inner: &Type) -> (b: bool)
    ensures
        b == spec_ec_inner_is_safe(inner@),
{
    match inner {
        Type::Int | Type::Float | Type::Bool | Type::String | Type::BuiltinArray { .. } | Type::BuiltinMap { .. } => true,
        _ => false,
    }
}

/// May a CPU-parallel group member return `ret`?
pub fn cpu_result_abi_supports(ret: &Type) -> (b: bool)
    ensures
        b == spec_cpu_result_abi_supports(ret@),
{
    match ret {
        Type::Int | Type::Float | Type::Bool | Type::Number { .. } | Type::String => true,
        Type::BuiltinArray { .. } | Type::BuiltinMap { .. } => true,
        Type::ErrorsCapable { inner } => cpu_result_ec_inner_is_safe(inner),
        _ => false,
    }
}

/// The callee of a statement that is a CPU-parallel candidate: a direct call (no `wait`)
/// to a function that does not suspend, does real work, is not the enclosing function, and
/// has a known signature whose return class the CPU result slot carries.
pub open spec fn spec_cpu_callee(
    s: Stmt,
    env: PartEnv,
    real_work: Set<Seq<char>>,
    enclosing: Seq<char>,
) -> Option<Seq<char>> {
    if spec_has_explicit_wait(s) {
        None
    } else {
        match spec_call_args(s) {
            None => None,
            Some((c, _)) => if env.suspend.contains(c) || !real_work.contains(c) || c == enclosing {
                None
            } else {
                match resolve_sig(env.local, env.imported, c) {
                    Some(sig) => if spec_cpu_result_abi_supports(sig.ret@) {
                        Some(c)
                    } else {
                        None
                    },
                    None => None,
                }
            },
        }
    }
}

fn stmt_cpu_callee(
    stmt: &Stmt,
    suspend_set: &NameSet,
    sig_table: &SignatureTable,
    imported_fns: &Vec<(String, FunctionSig)>,
    cpu: &CpuCandidacy,
) -> (r: Option<String>)
    ensures
        match r {
            Some(n) => spec_cpu_callee(
                *stmt,
                PartEnv { suspend: suspend_set@, local: sig_table.fns@, imported: imported_fns@ },
                cpu.does_real_work@,
                cpu.enclosing_fn@,
            ) == Some(n@),
            None => spec_cpu_callee(
                *stmt,
                PartEnv { suspend: suspend_set@, local: sig_table.fns@, imported: imported_fns@ },
                cpu.does_real_work@,
                cpu.enclosing_fn@,
            ) is None,
        },
{
    if stmt_has_explicit_wait(stmt) {
        return None;
    }
    let (callee, _args) = match stmt_call_args(stmt) {
        Some(x) => x,
        None => {
            return None;
        },
    };
    if suspend_set.contains(callee) {
        return None;
    }
    if !cpu.does_real_work.contains(callee) {
        return None;
    }
    if crate::text::str_eq(callee, cpu.enclosing_fn) {
        return None;
    }
    let sig = match resolve_signature(sig_table, imported_fns, callee) {
        Some(s) => s,
        None => {
            return None;
        },
    };
    if !cpu_result_abi_supports(&sig.ret) {
        return None;
    }
    Some(crate::text::lit(callee))
}

/// A classified independence group.
#[derive(Debug)]
pub enum ClassifiedGroup<'a> {
    Singleton(&'a Stmt),
    Parallel { stmts: Vec<&'a Stmt>, classes: Vec<MemberClass> },
}

/// The classified partition so far: closed groups, and the pending members with classes.
pub struct ClassState {
    pub groups: Seq<(Seq<int>, Seq<MemberClass>)>,
    pub pending: Seq<(int, MemberClass)>,
}

/// Close the pending group (a one-member group carries no class).
pub open spec fn flush_classes(st: ClassState) -> ClassState {
    if st.pending.len() == 0 {
        st
    } else if st.pending.len() == 1 {
        ClassState { groups: st.groups.push((seq![st.pending[0].0], Seq::empty())), pending: Seq::empty() }
    } else {
        ClassState {
            groups: st.groups.push(
                (
                    Seq::new(st.pending.len(), |k: int| st.pending[k].0),
                    Seq::new(st.pending.len(), |k: int| st.pending[k].1),
                ),
            ),
            pending: Seq::empty(),
        }
    }
}

/// The class of a statement: suspending first, then CPU.
pub open spec fn member_class(s: Stmt, env: PartEnv, real_work: Set<Seq<char>>, enclosing: Seq<char>) -> Option<
    MemberClass,
> {
    if spec_direct_suspending_callee(s, env.suspend) is Some {
        Some(MemberClass::Suspending)
    } else if spec_cpu_callee(s, env, real_work, enclosing) is Some {
        Some(MemberClass::Cpu)
    } else {
        None
    }
}

/// One step of the class-aware partition: like [`part_step`], but CPU calls are members
/// too and the same-callee rule applies between suspending members only.
pub open spec fn class_step(
    stmts: Seq<Stmt>,
    env: PartEnv,
    real_work: Set<Seq<char>>,
    enclosing: Seq<char>,
    st: ClassState,
    i: int,
) -> ClassState {
    let s = stmts[i];
    let single = ClassState { groups: flush_classes(st).groups.push((seq![i], Seq::empty())), pending: Seq::empty() };
    if spec_has_explicit_wait(s) {
        single
    } else {
        match member_class(s, env, real_work, enclosing) {
            None => single,
            Some(class) => {
                let c = spec_direct_suspending_callee(s, env.suspend);
                let same_callee = class == MemberClass::Suspending && exists|k: int|
                    0 <= k < st.pending.len() && (#[trigger] st.pending[k]).1 == MemberClass::Suspending
                        && spec_direct_suspending_callee(stmts[st.pending[k].0], env.suspend) == c;
                let independent = forall|k: int|
                    0 <= k < st.pending.len() ==> spec_independent(
                        stmts[(#[trigger] st.pending[k]).0],
                        s,
                        env.local,
                        env.imported,
                    );
                if !same_callee && independent {
                    ClassState { groups: st.groups, pending: st.pending.push((i, class)) }
                } else {
                    ClassState { groups: flush_classes(st).groups, pending: seq![(i, class)] }
                }
            },
        }
    }
}

pub open spec fn class_upto(
    stmts: Seq<Stmt>,
    env: PartEnv,
    real_work: Set<Seq<char>>,
    enclosing: Seq<char>,
    n: int,
) -> ClassState
    decreases n,
{
    if n <= 0 {
        ClassState { groups: Seq::empty(), pending: Seq::empty() }
    } else {
        class_step(stmts, env, real_work, enclosing, class_upto(stmts, env, real_work, enclosing, n - 1), n - 1)
    }
}

/// The classified groups of a whole statement list: each group's positions and, for a
/// parallel group, its members' classes.
pub open spec fn spec_classified_partition(
    stmts: Seq<Stmt>,
    env: PartEnv,
    real_work: Set<Seq<char>>,
    enclosing: Seq<char>,
) -> Seq<(Seq<int>, Seq<MemberClass>)> {
    flush_classes(class_upto(stmts, env, real_work, enclosing, stmts.len() as int)).groups
}

/// The executable classified groups are the statements at the spec positions.
pub open spec fn classified_match<'a>(r: Seq<ClassifiedGroup<'a>>, gs: Seq<(Seq<int>, Seq<MemberClass>)>, stmts: Seq<Stmt>) -> bool {
    &&& r.len() == gs.len()
    &&& forall|k: int|
        0 <= k < r.len() ==> match #[trigger] r[k] {
            ClassifiedGroup::Singleton(s) => gs[k].0.len() == 1 && gs[k].1.len() == 0 && 0 <= gs[k].0[0] < stmts.len()
                && *s == stmts[gs[k].0[0]],
            ClassifiedGroup::Parallel { stmts: v, classes } => v@.len() == gs[k].0.len() && gs[k].0.len() >= 2
                && classes@ == gs[k].1 && forall|j: int|
                0 <= j < v@.len() ==> 0 <= #[trigger] gs[k].0[j] < stmts.len() && *v@[j] == stmts[gs[k].0[j]],
        }
}

fn flush_classified<'a>(
    stmts: &'a Vec<Stmt>,
    pending: &mut Vec<(usize, MemberClass)>,
    groups: &mut Vec<ClassifiedGroup<'a>>,
    Ghost(st): Ghost<ClassState>,
) -> (r: Ghost<ClassState>)
    requires
        classified_match(old(groups)@, st.groups, stmts@),
        st.pending == old(pending)@.map_values(|p: (usize, MemberClass)| (p.0 as int, p.1)),
        forall|k: int| 0 <= k < old(pending)@.len() ==> (#[trigger] old(pending)@[k]).0 < stmts@.len(),
    ensures
        r@ == flush_classes(st),
        classified_match(final(groups)@, r@.groups, stmts@),
        final(pending)@.len() == 0,
{
    let ghost f = flush_classes(st);
    if pending.len() == 0 {
        return Ghost(f);
    }
    if pending.len() == 1 {
        let p = pending[0].0;
        groups.push(ClassifiedGroup::Singleton(&stmts[p]));
        pending.clear();
        proof {
            assert forall|k: int| 0 <= k < groups@.len() implies match #[trigger] groups@[k] {
                ClassifiedGroup::Singleton(s) => f.groups[k].0.len() == 1 && f.groups[k].1.len() == 0 && 0
                    <= f.groups[k].0[0] < stmts@.len() && *s == stmts@[f.groups[k].0[0]],
                ClassifiedGroup::Parallel { stmts: v, classes } => v@.len() == f.groups[k].0.len() && f.groups[k].0.len()
                    >= 2 && classes@ == f.groups[k].1 && forall|j: int|
                    0 <= j < v@.len() ==> 0 <= #[trigger] f.groups[k].0[j] < stmts@.len() && *v@[j]
                        == stmts@[f.groups[k].0[j]],
            } by {
                if k < groups@.len() - 1 {
                    assert(groups@[k] == old(groups)@[k]);
                }
            }
        }
        return Ghost(f);
    }
    let mut members: Vec<&'a Stmt> = Vec::new();
    let mut classes: Vec<MemberClass> = Vec::new();
    let mut j: usize = 0;
    while j < pending.len()
        invariant
            j <= pending@.len(),
            pending@ == old(pending)@,
            members@.len() == j,
            classes@.len() == j,
            forall|q: int| 0 <= q < old(pending)@.len() ==> (#[trigger] old(pending)@[q]).0 < stmts@.len(),
            forall|q: int| 0 <= q < j ==> *members@[q] == stmts@[pending@[q].0 as int] && classes@[q] == pending@[q].1,
        decreases pending@.len() - j,
    {
        members.push(&stmts[pending[j].0]);
        classes.push(pending[j].1);
        j = j + 1;
    }
    groups.push(ClassifiedGroup::Parallel { stmts: members, classes });
    pending.clear();
    proof {
        assert(classes@ =~= Seq::new(st.pending.len(), |k: int| st.pending[k].1));
        assert forall|k: int| 0 <= k < groups@.len() implies match #[trigger] groups@[k] {
            ClassifiedGroup::Singleton(s) => f.groups[k].0.len() == 1 && f.groups[k].1.len() == 0 && 0
                <= f.groups[k].0[0] < stmts@.len() && *s == stmts@[f.groups[k].0[0]],
            ClassifiedGroup::Parallel { stmts: v, classes } => v@.len() == f.groups[k].0.len() && f.groups[k].0.len()
                >= 2 && classes@ == f.groups[k].1 && forall|j: int|
                0 <= j < v@.len() ==> 0 <= #[trigger] f.groups[k].0[j] < stmts@.len() && *v@[j]
                    == stmts@[f.groups[k].0[j]],
        } by {
            if k < groups@.len() - 1 {
                assert(groups@[k] == old(groups)@[k]);
            }
        }
    }
    Ghost(f)
}

/// Class-aware partition: a parallel-group member may be a suspending call or a CPU call
/// (see [`class_step`]); each parallel group carries its members' classes.
pub fn partition_groups_classified<'a>(
    stmts: &'a Vec<Stmt>,
    suspend_set: &NameSet,
    sig_table: &SignatureTable,
    imported_fns: &Vec<(String, FunctionSig)>,
    cpu: &CpuCandidacy,
) -> (r: Vec<ClassifiedGroup<'a>>)
    ensures
        classified_match(
            r@,
            spec_classified_partition(
                stmts@,
                PartEnv { suspend: suspend_set@, local: sig_table.fns@, imported: imported_fns@ },
                cpu.does_real_work@,
                cpu.enclosing_fn@,
            ),
            stmts@,
        ),
{
    let ghost env = PartEnv { suspend: suspend_set@, local: sig_table.fns@, imported: imported_fns@ };
    let ghost rw = cpu.does_real_work@;
    let ghost en = cpu.enclosing_fn@;
    let mut groups: Vec<ClassifiedGroup<'a>> = Vec::new();
    let mut pending: Vec<(usize, MemberClass)> = Vec::new();
    let ghost mut st = ClassState { groups: Seq::empty(), pending: Seq::empty() };
    let mut i: usize = 0;
    proof {
        assert(st.pending =~= pending@.map_values(|p: (usize, MemberClass)| (p.0 as int, p.1)));
    }
    while i < stmts.len()
        invariant
            i <= stmts@.len(),
            env == (PartEnv { suspend: suspend_set@, local: sig_table.fns@, imported: imported_fns@ }),
            rw == cpu.does_real_work@,
            en == cpu.enclosing_fn@,
            st == class_upto(stmts@, env, rw, en, i as int),
            classified_match(groups@, st.groups, stmts@),
            st.pending == pending@.map_values(|p: (usize, MemberClass)| (p.0 as int, p.1)),
            forall|k: int| 0 <= k < pending@.len() ==> (#[trigger] pending@[k]).0 < i,
        decreases stmts@.len() - i,
    {
        let stmt = &stmts[i];
        let ghost next = class_step(stmts@, env, rw, en, st, i as int);
        let class = if stmt_has_explicit_wait(stmt) {
            None
        } else if stmt_direct_suspending_callee(stmt, suspend_set).is_some() {
            Some(MemberClass::Suspending)
        } else if stmt_cpu_callee(stmt, suspend_set, sig_table, imported_fns, cpu).is_some() {
            Some(MemberClass::Cpu)
        } else {
            None
        };
        match class {
            None => {
                let Ghost(f) = flush_classified(stmts, &mut pending, &mut groups, Ghost(st));
                groups.push(ClassifiedGroup::Singleton(stmt));
                proof {
                    st = next;
                    assert forall|k: int| 0 <= k < groups@.len() implies match #[trigger] groups@[k] {
                        ClassifiedGroup::Singleton(s) => st.groups[k].0.len() == 1 && st.groups[k].1.len() == 0 && 0
                            <= st.groups[k].0[0] < stmts@.len() && *s == stmts@[st.groups[k].0[0]],
                        ClassifiedGroup::Parallel { stmts: v, classes } => v@.len() == st.groups[k].0.len()
                            && st.groups[k].0.len() >= 2 && classes@ == st.groups[k].1 && forall|j: int|
                            0 <= j < v@.len() ==> 0 <= #[trigger] st.groups[k].0[j] < stmts@.len() && *v@[j]
                                == stmts@[st.groups[k].0[j]],
                    } by {
                        if k < groups@.len() - 1 {
                            assert(st.groups[k] == f.groups[k]);
                        }
                    }
                    assert(st.pending =~= pending@.map_values(|p: (usize, MemberClass)| (p.0 as int, p.1)));
                }
            },
            Some(cl) => {
                let callee = stmt_direct_suspending_callee(stmt, suspend_set);
                let mut same = false;
                let mut independent = true;
                let mut k: usize = 0;
                while k < pending.len()
                    invariant
                        k <= pending@.len(),
                        i < stmts@.len(),
                        stmt == &stmts@[i as int],
                        env == (PartEnv { suspend: suspend_set@, local: sig_table.fns@, imported: imported_fns@ }),
                        st.pending == pending@.map_values(|p: (usize, MemberClass)| (p.0 as int, p.1)),
                        forall|q: int| 0 <= q < pending@.len() ==> (#[trigger] pending@[q]).0 < i,
                        match callee {
                            Some(n) => spec_direct_suspending_callee(stmts@[i as int], env.suspend) == Some(n@),
                            None => spec_direct_suspending_callee(stmts@[i as int], env.suspend) is None,
                        },
                        same == (cl == MemberClass::Suspending && exists|q: int|
                            0 <= q < k && (#[trigger] st.pending[q]).1 == MemberClass::Suspending
                                && spec_direct_suspending_callee(stmts@[st.pending[q].0], env.suspend)
                                == spec_direct_suspending_callee(stmts@[i as int], env.suspend)),
                        independent == forall|q: int|
                            0 <= q < k ==> spec_independent(
                                stmts@[(#[trigger] st.pending[q]).0],
                                stmts@[i as int],
                                env.local,
                                env.imported,
                            ),
                    decreases pending@.len() - k,
                {
                    let (p, pcl) = pending[k];
                    let prev = &stmts[p];
                    proof {
                        assert(st.pending[k as int] == (p as int, pcl));
                    }
                    let is_susp_pair = match (cl, pcl) {
                        (MemberClass::Suspending, MemberClass::Suspending) => true,
                        _ => false,
                    };
                    if is_susp_pair {
                        let pc = stmt_direct_suspending_callee(prev, suspend_set);
                        let hit = match (pc, &callee) {
                            (Some(a), Some(b)) => crate::text::str_eq(a.as_str(), b.as_str()),
                            (None, None) => true,
                            _ => false,
                        };
                        if hit {
                            same = true;
                        }
                    }
                    if !stmts_are_independent(prev, stmt, sig_table, imported_fns) {
                        independent = false;
                    }
                    k = k + 1;
                }
                proof {
                    assert(member_class(stmts@[i as int], env, rw, en) == Some(cl));
                }
                if !same && independent {
                    pending.push((i, cl));
                    proof {
                        st = next;
                        assert(st.pending =~= pending@.map_values(|p: (usize, MemberClass)| (p.0 as int, p.1)));
                    }
                } else {
                    let Ghost(f) = flush_classified(stmts, &mut pending, &mut groups, Ghost(st));
                    pending.push((i, cl));
                    proof {
                        st = next;
                        assert(st.pending =~= pending@.map_values(|p: (usize, MemberClass)| (p.0 as int, p.1)));
                    }
                }
            },
        }
        i = i + 1;
    }
    let Ghost(f) = flush_classified(stmts, &mut pending, &mut groups, Ghost(st));
    groups
}

} // verus!
