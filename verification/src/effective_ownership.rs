//! Effective ownership of function parameters: for every parameter, whether the body only
//! READS it, definitely WRITES it, or lets it flow somewhere the analysis cannot classify.
//!
//! The values form the three-point lattice `Reads ⊏ Unknown ⊏ Writes`; the join of two
//! values is the higher one. Typeck errors only on a proven `Writes` of a `share`
//! parameter, while the independence analysis parallelizes only proven `Reads`: putting
//! `Unknown` in the middle makes both consumers conservative with one order.
use vstd::prelude::*;

use crate::names::{find_row, lookup, NameSet};
use crate::text::{join_with, lit, spec_join_with, str_eq, string_views};
use crate::consumed::{consumed_fixpoint, consumed_rows_le, is_consumed_solution};
use crate::ownership_fixpoint::{
    declared_write_positions, is_ownership_solution, lists_write_positions, local_decls, ownership_fixpoint, rows_le,
};
use crate::syntax::{Block, ContractSig, Expr, FieldInit, MapEntryLit, MatchArm, Module, ReceiverKind, Stmt, StringPart};
use crate::types::{Type, TypeView};

verus! {

/// The effective ownership of one parameter across every path of its function body.
#[derive(Clone, Copy, Debug, PartialEq, Eq)]
pub enum EffectiveOwnership {
    /// Provably only read on every path: the bottom of the lattice.
    Reads,
    /// Some path cannot be analyzed (e.g. the parameter flows into an imported function
    /// whose ownership is unknown here).
    Unknown,
    /// The body definitely mutates or moves the parameter on some path: the top.
    Writes,
}

impl EffectiveOwnership {
    /// Lattice height: `Reads` = 0, `Unknown` = 1, `Writes` = 2.
    pub open spec fn spec_rank(self) -> nat {
        match self {
            EffectiveOwnership::Reads => 0,
            EffectiveOwnership::Unknown => 1,
            EffectiveOwnership::Writes => 2,
        }
    }

    /// The least upper bound of two lattice points: the higher one.
    pub open spec fn spec_join(self, other: EffectiveOwnership) -> EffectiveOwnership {
        if self.spec_rank() >= other.spec_rank() {
            self
        } else {
            other
        }
    }

    /// Numeric height for lattice comparison.
    pub fn rank(self) -> (r: u8)
        ensures
            r as nat == self.spec_rank(),
    {
        match self {
            EffectiveOwnership::Reads => 0,
            EffectiveOwnership::Unknown => 1,
            EffectiveOwnership::Writes => 2,
        }
    }

    /// JOIN (least upper bound): the higher of the two lattice points.
    pub fn join(self, other: EffectiveOwnership) -> (r: EffectiveOwnership)
        ensures
            r == self.spec_join(other),
    {
        if self.rank() >= other.rank() {
            self
        } else {
            other
        }
    }

    /// The two values are the same lattice point.
    pub fn same(self, other: EffectiveOwnership) -> (b: bool)
        ensures
            b == (self == other),
    {
        self.rank() == other.rank()
    }
}

/// The ranks order the three points totally and tell them apart.
pub proof fn lemma_rank_injective(a: EffectiveOwnership, b: EffectiveOwnership)
    ensures
        a.spec_rank() == b.spec_rank() <==> a == b,
        a.spec_rank() <= 2,
{
}

/// The join is the least upper bound: it is above both arguments, below every common
/// upper bound, commutative, associative and idempotent, with `Reads` as unit and
/// `Writes` as absorbing element.
pub proof fn lemma_join_is_lub(a: EffectiveOwnership, b: EffectiveOwnership, c: EffectiveOwnership)
    ensures
        a.spec_rank() <= a.spec_join(b).spec_rank(),
        b.spec_rank() <= a.spec_join(b).spec_rank(),
        a.spec_rank() <= c.spec_rank() && b.spec_rank() <= c.spec_rank() ==> a.spec_join(b).spec_rank()
            <= c.spec_rank(),
        a.spec_join(b) == b.spec_join(a),
        a.spec_join(b).spec_join(c) == a.spec_join(b.spec_join(c)),
        a.spec_join(a) == a,
        EffectiveOwnership::Reads.spec_join(a) == a,
        EffectiveOwnership::Writes.spec_join(a) == EffectiveOwnership::Writes,
{
}

/// Whether every `return` of a function yields a value nobody else reaches.
#[derive(Debug, PartialEq, Eq)]
pub enum Freshness {
    /// Every return is fresh, a `give` parameter, or an un-aliased fresh local.
    Fresh,
    /// Some return reaches a value someone else holds, through `param` when one was found.
    MayAlias { param: Option<String> },
}

impl Freshness {
    /// A copy of this value.
    pub fn duplicate(&self) -> (r: Freshness)
        ensures
            r == *self,
    {
        match self {
            Freshness::Fresh => Freshness::Fresh,
            Freshness::MayAlias { param } => Freshness::MayAlias {
                param: match param {
                    Some(p) => Some(p.clone()),
                    None => None,
                },
            },
        }
    }
}

/// The result of the effective-ownership fixpoint. Each field lists, per function name,
/// the facts about its parameters (by position) or its return value; a lookup reads the
/// first row with the name.
pub struct EffectiveOwnershipReport {
    /// Per function → per-parameter effective ownership.
    pub per_fn: Vec<(String, Vec<EffectiveOwnership>)>,
    /// Per function → per-parameter "is a consumed position" fact.
    pub consumed: Vec<(String, Vec<bool>)>,
    /// Per function → freshness of its return value.
    pub returns_fresh: Vec<(String, Freshness)>,
}

/// No two local functions share a name.
pub open spec fn distinct_decl_names(decls: Seq<crate::syntax::FunctionDecl>) -> bool {
    forall|i: int, j: int| 0 <= i < decls.len() && 0 <= j < decls.len() && i != j ==> decls[i].name@ != decls[j].name@
}

/// The rows hold one row per local function, in declaration order, under its name.
pub open spec fn rows_named_after<T>(rows: Seq<(String, T)>, decls: Seq<crate::syntax::FunctionDecl>) -> bool {
    rows.len() == decls.len() && forall|k: int| 0 <= k < rows.len() ==> (#[trigger] rows[k]).0@ == decls[k].name@
}

/// No two rows share a name.
pub open spec fn distinct_row_names<T>(rows: Seq<(String, T)>) -> bool {
    forall|i: int, j: int| 0 <= i < rows.len() && 0 <= j < rows.len() && i != j ==> rows[i].0@ != rows[j].0@
}

/// The effective ownership of position `index` of `name` in the per-function rows:
/// `Unknown` for a function or position the rows do not hold.
pub open spec fn spec_ownership_of(
    rows: Seq<(String, Vec<EffectiveOwnership>)>,
    name: Seq<char>,
    index: int,
) -> EffectiveOwnership {
    match lookup(rows, name) {
        Some(row) => if 0 <= index < row@.len() {
            row@[index]
        } else {
            EffectiveOwnership::Unknown
        },
        None => EffectiveOwnership::Unknown,
    }
}

impl EffectiveOwnershipReport {
    /// An empty report: every lookup resolves to its conservative answer.
    pub fn empty() -> (r: Self)
        ensures
            r.per_fn@.len() == 0,
            r.consumed@.len() == 0,
            r.returns_fresh@.len() == 0,
    {
        EffectiveOwnershipReport { per_fn: Vec::new(), consumed: Vec::new(), returns_fresh: Vec::new() }
    }

    /// Effective ownership of parameter `index` of function `name`; `Unknown` when the
    /// function is not in the report or the index is out of range.
    pub fn ownership_of(&self, name: &str, index: usize) -> (r: EffectiveOwnership)
        ensures
            r == spec_ownership_of(self.per_fn@, name@, index as int),
    {
        match find_row(&self.per_fn, name) {
            Some(i) => {
                let row = &self.per_fn[i].1;
                if index < row.len() {
                    row[index]
                } else {
                    EffectiveOwnership::Unknown
                }
            },
            None => EffectiveOwnership::Unknown,
        }
    }

    /// Is position `index` of `name` a consumed position? `false` for an unknown function
    /// or position.
    pub fn consumed_of(&self, name: &str, index: usize) -> (r: bool)
        ensures
            r == match lookup(self.consumed@, name@) {
                Some(row) => index < row@.len() && row@[index as int],
                None => false,
            },
    {
        match find_row(&self.consumed, name) {
            Some(i) => {
                let row = &self.consumed[i].1;
                index < row.len() && row[index]
            },
            None => false,
        }
    }

    /// Freshness of `name`'s return value; `MayAlias` with no parameter for a function the
    /// report does not hold.
    pub fn returns_fresh_of(&self, name: &str) -> (r: Freshness)
        ensures
            r == match lookup(self.returns_fresh@, name@) {
                Some(f) => f,
                None => Freshness::MayAlias { param: None },
            },
    {
        match find_row(&self.returns_fresh, name) {
            Some(i) => self.returns_fresh[i].1.duplicate(),
            None => Freshness::MayAlias { param: None },
        }
    }

    /// True when `name` is a local function the fixpoint analyzed.
    pub fn is_local_fn(&self, name: &str) -> (b: bool)
        ensures
            b == lookup(self.per_fn@, name@) is Some,
    {
        find_row(&self.per_fn, name).is_some()
    }
}

/// The ownership-level meaning of an expression's value.
#[derive(Debug)]
pub enum Provenance {
    /// This evaluation is the value's only holder.
    Fresh,
    /// Exactly the value a binding names.
    Whole(String),
    /// A value someone still reaches through the named roots (`Reaches([])` is a piece of
    /// a fresh temporary).
    Reaches(Vec<String>),
    /// Cannot classify.
    Unknown,
}

/// A type whose values are bits (or immortal string bytes): holding one never aliases a
/// heap allocation. `Error` counts as value-like so an earlier type error does not cascade.
pub open spec fn spec_value_like(t: TypeView) -> bool {
    match t {
        TypeView::Int | TypeView::Float | TypeView::Bool | TypeView::Number { .. } | TypeView::String
        | TypeView::Options { .. } | TypeView::Nothing | TypeView::Error => true,
        _ => false,
    }
}

/// Is `ty` value-like (see [`spec_value_like`])?
pub fn value_like(ty: &Type) -> (b: bool)
    ensures
        b == spec_value_like(ty@),
{
    match ty {
        Type::Int | Type::Float | Type::Bool | Type::Number { .. } | Type::String | Type::Options { .. }
        | Type::Nothing | Type::Error => true,
        _ => false,
    }
}

/// The roots a provenance reaches through, for folding into an aggregate: none for a
/// fresh value, the binding for a whole one, the roots for a piece; `None` when unknown.
pub fn roots_of(p: Provenance) -> (r: Option<Vec<String>>)
    ensures
        match p {
            Provenance::Fresh => r is Some && r->0@.len() == 0,
            Provenance::Whole(n) => r is Some && r->0@ == seq![n],
            Provenance::Reaches(rs) => r == Some(rs),
            Provenance::Unknown => r is None,
        },
{
    match p {
        Provenance::Fresh => Some(Vec::new()),
        Provenance::Whole(n) => {
            let mut v = Vec::new();
            v.push(n);
            Some(v)
        },
        Provenance::Reaches(rs) => Some(rs),
        Provenance::Unknown => None,
    }
}

/// How one argument position of a call relates to a value that reaches two positions.
#[derive(Clone, Copy, Debug, PartialEq, Eq)]
pub enum AliasArgKind {
    /// Declared `share`: a read-only view.
    DeclaredShare,
    /// Declared `lend`: the function modifies the value.
    DeclaredLend,
    /// Declared `give`: ownership moves into the function.
    DeclaredGive,
    /// Bare parameter the body provably mutates.
    InferredWrite,
    /// Bare parameter proven read-only on every path.
    InferredRead,
    /// Bare parameter the analysis cannot prove read-only.
    Unverifiable,
}

impl AliasArgKind {
    /// The position can modify (or take over) the value during the call.
    pub open spec fn spec_write_capable(self) -> bool {
        !(self is DeclaredShare || self is InferredRead)
    }

    /// True when this position can modify (or take over) the value during the call.
    pub fn write_capable(self) -> (b: bool)
        ensures
            b == self.spec_write_capable(),
    {
        match self {
            AliasArgKind::DeclaredShare | AliasArgKind::InferredRead => false,
            _ => true,
        }
    }

    /// Plain-English rendering for the diagnostic.
    pub open spec fn spec_describe(self) -> Seq<char> {
        match self {
            AliasArgKind::DeclaredShare => "`share` (a read-only view)"@,
            AliasArgKind::DeclaredLend => "`lend` (the function modifies it)"@,
            AliasArgKind::DeclaredGive => "`give` (ownership moves into the function)"@,
            AliasArgKind::InferredWrite => "a parameter the function modifies"@,
            AliasArgKind::InferredRead => "a read-only parameter"@,
            AliasArgKind::Unverifiable => "a parameter the compiler cannot prove stays read-only"@,
        }
    }

    /// Plain-English rendering for the diagnostic (no compiler jargon).
    pub fn describe(self) -> (s: &'static str)
        ensures
            s@ == self.spec_describe(),
    {
        match self {
            AliasArgKind::DeclaredShare => "`share` (a read-only view)",
            AliasArgKind::DeclaredLend => "`lend` (the function modifies it)",
            AliasArgKind::DeclaredGive => "`give` (ownership moves into the function)",
            AliasArgKind::InferredWrite => "a parameter the function modifies",
            AliasArgKind::InferredRead => "a read-only parameter",
            AliasArgKind::Unverifiable => "a parameter the compiler cannot prove stays read-only",
        }
    }
}

/// The alias kind a bare (undeclared) parameter gets from its effective ownership.
pub fn inferred_alias_kind(e: EffectiveOwnership) -> (k: AliasArgKind)
    ensures
        k == match e {
            EffectiveOwnership::Reads => AliasArgKind::InferredRead,
            EffectiveOwnership::Writes => AliasArgKind::InferredWrite,
            EffectiveOwnership::Unknown => AliasArgKind::Unverifiable,
        },
        k.spec_write_capable() == (e != EffectiveOwnership::Reads),
{
    match e {
        EffectiveOwnership::Reads => AliasArgKind::InferredRead,
        EffectiveOwnership::Writes => AliasArgKind::InferredWrite,
        EffectiveOwnership::Unknown => AliasArgKind::Unverifiable,
    }
}

/// Two place-paths overlap when one is a prefix of the other.
pub open spec fn spec_paths_overlap(a: Seq<Seq<char>>, b: Seq<Seq<char>>) -> bool {
    forall|i: int| 0 <= i < a.len() && i < b.len() ==> a[i] == b[i]
}

/// Do the place-paths `a` and `b` overlap (the same value, or one a piece of the other)?
pub fn paths_overlap(a: &Vec<String>, b: &Vec<String>) -> (r: bool)
    ensures
        r == spec_paths_overlap(string_views(a@), string_views(b@)),
{
    let n = if a.len() < b.len() {
        a.len()
    } else {
        b.len()
    };
    let mut i: usize = 0;
    while i < n
        invariant
            i <= n,
            n <= a.len(),
            n <= b.len(),
            n == a.len() || n == b.len(),
            forall|j: int| 0 <= j < i ==> a@[j]@ == b@[j]@,
        decreases n - i,
    {
        if !str_eq(a[i].as_str(), b[i].as_str()) {
            proof {
                assert(string_views(a@)[i as int] != string_views(b@)[i as int]);
            }
            return false;
        }
        i = i + 1;
    }
    proof {
        assert forall|j: int| 0 <= j < a@.len() && j < b@.len() implies string_views(a@)[j] == string_views(b@)[j] by {
            assert(a@[j]@ == b@[j]@);
        }
    }
    true
}

/// Render a place-path as `a.b.c`.
pub fn render_path(p: &Vec<String>) -> (s: String)
    ensures
        s@ == spec_join_with(string_views(p@), "."@),
{
    join_with(p, ".")
}

} // verus!

verus! {

/// What the classification reads: the current per-function ownership rows, each
/// function's declared `lend`/`give` positions, the imported function names, and the
/// builtin collection methods that mutate their receiver in place.
pub struct ClassifyEnv {
    pub rows: Seq<(String, Vec<EffectiveOwnership>)>,
    pub declared: Seq<(String, Vec<usize>)>,
    pub imported: Set<Seq<char>>,
    pub mutating: Set<Seq<char>>,
}

/// The executable form of [`ClassifyEnv`].
pub struct OwnershipContext<'a> {
    pub per_fn: &'a Vec<(String, Vec<EffectiveOwnership>)>,
    pub declared_writes: &'a Vec<(String, Vec<usize>)>,
    pub imported_fn_names: &'a NameSet,
    pub mutating_builtin_methods: &'a NameSet,
}

impl<'a> View for OwnershipContext<'a> {
    type V = ClassifyEnv;

    open spec fn view(&self) -> ClassifyEnv {
        ClassifyEnv {
            rows: self.per_fn@,
            declared: self.declared_writes@,
            imported: self.imported_fn_names@,
            mutating: self.mutating_builtin_methods@,
        }
    }
}

/// Position `index` of `name` is declared `lend` or `give`.
pub open spec fn declared_write(declared: Seq<(String, Vec<usize>)>, name: Seq<char>, index: int) -> bool {
    match lookup(declared, name) {
        Some(v) => exists|k: int| 0 <= k < v@.len() && v@[k] as int == index,
        None => false,
    }
}

/// The ownership contributed by passing the binding at position `index` of a call to
/// `callee`: `Unknown` for a callee that is not a name; the callee's current row for a
/// local function (`Unknown` out of range); for an imported function `Writes` at a
/// declared write position and `Unknown` elsewhere; for an intrinsic `Writes` at a
/// declared write position and `Reads` elsewhere.
pub open spec fn call_position(env: ClassifyEnv, callee: Option<Seq<char>>, index: int) -> EffectiveOwnership {
    match callee {
        None => EffectiveOwnership::Unknown,
        Some(name) => match lookup(env.rows, name) {
            Some(row) => if 0 <= index < row@.len() {
                row@[index]
            } else {
                EffectiveOwnership::Unknown
            },
            None => if declared_write(env.declared, name, index) {
                EffectiveOwnership::Writes
            } else if env.imported.contains(name) {
                EffectiveOwnership::Unknown
            } else {
                EffectiveOwnership::Reads
            },
        },
    }
}

pub(crate) fn is_declared_write(declared: &Vec<(String, Vec<usize>)>, name: &str, index: usize) -> (b: bool)
    ensures
        b == declared_write(declared@, name@, index as int),
{
    match find_row(declared, name) {
        Some(i) => {
            let v = &declared[i].1;
            let mut k: usize = 0;
            while k < v.len()
                invariant
                    k <= v.len(),
                    lookup(declared@, name@) == Some(*v),
                    forall|q: int| 0 <= q < k ==> v@[q] != index,
                decreases v.len() - k,
            {
                if v[k] == index {
                    proof {
                        let row = lookup(declared@, name@)->0;
                        assert(row == *v);
                        assert(row@[k as int] as int == index as int);
                        assert(exists|q: int| 0 <= q < row@.len() && row@[q] as int == index as int);
                    }
                    return true;
                }
                k = k + 1;
            }
            proof {
                assert(lookup(declared@, name@) == Some(*v));
                assert forall|q: int| 0 <= q < v@.len() implies v@[q] as int != index as int by {
                    assert(v@[q] != index);
                }
            }
            false
        },
        None => false,
    }
}

/// The effective ownership contributed when a binding is passed at position `index` of a
/// call to `callee_name` (see [`call_position`]).
pub fn classify_call_position(callee_name: Option<&str>, index: usize, ctx: &OwnershipContext) -> (r: EffectiveOwnership)
    ensures
        r == call_position(
            ctx@,
            match callee_name {
                Some(n) => Some(n@),
                None => None,
            },
            index as int,
        ),
{
    let name = match callee_name {
        Some(n) => n,
        None => {
            return EffectiveOwnership::Unknown;
        },
    };
    match find_row(ctx.per_fn, name) {
        Some(i) => {
            let row = &ctx.per_fn[i].1;
            return if index < row.len() {
                row[index]
            } else {
                EffectiveOwnership::Unknown
            };
        },
        None => {},
    }
    let declared = is_declared_write(ctx.declared_writes, name, index);
    if ctx.imported_fn_names.contains(name) {
        if declared {
            return EffectiveOwnership::Writes;
        }
        return EffectiveOwnership::Unknown;
    }
    if declared {
        EffectiveOwnership::Writes
    } else {
        EffectiveOwnership::Reads
    }
}

} // verus!

verus! {

/// `arg` is exactly a bare reference to the binding `name` (`self` for the name `self`).
pub open spec fn spec_arg_is_binding(arg: Expr, name: Seq<char>) -> bool {
    match arg {
        Expr::Ident(n, _) => n@ == name,
        Expr::SelfValue { .. } => name == "self"@,
        _ => false,
    }
}

/// Is `arg` exactly a bare reference to the binding `name`?
pub fn arg_is_binding(arg: &Expr, name: &str) -> (b: bool)
    ensures
        b == spec_arg_is_binding(*arg, name@),
{
    match arg {
        Expr::Ident(n, _) => str_eq(n.as_str(), name),
        Expr::SelfValue { .. } => str_eq(name, "self"),
        _ => false,
    }
}

/// The root binding of an assignable place (`a`, `a.b.c`, `a[i]`, `self.f`).
pub open spec fn spec_root_binding(e: Expr) -> Option<Seq<char>>
    decreases e,
{
    match e {
        Expr::Ident(n, _) => Some(n@),
        Expr::SelfValue { .. } => Some("self"@),
        Expr::FieldAccess { receiver, .. } => spec_root_binding(*receiver),
        Expr::IndexAccess { receiver, .. } => spec_root_binding(*receiver),
        _ => None,
    }
}

/// The root binding name of an assignable place expression, if it has one.
pub fn root_binding_name(e: &Expr) -> (r: Option<&str>)
    ensures
        match r {
            Some(s) => spec_root_binding(*e) == Some(s@),
            None => spec_root_binding(*e) is None,
        },
    decreases e,
{
    match e {
        Expr::Ident(n, _) => Some(n.as_str()),
        Expr::SelfValue { .. } => Some("self"),
        Expr::FieldAccess { receiver, .. } => root_binding_name(receiver),
        Expr::IndexAccess { receiver, .. } => root_binding_name(receiver),
        _ => None,
    }
}

/// The statement makes `name` denote a new value: a `let`, a reassignment, or a `for`
/// loop variable.
pub open spec fn spec_stmt_rebinds(st: Stmt, name: Seq<char>) -> bool {
    match st {
        Stmt::Let { name: n, .. } => n@ == name,
        Stmt::Assign { target, .. } => target@ == name,
        Stmt::For { var, .. } => var@ == name,
        _ => false,
    }
}

/// Does `stmt` rebind `name`?
pub fn stmt_rebinds(stmt: &Stmt, name: &str) -> (b: bool)
    ensures
        b == spec_stmt_rebinds(*stmt, name@),
{
    match stmt {
        Stmt::Let { name: n, .. } => str_eq(n.as_str(), name),
        Stmt::Assign { target, .. } => str_eq(target.as_str(), name),
        Stmt::For { var, .. } => str_eq(var.as_str(), name),
        _ => false,
    }
}

/// How the binding `p` is used in the expression `e`.
pub open spec fn cls_expr(p: Seq<char>, e: Expr, env: ClassifyEnv) -> EffectiveOwnership
    decreases e,
{
    match e {
        Expr::Call(c) => {
            let (base, callee) = match *c.callee {
                Expr::Ident(n, _) => (EffectiveOwnership::Reads, Some(n@)),
                other => (cls_expr(p, other, env), None),
            };
            base.spec_join(cls_args(p, c.args@, callee, 0, env))
        },
        Expr::MethodCall { receiver, method, args, .. } => {
            let recv = if spec_arg_is_binding(*receiver, p) {
                let user_fn = lookup(env.rows, method@) is Some || env.imported.contains(method@);
                if !user_fn && env.mutating.contains(method@) {
                    EffectiveOwnership::Writes
                } else {
                    call_position(env, Some(method@), 0)
                }
            } else {
                cls_expr(p, *receiver, env)
            };
            recv.spec_join(cls_args(p, args@, Some(method@), 1, env))
        },
        Expr::PostfixOp { receiver, .. } => cls_expr(p, *receiver, env),
        Expr::BinOp { lhs, rhs, .. } => cls_expr(p, *lhs, env).spec_join(cls_expr(p, *rhs, env)),
        Expr::UnaryOp { operand, .. } => cls_expr(p, *operand, env),
        Expr::FieldAccess { receiver, .. } => cls_expr(p, *receiver, env),
        Expr::IndexAccess { receiver, index, .. } => cls_expr(p, *receiver, env).spec_join(cls_expr(p, *index, env)),
        Expr::Wait(inner, _) => cls_expr(p, *inner, env),
        Expr::Background(inner, _) => cls_expr(p, *inner, env),
        Expr::Is { expr, .. } => cls_expr(p, *expr, env),
        Expr::StructLit { fields, .. } => cls_fields(p, fields@, env),
        Expr::ArrayLit { elements, .. } => cls_exprs(p, elements@, env),
        Expr::MapLit { entries, .. } => cls_entries(p, entries@, env),
        Expr::InterpolatedString(parts, _) => cls_parts(p, parts@, env),
        _ => EffectiveOwnership::Reads,
    }
}

/// The arguments `s` of a call to `callee`, the first at position `offset`: an argument
/// that is the binding itself contributes its call position, any other is walked.
pub open spec fn cls_args(p: Seq<char>, s: Seq<Expr>, callee: Option<Seq<char>>, offset: int, env: ClassifyEnv) -> EffectiveOwnership
    decreases s,
{
    if s.len() == 0 {
        EffectiveOwnership::Reads
    } else {
        let last = s[s.len() - 1];
        let here = if spec_arg_is_binding(last, p) {
            call_position(env, callee, offset + s.len() - 1)
        } else {
            cls_expr(p, last, env)
        };
        cls_args(p, s.subrange(0, s.len() - 1), callee, offset, env).spec_join(here)
    }
}

pub open spec fn cls_exprs(p: Seq<char>, s: Seq<Expr>, env: ClassifyEnv) -> EffectiveOwnership
    decreases s,
{
    if s.len() == 0 {
        EffectiveOwnership::Reads
    } else {
        cls_exprs(p, s.subrange(0, s.len() - 1), env).spec_join(cls_expr(p, s[s.len() - 1], env))
    }
}

pub open spec fn cls_fields(p: Seq<char>, s: Seq<FieldInit>, env: ClassifyEnv) -> EffectiveOwnership
    decreases s,
{
    if s.len() == 0 {
        EffectiveOwnership::Reads
    } else {
        cls_fields(p, s.subrange(0, s.len() - 1), env).spec_join(cls_expr(p, s[s.len() - 1].value, env))
    }
}

pub open spec fn cls_entries(p: Seq<char>, s: Seq<MapEntryLit>, env: ClassifyEnv) -> EffectiveOwnership
    decreases s,
{
    if s.len() == 0 {
        EffectiveOwnership::Reads
    } else {
        cls_entries(p, s.subrange(0, s.len() - 1), env).spec_join(cls_expr(p, s[s.len() - 1].key, env)).spec_join(
            cls_expr(p, s[s.len() - 1].value, env),
        )
    }
}

pub open spec fn cls_parts(p: Seq<char>, s: Seq<StringPart>, env: ClassifyEnv) -> EffectiveOwnership
    decreases s,
{
    if s.len() == 0 {
        EffectiveOwnership::Reads
    } else {
        cls_parts(p, s.subrange(0, s.len() - 1), env).spec_join(
            match s[s.len() - 1] {
                StringPart::Expr(e, _) => cls_expr(p, e, env),
                StringPart::Text(_) => EffectiveOwnership::Reads,
            },
        )
    }
}

/// How the binding `p` is used in the statement `st`: a rebinding of `p`, or a field or
/// element write rooted at `p`, is `Writes`; otherwise every expression is walked.
pub open spec fn cls_stmt(p: Seq<char>, st: Stmt, env: ClassifyEnv) -> EffectiveOwnership
    decreases st,
{
    if spec_stmt_rebinds(st, p) {
        EffectiveOwnership::Writes
    } else {
        match st {
            Stmt::FieldAssign { target, value, .. } => if spec_root_binding(target) == Some(p) {
                EffectiveOwnership::Writes
            } else {
                cls_expr(p, value, env).spec_join(cls_expr(p, target, env))
            },
            Stmt::IndexAssign { receiver, index, value, .. } => if spec_root_binding(receiver) == Some(p) {
                EffectiveOwnership::Writes
            } else {
                cls_expr(p, receiver, env).spec_join(cls_expr(p, index, env)).spec_join(cls_expr(p, value, env))
            },
            Stmt::Let { value, .. } => cls_expr(p, value, env),
            Stmt::Assign { value, .. } => cls_expr(p, value, env),
            Stmt::Expr(e) => cls_expr(p, e, env),
            Stmt::Return { value, .. } => match value {
                Some(v) => cls_expr(p, v, env),
                None => EffectiveOwnership::Reads,
            },
            Stmt::If { cond, body, .. } => cls_expr(p, cond, env).spec_join(cls_stmts(p, body.stmts@, env)),
            Stmt::While { cond, body, .. } => cls_expr(p, cond, env).spec_join(cls_stmts(p, body.stmts@, env)),
            Stmt::For { iter, body, .. } => cls_expr(p, iter, env).spec_join(cls_stmts(p, body.stmts@, env)),
            Stmt::Match { scrutinee, arms, else_arm, .. } => cls_expr(p, scrutinee, env).spec_join(
                cls_arms(p, arms@, env),
            ).spec_join(
                match else_arm {
                    Some(b) => cls_stmts(p, b.stmts@, env),
                    None => EffectiveOwnership::Reads,
                },
            ),
        }
    }
}

/// How the binding `p` is used across a statement list: the join over its statements.
pub open spec fn cls_stmts(p: Seq<char>, s: Seq<Stmt>, env: ClassifyEnv) -> EffectiveOwnership
    decreases s,
{
    if s.len() == 0 {
        EffectiveOwnership::Reads
    } else {
        cls_stmts(p, s.subrange(0, s.len() - 1), env).spec_join(cls_stmt(p, s[s.len() - 1], env))
    }
}

pub open spec fn cls_arms(p: Seq<char>, s: Seq<MatchArm>, env: ClassifyEnv) -> EffectiveOwnership
    decreases s,
{
    if s.len() == 0 {
        EffectiveOwnership::Reads
    } else {
        cls_arms(p, s.subrange(0, s.len() - 1), env).spec_join(cls_stmts(p, s[s.len() - 1].body.stmts@, env))
    }
}

/// A statement list uses `p` at least as strongly as each of its statements does.
pub proof fn lemma_stmts_cover_each(p: Seq<char>, s: Seq<Stmt>, env: ClassifyEnv)
    ensures
        forall|i: int| 0 <= i < s.len() ==> (#[trigger] cls_stmt(p, s[i], env)).spec_rank() <= cls_stmts(p, s, env).spec_rank(),
    decreases s.len(),
{
    if s.len() > 0 {
        let pre = s.subrange(0, s.len() - 1);
        lemma_stmts_cover_each(p, pre, env);
        lemma_join_is_lub(cls_stmts(p, pre, env), cls_stmt(p, s[s.len() - 1], env), EffectiveOwnership::Reads);
        assert forall|i: int| 0 <= i < s.len() implies (#[trigger] cls_stmt(p, s[i], env)).spec_rank() <= cls_stmts(
            p,
            s,
            env,
        ).spec_rank() by {
            if i < s.len() - 1 {
                assert(pre[i] == s[i]);
            }
        }
    }
}

/// The arms of a match use `p` at least as strongly as each arm's body does.
pub proof fn lemma_arms_cover_each(p: Seq<char>, s: Seq<MatchArm>, env: ClassifyEnv)
    ensures
        forall|i: int|
            0 <= i < s.len() ==> (#[trigger] cls_stmts(p, s[i].body.stmts@, env)).spec_rank() <= cls_arms(p, s, env).spec_rank(),
    decreases s.len(),
{
    if s.len() > 0 {
        let pre = s.subrange(0, s.len() - 1);
        lemma_arms_cover_each(p, pre, env);
        lemma_join_is_lub(cls_arms(p, pre, env), cls_stmts(p, s[s.len() - 1].body.stmts@, env), EffectiveOwnership::Reads);
        assert forall|i: int| 0 <= i < s.len() implies (#[trigger] cls_stmts(p, s[i].body.stmts@, env)).spec_rank()
            <= cls_arms(p, s, env).spec_rank() by {
            if i < s.len() - 1 {
                assert(pre[i] == s[i]);
            }
        }
    }
}

proof fn lemma_loop_covers(p: Seq<char>, st: Stmt, head: Expr, body: Block, env: ClassifyEnv)
    requires
        cls_stmt(p, st, env) == EffectiveOwnership::Writes || cls_stmt(p, st, env) == cls_expr(p, head, env).spec_join(
            cls_stmts(p, body.stmts@, env),
        ),
    ensures
        cls_expr(p, head, env).spec_rank() <= cls_stmt(p, st, env).spec_rank(),
        forall|i: int|
            0 <= i < body.stmts@.len() ==> (#[trigger] cls_stmt(p, body.stmts@[i], env)).spec_rank() <= cls_stmt(
                p,
                st,
                env,
            ).spec_rank(),
{
    lemma_stmts_cover_each(p, body.stmts@, env);
    lemma_join_is_lub(cls_expr(p, head, env), cls_stmts(p, body.stmts@, env), EffectiveOwnership::Reads);
}

proof fn lemma_match_covers(p: Seq<char>, st: Stmt, env: ClassifyEnv)
    requires
        st is Match,
    ensures
        st matches Stmt::Match { scrutinee, arms, else_arm, .. } ==> cls_expr(p, scrutinee, env).spec_rank() <= cls_stmt(
            p,
            st,
            env,
        ).spec_rank() && (forall|i: int|
            0 <= i < arms@.len() ==> (#[trigger] cls_stmts(p, arms@[i].body.stmts@, env)).spec_rank() <= cls_stmt(
                p,
                st,
                env,
            ).spec_rank()) && (else_arm matches Some(b) ==> cls_stmts(p, b.stmts@, env).spec_rank() <= cls_stmt(
            p,
            st,
            env,
        ).spec_rank()),
{
    match st {
        Stmt::Match { scrutinee, arms, else_arm, .. } => {
            lemma_arms_cover_each(p, arms@, env);
            let e = match else_arm {
                Some(b) => cls_stmts(p, b.stmts@, env),
                None => EffectiveOwnership::Reads,
            };
            let sa = cls_expr(p, scrutinee, env).spec_join(cls_arms(p, arms@, env));
            lemma_join_is_lub(cls_expr(p, scrutinee, env), cls_arms(p, arms@, env), EffectiveOwnership::Reads);
            lemma_join_is_lub(sa, e, EffectiveOwnership::Reads);
            assert(cls_stmt(p, st, env) == sa.spec_join(e));
        },
        _ => {},
    }
}

/// A statement uses `p` at least as strongly as anything nested in it: the condition and
/// every statement of the body of an `if` or a `while`, the iterated expression and every
/// statement of the body of a `for`. So a write anywhere inside a function body, a loop
/// body included, makes the parameter `Writes`.
pub proof fn lemma_block_stmt_covers_nested(p: Seq<char>, st: Stmt, env: ClassifyEnv)
    ensures
        st matches Stmt::If { cond, body, .. } ==> cls_expr(p, cond, env).spec_rank() <= cls_stmt(p, st, env).spec_rank()
            && forall|i: int|
            0 <= i < body.stmts@.len() ==> (#[trigger] cls_stmt(p, body.stmts@[i], env)).spec_rank() <= cls_stmt(
                p,
                st,
                env,
            ).spec_rank(),
        st matches Stmt::While { cond, body, .. } ==> cls_expr(p, cond, env).spec_rank() <= cls_stmt(p, st, env).spec_rank()
            && forall|i: int|
            0 <= i < body.stmts@.len() ==> (#[trigger] cls_stmt(p, body.stmts@[i], env)).spec_rank() <= cls_stmt(
                p,
                st,
                env,
            ).spec_rank(),
        st matches Stmt::For { iter, body, .. } ==> cls_expr(p, iter, env).spec_rank() <= cls_stmt(p, st, env).spec_rank()
            && forall|i: int|
            0 <= i < body.stmts@.len() ==> (#[trigger] cls_stmt(p, body.stmts@[i], env)).spec_rank() <= cls_stmt(
                p,
                st,
                env,
            ).spec_rank(),
{
    match st {
        Stmt::If { cond, body, .. } => lemma_loop_covers(p, st, cond, body, env),
        Stmt::While { cond, body, .. } => lemma_loop_covers(p, st, cond, body, env),
        Stmt::For { iter, body, .. } => lemma_loop_covers(p, st, iter, body, env),
        _ => {},
    }
}

/// A `match` uses `p` at least as strongly as its scrutinee, each of its arms and its
/// `else` arm.
pub proof fn lemma_match_stmt_covers_nested(p: Seq<char>, st: Stmt, env: ClassifyEnv)
    ensures
        st matches Stmt::Match { scrutinee, arms, else_arm, .. } ==> cls_expr(p, scrutinee, env).spec_rank() <= cls_stmt(
            p,
            st,
            env,
        ).spec_rank() && (forall|i: int|
            0 <= i < arms@.len() ==> (#[trigger] cls_stmts(p, arms@[i].body.stmts@, env)).spec_rank() <= cls_stmt(
                p,
                st,
                env,
            ).spec_rank()) && (else_arm matches Some(b) ==> cls_stmts(p, b.stmts@, env).spec_rank() <= cls_stmt(
            p,
            st,
            env,
        ).spec_rank()),
{
    if st is Match {
        lemma_match_covers(p, st, env);
    }
}

/// Classify how the binding `p` is used in an expression.
pub fn classify_param_in_expr(p: &str, e: &Expr, ctx: &OwnershipContext) -> (r: EffectiveOwnership)
    ensures
        r == cls_expr(p@, *e, ctx@),
    decreases e,
{
    match e {
        Expr::Call(c) => {
            let (base, callee) = match &*c.callee {
                Expr::Ident(n, _) => (EffectiveOwnership::Reads, Some(n.as_str())),
                other => (classify_param_in_expr(p, other, ctx), None),
            };
            let a = classify_args(p, &c.args, callee, 0, ctx);
            base.join(a)
        },
        Expr::MethodCall { receiver, method, args, .. } => {
            let recv = if arg_is_binding(receiver, p) {
                let user_fn = find_row(ctx.per_fn, method.as_str()).is_some() || ctx.imported_fn_names.contains(
                    method.as_str(),
                );
                if !user_fn && ctx.mutating_builtin_methods.contains(method.as_str()) {
                    EffectiveOwnership::Writes
                } else {
                    classify_call_position(Some(method.as_str()), 0, ctx)
                }
            } else {
                classify_param_in_expr(p, receiver, ctx)
            };
            let a = classify_args(p, args, Some(method.as_str()), 1, ctx);
            recv.join(a)
        },
        Expr::PostfixOp { receiver, .. } => classify_param_in_expr(p, receiver, ctx),
        Expr::BinOp { lhs, rhs, .. } => {
            let l = classify_param_in_expr(p, lhs, ctx);
            l.join(classify_param_in_expr(p, rhs, ctx))
        },
        Expr::UnaryOp { operand, .. } => classify_param_in_expr(p, operand, ctx),
        Expr::FieldAccess { receiver, .. } => classify_param_in_expr(p, receiver, ctx),
        Expr::IndexAccess { receiver, index, .. } => {
            let l = classify_param_in_expr(p, receiver, ctx);
            l.join(classify_param_in_expr(p, index, ctx))
        },
        Expr::Wait(inner, _) => classify_param_in_expr(p, inner, ctx),
        Expr::Background(inner, _) => classify_param_in_expr(p, inner, ctx),
        Expr::Is { expr, .. } => classify_param_in_expr(p, expr, ctx),
        Expr::StructLit { fields, .. } => classify_fields(p, fields, ctx),
        Expr::ArrayLit { elements, .. } => classify_exprs(p, elements, ctx),
        Expr::MapLit { entries, .. } => classify_entries(p, entries, ctx),
        Expr::InterpolatedString(parts, _) => classify_parts(p, parts, ctx),
        _ => EffectiveOwnership::Reads,
    }
}

fn classify_args(
    p: &str,
    v: &Vec<Expr>,
    callee: Option<&str>,
    offset: usize,
    ctx: &OwnershipContext,
) -> (r: EffectiveOwnership)
    requires
        offset <= 1,
    ensures
        r == cls_args(
            p@,
            v@,
            match callee {
                Some(n) => Some(n@),
                None => None,
            },
            offset as int,
            ctx@,
        ),
    decreases v,
{
    let ghost cv = match callee {
        Some(n) => Some(n@),
        None => None,
    };
    let mut acc = EffectiveOwnership::Reads;
    let mut i: usize = 0;
    proof {
        assert(v@.subrange(0, 0) =~= Seq::<Expr>::empty());
    }
    while i < v.len()
        invariant
            i <= v.len(),
            offset <= 1,
            cv == match callee {
                Some(n) => Some(n@),
                None => None::<Seq<char>>,
            },
            acc == cls_args(p@, v@.subrange(0, i as int), cv, offset as int, ctx@),
        decreases v.len() - i,
    {
        proof {
            let pre = v@.subrange(0, i + 1);
            assert(pre.subrange(0, i as int) =~= v@.subrange(0, i as int));
            assert(pre[i as int] == v@[i as int]);
        }
        let here = if arg_is_binding(&v[i], p) {
            classify_call_position(callee, offset + i, ctx)
        } else {
            classify_param_in_expr(p, &v[i], ctx)
        };
        acc = acc.join(here);
        i = i + 1;
    }
    proof {
        assert(v@.subrange(0, v.len() as int) =~= v@);
    }
    acc
}

fn classify_exprs(p: &str, v: &Vec<Expr>, ctx: &OwnershipContext) -> (r: EffectiveOwnership)
    ensures
        r == cls_exprs(p@, v@, ctx@),
    decreases v,
{
    let mut acc = EffectiveOwnership::Reads;
    let mut i: usize = 0;
    proof {
        assert(v@.subrange(0, 0) =~= Seq::<Expr>::empty());
    }
    while i < v.len()
        invariant
            i <= v.len(),
            acc == cls_exprs(p@, v@.subrange(0, i as int), ctx@),
        decreases v.len() - i,
    {
        proof {
            let pre = v@.subrange(0, i + 1);
            assert(pre.subrange(0, i as int) =~= v@.subrange(0, i as int));
            assert(pre[i as int] == v@[i as int]);
        }
        acc = acc.join(classify_param_in_expr(p, &v[i], ctx));
        i = i + 1;
    }
    proof {
        assert(v@.subrange(0, v.len() as int) =~= v@);
    }
    acc
}

fn classify_fields(p: &str, v: &Vec<FieldInit>, ctx: &OwnershipContext) -> (r: EffectiveOwnership)
    ensures
        r == cls_fields(p@, v@, ctx@),
    decreases v,
{
    let mut acc = EffectiveOwnership::Reads;
    let mut i: usize = 0;
    proof {
        assert(v@.subrange(0, 0) =~= Seq::<FieldInit>::empty());
    }
    while i < v.len()
        invariant
            i <= v.len(),
            acc == cls_fields(p@, v@.subrange(0, i as int), ctx@),
        decreases v.len() - i,
    {
        proof {
            let pre = v@.subrange(0, i + 1);
            assert(pre.subrange(0, i as int) =~= v@.subrange(0, i as int));
            assert(pre[i as int] == v@[i as int]);
        }
        acc = acc.join(classify_param_in_expr(p, &v[i].value, ctx));
        i = i + 1;
    }
    proof {
        assert(v@.subrange(0, v.len() as int) =~= v@);
    }
    acc
}

fn classify_entries(p: &str, v: &Vec<MapEntryLit>, ctx: &OwnershipContext) -> (r: EffectiveOwnership)
    ensures
        r == cls_entries(p@, v@, ctx@),
    decreases v,
{
    let mut acc = EffectiveOwnership::Reads;
    let mut i: usize = 0;
    proof {
        assert(v@.subrange(0, 0) =~= Seq::<MapEntryLit>::empty());
    }
    while i < v.len()
        invariant
            i <= v.len(),
            acc == cls_entries(p@, v@.subrange(0, i as int), ctx@),
        decreases v.len() - i,
    {
        proof {
            let pre = v@.subrange(0, i + 1);
            assert(pre.subrange(0, i as int) =~= v@.subrange(0, i as int));
            assert(pre[i as int] == v@[i as int]);
        }
        let k = classify_param_in_expr(p, &v[i].key, ctx);
        let w = classify_param_in_expr(p, &v[i].value, ctx);
        acc = acc.join(k).join(w);
        i = i + 1;
    }
    proof {
        assert(v@.subrange(0, v.len() as int) =~= v@);
    }
    acc
}

fn classify_parts(p: &str, v: &Vec<StringPart>, ctx: &OwnershipContext) -> (r: EffectiveOwnership)
    ensures
        r == cls_parts(p@, v@, ctx@),
    decreases v,
{
    let mut acc = EffectiveOwnership::Reads;
    let mut i: usize = 0;
    proof {
        assert(v@.subrange(0, 0) =~= Seq::<StringPart>::empty());
    }
    while i < v.len()
        invariant
            i <= v.len(),
            acc == cls_parts(p@, v@.subrange(0, i as int), ctx@),
        decreases v.len() - i,
    {
        proof {
            let pre = v@.subrange(0, i + 1);
            assert(pre.subrange(0, i as int) =~= v@.subrange(0, i as int));
            assert(pre[i as int] == v@[i as int]);
        }
        let here = match &v[i] {
            StringPart::Expr(pe, _) => classify_param_in_expr(p, pe, ctx),
            StringPart::Text(_) => EffectiveOwnership::Reads,
        };
        acc = acc.join(here);
        i = i + 1;
    }
    proof {
        assert(v@.subrange(0, v.len() as int) =~= v@);
    }
    acc
}

/// Classify how the binding `p` is used in a single statement.
pub fn classify_param_in_stmt(p: &str, st: &Stmt, ctx: &OwnershipContext) -> (r: EffectiveOwnership)
    ensures
        r == cls_stmt(p@, *st, ctx@),
    decreases st,
{
    if stmt_rebinds(st, p) {
        return EffectiveOwnership::Writes;
    }
    match st {
        Stmt::FieldAssign { target, value, .. } => {
            let acc = classify_param_in_expr(p, value, ctx);
            match root_binding_name(target) {
                Some(root) => {
                    if str_eq(root, p) {
                        return EffectiveOwnership::Writes;
                    }
                },
                None => {},
            }
            acc.join(classify_param_in_expr(p, target, ctx))
        },
        Stmt::IndexAssign { receiver, index, value, .. } => {
            match root_binding_name(receiver) {
                Some(root) => {
                    if str_eq(root, p) {
                        return EffectiveOwnership::Writes;
                    }
                },
                None => {},
            }
            let a = classify_param_in_expr(p, receiver, ctx);
            let b = classify_param_in_expr(p, index, ctx);
            a.join(b).join(classify_param_in_expr(p, value, ctx))
        },
        Stmt::Let { value, .. } => classify_param_in_expr(p, value, ctx),
        Stmt::Assign { value, .. } => classify_param_in_expr(p, value, ctx),
        Stmt::Expr(e) => classify_param_in_expr(p, e, ctx),
        Stmt::Return { value, .. } => match value {
            Some(v) => classify_param_in_expr(p, v, ctx),
            None => EffectiveOwnership::Reads,
        },
        Stmt::If { cond, body, .. } | Stmt::While { cond, body, .. } => {
            let c = classify_param_in_expr(p, cond, ctx);
            c.join(classify_param_in_stmts(p, &body.stmts, ctx))
        },
        Stmt::For { iter, body, .. } => {
            let c = classify_param_in_expr(p, iter, ctx);
            c.join(classify_param_in_stmts(p, &body.stmts, ctx))
        },
        Stmt::Match { scrutinee, arms, else_arm, .. } => {
            let s = classify_param_in_expr(p, scrutinee, ctx);
            let a = classify_arms(p, arms, ctx);
            let e = match else_arm {
                Some(b) => classify_param_in_stmts(p, &b.stmts, ctx),
                None => EffectiveOwnership::Reads,
            };
            s.join(a).join(e)
        },
    }
}

/// Classify how the binding `p` is used across a statement list.
pub fn classify_param_in_stmts(p: &str, v: &Vec<Stmt>, ctx: &OwnershipContext) -> (r: EffectiveOwnership)
    ensures
        r == cls_stmts(p@, v@, ctx@),
    decreases v,
{
    let mut acc = EffectiveOwnership::Reads;
    let mut i: usize = 0;
    proof {
        assert(v@.subrange(0, 0) =~= Seq::<Stmt>::empty());
    }
    while i < v.len()
        invariant
            i <= v.len(),
            acc == cls_stmts(p@, v@.subrange(0, i as int), ctx@),
        decreases v.len() - i,
    {
        proof {
            let pre = v@.subrange(0, i + 1);
            assert(pre.subrange(0, i as int) =~= v@.subrange(0, i as int));
            assert(pre[i as int] == v@[i as int]);
        }
        acc = acc.join(classify_param_in_stmt(p, &v[i], ctx));
        i = i + 1;
    }
    proof {
        assert(v@.subrange(0, v.len() as int) =~= v@);
    }
    acc
}

fn classify_arms(p: &str, v: &Vec<MatchArm>, ctx: &OwnershipContext) -> (r: EffectiveOwnership)
    ensures
        r == cls_arms(p@, v@, ctx@),
    decreases v,
{
    let mut acc = EffectiveOwnership::Reads;
    let mut i: usize = 0;
    proof {
        assert(v@.subrange(0, 0) =~= Seq::<MatchArm>::empty());
    }
    while i < v.len()
        invariant
            i <= v.len(),
            acc == cls_arms(p@, v@.subrange(0, i as int), ctx@),
        decreases v.len() - i,
    {
        proof {
            let pre = v@.subrange(0, i + 1);
            assert(pre.subrange(0, i as int) =~= v@.subrange(0, i as int));
            assert(pre[i as int] == v@[i as int]);
        }
        acc = acc.join(classify_param_in_stmts(p, &v[i].body.stmts, ctx));
        i = i + 1;
    }
    proof {
        assert(v@.subrange(0, v.len() as int) =~= v@);
    }
    acc
}

/// Classify how the binding `p` is used across a block.
pub fn classify_param_in_block(p: &str, block: &Block, ctx: &OwnershipContext) -> (r: EffectiveOwnership)
    ensures
        r == cls_stmts(p@, block.stmts@, ctx@),
{
    classify_param_in_stmts(p, &block.stmts, ctx)
}

/// The classifier over an arbitrary statement list, for a local binding rather than a
/// parameter.
pub fn classify_binding_in_stmts(name: &str, stmts: &Vec<Stmt>, ctx: &OwnershipContext) -> (r: EffectiveOwnership)
    ensures
        r == cls_stmts(name@, stmts@, ctx@),
{
    classify_param_in_stmts(name, stmts, ctx)
}

/// Run the effective-ownership analysis over a module's local functions.
///
/// `per_fn` is the least closed assignment of verdicts (see
/// [`crate::ownership_fixpoint::ownership_fixpoint`]); `consumed` is the least closed
/// assignment of consumed positions (see [`crate::consumed::consumed_fixpoint`]), with
/// `param_transfers` telling, by function name and position, whether a parameter's
/// declared type is an owned-heap conduit element kind. `returns_fresh` holds, per local
/// function, whether its returns are all fresh (see
/// [`crate::freshness::returns_freshness`]), with declared types resolved through `facts`.
pub fn analyze(
    module: &Module,
    declared_writes: &Vec<(String, Vec<usize>)>,
    imported_fn_names: &NameSet,
    mutating_builtin_methods: &NameSet,
    param_transfers: &Vec<(String, Vec<bool>)>,
    facts: &FreshnessFacts,
) -> (r: EffectiveOwnershipReport)
    ensures
        is_ownership_solution(
            local_decls(module.items@),
            r.per_fn@,
            declared_writes@,
            imported_fn_names@,
            mutating_builtin_methods@,
        ),
        forall|other: Seq<(String, Vec<EffectiveOwnership>)>|
            #[trigger] is_ownership_solution(
                local_decls(module.items@),
                other,
                declared_writes@,
                imported_fn_names@,
                mutating_builtin_methods@,
            ) ==> rows_le(r.per_fn@, other),
        is_consumed_solution(local_decls(module.items@), r.consumed@, imported_fn_names@, param_transfers@),
        forall|other: Seq<(String, Vec<bool>)>|
            #[trigger] is_consumed_solution(local_decls(module.items@), other, imported_fn_names@, param_transfers@)
                ==> consumed_rows_le(r.consumed@, other),
        crate::shape_passes::row_views(r.returns_fresh@) == crate::freshness::returns_fresh_rows(
            local_decls(module.items@),
            facts.inputs(module, imported_fn_names),
        ),
        rows_named_after(r.per_fn@, local_decls(module.items@)),
        rows_named_after(r.consumed@, local_decls(module.items@)),
        rows_named_after(r.returns_fresh@, local_decls(module.items@)),
        distinct_decl_names(local_decls(module.items@)) ==> distinct_row_names(r.per_fn@) && distinct_row_names(
            r.consumed@,
        ) && distinct_row_names(r.returns_fresh@),
{
    let per_fn = ownership_fixpoint(module, declared_writes, imported_fn_names, mutating_builtin_methods);
    let consumed = consumed_fixpoint(module, imported_fn_names, param_transfers);
    let returns_fresh = crate::freshness::returns_freshness(
        module,
        imported_fn_names,
        facts.fresh_builtin_methods,
        facts.shape_table,
        facts.scalar_results,
    );
    proof {
        let decls = local_decls(module.items@);
        let inp = facts.inputs(module, imported_fn_names);
        let seed = crate::freshness::seed_rows(decls);
        crate::freshness::lemma_iterate_keeps_names(decls, seed, inp, (decls.len() + 1) as nat);
        let rv = crate::shape_passes::row_views(returns_fresh@);
        assert forall|k: int| 0 <= k < returns_fresh@.len() implies (#[trigger] returns_fresh@[k]).0@ == decls[k].name@ by {
            assert(rv[k].0 == returns_fresh@[k].0@);
            assert(seed[k].0 == decls[k].name@);
        }
    }
    EffectiveOwnershipReport { per_fn, consumed, returns_fresh }
}

/// What the freshness walk knows of types and built-ins: the shape table that resolves
/// declared types, the built-in methods whose heap result is freshly built, and the
/// built-in methods whose result is the same scalar type on every receiver.
pub struct FreshnessFacts<'a> {
    pub shape_table: &'a crate::shapes::ShapeTable,
    pub fresh_builtin_methods: &'a NameSet,
    pub scalar_results: &'a Vec<(String, Type)>,
}

impl<'a> FreshnessFacts<'a> {
    /// The inputs of the freshness rounds for `module`.
    pub open spec fn inputs(&self, module: &Module, imported_fn_names: &NameSet) -> crate::freshness::FreshInputs {
        crate::freshness::fresh_inputs(
            crate::may_block::local_fn_names(module.items@),
            imported_fn_names@,
            self.fresh_builtin_methods@,
            *self.shape_table,
            self.scalar_results@,
        )
    }
}

/// The analysis with the module's own declared write positions, no imports, no
/// transferring parameter types, an empty shape table and no built-in method facts.
pub fn analyze_for_test(module: &Module, mutating_builtin_methods: &NameSet) -> (r: EffectiveOwnershipReport)
    ensures
        exists|declared: Seq<(String, Vec<usize>)>|
            {
                &&& declared.len() == local_decls(module.items@).len()
                &&& forall|k: int|
                    0 <= k < declared.len() ==> (#[trigger] declared[k]).0@ == local_decls(module.items@)[k].name@
                        && lists_write_positions(declared[k].1@, local_decls(module.items@)[k])
                &&& is_ownership_solution(
                    local_decls(module.items@),
                    r.per_fn@,
                    declared,
                    Set::empty(),
                    mutating_builtin_methods@,
                )
                &&& forall|other: Seq<(String, Vec<EffectiveOwnership>)>|
                    #[trigger] is_ownership_solution(
                        local_decls(module.items@),
                        other,
                        declared,
                        Set::empty(),
                        mutating_builtin_methods@,
                    ) ==> rows_le(r.per_fn@, other)
            },
        is_consumed_solution(local_decls(module.items@), r.consumed@, Set::empty(), Seq::empty()),
        forall|other: Seq<(String, Vec<bool>)>|
            #[trigger] is_consumed_solution(local_decls(module.items@), other, Set::empty(), Seq::empty())
                ==> consumed_rows_le(r.consumed@, other),
{
    let declared = declared_write_positions(module);
    let imported = NameSet::new();
    let transfers: Vec<(String, Vec<bool>)> = Vec::new();
    let table = crate::shapes::ShapeTable::empty();
    let no_methods = NameSet::new();
    let no_scalars: Vec<(String, Type)> = Vec::new();
    let facts = FreshnessFacts { shape_table: &table, fresh_builtin_methods: &no_methods, scalar_results: &no_scalars };
    let r = analyze(module, &declared, &imported, mutating_builtin_methods, &transfers, &facts);
    proof {
        assert(transfers@ =~= Seq::<(String, Vec<bool>)>::empty());
        assert(imported@ =~= Set::<Seq<char>>::empty());
    }
    r
}

/// The effective ownership a contract method's receiver carries: `share` only reads,
/// `lend` and `give` write.
pub fn receiver_kind_ownership(kind: &ReceiverKind) -> (r: EffectiveOwnership)
    ensures
        r == match *kind {
            ReceiverKind::Share => EffectiveOwnership::Reads,
            _ => EffectiveOwnership::Writes,
        },
{
    match kind {
        ReceiverKind::Share => EffectiveOwnership::Reads,
        ReceiverKind::Lend => EffectiveOwnership::Writes,
        ReceiverKind::Give => EffectiveOwnership::Writes,
    }
}

/// The effective `self` ownership of a contract signature, `None` when it has no receiver.
pub fn contract_self_ownership(sig: &ContractSig) -> (r: Option<EffectiveOwnership>)
    ensures
        r == match sig.receiver {
            Some(k) => Some(
                match k {
                    ReceiverKind::Share => EffectiveOwnership::Reads,
                    _ => EffectiveOwnership::Writes,
                },
            ),
            None => None,
        },
{
    match &sig.receiver {
        Some(k) => Some(receiver_kind_ownership(k)),
        None => None,
    }
}

} // verus!
