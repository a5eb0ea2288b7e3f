//! The type knowledge the ownership fixpoint has before any body is checked: declared
//! parameter types, value literals, built-in methods whose result is the same scalar on
//! every receiver, and `let` locals whose every binding has one knowable type.
use vstd::prelude::*;

use crate::names::{find_row, lookup, NameSet};
use crate::provenance::TypeOracle;
use crate::shape_passes::{row_index, row_views};
use crate::shapes::{spec_resolve_ast_type, ShapeTable};
use crate::syntax::{AstType, Expr, FunctionDecl, MatchArm, Param, Stmt};
use crate::types::{Type, TypeView};

verus! {

/// The model of an optional type.
pub open spec fn opt_type_view(t: Option<Type>) -> Option<TypeView> {
    match t {
        Some(x) => Some(x@),
        None => None,
    }
}

/// The type of a value literal, or of a built-in method call whose result type is the
/// same on every receiver (`scalar` lists them; a user function of the same name hides
/// it).
pub open spec fn literal_type(e: Expr, user: Set<Seq<char>>, scalar: Seq<(String, Type)>) -> Option<TypeView> {
    match e {
        Expr::IntLit(..) => Some(TypeView::Int),
        Expr::NumberLit(..) => Some(TypeView::Number { precision: 34 }),
        Expr::BoolLit(..) => Some(TypeView::Bool),
        Expr::StringLit(..) | Expr::InterpolatedString(..) => Some(TypeView::String),
        Expr::MethodCall { method, .. } => if user.contains(method@) {
            None
        } else {
            match lookup(scalar, method@) {
                Some(t) => Some(t@),
                None => None,
            }
        },
        _ => None,
    }
}

/// A name's candidate type joined in: the first binding records it, a later binding with
/// another type makes it unknown.
pub open spec fn join_local(
    m: Seq<(Seq<char>, Option<TypeView>)>,
    name: Seq<char>,
    ty: Option<TypeView>,
) -> Seq<(Seq<char>, Option<TypeView>)> {
    let k = row_index(m, name);
    if k >= 0 {
        if m[k].1 != ty {
            m.update(k, (name, None))
        } else {
            m
        }
    } else {
        m.push((name, ty))
    }
}

/// What the oracle's walk reads: the shape table that resolves annotations, the user
/// function names and the scalar built-in methods.
pub struct OracleEnv {
    pub table: ShapeTable,
    pub user: Set<Seq<char>>,
    pub scalar: Seq<(String, Type)>,
}

/// The local bindings of a statement joined in: a `let` with its annotation (or its
/// literal initializer's type), a `for` variable as unknown, and the bindings of nested
/// bodies.
pub open spec fn walk_stmt(st: Stmt, m: Seq<(Seq<char>, Option<TypeView>)>, env: OracleEnv) -> Seq<
    (Seq<char>, Option<TypeView>),
>
    decreases st,
{
    match st {
        Stmt::Let { name, ty, value, .. } => join_local(
            m,
            name@,
            match ty {
                Some(a) => Some(spec_resolve_ast_type(env.table, a)),
                None => literal_type(value, env.user, env.scalar),
            },
        ),
        Stmt::For { var, body, .. } => walk_stmts(body.stmts@, join_local(m, var@, None), env),
        Stmt::If { body, .. } => walk_stmts(body.stmts@, m, env),
        Stmt::While { body, .. } => walk_stmts(body.stmts@, m, env),
        Stmt::Match { arms, else_arm, .. } => {
            let a = walk_arms(arms@, m, env);
            match else_arm {
                Some(b) => walk_stmts(b.stmts@, a, env),
                None => a,
            }
        },
        _ => m,
    }
}

pub open spec fn walk_stmts(s: Seq<Stmt>, m: Seq<(Seq<char>, Option<TypeView>)>, env: OracleEnv) -> Seq<
    (Seq<char>, Option<TypeView>),
>
    decreases s,
{
    if s.len() == 0 {
        m
    } else {
        walk_stmt(s[s.len() - 1], walk_stmts(s.subrange(0, s.len() - 1), m, env), env)
    }
}

pub open spec fn walk_arms(s: Seq<MatchArm>, m: Seq<(Seq<char>, Option<TypeView>)>, env: OracleEnv) -> Seq<
    (Seq<char>, Option<TypeView>),
>
    decreases s,
{
    if s.len() == 0 {
        m
    } else {
        walk_stmts(s[s.len() - 1].body.stmts@, walk_arms(s.subrange(0, s.len() - 1), m, env), env)
    }
}

/// The parameters that a local shadows joined in as one more candidate each.
pub open spec fn join_params(ps: Seq<Param>, m: Seq<(Seq<char>, Option<TypeView>)>, env: OracleEnv) -> Seq<
    (Seq<char>, Option<TypeView>),
>
    decreases ps.len(),
{
    if ps.len() == 0 {
        m
    } else {
        let a = join_params(ps.drop_last(), m, env);
        let p = ps.last();
        if row_index(a, p.name@) >= 0 {
            join_local(a, p.name@, Some(spec_resolve_ast_type(env.table, p.ty)))
        } else {
            a
        }
    }
}

/// The local types of a function: its body's bindings, then its shadowed parameters.
pub open spec fn function_locals(f: FunctionDecl, env: OracleEnv) -> Seq<(Seq<char>, Option<TypeView>)> {
    join_params(f.params@, walk_stmts(f.body.stmts@, Seq::empty(), env), env)
}

/// The type the fixpoint knows for `e` in `f`: a name answers its local type (unknown when
/// its bindings disagree), else its parameter's declared type; any other expression
/// answers its literal type.
pub open spec fn oracle_type_of(
    locals: Seq<(Seq<char>, Option<TypeView>)>,
    f: FunctionDecl,
    env: OracleEnv,
    e: Expr,
) -> Option<TypeView> {
    match e {
        Expr::Ident(n, _) => {
            let k = row_index(locals, n@);
            if k >= 0 {
                locals[k].1
            } else {
                let j = row_index(param_rows(f.params@), n@);
                if j >= 0 {
                    Some(spec_resolve_ast_type(env.table, f.params@[j].ty))
                } else {
                    None
                }
            }
        },
        _ => literal_type(e, env.user, env.scalar),
    }
}

/// The types the fixpoint knows in `f`.
pub open spec fn fixpoint_types(f: FunctionDecl, env: OracleEnv) -> spec_fn(Expr) -> Option<TypeView> {
    |e: Expr| oracle_type_of(function_locals(f, env), f, env, e)
}

/// The oracle of one function, before its body is checked.
pub struct FixpointOracle<'a> {
    locals: Vec<(String, Option<Type>)>,
    decl: &'a FunctionDecl,
    table: &'a ShapeTable,
    local_fns: &'a NameSet,
    imported_fn_names: &'a NameSet,
    scalar_results: &'a Vec<(String, Type)>,
}

pub open spec fn local_views(s: Seq<(String, Option<Type>)>) -> Seq<(Seq<char>, Option<TypeView>)> {
    s.map_values(|r: (String, Option<Type>)| (r.0@, opt_type_view(r.1)))
}

impl<'a> FixpointOracle<'a> {
    pub closed spec fn locals_view(&self) -> Seq<(Seq<char>, Option<TypeView>)> {
        local_views(self.locals@)
    }

    pub closed spec fn decl_view(&self) -> FunctionDecl {
        *self.decl
    }

    pub closed spec fn table_view(&self) -> ShapeTable {
        *self.table
    }

    pub closed spec fn user_view(&self) -> Set<Seq<char>> {
        self.local_fns@.union(self.imported_fn_names@)
    }

    pub closed spec fn scalar_view(&self) -> Seq<(String, Type)> {
        self.scalar_results@
    }
}

impl<'a> TypeOracle for FixpointOracle<'a> {
    open spec fn spec_type_of(&self, e: Expr) -> Option<TypeView> {
        oracle_type_of(
            self.locals_view(),
            self.decl_view(),
            OracleEnv { table: self.table_view(), user: self.user_view(), scalar: self.scalar_view() },
            e,
        )
    }

    fn type_of(&self, e: &Expr) -> (r: Option<Type>) {
        match e {
            Expr::Ident(n, _) => {
                match local_position(&self.locals, n.as_str()) {
                    Some(k) => match &self.locals[k].1 {
                        Some(t) => Some(t.duplicate()),
                        None => None,
                    },
                    None => match param_position(&self.decl.params, n.as_str()) {
                        Some(j) => Some(self.table.resolve_ast_type(&self.decl.params[j].ty)),
                        None => None,
                    },
                }
            },
            _ => literal_type_of(e, self.local_fns, self.imported_fn_names, self.scalar_results),
        }
    }
}

/// The parameters as named rows.
pub open spec fn param_rows(ps: Seq<Param>) -> Seq<(Seq<char>, AstType)> {
    ps.map_values(|p: Param| (p.name@, p.ty))
}

fn param_position(ps: &Vec<Param>, name: &str) -> (r: Option<usize>)
    ensures
        match r {
            Some(k) => k < ps@.len() && row_index(param_rows(ps@), name@) == k as int,
            None => row_index(param_rows(ps@), name@) == -1,
        },
{
    let ghost vs = param_rows(ps@);
    let mut i: usize = 0;
    while i < ps.len()
        invariant
            i <= ps@.len(),
            vs == param_rows(ps@),
            forall|j: int| 0 <= j < i ==> #[trigger] vs[j].0 != name@,
        decreases ps@.len() - i,
    {
        if crate::text::str_eq(ps[i].name.as_str(), name) {
            proof {
                assert(vs[i as int].0 == name@);
                crate::shape_passes::lemma_row_index(vs, name@);
                let k = row_index(vs, name@);
                if k < i {
                    assert(vs[k].0 != name@);
                }
                if k > i {
                    assert(vs[i as int].0 != name@);
                }
            }
            return Some(i);
        }
        i = i + 1;
    }
    proof {
        crate::shape_passes::lemma_row_index(vs, name@);
        if row_index(vs, name@) >= 0 {
            let k = row_index(vs, name@);
            assert(vs[k].0 != name@);
        }
    }
    None
}

fn local_position(locals: &Vec<(String, Option<Type>)>, name: &str) -> (r: Option<usize>)
    ensures
        match r {
            Some(k) => k < locals@.len() && row_index(local_views(locals@), name@) == k as int,
            None => row_index(local_views(locals@), name@) == -1,
        },
{
    let ghost vs = local_views(locals@);
    let mut i: usize = 0;
    while i < locals.len()
        invariant
            i <= locals@.len(),
            vs == local_views(locals@),
            forall|j: int| 0 <= j < i ==> #[trigger] vs[j].0 != name@,
        decreases locals@.len() - i,
    {
        if crate::text::str_eq(locals[i].0.as_str(), name) {
            proof {
                assert(crate::shape_passes::first_in(vs, name@, i as int));
                crate::shape_passes::lemma_row_index(vs, name@);
                let k = row_index(vs, name@);
                if k < i {
                    assert(vs[k].0 != name@);
                }
                if k > i {
                    assert(vs[i as int].0 != name@);
                }
            }
            return Some(i);
        }
        i = i + 1;
    }
    proof {
        crate::shape_passes::lemma_row_index(vs, name@);
        if row_index(vs, name@) >= 0 {
            let k = row_index(vs, name@);
            assert(vs[k].0 != name@);
        }
    }
    None
}

fn literal_type_of(e: &Expr, local: &NameSet, imported: &NameSet, scalar: &Vec<(String, Type)>) -> (r: Option<Type>)
    ensures
        opt_type_view(r) == literal_type(*e, local@.union(imported@), scalar@),
{
    match e {
        Expr::IntLit(..) => Some(Type::Int),
        Expr::NumberLit(..) => Some(Type::Number { precision: 34 }),
        Expr::BoolLit(..) => Some(Type::Bool),
        Expr::StringLit(..) | Expr::InterpolatedString(..) => Some(Type::String),
        Expr::MethodCall { method, .. } => {
            if local.contains(method.as_str()) || imported.contains(method.as_str()) {
                None
            } else {
                match find_row(scalar, method.as_str()) {
                    Some(i) => Some(scalar[i].1.duplicate()),
                    None => None,
                }
            }
        },
        _ => None,
    }
}

fn same_opt_type(a: &Option<Type>, b: &Option<Type>) -> (r: bool)
    ensures
        r == (opt_type_view(*a) == opt_type_view(*b)),
{
    match (a, b) {
        (None, None) => true,
        (Some(x), Some(y)) => x.equals(y),
        _ => false,
    }
}

fn join_local_exec(m: &mut Vec<(String, Option<Type>)>, name: String, ty: Option<Type>)
    ensures
        local_views(final(m)@) == join_local(local_views(old(m)@), name@, opt_type_view(ty)),
{
    let ghost before = local_views(m@);
    let ghost nv = name@;
    let ghost tv = opt_type_view(ty);
    match local_position(m, name.as_str()) {
        Some(k) => {
            if !same_opt_type(&m[k].1, &ty) {
                m.set(k, (name, None));
                proof {
                    assert(local_views(m@) =~= before.update(k as int, (nv, None)));
                }
            }
        },
        None => {
            m.push((name, ty));
            proof {
                assert(local_views(m@) =~= before.push((nv, tv)));
            }
        },
    }
}

/// The executable form of [`OracleEnv`].
pub struct OracleCtx<'a> {
    pub table: &'a ShapeTable,
    pub local_fns: &'a NameSet,
    pub imported_fn_names: &'a NameSet,
    pub scalar_results: &'a Vec<(String, Type)>,
}

impl<'a> View for OracleCtx<'a> {
    type V = OracleEnv;

    open spec fn view(&self) -> OracleEnv {
        OracleEnv {
            table: *self.table,
            user: self.local_fns@.union(self.imported_fn_names@),
            scalar: self.scalar_results@,
        }
    }
}

fn walk_stmt_exec(st: &Stmt, m: &mut Vec<(String, Option<Type>)>, ctx: &OracleCtx)
    ensures
        local_views(final(m)@) == walk_stmt(*st, local_views(old(m)@), ctx@),
    decreases st,
{
    match st {
        Stmt::Let { name, ty, value, .. } => {
            let known = match ty {
                Some(a) => Some(ctx.table.resolve_ast_type(a)),
                None => literal_type_of(value, ctx.local_fns, ctx.imported_fn_names, ctx.scalar_results),
            };
            join_local_exec(m, name.clone(), known);
        },
        Stmt::For { var, body, .. } => {
            join_local_exec(m, var.clone(), None);
            walk_stmts_exec(&body.stmts, m, ctx);
        },
        Stmt::If { body, .. } => walk_stmts_exec(&body.stmts, m, ctx),
        Stmt::While { body, .. } => walk_stmts_exec(&body.stmts, m, ctx),
        Stmt::Match { arms, else_arm, .. } => {
            walk_arms_exec(arms, m, ctx);
            match else_arm {
                Some(b) => walk_stmts_exec(&b.stmts, m, ctx),
                None => {},
            }
        },
        _ => {},
    }
}

fn walk_stmts_exec(v: &Vec<Stmt>, m: &mut Vec<(String, Option<Type>)>, ctx: &OracleCtx)
    ensures
        local_views(final(m)@) == walk_stmts(v@, local_views(old(m)@), ctx@),
    decreases v,
{
    let ghost m0 = local_views(m@);
    let mut i: usize = 0;
    proof {
        assert(v@.subrange(0, 0) =~= Seq::<Stmt>::empty());
    }
    while i < v.len()
        invariant
            i <= v@.len(),
            local_views(m@) == walk_stmts(v@.subrange(0, i as int), m0, ctx@),
        decreases v@.len() - i,
    {
        proof {
            let pre = v@.subrange(0, i + 1);
            assert(pre.subrange(0, i as int) =~= v@.subrange(0, i as int));
            assert(pre[i as int] == v@[i as int]);
        }
        walk_stmt_exec(&v[i], m, ctx);
        i = i + 1;
    }
    proof {
        assert(v@.subrange(0, v@.len() as int) =~= v@);
    }
}

fn walk_arms_exec(v: &Vec<MatchArm>, m: &mut Vec<(String, Option<Type>)>, ctx: &OracleCtx)
    ensures
        local_views(final(m)@) == walk_arms(v@, local_views(old(m)@), ctx@),
    decreases v,
{
    let ghost m0 = local_views(m@);
    let mut i: usize = 0;
    proof {
        assert(v@.subrange(0, 0) =~= Seq::<MatchArm>::empty());
    }
    while i < v.len()
        invariant
            i <= v@.len(),
            local_views(m@) == walk_arms(v@.subrange(0, i as int), m0, ctx@),
        decreases v@.len() - i,
    {
        proof {
            let pre = v@.subrange(0, i + 1);
            assert(pre.subrange(0, i as int) =~= v@.subrange(0, i as int));
            assert(pre[i as int] == v@[i as int]);
        }
        walk_stmts_exec(&v[i].body.stmts, m, ctx);
        i = i + 1;
    }
    proof {
        assert(v@.subrange(0, v@.len() as int) =~= v@);
    }
}

/// The fixpoint's type oracle for one function (see [`function_locals`]).
pub fn fixpoint_type_oracle<'a>(
    f: &'a FunctionDecl,
    table: &'a ShapeTable,
    local_fns: &'a NameSet,
    imported_fn_names: &'a NameSet,
    scalar_results: &'a Vec<(String, Type)>,
) -> (o: FixpointOracle<'a>)
    ensures
        o.locals_view() == function_locals(
            *f,
            OracleEnv { table: *table, user: local_fns@.union(imported_fn_names@), scalar: scalar_results@ },
        ),
        o.decl_view() == *f,
        o.table_view() == *table,
        o.user_view() == local_fns@.union(imported_fn_names@),
        o.scalar_view() == scalar_results@,
{
    let ctx = OracleCtx { table, local_fns, imported_fn_names, scalar_results };
    let ghost env = ctx@;
    let mut locals: Vec<(String, Option<Type>)> = Vec::new();
    proof {
        assert(local_views(locals@) =~= Seq::<(Seq<char>, Option<TypeView>)>::empty());
    }
    walk_stmts_exec(&f.body.stmts, &mut locals, &ctx);
    let ghost walked = local_views(locals@);
    let ps = &f.params;
    let mut i: usize = 0;
    proof {
        assert(ps@.take(0) =~= Seq::<Param>::empty());
    }
    while i < ps.len()
        invariant
            i <= ps@.len(),
            env == ctx@,
            env.table == *table,
            local_views(locals@) == join_params(ps@.take(i as int), walked, env),
        decreases ps@.len() - i,
    {
        proof {
            assert(ps@.take(i + 1).drop_last() =~= ps@.take(i as int));
            assert(ps@.take(i + 1).last() == ps@[i as int]);
        }
        let ghost before = local_views(locals@);
        match local_position(&locals, ps[i].name.as_str()) {
            Some(_) => {
                let t = table.resolve_ast_type(&ps[i].ty);
                let ghost tv = t@;
                join_local_exec(&mut locals, ps[i].name.clone(), Some(t));
                proof {
                    assert(tv == spec_resolve_ast_type(env.table, ps@[i as int].ty));
                    assert(local_views(locals@) == join_local(before, ps@[i as int].name@, Some(tv)));
                }
            },
            None => {},
        }
        i = i + 1;
    }
    proof {
        assert(ps@.take(ps@.len() as int) =~= ps@);
    }
    FixpointOracle { locals, decl: f, table, local_fns, imported_fn_names, scalar_results }
}

} // verus!
