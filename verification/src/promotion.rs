//! CPU-statement promotion: which non-cyclic functions host a CPU-parallelizable group
//! (a parallel group of two or more members with at least one CPU member), and the
//! rollback of candidates whose state-machine closure trips a suspension guard.
use vstd::prelude::*;

use crate::independence::{
    partition_groups_classified, spec_call_args, spec_classified_partition, stmt_direct_callee_name, ClassifiedGroup,
    CpuCandidacy, MemberClass, PartEnv,
};
use crate::may_block::{
    candidates_reachable_from, find_mutual_suspension_cycles, lists_mutual_cycles, member_views, reachable_candidates, spec_suspends,
    suspends_with_extra_seeds,
};
use crate::names::NameSet;
use crate::ownership_fixpoint::local_decls;
use crate::signatures::{FunctionSig, SignatureTable};
use crate::syntax::{FunctionDecl, Item, MatchArm, Module, Stmt};
use crate::names::lookup;
use crate::types::{Type, TypeView};

verus! {

/// The result of the CPU-statement promotion analysis.
pub struct PromotionOutput {
    /// Functions promoted to state machines for CPU parallelization.
    pub promoted: NameSet,
}

/// A parallel group of two or more members with a CPU member.
pub open spec fn is_cpu_group(g: (Seq<int>, Seq<MemberClass>)) -> bool {
    g.0.len() >= 2 && g.1.contains(MemberClass::Cpu)
}

/// The straight-line block `s` itself partitions into a CPU-parallelizable group.
pub open spec fn block_has_cpu_group(s: Seq<Stmt>, env: PartEnv, rw: Set<Seq<char>>, en: Seq<char>) -> bool {
    let p = spec_classified_partition(s, env, rw, en);
    exists|k: int| 0 <= k < p.len() && #[trigger] is_cpu_group(p[k])
}

/// The callee names of the CPU members of the CPU-parallelizable groups of block `s`.
pub open spec fn block_cpu_callees(s: Seq<Stmt>, env: PartEnv, rw: Set<Seq<char>>, en: Seq<char>) -> Set<Seq<char>> {
    let p = spec_classified_partition(s, env, rw, en);
    Set::new(
        |n: Seq<char>|
            exists|k: int, j: int|
                0 <= k < p.len() && #[trigger] is_cpu_group(p[k]) && 0 <= j < p[k].0.len() && j < p[k].1.len() && #[trigger] p[k].1[j]
                    == MemberClass::Cpu && 0 <= p[k].0[j] < s.len() && match spec_call_args(s[p[k].0[j]]) {
                    Some(c) => c.0 == n,
                    None => false,
                },
    )
}

/// `s`, or a block nested in it (an `if`, `while` or `for` body, a match arm or `else`),
/// partitions into a CPU-parallelizable group.
pub open spec fn cpu_group_anywhere(s: Seq<Stmt>, env: PartEnv, rw: Set<Seq<char>>, en: Seq<char>) -> bool
    decreases s, 1int,
{
    block_has_cpu_group(s, env, rw, en) || nested_cpu_group(s, env, rw, en)
}

pub open spec fn nested_cpu_group(s: Seq<Stmt>, env: PartEnv, rw: Set<Seq<char>>, en: Seq<char>) -> bool
    decreases s, 0int,
{
    if s.len() == 0 {
        false
    } else {
        nested_cpu_group(s.subrange(0, s.len() - 1), env, rw, en) || stmt_nested_cpu_group(s[s.len() - 1], env, rw, en)
    }
}

pub open spec fn stmt_nested_cpu_group(st: Stmt, env: PartEnv, rw: Set<Seq<char>>, en: Seq<char>) -> bool
    decreases st, 0int,
{
    match st {
        Stmt::If { body, .. } => cpu_group_anywhere(body.stmts@, env, rw, en),
        Stmt::While { body, .. } => cpu_group_anywhere(body.stmts@, env, rw, en),
        Stmt::For { body, .. } => cpu_group_anywhere(body.stmts@, env, rw, en),
        Stmt::Match { arms, else_arm, .. } => arms_cpu_group(arms@, env, rw, en) || match else_arm {
            Some(b) => cpu_group_anywhere(b.stmts@, env, rw, en),
            None => false,
        },
        _ => false,
    }
}

pub open spec fn arms_cpu_group(s: Seq<MatchArm>, env: PartEnv, rw: Set<Seq<char>>, en: Seq<char>) -> bool
    decreases s, 0int,
{
    if s.len() == 0 {
        false
    } else {
        arms_cpu_group(s.subrange(0, s.len() - 1), env, rw, en) || cpu_group_anywhere(s[s.len() - 1].body.stmts@, env, rw, en)
    }
}

/// The CPU-member callee names of every CPU-parallelizable group of `s` and its nested
/// blocks.
pub open spec fn cpu_callees_anywhere(s: Seq<Stmt>, env: PartEnv, rw: Set<Seq<char>>, en: Seq<char>) -> Set<Seq<char>>
    decreases s, 1int,
{
    block_cpu_callees(s, env, rw, en).union(nested_cpu_callees(s, env, rw, en))
}

pub open spec fn nested_cpu_callees(s: Seq<Stmt>, env: PartEnv, rw: Set<Seq<char>>, en: Seq<char>) -> Set<Seq<char>>
    decreases s, 0int,
{
    if s.len() == 0 {
        Set::empty()
    } else {
        nested_cpu_callees(s.subrange(0, s.len() - 1), env, rw, en).union(
            stmt_nested_cpu_callees(s[s.len() - 1], env, rw, en),
        )
    }
}

pub open spec fn stmt_nested_cpu_callees(st: Stmt, env: PartEnv, rw: Set<Seq<char>>, en: Seq<char>) -> Set<Seq<char>>
    decreases st, 0int,
{
    match st {
        Stmt::If { body, .. } => cpu_callees_anywhere(body.stmts@, env, rw, en),
        Stmt::While { body, .. } => cpu_callees_anywhere(body.stmts@, env, rw, en),
        Stmt::For { body, .. } => cpu_callees_anywhere(body.stmts@, env, rw, en),
        Stmt::Match { arms, else_arm, .. } => arms_cpu_callees(arms@, env, rw, en).union(
            match else_arm {
                Some(b) => cpu_callees_anywhere(b.stmts@, env, rw, en),
                None => Set::empty(),
            },
        ),
        _ => Set::empty(),
    }
}

pub open spec fn arms_cpu_callees(s: Seq<MatchArm>, env: PartEnv, rw: Set<Seq<char>>, en: Seq<char>) -> Set<Seq<char>>
    decreases s, 0int,
{
    if s.len() == 0 {
        Set::empty()
    } else {
        arms_cpu_callees(s.subrange(0, s.len() - 1), env, rw, en).union(
            cpu_callees_anywhere(s[s.len() - 1].body.stmts@, env, rw, en),
        )
    }
}

fn has_cpu_class(classes: &Vec<MemberClass>) -> (b: bool)
    ensures
        b == classes@.contains(MemberClass::Cpu),
{
    let mut i: usize = 0;
    while i < classes.len()
        invariant
            i <= classes@.len(),
            forall|j: int| 0 <= j < i ==> classes@[j] != MemberClass::Cpu,
        decreases classes@.len() - i,
    {
        match classes[i] {
            MemberClass::Cpu => {
                proof {
                    assert(classes@[i as int] == MemberClass::Cpu);
                }
                return true;
            },
            _ => {},
        }
        i = i + 1;
    }
    false
}

/// The CPU groups of the block itself: whether there is one, and their CPU-member callee
/// names added to `out`.
fn block_groups(
    stmts: &Vec<Stmt>,
    suspend_set: &NameSet,
    sig_table: &SignatureTable,
    imported_fns: &Vec<(String, FunctionSig)>,
    cpu: &CpuCandidacy,
    out: &mut NameSet,
) -> (found: bool)
    ensures
        found == block_has_cpu_group(
            stmts@,
            PartEnv { suspend: suspend_set@, local: sig_table.fns@, imported: imported_fns@ },
            cpu.does_real_work@,
            cpu.enclosing_fn@,
        ),
        final(out)@ == old(out)@.union(
            block_cpu_callees(
                stmts@,
                PartEnv { suspend: suspend_set@, local: sig_table.fns@, imported: imported_fns@ },
                cpu.does_real_work@,
                cpu.enclosing_fn@,
            ),
        ),
{
    let ghost env = PartEnv { suspend: suspend_set@, local: sig_table.fns@, imported: imported_fns@ };
    let ghost rw = cpu.does_real_work@;
    let ghost en = cpu.enclosing_fn@;
    let ghost p = spec_classified_partition(stmts@, env, rw, en);
    let ghost s = stmts@;
    let groups = partition_groups_classified(stmts, suspend_set, sig_table, imported_fns, cpu);
    let ghost target = block_cpu_callees(s, env, rw, en);
    let ghost o0 = out@;
    let mut found = false;
    let mut k: usize = 0;
    while k < groups.len()
        invariant
            k <= groups@.len(),
            groups@.len() == p.len(),
            p == spec_classified_partition(stmts@, env, rw, en),
            s == stmts@,
            crate::independence::classified_match(groups@, p, s),
            target == block_cpu_callees(s, env, rw, en),
            found == exists|q: int| 0 <= q < k && #[trigger] is_cpu_group(p[q]),
            out@ == o0.union(
                Set::new(
                    |n: Seq<char>|
                        exists|a: int, j: int|
                            0 <= a < k && #[trigger] is_cpu_group(p[a]) && 0 <= j < p[a].0.len() && j < p[a].1.len() && #[trigger] p[a].1[j]
                                == MemberClass::Cpu && 0 <= p[a].0[j] < s.len() && match spec_call_args(s[p[a].0[j]]) {
                                Some(c) => c.0 == n,
                                None => false,
                            },
                ),
            ),
        decreases groups@.len() - k,
    {
        let ghost before = out@;
        let ghost g = p[k as int];
        match &groups[k] {
            ClassifiedGroup::Parallel { stmts: v, classes } => {
                proof {
                    assert(v@.len() == g.0.len() && g.0.len() >= 2 && classes@ == g.1);
                }
                if v.len() >= 2 && has_cpu_class(classes) {
                    found = true;
                    let mut j: usize = 0;
                    while j < v.len()
                        invariant
                            j <= v@.len(),
                            v@.len() == g.0.len(),
                            classes@ == g.1,
                            g == p[k as int],
                            is_cpu_group(g),
                            k < p.len(),
                            s == stmts@,
                            forall|q: int| 0 <= q < v@.len() ==> 0 <= #[trigger] g.0[q] < s.len() && *v@[q] == s[g.0[q]],
                            out@ == before.union(
                                Set::new(
                                    |n: Seq<char>|
                                        exists|q: int|
                                            0 <= q < j && q < g.1.len() && #[trigger] g.1[q] == MemberClass::Cpu && match spec_call_args(
                                                s[g.0[q]],
                                            ) {
                                                Some(c) => c.0 == n,
                                                None => false,
                                            },
                                ),
                            ),
                        decreases v@.len() - j,
                    {
                        let ghost inner_before = out@;
                        if j < classes.len() {
                            match classes[j] {
                                MemberClass::Cpu => {
                                    match stmt_direct_callee_name(v[j]) {
                                        Some(n) => {
                                            out.insert(n);
                                        },
                                        None => {},
                                    }
                                },
                                _ => {},
                            }
                        }
                        proof {
                            assert(*v@[j as int] == s[g.0[j as int]]);
                            let lhs = before.union(
                                Set::new(
                                    |n: Seq<char>|
                                        exists|q: int|
                                            0 <= q < j + 1 && q < g.1.len() && #[trigger] g.1[q] == MemberClass::Cpu && match spec_call_args(
                                                s[g.0[q]],
                                            ) {
                                                Some(c) => c.0 == n,
                                                None => false,
                                            },
                                ),
                            );
                            assert forall|n: Seq<char>| out@.contains(n) <==> lhs.contains(n) by {
                                if exists|q: int|
                                    0 <= q < j + 1 && q < g.1.len() && #[trigger] g.1[q] == MemberClass::Cpu && match spec_call_args(
                                        s[g.0[q]],
                                    ) {
                                        Some(c) => c.0 == n,
                                        None => false,
                                    } {
                                    let q = choose|q: int|
                                        0 <= q < j + 1 && q < g.1.len() && #[trigger] g.1[q] == MemberClass::Cpu && match spec_call_args(
                                            s[g.0[q]],
                                        ) {
                                            Some(c) => c.0 == n,
                                            None => false,
                                        };
                                    if q < j {
                                        assert(inner_before.contains(n));
                                    }
                                }
                            }
                            assert(out@ =~= lhs);
                        }
                        j = j + 1;
                    }
                    proof {
                        let step = Set::new(
                            |n: Seq<char>|
                                exists|q: int|
                                    0 <= q < v@.len() && q < g.1.len() && #[trigger] g.1[q] == MemberClass::Cpu && match spec_call_args(
                                        s[g.0[q]],
                                    ) {
                                        Some(c) => c.0 == n,
                                        None => false,
                                    },
                        );
                        assert forall|n: Seq<char>|
                            out@.contains(n) <==> o0.union(
                                Set::new(
                                    |n: Seq<char>|
                                        exists|a: int, j: int|
                                            0 <= a < k + 1 && #[trigger] is_cpu_group(p[a]) && 0 <= j < p[a].0.len()
                                                && j < p[a].1.len() && #[trigger] p[a].1[j] == MemberClass::Cpu && 0 <= p[a].0[j] < s.len()
                                                && match spec_call_args(s[p[a].0[j]]) {
                                                Some(c) => c.0 == n,
                                                None => false,
                                            },
                                ),
                            ).contains(n) by {
                            if step.contains(n) {
                                let q = choose|q: int|
                                    0 <= q < v@.len() && q < g.1.len() && #[trigger] g.1[q] == MemberClass::Cpu && match spec_call_args(
                                        s[g.0[q]],
                                    ) {
                                        Some(c) => c.0 == n,
                                        None => false,
                                    };
                                assert(is_cpu_group(p[k as int]) && p[k as int].1[q] == MemberClass::Cpu);
                            }
                            if exists|a: int, j: int|
                                0 <= a < k + 1 && #[trigger] is_cpu_group(p[a]) && 0 <= j < p[a].0.len()
                                    && j < p[a].1.len() && #[trigger] p[a].1[j] == MemberClass::Cpu && 0 <= p[a].0[j] < s.len()
                                    && match spec_call_args(s[p[a].0[j]]) {
                                    Some(c) => c.0 == n,
                                    None => false,
                                } {
                                let (a, j) = choose|a: int, j: int|
                                    0 <= a < k + 1 && #[trigger] is_cpu_group(p[a]) && 0 <= j < p[a].0.len()
                                        && j < p[a].1.len() && #[trigger] p[a].1[j] == MemberClass::Cpu && 0 <= p[a].0[j] < s.len()
                                        && match spec_call_args(s[p[a].0[j]]) {
                                        Some(c) => c.0 == n,
                                        None => false,
                                    };
                                if a == k {
                                    assert(g.1[j] == MemberClass::Cpu);
                                    assert(step.contains(n));
                                } else {
                                    assert(before.contains(n));
                                }
                            }
                        }
                        assert(is_cpu_group(p[k as int]));
                    }
                } else {
                    proof {
                        assert(!is_cpu_group(g));
                    }
                }
            },
            ClassifiedGroup::Singleton(_) => {
                proof {
                    assert(g.0.len() == 1);
                    assert(!is_cpu_group(g));
                }
            },
        }
        proof {
            let prev = Set::new(
                |n: Seq<char>|
                    exists|a: int, j: int|
                        0 <= a < k && #[trigger] is_cpu_group(p[a]) && 0 <= j < p[a].0.len() && j < p[a].1.len() && #[trigger] p[a].1[j]
                            == MemberClass::Cpu && 0 <= p[a].0[j] < s.len() && match spec_call_args(s[p[a].0[j]]) {
                            Some(c) => c.0 == n,
                            None => false,
                        },
            );
            let next = Set::new(
                |n: Seq<char>|
                    exists|a: int, j: int|
                        0 <= a < k + 1 && #[trigger] is_cpu_group(p[a]) && 0 <= j < p[a].0.len() && j < p[a].1.len() && #[trigger] p[a].1[j]
                            == MemberClass::Cpu && 0 <= p[a].0[j] < s.len() && match spec_call_args(s[p[a].0[j]]) {
                            Some(c) => c.0 == n,
                            None => false,
                        },
            );
            if !is_cpu_group(g) {
                assert(out@ == before);
                assert forall|n: Seq<char>| next.contains(n) implies prev.contains(n) by {
                    let (a, j) = choose|a: int, j: int|
                        0 <= a < k + 1 && #[trigger] is_cpu_group(p[a]) && 0 <= j < p[a].0.len() && j < p[a].1.len() && #[trigger] p[a].1[j]
                            == MemberClass::Cpu && 0 <= p[a].0[j] < s.len() && match spec_call_args(s[p[a].0[j]]) {
                            Some(c) => c.0 == n,
                            None => false,
                        };
                    assert(a != k);
                }
                assert(next =~= prev);
                if exists|q: int| 0 <= q < k + 1 && #[trigger] is_cpu_group(p[q]) {
                    let q = choose|q: int| 0 <= q < k + 1 && #[trigger] is_cpu_group(p[q]);
                    assert(q != k);
                }
            }
            assert(out@ =~= o0.union(next));
        }
        k = k + 1;
    }
    proof {
        assert(out@ =~= o0.union(target));
    }
    found
}

/// Walk `stmts` and every nested block: whether a CPU-parallelizable group is there, with
/// the callee names of its CPU members added to `out`.
fn walk_cpu_groups(
    stmts: &Vec<Stmt>,
    suspend_set: &NameSet,
    sig_table: &SignatureTable,
    imported_fns: &Vec<(String, FunctionSig)>,
    cpu: &CpuCandidacy,
    out: &mut NameSet,
) -> (found: bool)
    ensures
        found == cpu_group_anywhere(
            stmts@,
            PartEnv { suspend: suspend_set@, local: sig_table.fns@, imported: imported_fns@ },
            cpu.does_real_work@,
            cpu.enclosing_fn@,
        ),
        final(out)@ == old(out)@.union(
            cpu_callees_anywhere(
                stmts@,
                PartEnv { suspend: suspend_set@, local: sig_table.fns@, imported: imported_fns@ },
                cpu.does_real_work@,
                cpu.enclosing_fn@,
            ),
        ),
    decreases stmts, 1int,
{
    let a = block_groups(stmts, suspend_set, sig_table, imported_fns, cpu, out);
    let b = walk_nested(stmts, suspend_set, sig_table, imported_fns, cpu, out);
    proof {
        let env = PartEnv { suspend: suspend_set@, local: sig_table.fns@, imported: imported_fns@ };
        assert(out@ =~= old(out)@.union(cpu_callees_anywhere(stmts@, env, cpu.does_real_work@, cpu.enclosing_fn@)));
    }
    a || b
}

fn walk_nested(
    stmts: &Vec<Stmt>,
    suspend_set: &NameSet,
    sig_table: &SignatureTable,
    imported_fns: &Vec<(String, FunctionSig)>,
    cpu: &CpuCandidacy,
    out: &mut NameSet,
) -> (found: bool)
    ensures
        found == nested_cpu_group(
            stmts@,
            PartEnv { suspend: suspend_set@, local: sig_table.fns@, imported: imported_fns@ },
            cpu.does_real_work@,
            cpu.enclosing_fn@,
        ),
        final(out)@ == old(out)@.union(
            nested_cpu_callees(
                stmts@,
                PartEnv { suspend: suspend_set@, local: sig_table.fns@, imported: imported_fns@ },
                cpu.does_real_work@,
                cpu.enclosing_fn@,
            ),
        ),
    decreases stmts, 0int,
{
    let ghost env = PartEnv { suspend: suspend_set@, local: sig_table.fns@, imported: imported_fns@ };
    let ghost rw = cpu.does_real_work@;
    let ghost en = cpu.enclosing_fn@;
    let ghost o0 = out@;
    let mut found = false;
    let mut i: usize = 0;
    proof {
        assert(stmts@.subrange(0, 0) =~= Seq::<Stmt>::empty());
        assert(out@ =~= o0.union(nested_cpu_callees(stmts@.subrange(0, 0), env, rw, en)));
    }
    while i < stmts.len()
        invariant
            i <= stmts@.len(),
            env == (PartEnv { suspend: suspend_set@, local: sig_table.fns@, imported: imported_fns@ }),
            rw == cpu.does_real_work@,
            en == cpu.enclosing_fn@,
            found == nested_cpu_group(stmts@.subrange(0, i as int), env, rw, en),
            out@ == o0.union(nested_cpu_callees(stmts@.subrange(0, i as int), env, rw, en)),
        decreases stmts@.len() - i,
    {
        proof {
            let pre = stmts@.subrange(0, i + 1);
            assert(pre.subrange(0, i as int) =~= stmts@.subrange(0, i as int));
            assert(pre[i as int] == stmts@[i as int]);
        }
        let here = walk_stmt_nested(&stmts[i], suspend_set, sig_table, imported_fns, cpu, out);
        found = found || here;
        proof {
            assert(out@ =~= o0.union(nested_cpu_callees(stmts@.subrange(0, i + 1), env, rw, en)));
        }
        i = i + 1;
    }
    proof {
        assert(stmts@.subrange(0, stmts@.len() as int) =~= stmts@);
    }
    found
}

fn walk_stmt_nested(
    st: &Stmt,
    suspend_set: &NameSet,
    sig_table: &SignatureTable,
    imported_fns: &Vec<(String, FunctionSig)>,
    cpu: &CpuCandidacy,
    out: &mut NameSet,
) -> (found: bool)
    ensures
        found == stmt_nested_cpu_group(
            *st,
            PartEnv { suspend: suspend_set@, local: sig_table.fns@, imported: imported_fns@ },
            cpu.does_real_work@,
            cpu.enclosing_fn@,
        ),
        final(out)@ == old(out)@.union(
            stmt_nested_cpu_callees(
                *st,
                PartEnv { suspend: suspend_set@, local: sig_table.fns@, imported: imported_fns@ },
                cpu.does_real_work@,
                cpu.enclosing_fn@,
            ),
        ),
    decreases st, 0int,
{
    let ghost env = PartEnv { suspend: suspend_set@, local: sig_table.fns@, imported: imported_fns@ };
    match st {
        Stmt::If { body, .. } => walk_cpu_groups(&body.stmts, suspend_set, sig_table, imported_fns, cpu, out),
        Stmt::While { body, .. } => walk_cpu_groups(&body.stmts, suspend_set, sig_table, imported_fns, cpu, out),
        Stmt::For { body, .. } => walk_cpu_groups(&body.stmts, suspend_set, sig_table, imported_fns, cpu, out),
        Stmt::Match { arms, else_arm, .. } => {
            let a = walk_arms(arms, suspend_set, sig_table, imported_fns, cpu, out);
            let b = match else_arm {
                Some(blk) => walk_cpu_groups(&blk.stmts, suspend_set, sig_table, imported_fns, cpu, out),
                None => false,
            };
            proof {
                assert(out@ =~= old(out)@.union(stmt_nested_cpu_callees(*st, env, cpu.does_real_work@, cpu.enclosing_fn@)));
            }
            a || b
        },
        _ => {
            proof {
                assert(out@ =~= old(out)@.union(Set::empty()));
            }
            false
        },
    }
}

fn walk_arms(
    v: &Vec<MatchArm>,
    suspend_set: &NameSet,
    sig_table: &SignatureTable,
    imported_fns: &Vec<(String, FunctionSig)>,
    cpu: &CpuCandidacy,
    out: &mut NameSet,
) -> (found: bool)
    ensures
        found == arms_cpu_group(
            v@,
            PartEnv { suspend: suspend_set@, local: sig_table.fns@, imported: imported_fns@ },
            cpu.does_real_work@,
            cpu.enclosing_fn@,
        ),
        final(out)@ == old(out)@.union(
            arms_cpu_callees(
                v@,
                PartEnv { suspend: suspend_set@, local: sig_table.fns@, imported: imported_fns@ },
                cpu.does_real_work@,
                cpu.enclosing_fn@,
            ),
        ),
    decreases v, 0int,
{
    let ghost env = PartEnv { suspend: suspend_set@, local: sig_table.fns@, imported: imported_fns@ };
    let ghost rw = cpu.does_real_work@;
    let ghost en = cpu.enclosing_fn@;
    let ghost o0 = out@;
    let mut found = false;
    let mut i: usize = 0;
    proof {
        assert(v@.subrange(0, 0) =~= Seq::<MatchArm>::empty());
        assert(out@ =~= o0.union(arms_cpu_callees(v@.subrange(0, 0), env, rw, en)));
    }
    while i < v.len()
        invariant
            i <= v@.len(),
            env == (PartEnv { suspend: suspend_set@, local: sig_table.fns@, imported: imported_fns@ }),
            rw == cpu.does_real_work@,
            en == cpu.enclosing_fn@,
            found == arms_cpu_group(v@.subrange(0, i as int), env, rw, en),
            out@ == o0.union(arms_cpu_callees(v@.subrange(0, i as int), env, rw, en)),
        decreases v@.len() - i,
    {
        proof {
            let pre = v@.subrange(0, i + 1);
            assert(pre.subrange(0, i as int) =~= v@.subrange(0, i as int));
            assert(pre[i as int] == v@[i as int]);
        }
        let here = walk_cpu_groups(&v[i].body.stmts, suspend_set, sig_table, imported_fns, cpu, out);
        found = found || here;
        proof {
            assert(out@ =~= o0.union(arms_cpu_callees(v@.subrange(0, i + 1), env, rw, en)));
        }
        i = i + 1;
    }
    proof {
        assert(v@.subrange(0, v@.len() as int) =~= v@);
    }
    found
}

/// Does the body contain a CPU-parallelizable group, in its top-level block or a nested
/// one?
pub fn function_has_cpu_group(
    stmts: &Vec<Stmt>,
    suspend_set: &NameSet,
    sig_table: &SignatureTable,
    imported_fns: &Vec<(String, FunctionSig)>,
    cpu: &CpuCandidacy,
) -> (r: bool)
    ensures
        r == cpu_group_anywhere(
            stmts@,
            PartEnv { suspend: suspend_set@, local: sig_table.fns@, imported: imported_fns@ },
            cpu.does_real_work@,
            cpu.enclosing_fn@,
        ),
{
    let mut scratch = NameSet::new();
    walk_cpu_groups(stmts, suspend_set, sig_table, imported_fns, cpu, &mut scratch)
}

/// Add to `out` the callee names of the CPU members of every CPU-parallelizable group of
/// the body: once the function is promoted these are its suspension points.
pub fn collect_cpu_callees(
    stmts: &Vec<Stmt>,
    suspend_set: &NameSet,
    sig_table: &SignatureTable,
    imported_fns: &Vec<(String, FunctionSig)>,
    cpu: &CpuCandidacy,
    out: &mut NameSet,
)
    ensures
        final(out)@ == old(out)@.union(
            cpu_callees_anywhere(
                stmts@,
                PartEnv { suspend: suspend_set@, local: sig_table.fns@, imported: imported_fns@ },
                cpu.does_real_work@,
                cpu.enclosing_fn@,
            ),
        ),
{
    walk_cpu_groups(stmts, suspend_set, sig_table, imported_fns, cpu, out);
}

/// The names of the signatures marked as doing real work.
pub open spec fn real_work_names(rows: Seq<(String, FunctionSig)>) -> Set<Seq<char>> {
    Set::new(|n: Seq<char>| exists|k: int| 0 <= k < rows.len() && #[trigger] rows[k].0@ == n && rows[k].1.does_real_work)
}

/// `n` lies in a call cycle with another local function.
pub open spec fn in_mutual_cycle(items: Seq<Item>, imported: Set<Seq<char>>, n: Seq<char>) -> bool {
    exists|y: Seq<char>|
        y != n && #[trigger] crate::call_graph::mutually_reachable(
            crate::may_block::local_fn_names(items),
            crate::may_block::call_edges(items, imported, Set::empty()),
            n,
            y,
        )
}

/// The promotion candidates: the local functions, outside any mutual call cycle, whose
/// body holds a CPU-parallelizable group (members classified against the base suspends
/// and the signatures, the function itself as the enclosing one).
pub open spec fn cpu_candidates(
    items: Seq<Item>,
    sigs: Seq<(String, FunctionSig)>,
    imported_fns: Seq<(String, FunctionSig)>,
    base: Set<Seq<char>>,
    imported: Set<Seq<char>>,
) -> Set<Seq<char>> {
    Set::new(
        |n: Seq<char>|
            exists|k: int|
                0 <= k < local_decls(items).len() && #[trigger] local_decls(items)[k].name@ == n && !in_mutual_cycle(
                    items,
                    imported,
                    n,
                ) && cpu_group_anywhere(
                    local_decls(items)[k].body.stmts@,
                    PartEnv { suspend: base, local: sigs, imported: imported_fns },
                    real_work_names(sigs),
                    n,
                ),
    )
}

fn real_work_set(sig_table: &SignatureTable) -> (s: NameSet)
    ensures
        s@ == real_work_names(sig_table.fns@),
{
    let mut s = NameSet::new();
    let mut i: usize = 0;
    while i < sig_table.fns.len()
        invariant
            i <= sig_table.fns@.len(),
            s@ == Set::new(
                |n: Seq<char>|
                    exists|k: int| 0 <= k < i && #[trigger] sig_table.fns@[k].0@ == n && sig_table.fns@[k].1.does_real_work,
            ),
        decreases sig_table.fns@.len() - i,
    {
        let ghost before = s@;
        if sig_table.fns[i].1.does_real_work {
            s.insert(sig_table.fns[i].0.clone());
        }
        proof {
            let next = Set::new(
                |n: Seq<char>|
                    exists|k: int| 0 <= k < i + 1 && #[trigger] sig_table.fns@[k].0@ == n && sig_table.fns@[k].1.does_real_work,
            );
            assert forall|n: Seq<char>| s@.contains(n) <==> next.contains(n) by {
                if n == sig_table.fns@[i as int].0@ && sig_table.fns@[i as int].1.does_real_work {
                    assert(next.contains(n));
                }
                if next.contains(n) {
                    let k = choose|k: int| 0 <= k < i + 1 && #[trigger] sig_table.fns@[k].0@ == n && sig_table.fns@[k].1.does_real_work;
                    if k < i {
                        assert(before.contains(n));
                    }
                }
            }
            assert(s@ =~= next);
        }
        i = i + 1;
    }
    proof {
        assert(s@ =~= real_work_names(sig_table.fns@));
    }
    s
}

/// The members of the module's mutual call cycles.
fn cyclic_members(module: &Module, imported_fn_names: &NameSet) -> (s: NameSet)
    ensures
        forall|n: Seq<char>| s@.contains(n) <==> in_mutual_cycle(module.items@, imported_fn_names@, n),
{
    let ghost items = module.items@;
    let ghost imp = imported_fn_names@;
    let ghost local = crate::may_block::local_fn_names(items);
    let ghost calls = crate::may_block::call_edges(items, imp, Set::empty());
    let all = crate::may_block::local_function_names(&module.items);
    let cycles = find_mutual_suspension_cycles(module, imported_fn_names, &all);
    proof {
        assert(local.intersect(all@) =~= local);
    }
    let mut s = NameSet::new();
    let mut c: usize = 0;
    while c < cycles.len()
        invariant
            c <= cycles@.len(),
            lists_mutual_cycles(cycles@, local, calls),
            local == crate::may_block::local_fn_names(items),
            calls == crate::may_block::call_edges(items, imp, Set::empty()),
            items == module.items@,
            imp == imported_fn_names@,
            forall|n: Seq<char>|
                s@.contains(n) <==> exists|a: int, b: int|
                    0 <= a < c && 0 <= b < member_views(cycles@[a]).len() && #[trigger] member_views(cycles@[a])[b] == n,
        decreases cycles@.len() - c,
    {
        let members = &cycles[c].members;
        let ghost mv = member_views(cycles@[c as int]);
        let ghost s_before = s@;
        let mut j: usize = 0;
        while j < members.len()
            invariant
                j <= members@.len(),
                mv == crate::text::string_views(members@),
                s@ == s_before.union(Set::new(|n: Seq<char>| exists|b: int| 0 <= b < j && #[trigger] mv[b] == n)),
            decreases members@.len() - j,
        {
            let ghost before = s@;
            s.insert(members[j].clone());
            proof {
                assert(mv[j as int] == members@[j as int]@);
                let next = s_before.union(Set::new(|n: Seq<char>| exists|b: int| 0 <= b < j + 1 && #[trigger] mv[b] == n));
                assert forall|n: Seq<char>| s@.contains(n) <==> next.contains(n) by {
                    if n == mv[j as int] {
                        assert(mv[j as int] == n);
                    }
                    if exists|b: int| 0 <= b < j + 1 && #[trigger] mv[b] == n {
                        let b = choose|b: int| 0 <= b < j + 1 && #[trigger] mv[b] == n;
                        if b < j {
                            assert(before.contains(n));
                        }
                    }
                }
                assert(s@ =~= next);
            }
            j = j + 1;
        }
        proof {
            assert forall|n: Seq<char>|
                s@.contains(n) <==> exists|a: int, b: int|
                    0 <= a < c + 1 && 0 <= b < member_views(cycles@[a]).len() && #[trigger] member_views(cycles@[a])[b] == n by {
                if exists|b: int| 0 <= b < mv.len() && #[trigger] mv[b] == n {
                    let b = choose|b: int| 0 <= b < mv.len() && #[trigger] mv[b] == n;
                    assert(member_views(cycles@[c as int])[b] == n);
                }
                if s_before.contains(n) {
                    let (a, b) = choose|a: int, b: int|
                        0 <= a < c && 0 <= b < member_views(cycles@[a]).len() && #[trigger] member_views(cycles@[a])[b] == n;
                    assert(member_views(cycles@[a])[b] == n);
                }
                if exists|a: int, b: int|
                    0 <= a < c + 1 && 0 <= b < member_views(cycles@[a]).len() && #[trigger] member_views(cycles@[a])[b] == n {
                    let (a, b) = choose|a: int, b: int|
                        0 <= a < c + 1 && 0 <= b < member_views(cycles@[a]).len() && #[trigger] member_views(cycles@[a])[b] == n;
                    if a < c {
                        assert(s_before.contains(n));
                    } else {
                        assert(mv[b] == n);
                    }
                }
            }
        }
        c = c + 1;
    }
    proof {
        assert forall|n: Seq<char>| s@.contains(n) <==> in_mutual_cycle(items, imp, n) by {
            if s@.contains(n) {
                let (a, b) = choose|a: int, b: int|
                    0 <= a < cycles@.len() && 0 <= b < member_views(cycles@[a]).len() && #[trigger] member_views(cycles@[a])[b] == n;
                let m = member_views(cycles@[a]);
                assert(crate::text::sorted_unique(m) && m.len() >= 2);
                let other = if b == 0 { 1int } else { 0int };
                assert(m[other] != m[b]);
                assert(crate::call_graph::mutually_reachable(local, calls, m[b], m[other]));
                assert(m[other] != n && crate::call_graph::mutually_reachable(local, calls, n, m[other]));
            }
            if in_mutual_cycle(items, imp, n) {
                let y = choose|y: Seq<char>| y != n && #[trigger] crate::call_graph::mutually_reachable(local, calls, n, y);
                let c2 = choose|c2: int| 0 <= c2 < cycles@.len() && #[trigger] member_views(cycles@[c2]).contains(n);
                let b = choose|b: int| 0 <= b < member_views(cycles@[c2]).len() && member_views(cycles@[c2])[b] == n;
                assert(member_views(cycles@[c2])[b] == n);
            }
        }
    }
    s
}

/// The promotion candidates among the first `k` declarations.
spec fn candidates_upto(
    items: Seq<Item>,
    sigs: Seq<(String, FunctionSig)>,
    imported_fns: Seq<(String, FunctionSig)>,
    base: Set<Seq<char>>,
    imported: Set<Seq<char>>,
    k: int,
) -> Set<Seq<char>> {
    Set::new(
        |n: Seq<char>|
            exists|a: int|
                0 <= a < k && #[trigger] local_decls(items)[a].name@ == n && !in_mutual_cycle(items, imported, n)
                    && cpu_group_anywhere(
                    local_decls(items)[a].body.stmts@,
                    PartEnv { suspend: base, local: sigs, imported: imported_fns },
                    real_work_names(sigs),
                    n,
                ),
    )
}

/// The guard probe never fires, whatever it is asked.
pub open spec fn guard_never_fires<G: Fn(&FunctionDecl, &Type, &NameSet) -> bool>(g: G) -> bool {
    forall|f: &FunctionDecl, t: &Type, s: &NameSet, b: bool| #[trigger] g.ensures((f, t, s), b) ==> !b
}

/// The module and tables that the promotion probes are asked against.
pub struct PromotionCtx {
    pub items: Seq<Item>,
    pub sigs: Seq<(String, FunctionSig)>,
    pub imported_fns: Seq<(String, FunctionSig)>,
    pub base: Set<Seq<char>>,
    pub imported: Set<Seq<char>>,
    pub imported_suspending: Set<Seq<char>>,
}

/// The functions that become state machines when the candidates `c` are promoted.
pub open spec fn sm_closure(ctx: PromotionCtx, c: Set<Seq<char>>) -> Set<Seq<char>> {
    Set::new(|n: Seq<char>| spec_suspends(ctx.items, ctx.imported, ctx.imported_suspending, c, n))
}

/// The function `n` is probed while `c` are the candidates: it newly becomes a state
/// machine, or it already suspends and is itself a candidate.
pub open spec fn is_probed(ctx: PromotionCtx, c: Set<Seq<char>>, n: Seq<char>) -> bool {
    (sm_closure(ctx, c).contains(n) && !ctx.base.contains(n)) || (ctx.base.contains(n) && c.contains(n))
}

/// The suspending names a probe of `f` is given: the state-machine closure, plus the
/// callees of `f`'s CPU group members when `f` is a candidate.
pub open spec fn probe_suspending(ctx: PromotionCtx, c: Set<Seq<char>>, f: FunctionDecl) -> Set<Seq<char>> {
    if c.contains(f.name@) {
        sm_closure(ctx, c).union(
            cpu_callees_anywhere(
                f.body.stmts@,
                PartEnv { suspend: ctx.base, local: ctx.sigs, imported: ctx.imported_fns },
                real_work_names(ctx.sigs),
                f.name@,
            ),
        )
    } else {
        sm_closure(ctx, c)
    }
}

/// The return type a probe of `n` is given: its signature's, or nothing.
pub open spec fn probe_ret(sigs: Seq<(String, FunctionSig)>, n: Seq<char>) -> TypeView {
    match lookup(sigs, n) {
        Some(sig) => sig.ret@,
        None => TypeView::Nothing,
    }
}

/// The guard may answer `b` when `f` is probed while `c` are the candidates.
pub open spec fn probe_answer<G: Fn(&FunctionDecl, &Type, &NameSet) -> bool>(
    g: G,
    ctx: PromotionCtx,
    c: Set<Seq<char>>,
    f: FunctionDecl,
    b: bool,
) -> bool {
    exists|fr: &FunctionDecl, t: &Type, s: &NameSet|
        *fr == f && t@ == probe_ret(ctx.sigs, f.name@) && s@ == probe_suspending(ctx, c, f) && #[trigger] g.ensures(
            (fr, t, s),
            b,
        )
}

/// The candidate `x` is rolled back by the probe of the `a`-th local function while `c` are
/// the candidates: that function is probed, the guard fired on it, and `x` is reachable from
/// it.
pub open spec fn rolled_back_by<G: Fn(&FunctionDecl, &Type, &NameSet) -> bool>(
    g: G,
    ctx: PromotionCtx,
    c: Set<Seq<char>>,
    a: int,
    x: Seq<char>,
) -> bool {
    let decls = local_decls(ctx.items);
    &&& 0 <= a < decls.len()
    &&& is_probed(ctx, c, decls[a].name@)
    &&& reachable_candidates(ctx.items, ctx.imported, decls[a].name@, c).contains(x)
    &&& probe_answer(g, ctx, c, decls[a], true)
}

/// The candidates `r` are stable: every probed function from which a candidate is
/// reachable got a probe that did not fire.
pub open spec fn rollback_stable<G: Fn(&FunctionDecl, &Type, &NameSet) -> bool>(
    g: G,
    ctx: PromotionCtx,
    r: Set<Seq<char>>,
) -> bool {
    forall|a: int, x: Seq<char>|
        0 <= a < local_decls(ctx.items).len() && is_probed(ctx, r, local_decls(ctx.items)[a].name@)
            && #[trigger] reachable_candidates(ctx.items, ctx.imported, local_decls(ctx.items)[a].name@, r).contains(x)
            ==> probe_answer(g, ctx, r, local_decls(ctx.items)[a], false)
}

/// Every candidate left out of `r` was rolled back by a probe that fired while the
/// candidates were some set between `r` and `init`.
pub open spec fn rollbacks_justified<G: Fn(&FunctionDecl, &Type, &NameSet) -> bool>(
    g: G,
    ctx: PromotionCtx,
    init: Set<Seq<char>>,
    r: Set<Seq<char>>,
) -> bool {
    forall|x: Seq<char>|
        init.contains(x) && !r.contains(x) ==> exists|c: Set<Seq<char>>, a: int|
            #[trigger] rolled_back_by(g, ctx, c, a, x) && r.subset_of(c) && c.subset_of(init)
}

pub open spec fn promotion_ctx(
    module: Module,
    sig_table: SignatureTable,
    imported_fns: Seq<(String, FunctionSig)>,
    base: Set<Seq<char>>,
    imported: Set<Seq<char>>,
    imported_suspending: Set<Seq<char>>,
) -> PromotionCtx {
    PromotionCtx {
        items: module.items@,
        sigs: sig_table.fns@,
        imported_fns,
        base,
        imported,
        imported_suspending,
    }
}

/// Compute which functions get CPU-statement promotion.
///
/// Promotion declines entirely under `no_auto_parallel` or `kernel_mode`. Otherwise the
/// candidates are the local functions outside mutual call cycles that host a
/// CPU-parallelizable group; then, until nothing changes, every function that the
/// candidates would newly make a state machine (and every base-suspending candidate) is
/// probed with `guard_fires` (the declaration, its return type, and the suspending names:
/// the state-machine closure plus the function's own CPU callees when it is a
/// candidate), and each probe that fires removes every candidate reachable from the
/// probed function. The result is always a subset of the candidates, and all of them
/// when the probe never fires; every candidate left out was rolled back by a probe that
/// fired, and every probed function from which a promoted candidate is reachable got a
/// probe that did not fire.
pub fn compute_cpu_promotions<G: Fn(&FunctionDecl, &Type, &NameSet) -> bool>(
    module: &Module,
    sig_table: &SignatureTable,
    imported_fns: &Vec<(String, FunctionSig)>,
    base_suspends: &NameSet,
    imported_fn_names: &NameSet,
    imported_suspending_names: &NameSet,
    guard_fires: &G,
    kernel_mode: bool,
    no_auto_parallel: bool,
) -> (r: NameSet)
    requires
        forall|f: &FunctionDecl, t: &Type, s: &NameSet| #[trigger] guard_fires.requires((f, t, s)),
    ensures
        no_auto_parallel || kernel_mode ==> r@ == Set::<Seq<char>>::empty(),
        r@.subset_of(cpu_candidates(module.items@, sig_table.fns@, imported_fns@, base_suspends@, imported_fn_names@)),
        !(no_auto_parallel || kernel_mode) && guard_never_fires(*guard_fires) ==> r@ == cpu_candidates(
            module.items@,
            sig_table.fns@,
            imported_fns@,
            base_suspends@,
            imported_fn_names@,
        ),
        !(no_auto_parallel || kernel_mode) ==> rollbacks_justified(
            *guard_fires,
            promotion_ctx(*module, *sig_table, imported_fns@, base_suspends@, imported_fn_names@, imported_suspending_names@),
            cpu_candidates(module.items@, sig_table.fns@, imported_fns@, base_suspends@, imported_fn_names@),
            r@,
        ),
        !(no_auto_parallel || kernel_mode) ==> rollback_stable(
            *guard_fires,
            promotion_ctx(*module, *sig_table, imported_fns@, base_suspends@, imported_fn_names@, imported_suspending_names@),
            r@,
        ),
{
    if no_auto_parallel || kernel_mode {
        let r = NameSet::new();
        return r;
    }
    let ghost items = module.items@;
    let ghost decls = local_decls(items);
    let ghost init = cpu_candidates(items, sig_table.fns@, imported_fns@, base_suspends@, imported_fn_names@);
    let rw = real_work_set(sig_table);
    let cyclic = cyclic_members(module, imported_fn_names);
    let positions = crate::ownership_fixpoint::function_item_positions(module);
    let mut candidates = NameSet::new();
    let mut k: usize = 0;
    proof {
        assert(candidates@ =~= candidates_upto(items, sig_table.fns@, imported_fns@, base_suspends@, imported_fn_names@, 0));
    }
    while k < positions.len()
        invariant
            k <= positions@.len(),
            items == module.items@,
            decls == local_decls(items),
            crate::ownership_fixpoint::positions_of(items, positions@),
            rw@ == real_work_names(sig_table.fns@),
            forall|n: Seq<char>| cyclic@.contains(n) <==> in_mutual_cycle(items, imported_fn_names@, n),
            candidates@ == candidates_upto(items, sig_table.fns@, imported_fns@, base_suspends@, imported_fn_names@, k as int),
        decreases positions@.len() - k,
    {
        match &module.items[positions[k]] {
            Item::Function(f) => {
                proof {
                    assert(*f == decls[k as int]);
                }
                let ghost before = candidates@;
                let mut hit = false;
                if !cyclic.contains(f.name.as_str()) {
                    let cpu = CpuCandidacy { does_real_work: &rw, enclosing_fn: f.name.as_str() };
                    if function_has_cpu_group(&f.body.stmts, base_suspends, sig_table, imported_fns, &cpu) {
                        candidates.insert(f.name.clone());
                        hit = true;
                    }
                }
                proof {
                    let next = candidates_upto(items, sig_table.fns@, imported_fns@, base_suspends@, imported_fn_names@, k + 1);
                    let prev = candidates_upto(items, sig_table.fns@, imported_fns@, base_suspends@, imported_fn_names@, k as int);
                    assert forall|n: Seq<char>| candidates@.contains(n) <==> next.contains(n) by {
                        if n == f.name@ && hit {
                            assert(decls[k as int].name@ == n);
                        }
                        if next.contains(n) {
                            let a = choose|a: int|
                                0 <= a < k + 1 && #[trigger] decls[a].name@ == n && !in_mutual_cycle(items, imported_fn_names@, n)
                                    && cpu_group_anywhere(
                                    decls[a].body.stmts@,
                                    PartEnv { suspend: base_suspends@, local: sig_table.fns@, imported: imported_fns@ },
                                    real_work_names(sig_table.fns@),
                                    n,
                                );
                            if a < k {
                                assert(prev.contains(n));
                            }
                        }
                        if before.contains(n) {
                            let a = choose|a: int|
                                0 <= a < k && #[trigger] decls[a].name@ == n && !in_mutual_cycle(items, imported_fn_names@, n)
                                    && cpu_group_anywhere(
                                    decls[a].body.stmts@,
                                    PartEnv { suspend: base_suspends@, local: sig_table.fns@, imported: imported_fns@ },
                                    real_work_names(sig_table.fns@),
                                    n,
                                );
                            assert(decls[a].name@ == n);
                        }
                    }
                    assert(candidates@ =~= next);
                }
            },
            _ => {
                proof {
                    assert(false);
                }
            },
        }
        k = k + 1;
    }
    proof {
        assert(candidates@ =~= init);
    }
    let ghost ctx = promotion_ctx(*module, *sig_table, imported_fns@, base_suspends@, imported_fn_names@, imported_suspending_names@);
    let mut done = false;
    while !done
        invariant
            ctx == promotion_ctx(*module, *sig_table, imported_fns@, base_suspends@, imported_fn_names@, imported_suspending_names@),
            rollbacks_justified(*guard_fires, ctx, init, candidates@),
            done ==> rollback_stable(*guard_fires, ctx, candidates@),
            items == module.items@,
            decls == local_decls(items),
            crate::ownership_fixpoint::positions_of(items, positions@),
            rw@ == real_work_names(sig_table.fns@),
            init == cpu_candidates(items, sig_table.fns@, imported_fns@, base_suspends@, imported_fn_names@),
            candidates@.subset_of(init),
            guard_never_fires(*guard_fires) ==> candidates@ == init,
            forall|f: &FunctionDecl, t: &Type, s: &NameSet| #[trigger] guard_fires.requires((f, t, s)),
        decreases candidates.entries().len() + if done {
            0int
        } else {
            1int
        },
    {
        if candidates.len() == 0 {
            proof {
                assert forall|x: Seq<char>| !candidates@.contains(x) by {
                    if candidates@.contains(x) {
                        assert(candidates.entries().contains(x));
                    }
                }
            }
            done = true;
        } else {
            let closure = suspends_with_extra_seeds(module, imported_fn_names, imported_suspending_names, &candidates);
            let ghost cands = candidates@;
            proof {
                assert(closure@ =~= sm_closure(ctx, cands));
            }
            let mut to_remove = NameSet::new();
            let mut q: usize = 0;
            while q < positions.len()
                invariant
                    q <= positions@.len(),
                    cands == candidates@,
                    closure@ == sm_closure(ctx, cands),
                    ctx == promotion_ctx(*module, *sig_table, imported_fns@, base_suspends@, imported_fn_names@, imported_suspending_names@),
                    forall|x: Seq<char>| #[trigger]
                        to_remove@.contains(x) ==> exists|a: int| 0 <= a < q && #[trigger] rolled_back_by(*guard_fires, ctx, cands, a, x),
                    forall|a: int|
                        0 <= a < q && #[trigger] is_probed(ctx, cands, decls[a].name@) ==> probe_answer(
                            *guard_fires,
                            ctx,
                            cands,
                            decls[a],
                            false,
                        ) || reachable_candidates(items, imported_fn_names@, decls[a].name@, cands).subset_of(to_remove@),
                    items == module.items@,
                    decls == local_decls(items),
                    crate::ownership_fixpoint::positions_of(items, positions@),
                    rw@ == real_work_names(sig_table.fns@),
                    to_remove@.subset_of(candidates@),
                    guard_never_fires(*guard_fires) ==> to_remove@ == Set::<Seq<char>>::empty(),
                    forall|f: &FunctionDecl, t: &Type, s: &NameSet| #[trigger] guard_fires.requires((f, t, s)),
                decreases positions@.len() - q,
            {
                match &module.items[positions[q]] {
                    Item::Function(f) => {
                        proof {
                            assert(*f == decls[q as int]);
                        }
                        let ghost tr0 = to_remove@;
                        let name = f.name.as_str();
                        let is_candidate = candidates.contains(name);
                        let in_base = base_suspends.contains(name);
                        let newly_sm = closure.contains(name) && !in_base;
                        let base_direct = in_base && is_candidate;
                        if newly_sm || base_direct {
                            let mut suspending = closure.copy();
                            if is_candidate {
                                let cpu = CpuCandidacy { does_real_work: &rw, enclosing_fn: name };
                                collect_cpu_callees(&f.body.stmts, base_suspends, sig_table, imported_fns, &cpu, &mut suspending);
                            }
                            let ret_ty = match sig_table.get(name) {
                                Some(sig) => sig.ret.duplicate(),
                                None => Type::Nothing,
                            };
                            proof {
                                assert(suspending@ =~= probe_suspending(ctx, cands, *f));
                                assert(ret_ty@ == probe_ret(sig_table.fns@, f.name@));
                                assert(is_probed(ctx, cands, decls[q as int].name@));
                            }
                            let fires = guard_fires(f, &ret_ty, &suspending);
                            proof {
                                assert(guard_fires.ensures((f, &ret_ty, &suspending), fires));
                                assert(probe_answer(*guard_fires, ctx, cands, decls[q as int], fires));
                            }
                            if fires {
                                let reach = candidates_reachable_from(name, module, imported_fn_names, &candidates);
                                to_remove.union_with(&reach);
                                proof {
                                    assert(reach@.subset_of(candidates@));
                                    assert forall|x: Seq<char>| #[trigger] to_remove@.contains(x) implies exists|a: int|
                                        0 <= a < q + 1 && #[trigger] rolled_back_by(*guard_fires, ctx, cands, a, x) by {
                                        if !tr0.contains(x) {
                                            assert(rolled_back_by(*guard_fires, ctx, cands, q as int, x));
                                        }
                                    }
                                }
                            }
                        } else {
                            proof {
                                assert(!is_probed(ctx, cands, decls[q as int].name@));
                            }
                        }
                    },
                    _ => {
                        proof {
                            assert(false);
                        }
                    },
                }
                q = q + 1;
            }
            if to_remove.is_empty() {
                proof {
                    assert forall|a: int, x: Seq<char>|
                        0 <= a < local_decls(ctx.items).len() && is_probed(ctx, candidates@, local_decls(ctx.items)[a].name@)
                            && #[trigger] reachable_candidates(ctx.items, ctx.imported, local_decls(ctx.items)[a].name@, candidates@).contains(x)
                        implies probe_answer(*guard_fires, ctx, candidates@, local_decls(ctx.items)[a], false) by {
                        assert(decls.len() == positions@.len());
                        assert(is_probed(ctx, cands, decls[a].name@));
                        assert(!to_remove@.contains(x));
                    }
                }
                done = true;
            } else {
                proof {
                    if forall|x: Seq<char>| !to_remove@.contains(x) {
                        assert(to_remove@ =~= Set::<Seq<char>>::empty());
                    }
                    let x = choose|x: Seq<char>| to_remove@.contains(x);
                    assert(candidates@.contains(x));
                }
                let ghost tr = to_remove@;
                candidates = candidates.minus(&to_remove);
                proof {
                    assert forall|x: Seq<char>| init.contains(x) && !candidates@.contains(x) implies exists|c: Set<Seq<char>>, a: int|
                        #[trigger] rolled_back_by(*guard_fires, ctx, c, a, x) && candidates@.subset_of(c) && c.subset_of(init) by {
                        if tr.contains(x) {
                            let a = choose|a: int| 0 <= a < positions@.len() && #[trigger] rolled_back_by(*guard_fires, ctx, cands, a, x);
                            assert(rolled_back_by(*guard_fires, ctx, cands, a, x));
                        } else {
                            assert(!cands.contains(x));
                            let (c, a) = choose|c: Set<Seq<char>>, a: int|
                                #[trigger] rolled_back_by(*guard_fires, ctx, c, a, x) && cands.subset_of(c) && c.subset_of(init);
                            assert(rolled_back_by(*guard_fires, ctx, c, a, x));
                        }
                    }
                }
            }
        }
    }
    candidates
}

} // verus!
