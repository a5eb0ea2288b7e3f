//! The scoped name table used while checking a function body: a stack of frames, each
//! mapping binding names to what the type pass knows about them. Lookups search from the
//! innermost frame out; bindings that denote the same value share an alias class, and
//! consuming one binding consumes its whole class.
use vstd::prelude::*;

use crate::diagnostics::SourceSpan;
use crate::names::{find_row, first_at, lemma_lookup_other, lookup};
use crate::syntax::OwnershipModifier;
use crate::text::{insert_sorted_unique, sorted_unique, str_eq, string_views};
use crate::types::Type;

verus! {

/// Why a binding's value is gone.
#[derive(Debug, PartialEq, Eq)]
pub enum ConsumedBy {
    /// Passed to a `give` parameter.
    Given { callee: String, given: String },
    /// Sent whole on a channel.
    Sent { channel: String, sent: String },
}

impl ConsumedBy {
    /// A copy of this value.
    pub fn duplicate(&self) -> (r: ConsumedBy)
        ensures
            r == *self,
    {
        match self {
            ConsumedBy::Given { callee, given } => ConsumedBy::Given { callee: callee.clone(), given: given.clone() },
            ConsumedBy::Sent { channel, sent } => ConsumedBy::Sent { channel: channel.clone(), sent: sent.clone() },
        }
    }
}

/// Where a binding's value came from.
#[derive(Debug, PartialEq, Eq)]
pub enum Origin {
    Owned,
    Param(Option<OwnershipModifier>),
    Cell(String),
    Reaches(String),
    Unknown,
}

/// What the type pass knows about one binding.
#[derive(Debug)]
pub struct ScopeEntry {
    pub ty: Type,
    pub is_const: bool,
    pub is_param: bool,
    pub param_ownership: Option<OwnershipModifier>,
    pub is_loop_var: bool,
    pub consumed: Option<ConsumedBy>,
    pub origin: Origin,
    pub alias_class: u64,
    pub defined_at: SourceSpan,
}

/// No name occurs twice in a frame.
pub open spec fn frame_distinct(f: Seq<(String, ScopeEntry)>) -> bool {
    forall|i: int, j: int| 0 <= i < f.len() && 0 <= j < f.len() && i != j ==> f[i].0@ != f[j].0@
}

/// The entry `name` resolves to: the innermost frame that binds it.
pub open spec fn scope_lookup(frames: Seq<Seq<(String, ScopeEntry)>>, name: Seq<char>) -> Option<ScopeEntry>
    decreases frames.len(),
{
    if frames.len() == 0 {
        None
    } else {
        match lookup(frames.last(), name) {
            Some(e) => Some(e),
            None => scope_lookup(frames.drop_last(), name),
        }
    }
}

/// A stack of binding frames.
pub struct Scope {
    frames: Vec<Vec<(String, ScopeEntry)>>,
    next_class: u64,
}

impl Scope {
    /// At least one frame, no name repeated within a frame, classes counted from 1.
    pub closed spec fn wf(&self) -> bool {
        &&& self.frames@.len() >= 1
        &&& forall|k: int| 0 <= k < self.frames@.len() ==> frame_distinct(#[trigger] self.frames@[k]@)
        &&& self.next_class >= 1
    }

    /// The frames, outermost first.
    pub closed spec fn frames_view(&self) -> Seq<Seq<(String, ScopeEntry)>> {
        self.frames@.map_values(|f: Vec<(String, ScopeEntry)>| f@)
    }

    /// The next alias class `new_class` hands out.
    pub closed spec fn next_class_view(&self) -> u64 {
        self.next_class
    }

    /// The entry `name` resolves to.
    pub open spec fn resolves(&self, name: Seq<char>) -> Option<ScopeEntry> {
        scope_lookup(self.frames_view(), name)
    }

    /// A scope with one empty frame.
    pub fn new() -> (s: Scope)
        ensures
            s.wf(),
            s.frames_view().len() == 1,
            s.frames_view()[0].len() == 0,
            s.next_class_view() == 1,
            forall|n: Seq<char>| s.resolves(n) is None,
    {
        let mut frames: Vec<Vec<(String, ScopeEntry)>> = Vec::new();
        frames.push(Vec::new());
        let s = Scope { frames, next_class: 1 };
        proof {
            assert forall|n: Seq<char>| s.resolves(n) is None by {
                let fv = s.frames_view();
                assert(fv.last().len() == 0);
                assert(lookup(fv.last(), n) is None);
                assert(fv.drop_last().len() == 0);
                assert(scope_lookup(fv.drop_last(), n) is None);
            }
        }
        s
    }

    /// Open a new innermost frame.
    pub fn push(&mut self)
        requires
            old(self).wf(),
        ensures
            final(self).wf(),
            final(self).frames_view() == old(self).frames_view().push(Seq::empty()),
            forall|n: Seq<char>| final(self).resolves(n) == old(self).resolves(n),
            final(self).next_class_view() == old(self).next_class_view(),
    {
        let mut frames: Vec<Vec<(String, ScopeEntry)>> = Vec::new();
        std::mem::swap(&mut frames, &mut self.frames);
        let ghost all = frames@;
        frames.push(Vec::new());
        std::mem::swap(&mut frames, &mut self.frames);
        proof {
            assert(self.frames_view() =~= old(self).frames_view().push(Seq::empty()));
            assert forall|k: int| 0 <= k < self.frames@.len() implies frame_distinct(#[trigger] self.frames@[k]@) by {
                if k < all.len() {
                    assert(self.frames@[k] == all[k]);
                }
            }
            assert forall|n: Seq<char>| self.resolves(n) == old(self).resolves(n) by {
                let fv = self.frames_view();
                assert(lookup(fv.last(), n) is None);
                assert(fv.drop_last() =~= old(self).frames_view());
            }
        }
    }

    /// Close the innermost frame (the outermost frame is never closed).
    pub fn pop(&mut self)
        requires
            old(self).wf(),
        ensures
            final(self).wf(),
            old(self).frames_view().len() > 1 ==> final(self).frames_view() == old(self).frames_view().drop_last(),
            old(self).frames_view().len() <= 1 ==> final(self).frames_view() == old(self).frames_view(),
            final(self).next_class_view() == old(self).next_class_view(),
    {
        if self.frames.len() > 1 {
            let mut frames: Vec<Vec<(String, ScopeEntry)>> = Vec::new();
            std::mem::swap(&mut frames, &mut self.frames);
            let ghost all = frames@;
            frames.pop();
            std::mem::swap(&mut frames, &mut self.frames);
            proof {
                assert forall|k: int| 0 <= k < self.frames@.len() implies frame_distinct(#[trigger] self.frames@[k]@) by {
                    assert(self.frames@[k] == all[k]);
                }
                assert(self.frames_view() =~= old(self).frames_view().drop_last());
            }
        }
    }

    /// A fresh alias class.
    pub fn new_class(&mut self) -> (id: u64)
        requires
            old(self).wf(),
            old(self).next_class_view() < u64::MAX,
        ensures
            final(self).wf(),
            id == old(self).next_class_view(),
            final(self).next_class_view() == id + 1,
            final(self).frames_view() == old(self).frames_view(),
    {
        let id = self.next_class;
        self.next_class = self.next_class + 1;
        id
    }

    /// Bind `name` to `entry` in the innermost frame, replacing a binding of `name` there.
    pub fn insert(&mut self, name: String, entry: ScopeEntry)
        requires
            old(self).wf(),
        ensures
            final(self).wf(),
            final(self).frames_view().len() == old(self).frames_view().len(),
            final(self).frames_view().drop_last() == old(self).frames_view().drop_last(),
            lookup(final(self).frames_view().last(), name@) == Some(entry),
            forall|m: Seq<char>|
                m != name@ ==> lookup(final(self).frames_view().last(), m) == lookup(old(self).frames_view().last(), m),
            final(self).resolves(name@) == Some(entry),
            forall|m: Seq<char>| m != name@ ==> final(self).resolves(m) == old(self).resolves(m),
            final(self).next_class_view() == old(self).next_class_view(),
    {
        let ghost nv = name@;
        let ghost ev = entry;
        let mut frames: Vec<Vec<(String, ScopeEntry)>> = Vec::new();
        std::mem::swap(&mut frames, &mut self.frames);
        let ghost all = frames@;
        let mut frame = frames.pop().unwrap();
        let ghost before = frame@;
        let found = find_row(&frame, name.as_str());
        let ghost mut pos: int = before.len() as int;
        match found {
            Some(i) => {
                proof {
                    pos = i as int;
                }
                frame.set(i, (name, entry));
            },
            None => {
                frame.push((name, entry));
            },
        }
        proof {
            assert(frame@[pos].0@ == nv);
            assert(frame@[pos].1 == ev);
            assert forall|a: int, b: int| 0 <= a < frame@.len() && 0 <= b < frame@.len() && a != b implies frame@[a].0@
                != frame@[b].0@ by {
                if a != pos && b != pos {
                    assert(frame@[a] == before[a] && frame@[b] == before[b]);
                } else if a == pos {
                    assert(frame@[b] == before[b]);
                    if pos == before.len() && before[b].0@ == nv {
                        assert(lookup(before, nv) is Some);
                    }
                } else {
                    assert(frame@[a] == before[a]);
                    if pos == before.len() && before[a].0@ == nv {
                        assert(lookup(before, nv) is Some);
                    }
                }
            }
            lemma_lookup_distinct(frame@, pos);
            assert forall|m: Seq<char>| m != nv implies lookup(frame@, m) == lookup(before, m) by {
                lemma_lookup_other(before, frame@, pos, m);
            }
        }
        frames.push(frame);
        std::mem::swap(&mut frames, &mut self.frames);
        proof {
            assert(self.frames_view().drop_last() =~= old(self).frames_view().drop_last());
            assert(self.frames_view().last() == frame@);
            assert forall|k: int| 0 <= k < self.frames@.len() implies frame_distinct(#[trigger] self.frames@[k]@) by {
                if k < self.frames@.len() - 1 {
                    assert(self.frames@[k] == all[k]);
                }
            }
            assert forall|k: int| 0 <= k < self.frames@.len() - 1 implies self.frames@[k] == all[k] by {}
            let fv = self.frames_view();
            let ov = old(self).frames_view();
            assert(fv.drop_last() == ov.drop_last());
            assert forall|m: Seq<char>| m != nv implies self.resolves(m) == old(self).resolves(m) by {
                assert(lookup(fv.last(), m) == lookup(ov.last(), m));
            }
        }
    }
}

/// In a frame without repeated names, the lookup of the name at `i` is its entry.
proof fn lemma_lookup_distinct(f: Seq<(String, ScopeEntry)>, i: int)
    requires
        frame_distinct(f),
        0 <= i < f.len(),
    ensures
        lookup(f, f[i].0@) == Some(f[i].1),
{
    let k = choose|k: int| 0 <= k < f.len() && f[k].0@ == f[i].0@ && forall|j: int| 0 <= j < k ==> #[trigger] f[j].0@ != f[i].0@;
    assert(k == i);
}

} // verus!

verus! {

impl Scope {
    /// The entry `name` resolves to, searching from the innermost frame out.
    pub fn lookup(&self, name: &str) -> (r: Option<&ScopeEntry>)
        requires
            self.wf(),
        ensures
            match r {
                Some(e) => self.resolves(name@) == Some(*e),
                None => self.resolves(name@) is None,
            },
    {
        let ghost fv = self.frames_view();
        let mut k: usize = self.frames.len();
        proof {
            assert(fv.subrange(0, k as int) =~= fv);
        }
        while k > 0
            invariant
                k <= self.frames@.len(),
                fv == self.frames_view(),
                fv.len() == self.frames@.len(),
                scope_lookup(fv, name@) == scope_lookup(fv.subrange(0, k as int), name@),
            decreases k,
        {
            let idx = k - 1;
            let frame = &self.frames[idx];
            proof {
                let pre = fv.subrange(0, k as int);
                assert(pre.last() == frame@);
                assert(pre.drop_last() =~= fv.subrange(0, idx as int));
            }
            match find_row(frame, name) {
                Some(i) => {
                    return Some(&frame[i].1);
                },
                None => {},
            }
            k = idx;
        }
        None
    }

    /// The alias class of the binding `name` resolves to.
    pub fn class_of(&self, name: &str) -> (r: Option<u64>)
        requires
            self.wf(),
        ensures
            r == match self.resolves(name@) {
                Some(e) => Some(e.alias_class),
                None => None,
            },
    {
        match self.lookup(name) {
            Some(e) => Some(e.alias_class),
            None => None,
        }
    }

    /// Mark every not-yet-consumed binding in the alias class of `name` consumed by `cause`
    /// (nothing happens when `name` does not resolve).
    pub fn consume(&mut self, name: &str, cause: ConsumedBy)
        requires
            old(self).wf(),
        ensures
            final(self).wf(),
            final(self).next_class_view() == old(self).next_class_view(),
            final(self).frames_view().len() == old(self).frames_view().len(),
            forall|k: int|
                0 <= k < old(self).frames_view().len() ==> (#[trigger] final(self).frames_view()[k]).len() == old(
                    self,
                ).frames_view()[k].len(),
            forall|k: int, j: int|
                #![trigger final(self).frames_view()[k][j]]
                0 <= k < old(self).frames_view().len() && 0 <= j < old(self).frames_view()[k].len() ==> {
                    let o = old(self).frames_view()[k][j];
                    let f = final(self).frames_view()[k][j];
                    &&& f.0 == o.0
                    &&& f.1.alias_class == o.1.alias_class
                    &&& f.1.consumed == if old(self).resolves(name@) is Some && o.1.alias_class == old(
                        self,
                    ).resolves(name@)->0.alias_class && o.1.consumed is None {
                        Some(cause)
                    } else {
                        o.1.consumed
                    }
                },
    {
        let class = match self.class_of(name) {
            Some(c) => c,
            None => {
                return;
            },
        };
        let ghost ov = self.frames_view();
        let mut frames: Vec<Vec<(String, ScopeEntry)>> = Vec::new();
        std::mem::swap(&mut frames, &mut self.frames);
        let mut k: usize = 0;
        while k < frames.len()
            invariant
                k <= frames@.len(),
                frames@.len() == ov.len(),
                frames@.len() >= 1,
                forall|q: int| 0 <= q < frames@.len() ==> (#[trigger] frames@[q])@.len() == ov[q].len(),
                forall|q: int| 0 <= q < frames@.len() ==> frame_distinct(#[trigger] frames@[q]@),
                forall|q: int, j: int|
                    #![trigger frames@[q]@[j]]
                    0 <= q < frames@.len() && 0 <= j < ov[q].len() ==> {
                        let o = ov[q][j];
                        let f = frames@[q]@[j];
                        &&& f.0 == o.0
                        &&& f.1.alias_class == o.1.alias_class
                        &&& f.1.consumed == if q < k && o.1.alias_class == class && o.1.consumed is None {
                            Some(cause)
                        } else {
                            o.1.consumed
                        }
                    },
            decreases frames@.len() - k,
        {
            let ghost before = frames@;
            let mut frame = frames.remove(k);
            let ghost fb = frame@;
            let mut j: usize = 0;
            while j < frame.len()
                invariant
                    j <= frame@.len(),
                    frame@.len() == fb.len(),
                    frame_distinct(fb),
                    forall|t: int|
                        #![trigger frame@[t]]
                        0 <= t < fb.len() ==> {
                            let o = fb[t];
                            let f = frame@[t];
                            &&& f.0 == o.0
                            &&& f.1.alias_class == o.1.alias_class
                            &&& f.1.consumed == if t < j && o.1.alias_class == class && o.1.consumed is None {
                                Some(cause)
                            } else {
                                o.1.consumed
                            }
                        },
                decreases frame@.len() - j,
            {
                if frame[j].1.alias_class == class && frame[j].1.consumed.is_none() {
                    let (n, mut e) = frame.remove(j);
                    e.consumed = Some(cause.duplicate());
                    frame.insert(j, (n, e));
                }
                j = j + 1;
            }
            proof {
                assert forall|a: int, b: int| 0 <= a < frame@.len() && 0 <= b < frame@.len() && a != b implies frame@[a].0@
                    != frame@[b].0@ by {
                    assert(frame@[a].0 == fb[a].0);
                    assert(frame@[b].0 == fb[b].0);
                }
            }
            frames.insert(k, frame);
            proof {
                assert forall|q: int| 0 <= q < frames@.len() && q != k implies frames@[q] == before[q] by {}
            }
            k = k + 1;
        }
        std::mem::swap(&mut frames, &mut self.frames);
        proof {
            assert(self.frames_view().len() == ov.len());
        }
    }
}

/// After binding `n` to `e`, `n` resolves to `e`; every other name resolves as before.
pub proof fn lemma_insert_then_lookup(s1: Scope, s2: Scope, n: Seq<char>, e: ScopeEntry, m: Seq<char>)
    requires
        s2.frames_view().len() == s1.frames_view().len(),
        s2.frames_view().drop_last() == s1.frames_view().drop_last(),
        lookup(s2.frames_view().last(), n) == Some(e),
        forall|x: Seq<char>| x != n ==> lookup(s2.frames_view().last(), x) == lookup(s1.frames_view().last(), x),
        s1.frames_view().len() >= 1,
    ensures
        s2.resolves(n) == Some(e),
        m != n ==> s2.resolves(m) == s1.resolves(m),
{
    let f1 = s1.frames_view();
    let f2 = s2.frames_view();
    assert(scope_lookup(f2, n) == Some(e));
    assert(s2.resolves(n) == scope_lookup(f2, n));
    if m != n {
        assert(lookup(f2.last(), m) == lookup(f1.last(), m));
        assert(scope_lookup(f2, m) == scope_lookup(f1, m));
    }
}

/// Opening a frame and closing it again restores every resolution.
pub proof fn lemma_push_pop_restores(s0: Scope, s1: Scope, s2: Scope, n: Seq<char>)
    requires
        s0.wf(),
        s1.frames_view() == s0.frames_view().push(Seq::empty()),
        s1.frames_view().len() > 1 ==> s2.frames_view() == s1.frames_view().drop_last(),
    ensures
        s2.frames_view() == s0.frames_view(),
        s2.resolves(n) == s0.resolves(n),
{
    assert(s1.frames_view().drop_last() =~= s0.frames_view());
}

/// The names of the frames' entries, outermost frame first, each frame in entry order.
pub open spec fn names_in_frames(fv: Seq<Seq<(String, ScopeEntry)>>) -> Seq<Seq<char>>
    decreases fv.len(),
{
    if fv.len() == 0 {
        Seq::empty()
    } else {
        names_in_frames(fv.drop_last()) + fv.last().map_values(|p: (String, ScopeEntry)| p.0@)
    }
}

/// Some frame binds `n`.
pub open spec fn bound_somewhere(fv: Seq<Seq<(String, ScopeEntry)>>, n: Seq<char>) -> bool {
    exists|k: int, j: int| 0 <= k < fv.len() && 0 <= j < fv[k].len() && #[trigger] fv[k][j].0@ == n
}

/// Some entry in some frame is consumed and belongs to `class`.
pub open spec fn class_consumed(fv: Seq<Seq<(String, ScopeEntry)>>, class: u64) -> bool {
    exists|k: int, j: int|
        0 <= k < fv.len() && 0 <= j < fv[k].len() && (#[trigger] fv[k][j]).1.consumed is Some && fv[k][j].1.alias_class
            == class
}

proof fn lemma_names_in_frames(fv: Seq<Seq<(String, ScopeEntry)>>, n: Seq<char>)
    ensures
        names_in_frames(fv).contains(n) <==> bound_somewhere(fv, n),
        scope_lookup(fv, n) is Some ==> bound_somewhere(fv, n),
    decreases fv.len(),
{
    if fv.len() > 0 {
        let pre = fv.drop_last();
        lemma_names_in_frames(pre, n);
        let last = fv.last().map_values(|p: (String, ScopeEntry)| p.0@);
        let all = names_in_frames(fv);
        assert(all == names_in_frames(pre) + last);
        if all.contains(n) {
            let i = choose|i: int| 0 <= i < all.len() && all[i] == n;
            if i < names_in_frames(pre).len() {
                assert(names_in_frames(pre)[i] == n);
                assert(names_in_frames(pre).contains(n));
                let (k, j) = choose|k: int, j: int| 0 <= k < pre.len() && 0 <= j < pre[k].len() && #[trigger] pre[k][j].0@ == n;
                assert(fv[k][j] == pre[k][j]);
            } else {
                let j = i - names_in_frames(pre).len();
                assert(last[j] == n);
                assert(fv[fv.len() - 1][j].0@ == n);
            }
        }
        if bound_somewhere(fv, n) {
            let (k, j) = choose|k: int, j: int| 0 <= k < fv.len() && 0 <= j < fv[k].len() && #[trigger] fv[k][j].0@ == n;
            if k < fv.len() - 1 {
                assert(pre[k][j] == fv[k][j]);
                assert(bound_somewhere(pre, n));
                let i = choose|i: int| 0 <= i < names_in_frames(pre).len() && names_in_frames(pre)[i] == n;
                assert(all[i] == n);
            } else {
                assert(last[j] == n);
                assert(all[names_in_frames(pre).len() + j] == n);
            }
        }
        if scope_lookup(fv, n) is Some {
            if lookup(fv.last(), n) is Some {
                let j = choose|j: int| 0 <= j < fv.last().len() && #[trigger] fv.last()[j].0@ == n;
                assert(fv[fv.len() - 1][j].0@ == n);
            } else {
                let (k, j) = choose|k: int, j: int| 0 <= k < pre.len() && 0 <= j < pre[k].len() && #[trigger] pre[k][j].0@ == n;
                assert(fv[k][j] == pre[k][j]);
            }
        }
    }
}

impl Scope {
    /// Every name bound in any frame (a shadowed name once per frame binding it), outermost
    /// frame first.
    pub fn all_names(&self) -> (r: Vec<String>)
        ensures
            string_views(r@) == names_in_frames(self.frames_view()),
    {
        let ghost fv = self.frames_view();
        let mut out: Vec<String> = Vec::new();
        let mut k: usize = 0;
        proof {
            assert(fv.take(0) =~= Seq::<Seq<(String, ScopeEntry)>>::empty());
            assert(string_views(out@) =~= names_in_frames(fv.take(0)));
        }
        while k < self.frames.len()
            invariant
                k <= self.frames@.len(),
                fv == self.frames_view(),
                fv.len() == self.frames@.len(),
                string_views(out@) == names_in_frames(fv.take(k as int)),
            decreases self.frames@.len() - k,
        {
            let frame = &self.frames[k];
            let ghost base = string_views(out@);
            proof {
                assert(fv[k as int] == frame@);
            }
            let mut j: usize = 0;
            while j < frame.len()
                invariant
                    j <= frame@.len(),
                    string_views(out@) == base + frame@.take(j as int).map_values(|p: (String, ScopeEntry)| p.0@),
                decreases frame@.len() - j,
            {
                let c = frame[j].0.clone();
                let ghost before = out@;
                out.push(c);
                proof {
                    assert(string_views(out@) =~= string_views(before).push(c@));
                    assert(frame@.take(j + 1).map_values(|p: (String, ScopeEntry)| p.0@) =~= frame@.take(j as int).map_values(
                        |p: (String, ScopeEntry)| p.0@,
                    ).push(frame@[j as int].0@));
                }
                j = j + 1;
            }
            proof {
                assert(frame@.take(j as int) =~= frame@);
                assert(fv.take(k + 1).drop_last() =~= fv.take(k as int));
                assert(fv.take(k + 1).last() == frame@);
            }
            k = k + 1;
        }
        proof {
            assert(fv.take(k as int) =~= fv);
        }
        out
    }

    /// Every alias class with a consumed entry in some frame, each once.
    pub fn consumed_classes(&self) -> (r: Vec<u64>)
        ensures
            r@.no_duplicates(),
            forall|c: u64| r@.contains(c) <==> class_consumed(self.frames_view(), c),
    {
        let ghost fv = self.frames_view();
        let mut out: Vec<u64> = Vec::new();
        let mut k: usize = 0;
        while k < self.frames.len()
            invariant
                k <= self.frames@.len(),
                fv == self.frames_view(),
                fv.len() == self.frames@.len(),
                out@.no_duplicates(),
                forall|c: u64|
                    out@.contains(c) <==> exists|a: int, j: int|
                        0 <= a < k && 0 <= j < fv[a].len() && (#[trigger] fv[a][j]).1.consumed is Some
                            && fv[a][j].1.alias_class == c,
            decreases self.frames@.len() - k,
        {
            let frame = &self.frames[k];
            proof {
                assert(fv[k as int] == frame@);
            }
            let mut j: usize = 0;
            while j < frame.len()
                invariant
                    j <= frame@.len(),
                    fv == self.frames_view(),
                    fv[k as int] == frame@,
                    k < fv.len(),
                    out@.no_duplicates(),
                    forall|c: u64|
                        out@.contains(c) <==> (exists|a: int, i: int|
                            0 <= a < k && 0 <= i < fv[a].len() && (#[trigger] fv[a][i]).1.consumed is Some
                                && fv[a][i].1.alias_class == c) || (exists|i: int|
                            0 <= i < j && (#[trigger] frame@[i]).1.consumed is Some && frame@[i].1.alias_class == c),
                decreases frame@.len() - j,
            {
                let entry = &frame[j].1;
                let ghost ob = out@;
                let ghost ej = frame@[j as int];
                if entry.consumed.is_some() {
                    let c = entry.alias_class;
                    let mut present = false;
                    let mut q: usize = 0;
                    while q < out.len()
                        invariant
                            q <= out@.len(),
                            present == (exists|t: int| 0 <= t < q && out@[t] == c),
                        decreases out@.len() - q,
                    {
                        if out[q] == c {
                            present = true;
                        }
                        q = q + 1;
                    }
                    if !present {
                        proof {
                            assert(!ob.contains(c));
                        }
                        out.push(c);
                        proof {
                            assert forall|x: u64| out@.contains(x) implies ob.contains(x) || x == c by {
                                let t = choose|t: int| 0 <= t < out@.len() && out@[t] == x;
                                if t < ob.len() {
                                    assert(ob[t] == x);
                                }
                            }
                            assert forall|x: u64| ob.contains(x) implies out@.contains(x) by {
                                let t = choose|t: int| 0 <= t < ob.len() && ob[t] == x;
                                assert(out@[t] == x);
                            }
                            assert(out@[ob.len() as int] == c);
                        }
                    } else {
                        proof {
                            let t = choose|t: int| 0 <= t < q && out@[t] == c;
                            assert(ob.contains(c));
                        }
                    }
                }
                proof {
                    assert(forall|x: u64| out@.contains(x) ==> ob.contains(x) || (ej.1.consumed is Some && ej.1.alias_class == x));
                    assert(forall|x: u64| ob.contains(x) ==> out@.contains(x));
                    assert(ej.1.consumed is Some ==> out@.contains(ej.1.alias_class));
                    assert forall|c: u64|
                        out@.contains(c) <==> (exists|a: int, i: int|
                            0 <= a < k && 0 <= i < fv[a].len() && (#[trigger] fv[a][i]).1.consumed is Some
                                && fv[a][i].1.alias_class == c) || (exists|i: int|
                            0 <= i < j + 1 && (#[trigger] frame@[i]).1.consumed is Some && frame@[i].1.alias_class == c) by {
                        if ej.1.consumed is Some && ej.1.alias_class == c {
                            assert(frame@[j as int] == ej);
                        }
                        if exists|i: int| 0 <= i < j + 1 && (#[trigger] frame@[i]).1.consumed is Some && frame@[i].1.alias_class == c {
                            let i = choose|i: int| 0 <= i < j + 1 && (#[trigger] frame@[i]).1.consumed is Some && frame@[i].1.alias_class == c;
                            if i < j {
                                assert(ob.contains(c));
                            }
                        }
                        if out@.contains(c) && !ob.contains(c) {
                            assert(frame@[j as int] == ej);
                        }
                    }
                }
                j = j + 1;
            }
            proof {
                assert forall|c: u64|
                    out@.contains(c) <==> exists|a: int, i: int|
                        0 <= a < k + 1 && 0 <= i < fv[a].len() && (#[trigger] fv[a][i]).1.consumed is Some
                            && fv[a][i].1.alias_class == c by {
                    if exists|i: int| 0 <= i < j && (#[trigger] frame@[i]).1.consumed is Some && frame@[i].1.alias_class == c {
                        let i = choose|i: int| 0 <= i < j && (#[trigger] frame@[i]).1.consumed is Some && frame@[i].1.alias_class == c;
                        assert(fv[k as int][i] == frame@[i]);
                    }
                    if exists|a: int, i: int|
                        0 <= a < k + 1 && 0 <= i < fv[a].len() && (#[trigger] fv[a][i]).1.consumed is Some
                            && fv[a][i].1.alias_class == c {
                        let (a, i) = choose|a: int, i: int|
                            0 <= a < k + 1 && 0 <= i < fv[a].len() && (#[trigger] fv[a][i]).1.consumed is Some
                                && fv[a][i].1.alias_class == c;
                        if a == k {
                            assert(frame@[i] == fv[a][i]);
                        }
                    }
                }
            }
            k = k + 1;
        }
        out
    }

    /// The visible names (each resolving to its innermost binding) whose binding belongs to
    /// `class`, in ascending order.
    pub fn visible_members_of(&self, class: u64) -> (r: Vec<String>)
        requires
            self.wf(),
        ensures
            sorted_unique(string_views(r@)),
            forall|n: Seq<char>|
                string_views(r@).contains(n) <==> (self.resolves(n) is Some && self.resolves(n)->0.alias_class == class),
    {
        let names = self.all_names();
        let ghost nv = string_views(names@);
        let mut out: Vec<String> = Vec::new();
        let mut i: usize = 0;
        proof {
            assert(string_views(out@).to_set() =~= Set::<Seq<char>>::empty());
        }
        while i < names.len()
            invariant
                i <= names@.len(),
                self.wf(),
                nv == string_views(names@),
                nv == names_in_frames(self.frames_view()),
                sorted_unique(string_views(out@)),
                forall|n: Seq<char>|
                    string_views(out@).to_set().contains(n) <==> (exists|t: int| 0 <= t < i && nv[t] == n)
                        && self.resolves(n) is Some && self.resolves(n)->0.alias_class == class,
            decreases names@.len() - i,
        {
            let ghost before = string_views(out@).to_set();
            proof {
                assert(nv[i as int] == names@[i as int]@);
            }
            match self.class_of(names[i].as_str()) {
                Some(c) => {
                    if c == class {
                        insert_sorted_unique(&mut out, names[i].clone());
                    }
                },
                None => {},
            }
            proof {
                assert forall|n: Seq<char>|
                    string_views(out@).to_set().contains(n) <==> (exists|t: int| 0 <= t < i + 1 && nv[t] == n)
                        && self.resolves(n) is Some && self.resolves(n)->0.alias_class == class by {
                    if exists|t: int| 0 <= t < i + 1 && nv[t] == n {
                        let t = choose|t: int| 0 <= t < i + 1 && nv[t] == n;
                        if t < i {
                            assert(exists|u: int| 0 <= u < i && nv[u] == n);
                        }
                    }
                    if (exists|t: int| 0 <= t < i && nv[t] == n) {
                        assert(exists|t: int| 0 <= t < i + 1 && nv[t] == n);
                    }
                    if n == nv[i as int] {
                        assert(exists|t: int| 0 <= t < i + 1 && nv[t] == n);
                    }
                }
            }
            i = i + 1;
        }
        proof {
            assert forall|n: Seq<char>|
                string_views(out@).contains(n) <==> (self.resolves(n) is Some && self.resolves(n)->0.alias_class == class) by {
                lemma_names_in_frames(self.frames_view(), n);
                assert(string_views(out@).contains(n) <==> string_views(out@).to_set().contains(n));
                if self.resolves(n) is Some {
                    assert(nv.contains(n));
                    let t = choose|t: int| 0 <= t < nv.len() && nv[t] == n;
                    assert(exists|u: int| 0 <= u < i && nv[u] == n);
                }
            }
        }
        out
    }
}

impl Scope {
    /// The binding `name` resolves to, for changing in place: the first entry named `name`
    /// in the innermost frame that binds it. Only that entry's value can change.
    pub fn lookup_mut(&mut self, name: &str) -> (r: Option<&mut ScopeEntry>)
        requires
            old(self).wf(),
        ensures
            match r {
                Some(e) => {
                    &&& old(self).resolves(name@) == Some(*e)
                    &&& exists|k: int, j: int|
                        0 <= k < old(self).frames_view().len() && first_at(old(self).frames_view()[k], name@, j)
                            && (forall|q: int| k < q < old(self).frames_view().len() ==> #[trigger] lookup(old(self).frames_view()[q], name@) is None)
                            && old(self).frames_view()[k][j].1 == *e && final(self).frames_view() == old(self).frames_view().update(
                            k,
                            old(self).frames_view()[k].update(j, (old(self).frames_view()[k][j].0, *final(e))),
                        )
                    &&& final(self).next_class_view() == old(self).next_class_view()
                },
                None => old(self).resolves(name@) is None && *final(self) == *old(self),
            },
    {
        let ghost fv = self.frames_view();
        let mut k: usize = self.frames.len();
        proof {
            assert(fv.subrange(0, k as int) =~= fv);
        }
        while k > 0
            invariant
                k <= self.frames@.len(),
                fv == self.frames_view(),
                fv == old(self).frames_view(),
                *self == *old(self),
                fv.len() == self.frames@.len(),
                scope_lookup(fv, name@) == scope_lookup(fv.subrange(0, k as int), name@),
                forall|q: int| k <= q < fv.len() ==> #[trigger] lookup(fv[q], name@) is None,
            decreases k,
        {
            let idx = k - 1;
            proof {
                let pre = fv.subrange(0, k as int);
                assert(pre.last() == self.frames@[idx as int]@);
                assert(pre.drop_last() =~= fv.subrange(0, idx as int));
                assert(fv[idx as int] == self.frames@[idx as int]@);
            }
            match find_row(&self.frames[idx], name) {
                Some(j) => {
                    proof {
                        assert(first_at(fv[idx as int], name@, j as int));
                    }
                    return Some(&mut self.frames[idx][j].1);
                },
                None => {},
            }
            k = idx;
        }
        None
    }
}

/// Changing the value of one entry in place keeps a scope well formed.
pub proof fn lemma_entry_update_keeps_wf(s0: Scope, s1: Scope, k: int, j: int, e: ScopeEntry)
    requires
        s0.wf(),
        0 <= k < s0.frames_view().len(),
        0 <= j < s0.frames_view()[k].len(),
        s1.frames_view() == s0.frames_view().update(k, s0.frames_view()[k].update(j, (s0.frames_view()[k][j].0, e))),
        s1.next_class_view() == s0.next_class_view(),
    ensures
        s1.wf(),
{
    assert(s1.frames@.len() == s1.frames_view().len());
    assert forall|q: int| 0 <= q < s1.frames@.len() implies frame_distinct(#[trigger] s1.frames@[q]@) by {
        assert(s1.frames_view()[q] == s1.frames@[q]@);
        assert(s0.frames_view()[q] == s0.frames@[q]@);
        if q == k {
            let f1 = s1.frames@[q]@;
            let f0 = s0.frames@[q]@;
            assert forall|a: int, b: int| 0 <= a < f1.len() && 0 <= b < f1.len() && a != b implies f1[a].0@ != f1[b].0@ by {
                assert(f1[a].0 == f0[a].0);
                assert(f1[b].0 == f0[b].0);
            }
        }
    }
}

} // verus!
