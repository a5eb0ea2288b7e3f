//! A set of names (function, shape, binding names) with set semantics over their text.
use vstd::prelude::*;

use crate::text::{lit, str_eq, string_views};

verus! {

/// No name occurs twice.
pub open spec fn no_duplicates(s: Seq<Seq<char>>) -> bool {
    forall|i: int, j: int| 0 <= i < s.len() && 0 <= j < s.len() && i != j ==> s[i] != s[j]
}

/// A finite set of names, kept in insertion order.
#[derive(Debug)]
pub struct NameSet {
    names: Vec<String>,
}

impl NameSet {
    #[verifier::type_invariant]
    spec fn inv(&self) -> bool {
        no_duplicates(string_views(self.names@))
    }

    /// The names in insertion order.
    pub closed spec fn entries(&self) -> Seq<Seq<char>> {
        string_views(self.names@)
    }

    /// The empty set.
    pub fn new() -> (s: NameSet)
        ensures
            s@ == Set::<Seq<char>>::empty(),
            s.entries().len() == 0,
    {
        let s = NameSet { names: Vec::new() };
        proof {
            assert(string_views(s.names@) =~= Seq::<Seq<char>>::empty());
            assert(s.entries().to_set() =~= Set::<Seq<char>>::empty());
        }
        s
    }

    /// Number of names.
    pub fn len(&self) -> (n: usize)
        ensures
            n == self.entries().len(),
            no_duplicates(self.entries()),
    {
        proof {
            use_type_invariant(self);
        }
        self.names.len()
    }

    /// The `i`-th name in insertion order.
    pub fn name_at(&self, i: usize) -> (s: &String)
        requires
            i < self.entries().len(),
        ensures
            s@ == self.entries()[i as int],
    {
        &self.names[i]
    }

    /// Is `name` a member?
    pub fn contains(&self, name: &str) -> (b: bool)
        ensures
            b == self@.contains(name@),
    {
        let mut i: usize = 0;
        while i < self.names.len()
            invariant
                i <= self.names.len(),
                forall|j: int| 0 <= j < i ==> self.names@[j]@ != name@,
            decreases self.names.len() - i,
        {
            if str_eq(self.names[i].as_str(), name) {
                proof {
                    assert(self.entries()[i as int] == name@);
                }
                return true;
            }
            i = i + 1;
        }
        proof {
            if self@.contains(name@) {
                let k = choose|k: int| 0 <= k < self.entries().len() && self.entries()[k] == name@;
                assert(self.names@[k]@ == name@);
            }
        }
        false
    }

    /// The position of `name` in insertion order, if it is a member.
    pub fn index_of(&self, name: &str) -> (r: Option<usize>)
        ensures
            r is Some <==> self@.contains(name@),
            r is Some ==> r->0 < self.entries().len() && self.entries()[r->0 as int] == name@,
    {
        let mut i: usize = 0;
        while i < self.names.len()
            invariant
                i <= self.names.len(),
                forall|j: int| 0 <= j < i ==> self.names@[j]@ != name@,
            decreases self.names.len() - i,
        {
            if str_eq(self.names[i].as_str(), name) {
                proof {
                    assert(self.entries()[i as int] == name@);
                }
                return Some(i);
            }
            i = i + 1;
        }
        proof {
            if self@.contains(name@) {
                let k = choose|k: int| 0 <= k < self.entries().len() && self.entries()[k] == name@;
                assert(self.names@[k]@ == name@);
            }
        }
        None
    }

    /// Add `name` (no-op when present).
    pub fn insert(&mut self, name: String)
        ensures
            final(self)@ == old(self)@.insert(name@),
            old(self)@.contains(name@) ==> final(self).entries() == old(self).entries(),
            !old(self)@.contains(name@) ==> final(self).entries() == old(self).entries().push(name@),
    {
        proof {
            use_type_invariant(&*self);
        }
        if self.contains(name.as_str()) {
            proof {
                assert(self@.insert(name@) =~= self@);
            }
            return;
        }
        let ghost before = self.entries();
        let ghost nv = name@;
        let mut names: Vec<String> = Vec::new();
        std::mem::swap(&mut names, &mut self.names);
        names.push(name);
        proof {
            assert(string_views(names@) =~= before.push(nv));
            assert forall|i: int, j: int|
                0 <= i < before.len() + 1 && 0 <= j < before.len() + 1 && i != j implies #[trigger] before.push(
                nv,
            )[i] != #[trigger] before.push(nv)[j] by {
                if i == before.len() {
                    assert(!before.contains(nv));
                    assert(before[j] != nv);
                } else if j == before.len() {
                    assert(before[i] != nv);
                }
            }
        }
        self.names = names;
        proof {
            assert(self.entries() =~= before.push(nv));
            assert(self@ =~= before.to_set().insert(nv)) by {
                assert forall|x: Seq<char>| self@.contains(x) implies before.to_set().insert(nv).contains(x) by {
                    let k = choose|k: int| 0 <= k < self.entries().len() && self.entries()[k] == x;
                    if k < before.len() {
                        assert(before[k] == x);
                    }
                }
                assert forall|x: Seq<char>| before.to_set().insert(nv).contains(x) implies self@.contains(x) by {
                    if x == nv {
                        assert(self.entries()[before.len() as int] == x);
                    } else {
                        let k = choose|k: int| 0 <= k < before.len() && before[k] == x;
                        assert(self.entries()[k] == x);
                    }
                }
            }
        }
    }

    /// Add a name given as a string slice.
    pub fn insert_str(&mut self, name: &str)
        ensures
            final(self)@ == old(self)@.insert(name@),
    {
        self.insert(lit(name));
    }

    /// A set holding the given names.
    pub fn from_strs(names: &[&str]) -> (s: NameSet)
        ensures
            s@ == names@.map_values(|n: &str| n@).to_set(),
    {
        let mut s = NameSet::new();
        let ghost nv = names@.map_values(|n: &str| n@);
        let mut i: usize = 0;
        while i < names.len()
            invariant
                i <= names.len(),
                nv == names@.map_values(|n: &str| n@),
                s@ == nv.subrange(0, i as int).to_set(),
            decreases names.len() - i,
        {
            s.insert_str(names[i]);
            proof {
                assert(nv.subrange(0, i + 1).to_set() =~= nv.subrange(0, i as int).to_set().insert(nv[i as int])) by {
                    let a = nv.subrange(0, i + 1);
                    let b = nv.subrange(0, i as int);
                    assert forall|x: Seq<char>| a.to_set().contains(x) implies b.to_set().insert(nv[i as int]).contains(x) by {
                        let k = choose|k: int| 0 <= k < a.len() && a[k] == x;
                        if k < i {
                            assert(b[k] == x);
                        }
                    }
                    assert forall|x: Seq<char>| b.to_set().insert(nv[i as int]).contains(x) implies a.to_set().contains(x) by {
                        if x == nv[i as int] {
                            assert(a[i as int] == x);
                        } else {
                            let k = choose|k: int| 0 <= k < b.len() && b[k] == x;
                            assert(a[k] == x);
                        }
                    }
                }
            }
            i = i + 1;
        }
        proof {
            assert(nv.subrange(0, names@.len() as int) =~= nv);
        }
        s
    }

    /// A set with the same names.
    pub fn copy(&self) -> (r: NameSet)
        ensures
            r@ == self@,
    {
        let mut r = NameSet::new();
        r.union_with(self);
        proof {
            assert(r@ =~= self@);
        }
        r
    }

    /// Add every name of `other`.
    pub fn union_with(&mut self, other: &NameSet)
        ensures
            final(self)@ == old(self)@.union(other@),
    {
        let ghost o = other.entries();
        let ghost s0 = self@;
        let mut i: usize = 0;
        while i < other.len()
            invariant
                i <= o.len(),
                o == other.entries(),
                self@ == s0.union(o.subrange(0, i as int).to_set()),
            decreases o.len() - i,
        {
            self.insert(other.name_at(i).clone());
            proof {
                assert(o.subrange(0, i + 1).to_set() =~= o.subrange(0, i as int).to_set().insert(o[i as int])) by {
                    let a = o.subrange(0, i + 1);
                    let b = o.subrange(0, i as int);
                    assert forall|x: Seq<char>| a.to_set().contains(x) implies b.to_set().insert(o[i as int]).contains(x) by {
                        let k = choose|k: int| 0 <= k < a.len() && a[k] == x;
                        if k < i {
                            assert(b[k] == x);
                        }
                    }
                    assert forall|x: Seq<char>| b.to_set().insert(o[i as int]).contains(x) implies a.to_set().contains(x) by {
                        if x == o[i as int] {
                            assert(a[i as int] == x);
                        } else {
                            let k = choose|k: int| 0 <= k < b.len() && b[k] == x;
                            assert(a[k] == x);
                        }
                    }
                }
                assert(self@ =~= s0.union(o.subrange(0, i + 1).to_set()));
            }
            i = i + 1;
        }
        proof {
            assert(o.subrange(0, o.len() as int) =~= o);
        }
    }

    /// The names of this set that `other` lacks; strictly fewer when the two share a name.
    pub fn minus(&self, other: &NameSet) -> (r: NameSet)
        ensures
            r@ == self@.difference(other@),
            r.entries().len() <= self.entries().len(),
            (exists|x: Seq<char>| self@.contains(x) && other@.contains(x)) ==> r.entries().len() < self.entries().len(),
    {
        proof {
            use_type_invariant(self);
        }
        let ghost e = self.entries();
        let mut r = NameSet::new();
        let mut dropped = false;
        let mut i: usize = 0;
        while i < self.len()
            invariant
                i <= e.len(),
                e == self.entries(),
                no_duplicates(e),
                r@ == e.subrange(0, i as int).to_set().difference(other@),
                r.entries().len() + (if dropped { 1int } else { 0int }) <= i,
                dropped <== exists|k: int| 0 <= k < i && other@.contains(#[trigger] e[k]),
            decreases e.len() - i,
        {
            let n = self.name_at(i);
            let ghost before = r@;
            if other.contains(n.as_str()) {
                dropped = true;
            } else {
                r.insert(n.clone());
            }
            proof {
                let a = e.subrange(0, i + 1);
                let b = e.subrange(0, i as int);
                assert(a.to_set() =~= b.to_set().insert(e[i as int])) by {
                    assert forall|x: Seq<char>| a.to_set().contains(x) implies b.to_set().insert(e[i as int]).contains(x) by {
                        let k = choose|k: int| 0 <= k < a.len() && a[k] == x;
                        if k < i {
                            assert(b[k] == x);
                        }
                    }
                    assert forall|x: Seq<char>| b.to_set().insert(e[i as int]).contains(x) implies a.to_set().contains(x) by {
                        if x == e[i as int] {
                            assert(a[i as int] == x);
                        } else {
                            let k = choose|k: int| 0 <= k < b.len() && b[k] == x;
                            assert(a[k] == x);
                        }
                    }
                }
                assert(r@ =~= a.to_set().difference(other@));
            }
            i = i + 1;
        }
        proof {
            assert(e.subrange(0, e.len() as int) =~= e);
            if exists|x: Seq<char>| self@.contains(x) && other@.contains(x) {
                let x = choose|x: Seq<char>| self@.contains(x) && other@.contains(x);
                let k = choose|k: int| 0 <= k < e.len() && e[k] == x;
                assert(other@.contains(e[k]));
            }
        }
        r
    }

    /// Is the set empty?
    pub fn is_empty(&self) -> (b: bool)
        ensures
            b == (self@ == Set::<Seq<char>>::empty()),
    {
        proof {
            if self.entries().len() > 0 {
                assert(self@.contains(self.entries()[0]));
            }
        }
        let b = self.names.len() == 0;
        proof {
            if b {
                assert(self@ =~= Set::<Seq<char>>::empty());
            }
        }
        b
    }
}

impl View for NameSet {
    type V = Set<Seq<char>>;

    open spec fn view(&self) -> Set<Seq<char>> {
        self.entries().to_set()
    }
}

/// The entry for `name` in a list of named rows: the first one with that name.
pub open spec fn lookup<T>(rows: Seq<(String, T)>, name: Seq<char>) -> Option<T> {
    if exists|i: int| 0 <= i < rows.len() && #[trigger] rows[i].0@ == name {
        let i = choose|i: int|
            0 <= i < rows.len() && rows[i].0@ == name && forall|j: int| 0 <= j < i ==> #[trigger] rows[j].0@ != name;
        Some(rows[i].1)
    } else {
        None
    }
}

/// The position of the first row named `name`.
pub fn find_row<T>(rows: &Vec<(String, T)>, name: &str) -> (r: Option<usize>)
    ensures
        match r {
            Some(i) => i < rows@.len() && lookup(rows@, name@) == Some(rows@[i as int].1) && rows@[i as int].0@
                == name@ && forall|j: int| 0 <= j < i ==> #[trigger] rows@[j].0@ != name@,
            None => lookup(rows@, name@) is None,
        },
{
    let mut i: usize = 0;
    while i < rows.len()
        invariant
            i <= rows.len(),
            forall|j: int| 0 <= j < i ==> #[trigger] rows@[j].0@ != name@,
        decreases rows.len() - i,
    {
        if str_eq(rows[i].0.as_str(), name) {
            proof {
                let k = choose|k: int|
                    0 <= k < rows@.len() && rows@[k].0@ == name@ && forall|j: int|
                        0 <= j < k ==> #[trigger] rows@[j].0@ != name@;
                if k < i {
                    assert(rows@[k].0@ != name@);
                }
                if k > i {
                    assert(rows@[i as int].0@ != name@);
                }
            }
            return Some(i);
        }
        i = i + 1;
    }
    None
}

/// The first row named `m` is at `k`.
pub open spec fn first_at<T>(s: Seq<(String, T)>, m: Seq<char>, k: int) -> bool {
    0 <= k < s.len() && s[k].0@ == m && forall|j: int| 0 <= j < k ==> #[trigger] s[j].0@ != m
}

proof fn lemma_first_unique<T>(s: Seq<(String, T)>, m: Seq<char>, k1: int, k2: int)
    requires
        first_at(s, m, k1),
        first_at(s, m, k2),
    ensures
        k1 == k2,
{
    if k1 < k2 {
        assert(s[k1].0@ != m);
    }
    if k2 < k1 {
        assert(s[k2].0@ != m);
    }
}

/// Some row is named `m`, so a first one is.
pub proof fn lemma_first_exists<T>(s: Seq<(String, T)>, m: Seq<char>, i: int)
    requires
        0 <= i < s.len(),
        s[i].0@ == m,
    ensures
        exists|k: int| first_at(s, m, k),
    decreases i,
{
    if exists|j: int| 0 <= j < i && #[trigger] s[j].0@ == m {
        let j = choose|j: int| 0 <= j < i && #[trigger] s[j].0@ == m;
        lemma_first_exists(s, m, j);
    } else {
        assert(first_at(s, m, i));
    }
}

/// The lookup finds the first row with the name.
pub proof fn lemma_lookup_at<T>(s: Seq<(String, T)>, m: Seq<char>, k: int)
    requires
        first_at(s, m, k),
    ensures
        lookup(s, m) == Some(s[k].1),
{
    assert(s[k].0@ == m);
    let k2 = choose|k: int| 0 <= k < s.len() && s[k].0@ == m && forall|j: int| 0 <= j < k ==> #[trigger] s[j].0@ != m;
    assert(first_at(s, m, k2));
    lemma_first_unique(s, m, k, k2);
}

/// Replacing or appending the row at `pos` leaves the lookup of every other name as it was.
pub proof fn lemma_lookup_other<T>(before: Seq<(String, T)>, after: Seq<(String, T)>, pos: int, m: Seq<char>)
    requires
        0 <= pos <= before.len(),
        pos < before.len() ==> after.len() == before.len(),
        pos == before.len() ==> after.len() == before.len() + 1,
        forall|j: int| 0 <= j < before.len() && j != pos ==> #[trigger] after[j] == before[j],
        after[pos].0@ != m,
        pos < before.len() ==> before[pos].0@ != m,
    ensures
        lookup(after, m) == lookup(before, m),
{
    if exists|i: int| 0 <= i < before.len() && #[trigger] before[i].0@ == m {
        let i = choose|i: int| 0 <= i < before.len() && #[trigger] before[i].0@ == m;
        lemma_first_exists(before, m, i);
        let k = choose|k: int| first_at(before, m, k);
        lemma_lookup_at(before, m, k);
        assert(k != pos);
        assert(after[k] == before[k]);
        assert forall|j: int| 0 <= j < k implies #[trigger] after[j].0@ != m by {
            if j != pos {
                assert(after[j] == before[j]);
            }
        }
        assert(first_at(after, m, k));
        lemma_lookup_at(after, m, k);
    } else {
        assert forall|i: int| 0 <= i < after.len() implies #[trigger] after[i].0@ != m by {
            if i != pos {
                assert(after[i] == before[i]);
            }
        }
    }
}

} // verus!
