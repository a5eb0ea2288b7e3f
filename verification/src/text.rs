//! Small text helpers shared by the diagnostic builders: string construction from
//! literals, decimal rendering and character-level comparison.
use vstd::prelude::*;

verus! {

/// An owned copy of a string slice.
pub fn lit(s: &str) -> (r: String)
    ensures
        r@ == s@,
{
    String::from_str(s)
}

/// The decimal digits of `n`, most significant first.
pub open spec fn spec_decimal(n: nat) -> Seq<char>
    decreases n,
{
    if n < 10 {
        seq![spec_digit_char(n)]
    } else {
        spec_decimal(n / 10) + seq![spec_digit_char(n % 10)]
    }
}

pub open spec fn spec_digit_char(d: nat) -> char {
    if d == 0 {
        '0'
    } else if d == 1 {
        '1'
    } else if d == 2 {
        '2'
    } else if d == 3 {
        '3'
    } else if d == 4 {
        '4'
    } else if d == 5 {
        '5'
    } else if d == 6 {
        '6'
    } else if d == 7 {
        '7'
    } else if d == 8 {
        '8'
    } else {
        '9'
    }
}

fn digit_str(d: u64) -> (r: &'static str)
    requires
        d < 10,
    ensures
        r@ == seq![spec_digit_char(d as nat)],
{
    let r = if d == 0 {
        "0"
    } else if d == 1 {
        "1"
    } else if d == 2 {
        "2"
    } else if d == 3 {
        "3"
    } else if d == 4 {
        "4"
    } else if d == 5 {
        "5"
    } else if d == 6 {
        "6"
    } else if d == 7 {
        "7"
    } else if d == 8 {
        "8"
    } else {
        "9"
    };
    proof {
        reveal_strlit("0");
        reveal_strlit("1");
        reveal_strlit("2");
        reveal_strlit("3");
        reveal_strlit("4");
        reveal_strlit("5");
        reveal_strlit("6");
        reveal_strlit("7");
        reveal_strlit("8");
        reveal_strlit("9");
    }
    r
}

/// Render `n` in decimal.
pub fn decimal_string(n: u64) -> (r: String)
    ensures
        r@ == spec_decimal(n as nat),
    decreases n,
{
    if n < 10 {
        lit(digit_str(n))
    } else {
        let mut s = decimal_string(n / 10);
        s.append(digit_str(n % 10));
        s
    }
}

/// Character-level equality of two string slices.
pub fn str_eq(a: &str, b: &str) -> (r: bool)
    ensures
        r == (a@ == b@),
{
    let la = a.unicode_len();
    let lb = b.unicode_len();
    if la != lb {
        return false;
    }
    let mut i: usize = 0;
    while i < la
        invariant
            la == a@.len(),
            lb == b@.len(),
            la == lb,
            i <= la,
            forall|j: int| 0 <= j < i ==> a@[j] == b@[j],
        decreases la - i,
    {
        if a.get_char(i) != b.get_char(i) {
            return false;
        }
        i = i + 1;
    }
    assert(a@ =~= b@);
    true
}

/// Does `s` start with `prefix`?
pub fn str_starts_with(s: &str, prefix: &str) -> (r: bool)
    ensures
        r == (prefix@.len() <= s@.len() && s@.subrange(0, prefix@.len() as int) == prefix@),
{
    let ls = s.unicode_len();
    let lp = prefix.unicode_len();
    if lp > ls {
        return false;
    }
    let mut i: usize = 0;
    while i < lp
        invariant
            ls == s@.len(),
            lp == prefix@.len(),
            lp <= ls,
            i <= lp,
            forall|j: int| 0 <= j < i ==> s@[j] == prefix@[j],
        decreases lp - i,
    {
        if s.get_char(i) != prefix.get_char(i) {
            assert(s@.subrange(0, lp as int)[i as int] != prefix@[i as int]);
            return false;
        }
        i = i + 1;
    }
    assert(s@.subrange(0, lp as int) =~= prefix@);
    true
}


/// Lexicographic order on character sequences (by code point), the order `str` sorts by.
pub open spec fn spec_lex_lt(a: Seq<char>, b: Seq<char>) -> bool {
    exists|k: int|
        #![trigger a.subrange(0, k), b.subrange(0, k)]
        0 <= k <= a.len() && k <= b.len() && a.subrange(0, k) == b.subrange(0, k) && ((k == a.len()
            && k < b.len()) || (k < a.len() && k < b.len() && (a[k] as int) < (b[k] as int)))
}

proof fn lemma_lex_at(a: Seq<char>, b: Seq<char>, k: int)
    requires
        0 <= k <= a.len(),
        k <= b.len(),
        forall|j: int| 0 <= j < k ==> a[j] == b[j],
        (k == a.len() && k < b.len()) || (k < a.len() && k < b.len() && (a[k] as int) < (b[k] as int)),
    ensures
        spec_lex_lt(a, b),
{
    assert(a.subrange(0, k) =~= b.subrange(0, k));
}

proof fn lemma_not_lex_when_prefix_ge(a: Seq<char>, b: Seq<char>, k: int)
    requires
        0 <= k <= a.len(),
        k <= b.len(),
        forall|j: int| 0 <= j < k ==> a[j] == b[j],
        (k == b.len()) || (k < a.len() && k < b.len() && (a[k] as int) > (b[k] as int)),
    ensures
        !spec_lex_lt(a, b),
{
    if spec_lex_lt(a, b) {
        let m = choose|m: int|
            #![trigger a.subrange(0, m), b.subrange(0, m)]
            0 <= m <= a.len() && m <= b.len() && a.subrange(0, m) == b.subrange(0, m) && ((m == a.len()
                && m < b.len()) || (m < a.len() && m < b.len() && (a[m] as int) < (b[m] as int)));
        if m < k {
            assert(a[m] == b[m]);
        } else if m > k {
            assert(a.subrange(0, m)[k] == b.subrange(0, m)[k]);
        }
    }
}

/// Code-point lexicographic comparison: is `a` strictly before `b`?
pub fn str_lex_lt(a: &str, b: &str) -> (r: bool)
    ensures
        r == spec_lex_lt(a@, b@),
{
    let la = a.unicode_len();
    let lb = b.unicode_len();
    let mut i: usize = 0;
    while i < la && i < lb
        invariant
            la == a@.len(),
            lb == b@.len(),
            i <= la,
            i <= lb,
            forall|j: int| 0 <= j < i ==> a@[j] == b@[j],
        decreases la - i,
    {
        let ca = a.get_char(i);
        let cb = b.get_char(i);
        if ca != cb {
            let r = (ca as u32) < (cb as u32);
            assert(r == ((ca as int) < (cb as int)));
            proof {
                if r {
                    lemma_lex_at(a@, b@, i as int);
                } else {
                    lemma_not_lex_when_prefix_ge(a@, b@, i as int);
                }
            }
            return r;
        }
        i = i + 1;
    }
    proof {
        if i == la && i < lb {
            lemma_lex_at(a@, b@, i as int);
        } else {
            lemma_not_lex_when_prefix_ge(a@, b@, i as int);
        }
    }
    i == la && i < lb
}

/// Two different sequences are ordered one way or the other.
pub proof fn lemma_lex_trichotomy(a: Seq<char>, b: Seq<char>)
    requires
        a != b,
    ensures
        spec_lex_lt(a, b) || spec_lex_lt(b, a),
{
    lemma_lex_trichotomy_from(a, b, 0);
}

proof fn lemma_lex_trichotomy_from(a: Seq<char>, b: Seq<char>, k: int)
    requires
        a != b,
        0 <= k <= a.len(),
        k <= b.len(),
        forall|j: int| 0 <= j < k ==> a[j] == b[j],
    ensures
        spec_lex_lt(a, b) || spec_lex_lt(b, a),
    decreases a.len() - k,
{
    if k < a.len() && k < b.len() {
        if a[k] == b[k] {
            lemma_lex_trichotomy_from(a, b, k + 1);
        } else if (a[k] as int) < (b[k] as int) {
            lemma_lex_at(a, b, k);
        } else {
            assert((a[k] as int) != (b[k] as int));
            lemma_lex_at(b, a, k);
        }
    } else if k == a.len() && k < b.len() {
        lemma_lex_at(a, b, k);
    } else if k == b.len() && k < a.len() {
        lemma_lex_at(b, a, k);
    } else {
        assert(a =~= b);
    }
}

/// The lexicographic order is transitive.
pub proof fn lemma_lex_lt_trans(a: Seq<char>, b: Seq<char>, c: Seq<char>)
    requires
        spec_lex_lt(a, b),
        spec_lex_lt(b, c),
    ensures
        spec_lex_lt(a, c),
{
    let k1 = choose|m: int|
        #![trigger a.subrange(0, m), b.subrange(0, m)]
        0 <= m <= a.len() && m <= b.len() && a.subrange(0, m) == b.subrange(0, m) && ((m == a.len() && m < b.len()) || (
        m < a.len() && m < b.len() && (a[m] as int) < (b[m] as int)));
    let k2 = choose|m: int|
        #![trigger b.subrange(0, m), c.subrange(0, m)]
        0 <= m <= b.len() && m <= c.len() && b.subrange(0, m) == c.subrange(0, m) && ((m == b.len() && m < c.len()) || (
        m < b.len() && m < c.len() && (b[m] as int) < (c[m] as int)));
    let k = if k1 < k2 {
        k1
    } else {
        k2
    };
    assert forall|j: int| 0 <= j < k implies a[j] == c[j] by {
        assert(a.subrange(0, k1)[j] == b.subrange(0, k1)[j]);
        assert(b.subrange(0, k2)[j] == c.subrange(0, k2)[j]);
    }
    if k1 < k2 {
        assert(b.subrange(0, k2)[k1] == c.subrange(0, k2)[k1]);
        lemma_lex_at(a, c, k1);
    } else if k1 > k2 {
        assert(a.subrange(0, k1)[k2] == b.subrange(0, k1)[k2]);
        lemma_lex_at(a, c, k2);
    } else {
        lemma_lex_at(a, c, k);
    }
}

/// In a sorted sequence every earlier name is before every later one.
pub proof fn lemma_sorted_lt(s: Seq<Seq<char>>, p: int, q: int)
    requires
        sorted_unique(s),
        0 <= p < q < s.len(),
    ensures
        spec_lex_lt(s[p], s[q]),
    decreases q - p,
{
    if q == p + 1 {
        assert(spec_lex_lt(s[p], s[p + 1]));
    } else {
        lemma_sorted_lt(s, p, q - 1);
        assert(spec_lex_lt(s[q - 1], s[q]));
        lemma_lex_lt_trans(s[p], s[q - 1], s[q]);
    }
}

/// A sequence of names that strictly ascends between neighbours and repeats nothing.
pub open spec fn sorted_unique(s: Seq<Seq<char>>) -> bool {
    &&& forall|i: int| 0 <= i < s.len() - 1 ==> spec_lex_lt(#[trigger] s[i], s[i + 1])
    &&& forall|i: int, j: int| 0 <= i < s.len() && 0 <= j < s.len() && i != j ==> s[i] != s[j]
}

/// The views of a vector of strings.
pub open spec fn string_views(v: Seq<String>) -> Seq<Seq<char>> {
    v.map_values(|s: String| s@)
}

/// Insert `name` into an ascending, duplicate-free vector of names (no-op when present).
pub fn insert_sorted_unique(names: &mut Vec<String>, name: String)
    requires
        sorted_unique(string_views(old(names)@)),
    ensures
        sorted_unique(string_views(final(names)@)),
        string_views(final(names)@).to_set() == string_views(old(names)@).to_set().insert(name@),
{
    let ghost old_views = string_views(names@);
    let mut i: usize = 0;
    while i < names.len()
        invariant
            i <= names.len(),
            names@ == old(names)@,
            old_views == string_views(names@),
            sorted_unique(old_views),
            forall|j: int| 0 <= j < i ==> names@[j]@ != name@,
        decreases names.len() - i,
    {
        if names[i] == name {
            proof {
                assert(old_views[i as int] == name@);
                assert(old_views.to_set().insert(name@) =~= old_views.to_set());
            }
            return;
        }
        i = i + 1;
    }
    let mut p: usize = 0;
    while p < names.len() && str_lex_lt(names[p].as_str(), name.as_str())
        invariant
            p <= names.len(),
            names@ == old(names)@,
            old_views == string_views(names@),
            sorted_unique(old_views),
            forall|j: int| 0 <= j < names@.len() ==> names@[j]@ != name@,
            p > 0 ==> spec_lex_lt(names@[p - 1]@, name@),
        decreases names.len() - p,
    {
        p = p + 1;
    }
    proof {
        if p < names.len() {
            lemma_lex_trichotomy(names@[p as int]@, name@);
        }
    }
    let ghost nv = name@;
    names.insert(p, name);
    proof {
        let nw = string_views(names@);
        assert(nw =~= old_views.subrange(0, p as int).push(nv) + old_views.subrange(p as int, old_views.len() as int));
        assert forall|i: int| 0 <= i < nw.len() - 1 implies spec_lex_lt(#[trigger] nw[i], nw[i + 1]) by {
            if i < p - 1 {
                assert(nw[i] == old_views[i] && nw[i + 1] == old_views[i + 1]);
            } else if i == p - 1 {
            } else if i == p {
            } else {
                assert(nw[i] == old_views[i - 1] && nw[i + 1] == old_views[i]);
            }
        }
        assert(nw.to_set() =~= old_views.to_set().insert(nv)) by {
            assert forall|x: Seq<char>| nw.to_set().contains(x) implies old_views.to_set().insert(nv).contains(x) by {
                let k = choose|k: int| 0 <= k < nw.len() && nw[k] == x;
                if k < p {
                    assert(old_views[k] == x);
                } else if k > p {
                    assert(old_views[k - 1] == x);
                }
            }
            assert forall|x: Seq<char>| old_views.to_set().insert(nv).contains(x) implies nw.to_set().contains(x) by {
                if x == nv {
                    assert(nw[p as int] == x);
                } else {
                    let k = choose|k: int| 0 <= k < old_views.len() && old_views[k] == x;
                    if k < p {
                        assert(nw[k] == x);
                    } else {
                        assert(nw[k + 1] == x);
                    }
                }
            }
        }
    }
}

/// The parts, separated by `sep`.
pub open spec fn spec_join_with(parts: Seq<Seq<char>>, sep: Seq<char>) -> Seq<char>
    decreases parts.len(),
{
    if parts.len() == 0 {
        Seq::empty()
    } else if parts.len() == 1 {
        parts[0]
    } else {
        spec_join_with(parts.subrange(0, parts.len() - 1), sep) + sep + parts[parts.len() - 1]
    }
}

/// Join strings with a separator.
pub fn join_with(parts: &Vec<String>, sep: &str) -> (r: String)
    ensures
        r@ == spec_join_with(string_views(parts@), sep@),
{
    let ghost vs = string_views(parts@);
    let mut out = lit("");
    proof {
        reveal_strlit("");
        assert(vs.subrange(0, 0) =~= Seq::<Seq<char>>::empty());
    }
    let mut i: usize = 0;
    while i < parts.len()
        invariant
            i <= parts.len(),
            vs == string_views(parts@),
            out@ == spec_join_with(vs.subrange(0, i as int), sep@),
        decreases parts.len() - i,
    {
        if i > 0 {
            out.append(sep);
        }
        out.append(parts[i].as_str());
        proof {
            let pre = vs.subrange(0, i + 1);
            assert(pre.subrange(0, pre.len() - 1) =~= vs.subrange(0, i as int));
            assert(pre[pre.len() - 1] == parts@[i as int]@);
            if i == 0 {
                assert(out@ =~= pre[0]);
            }
        }
        i = i + 1;
    }
    proof {
        assert(vs.subrange(0, parts.len() as int) =~= vs);
    }
    out
}

} // verus!
