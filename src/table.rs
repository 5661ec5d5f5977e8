use vstd::prelude::*;

verus! {

/// `i` is the first position of `t` whose key is `k`.
pub open spec fn first_key<V>(t: Seq<(String, V)>, k: Seq<char>, i: int) -> bool {
    &&& 0 <= i < t.len()
    &&& t[i].0@ == k
    &&& forall|j: int| 0 <= j < i ==> t[j].0@ != k
}

/// Some position of `t` has the key `k`.
pub open spec fn has_key<V>(t: Seq<(String, V)>, k: Seq<char>) -> bool {
    exists|i: int| 0 <= i < t.len() && t[i].0@ == k
}

/// The first position of `t` whose key is `k`, if any.
pub fn find_key<V>(t: &Vec<(String, V)>, k: &str) -> (r: Option<usize>)
    ensures
        match r {
            Some(i) => first_key(t@, k@, i as int),
            None => !has_key(t@, k@),
        },
{
    let key = String::from_str(k);
    let mut i: usize = 0;
    while i < t.len()
        invariant
            i <= t@.len(),
            key@ == k@,
            forall|j: int| 0 <= j < i ==> t@[j].0@ != k@,
        decreases t@.len() - i,
    {
        if t[i].0 == key {
            return Some(i);
        }
        i = i + 1;
    }
    None
}

/// The first position of `v` that holds `k`, if any.
pub fn index_of(v: &Vec<String>, k: &str) -> (r: Option<usize>)
    ensures
        match r {
            Some(i) => i < v@.len() && v@[i as int]@ == k@ && forall|j: int| 0 <= j < i ==> v@[j]@ != k@,
            None => forall|j: int| 0 <= j < v@.len() ==> v@[j]@ != k@,
        },
{
    let key = String::from_str(k);
    let mut i: usize = 0;
    while i < v.len()
        invariant
            i <= v@.len(),
            key@ == k@,
            forall|j: int| 0 <= j < i ==> v@[j]@ != k@,
        decreases v@.len() - i,
    {
        if v[i] == key {
            return Some(i);
        }
        i = i + 1;
    }
    None
}

/// A copy of a vector of strings.
pub fn copy_strings(v: &Vec<String>) -> (r: Vec<String>)
    ensures
        r@ == v@,
{
    let mut out: Vec<String> = Vec::new();
    let mut i: usize = 0;
    while i < v.len()
        invariant
            i <= v@.len(),
            out@ == v@.take(i as int),
        decreases v@.len() - i,
    {
        out.push(v[i].clone());
        proof {
            assert(v@.take(i + 1) == v@.take(i as int).push(v@[i as int]));
        }
        i = i + 1;
    }
    proof {
        assert(v@.take(i as int) == v@);
    }
    out
}

/// A copy of a vector of integers.
pub fn copy_ints(v: &Vec<i64>) -> (r: Vec<i64>)
    ensures
        r@ == v@,
{
    let mut out: Vec<i64> = Vec::new();
    let mut i: usize = 0;
    while i < v.len()
        invariant
            i <= v@.len(),
            out@ == v@.take(i as int),
        decreases v@.len() - i,
    {
        out.push(v[i]);
        proof {
            assert(v@.take(i + 1) == v@.take(i as int).push(v@[i as int]));
        }
        i = i + 1;
    }
    proof {
        assert(v@.take(i as int) == v@);
    }
    out
}

/// Whether `x` occurs in `v`.
pub fn contains_int(v: &Vec<i64>, x: i64) -> (r: bool)
    ensures
        r == v@.contains(x),
{
    let mut i: usize = 0;
    while i < v.len()
        invariant
            i <= v@.len(),
            forall|j: int| 0 <= j < i ==> v@[j] != x,
        decreases v@.len() - i,
    {
        if v[i] == x {
            return true;
        }
        i = i + 1;
    }
    false
}

/// The values of `s.push(x)` are those of `s` and `x`.
pub proof fn lemma_push_to_set(s: Seq<i64>, x: i64)
    ensures
        s.push(x).to_set() == s.to_set().insert(x),
{
    let t = s.push(x);
    assert forall|y: i64| t.to_set().contains(y) <==> s.to_set().insert(x).contains(y) by {
        if y != x && t.contains(y) {
            let j = choose|j: int| 0 <= j < t.len() && t[j] == y;
            assert(s[j] == y);
        }
        if s.contains(y) {
            let j = choose|j: int| 0 <= j < s.len() && s[j] == y;
            assert(t[j] == y);
        }
        if y == x {
            assert(t[s.len() as int] == x);
        }
    }
    assert(t.to_set() =~= s.to_set().insert(x));
}

/// Adds to `v` each value of `xs` that it does not hold yet.
pub fn insert_all(v: &mut Vec<i64>, xs: &Vec<i64>)
    requires
        old(v)@.no_duplicates(),
    ensures
        final(v)@.no_duplicates(),
        final(v)@.to_set() == old(v)@.to_set().union(xs@.to_set()),
{
    let mut k: usize = 0;
    while k < xs.len()
        invariant
            k <= xs@.len(),
            v@.no_duplicates(),
            v@.to_set() == old(v)@.to_set().union(xs@.take(k as int).to_set()),
        decreases xs@.len() - k,
    {
        insert_new(v, xs[k]);
        proof {
            assert(xs@.take(k + 1) == xs@.take(k as int).push(xs@[k as int]));
            lemma_push_to_set(xs@.take(k as int), xs@[k as int]);
            assert(v@.to_set() =~= old(v)@.to_set().union(xs@.take(k + 1).to_set()));
        }
        k = k + 1;
    }
    proof {
        assert(xs@.take(k as int) == xs@);
    }
}

/// Adds `x` to a vector that holds no value twice, unless it is there
/// already; returns whether it was new.
pub fn insert_new(v: &mut Vec<i64>, x: i64) -> (r: bool)
    requires
        old(v)@.no_duplicates(),
    ensures
        r == !old(v)@.contains(x),
        final(v)@ == (if r { old(v)@.push(x) } else { old(v)@ }),
        final(v)@.no_duplicates(),
        final(v)@.to_set() == old(v)@.to_set().insert(x),
{
    if contains_int(v, x) {
        proof {
            assert(old(v)@.to_set().insert(x) =~= old(v)@.to_set());
        }
        false
    } else {
        v.push(x);
        proof {
            lemma_push_to_set(old(v)@, x);
        }
        true
    }
}

} // verus!
