use vstd::prelude::*;

verus! {

/// No two entries of the list carry the same name.
pub open spec fn unique_names<X>(s: Seq<(String, X)>) -> bool {
    forall|i: int, j: int|
        0 <= i < s.len() && 0 <= j < s.len() && i != j ==> s[i].0@ != s[j].0@
}

/// Some entry of the list carries the name `k`.
pub open spec fn has_name<X>(s: Seq<(String, X)>, k: Seq<char>) -> bool {
    exists|i: int| 0 <= i < s.len() && s[i].0@ == k
}

/// Index of the first entry named `k`, if any.
pub fn position_of<X>(v: &Vec<(String, X)>, k: &String) -> (r: Option<usize>)
    ensures
        match r {
            Some(i) => i < v@.len() && v@[i as int].0@ == k@ && forall|j: int|
                0 <= j < i ==> v@[j].0@ != k@,
            None => !has_name(v@, k@),
        },
{
    let mut i: usize = 0;
    while i < v.len()
        invariant
            i <= v@.len(),
            forall|j: int| 0 <= j < i ==> v@[j].0@ != k@,
        decreases v@.len() - i,
    {
        if v[i].0 == *k {
            return Some(i);
        }
        i = i + 1;
    }
    None
}

/// Sets the entry named `k` to `x`, appending one when there is none.
pub fn upsert<X>(v: &mut Vec<(String, X)>, k: String, x: X)
    requires
        unique_names(old(v)@),
    ensures
        unique_names(final(v)@),
        match position_of_spec(old(v)@, k@) {
            Some(i) => final(v)@ == old(v)@.update(i, (k, x)),
            None => final(v)@ == old(v)@.push((k, x)),
        },
        forall|n: Seq<char>|
            #[trigger] lookup(final(v)@, n) == if n == k@ {
                Some(x)
            } else {
                lookup(old(v)@, n)
            },
{
    let ghost before = v@;
    let ghost kv = k@;
    let ghost xv = x;
    match position_of(v, &k) {
        Some(i) => {
            proof {
                lemma_first_is_only(v@, k@, i as int);
            }
            v.set(i, (k, x));
            proof {
                assert forall|n: Seq<char>|
                    #[trigger] lookup(v@, n) == if n == kv {
                        Some(xv)
                    } else {
                        lookup(before, n)
                    } by {
                    lemma_first_is_only(v@, kv, i as int);
                    if n != kv {
                        if has_name(before, n) {
                            let j = choose|j: int| 0 <= j < before.len() && before[j].0@ == n;
                            lemma_first_is_only(before, n, j);
                            assert(v@[j] == before[j]);
                            lemma_first_is_only(v@, n, j);
                        } else {
                            assert forall|j: int| 0 <= j < v@.len() implies v@[j].0@ != n by {
                                if j != i {
                                    assert(v@[j] == before[j]);
                                }
                            }
                        }
                    }
                }
            }
        },
        None => {
            v.push((k, x));
            proof {
                assert(unique_names(v@));
                assert forall|n: Seq<char>|
                    #[trigger] lookup(v@, n) == if n == kv {
                        Some(xv)
                    } else {
                        lookup(before, n)
                    } by {
                    let last = before.len() as int;
                    assert(v@[last].0@ == kv);
                    if n == kv {
                        lemma_first_is_only(v@, kv, last);
                    } else if has_name(before, n) {
                        let j = choose|j: int| 0 <= j < before.len() && before[j].0@ == n;
                        lemma_first_is_only(before, n, j);
                        assert(v@[j] == before[j]);
                        lemma_first_is_only(v@, n, j);
                    } else {
                        assert forall|j: int| 0 <= j < v@.len() implies v@[j].0@ != n by {
                            if j < last {
                                assert(v@[j] == before[j]);
                            }
                        }
                    }
                }
            }
        },
    }
}

/// The value the list gives the name `k`, if it holds that name.
pub open spec fn lookup<X>(s: Seq<(String, X)>, k: Seq<char>) -> Option<X> {
    match position_of_spec(s, k) {
        Some(i) => Some(s[i].1),
        None => None,
    }
}

/// Finds the value a list with unique names gives the name `k`.
pub fn get_named<'a, X>(v: &'a Vec<(String, X)>, k: &String) -> (r: Option<&'a X>)
    requires
        unique_names(v@),
    ensures
        r == match lookup(v@, k@) {
            Some(x) => Some(&x),
            None => None::<&X>,
        },
{
    match position_of(v, k) {
        Some(i) => {
            proof {
                lemma_first_is_only(v@, k@, i as int);
            }
            Some(&v[i].1)
        },
        None => None,
    }
}

/// Appending an entry keeps every name and adds its own.
pub proof fn lemma_push_names<X>(s: Seq<(String, X)>, e: (String, X))
    ensures
        forall|k: Seq<char>| has_name(s, k) ==> #[trigger] has_name(s.push(e), k),
        has_name(s.push(e), e.0@),
{
    assert forall|k: Seq<char>| has_name(s, k) implies #[trigger] has_name(s.push(e), k) by {
        let i = choose|i: int| 0 <= i < s.len() && s[i].0@ == k;
        assert(s.push(e)[i] == s[i]);
    }
    assert(s.push(e)[s.len() as int] == e);
}

/// Index of the only entry named `k` of a list whose names are unique.
pub open spec fn position_of_spec<X>(s: Seq<(String, X)>, k: Seq<char>) -> Option<int> {
    if has_name(s, k) {
        Some(choose|i: int| 0 <= i < s.len() && s[i].0@ == k)
    } else {
        None
    }
}

pub proof fn lemma_first_is_only<X>(s: Seq<(String, X)>, k: Seq<char>, i: int)
    requires
        unique_names(s),
        0 <= i < s.len(),
        s[i].0@ == k,
    ensures
        position_of_spec(s, k) == Some(i),
{
    let j = choose|j: int| 0 <= j < s.len() && s[j].0@ == k;
    assert(j == i);
}

/// Takes the entry named `k` out of the list, returning its value.
pub fn remove_named<X>(v: &mut Vec<(String, X)>, k: &String) -> (r: Option<X>)
    requires
        unique_names(old(v)@),
    ensures
        unique_names(final(v)@),
        r == lookup(old(v)@, k@),
        forall|n: Seq<char>|
            #[trigger] lookup(final(v)@, n) == if n == k@ {
                None
            } else {
                lookup(old(v)@, n)
            },
{
    let ghost before = v@;
    match position_of(v, k) {
        Some(i) => {
            proof {
                lemma_first_is_only(v@, k@, i as int);
            }
            let (_, x) = v.remove(i);
            proof {
                assert(v@ == before.remove(i as int));
                assert forall|a: int, b: int|
                    0 <= a < v@.len() && 0 <= b < v@.len() && a != b implies v@[a].0@
                    != v@[b].0@ by {
                    let a0 = if a < i { a } else { a + 1 };
                    let b0 = if b < i { b } else { b + 1 };
                    assert(v@[a] == before[a0]);
                    assert(v@[b] == before[b0]);
                }
                assert forall|n: Seq<char>|
                    #[trigger] lookup(v@, n) == if n == k@ {
                        None
                    } else {
                        lookup(before, n)
                    } by {
                    if has_name(v@, n) {
                        let j = choose|j: int| 0 <= j < v@.len() && v@[j].0@ == n;
                        let j0 = if j < i { j } else { j + 1 };
                        assert(v@[j] == before[j0]);
                        lemma_first_is_only(v@, n, j);
                        lemma_first_is_only(before, n, j0);
                    } else {
                        if n != k@ && has_name(before, n) {
                            let j0 = choose|j: int| 0 <= j < before.len() && before[j].0@ == n;
                            let j = if j0 < i { j0 } else { j0 - 1 };
                            assert(v@[j] == before[j0]);
                        }
                    }
                }
            }
            Some(x)
        },
        None => None,
    }
}

} // verus!
