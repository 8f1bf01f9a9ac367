//! Small executable set and table helpers over vectors of strings and of
//! string pairs. The derived plan and the include closure are deduplicated
//! sets; this module supplies membership tests, duplicate-free insertion and
//! first-match lookup, each pinned to a view-level characterization.

use vstd::prelude::*;

verus! {

/// Whether some element of `v` reads as `s`.
pub open spec fn seq_contains_string(v: Seq<String>, s: Seq<char>) -> bool {
    exists|i: int| 0 <= i < v.len() && v[i]@ == s
}

/// Whether some element of `v` reads as the pair `(a, b)`.
pub open spec fn seq_contains_pair(v: Seq<(String, String)>, a: Seq<char>, b: Seq<char>) -> bool {
    exists|i: int| 0 <= i < v.len() && v[i].0@ == a && v[i].1@ == b
}

/// No two elements of `v` read alike.
pub open spec fn strings_unique(v: Seq<String>) -> bool {
    forall|i: int, j: int| 0 <= i < j < v.len() ==> v[i]@ != v[j]@
}

/// No two elements of `v` read alike as pairs.
pub open spec fn pairs_unique(v: Seq<(String, String)>) -> bool {
    forall|i: int, j: int|
        0 <= i < j < v.len() ==> !(v[i].0@ == v[j].0@ && v[i].1@ == v[j].1@)
}

/// The value recorded for `key` in the table `t`, reading the earliest
/// matching entry.
pub open spec fn lookup_spec(t: Seq<(String, String)>, key: Seq<char>) -> Option<Seq<char>>
    decreases t.len(),
{
    if t.len() == 0 {
        None
    } else if t.first().0@ == key {
        Some(t.first().1@)
    } else {
        lookup_spec(t.drop_first(), key)
    }
}

/// String equality, pinned to view equality.
pub fn string_eq(a: &String, b: &String) -> (r: bool)
    ensures
        r == (a@ == b@),
{
    <String as PartialEq>::eq(a, b)
}

/// Membership of `s` in `v`, by content.
pub fn vec_contains_string(v: &Vec<String>, s: &String) -> (r: bool)
    ensures
        r == seq_contains_string(v@, s@),
{
    let n = v.len();
    let mut i: usize = 0;
    while i < n
        invariant
            i <= n,
            n == v@.len(),
            forall|j: int| 0 <= j < i ==> v@[j]@ != s@,
        decreases n - i,
    {
        if string_eq(&v[i], s) {
            return true;
        }
        i = i + 1;
    }
    false
}

/// Membership of the pair `(a, b)` in `v`, by content.
pub fn vec_contains_pair(v: &Vec<(String, String)>, a: &String, b: &String) -> (r: bool)
    ensures
        r == seq_contains_pair(v@, a@, b@),
{
    let n = v.len();
    let mut i: usize = 0;
    while i < n
        invariant
            i <= n,
            n == v@.len(),
            forall|j: int| 0 <= j < i ==> !(v@[j].0@ == a@ && v@[j].1@ == b@),
        decreases n - i,
    {
        if string_eq(&v[i].0, a) && string_eq(&v[i].1, b) {
            return true;
        }
        i = i + 1;
    }
    false
}

/// Inserts `s` unless an element with the same content is already present,
/// keeping the vector duplicate-free.
pub fn insert_string_dedup(v: &mut Vec<String>, s: String)
    requires
        strings_unique(old(v)@),
    ensures
        strings_unique(final(v)@),
        forall|x: Seq<char>|
            seq_contains_string(final(v)@, x) <==> (seq_contains_string(old(v)@, x) || x == s@),
        seq_contains_string(old(v)@, s@) ==> final(v)@ == old(v)@,
        !seq_contains_string(old(v)@, s@) ==> final(v)@ == old(v)@.push(s),
{
    let present = vec_contains_string(v, &s);
    if !present {
        let ghost pre = v@;
        v.push(s);
        proof {
            assert forall|x: Seq<char>|
                seq_contains_string(v@, x) implies (seq_contains_string(pre, x) || x == s@) by {
                let i = choose|i: int| 0 <= i < v@.len() && v@[i]@ == x;
                if i < pre.len() {
                    assert(pre[i]@ == x);
                }
            }
            assert forall|x: Seq<char>|
                (seq_contains_string(pre, x) || x == s@) implies seq_contains_string(v@, x) by {
                if seq_contains_string(pre, x) {
                    let i = choose|i: int| 0 <= i < pre.len() && pre[i]@ == x;
                    assert(v@[i]@ == x);
                } else {
                    assert(v@[pre.len() as int]@ == x);
                }
            }
        }
    }
}

/// Inserts the pair `(a, b)` unless a pair with the same content is already
/// present, keeping the vector duplicate-free.
pub fn insert_pair_dedup(v: &mut Vec<(String, String)>, a: String, b: String)
    requires
        pairs_unique(old(v)@),
    ensures
        pairs_unique(final(v)@),
        forall|x: Seq<char>, y: Seq<char>|
            seq_contains_pair(final(v)@, x, y) <==> (seq_contains_pair(old(v)@, x, y) || (x == a@
                && y == b@)),
{
    let present = vec_contains_pair(v, &a, &b);
    if !present {
        let ghost pre = v@;
        v.push((a, b));
        proof {
            assert forall|x: Seq<char>, y: Seq<char>|
                seq_contains_pair(v@, x, y) implies (seq_contains_pair(pre, x, y) || (x == a@ && y
                == b@)) by {
                let i = choose|i: int| 0 <= i < v@.len() && v@[i].0@ == x && v@[i].1@ == y;
                if i < pre.len() {
                    assert(pre[i].0@ == x && pre[i].1@ == y);
                }
            }
            assert forall|x: Seq<char>, y: Seq<char>|
                (seq_contains_pair(pre, x, y) || (x == a@ && y == b@)) implies seq_contains_pair(
                v@,
                x,
                y,
            ) by {
                if seq_contains_pair(pre, x, y) {
                    let i = choose|i: int| 0 <= i < pre.len() && pre[i].0@ == x && pre[i].1@ == y;
                    assert(v@[i].0@ == x && v@[i].1@ == y);
                } else {
                    assert(v@[pre.len() as int].0@ == x && v@[pre.len() as int].1@ == y);
                }
            }
        }
    }
}

/// Looks `key` up in the table `t`, returning the earliest matching value.
pub fn lookup_table<'a>(t: &'a Vec<(String, String)>, key: &String) -> (r: Option<&'a String>)
    ensures
        match r {
            Some(v) => lookup_spec(t@, key@) == Some(v@),
            None => lookup_spec(t@, key@) is None,
        },
{
    let n = t.len();
    let mut i: usize = 0;
    proof {
        assert(t@.skip(0) =~= t@);
    }
    while i < n
        invariant
            i <= n,
            n == t@.len(),
            lookup_spec(t@, key@) == lookup_spec(t@.skip(i as int), key@),
        decreases n - i,
    {
        if string_eq(&t[i].0, key) {
            proof {
                assert(t@.skip(i as int).first() == t@[i as int]);
            }
            return Some(&t[i].1);
        }
        proof {
            assert(t@.skip(i as int).drop_first() =~= t@.skip(i as int + 1));
        }
        i = i + 1;
    }
    proof {
        assert(t@.skip(n as int).len() == 0);
    }
    None
}

} // verus!
