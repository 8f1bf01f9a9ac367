//! The include closure: the set of manifests reachable from a root manifest
//! through include edges, each include resolved relative to the manifest
//! that names it. The traversal works on a table of already loaded manifests
//! keyed by path; a reachable path missing from the table is a fatal load
//! error. A deduplicating visited set makes the walk terminate on any
//! include graph, cycles included.

use vstd::prelude::*;

use crate::model::BomError;
use crate::model::BomFile;
use crate::paths::convert_to_relative_path_from_current_dir;
use crate::paths::resolve_spec;
use crate::table::seq_contains_string;
use crate::table::string_eq;
use crate::table::strings_unique;
use crate::table::vec_contains_string;

verus! {

/// The manifest recorded for `key` in the loaded table, reading the
/// earliest matching entry.
pub open spec fn lookup_bom_spec(t: Seq<(String, BomFile)>, key: Seq<char>) -> Option<BomFile>
    decreases t.len(),
{
    if t.len() == 0 {
        None
    } else if t.first().0@ == key {
        Some(t.first().1)
    } else {
        lookup_bom_spec(t.drop_first(), key)
    }
}

/// The include targets of the manifest loaded at `p`: each of its include
/// entries resolved relative to `p` itself. A path without a loaded
/// manifest has no successors.
pub open spec fn succ_of(loaded: Seq<(String, BomFile)>, p: Seq<char>) -> Set<Seq<char>> {
    match lookup_bom_spec(loaded, p) {
        Some(b) => Set::new(
            |q: Seq<char>|
                exists|k: int|
                    0 <= k < b.spec_includes().len() && q == resolve_spec(
                        p,
                        b.spec_includes()[k]@,
                    ),
        ),
        None => Set::<Seq<char>>::empty(),
    }
}

/// Whether `q` is reachable from the set `roots` in at most `n` include
/// steps through the loaded table.
pub open spec fn reaches_in(
    loaded: Seq<(String, BomFile)>,
    roots: Set<Seq<char>>,
    q: Seq<char>,
    n: nat,
) -> bool
    decreases n,
{
    if n == 0 {
        roots.contains(q)
    } else {
        reaches_in(loaded, roots, q, (n - 1) as nat) || exists|p: Seq<char>|
            reaches_in(loaded, roots, p, (n - 1) as nat) && succ_of(loaded, p).contains(q)
    }
}

/// Whether `q` is reachable from the set `roots` through the loaded table.
pub open spec fn reachable_from(
    loaded: Seq<(String, BomFile)>,
    roots: Set<Seq<char>>,
    q: Seq<char>,
) -> bool {
    exists|n: nat| reaches_in(loaded, roots, q, n)
}

/// One more step keeps reachability.
proof fn lemma_reach_step(
    loaded: Seq<(String, BomFile)>,
    roots: Set<Seq<char>>,
    p: Seq<char>,
    q: Seq<char>,
)
    requires
        reachable_from(loaded, roots, p),
        succ_of(loaded, p).contains(q),
    ensures
        reachable_from(loaded, roots, q),
{
    let n = choose|n: nat| reaches_in(loaded, roots, p, n);
    assert(reaches_in(loaded, roots, q, n + 1));
}

/// Everything reachable lies in any set that contains the roots and is
/// closed under successors.
proof fn lemma_reach_closed(
    loaded: Seq<(String, BomFile)>,
    roots: Set<Seq<char>>,
    resv: Seq<String>,
    q: Seq<char>,
    n: nat,
)
    requires
        forall|x: Seq<char>| roots.contains(x) ==> seq_contains_string(resv, x),
        forall|p: Seq<char>, x: Seq<char>|
            seq_contains_string(resv, p) && succ_of(loaded, p).contains(x)
                ==> seq_contains_string(resv, x),
        reaches_in(loaded, roots, q, n),
    ensures
        seq_contains_string(resv, q),
    decreases n,
{
    if n > 0 {
        if reaches_in(loaded, roots, q, (n - 1) as nat) {
            lemma_reach_closed(loaded, roots, resv, q, (n - 1) as nat);
        } else {
            let p = choose|p: Seq<char>|
                reaches_in(loaded, roots, p, (n - 1) as nat) && succ_of(loaded, p).contains(q);
            lemma_reach_closed(loaded, roots, resv, p, (n - 1) as nat);
        }
    }
}

/// Reachability in a bounded number of steps depends only on the successor
/// structure of the loaded table.
proof fn lemma_reaches_in_congruent(
    loaded1: Seq<(String, BomFile)>,
    loaded2: Seq<(String, BomFile)>,
    roots: Set<Seq<char>>,
    q: Seq<char>,
    n: nat,
)
    requires
        forall|p: Seq<char>| succ_of(loaded1, p) == succ_of(loaded2, p),
        reaches_in(loaded1, roots, q, n),
    ensures
        reaches_in(loaded2, roots, q, n),
    decreases n,
{
    if n > 0 {
        if reaches_in(loaded1, roots, q, (n - 1) as nat) {
            lemma_reaches_in_congruent(loaded1, loaded2, roots, q, (n - 1) as nat);
        } else {
            let p = choose|p: Seq<char>|
                reaches_in(loaded1, roots, p, (n - 1) as nat) && succ_of(loaded1, p).contains(q);
            lemma_reaches_in_congruent(loaded1, loaded2, roots, p, (n - 1) as nat);
            assert(succ_of(loaded2, p).contains(q));
        }
    }
}

/// The include closure is idempotent and order-independent: its result set
/// is determined by the root set and the successor structure alone. Any two
/// closure results — from re-running on the same table, or on tables whose
/// manifests resolve to the same successor sets however their include lists
/// are ordered or their entries arranged — hold exactly the same paths.
pub proof fn lemma_closure_order_independent(
    loaded1: Seq<(String, BomFile)>,
    loaded2: Seq<(String, BomFile)>,
    roots: Set<Seq<char>>,
    v1: Seq<String>,
    v2: Seq<String>,
)
    requires
        forall|p: Seq<char>| succ_of(loaded1, p) == succ_of(loaded2, p),
        forall|x: Seq<char>| seq_contains_string(v1, x) <==> reachable_from(loaded1, roots, x),
        forall|x: Seq<char>| seq_contains_string(v2, x) <==> reachable_from(loaded2, roots, x),
    ensures
        forall|x: Seq<char>| seq_contains_string(v1, x) <==> seq_contains_string(v2, x),
{
    assert forall|x: Seq<char>|
        seq_contains_string(v1, x) <==> seq_contains_string(v2, x) by {
        if seq_contains_string(v1, x) {
            let n = choose|n: nat| reaches_in(loaded1, roots, x, n);
            lemma_reaches_in_congruent(loaded1, loaded2, roots, x, n);
            assert(reachable_from(loaded2, roots, x));
        }
        if seq_contains_string(v2, x) {
            let n = choose|n: nat| reaches_in(loaded2, roots, x, n);
            lemma_reaches_in_congruent(loaded2, loaded1, roots, x, n);
            assert(reachable_from(loaded1, roots, x));
        }
    }
}

/// Membership in a pushed sequence of strings.
proof fn lemma_contains_push(v: Seq<String>, s: String, x: Seq<char>)
    ensures
        seq_contains_string(v.push(s), x) <==> (seq_contains_string(v, x) || x == s@),
{
    if seq_contains_string(v.push(s), x) {
        let i = choose|i: int| 0 <= i < v.push(s).len() && v.push(s)[i]@ == x;
        if i < v.len() {
            assert(v[i]@ == x);
        }
    }
    if seq_contains_string(v, x) {
        let i = choose|i: int| 0 <= i < v.len() && v[i]@ == x;
        assert(v.push(s)[i]@ == x);
    }
    if x == s@ {
        assert(v.push(s)[v.len() as int]@ == x);
    }
}

/// Membership in a concatenation of string sequences.
proof fn lemma_contains_concat(a: Seq<String>, b: Seq<String>, x: Seq<char>)
    ensures
        seq_contains_string(a + b, x) <==> (seq_contains_string(a, x) || seq_contains_string(b, x)),
{
    if seq_contains_string(a + b, x) {
        let i = choose|i: int| 0 <= i < (a + b).len() && (a + b)[i]@ == x;
        if i < a.len() {
            assert(a[i]@ == x);
        } else {
            assert(b[i - a.len()]@ == x);
        }
    }
    if seq_contains_string(a, x) {
        let i = choose|i: int| 0 <= i < a.len() && a[i]@ == x;
        assert((a + b)[i]@ == x);
    }
    if seq_contains_string(b, x) {
        let i = choose|i: int| 0 <= i < b.len() && b[i]@ == x;
        assert((a + b)[a.len() + i]@ == x);
    }
}

/// The traversal cost still ahead: one unit for each loaded entry not yet
/// visited, plus one for each of its include edges.
spec fn entry_weight(e: (String, BomFile), visited: Seq<String>) -> int {
    if seq_contains_string(visited, e.0@) {
        0
    } else {
        1 + e.1.spec_includes().len() as int
    }
}

/// Total traversal cost still ahead over the whole loaded table.
spec fn remaining_weight(loaded: Seq<(String, BomFile)>, visited: Seq<String>) -> int
    decreases loaded.len(),
{
    if loaded.len() == 0 {
        0
    } else {
        entry_weight(loaded.first(), visited) + remaining_weight(loaded.drop_first(), visited)
    }
}

proof fn lemma_weight_nonneg(loaded: Seq<(String, BomFile)>, visited: Seq<String>)
    ensures
        remaining_weight(loaded, visited) >= 0,
    decreases loaded.len(),
{
    if loaded.len() > 0 {
        lemma_weight_nonneg(loaded.drop_first(), visited);
    }
}

/// Visiting more never raises the cost ahead.
proof fn lemma_weight_push_le(loaded: Seq<(String, BomFile)>, visited: Seq<String>, p: String)
    ensures
        remaining_weight(loaded, visited.push(p)) <= remaining_weight(loaded, visited),
    decreases loaded.len(),
{
    if loaded.len() > 0 {
        let e = loaded.first();
        lemma_contains_push(visited, p, e.0@);
        lemma_weight_push_le(loaded.drop_first(), visited, p);
    }
}

/// Visiting a loaded, unvisited path pays for itself and its include edges.
proof fn lemma_weight_visit(loaded: Seq<(String, BomFile)>, visited: Seq<String>, p: String)
    requires
        lookup_bom_spec(loaded, p@) is Some,
        !seq_contains_string(visited, p@),
    ensures
        remaining_weight(loaded, visited.push(p)) + 1 + lookup_bom_spec(
            loaded,
            p@,
        ).unwrap().spec_includes().len() <= remaining_weight(loaded, visited),
    decreases loaded.len(),
{
    let e = loaded.first();
    lemma_contains_push(visited, p, e.0@);
    if e.0@ == p@ {
        lemma_weight_push_le(loaded.drop_first(), visited, p);
    } else {
        lemma_weight_visit(loaded.drop_first(), visited, p);
    }
}

/// Looks a path up in the loaded-manifests table, returning the earliest
/// matching manifest.
pub fn lookup_bom<'a>(t: &'a Vec<(String, BomFile)>, key: &String) -> (r: Option<&'a BomFile>)
    ensures
        match r {
            Some(b) => lookup_bom_spec(t@, key@) == Some(*b),
            None => lookup_bom_spec(t@, key@) is None,
        },
{
    let n = t.len();
    let mut i: usize = 0;
    proof {
        assert(t@.skip(0) =~= t@);
    }
    while i < n
        invariant
            i <= n,
            n == t@.len(),
            lookup_bom_spec(t@, key@) == lookup_bom_spec(t@.skip(i as int), key@),
        decreases n - i,
    {
        if string_eq(&t[i].0, key) {
            proof {
                assert(t@.skip(i as int).first() == t@[i as int]);
            }
            return Some(&t[i].1);
        }
        proof {
            assert(t@.skip(i as int).drop_first() =~= t@.skip(i as int + 1));
        }
        i = i + 1;
    }
    proof {
        assert(t@.skip(n as int).len() == 0);
    }
    None
}

/// The include entries of `bom`, each resolved relative to `base`.
pub fn resolved_includes(bom: &BomFile, base: &str) -> (r: Vec<String>)
    ensures
        r@.len() == bom.spec_includes().len(),
        forall|k: int|
            0 <= k < r@.len() ==> (#[trigger] r@[k])@ == resolve_spec(
                base@,
                bom.spec_includes()[k]@,
            ),
{
    let mut r: Vec<String> = Vec::new();
    if let Some(incs) = &bom.includes {
        let n = incs.len();
        let mut k: usize = 0;
        while k < n
            invariant
                k <= n,
                n == incs@.len(),
                incs@ == bom.spec_includes(),
                r@.len() == k,
                forall|j: int|
                    0 <= j < k ==> (#[trigger] r@[j])@ == resolve_spec(
                        base@,
                        bom.spec_includes()[j]@,
                    ),
            decreases n - k,
        {
            let q = convert_to_relative_path_from_current_dir(base, incs[k].as_str());
            r.push(q);
            k = k + 1;
        }
    }
    r
}

impl BomFile {
    /// The set of paths this manifest's own include entries resolve to,
    /// relative to its location at `path`.
    pub open spec fn spec_root_includes(self, path: Seq<char>) -> Set<Seq<char>> {
        Set::new(
            |q: Seq<char>|
                exists|k: int|
                    0 <= k < self.spec_includes().len() && q == resolve_spec(
                        path,
                        self.spec_includes()[k]@,
                    ),
        )
    }

    /// The include closure of this manifest, located at `bom_file_path`,
    /// over the table of loaded manifests: every path reachable through
    /// include edges, each exactly once, the root itself not among them
    /// unless an include cycle leads back to it. A reachable path that is
    /// not in the table is a load error carrying that path; the closure is
    /// returned exactly when every reachable path is loaded.
    pub fn get_included_bom_files(&self, bom_file_path: &str, loaded: &Vec<(String, BomFile)>)
        -> (r: Result<Vec<String>, BomError>)
        ensures
            match r {
                Ok(v) => {
                    &&& strings_unique(v@)
                    &&& forall|x: Seq<char>|
                        seq_contains_string(v@, x) <==> reachable_from(
                            loaded@,
                            self.spec_root_includes(bom_file_path@),
                            x,
                        )
                    &&& forall|x: Seq<char>|
                        reachable_from(loaded@, self.spec_root_includes(bom_file_path@), x)
                            ==> lookup_bom_spec(loaded@, x) is Some
                },
                Err(e) => match e {
                    BomError::LoadError(p) => reachable_from(
                        loaded@,
                        self.spec_root_includes(bom_file_path@),
                        p@,
                    ) && lookup_bom_spec(loaded@, p@) is None,
                    _ => false,
                },
            },
    {
        let ghost roots = self.spec_root_includes(bom_file_path@);
        let mut result: Vec<String> = Vec::new();
        let mut queue: Vec<String> = resolved_includes(self, bom_file_path);
        proof {
            assert forall|j: int| 0 <= j < queue@.len() implies reachable_from(
                loaded@,
                roots,
                queue@[j]@,
            ) by {
                assert(roots.contains(queue@[j]@));
                assert(reaches_in(loaded@, roots, queue@[j]@, 0));
            }
            assert forall|x: Seq<char>| roots.contains(x) implies seq_contains_string(result@, x)
                || seq_contains_string(queue@, x) by {
                let k = choose|k: int|
                    0 <= k < self.spec_includes().len() && x == resolve_spec(
                        bom_file_path@,
                        self.spec_includes()[k]@,
                    );
                assert(queue@[k]@ == x);
            }
        }
        loop
            invariant
                roots == self.spec_root_includes(bom_file_path@),
                strings_unique(result@),
                forall|x: Seq<char>|
                    seq_contains_string(result@, x) ==> reachable_from(loaded@, roots, x)
                        && lookup_bom_spec(loaded@, x) is Some,
                forall|j: int|
                    0 <= j < queue@.len() ==> reachable_from(loaded@, roots, (#[trigger] queue@[j])@),
                forall|x: Seq<char>|
                    roots.contains(x) ==> seq_contains_string(result@, x) || seq_contains_string(
                        queue@,
                        x,
                    ),
                forall|p: Seq<char>, q: Seq<char>|
                    seq_contains_string(result@, p) && succ_of(loaded@, p).contains(q)
                        ==> seq_contains_string(result@, q) || seq_contains_string(queue@, q),
            decreases remaining_weight(loaded@, result@), queue@.len(),
        {
            proof {
                lemma_weight_nonneg(loaded@, result@);
            }
            let ghost pre_queue = queue@;
            let popped = queue.pop();
            let p = match popped {
                None => {
                    proof {
                        assert(queue@.len() == 0);
                        assert forall|x: Seq<char>|
                            reachable_from(loaded@, roots, x) implies seq_contains_string(
                            result@,
                            x,
                        ) by {
                            let n = choose|n: nat| reaches_in(loaded@, roots, x, n);
                            lemma_reach_closed(loaded@, roots, result@, x, n);
                        }
                        assert forall|x: Seq<char>|
                            reachable_from(loaded@, roots, x) implies lookup_bom_spec(
                            loaded@,
                            x,
                        ) is Some by {
                            assert(seq_contains_string(result@, x));
                        }
                        assert(roots == self.spec_root_includes(bom_file_path@));
                    }
                    return Ok(result);
                },
                Some(p) => p,
            };
            proof {
                assert(queue@ =~= pre_queue.drop_last());
                assert(reachable_from(loaded@, roots, p@)) by {
                    assert(pre_queue[pre_queue.len() - 1]@ == p@);
                }
                assert forall|x: Seq<char>|
                    seq_contains_string(pre_queue, x) implies (seq_contains_string(queue@, x) || x
                    == p@) by {
                    let i = choose|i: int| 0 <= i < pre_queue.len() && pre_queue[i]@ == x;
                    if i < pre_queue.len() - 1 {
                        assert(queue@[i]@ == x);
                    }
                }
            }
            let already = vec_contains_string(&result, &p);
            if already {
                proof {
                    assert forall|x: Seq<char>|
                        roots.contains(x) implies seq_contains_string(result@, x)
                        || seq_contains_string(queue@, x) by {
                        if seq_contains_string(pre_queue, x) && !seq_contains_string(queue@, x) {
                            assert(x == p@);
                        }
                    }
                    assert forall|p2: Seq<char>, q: Seq<char>|
                        seq_contains_string(result@, p2) && succ_of(loaded@, p2).contains(
                        q,
                    ) implies (seq_contains_string(result@, q) || seq_contains_string(
                        queue@,
                        q,
                    )) by {
                        if seq_contains_string(pre_queue, q) && !seq_contains_string(queue@, q) {
                            assert(q == p@);
                        }
                    }
                }
            } else {
                let found = lookup_bom(loaded, &p);
                match found {
                    None => {
                        return Err(BomError::LoadError(p));
                    },
                    Some(bom) => {
                        let mut incs = resolved_includes(bom, p.as_str());
                        let ghost incs_view = incs@;
                        let ghost pre_result = result@;
                        let ghost pre_append = queue@;
                        proof {
                            lemma_weight_visit(loaded@, result@, p);
                            assert(lookup_bom_spec(loaded@, p@) == Some(*bom));
                            assert forall|q: Seq<char>|
                                succ_of(loaded@, p@).contains(q) implies seq_contains_string(
                                incs_view,
                                q,
                            ) by {
                                let k = choose|k: int|
                                    0 <= k < bom.spec_includes().len() && q == resolve_spec(
                                        p@,
                                        bom.spec_includes()[k]@,
                                    );
                                assert(incs_view[k]@ == q);
                            }
                            assert forall|j: int| 0 <= j < incs_view.len() implies succ_of(
                                loaded@,
                                p@,
                            ).contains((#[trigger] incs_view[j])@) by {
                                assert(incs_view[j]@ == resolve_spec(p@, bom.spec_includes()[j]@));
                            }
                        }
                        result.push(p);
                        queue.append(&mut incs);
                        proof {
                            assert(result@ == pre_result.push(result@.last()));
                            assert(result@.last()@ == p@);
                            assert forall|x: Seq<char>|
                                seq_contains_string(result@, x) <==> (seq_contains_string(
                                pre_result,
                                x,
                            ) || x == p@) by {
                                lemma_contains_push(pre_result, result@.last(), x);
                            }
                            assert(queue@ == pre_append + incs_view);
                            assert forall|x: Seq<char>|
                                seq_contains_string(queue@, x) <==> (seq_contains_string(
                                pre_append,
                                x,
                            ) || seq_contains_string(incs_view, x)) by {
                                lemma_contains_concat(pre_append, incs_view, x);
                            }
                            assert(strings_unique(result@)) by {
                                assert(result@.drop_last() =~= pre_result);
                                assert forall|i: int, j: int|
                                    0 <= i < j < result@.len() implies result@[i]@ != result@[j]@
                                by {
                                    if j < result@.len() - 1 {
                                        assert(pre_result[i]@ != pre_result[j]@);
                                    } else {
                                        assert(result@[j]@ == p@);
                                        assert(pre_result[i]@ != p@);
                                    }
                                }
                            }
                            assert forall|j: int| 0 <= j < queue@.len() implies reachable_from(
                                loaded@,
                                roots,
                                (#[trigger] queue@[j])@,
                            ) by {
                                if j < pre_append.len() {
                                    assert(queue@[j] == pre_append[j]);
                                    assert(pre_append[j] == pre_queue[j]);
                                } else {
                                    assert(queue@[j] == incs_view[j - pre_append.len()]);
                                    assert(succ_of(loaded@, p@).contains(queue@[j]@));
                                    lemma_reach_step(loaded@, roots, p@, queue@[j]@);
                                }
                            }
                            assert forall|x: Seq<char>|
                                roots.contains(x) implies seq_contains_string(result@, x)
                                || seq_contains_string(queue@, x) by {
                                if !seq_contains_string(pre_result, x) {
                                    assert(seq_contains_string(pre_queue, x));
                                    if !seq_contains_string(queue@, x) {
                                        assert(!seq_contains_string(pre_append, x));
                                        assert(x == p@);
                                    }
                                }
                            }
                            assert forall|p2: Seq<char>, q: Seq<char>|
                                seq_contains_string(result@, p2) && succ_of(loaded@, p2).contains(
                                q,
                            ) implies (seq_contains_string(result@, q) || seq_contains_string(
                                queue@,
                                q,
                            )) by {
                                if seq_contains_string(pre_result, p2) {
                                    if !seq_contains_string(pre_result, q)
                                        && !seq_contains_string(queue@, q) {
                                        assert(seq_contains_string(pre_queue, q));
                                        assert(!seq_contains_string(pre_append, q));
                                        assert(q == p@);
                                    }
                                } else {
                                    assert(p2 == p@);
                                    assert(seq_contains_string(incs_view, q));
                                }
                            }
                            lemma_weight_nonneg(loaded@, result@);
                            assert(remaining_weight(loaded@, result@) < remaining_weight(
                                loaded@,
                                pre_result,
                            ));
                            assert forall|x: Seq<char>|
                                seq_contains_string(result@, x) implies reachable_from(
                                loaded@,
                                roots,
                                x,
                            ) && lookup_bom_spec(loaded@, x) is Some by {
                                if x != p@ {
                                    assert(seq_contains_string(pre_result, x));
                                }
                            }
                        }
                    },
                }
            }
        }
    }
}

} // verus!
