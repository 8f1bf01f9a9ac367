//! Copy planning: deriving from a manifest the three deduplicated sets of
//! filesystem actions that materialize it — directories to create,
//! directories to copy, files to copy — and folding the shared-library
//! dependencies of every scan-target file into the file copies, one
//! copy-intent per library however many executables need it. Planning reads
//! only the manifest's own entries, never the manifests it includes.

use vstd::prelude::*;

use crate::deps::ScanConfig;
use crate::deps::deps_of_text;
use crate::deps::find_dependencies_for_executable;
use crate::model::BomFile;
use crate::model::SharedObject;
use crate::paths::convert_to_relative_path_from_current_dir;
use crate::paths::get_output_path;
use crate::paths::output_path_spec;
use crate::paths::resolve_spec;
use crate::table::insert_pair_dedup;
use crate::table::insert_string_dedup;
use crate::table::lookup_spec;
use crate::table::lookup_table;
use crate::table::pairs_unique;
use crate::table::seq_contains_pair;
use crate::table::seq_contains_string;
use crate::table::string_eq;
use crate::table::strings_unique;

verus! {

/// Whether the dependency list `d` holds the pair `(n, p)`.
pub open spec fn seq_contains_dep(d: Seq<(Seq<char>, Seq<char>)>, n: Seq<char>, p: Seq<char>) -> bool {
    exists|i: int| 0 <= i < d.len() && d[i].0 == n && d[i].1 == p
}

/// Whether the shared-object list `v` holds one named `n` sourced at `p`.
pub open spec fn so_contains(v: Seq<SharedObject>, n: Seq<char>, p: Seq<char>) -> bool {
    exists|i: int| 0 <= i < v.len() && v[i].name@ == n && v[i].path@ == p
}

/// No two shared objects of `v` agree on both name and source path.
pub open spec fn so_unique(v: Seq<SharedObject>) -> bool {
    forall|i: int, j: int|
        0 <= i < j < v.len() ==> !(v[i].name@ == v[j].name@ && v[i].path@ == v[j].path@)
}

/// The lister text recorded for the executable at `q`, empty when the
/// table holds none.
pub open spec fn lister_text_for(lister: Seq<(String, String)>, q: Seq<char>) -> Seq<char> {
    match lookup_spec(lister, q) {
        Some(t) => t,
        None => Seq::<char>::empty(),
    }
}

/// Membership of a shared object in `v`, by name and source path.
fn vec_contains_so(v: &Vec<SharedObject>, name: &String, path: &String) -> (r: bool)
    ensures
        r == so_contains(v@, name@, path@),
{
    let n = v.len();
    let mut i: usize = 0;
    while i < n
        invariant
            i <= n,
            n == v@.len(),
            forall|j: int| 0 <= j < i ==> !(v@[j].name@ == name@ && v@[j].path@ == path@),
        decreases n - i,
    {
        if string_eq(&v[i].name, name) && string_eq(&v[i].path, path) {
            return true;
        }
        i = i + 1;
    }
    false
}

/// Inserts a shared object unless one with the same name and source path is
/// already present, keeping the list duplicate-free.
fn insert_so_dedup(v: &mut Vec<SharedObject>, so: SharedObject)
    requires
        so_unique(old(v)@),
    ensures
        so_unique(final(v)@),
        forall|n: Seq<char>, p: Seq<char>|
            so_contains(final(v)@, n, p) <==> (so_contains(old(v)@, n, p) || (n == so.name@ && p
                == so.path@)),
        final(v)@ == old(v)@ || final(v)@ == old(v)@.push(so),
{
    let present = vec_contains_so(v, &so.name, &so.path);
    if !present {
        let ghost pre = v@;
        v.push(so);
        proof {
            assert forall|n: Seq<char>, p: Seq<char>|
                so_contains(v@, n, p) implies (so_contains(pre, n, p) || (n == v@.last().name@ && p
                == v@.last().path@)) by {
                let i = choose|i: int| 0 <= i < v@.len() && v@[i].name@ == n && v@[i].path@ == p;
                if i < pre.len() {
                    assert(pre[i].name@ == n && pre[i].path@ == p);
                }
            }
            assert forall|n: Seq<char>, p: Seq<char>|
                (so_contains(pre, n, p) || (n == v@.last().name@ && p
                == v@.last().path@)) implies so_contains(v@, n, p) by {
                if so_contains(pre, n, p) {
                    let i = choose|i: int|
                        0 <= i < pre.len() && pre[i].name@ == n && pre[i].path@ == p;
                    assert(v@[i].name@ == n && v@[i].path@ == p);
                } else {
                    assert(v@[pre.len() as int].name@ == n && v@[pre.len() as int].path@ == p);
                }
            }
        }
    }
}

/// However many entries of a plan ask for the same copy — two file entries
/// resolving alike, or two scan targets reporting the same shared library —
/// a duplicate-free plan holds exactly one (from, to) pair for it: one
/// position carries it and no other does.
pub proof fn lemma_shared_library_copied_once(v: Seq<(String, String)>, a: Seq<char>, b: Seq<char>)
    requires
        pairs_unique(v),
        seq_contains_pair(v, a, b),
    ensures
        exists|i: int|
            #![trigger v[i]]
            0 <= i < v.len() && v[i].0@ == a && v[i].1@ == b && (forall|j: int|
                #![trigger v[j]]
                0 <= j < v.len() && j != i ==> !(v[j].0@ == a && v[j].1@ == b)),
{
    let i = choose|i: int| 0 <= i < v.len() && v[i].0@ == a && v[i].1@ == b;
    assert forall|j: int|
        0 <= j < v.len() && j != i implies !((#[trigger] v[j]).0@ == a && v[j].1@ == b) by {
        if j < i {
            assert(!(v[j].0@ == v[i].0@ && v[j].1@ == v[i].1@));
        } else {
            assert(!(v[i].0@ == v[j].0@ && v[i].1@ == v[j].1@));
        }
    }
    assert(0 <= i < v.len() && v[i].0@ == a && v[i].1@ == b && (forall|j: int|
        #![trigger v[j]]
        0 <= j < v.len() && j != i ==> !(v[j].0@ == a && v[j].1@ == b)));
}

impl BomFile {
    /// Whether the plan for this manifest at `path` creates an empty
    /// directory at `x`: some directory entry without a source resolves its
    /// destination to `x`.
    pub open spec fn plan_creates_dir(self, path: Seq<char>, x: Seq<char>) -> bool {
        exists|i: int|
            0 <= i < self.spec_directories().len() && (#[trigger] self.spec_directories()[i]).path
                is None && x == resolve_spec(path, self.spec_directories()[i].output_path@)
    }

    /// Whether the plan copies the directory at `from` to `to`: some
    /// sourced directory entry resolves to that pair.
    pub open spec fn plan_copies_dir(self, path: Seq<char>, from: Seq<char>, to: Seq<char>) -> bool {
        exists|i: int|
            0 <= i < self.spec_directories().len() && (#[trigger] self.spec_directories()[i]).path
                is Some && from == resolve_spec(path, self.spec_directories()[i].path.unwrap()@)
                && to == resolve_spec(path, self.spec_directories()[i].output_path@)
    }

    /// Whether dependency discovery over the scan-target files of this
    /// manifest reports the library `(n, p)`: some entry flagged as a scan
    /// target has a lister text whose parse holds that pair, after the musl
    /// substitution.
    pub open spec fn plan_dep(
        self,
        path: Seq<char>,
        lister: Seq<(String, String)>,
        musl_lib_names: Seq<String>,
        musl_lib_root: Seq<char>,
        n: Seq<char>,
        p: Seq<char>,
    ) -> bool {
        exists|i: int|
            0 <= i < self.spec_files().len() && (#[trigger] self.spec_files()[i]).spec_is_target_executable()
                && seq_contains_dep(
                deps_of_text(
                    musl_lib_names,
                    musl_lib_root,
                    lister_text_for(lister, resolve_spec(path, self.spec_files()[i].path@)),
                ),
                n,
                p,
            )
    }

    /// Whether the plan copies the file at `from` to `to`: either a file
    /// entry's source resolves to `from` and `to` is the source's base name
    /// under the entry's resolved destination directory, or `from` is a
    /// discovered shared library and `to` is its place under the library
    /// output directory.
    pub open spec fn plan_copies_file(
        self,
        path: Seq<char>,
        lister: Seq<(String, String)>,
        musl_lib_names: Seq<String>,
        musl_lib_root: Seq<char>,
        lib_dir: Seq<char>,
        from: Seq<char>,
        to: Seq<char>,
    ) -> bool {
        ||| exists|i: int|
            0 <= i < self.spec_files().len() && from == resolve_spec(
                path,
                (#[trigger] self.spec_files()[i]).path@,
            ) && to == output_path_spec(
                self.spec_files()[i].path@,
                resolve_spec(path, self.spec_files()[i].output_path@),
            )
        ||| (exists|n: Seq<char>|
            self.plan_dep(path, lister, musl_lib_names, musl_lib_root, n, from)) && to
            == output_path_spec(from, lib_dir)
    }

    /// Like `plan_dep`, over the first `m` file entries only.
    pub open spec fn plan_dep_upto(
        self,
        path: Seq<char>,
        lister: Seq<(String, String)>,
        musl_lib_names: Seq<String>,
        musl_lib_root: Seq<char>,
        m: int,
        n: Seq<char>,
        p: Seq<char>,
    ) -> bool {
        exists|i: int|
            0 <= i < m && i < self.spec_files().len() && (#[trigger] self.spec_files()[i]).spec_is_target_executable()
                && seq_contains_dep(
                deps_of_text(
                    musl_lib_names,
                    musl_lib_root,
                    lister_text_for(lister, resolve_spec(path, self.spec_files()[i].path@)),
                ),
                n,
                p,
            )
    }

    /// The copy plan for this manifest located at `bom_file_path`:
    /// directories to create, directories to copy and files to copy, each a
    /// deduplicated set. File copies hold the manifest's own file entries —
    /// each staged at its source's base name under the entry's resolved
    /// destination directory — and one copy-intent per discovered shared
    /// library.
    /// `lister_outputs` maps the resolved path of each scan-target file to
    /// the text the external dependency lister printed for it; a scan
    /// target without an entry contributes nothing. `config` carries the
    /// musl substitution rule and the library output directory.
    #[verifier::loop_isolation(false)]
    #[verifier::rlimit(40)]
    pub fn get_copied_files(
        &self,
        bom_file_path: &str,
        lister_outputs: &Vec<(String, String)>,
        config: &ScanConfig,
    ) -> (r: (Vec<String>, Vec<(String, String)>, Vec<(String, String)>))
        ensures
            strings_unique(r.0@),
            pairs_unique(r.1@),
            pairs_unique(r.2@),
            forall|x: Seq<char>|
                seq_contains_string(r.0@, x) <==> self.plan_creates_dir(bom_file_path@, x),
            forall|a: Seq<char>, b: Seq<char>|
                seq_contains_pair(r.1@, a, b) <==> self.plan_copies_dir(bom_file_path@, a, b),
            forall|a: Seq<char>, b: Seq<char>|
                seq_contains_pair(r.2@, a, b) <==> self.plan_copies_file(
                    bom_file_path@,
                    lister_outputs@,
                    config.musl_lib_names@,
                    config.musl_lib_root@,
                    config.shared_object_output_directory@,
                    a,
                    b,
                ),
    {
        let mut create_dirs: Vec<String> = Vec::new();
        let mut copy_dirs: Vec<(String, String)> = Vec::new();
        let mut copy_files: Vec<(String, String)> = Vec::new();
        let mut shared_objects: Vec<SharedObject> = Vec::new();
        if let Some(files) = &self.files {
            let n = files.len();
            let mut i: usize = 0;
            while i < n
                invariant
                    i <= n,
                    n == files@.len(),
                    files@ == self.spec_files(),
                    pairs_unique(copy_files@),
                    forall|a: Seq<char>, b: Seq<char>|
                        #![trigger seq_contains_pair(copy_files@, a, b)]
                        seq_contains_pair(copy_files@, a, b) <==> exists|j: int|
                            0 <= j < i && a == resolve_spec(
                                bom_file_path@,
                                (#[trigger] self.spec_files()[j]).path@,
                            ) && b == output_path_spec(
                                self.spec_files()[j].path@,
                                resolve_spec(bom_file_path@, self.spec_files()[j].output_path@),
                            ),
                    so_unique(shared_objects@),
                    forall|nm: Seq<char>, p: Seq<char>|
                        #![trigger so_contains(shared_objects@, nm, p)]
                        so_contains(shared_objects@, nm, p) <==> self.plan_dep_upto(
                            bom_file_path@,
                            lister_outputs@,
                            config.musl_lib_names@,
                            config.musl_lib_root@,
                            i as int,
                            nm,
                            p,
                        ),
                    forall|j: int|
                        0 <= j < shared_objects@.len() ==> (#[trigger] shared_objects@[j]).output_directory@
                            == config.shared_object_output_directory@,
                decreases n - i,
            {
                let ghost pre_pairs = copy_files@;
                let ghost pre_sos = shared_objects@;
                let absolute_from_path = convert_to_relative_path_from_current_dir(
                    bom_file_path,
                    files[i].path.as_str(),
                );
                let absolute_to_directory = convert_to_relative_path_from_current_dir(
                    bom_file_path,
                    files[i].output_path.as_str(),
                );
                let absolute_to_path = get_output_path(
                    files[i].path.as_str(),
                    absolute_to_directory.as_str(),
                );
                let ghost from_v = absolute_from_path@;
                let ghost to_v = absolute_to_path@;
                let from_key = absolute_from_path.clone();
                insert_pair_dedup(&mut copy_files, absolute_from_path, absolute_to_path);
                proof {
                    assert forall|a: Seq<char>, b: Seq<char>|
                        #![trigger seq_contains_pair(copy_files@, a, b)]
                        seq_contains_pair(copy_files@, a, b) implies exists|j: int|
                        0 <= j < i + 1 && a == resolve_spec(
                            bom_file_path@,
                            (#[trigger] self.spec_files()[j]).path@,
                        ) && b == output_path_spec(
                            self.spec_files()[j].path@,
                            resolve_spec(bom_file_path@, self.spec_files()[j].output_path@),
                        ) by {
                        if seq_contains_pair(pre_pairs, a, b) {
                            let j = choose|j: int|
                                0 <= j < i && a == resolve_spec(
                                    bom_file_path@,
                                    (#[trigger] self.spec_files()[j]).path@,
                                ) && b == output_path_spec(
                                    self.spec_files()[j].path@,
                                    resolve_spec(bom_file_path@, self.spec_files()[j].output_path@),
                                );
                            assert(0 <= j < i + 1);
                        } else {
                            assert(a == from_v && b == to_v);
                            assert(a == resolve_spec(
                                bom_file_path@,
                                self.spec_files()[i as int].path@,
                            ));
                            assert(b == output_path_spec(
                                self.spec_files()[i as int].path@,
                                resolve_spec(
                                    bom_file_path@,
                                    self.spec_files()[i as int].output_path@,
                                ),
                            ));
                        }
                    }
                    assert forall|a: Seq<char>, b: Seq<char>|
                        #![trigger seq_contains_pair(copy_files@, a, b)]
                        (exists|j: int|
                            0 <= j < i + 1 && a == resolve_spec(
                                bom_file_path@,
                                (#[trigger] self.spec_files()[j]).path@,
                            ) && b == output_path_spec(
                                self.spec_files()[j].path@,
                                resolve_spec(bom_file_path@, self.spec_files()[j].output_path@),
                            )) implies seq_contains_pair(copy_files@, a, b) by {
                        let j = choose|j: int|
                            0 <= j < i + 1 && a == resolve_spec(
                                bom_file_path@,
                                (#[trigger] self.spec_files()[j]).path@,
                            ) && b == output_path_spec(
                                self.spec_files()[j].path@,
                                resolve_spec(bom_file_path@, self.spec_files()[j].output_path@),
                            );
                        if j < i {
                            assert(seq_contains_pair(pre_pairs, a, b));
                        } else {
                            assert(a == from_v && b == to_v);
                        }
                    }
                }
                if files[i].is_target_executable() {
                    let text = match lookup_table(lister_outputs, &from_key) {
                        Some(t) => t.as_str(),
                        None => "",
                    };
                    proof {
                        assert(text@ == lister_text_for(lister_outputs@, from_v)) by {
                            reveal_strlit("");
                        }
                    }
                    let found = find_dependencies_for_executable(text, config);
                    let m = found.len();
                    let ghost deps = deps_of_text(
                        config.musl_lib_names@,
                        config.musl_lib_root@,
                        text@,
                    );
                    let mut k: usize = 0;
                    while k < m
                        invariant
                            k <= m,
                            m == found@.len(),
                            crate::deps::so_views(found@) == deps,
                            forall|j: int|
                                0 <= j < found@.len() ==> (#[trigger] found@[j]).output_directory@
                                    == config.shared_object_output_directory@,
                            so_unique(shared_objects@),
                            forall|nm: Seq<char>, p: Seq<char>|
                                #![trigger so_contains(shared_objects@, nm, p)]
                                so_contains(shared_objects@, nm, p) <==> (so_contains(
                                    pre_sos,
                                    nm,
                                    p,
                                ) || seq_contains_dep(deps.take(k as int), nm, p)),
                            forall|j: int|
                                0 <= j < shared_objects@.len() ==> (#[trigger] shared_objects@[j]).output_directory@
                                    == config.shared_object_output_directory@,
                        decreases m - k,
                    {
                        let ghost mid_sos = shared_objects@;
                        let so = SharedObject {
                            name: found[k].name.clone(),
                            path: found[k].path.clone(),
                            output_directory: found[k].output_directory.clone(),
                        };
                        proof {
                            assert(so == found@[k as int]);
                            assert(deps[k as int] == (so.name@, so.path@));
                        }
                        insert_so_dedup(&mut shared_objects, so);
                        proof {
                            assert forall|j: int|
                                0 <= j < shared_objects@.len() implies (#[trigger] shared_objects@[j]).output_directory@
                                == config.shared_object_output_directory@ by {
                                if j < mid_sos.len() {
                                    assert(shared_objects@[j] == mid_sos[j]);
                                } else {
                                    assert(shared_objects@[j] == so);
                                }
                            }
                            assert(deps.take(k as int + 1) =~= deps.take(k as int).push(
                                deps[k as int],
                            ));
                            assert forall|nm: Seq<char>, p: Seq<char>|
                                seq_contains_dep(deps.take(k as int + 1), nm, p) implies (
                            seq_contains_dep(deps.take(k as int), nm, p) || (nm == deps[k as int].0
                                && p == deps[k as int].1)) by {
                                let x = choose|x: int|
                                    #![trigger deps.take(k as int + 1)[x]]
                                    0 <= x < deps.take(k as int + 1).len() && deps.take(
                                        k as int + 1,
                                    )[x].0 == nm && deps.take(k as int + 1)[x].1 == p;
                                if x < k {
                                    assert(deps.take(k as int)[x].0 == nm);
                                }
                            }
                            assert forall|nm: Seq<char>, p: Seq<char>|
                                (seq_contains_dep(deps.take(k as int), nm, p) || (nm == deps[
                                k as int].0 && p == deps[k as int].1)) implies seq_contains_dep(
                                deps.take(k as int + 1),
                                nm,
                                p,
                            ) by {
                                if seq_contains_dep(deps.take(k as int), nm, p) {
                                    let x = choose|x: int|
                                        #![trigger deps.take(k as int)[x]]
                                        0 <= x < deps.take(k as int).len() && deps.take(
                                            k as int,
                                        )[x].0 == nm && deps.take(k as int)[x].1 == p;
                                    assert(deps.take(k as int + 1)[x].0 == nm && deps.take(
                                        k as int + 1,
                                    )[x].1 == p);
                                } else {
                                    assert(deps.take(k as int + 1)[k as int].0 == nm && deps.take(
                                        k as int + 1,
                                    )[k as int].1 == p);
                                }
                            }
                            assert forall|nm: Seq<char>, p: Seq<char>|
                                #![trigger so_contains(shared_objects@, nm, p)]
                                so_contains(shared_objects@, nm, p) <==> (so_contains(
                                    pre_sos,
                                    nm,
                                    p,
                                ) || seq_contains_dep(deps.take(k as int + 1), nm, p)) by {
                                if so_contains(shared_objects@, nm, p) {
                                    assert(so_contains(mid_sos, nm, p) || (nm == so.name@ && p
                                        == so.path@));
                                    if so_contains(mid_sos, nm, p) {
                                        if !so_contains(pre_sos, nm, p) {
                                            assert(seq_contains_dep(deps.take(k as int), nm, p));
                                            assert(seq_contains_dep(
                                                deps.take(k as int + 1),
                                                nm,
                                                p,
                                            ));
                                        }
                                    } else {
                                        assert(nm == deps[k as int].0 && p == deps[k as int].1);
                                        assert(seq_contains_dep(deps.take(k as int + 1), nm, p));
                                    }
                                }
                                if so_contains(pre_sos, nm, p) {
                                    assert(so_contains(mid_sos, nm, p));
                                    assert(so_contains(shared_objects@, nm, p));
                                }
                                if seq_contains_dep(deps.take(k as int + 1), nm, p) {
                                    assert(seq_contains_dep(deps.take(k as int), nm, p) || (nm
                                        == deps[k as int].0 && p == deps[k as int].1));
                                    if seq_contains_dep(deps.take(k as int), nm, p) {
                                        assert(so_contains(mid_sos, nm, p));
                                    } else {
                                        assert(nm == so.name@ && p == so.path@);
                                    }
                                    assert(so_contains(shared_objects@, nm, p));
                                }
                            }
                        }
                        k = k + 1;
                    }
                    proof {
                        assert(deps.take(m as int) =~= deps);
                        assert forall|nm: Seq<char>, p: Seq<char>|
                            #![trigger so_contains(shared_objects@, nm, p)]
                            so_contains(shared_objects@, nm, p) implies self.plan_dep_upto(
                            bom_file_path@,
                            lister_outputs@,
                            config.musl_lib_names@,
                            config.musl_lib_root@,
                            i as int + 1,
                            nm,
                            p,
                        ) by {
                            if so_contains(pre_sos, nm, p) {
                                assert(so_contains(shared_objects@, nm, p));
                                let j = choose|j: int|
                                    0 <= j < i && j < self.spec_files().len() && (
                                    #[trigger] self.spec_files()[j]).spec_is_target_executable()
                                        && seq_contains_dep(
                                        deps_of_text(
                                            config.musl_lib_names@,
                                            config.musl_lib_root@,
                                            lister_text_for(
                                                lister_outputs@,
                                                resolve_spec(
                                                    bom_file_path@,
                                                    self.spec_files()[j].path@,
                                                ),
                                            ),
                                        ),
                                        nm,
                                        p,
                                    );
                                assert(0 <= j < i + 1);
                            } else {
                                assert(seq_contains_dep(deps, nm, p));
                                assert(self.spec_files()[i as int].spec_is_target_executable());
                            }
                        }
                        assert forall|nm: Seq<char>, p: Seq<char>|
                            #![trigger so_contains(shared_objects@, nm, p)]
                            self.plan_dep_upto(
                                bom_file_path@,
                                lister_outputs@,
                                config.musl_lib_names@,
                                config.musl_lib_root@,
                                i as int + 1,
                                nm,
                                p,
                            ) implies so_contains(shared_objects@, nm, p) by {
                            let j = choose|j: int|
                                0 <= j < i + 1 && j < self.spec_files().len() && (
                                #[trigger] self.spec_files()[j]).spec_is_target_executable()
                                    && seq_contains_dep(
                                    deps_of_text(
                                        config.musl_lib_names@,
                                        config.musl_lib_root@,
                                        lister_text_for(
                                            lister_outputs@,
                                            resolve_spec(bom_file_path@, self.spec_files()[j].path@),
                                        ),
                                    ),
                                    nm,
                                    p,
                                );
                            if j < i {
                                assert(so_contains(pre_sos, nm, p));
                                assert(so_contains(shared_objects@, nm, p));
                            } else {
                                assert(seq_contains_dep(deps, nm, p));
                                assert(seq_contains_dep(deps.take(m as int), nm, p));
                            }
                        }
                    }
                } else {
                    proof {
                        assert forall|nm: Seq<char>, p: Seq<char>|
                            #![trigger so_contains(shared_objects@, nm, p)]
                            so_contains(shared_objects@, nm, p) <==> self.plan_dep_upto(
                                bom_file_path@,
                                lister_outputs@,
                                config.musl_lib_names@,
                                config.musl_lib_root@,
                                i as int + 1,
                                nm,
                                p,
                            ) by {
                            if self.plan_dep_upto(
                                bom_file_path@,
                                lister_outputs@,
                                config.musl_lib_names@,
                                config.musl_lib_root@,
                                i as int + 1,
                                nm,
                                p,
                            ) {
                                let j = choose|j: int|
                                    0 <= j < i + 1 && j < self.spec_files().len() && (
                                    #[trigger] self.spec_files()[j]).spec_is_target_executable()
                                        && seq_contains_dep(
                                        deps_of_text(
                                            config.musl_lib_names@,
                                            config.musl_lib_root@,
                                            lister_text_for(
                                                lister_outputs@,
                                                resolve_spec(
                                                    bom_file_path@,
                                                    self.spec_files()[j].path@,
                                                ),
                                            ),
                                        ),
                                        nm,
                                        p,
                                    );
                                assert(j < i);
                                assert(so_contains(shared_objects@, nm, p));
                            }
                            if so_contains(shared_objects@, nm, p) {
                                assert(self.plan_dep_upto(
                                    bom_file_path@,
                                    lister_outputs@,
                                    config.musl_lib_names@,
                                    config.musl_lib_root@,
                                    i as int,
                                    nm,
                                    p,
                                ));
                            }
                        }
                    }
                }
                i = i + 1;
            }
        }
        proof {
            if self.files is None {
                assert(self.spec_files().len() == 0);
            }
            assert forall|a: Seq<char>, b: Seq<char>|
                #![trigger seq_contains_pair(copy_files@, a, b)]
                seq_contains_pair(copy_files@, a, b) <==> (exists|j: int|
                    0 <= j < self.spec_files().len() && a == resolve_spec(
                        bom_file_path@,
                        (#[trigger] self.spec_files()[j]).path@,
                    ) && b == output_path_spec(
                        self.spec_files()[j].path@,
                        resolve_spec(bom_file_path@, self.spec_files()[j].output_path@),
                    ))
            by {}
            assert forall|nm: Seq<char>, p: Seq<char>|
                #![trigger so_contains(shared_objects@, nm, p)]
                so_contains(shared_objects@, nm, p) <==> self.plan_dep(
                    bom_file_path@,
                    lister_outputs@,
                    config.musl_lib_names@,
                    config.musl_lib_root@,
                    nm,
                    p,
                ) by {}
        }
        if let Some(directories) = &self.directories {
            let n = directories.len();
            let mut i: usize = 0;
            while i < n
                invariant
                    i <= n,
                    n == directories@.len(),
                    directories@ == self.spec_directories(),
                    strings_unique(create_dirs@),
                    pairs_unique(copy_dirs@),
                    forall|x: Seq<char>|
                        #![trigger seq_contains_string(create_dirs@, x)]
                        seq_contains_string(create_dirs@, x) <==> exists|j: int|
                            0 <= j < i && (#[trigger] self.spec_directories()[j]).path is None && x
                                == resolve_spec(
                                bom_file_path@,
                                self.spec_directories()[j].output_path@,
                            ),
                    forall|a: Seq<char>, b: Seq<char>|
                        #![trigger seq_contains_pair(copy_dirs@, a, b)]
                        seq_contains_pair(copy_dirs@, a, b) <==> exists|j: int|
                            0 <= j < i && (#[trigger] self.spec_directories()[j]).path is Some && a
                                == resolve_spec(
                                bom_file_path@,
                                self.spec_directories()[j].path.unwrap()@,
                            ) && b == resolve_spec(
                                bom_file_path@,
                                self.spec_directories()[j].output_path@,
                            ),
                decreases n - i,
            {
                let ghost pre_creates = create_dirs@;
                let ghost pre_copies = copy_dirs@;
                let absolute_to_path = convert_to_relative_path_from_current_dir(
                    bom_file_path,
                    directories[i].output_path.as_str(),
                );
                let ghost to_v = absolute_to_path@;
                if let Some(path) = &directories[i].path {
                    let absolute_from_path = convert_to_relative_path_from_current_dir(
                        bom_file_path,
                        path.as_str(),
                    );
                    let ghost from_v = absolute_from_path@;
                    insert_pair_dedup(&mut copy_dirs, absolute_from_path, absolute_to_path);
                    proof {
                        assert forall|a: Seq<char>, b: Seq<char>|
                            #![trigger seq_contains_pair(copy_dirs@, a, b)]
                            seq_contains_pair(copy_dirs@, a, b) implies exists|j: int|
                            0 <= j < i + 1 && (#[trigger] self.spec_directories()[j]).path is Some
                                && a == resolve_spec(
                                bom_file_path@,
                                self.spec_directories()[j].path.unwrap()@,
                            ) && b == resolve_spec(
                                bom_file_path@,
                                self.spec_directories()[j].output_path@,
                            ) by {
                            if seq_contains_pair(pre_copies, a, b) {
                                let j = choose|j: int|
                                    0 <= j < i && (#[trigger] self.spec_directories()[j]).path
                                        is Some && a == resolve_spec(
                                        bom_file_path@,
                                        self.spec_directories()[j].path.unwrap()@,
                                    ) && b == resolve_spec(
                                        bom_file_path@,
                                        self.spec_directories()[j].output_path@,
                                    );
                                assert(0 <= j < i + 1);
                            } else {
                                assert(a == from_v && b == to_v);
                                assert(self.spec_directories()[i as int].path is Some);
                            }
                        }
                        assert forall|a: Seq<char>, b: Seq<char>|
                            #![trigger seq_contains_pair(copy_dirs@, a, b)]
                            (exists|j: int|
                                0 <= j < i + 1 && (#[trigger] self.spec_directories()[j]).path
                                    is Some && a == resolve_spec(
                                    bom_file_path@,
                                    self.spec_directories()[j].path.unwrap()@,
                                ) && b == resolve_spec(
                                    bom_file_path@,
                                    self.spec_directories()[j].output_path@,
                                )) implies seq_contains_pair(copy_dirs@, a, b) by {
                            let j = choose|j: int|
                                0 <= j < i + 1 && (#[trigger] self.spec_directories()[j]).path
                                    is Some && a == resolve_spec(
                                    bom_file_path@,
                                    self.spec_directories()[j].path.unwrap()@,
                                ) && b == resolve_spec(
                                    bom_file_path@,
                                    self.spec_directories()[j].output_path@,
                                );
                            if j < i {
                                assert(seq_contains_pair(pre_copies, a, b));
                            } else {
                                assert(a == from_v && b == to_v);
                            }
                        }
                    }
                } else {
                    insert_string_dedup(&mut create_dirs, absolute_to_path);
                    proof {
                        assert forall|x: Seq<char>|
                            #![trigger seq_contains_string(create_dirs@, x)]
                            seq_contains_string(create_dirs@, x) implies exists|j: int|
                            0 <= j < i + 1 && (#[trigger] self.spec_directories()[j]).path is None
                                && x == resolve_spec(
                                bom_file_path@,
                                self.spec_directories()[j].output_path@,
                            ) by {
                            if seq_contains_string(pre_creates, x) {
                                let j = choose|j: int|
                                    0 <= j < i && (#[trigger] self.spec_directories()[j]).path
                                        is None && x == resolve_spec(
                                        bom_file_path@,
                                        self.spec_directories()[j].output_path@,
                                    );
                                assert(0 <= j < i + 1);
                            } else {
                                assert(x == to_v);
                                assert(self.spec_directories()[i as int].path is None);
                            }
                        }
                        assert forall|x: Seq<char>|
                            #![trigger seq_contains_string(create_dirs@, x)]
                            (exists|j: int|
                                0 <= j < i + 1 && (#[trigger] self.spec_directories()[j]).path
                                    is None && x == resolve_spec(
                                    bom_file_path@,
                                    self.spec_directories()[j].output_path@,
                                )) implies seq_contains_string(create_dirs@, x) by {
                            let j = choose|j: int|
                                0 <= j < i + 1 && (#[trigger] self.spec_directories()[j]).path
                                    is None && x == resolve_spec(
                                    bom_file_path@,
                                    self.spec_directories()[j].output_path@,
                                );
                            if j < i {
                                assert(seq_contains_string(pre_creates, x));
                            } else {
                                assert(x == to_v);
                            }
                        }
                    }
                }
                i = i + 1;
            }
        }
        proof {
            if self.directories is None {
                assert(self.spec_directories().len() == 0);
            }
        }
        let ghost direct_pairs = copy_files@;
        let m = shared_objects.len();
        let mut k: usize = 0;
        while k < m
            invariant
                k <= m,
                m == shared_objects@.len(),
                so_unique(shared_objects@),
                forall|nm: Seq<char>, p: Seq<char>|
                    so_contains(shared_objects@, nm, p) <==> self.plan_dep(
                        bom_file_path@,
                        lister_outputs@,
                        config.musl_lib_names@,
                        config.musl_lib_root@,
                        nm,
                        p,
                    ),
                forall|j: int|
                    0 <= j < shared_objects@.len() ==> (#[trigger] shared_objects@[j]).output_directory@
                        == config.shared_object_output_directory@,
                pairs_unique(copy_files@),
                forall|a: Seq<char>, b: Seq<char>|
                    #![trigger seq_contains_pair(copy_files@, a, b)]
                    seq_contains_pair(copy_files@, a, b) <==> (seq_contains_pair(direct_pairs, a, b)
                        || exists|j: int|
                        0 <= j < k && a == (#[trigger] shared_objects@[j]).path@ && b
                            == output_path_spec(a, config.shared_object_output_directory@)),
                forall|a: Seq<char>, b: Seq<char>|
                    #![trigger seq_contains_pair(direct_pairs, a, b)]
                    seq_contains_pair(direct_pairs, a, b) ==> seq_contains_pair(copy_files@, a, b),
            decreases m - k,
        {
            let ghost pre_pairs = copy_files@;
            let so_path = shared_objects[k].path.clone();
            let output_path = get_output_path(
                shared_objects[k].path.as_str(),
                shared_objects[k].output_directory.as_str(),
            );
            let ghost from_v = so_path@;
            let ghost to_v = output_path@;
            insert_pair_dedup(&mut copy_files, so_path, output_path);
            proof {
                assert(to_v == output_path_spec(from_v, config.shared_object_output_directory@));
                assert forall|a: Seq<char>, b: Seq<char>|
                    #![trigger seq_contains_pair(copy_files@, a, b)]
                    seq_contains_pair(copy_files@, a, b) implies (seq_contains_pair(
                    direct_pairs,
                    a,
                    b,
                ) || exists|j: int|
                    0 <= j < k + 1 && a == (#[trigger] shared_objects@[j]).path@ && b
                        == output_path_spec(a, config.shared_object_output_directory@)) by {
                    if seq_contains_pair(pre_pairs, a, b) {
                        if !seq_contains_pair(direct_pairs, a, b) {
                            let j = choose|j: int|
                                0 <= j < k && a == (#[trigger] shared_objects@[j]).path@ && b
                                    == output_path_spec(a, config.shared_object_output_directory@);
                            assert(0 <= j < k + 1);
                        }
                    } else {
                        assert(a == from_v && b == to_v);
                        assert(a == shared_objects@[k as int].path@);
                    }
                }
                assert forall|a: Seq<char>, b: Seq<char>|
                    #![trigger seq_contains_pair(copy_files@, a, b)]
                    (seq_contains_pair(direct_pairs, a, b) || exists|j: int|
                        0 <= j < k + 1 && a == (#[trigger] shared_objects@[j]).path@ && b
                            == output_path_spec(
                            a,
                            config.shared_object_output_directory@,
                        )) implies seq_contains_pair(copy_files@, a, b) by {
                    if !seq_contains_pair(direct_pairs, a, b) {
                        let j = choose|j: int|
                            0 <= j < k + 1 && a == (#[trigger] shared_objects@[j]).path@ && b
                                == output_path_spec(a, config.shared_object_output_directory@);
                        if j < k {
                            assert(seq_contains_pair(pre_pairs, a, b));
                        } else {
                            assert(a == from_v && b == to_v);
                        }
                    } else {
                        assert(seq_contains_pair(pre_pairs, a, b));
                    }
                }
                assert forall|a: Seq<char>, b: Seq<char>|
                    #![trigger seq_contains_pair(direct_pairs, a, b)]
                    seq_contains_pair(direct_pairs, a, b) implies seq_contains_pair(
                    copy_files@,
                    a,
                    b,
                ) by {
                    assert(seq_contains_pair(pre_pairs, a, b));
                }
            }
            k = k + 1;
        }
        proof {
            assert forall|a: Seq<char>, b: Seq<char>|
                #![trigger seq_contains_pair(copy_files@, a, b)]
                seq_contains_pair(copy_files@, a, b) <==> self.plan_copies_file(
                    bom_file_path@,
                    lister_outputs@,
                    config.musl_lib_names@,
                    config.musl_lib_root@,
                    config.shared_object_output_directory@,
                    a,
                    b,
                ) by {
                if seq_contains_pair(copy_files@, a, b) {
                    if !seq_contains_pair(direct_pairs, a, b) {
                        let j = choose|j: int|
                            0 <= j < m && a == (#[trigger] shared_objects@[j]).path@ && b
                                == output_path_spec(a, config.shared_object_output_directory@);
                        assert(so_contains(shared_objects@, shared_objects@[j].name@, a));
                        assert(self.plan_dep(
                            bom_file_path@,
                            lister_outputs@,
                            config.musl_lib_names@,
                            config.musl_lib_root@,
                            shared_objects@[j].name@,
                            a,
                        ));
                    }
                }
                if self.plan_copies_file(
                    bom_file_path@,
                    lister_outputs@,
                    config.musl_lib_names@,
                    config.musl_lib_root@,
                    config.shared_object_output_directory@,
                    a,
                    b,
                ) {
                    if seq_contains_pair(direct_pairs, a, b) {
                        assert(seq_contains_pair(copy_files@, a, b));
                    } else {
                        let nm = choose|nm: Seq<char>|
                            self.plan_dep(
                                bom_file_path@,
                                lister_outputs@,
                                config.musl_lib_names@,
                                config.musl_lib_root@,
                                nm,
                                a,
                            );
                        assert(so_contains(shared_objects@, nm, a));
                        let j = choose|j: int|
                            0 <= j < shared_objects@.len() && shared_objects@[j].name@ == nm
                                && shared_objects@[j].path@ == a;
                        assert(seq_contains_pair(copy_files@, a, b));
                    }
                }
            }
        }
        (create_dirs, copy_dirs, copy_files)
    }
}

} // verus!
