//! Consistency validation: confirming that every file, directory and
//! included manifest a manifest references exists, and that every
//! hash-checked file still has its recorded content. The filesystem is
//! consulted through an `FsModel` value the caller assembles: which files
//! exist with which current fingerprint, and which directories exist.
//! Checking is first-error-wins, in the order includes, directories, files.

use vstd::prelude::*;

use crate::closure::lookup_bom_spec;
use crate::closure::lookup_bom;
use crate::closure::reachable_from;
use crate::model::BomError;
use crate::model::BomFile;
use crate::model::Directory;
use crate::model::NormalFile;
use crate::paths::convert_to_relative_path_from_current_dir;
use crate::paths::resolve_spec;
use crate::table::lookup_spec;
use crate::table::lookup_table;
use crate::table::seq_contains_string;
use crate::table::string_eq;
use crate::table::vec_contains_string;

verus! {

/// What the caller observed of the filesystem: the regular files that
/// exist, each with its current content fingerprint, and the directories
/// that exist. Validation decides against this value alone.
pub struct FsModel {
    pub files: Vec<(String, String)>,
    pub dirs: Vec<String>,
}

impl FsModel {
    /// Whether a regular file exists at `p`.
    pub open spec fn spec_file_exists(self, p: Seq<char>) -> bool {
        lookup_spec(self.files@, p) is Some
    }

    /// The current content fingerprint of the file at `p`, when it exists.
    pub open spec fn spec_file_hash(self, p: Seq<char>) -> Option<Seq<char>> {
        lookup_spec(self.files@, p)
    }

    /// Whether a directory exists at `p`.
    pub open spec fn spec_dir_exists(self, p: Seq<char>) -> bool {
        seq_contains_string(self.dirs@, p)
    }

    /// Whether a regular file exists at the given path.
    pub fn check_file_exist(&self, file_name: &str) -> (r: bool)
        ensures
            r == self.spec_file_exists(file_name@),
    {
        let key = String::from_str(file_name);
        match lookup_table(&self.files, &key) {
            Some(_) => true,
            None => false,
        }
    }

    /// Whether a directory exists at the given path.
    pub fn check_directory_exist(&self, directory_name: &str) -> (r: bool)
        ensures
            r == self.spec_dir_exists(directory_name@),
    {
        let key = String::from_str(directory_name);
        vec_contains_string(&self.dirs, &key)
    }
}

impl NormalFile {
    /// Whether this entry's source file exists, resolved relative to the
    /// manifest at `reference`.
    pub open spec fn spec_exists_ok(self, fs: FsModel, reference: Seq<char>) -> bool {
        fs.spec_file_exists(resolve_spec(reference, self.path@))
    }

    /// Whether this entry's recorded fingerprint, if any, matches the
    /// file's current content.
    pub open spec fn spec_hash_ok(self, fs: FsModel, reference: Seq<char>) -> bool {
        match self.hash {
            Some(h) => fs.spec_file_hash(resolve_spec(reference, self.path@)) == Some(h@),
            None => true,
        }
    }

    /// Whether this entry passes validation.
    pub open spec fn spec_valid(self, fs: FsModel, reference: Seq<char>) -> bool {
        self.spec_exists_ok(fs, reference) && self.spec_hash_ok(fs, reference)
    }

    /// Validates this entry: the source file must exist, and when a
    /// fingerprint is recorded the file's current content must match it.
    /// A hash mismatch carries the freshly observed fingerprint.
    pub fn check_validity(&self, reference_file_path: &str, fs: &FsModel) -> (r: Result<
        (),
        BomError,
    >)
        ensures
            r is Ok <==> self.spec_valid(*fs, reference_file_path@),
            match r {
                Ok(_) => true,
                Err(e) => match e {
                    BomError::MissingFile(q) => !self.spec_exists_ok(*fs, reference_file_path@)
                        && q@ == resolve_spec(reference_file_path@, self.path@),
                    BomError::HashMismatch(q, h) => {
                        &&& self.spec_exists_ok(*fs, reference_file_path@)
                        &&& !self.spec_hash_ok(*fs, reference_file_path@)
                        &&& q@ == resolve_spec(reference_file_path@, self.path@)
                        &&& Some(h@) == fs.spec_file_hash(
                            resolve_spec(reference_file_path@, self.path@),
                        )
                    },
                    _ => false,
                },
            },
    {
        let file_path = convert_to_relative_path_from_current_dir(
            reference_file_path,
            self.path.as_str(),
        );
        let current = lookup_table(&fs.files, &file_path);
        match current {
            None => Err(BomError::MissingFile(file_path)),
            Some(actual) => {
                if let Some(h) = &self.hash {
                    if !string_eq(actual, h) {
                        let observed = actual.clone();
                        return Err(BomError::HashMismatch(file_path, observed));
                    }
                }
                Ok(())
            },
        }
    }
}

impl Directory {
    /// Whether this entry passes validation: a sourced directory must
    /// exist; an entry without a source (an empty directory to create) has
    /// nothing to check.
    pub open spec fn spec_valid(self, fs: FsModel, reference: Seq<char>) -> bool {
        match self.path {
            Some(p) => fs.spec_dir_exists(resolve_spec(reference, p@)),
            None => true,
        }
    }

    /// Validates this entry against the observed filesystem.
    pub fn check_validity(&self, reference_file_path: &str, fs: &FsModel) -> (r: Result<
        (),
        BomError,
    >)
        ensures
            r is Ok <==> self.spec_valid(*fs, reference_file_path@),
            match r {
                Ok(_) => true,
                Err(e) => match e {
                    BomError::MissingDirectory(q) => self.path is Some && q@ == resolve_spec(
                        reference_file_path@,
                        self.path.unwrap()@,
                    ),
                    _ => false,
                },
            },
    {
        if let Some(directory_name) = &self.path {
            let directory_path = convert_to_relative_path_from_current_dir(
                reference_file_path,
                directory_name.as_str(),
            );
            if !fs.check_directory_exist(directory_path.as_str()) {
                return Err(BomError::MissingDirectory(directory_path));
            }
        }
        Ok(())
    }
}

impl BomFile {
    /// Whether the include entry at position `k` names an existing file.
    pub open spec fn spec_include_ok(self, fs: FsModel, reference: Seq<char>, k: int) -> bool {
        fs.spec_file_exists(resolve_spec(reference, self.spec_includes()[k]@))
    }

    /// Whether every include entry names an existing file.
    pub open spec fn spec_includes_ok(self, fs: FsModel, reference: Seq<char>) -> bool {
        forall|k: int|
            0 <= k < self.spec_includes().len() ==> self.spec_include_ok(fs, reference, k)
    }

    /// Whether every directory entry passes validation.
    pub open spec fn spec_directories_ok(self, fs: FsModel, reference: Seq<char>) -> bool {
        forall|k: int|
            0 <= k < self.spec_directories().len() ==> (#[trigger] self.spec_directories()[k]).spec_valid(
                fs,
                reference,
            )
    }

    /// Whether every file entry passes validation.
    pub open spec fn spec_files_ok(self, fs: FsModel, reference: Seq<char>) -> bool {
        forall|k: int|
            0 <= k < self.spec_files().len() ==> (#[trigger] self.spec_files()[k]).spec_valid(
                fs,
                reference,
            )
    }

    /// Whether this manifest passes validation standalone, relative to its
    /// own location at `reference`.
    pub open spec fn spec_valid(self, fs: FsModel, reference: Seq<char>) -> bool {
        &&& self.spec_includes_ok(fs, reference)
        &&& self.spec_directories_ok(fs, reference)
        &&& self.spec_files_ok(fs, reference)
    }

    /// Validates this manifest standalone: every include must name an
    /// existing file, every sourced directory must exist, every file must
    /// exist with its recorded content. Checks run in that order, input
    /// order within each list, and the first failure is returned.
    pub fn check_validity(&self, bom_file_path: &str, fs: &FsModel) -> (r: Result<(), BomError>)
        ensures
            r is Ok <==> self.spec_valid(*fs, bom_file_path@),
            match r {
                Ok(_) => true,
                Err(e) => match e {
                    BomError::MissingInclude(q) => exists|k: int|
                        {
                            &&& 0 <= k < self.spec_includes().len()
                            &&& !self.spec_include_ok(*fs, bom_file_path@, k)
                            &&& forall|j: int| 0 <= j < k ==> self.spec_include_ok(*fs, bom_file_path@, j)
                            &&& q@ == resolve_spec(bom_file_path@, self.spec_includes()[k]@)
                        },
                    BomError::MissingDirectory(q) => self.spec_includes_ok(*fs, bom_file_path@)
                        && exists|k: int|
                        {
                            &&& 0 <= k < self.spec_directories().len()
                            &&& !(#[trigger] self.spec_directories()[k]).spec_valid(
                                *fs,
                                bom_file_path@,
                            )
                            &&& forall|j: int|
                                0 <= j < k ==> (#[trigger] self.spec_directories()[j]).spec_valid(
                                    *fs,
                                    bom_file_path@,
                                )
                            &&& self.spec_directories()[k].path is Some
                            &&& q@ == resolve_spec(
                                bom_file_path@,
                                self.spec_directories()[k].path.unwrap()@,
                            )
                        },
                    BomError::MissingFile(q) => self.spec_includes_ok(*fs, bom_file_path@)
                        && self.spec_directories_ok(*fs, bom_file_path@) && exists|k: int|
                        {
                            &&& 0 <= k < self.spec_files().len()
                            &&& !(#[trigger] self.spec_files()[k]).spec_valid(*fs, bom_file_path@)
                            &&& forall|j: int|
                                0 <= j < k ==> (#[trigger] self.spec_files()[j]).spec_valid(
                                    *fs,
                                    bom_file_path@,
                                )
                            &&& !self.spec_files()[k].spec_exists_ok(*fs, bom_file_path@)
                            &&& q@ == resolve_spec(bom_file_path@, self.spec_files()[k].path@)
                        },
                    BomError::HashMismatch(q, h) => self.spec_includes_ok(*fs, bom_file_path@)
                        && self.spec_directories_ok(*fs, bom_file_path@) && exists|k: int|
                        {
                            &&& 0 <= k < self.spec_files().len()
                            &&& !(#[trigger] self.spec_files()[k]).spec_valid(*fs, bom_file_path@)
                            &&& forall|j: int|
                                0 <= j < k ==> (#[trigger] self.spec_files()[j]).spec_valid(
                                    *fs,
                                    bom_file_path@,
                                )
                            &&& self.spec_files()[k].spec_exists_ok(*fs, bom_file_path@)
                            &&& !self.spec_files()[k].spec_hash_ok(*fs, bom_file_path@)
                            &&& q@ == resolve_spec(bom_file_path@, self.spec_files()[k].path@)
                            &&& Some(h@) == fs.spec_file_hash(
                                resolve_spec(bom_file_path@, self.spec_files()[k].path@),
                            )
                        },
                    _ => false,
                },
            },
    {
        if let Some(incs) = &self.includes {
            let n = incs.len();
            let mut k: usize = 0;
            while k < n
                invariant
                    k <= n,
                    n == incs@.len(),
                    incs@ == self.spec_includes(),
                    forall|j: int| 0 <= j < k ==> self.spec_include_ok(*fs, bom_file_path@, j),
                decreases n - k,
            {
                let include_filename = convert_to_relative_path_from_current_dir(
                    bom_file_path,
                    incs[k].as_str(),
                );
                if !fs.check_file_exist(include_filename.as_str()) {
                    proof {
                        assert(!self.spec_include_ok(*fs, bom_file_path@, k as int));
                        assert(include_filename@ == resolve_spec(
                            bom_file_path@,
                            self.spec_includes()[k as int]@,
                        ));
                        assert(!self.spec_includes_ok(*fs, bom_file_path@));
                    }
                    return Err(BomError::MissingInclude(include_filename));
                }
                k = k + 1;
            }
        }
        if let Some(directories) = &self.directories {
            let n = directories.len();
            let mut k: usize = 0;
            while k < n
                invariant
                    k <= n,
                    n == directories@.len(),
                    directories@ == self.spec_directories(),
                    self.spec_includes_ok(*fs, bom_file_path@),
                    forall|j: int|
                        0 <= j < k ==> (#[trigger] self.spec_directories()[j]).spec_valid(
                            *fs,
                            bom_file_path@,
                        ),
                decreases n - k,
            {
                let checked = directories[k].check_validity(bom_file_path, fs);
                if let Err(e) = checked {
                    proof {
                        assert(!(self.spec_directories()[k as int]).spec_valid(
                            *fs,
                            bom_file_path@,
                        ));
                        assert(!self.spec_directories_ok(*fs, bom_file_path@));
                    }
                    return Err(e);
                }
                k = k + 1;
            }
        }
        if let Some(files) = &self.files {
            let n = files.len();
            let mut k: usize = 0;
            while k < n
                invariant
                    k <= n,
                    n == files@.len(),
                    files@ == self.spec_files(),
                    self.spec_includes_ok(*fs, bom_file_path@),
                    self.spec_directories_ok(*fs, bom_file_path@),
                    forall|j: int|
                        0 <= j < k ==> (#[trigger] self.spec_files()[j]).spec_valid(
                            *fs,
                            bom_file_path@,
                        ),
                decreases n - k,
            {
                let checked = files[k].check_validity(bom_file_path, fs);
                if let Err(e) = checked {
                    proof {
                        assert(!(self.spec_files()[k as int]).spec_valid(*fs, bom_file_path@));
                        assert(!self.spec_files_ok(*fs, bom_file_path@));
                    }
                    return Err(e);
                }
                k = k + 1;
            }
        }
        Ok(())
    }

    /// Whether this manifest and every manifest in its include closure pass
    /// validation, each against its own location.
    pub open spec fn spec_closure_valid(
        self,
        fs: FsModel,
        path: Seq<char>,
        loaded: Seq<(String, BomFile)>,
    ) -> bool {
        &&& self.spec_valid(fs, path)
        &&& forall|q: Seq<char>|
            reachable_from(loaded, self.spec_root_includes(path), q) ==> lookup_bom_spec(
                loaded,
                q,
            ) is Some
        &&& forall|q: Seq<char>|
            reachable_from(loaded, self.spec_root_includes(path), q)
                ==> match lookup_bom_spec(loaded, q) {
                Some(b) => b.spec_valid(fs, q),
                None => true,
            }
    }

    /// Validates this manifest and, independently, every manifest in its
    /// include closure, each standalone against its own location. The root
    /// is checked first; a manifest in the closure that is not in the
    /// loaded table is a load error.
    pub fn check_validity_recursive(
        &self,
        bom_file_path: &str,
        loaded: &Vec<(String, BomFile)>,
        fs: &FsModel,
    ) -> (r: Result<(), BomError>)
        ensures
            r is Ok <==> self.spec_closure_valid(*fs, bom_file_path@, loaded@),
            match r {
                Ok(_) => true,
                Err(e) => match e {
                    BomError::LoadError(p) => reachable_from(
                        loaded@,
                        self.spec_root_includes(bom_file_path@),
                        p@,
                    ) && lookup_bom_spec(loaded@, p@) is None,
                    _ => !self.spec_valid(*fs, bom_file_path@) || exists|q: Seq<char>|
                        {
                            &&& reachable_from(loaded@, self.spec_root_includes(bom_file_path@), q)
                            &&& lookup_bom_spec(loaded@, q) is Some
                            &&& !lookup_bom_spec(loaded@, q).unwrap().spec_valid(*fs, q)
                        },
                },
            },
    {
        let own = self.check_validity(bom_file_path, fs);
        if let Err(e) = own {
            return Err(e);
        }
        let closure = self.get_included_bom_files(bom_file_path, loaded);
        let include_files = match closure {
            Err(e) => {
                return Err(e);
            },
            Ok(v) => v,
        };
        let n = include_files.len();
        let mut k: usize = 0;
        while k < n
            invariant
                k <= n,
                n == include_files@.len(),
                self.spec_valid(*fs, bom_file_path@),
                forall|x: Seq<char>|
                    seq_contains_string(include_files@, x) <==> reachable_from(
                        loaded@,
                        self.spec_root_includes(bom_file_path@),
                        x,
                    ),
                forall|x: Seq<char>|
                    reachable_from(loaded@, self.spec_root_includes(bom_file_path@), x)
                        ==> lookup_bom_spec(loaded@, x) is Some,
                forall|j: int|
                    0 <= j < k ==> match lookup_bom_spec(
                        loaded@,
                        (#[trigger] include_files@[j])@,
                    ) {
                        Some(b) => b.spec_valid(*fs, include_files@[j]@),
                        None => true,
                    },
            decreases n - k,
        {
            let q = &include_files[k];
            proof {
                assert(seq_contains_string(include_files@, q@)) by {
                    assert(include_files@[k as int]@ == q@);
                }
            }
            let found = lookup_bom(loaded, q);
            match found {
                None => {
                    proof {
                        assert(false);
                    }
                    return Err(BomError::LoadError(String::new()));
                },
                Some(bom) => {
                    let checked = bom.check_validity(q.as_str(), fs);
                    if let Err(e) = checked {
                        proof {
                            assert(reachable_from(
                                loaded@,
                                self.spec_root_includes(bom_file_path@),
                                q@,
                            ));
                        }
                        return Err(e);
                    }
                },
            }
            k = k + 1;
        }
        proof {
            assert forall|q: Seq<char>|
                reachable_from(loaded@, self.spec_root_includes(bom_file_path@), q) implies match
                lookup_bom_spec(loaded@, q) {
                Some(b) => b.spec_valid(*fs, q),
                None => true,
            } by {
                assert(seq_contains_string(include_files@, q));
                let j = choose|j: int|
                    0 <= j < include_files@.len() && include_files@[j]@ == q;
            }
        }
        Ok(())
    }
}

} // verus!
