//! Building a manifest from a set of authoring inputs: plain files,
//! directories, executables to scan for dependencies, and manifests to
//! include. Content fingerprints are optional; when asked for, the caller
//! supplies them in a path-keyed table, having hashed the files itself.

use vstd::prelude::*;

use crate::model::BomFile;
use crate::paths::output_path_spec;
use crate::table::lookup_spec;
use crate::table::lookup_table;

verus! {

/// The inputs a manifest is generated from: where staged entries land
/// (`output_directory`), where the manifest itself is written
/// (`output_filename`), the files, directories and scan-target executables
/// to list, the manifests to include, and whether to record content
/// fingerprints.
pub struct GenerateBomOption {
    pub output_directory: String,
    pub output_filename: String,
    pub input_filenames: Vec<String>,
    pub input_directories: Vec<String>,
    pub executable_filenames: Vec<String>,
    pub include_bomfiles: Vec<String>,
    pub with_hash: bool,
}

impl GenerateBomOption {
    /// The fingerprint to record for `path`: the table's entry when
    /// fingerprints were asked for and the table has one, absent otherwise.
    pub open spec fn spec_hash_for(self, hashes: Seq<(String, String)>, path: Seq<char>) -> Option<
        Seq<char>,
    > {
        if self.with_hash {
            lookup_spec(hashes, path)
        } else {
            None
        }
    }

    /// Builds the manifest these options describe: one file entry per input
    /// file, then one per executable (flagged as a scan target), one
    /// directory entry per input directory, and one include edge per listed
    /// manifest. A file entry records the output directory as its
    /// destination; a directory entry's destination is its own base name
    /// under that directory. `hashes` maps an input path to its content
    /// fingerprint and is consulted only when fingerprints were asked for.
    pub fn to_bom_file(&self, hashes: &Vec<(String, String)>) -> (r: BomFile)
        ensures
            r.spec_files().len() == self.input_filenames@.len()
                + self.executable_filenames@.len(),
            forall|i: int|
                0 <= i < self.input_filenames@.len() ==> {
                    let f = #[trigger] r.spec_files()[i];
                    &&& f.path@ == self.input_filenames@[i]@
                    &&& f.target_executable is None
                    &&& f.output_path@ == self.output_directory@
                    &&& (match self.spec_hash_for(hashes@, f.path@) {
                        Some(h) => f.hash is Some && f.hash.unwrap()@ == h,
                        None => f.hash is None,
                    })
                },
            forall|i: int|
                0 <= i < self.executable_filenames@.len() ==> {
                    let f = #[trigger] r.spec_files()[self.input_filenames@.len() + i];
                    &&& f.path@ == self.executable_filenames@[i]@
                    &&& f.target_executable == Some(true)
                    &&& f.output_path@ == self.output_directory@
                    &&& (match self.spec_hash_for(hashes@, f.path@) {
                        Some(h) => f.hash is Some && f.hash.unwrap()@ == h,
                        None => f.hash is None,
                    })
                },
            r.spec_directories().len() == self.input_directories@.len(),
            forall|i: int|
                0 <= i < self.input_directories@.len() ==> {
                    let d = #[trigger] r.spec_directories()[i];
                    &&& d.path is Some
                    &&& d.path.unwrap()@ == self.input_directories@[i]@
                    &&& d.output_path@ == output_path_spec(d.path.unwrap()@, self.output_directory@)
                },
            r.spec_includes().len() == self.include_bomfiles@.len(),
            forall|i: int|
                0 <= i < self.include_bomfiles@.len() ==> (#[trigger] r.spec_includes()[i])@
                    == self.include_bomfiles@[i]@,
    {
        let mut bom_file = BomFile::new();
        let n_files = self.input_filenames.len();
        let mut i: usize = 0;
        while i < n_files
            invariant
                i <= n_files,
                n_files == self.input_filenames@.len(),
                bom_file.spec_files().len() == i,
                bom_file.spec_directories().len() == 0,
                bom_file.spec_includes().len() == 0,
                forall|j: int|
                    0 <= j < i ==> {
                        let f = #[trigger] bom_file.spec_files()[j];
                        &&& f.path@ == self.input_filenames@[j]@
                        &&& f.target_executable is None
                        &&& f.output_path@ == self.output_directory@
                        &&& (match self.spec_hash_for(hashes@, f.path@) {
                            Some(h) => f.hash is Some && f.hash.unwrap()@ == h,
                            None => f.hash is None,
                        })
                    },
            decreases n_files - i,
        {
            let filename = &self.input_filenames[i];
            let hash = self.hash_for(hashes, filename);
            let ghost pre = bom_file.spec_files();
            bom_file.add_file(filename.as_str(), None, self.output_directory.as_str(), hash);
            proof {
                assert forall|j: int|
                    0 <= j < pre.len() implies #[trigger] bom_file.spec_files()[j] == pre[j] by {
                    assert(bom_file.spec_files().take(pre.len() as int)[j]
                        == bom_file.spec_files()[j]);
                }
            }
            i = i + 1;
        }
        let n_dirs = self.input_directories.len();
        let mut i: usize = 0;
        while i < n_dirs
            invariant
                i <= n_dirs,
                n_dirs == self.input_directories@.len(),
                n_files == self.input_filenames@.len(),
                bom_file.spec_files().len() == n_files,
                bom_file.spec_directories().len() == i,
                bom_file.spec_includes().len() == 0,
                forall|j: int|
                    0 <= j < n_files ==> {
                        let f = #[trigger] bom_file.spec_files()[j];
                        &&& f.path@ == self.input_filenames@[j]@
                        &&& f.target_executable is None
                        &&& f.output_path@ == self.output_directory@
                        &&& (match self.spec_hash_for(hashes@, f.path@) {
                            Some(h) => f.hash is Some && f.hash.unwrap()@ == h,
                            None => f.hash is None,
                        })
                    },
                forall|j: int|
                    0 <= j < i ==> {
                        let d = #[trigger] bom_file.spec_directories()[j];
                        &&& d.path is Some
                        &&& d.path.unwrap()@ == self.input_directories@[j]@
                        &&& d.output_path@ == output_path_spec(
                            d.path.unwrap()@,
                            self.output_directory@,
                        )
                    },
            decreases n_dirs - i,
        {
            let directory = &self.input_directories[i];
            let ghost pre = bom_file.spec_directories();
            bom_file.add_directory(directory.as_str(), self.output_directory.as_str());
            proof {
                assert forall|j: int|
                    0 <= j < pre.len() implies #[trigger] bom_file.spec_directories()[j] == pre[j]
                by {
                    assert(bom_file.spec_directories().take(pre.len() as int)[j]
                        == bom_file.spec_directories()[j]);
                }
            }
            i = i + 1;
        }
        let n_execs = self.executable_filenames.len();
        let mut i: usize = 0;
        while i < n_execs
            invariant
                i <= n_execs,
                n_execs == self.executable_filenames@.len(),
                n_files == self.input_filenames@.len(),
                n_dirs == self.input_directories@.len(),
                bom_file.spec_files().len() == n_files + i,
                bom_file.spec_directories().len() == n_dirs,
                bom_file.spec_includes().len() == 0,
                forall|j: int|
                    0 <= j < n_files ==> {
                        let f = #[trigger] bom_file.spec_files()[j];
                        &&& f.path@ == self.input_filenames@[j]@
                        &&& f.target_executable is None
                        &&& f.output_path@ == self.output_directory@
                        &&& (match self.spec_hash_for(hashes@, f.path@) {
                            Some(h) => f.hash is Some && f.hash.unwrap()@ == h,
                            None => f.hash is None,
                        })
                    },
                forall|j: int|
                    0 <= j < i ==> {
                        let f = #[trigger] bom_file.spec_files()[n_files + j];
                        &&& f.path@ == self.executable_filenames@[j]@
                        &&& f.target_executable == Some(true)
                        &&& f.output_path@ == self.output_directory@
                        &&& (match self.spec_hash_for(hashes@, f.path@) {
                            Some(h) => f.hash is Some && f.hash.unwrap()@ == h,
                            None => f.hash is None,
                        })
                    },
                forall|j: int|
                    0 <= j < n_dirs ==> {
                        let d = #[trigger] bom_file.spec_directories()[j];
                        &&& d.path is Some
                        &&& d.path.unwrap()@ == self.input_directories@[j]@
                        &&& d.output_path@ == output_path_spec(
                            d.path.unwrap()@,
                            self.output_directory@,
                        )
                    },
            decreases n_execs - i,
        {
            let executable = &self.executable_filenames[i];
            let hash = self.hash_for(hashes, executable);
            let ghost pre = bom_file.spec_files();
            bom_file.add_file(
                executable.as_str(),
                Some(true),
                self.output_directory.as_str(),
                hash,
            );
            proof {
                assert forall|j: int|
                    0 <= j < pre.len() implies #[trigger] bom_file.spec_files()[j] == pre[j] by {
                    assert(bom_file.spec_files().take(pre.len() as int)[j]
                        == bom_file.spec_files()[j]);
                }
            }
            i = i + 1;
        }
        let n_incs = self.include_bomfiles.len();
        let mut i: usize = 0;
        while i < n_incs
            invariant
                i <= n_incs,
                n_incs == self.include_bomfiles@.len(),
                n_files == self.input_filenames@.len(),
                n_dirs == self.input_directories@.len(),
                n_execs == self.executable_filenames@.len(),
                bom_file.spec_files().len() == n_files + n_execs,
                bom_file.spec_directories().len() == n_dirs,
                bom_file.spec_includes().len() == i,
                forall|j: int|
                    0 <= j < n_files ==> {
                        let f = #[trigger] bom_file.spec_files()[j];
                        &&& f.path@ == self.input_filenames@[j]@
                        &&& f.target_executable is None
                        &&& f.output_path@ == self.output_directory@
                        &&& (match self.spec_hash_for(hashes@, f.path@) {
                            Some(h) => f.hash is Some && f.hash.unwrap()@ == h,
                            None => f.hash is None,
                        })
                    },
                forall|j: int|
                    0 <= j < n_execs ==> {
                        let f = #[trigger] bom_file.spec_files()[n_files + j];
                        &&& f.path@ == self.executable_filenames@[j]@
                        &&& f.target_executable == Some(true)
                        &&& f.output_path@ == self.output_directory@
                        &&& (match self.spec_hash_for(hashes@, f.path@) {
                            Some(h) => f.hash is Some && f.hash.unwrap()@ == h,
                            None => f.hash is None,
                        })
                    },
                forall|j: int|
                    0 <= j < n_dirs ==> {
                        let d = #[trigger] bom_file.spec_directories()[j];
                        &&& d.path is Some
                        &&& d.path.unwrap()@ == self.input_directories@[j]@
                        &&& d.output_path@ == output_path_spec(
                            d.path.unwrap()@,
                            self.output_directory@,
                        )
                    },
                forall|j: int|
                    0 <= j < i ==> (#[trigger] bom_file.spec_includes()[j])@
                        == self.include_bomfiles@[j]@,
            decreases n_incs - i,
        {
            let include_bom_file = &self.include_bomfiles[i];
            let ghost pre = bom_file.spec_includes();
            bom_file.include_other_bom_file(include_bom_file.as_str());
            proof {
                assert forall|j: int|
                    0 <= j < pre.len() implies #[trigger] bom_file.spec_includes()[j] == pre[j] by {
                    assert(bom_file.spec_includes().take(pre.len() as int)[j]
                        == bom_file.spec_includes()[j]);
                }
            }
            i = i + 1;
        }
        bom_file
    }

    /// The fingerprint to record for one input, per `spec_hash_for`.
    fn hash_for(&self, hashes: &Vec<(String, String)>, path: &String) -> (r: Option<String>)
        ensures
            match r {
                Some(h) => self.spec_hash_for(hashes@, path@) == Some(h@),
                None => self.spec_hash_for(hashes@, path@) is None,
            },
    {
        if self.with_hash {
            match lookup_table(hashes, path) {
                Some(h) => Some(h.clone()),
                None => None,
            }
        } else {
            None
        }
    }
}

} // verus!
