//! The in-memory manifest model: a bill-of-materials file listing other
//! manifests to include, files to stage and directories to stage, together
//! with the builder and updater operations that manifest-authoring tooling
//! uses. Serialization of this model to the on-disk format is a concern of
//! the surrounding tooling, not of this crate.

use vstd::prelude::*;

use crate::paths::get_output_path;
use crate::paths::output_path_spec;
use crate::table::lookup_spec;
use crate::table::lookup_table;

verus! {

/// One staged file. `output_path` is the destination *directory*: the staged
/// copy lands at the source's base name under it, derived at planning time.
/// `hash` is absent when the file's content is not checked;
/// `target_executable` is `Some(true)` when the file's native shared-library
/// dependencies must be staged with it.
#[derive(Debug, Clone, PartialEq, Eq)]
pub struct NormalFile {
    pub path: String,
    pub hash: Option<String>,
    pub output_path: String,
    pub target_executable: Option<bool>,
}

/// One staged directory. When `path` is absent, an empty directory is
/// created at `output_path`; otherwise the directory at `path` is copied
/// there.
#[derive(Debug, Clone, PartialEq, Eq)]
pub struct Directory {
    pub path: Option<String>,
    pub output_path: String,
}

/// A native shared-library dependency discovered for an executable: the
/// library's name as reported by the lister, the path to copy it from, and
/// the fixed directory it is staged into. Derived during planning, never
/// persisted.
#[derive(Debug, Clone, PartialEq, Eq)]
pub struct SharedObject {
    pub name: String,
    pub path: String,
    pub output_directory: String,
}

/// One manifest: the only persisted entity of the model. A manifest with no
/// field populated is valid and stages nothing.
#[derive(Debug, Clone, PartialEq, Eq)]
pub struct BomFile {
    pub includes: Option<Vec<String>>,
    pub files: Option<Vec<NormalFile>>,
    pub directories: Option<Vec<Directory>>,
}

/// Why a manifest was rejected: each variant carries the offending path, and
/// a hash mismatch also carries the freshly computed hash so an operator can
/// correct the manifest.
#[derive(Debug, Clone, PartialEq, Eq)]
pub enum BomError {
    MissingInclude(String),
    MissingDirectory(String),
    MissingFile(String),
    HashMismatch(String, String),
    LoadError(String),
}

impl NormalFile {
    /// Whether this entry asks for dependency discovery.
    pub open spec fn spec_is_target_executable(self) -> bool {
        match self.target_executable {
            Some(b) => b,
            None => false,
        }
    }

    pub fn new(
        path: String,
        hash: Option<String>,
        output_directory: String,
        target_executable: Option<bool>,
    ) -> (r: Self)
        ensures
            r == (NormalFile { path, hash, output_path: output_directory, target_executable }),
    {
        NormalFile { path, hash, output_path: output_directory, target_executable }
    }

    /// Whether this entry asks for dependency discovery: true exactly when
    /// the flag is present and set.
    pub fn is_target_executable(&self) -> (r: bool)
        ensures
            r == self.spec_is_target_executable(),
    {
        if let Some(executable) = self.target_executable {
            executable
        } else {
            false
        }
    }
}

impl Directory {
    pub fn new(path: Option<String>, output_path: String) -> (r: Self)
        ensures
            r == (Directory { path, output_path }),
    {
        Directory { path, output_path }
    }
}

impl SharedObject {
    /// The destination directory is the fixed library output location that
    /// the planning configuration carries; it is not configurable per entry.
    pub fn new(name: String, path: String, output_directory: String) -> (r: Self)
        ensures
            r == (SharedObject { name, path, output_directory }),
    {
        SharedObject { name, path, output_directory }
    }
}

impl BomFile {
    /// The include list, reading an absent field as empty.
    pub open spec fn spec_includes(self) -> Seq<String> {
        match self.includes {
            Some(v) => v@,
            None => Seq::<String>::empty(),
        }
    }

    /// The file entries, reading an absent field as empty.
    pub open spec fn spec_files(self) -> Seq<NormalFile> {
        match self.files {
            Some(v) => v@,
            None => Seq::<NormalFile>::empty(),
        }
    }

    /// The directory entries, reading an absent field as empty.
    pub open spec fn spec_directories(self) -> Seq<Directory> {
        match self.directories {
            Some(v) => v@,
            None => Seq::<Directory>::empty(),
        }
    }

    /// An empty manifest: nothing to stage.
    pub fn new() -> (r: Self)
        ensures
            r == (BomFile { includes: None, files: None, directories: None }),
    {
        BomFile { includes: None, files: None, directories: None }
    }

    /// Appends one file entry. `output_directory` is recorded as the entry's
    /// destination directory; the staged file lands at its base name under
    /// it, derived at planning time. `hash` is the recorded content
    /// fingerprint, absent when content is not to be checked. Duplicate
    /// insertions are tolerated: uniqueness is enforced only in the derived
    /// plan.
    pub fn add_file(
        &mut self,
        filename: &str,
        executable: Option<bool>,
        output_directory: &str,
        hash: Option<String>,
    )
        ensures
            final(self).includes == old(self).includes,
            final(self).directories == old(self).directories,
            final(self).spec_files().len() == old(self).spec_files().len() + 1,
            final(self).spec_files().take(old(self).spec_files().len() as int) == old(
                self,
            ).spec_files(),
            final(self).spec_files().last().path@ == filename@,
            final(self).spec_files().last().hash == hash,
            final(self).spec_files().last().output_path@ == output_directory@,
            final(self).spec_files().last().target_executable == executable,
    {
        let output_path = String::from_str(output_directory);
        let path = String::from_str(filename);
        let normal_file = NormalFile::new(path, hash, output_path, executable);
        let taken = self.files.take();
        let mut files = match taken {
            Some(fs) => fs,
            None => Vec::new(),
        };
        let ghost pre = files@;
        files.push(normal_file);
        self.files = Some(files);
        proof {
            assert(self.spec_files().take(pre.len() as int) =~= pre);
        }
    }

    /// Appends one directory entry whose contents are to be copied: its
    /// destination is the directory's base name under `output_directory`.
    pub fn add_directory(&mut self, directory_name: &str, output_directory: &str)
        ensures
            final(self).includes == old(self).includes,
            final(self).files == old(self).files,
            final(self).spec_directories().len() == old(self).spec_directories().len() + 1,
            final(self).spec_directories().take(old(self).spec_directories().len() as int) == old(
                self,
            ).spec_directories(),
            final(self).spec_directories().last().path is Some,
            final(self).spec_directories().last().path.unwrap()@ == directory_name@,
            final(self).spec_directories().last().output_path@ == output_path_spec(
                directory_name@,
                output_directory@,
            ),
    {
        let output_path = get_output_path(directory_name, output_directory);
        let path = String::from_str(directory_name);
        let directory = Directory::new(Some(path), output_path);
        let taken = self.directories.take();
        let mut directories = match taken {
            Some(ds) => ds,
            None => Vec::new(),
        };
        let ghost pre = directories@;
        directories.push(directory);
        self.directories = Some(directories);
        proof {
            assert(self.spec_directories().take(pre.len() as int) =~= pre);
        }
    }

    /// Appends one include edge to another manifest, written relative to
    /// this manifest's own location.
    pub fn include_other_bom_file(&mut self, other_bom_file_name: &str)
        ensures
            final(self).files == old(self).files,
            final(self).directories == old(self).directories,
            final(self).spec_includes().len() == old(self).spec_includes().len() + 1,
            final(self).spec_includes().take(old(self).spec_includes().len() as int) == old(
                self,
            ).spec_includes(),
            final(self).spec_includes().last()@ == other_bom_file_name@,
    {
        let name = String::from_str(other_bom_file_name);
        let taken = self.includes.take();
        let mut names = match taken {
            Some(is) => is,
            None => Vec::new(),
        };
        let ghost pre = names@;
        names.push(name);
        self.includes = Some(names);
        proof {
            assert(self.spec_includes().take(pre.len() as int) =~= pre);
        }
    }

    /// Refreshes the recorded fingerprints after file contents changed.
    /// `new_hashes` maps a file entry's source path to its freshly computed
    /// fingerprint. Only entries that already record a hash are touched; an
    /// entry without one stays without one, and an entry whose path is not in
    /// the table keeps its old hash.
    pub fn update(&mut self, new_hashes: &Vec<(String, String)>)
        ensures
            final(self).includes == old(self).includes,
            final(self).directories == old(self).directories,
            final(self).spec_files().len() == old(self).spec_files().len(),
            forall|i: int|
                0 <= i < old(self).spec_files().len() ==> {
                    let f0 = old(self).spec_files()[i];
                    let f1 = #[trigger] final(self).spec_files()[i];
                    &&& f1.path == f0.path
                    &&& f1.output_path == f0.output_path
                    &&& f1.target_executable == f0.target_executable
                    &&& (f0.hash is None ==> f1.hash is None)
                    &&& (f0.hash is Some ==> match lookup_spec(new_hashes@, f0.path@) {
                        Some(h) => f1.hash is Some && f1.hash.unwrap()@ == h,
                        None => f1.hash == f0.hash,
                    })
                },
    {
        let taken = self.files.take();
        if let Some(mut files) = taken {
            let ghost pre = files@;
            let n = files.len();
            let mut i: usize = 0;
            while i < n
                invariant
                    i <= n,
                    n == files@.len(),
                    files@.len() == pre.len(),
                    forall|j: int| i <= j < n ==> files@[j] == pre[j],
                    forall|j: int|
                        0 <= j < i ==> {
                            let f0 = pre[j];
                            let f1 = #[trigger] files@[j];
                            &&& f1.path == f0.path
                            &&& f1.output_path == f0.output_path
                            &&& f1.target_executable == f0.target_executable
                            &&& (f0.hash is None ==> f1.hash is None)
                            &&& (f0.hash is Some ==> match lookup_spec(new_hashes@, f0.path@) {
                                Some(h) => f1.hash is Some && f1.hash.unwrap()@ == h,
                                None => f1.hash == f0.hash,
                            })
                        },
                decreases n - i,
            {
                if files[i].hash.is_some() {
                    let found = lookup_table(new_hashes, &files[i].path);
                    if let Some(h) = found {
                        let new_hash = h.clone();
                        files[i].hash = Some(new_hash);
                    }
                }
                i = i + 1;
            }
            self.files = Some(files);
        } else {
            self.files = None;
        }
    }
}

} // verus!
