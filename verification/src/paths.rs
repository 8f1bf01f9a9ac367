//! Path resolution: the single source of truth for "relative to what".
//!
//! A path written inside a manifest is interpreted relative to the directory
//! that holds the manifest itself, never relative to the process's working
//! directory. `convert_to_relative_path_from_current_dir` performs that
//! rebasing; `get_output_path` appends a source path's base name to a
//! destination directory.

use vstd::prelude::*;
use vstd::string::*;

verus! {

/// A path is absolute when it starts with the path separator.
pub open spec fn is_absolute_path(p: Seq<char>) -> bool {
    p.len() > 0 && p[0] == '/'
}

/// Length of the prefix of `p` up to and including the last `'/'`
/// (0 when `p` holds no `'/'` at all).
pub open spec fn dir_prefix_len(p: Seq<char>) -> int
    decreases p.len(),
{
    if p.len() == 0 {
        0
    } else if p[p.len() - 1] == '/' {
        p.len() as int
    } else {
        dir_prefix_len(p.drop_last())
    }
}

/// The directory part of `p`: everything up to and including the last `'/'`.
pub open spec fn dir_prefix_of(p: Seq<char>) -> Seq<char> {
    p.subrange(0, dir_prefix_len(p))
}

/// The base name of `p`: everything after the last `'/'`.
pub open spec fn base_name_of(p: Seq<char>) -> Seq<char> {
    p.subrange(dir_prefix_len(p), p.len() as int)
}

/// What resolving `p` against the manifest located at `reference` yields:
/// `p` itself when absolute, otherwise `p` appended to the directory part
/// of `reference`.
pub open spec fn resolve_spec(reference: Seq<char>, p: Seq<char>) -> Seq<char> {
    if is_absolute_path(p) {
        p
    } else {
        dir_prefix_of(reference) + p
    }
}

/// Joining a file name onto a directory, inserting a separator unless the
/// directory is empty or already ends with one.
pub open spec fn join_dir_spec(dir: Seq<char>, name: Seq<char>) -> Seq<char> {
    if dir.len() == 0 {
        name
    } else if dir[dir.len() - 1] == '/' {
        dir + name
    } else {
        dir + seq!['/'] + name
    }
}

/// Destination path of a copied file: its base name placed under the
/// destination directory.
pub open spec fn output_path_spec(file: Seq<char>, dir: Seq<char>) -> Seq<char> {
    join_dir_spec(dir, base_name_of(file))
}

/// An absolute path resolves to itself, whatever manifest references it.
pub proof fn lemma_resolve_absolute(reference: Seq<char>, p: Seq<char>)
    requires
        is_absolute_path(p),
    ensures
        resolve_spec(reference, p) == p,
{
}

/// Any other path resolves to a path under the directory of the
/// referencing manifest: the result starts with that directory prefix and
/// ends with the path itself.
pub proof fn lemma_resolve_relative(reference: Seq<char>, p: Seq<char>)
    requires
        !is_absolute_path(p),
    ensures
        resolve_spec(reference, p) == dir_prefix_of(reference) + p,
        resolve_spec(reference, p).take(dir_prefix_of(reference).len() as int) == dir_prefix_of(
            reference,
        ),
        resolve_spec(reference, p).skip(dir_prefix_of(reference).len() as int) == p,
{
    lemma_dir_prefix_len_bound(reference);
    assert(resolve_spec(reference, p).take(dir_prefix_of(reference).len() as int) =~= dir_prefix_of(
        reference,
    ));
    assert(resolve_spec(reference, p).skip(dir_prefix_of(reference).len() as int) =~= p);
}

/// The directory prefix never extends past the end of the path.
pub proof fn lemma_dir_prefix_len_bound(p: Seq<char>)
    ensures
        0 <= dir_prefix_len(p) <= p.len(),
    decreases p.len(),
{
    if p.len() > 0 && p[p.len() - 1] != '/' {
        lemma_dir_prefix_len_bound(p.drop_last());
    }
}

/// Index just past the last `'/'` of `s` (0 when there is none),
/// computed by a backward scan.
fn rfind_slash_end(s: &str) -> (r: usize)
    ensures
        r == dir_prefix_len(s@),
        r <= s@.len(),
{
    let n = s.unicode_len();
    let mut i = n;
    proof {
        assert(s@.subrange(0, n as int) =~= s@);
    }
    while i > 0
        invariant
            i <= n,
            n == s@.len(),
            dir_prefix_len(s@) == dir_prefix_len(s@.subrange(0, i as int)),
        decreases i,
    {
        let c = s.get_char(i - 1);
        if c == '/' {
            proof {
                let q = s@.subrange(0, i as int);
                assert(q[q.len() - 1] == '/');
                lemma_dir_prefix_len_bound(s@);
            }
            return i;
        }
        proof {
            let q = s@.subrange(0, i as int);
            assert(q[q.len() - 1] != '/');
            assert(q.drop_last() =~= s@.subrange(0, i - 1));
        }
        i = i - 1;
    }
    proof {
        assert(s@.subrange(0, 0).len() == 0);
        lemma_dir_prefix_len_bound(s@);
    }
    0
}

/// Rebases `relative_path`, written relative to the manifest located at
/// `reference_file_path`, onto the invoking process's working directory.
/// An absolute path comes back unchanged; any other path is joined onto the
/// directory part of `reference_file_path`.
pub fn convert_to_relative_path_from_current_dir(
    reference_file_path: &str,
    relative_path: &str,
) -> (r: String)
    ensures
        r@ == resolve_spec(reference_file_path@, relative_path@),
{
    let n = relative_path.unicode_len();
    if n > 0 && relative_path.get_char(0) == '/' {
        return String::from_str(relative_path);
    }
    let k = rfind_slash_end(reference_file_path);
    let prefix = reference_file_path.substring_char(0, k);
    String::from_str(prefix).concat(relative_path)
}

/// Joins `name` onto `dir`, inserting a separator unless `dir` is empty or
/// already ends with one.
pub fn join_dir(dir: &str, name: &str) -> (r: String)
    ensures
        r@ == join_dir_spec(dir@, name@),
{
    let dn = dir.unicode_len();
    if dn == 0 {
        String::from_str(name)
    } else if dir.get_char(dn - 1) == '/' {
        String::from_str(dir).concat(name)
    } else {
        proof {
            reveal_strlit("/");
        }
        String::from_str(dir).concat("/").concat(name)
    }
}

/// Destination path of a file copy: the base name of `file_full_path`
/// appended to `output_directory`.
pub fn get_output_path(file_full_path: &str, output_directory: &str) -> (r: String)
    ensures
        r@ == output_path_spec(file_full_path@, output_directory@),
{
    let k = rfind_slash_end(file_full_path);
    let n = file_full_path.unicode_len();
    let base = file_full_path.substring_char(k, n);
    join_dir(output_directory, base)
}

} // verus!
