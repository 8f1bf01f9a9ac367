//! Dependency discovery: parsing the line-oriented output of an external
//! "list dynamic dependencies" primitive. A line of the form
//! `<name> => <path> (0x<16 hex digits>)` reports one shared library; any
//! other line (headers, statically-linked markers, unresolved entries) is
//! ignored. For a fixed allow-list of C-runtime-adjacent library names the
//! reported path is replaced by the library's copy under a fixed musl
//! toolchain root. Running the external primitive is the caller's concern:
//! this module works on the text it produced.

use vstd::prelude::*;

use crate::model::NormalFile;
use crate::model::SharedObject;
use crate::paths::join_dir;
use crate::paths::join_dir_spec;
use crate::table::seq_contains_string;
use crate::table::vec_contains_string;

verus! {

/// Configuration of the discovery pass: the allow-list of library names to
/// redirect, the toolchain root their copies live under, and the fixed
/// directory every discovered library is staged into.
pub struct ScanConfig {
    pub musl_lib_names: Vec<String>,
    pub musl_lib_root: String,
    pub shared_object_output_directory: String,
}

/// An address digit as the lister prints it: a decimal digit or a lowercase
/// letter.
pub open spec fn is_addr_char(c: char) -> bool {
    (48 <= c as u32 && c as u32 <= 57) || (97 <= c as u32 && c as u32 <= 122)
}

/// Whitespace stripped from a line before it is read.
pub open spec fn is_blank(c: char) -> bool {
    c == ' ' || c == '\t' || c == '\r' || c == '\n'
}

/// A line with leading and trailing whitespace removed.
pub open spec fn trim_spec(l: Seq<char>) -> Seq<char>
    decreases l.len(),
{
    if l.len() == 0 {
        l
    } else if is_blank(l.first()) {
        trim_spec(l.drop_first())
    } else if is_blank(l.last()) {
        trim_spec(l.drop_last())
    } else {
        l
    }
}

/// Whether the separator `" => "` stands at position `i` of `l`.
pub open spec fn sep_at(l: Seq<char>, i: int) -> bool {
    &&& 0 <= i
    &&& i + 4 <= l.len()
    &&& l[i] == ' '
    &&& l[i + 1] == '='
    &&& l[i + 2] == '>'
    &&& l[i + 3] == ' '
}

/// Position of the first `" => "` at or after `i`, if any.
pub open spec fn find_sep(l: Seq<char>, i: int) -> Option<int>
    decreases l.len() - i
        when 0 <= i
{
    if i + 4 > l.len() {
        None
    } else if sep_at(l, i) {
        Some(i)
    } else {
        find_sep(l, i + 1)
    }
}

/// Whether `l` ends with `" (0x"`, sixteen address digits and `")"`.
pub open spec fn tail_ok(l: Seq<char>) -> bool {
    &&& l.len() >= 22
    &&& l[l.len() - 21] == ' '
    &&& l[l.len() - 20] == '('
    &&& l[l.len() - 19] == '0'
    &&& l[l.len() - 18] == 'x'
    &&& (forall|k: int| l.len() - 17 <= k < l.len() - 1 ==> is_addr_char(#[trigger] l[k]))
    &&& l[l.len() - 1] == ')'
}

/// Reading one (already trimmed) line of lister output: a line reports the
/// dependency `(name, path)` when it is `name ++ " => " ++ path ++ tail`
/// with `name` the text before the first separator, both `name` and `path`
/// nonempty, and `tail` an address annotation, as `tail_ok` describes,
/// closing the line. Any other line reports nothing. This is the defined
/// reading of the pattern: splitting at the first separator and anchoring
/// the annotation at the end of the line; on a line that holds the
/// separator twice, the name is the shortest prefix.
pub open spec fn dep_line_parse(l: Seq<char>) -> Option<(Seq<char>, Seq<char>)> {
    if tail_ok(l) {
        match find_sep(l, 0) {
            Some(i) => if 1 <= i && i + 4 < l.len() - 21 {
                Some((l.subrange(0, i), l.subrange(i + 4, l.len() - 21)))
            } else {
                None
            },
            None => None,
        }
    } else {
        None
    }
}

/// The path a discovered library is copied from: the lister's answer, unless
/// the library's name is on the allow-list, in which case the copy under the
/// musl toolchain root is preferred.
pub open spec fn musl_substituted_path(
    musl_lib_names: Seq<String>,
    musl_lib_root: Seq<char>,
    name: Seq<char>,
    path: Seq<char>,
) -> Seq<char> {
    if seq_contains_string(musl_lib_names, name) {
        join_dir_spec(musl_lib_root, name)
    } else {
        path
    }
}

/// The dependencies reported by a sequence of raw lister lines, in order,
/// duplicates kept: each line is trimmed, read by `dep_line_parse`, and its
/// path put through the musl substitution.
pub open spec fn deps_of_lines(
    musl_lib_names: Seq<String>,
    musl_lib_root: Seq<char>,
    lines: Seq<Seq<char>>,
) -> Seq<(Seq<char>, Seq<char>)>
    decreases lines.len(),
{
    if lines.len() == 0 {
        Seq::<(Seq<char>, Seq<char>)>::empty()
    } else {
        let rest = deps_of_lines(musl_lib_names, musl_lib_root, lines.drop_first());
        match dep_line_parse(trim_spec(lines.first())) {
            Some(np) => seq![
                (np.0, musl_substituted_path(musl_lib_names, musl_lib_root, np.0, np.1)),
            ] + rest,
            None => rest,
        }
    }
}

/// Position of the first `'\n'` at or after `i`, if any.
pub open spec fn find_newline(l: Seq<char>, i: int) -> Option<int>
    decreases l.len() - i
        when 0 <= i
{
    if i >= l.len() {
        None
    } else if l[i] == '\n' {
        Some(i)
    } else {
        find_newline(l, i + 1)
    }
}

/// The segments of `l` between `'\n'` separators, in order; a text without
/// one is a single segment, and a trailing separator yields a final empty
/// segment.
pub open spec fn split_lines_spec(l: Seq<char>) -> Seq<Seq<char>>
    decreases l.len(),
{
    match find_newline(l, 0) {
        Some(i) => if 0 <= i < l.len() {
            seq![l.subrange(0, i)] + split_lines_spec(l.subrange(i + 1, l.len() as int))
        } else {
            seq![l]
        },
        None => seq![l],
    }
}

/// The dependencies reported by a whole lister text.
pub open spec fn deps_of_text(
    musl_lib_names: Seq<String>,
    musl_lib_root: Seq<char>,
    text: Seq<char>,
) -> Seq<(Seq<char>, Seq<char>)> {
    deps_of_lines(musl_lib_names, musl_lib_root, split_lines_spec(text))
}

/// The (name, path) views of a sequence of shared objects.
pub open spec fn so_views(v: Seq<SharedObject>) -> Seq<(Seq<char>, Seq<char>)> {
    v.map_values(|so: SharedObject| (so.name@, so.path@))
}

impl ScanConfig {
    /// The standard configuration: the eight C-runtime-adjacent library
    /// names whose copies under the musl toolchain root are preferred over
    /// whatever the lister reported, and the fixed library output directory.
    pub fn standard() -> (r: Self)
        ensures
            r.musl_lib_names@.map_values(|s: String| s@) =~= seq![
                "libatomic.so"@,
                "libc.so"@,
                "libgomp.so"@,
                "libitm.so"@,
                "libquadmath.so"@,
                "libssp.so"@,
                "libstdc++.so"@,
                "libz.so"@,
            ],
            r.musl_lib_root@ == "/opt/occlum/toolchains/gcc/x86_64-linux-musl/lib"@,
            r.shared_object_output_directory@ == "image/lib"@,
    {
        let mut names: Vec<String> = Vec::new();
        names.push(String::from_str("libatomic.so"));
        names.push(String::from_str("libc.so"));
        names.push(String::from_str("libgomp.so"));
        names.push(String::from_str("libitm.so"));
        names.push(String::from_str("libquadmath.so"));
        names.push(String::from_str("libssp.so"));
        names.push(String::from_str("libstdc++.so"));
        names.push(String::from_str("libz.so"));
        ScanConfig {
            musl_lib_names: names,
            musl_lib_root: String::from_str("/opt/occlum/toolchains/gcc/x86_64-linux-musl/lib"),
            shared_object_output_directory: String::from_str("image/lib"),
        }
    }
}

/// Applies the musl-preference rule to one discovered `(name, path)` pair.
pub fn shared_object_prefer_musl(
    musl_lib_names: &Vec<String>,
    musl_lib_root: &String,
    name: String,
    path: String,
) -> (r: (String, String))
    ensures
        r.0@ == name@,
        r.1@ == musl_substituted_path(musl_lib_names@, musl_lib_root@, name@, path@),
{
    if vec_contains_string(musl_lib_names, &name) {
        let lib_path = join_dir(musl_lib_root.as_str(), name.as_str());
        (name, lib_path)
    } else {
        (name, path)
    }
}

/// Strips leading and trailing whitespace.
fn trim_ascii(s: &str) -> (r: &str)
    ensures
        r@ == trim_spec(s@),
{
    let n = s.unicode_len();
    let mut a: usize = 0;
    let mut b: usize = n;
    proof {
        assert(s@.subrange(0, n as int) =~= s@);
    }
    loop
        invariant
            0 <= a <= b <= n,
            n == s@.len(),
            trim_spec(s@) == trim_spec(s@.subrange(a as int, b as int)),
        decreases b - a,
    {
        if a == b {
            proof {
                assert(s@.subrange(a as int, b as int).len() == 0);
            }
            return s.substring_char(a, b);
        }
        let first = s.get_char(a);
        if first == ' ' || first == '\t' || first == '\r' || first == '\n' {
            proof {
                let q = s@.subrange(a as int, b as int);
                assert(q.drop_first() =~= s@.subrange(a as int + 1, b as int));
            }
            a = a + 1;
        } else {
            let last = s.get_char(b - 1);
            if last == ' ' || last == '\t' || last == '\r' || last == '\n' {
                proof {
                    let q = s@.subrange(a as int, b as int);
                    assert(q.drop_last() =~= s@.subrange(a as int, b as int - 1));
                }
                b = b - 1;
            } else {
                proof {
                    let q = s@.subrange(a as int, b as int);
                    assert(q.first() == s@[a as int]);
                    assert(q.last() == s@[b as int - 1]);
                    assert(!is_blank(q.first()));
                    assert(!is_blank(q.last()));
                }
                return s.substring_char(a, b);
            }
        }
    }
}

/// `find_sep` is oblivious to a prefix free of separators.
proof fn lemma_find_sep_skip(l: Seq<char>, a: int, i: int)
    requires
        0 <= a <= i,
        forall|j: int| a <= j < i ==> !sep_at(l, j),
    ensures
        find_sep(l, a) == find_sep(l, i),
    decreases i - a,
{
    if a < i {
        lemma_find_sep_skip(l, a + 1, i);
    }
}

/// `find_newline` is oblivious to a prefix free of newlines.
proof fn lemma_find_newline_skip(l: Seq<char>, a: int, i: int)
    requires
        0 <= a <= i,
        forall|j: int| a <= j < i ==> l[j] != '\n',
    ensures
        find_newline(l, a) == find_newline(l, i),
    decreases i - a,
{
    if a < i {
        lemma_find_newline_skip(l, a + 1, i);
    }
}

/// Reads one raw lister line: `Some((name, path))` exactly when the trimmed
/// line matches the dependency pattern, the path as reported and not yet
/// put through the musl substitution.
pub fn parse_dependency_line(line: &str) -> (r: Option<(String, String)>)
    ensures
        match r {
            Some(np) => dep_line_parse(trim_spec(line@)) == Some((np.0@, np.1@)),
            None => dep_line_parse(trim_spec(line@)) is None,
        },
{
    let t = trim_ascii(line);
    let n = t.unicode_len();
    if n < 27 {
        return None;
    }
    if t.get_char(n - 1) != ')' {
        return None;
    }
    if t.get_char(n - 21) != ' ' || t.get_char(n - 20) != '(' || t.get_char(n - 19) != '0'
        || t.get_char(n - 18) != 'x' {
        return None;
    }
    let mut k = n - 17;
    while k < n - 1
        invariant
            n == t@.len(),
            27 <= n,
            t@ == trim_spec(line@),
            n - 17 <= k <= n - 1,
            forall|j: int| n - 17 <= j < k ==> is_addr_char(#[trigger] t@[j]),
        decreases n - 1 - k,
    {
        let c = t.get_char(k);
        let u = c as u32;
        if !((48 <= u && u <= 57) || (97 <= u && u <= 122)) {
            proof {
                assert(!is_addr_char(t@[k as int]));
            }
            return None;
        }
        k = k + 1;
    }
    proof {
        assert(tail_ok(t@));
    }
    let mut i: usize = 0;
    loop
        invariant
            n == t@.len(),
            27 <= n,
            0 <= i <= n - 3,
            t@ == trim_spec(line@),
            tail_ok(t@),
            forall|j: int| 0 <= j < i ==> !sep_at(t@, j),
        decreases n - i,
    {
        if i > n - 4 {
            proof {
                lemma_find_sep_skip(t@, 0, i as int);
            }
            return None;
        }
        if t.get_char(i) == ' ' && t.get_char(i + 1) == '=' && t.get_char(i + 2) == '>'
            && t.get_char(i + 3) == ' ' {
            proof {
                lemma_find_sep_skip(t@, 0, i as int);
                assert(find_sep(t@, i as int) == Some(i as int));
            }
            if i >= 1 && i + 4 < n - 21 {
                let name = t.substring_char(0, i);
                let path = t.substring_char(i + 4, n - 21);
                return Some((String::from_str(name), String::from_str(path)));
            } else {
                return None;
            }
        }
        i = i + 1;
    }
}

/// Splits a lister text into its lines.
fn split_lines(s: &str) -> (r: Vec<String>)
    ensures
        r@.map_values(|x: String| x@) == split_lines_spec(s@),
{
    let n = s.unicode_len();
    let mut r: Vec<String> = Vec::new();
    let mut start: usize = 0;
    let mut i: usize = 0;
    proof {
        assert(s@.subrange(0, n as int) =~= s@);
        assert(r@.map_values(|x: String| x@) =~= Seq::<Seq<char>>::empty());
        assert(Seq::<Seq<char>>::empty() + split_lines_spec(s@) =~= split_lines_spec(s@));
    }
    while i < n
        invariant
            0 <= start <= i <= n,
            n == s@.len(),
            forall|j: int| start <= j < i ==> s@[j] != '\n',
            split_lines_spec(s@) == r@.map_values(|x: String| x@) + split_lines_spec(
                s@.subrange(start as int, n as int),
            ),
        decreases n - i,
    {
        if s.get_char(i) == '\n' {
            let ghost pre = r@.map_values(|x: String| x@);
            let ghost seg = s@.subrange(start as int, n as int);
            let line = s.substring_char(start, i);
            r.push(String::from_str(line));
            proof {
                assert forall|j: int| 0 <= j < i - start implies seg[j] != '\n' by {
                    assert(seg[j] == s@[start + j]);
                }
                lemma_find_newline_skip(seg, 0, i - start);
                assert(find_newline(seg, i - start) == Some(i - start));
                assert(seg.subrange(0, i - start) =~= s@.subrange(start as int, i as int));
                assert(seg.subrange(i - start + 1, seg.len() as int) =~= s@.subrange(
                    i as int + 1,
                    n as int,
                ));
                assert(r@.map_values(|x: String| x@) =~= pre + seq![s@.subrange(
                    start as int,
                    i as int,
                )]);
            }
            start = i + 1;
        }
        i = i + 1;
    }
    let ghost seg = s@.subrange(start as int, n as int);
    let line = s.substring_char(start, n);
    r.push(String::from_str(line));
    proof {
        assert forall|j: int| 0 <= j < seg.len() implies seg[j] != '\n' by {
            assert(seg[j] == s@[start + j]);
        }
        lemma_find_newline_skip(seg, 0, seg.len() as int);
        assert(find_newline(seg, seg.len() as int) is None);
        assert(split_lines_spec(seg) == seq![seg]);
    }
    r
}

/// The dependencies a sequence of lines reports split at the first line.
proof fn lemma_deps_of_lines_first(
    musl_lib_names: Seq<String>,
    musl_lib_root: Seq<char>,
    lines: Seq<Seq<char>>,
)
    requires
        lines.len() > 0,
    ensures
        deps_of_lines(musl_lib_names, musl_lib_root, lines) == (match dep_line_parse(
            trim_spec(lines.first()),
        ) {
            Some(np) => seq![
                (np.0, musl_substituted_path(musl_lib_names, musl_lib_root, np.0, np.1)),
            ] + deps_of_lines(musl_lib_names, musl_lib_root, lines.drop_first()),
            None => deps_of_lines(musl_lib_names, musl_lib_root, lines.drop_first()),
        }),
{
}

/// Reads a whole lister text: every matched line contributes one shared
/// object, in line order, duplicates kept, the path put through the musl
/// substitution and the destination set to the configured library output
/// directory.
pub fn find_dependencies_for_executable(text: &str, config: &ScanConfig) -> (r: Vec<SharedObject>)
    ensures
        so_views(r@) == deps_of_text(config.musl_lib_names@, config.musl_lib_root@, text@),
        forall|i: int|
            0 <= i < r@.len() ==> (#[trigger] r@[i]).output_directory@
                == config.shared_object_output_directory@,
{
    let lines = split_lines(text);
    let mut r: Vec<SharedObject> = Vec::new();
    let ghost all_lines = lines@.map_values(|x: String| x@);
    let n = lines.len();
    let mut i: usize = 0;
    proof {
        let dl = deps_of_lines(config.musl_lib_names@, config.musl_lib_root@, all_lines);
        assert(all_lines.skip(0) =~= all_lines);
        assert(so_views(r@) =~= Seq::<(Seq<char>, Seq<char>)>::empty());
        assert(so_views(r@) + dl =~= dl);
    }
    while i < n
        invariant
            0 <= i <= n,
            n == lines@.len(),
            all_lines == lines@.map_values(|x: String| x@),
            all_lines == split_lines_spec(text@),
            so_views(r@) + deps_of_lines(
                config.musl_lib_names@,
                config.musl_lib_root@,
                all_lines.skip(i as int),
            ) == deps_of_lines(config.musl_lib_names@, config.musl_lib_root@, all_lines),
            forall|j: int|
                0 <= j < r@.len() ==> (#[trigger] r@[j]).output_directory@
                    == config.shared_object_output_directory@,
        decreases n - i,
    {
        let ghost rest = all_lines.skip(i as int);
        proof {
            assert(rest.len() > 0);
            assert(rest.first() == all_lines[i as int]);
            assert(rest.drop_first() =~= all_lines.skip(i as int + 1));
            lemma_deps_of_lines_first(config.musl_lib_names@, config.musl_lib_root@, rest);
        }
        let parsed = parse_dependency_line(lines[i].as_str());
        if let Some((name, path)) = parsed {
            let (name, path) = shared_object_prefer_musl(
                &config.musl_lib_names,
                &config.musl_lib_root,
                name,
                path,
            );
            let out_dir = config.shared_object_output_directory.clone();
            let ghost pre = r@;
            r.push(SharedObject { name, path, output_directory: out_dir });
            proof {
                assert(so_views(r@) =~= so_views(pre) + seq![
                    (r@.last().name@, r@.last().path@),
                ]);
            }
        }
        i = i + 1;
    }
    proof {
        assert(all_lines.skip(n as int) =~= Seq::<Seq<char>>::empty());
        assert(so_views(r@) + deps_of_lines(
            config.musl_lib_names@,
            config.musl_lib_root@,
            Seq::<Seq<char>>::empty(),
        ) =~= so_views(r@));
    }
    r
}

impl NormalFile {
    /// The dependencies this entry asks to stage: what the lister text
    /// reports when the entry is flagged as a scan target, nothing
    /// otherwise. Discovery is opt-in per entry; the caller runs the lister
    /// and hands its output in.
    pub fn find_dependencies(&self, lister_text: &str, config: &ScanConfig) -> (r: Vec<
        SharedObject,
    >)
        ensures
            self.spec_is_target_executable() ==> so_views(r@) == deps_of_text(
                config.musl_lib_names@,
                config.musl_lib_root@,
                lister_text@,
            ),
            !self.spec_is_target_executable() ==> r@.len() == 0,
            forall|i: int|
                0 <= i < r@.len() ==> (#[trigger] r@[i]).output_directory@
                    == config.shared_object_output_directory@,
    {
        if self.is_target_executable() {
            find_dependencies_for_executable(lister_text, config)
        } else {
            Vec::new()
        }
    }
}

} // verus!
