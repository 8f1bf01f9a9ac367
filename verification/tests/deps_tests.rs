use bom_core::ScanConfig;
use bom_core::find_dependencies_for_executable;
use bom_core::parse_dependency_line;
use bom_core::shared_object_prefer_musl;

const MUSL_ROOT: &str = "/opt/occlum/toolchains/gcc/x86_64-linux-musl/lib";

#[test]
fn matched_line_yields_name_and_path() {
    let r = parse_dependency_line("\tlibfoo.so => /usr/lib/libfoo.so (0x00007fab12345678)");
    let (name, path) = r.expect("line should match");
    assert_eq!(name, "libfoo.so");
    assert_eq!(path, "/usr/lib/libfoo.so");
}

#[test]
fn statically_linked_marker_yields_nothing() {
    assert!(parse_dependency_line("\tstatically linked").is_none());
}

#[test]
fn line_without_separator_yields_nothing() {
    assert!(parse_dependency_line("\tlinux-vdso.so.1 (0x00007ffe12345678)").is_none());
}

#[test]
fn short_address_yields_nothing() {
    assert!(parse_dependency_line("libfoo.so => /usr/lib/libfoo.so (0x00007fab1234567)").is_none());
}

#[test]
fn musl_listed_name_is_redirected_to_toolchain_root() {
    let config = ScanConfig::standard();
    let (name, path) = shared_object_prefer_musl(
        &config.musl_lib_names,
        &config.musl_lib_root,
        String::from("libc.so"),
        String::from("/lib/ld-musl-x86_64.so.1"),
    );
    assert_eq!(name, "libc.so");
    assert_eq!(path, format!("{}/libc.so", MUSL_ROOT));
}

#[test]
fn unlisted_name_keeps_the_reported_path() {
    let config = ScanConfig::standard();
    let (name, path) = shared_object_prefer_musl(
        &config.musl_lib_names,
        &config.musl_lib_root,
        String::from("libfoo.so"),
        String::from("/usr/lib/libfoo.so"),
    );
    assert_eq!(name, "libfoo.so");
    assert_eq!(path, "/usr/lib/libfoo.so");
}

#[test]
fn lister_text_is_read_line_by_line() {
    let config = ScanConfig::standard();
    let text = "\tlinux-vdso.so.1 (0x00007ffe12345678)\n\
                \tlibfoo.so => /usr/lib/libfoo.so (0x00007fab12345678)\n\
                \tlibc.so => /lib/ld-musl-x86_64.so.1 (0x00007fab00000000)\n";
    let deps = find_dependencies_for_executable(text, &config);
    assert_eq!(deps.len(), 2);
    assert_eq!(deps[0].name, "libfoo.so");
    assert_eq!(deps[0].path, "/usr/lib/libfoo.so");
    assert_eq!(deps[0].output_directory, "image/lib");
    assert_eq!(deps[1].name, "libc.so");
    assert_eq!(deps[1].path, format!("{}/libc.so", MUSL_ROOT));
}

#[test]
fn empty_text_yields_no_dependencies() {
    let config = ScanConfig::standard();
    assert_eq!(find_dependencies_for_executable("", &config).len(), 0);
}
