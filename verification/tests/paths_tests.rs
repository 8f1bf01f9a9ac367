use bom_core::convert_to_relative_path_from_current_dir;
use bom_core::get_output_path;

#[test]
fn absolute_path_is_returned_unchanged() {
    let r = convert_to_relative_path_from_current_dir("some/dir/bom.toml", "/usr/lib/libc.so");
    assert_eq!(r, "/usr/lib/libc.so");
}

#[test]
fn relative_path_is_joined_under_reference_directory() {
    let r = convert_to_relative_path_from_current_dir("some/dir/bom.toml", "bin/app");
    assert_eq!(r, "some/dir/bin/app");
}

#[test]
fn reference_without_directory_keeps_path_bare() {
    let r = convert_to_relative_path_from_current_dir("bom.toml", "bin/app");
    assert_eq!(r, "bin/app");
}

#[test]
fn reference_at_root_resolves_under_root() {
    let r = convert_to_relative_path_from_current_dir("/bom.toml", "bin/app");
    assert_eq!(r, "/bin/app");
}

#[test]
fn output_path_appends_base_name() {
    assert_eq!(get_output_path("bin/app", "image/bin"), "image/bin/app");
    assert_eq!(get_output_path("/usr/lib/libfoo.so", "image/lib"), "image/lib/libfoo.so");
}

#[test]
fn output_path_handles_trailing_separator_and_empty_directory() {
    assert_eq!(get_output_path("app", "image/bin/"), "image/bin/app");
    assert_eq!(get_output_path("a/b/c", ""), "c");
}
