use bom_core::BomFile;
use bom_core::ScanConfig;

fn count_pair(v: &[(String, String)], a: &str, b: &str) -> usize {
    v.iter().filter(|p| p.0 == a && p.1 == b).count()
}

#[test]
fn empty_manifest_plans_nothing() {
    let bom = BomFile::new();
    let config = ScanConfig::standard();
    let lister: Vec<(String, String)> = Vec::new();
    let (create_dirs, copy_dirs, copy_files) = bom.get_copied_files("root.toml", &lister, &config);
    assert!(create_dirs.is_empty());
    assert!(copy_dirs.is_empty());
    assert!(copy_files.is_empty());
}

#[test]
fn duplicate_file_entries_yield_one_copy_pair() {
    let mut bom = BomFile::new();
    bom.add_file("bin/app", None, "image/bin", None);
    bom.add_file("bin/app", None, "image/bin", None);
    let config = ScanConfig::standard();
    let lister: Vec<(String, String)> = Vec::new();
    let (_, _, copy_files) = bom.get_copied_files("root.toml", &lister, &config);
    assert_eq!(copy_files.len(), 1);
    assert_eq!(count_pair(&copy_files, "bin/app", "image/bin/app"), 1);
}

#[test]
fn two_executables_sharing_a_library_yield_one_copy_intent() {
    let mut bom = BomFile::new();
    bom.add_file("bin/one", Some(true), "image/bin", None);
    bom.add_file("bin/two", Some(true), "image/bin", None);
    let config = ScanConfig::standard();
    let line = "\tlibshared.so => /usr/lib/libshared.so (0x00007fab12345678)\n";
    let lister = vec![
        (String::from("bin/one"), String::from(line)),
        (String::from("bin/two"), String::from(line)),
    ];
    let (_, _, copy_files) = bom.get_copied_files("root.toml", &lister, &config);
    assert_eq!(count_pair(&copy_files, "/usr/lib/libshared.so", "image/lib/libshared.so"), 1);
}

#[test]
fn scan_target_folds_discovered_libraries_into_the_plan() {
    let mut bom = BomFile::new();
    bom.add_file("bin/app", Some(true), "image/bin", None);
    let config = ScanConfig::standard();
    let lister = vec![(
        String::from("bin/app"),
        String::from("\tlibfoo.so => /usr/lib/libfoo.so (0x00007fab12345678)\n"),
    )];
    let (create_dirs, copy_dirs, copy_files) = bom.get_copied_files("A.toml", &lister, &config);
    assert!(create_dirs.is_empty());
    assert!(copy_dirs.is_empty());
    assert_eq!(count_pair(&copy_files, "bin/app", "image/bin/app"), 1);
    assert_eq!(count_pair(&copy_files, "/usr/lib/libfoo.so", "image/lib/libfoo.so"), 1);
    assert_eq!(copy_files.len(), 2);
}

#[test]
fn non_target_file_triggers_no_discovery() {
    let mut bom = BomFile::new();
    bom.add_file("bin/app", None, "image/bin", None);
    let config = ScanConfig::standard();
    let lister = vec![(
        String::from("bin/app"),
        String::from("\tlibfoo.so => /usr/lib/libfoo.so (0x00007fab12345678)\n"),
    )];
    let (_, _, copy_files) = bom.get_copied_files("A.toml", &lister, &config);
    assert_eq!(copy_files.len(), 1);
    assert_eq!(count_pair(&copy_files, "bin/app", "image/bin/app"), 1);
}

#[test]
fn directories_split_into_copies_and_creations() {
    let mut bom = BomFile::new();
    bom.add_directory("assets", "image/share");
    bom.directories.as_mut().unwrap().push(bom_core::Directory {
        path: None,
        output_path: String::from("var/empty"),
    });
    let config = ScanConfig::standard();
    let lister: Vec<(String, String)> = Vec::new();
    let (create_dirs, copy_dirs, _) = bom.get_copied_files("dir/root.toml", &lister, &config);
    assert_eq!(create_dirs, vec![String::from("dir/var/empty")]);
    assert_eq!(
        copy_dirs,
        vec![(String::from("dir/assets"), String::from("dir/image/share/assets"))]
    );
}

#[test]
fn manifest_with_scan_target_stages_file_and_discovered_library() {
    let bom = BomFile {
        includes: None,
        files: Some(vec![bom_core::NormalFile {
            path: String::from("bin/app"),
            hash: None,
            output_path: String::from("image/bin"),
            target_executable: Some(true),
        }]),
        directories: None,
    };
    let config = ScanConfig::standard();
    let lister = vec![(
        String::from("bin/app"),
        String::from("\tlibfoo.so => /usr/lib/libfoo.so (0x00007fab12345678)\n"),
    )];
    let (_, _, copy_files) = bom.get_copied_files("A.toml", &lister, &config);
    assert_eq!(count_pair(&copy_files, "bin/app", "image/bin/app"), 1);
    assert_eq!(count_pair(&copy_files, "/usr/lib/libfoo.so", "image/lib/libfoo.so"), 1);
}

#[test]
fn plan_resolves_paths_relative_to_the_manifest_location() {
    let mut bom = BomFile::new();
    bom.add_file("bin/app", None, "image/bin", None);
    let config = ScanConfig::standard();
    let lister: Vec<(String, String)> = Vec::new();
    let (_, _, copy_files) = bom.get_copied_files("some/dir/A.toml", &lister, &config);
    assert_eq!(count_pair(&copy_files, "some/dir/bin/app", "some/dir/image/bin/app"), 1);
}
