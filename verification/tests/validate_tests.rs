use bom_core::BomError;
use bom_core::BomFile;
use bom_core::FsModel;
use bom_core::calculate_file_hash;

fn fs_with_file(path: &str, hash: &str) -> FsModel {
    FsModel {
        files: vec![(String::from(path), String::from(hash))],
        dirs: Vec::new(),
    }
}

#[test]
fn empty_manifest_is_valid() {
    let bom = BomFile::new();
    let fs = FsModel { files: Vec::new(), dirs: Vec::new() };
    assert_eq!(bom.check_validity("root.toml", &fs), Ok(()));
}

#[test]
fn matching_hash_validates_and_one_changed_byte_flips_to_mismatch() {
    let recorded = calculate_file_hash(&b"original content".to_vec());
    let mut bom = BomFile::new();
    bom.add_file("data.bin", None, "image", Some(recorded.clone()));

    let fs_same = fs_with_file("data.bin", &recorded);
    assert_eq!(bom.check_validity("root.toml", &fs_same), Ok(()));

    let mutated = calculate_file_hash(&b"originbl content".to_vec());
    let fs_changed = fs_with_file("data.bin", &mutated);
    assert_eq!(
        bom.check_validity("root.toml", &fs_changed),
        Err(BomError::HashMismatch(String::from("data.bin"), mutated))
    );
}

#[test]
fn entry_without_hash_skips_the_content_check() {
    let mut bom = BomFile::new();
    bom.add_file("data.bin", None, "image", None);
    let fs = fs_with_file("data.bin", "WHATEVER");
    assert_eq!(bom.check_validity("root.toml", &fs), Ok(()));
}

#[test]
fn missing_file_is_reported_with_its_resolved_path() {
    let mut bom = BomFile::new();
    bom.add_file("data.bin", None, "image", None);
    let fs = FsModel { files: Vec::new(), dirs: Vec::new() };
    assert_eq!(
        bom.check_validity("some/dir/root.toml", &fs),
        Err(BomError::MissingFile(String::from("some/dir/data.bin")))
    );
}

#[test]
fn missing_directory_is_reported_with_its_resolved_path() {
    let mut bom = BomFile::new();
    bom.add_directory("assets", "image");
    let fs = FsModel { files: Vec::new(), dirs: Vec::new() };
    assert_eq!(
        bom.check_validity("root.toml", &fs),
        Err(BomError::MissingDirectory(String::from("assets")))
    );
}

#[test]
fn missing_include_is_reported_first() {
    let mut bom = BomFile::new();
    bom.include_other_bom_file("other.toml");
    bom.add_file("data.bin", None, "image", None);
    let fs = FsModel { files: Vec::new(), dirs: Vec::new() };
    assert_eq!(
        bom.check_validity("root.toml", &fs),
        Err(BomError::MissingInclude(String::from("other.toml")))
    );
}

#[test]
fn recursive_validation_checks_each_manifest_against_its_own_location() {
    let mut b = BomFile::new();
    b.include_other_bom_file("C.toml");
    let mut c = BomFile::new();
    c.include_other_bom_file("A.toml");
    let mut a = BomFile::new();
    a.add_file("payload", None, "image", None);

    let loaded = vec![
        (String::from("dir/C.toml"), c),
        (String::from("dir/A.toml"), a),
    ];
    let fs = FsModel {
        files: vec![
            (String::from("dir/C.toml"), String::from("H1")),
            (String::from("dir/A.toml"), String::from("H2")),
            (String::from("dir/payload"), String::from("H3")),
        ],
        dirs: Vec::new(),
    };
    assert_eq!(b.check_validity_recursive("dir/B.toml", &loaded, &fs), Ok(()));

    let fs_without_payload = FsModel {
        files: vec![
            (String::from("dir/C.toml"), String::from("H1")),
            (String::from("dir/A.toml"), String::from("H2")),
        ],
        dirs: Vec::new(),
    };
    assert_eq!(
        b.check_validity_recursive("dir/B.toml", &loaded, &fs_without_payload),
        Err(BomError::MissingFile(String::from("dir/payload")))
    );
}

#[test]
fn recursive_validation_reports_unloadable_include() {
    let mut b = BomFile::new();
    b.include_other_bom_file("C.toml");
    let loaded: Vec<(String, BomFile)> = Vec::new();
    let fs = FsModel {
        files: vec![(String::from("C.toml"), String::from("H1"))],
        dirs: Vec::new(),
    };
    assert_eq!(
        b.check_validity_recursive("B.toml", &loaded, &fs),
        Err(BomError::LoadError(String::from("C.toml")))
    );
}
