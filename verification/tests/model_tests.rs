use bom_core::BomFile;

#[test]
fn new_manifest_is_empty() {
    let bom = BomFile::new();
    assert!(bom.includes.is_none());
    assert!(bom.files.is_none());
    assert!(bom.directories.is_none());
}

#[test]
fn add_file_records_entry_with_destination_directory() {
    let mut bom = BomFile::new();
    bom.add_file("bin/app", Some(true), "image/bin", Some(String::from("ABCD")));
    let files = bom.files.as_ref().unwrap();
    assert_eq!(files.len(), 1);
    assert_eq!(files[0].path, "bin/app");
    assert_eq!(files[0].output_path, "image/bin");
    assert_eq!(files[0].hash, Some(String::from("ABCD")));
    assert_eq!(files[0].target_executable, Some(true));
}

#[test]
fn add_file_tolerates_duplicates() {
    let mut bom = BomFile::new();
    bom.add_file("a", None, "out", None);
    bom.add_file("a", None, "out", None);
    assert_eq!(bom.files.as_ref().unwrap().len(), 2);
}

#[test]
fn add_directory_records_entry_with_derived_destination() {
    let mut bom = BomFile::new();
    bom.add_directory("assets/icons", "image/share");
    let dirs = bom.directories.as_ref().unwrap();
    assert_eq!(dirs.len(), 1);
    assert_eq!(dirs[0].path, Some(String::from("assets/icons")));
    assert_eq!(dirs[0].output_path, "image/share/icons");
}

#[test]
fn include_other_bom_file_appends() {
    let mut bom = BomFile::new();
    bom.include_other_bom_file("other.toml");
    bom.include_other_bom_file("third.toml");
    assert_eq!(
        bom.includes.as_ref().unwrap(),
        &vec![String::from("other.toml"), String::from("third.toml")]
    );
}

#[test]
fn update_refreshes_only_hash_bearing_entries() {
    let mut bom = BomFile::new();
    bom.add_file("a", None, "out", Some(String::from("OLDHASH")));
    bom.add_file("b", None, "out", None);
    let new_hashes = vec![
        (String::from("a"), String::from("NEWHASH")),
        (String::from("b"), String::from("UNUSED")),
    ];
    bom.update(&new_hashes);
    let files = bom.files.as_ref().unwrap();
    assert_eq!(files[0].hash, Some(String::from("NEWHASH")));
    assert_eq!(files[1].hash, None);
}

#[test]
fn update_keeps_hash_when_no_fresh_value_is_supplied() {
    let mut bom = BomFile::new();
    bom.add_file("a", None, "out", Some(String::from("OLDHASH")));
    let new_hashes: Vec<(String, String)> = Vec::new();
    bom.update(&new_hashes);
    assert_eq!(bom.files.as_ref().unwrap()[0].hash, Some(String::from("OLDHASH")));
}
