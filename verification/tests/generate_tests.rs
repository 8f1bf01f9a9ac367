use bom_core::GenerateBomOption;

fn options(with_hash: bool) -> GenerateBomOption {
    GenerateBomOption {
        output_directory: String::from("image"),
        output_filename: String::from("out.toml"),
        input_filenames: vec![String::from("readme.txt")],
        input_directories: vec![String::from("assets")],
        executable_filenames: vec![String::from("bin/app")],
        include_bomfiles: vec![String::from("base.toml")],
        with_hash,
    }
}

#[test]
fn generated_manifest_lists_every_input() {
    let hashes: Vec<(String, String)> = Vec::new();
    let bom = options(false).to_bom_file(&hashes);
    let files = bom.files.as_ref().unwrap();
    assert_eq!(files.len(), 2);
    assert_eq!(files[0].path, "readme.txt");
    assert_eq!(files[0].output_path, "image");
    assert_eq!(files[0].target_executable, None);
    assert_eq!(files[0].hash, None);
    assert_eq!(files[1].path, "bin/app");
    assert_eq!(files[1].output_path, "image");
    assert_eq!(files[1].target_executable, Some(true));
    let dirs = bom.directories.as_ref().unwrap();
    assert_eq!(dirs.len(), 1);
    assert_eq!(dirs[0].path, Some(String::from("assets")));
    assert_eq!(dirs[0].output_path, "image/assets");
    assert_eq!(bom.includes.as_ref().unwrap(), &vec![String::from("base.toml")]);
}

#[test]
fn fingerprints_are_recorded_only_when_asked_for() {
    let hashes = vec![
        (String::from("readme.txt"), String::from("HASH1")),
        (String::from("bin/app"), String::from("HASH2")),
    ];
    let with = options(true).to_bom_file(&hashes);
    let files = with.files.as_ref().unwrap();
    assert_eq!(files[0].hash, Some(String::from("HASH1")));
    assert_eq!(files[1].hash, Some(String::from("HASH2")));

    let without = options(false).to_bom_file(&hashes);
    let files = without.files.as_ref().unwrap();
    assert_eq!(files[0].hash, None);
    assert_eq!(files[1].hash, None);
}
