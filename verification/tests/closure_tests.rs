use bom_core::BomError;
use bom_core::BomFile;

fn manifest_including(names: &[&str]) -> BomFile {
    let mut bom = BomFile::new();
    for name in names {
        bom.include_other_bom_file(name);
    }
    bom
}

fn as_set(v: &[String]) -> Vec<String> {
    let mut s: Vec<String> = v.to_vec();
    s.sort();
    s
}

#[test]
fn closure_of_manifest_without_includes_is_empty() {
    let bom = BomFile::new();
    let loaded: Vec<(String, BomFile)> = Vec::new();
    let r = bom.get_included_bom_files("dir/root.toml", &loaded).unwrap();
    assert!(r.is_empty());
}

#[test]
fn chain_of_includes_is_collected_transitively() {
    let b = manifest_including(&["C.toml"]);
    let c = manifest_including(&["A.toml"]);
    let a = manifest_including(&[]);
    let loaded = vec![
        (String::from("dir/C.toml"), c),
        (String::from("dir/A.toml"), a),
    ];
    let r = b.get_included_bom_files("dir/B.toml", &loaded).unwrap();
    assert_eq!(as_set(&r), vec![String::from("dir/A.toml"), String::from("dir/C.toml")]);
}

#[test]
fn cycle_terminates_and_lists_each_manifest_once() {
    let a = manifest_including(&["B.toml"]);
    let b = manifest_including(&["A.toml"]);
    let loaded = vec![
        (String::from("A.toml"), a.clone()),
        (String::from("B.toml"), b),
    ];
    let r = a.get_included_bom_files("A.toml", &loaded).unwrap();
    assert_eq!(as_set(&r), vec![String::from("A.toml"), String::from("B.toml")]);
}

#[test]
fn self_include_terminates() {
    let a = manifest_including(&["A.toml"]);
    let loaded = vec![(String::from("A.toml"), a.clone())];
    let r = a.get_included_bom_files("A.toml", &loaded).unwrap();
    assert_eq!(r, vec![String::from("A.toml")]);
}

#[test]
fn include_order_does_not_change_the_set() {
    let left = manifest_including(&["one.toml", "two.toml"]);
    let right = manifest_including(&["two.toml", "one.toml"]);
    let loaded = vec![
        (String::from("one.toml"), BomFile::new()),
        (String::from("two.toml"), BomFile::new()),
    ];
    let r1 = left.get_included_bom_files("root.toml", &loaded).unwrap();
    let r2 = right.get_included_bom_files("root.toml", &loaded).unwrap();
    assert_eq!(as_set(&r1), as_set(&r2));
}

#[test]
fn rerunning_yields_the_same_set() {
    let b = manifest_including(&["C.toml", "A.toml"]);
    let loaded = vec![
        (String::from("C.toml"), manifest_including(&["A.toml"])),
        (String::from("A.toml"), BomFile::new()),
    ];
    let r1 = b.get_included_bom_files("B.toml", &loaded).unwrap();
    let r2 = b.get_included_bom_files("B.toml", &loaded).unwrap();
    assert_eq!(as_set(&r1), as_set(&r2));
}

#[test]
fn reachable_manifest_missing_from_table_is_a_load_error() {
    let b = manifest_including(&["C.toml"]);
    let loaded = vec![(String::from("C.toml"), manifest_including(&["gone.toml"]))];
    let r = b.get_included_bom_files("B.toml", &loaded);
    assert_eq!(r, Err(BomError::LoadError(String::from("gone.toml"))));
}
