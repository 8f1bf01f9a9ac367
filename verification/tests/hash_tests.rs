use bom_core::calculate_file_hash;

#[test]
fn hash_of_empty_content_is_the_known_digest() {
    let content: Vec<u8> = Vec::new();
    let h = calculate_file_hash(&content);
    assert_eq!(h, "E3B0C44298FC1C149AFBF4C8996FB92427AE41E4649B934CA495991B7852B855");
}

#[test]
fn hash_of_abc_is_the_known_digest() {
    let content: Vec<u8> = b"abc".to_vec();
    let h = calculate_file_hash(&content);
    assert_eq!(h, "BA7816BF8F01CFEA414140DE5DAE2223B00361A396177A9CB410FF61F20015AD");
}

#[test]
fn hash_depends_only_on_content() {
    let a = calculate_file_hash(&b"same bytes".to_vec());
    let b = calculate_file_hash(&b"same bytes".to_vec());
    let c = calculate_file_hash(&b"other bytes".to_vec());
    assert_eq!(a, b);
    assert_ne!(a, c);
}
