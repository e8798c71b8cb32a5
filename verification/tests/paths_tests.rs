use nsrlsvr::paths::{classify_hash_file, does_hash_file_exist};

#[test]
fn classification_succeeds_only_for_an_existing_regular_file() {
    let ok = Ok("hashes.txt".to_string());
    let err = Err("hashes.txt not found".to_string());
    assert_eq!(classify_hash_file(true, true, "hashes.txt"), ok);
    assert_eq!(classify_hash_file(true, false, "hashes.txt"), err);
    assert_eq!(classify_hash_file(false, false, "hashes.txt"), err);
    assert_eq!(classify_hash_file(false, true, "hashes.txt"), err);
}

#[test]
fn missing_path_is_reported_with_its_name() {
    let r = does_hash_file_exist("/no/such/directory/hashes.txt");
    assert_eq!(r, Err("/no/such/directory/hashes.txt not found".to_string()));
}

#[test]
fn directory_is_not_a_hash_file() {
    let r = does_hash_file_exist("/");
    assert_eq!(r, Err("/ not found".to_string()));
}
