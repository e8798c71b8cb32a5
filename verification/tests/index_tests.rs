use nsrlsvr::index::{binary_search, build_index, load_corpus, load_hashes, HashIndex};
use nsrlsvr::ident::normalize_line;

const A_LOWER: &str = "aabbccddeeff00112233445566778899";
const A_UPPER: &str = "AABBCCDDEEFF00112233445566778899";
const ZEROS: &str = "00000000000000000000000000000000";

fn strings(v: &[&str]) -> Vec<String> {
    v.iter().map(|s| s.to_string()).collect()
}

#[test]
fn scenario_mixed_corpus() {
    let lines = strings(&[A_LOWER, "not-a-hash", A_UPPER]);
    let index = load_hashes(lines);
    assert_eq!(index.len(), 2);
    assert_eq!(index[0], A_UPPER);
    assert_eq!(index[1], A_UPPER);
    let q = normalize_line(A_LOWER);
    assert!(binary_search(&index, &q));
    assert!(!binary_search(&index, &ZEROS.to_string()));
}

#[test]
fn empty_corpus_yields_empty_index() {
    let index = load_hashes(Vec::new());
    assert_eq!(index.len(), 0);
    assert!(!binary_search(&index, &ZEROS.to_string()));
}

#[test]
fn all_malformed_corpus_yields_empty_index() {
    let lines = strings(&["", "not-a-hash", "12345", "zzzzzzzzzzzzzzzzzzzzzzzzzzzzzzzz"]);
    let index = load_hashes(lines);
    assert_eq!(index.len(), 0);
    assert!(!binary_search(&index, &A_UPPER.to_string()));
}

#[test]
fn malformed_lines_are_dropped_valid_lines_kept() {
    let lines = strings(&[
        ZEROS,
        "tooshort",
        A_LOWER,
        "aabbccddeeff0011223344556677889",   // 31 characters
        "aabbccddeeff001122334455667788999", // 33 characters
        " aabbccddeeff00112233445566778899", // leading space
        "aabbccddeeff00112233445566778899 ", // trailing space
        "gabbccddeeff00112233445566778899",  // non-hex character
    ]);
    let index = load_hashes(lines);
    assert_eq!(index.len(), 2);
    assert_eq!(index[0], ZEROS);
    assert_eq!(index[1], A_UPPER);
}

#[test]
fn index_is_sorted() {
    let lines = strings(&[
        "ffffffffffffffffffffffffffffffff",
        ZEROS,
        A_LOWER,
        "0123456789abcdef0123456789abcdef",
        A_UPPER,
    ]);
    let index = load_hashes(lines);
    assert_eq!(index.len(), 5);
    for i in 0..index.len() - 1 {
        assert!(index[i] <= index[i + 1]);
    }
}

#[test]
fn duplicates_are_retained() {
    let lines = strings(&[ZEROS, ZEROS, ZEROS]);
    let index = load_hashes(lines);
    assert_eq!(index.len(), 3);
    assert!(binary_search(&index, &ZEROS.to_string()));
}

#[test]
fn single_element_index() {
    let index = load_hashes(strings(&[A_UPPER]));
    assert_eq!(index.len(), 1);
    assert!(binary_search(&index, &A_UPPER.to_string()));
    assert!(!binary_search(&index, &ZEROS.to_string()));
}

#[test]
fn round_trip_membership_for_every_corpus_entry() {
    let originals = [
        ZEROS,
        A_LOWER,
        "0123456789ABCDEF0123456789abcdef",
        "ffffffffffffffffffffffffffffffff",
        "DeadBeefDeadBeefDeadBeefDeadBeef",
    ];
    let index = load_hashes(strings(&originals));
    assert_eq!(index.len(), originals.len());
    for s in originals.iter() {
        let q = normalize_line(s);
        assert!(binary_search(&index, &q));
    }
}

#[test]
fn negative_membership() {
    let index = load_hashes(strings(&[A_LOWER, ZEROS]));
    assert!(!binary_search(&index, &"11111111111111111111111111111111".to_string()));
    assert!(!binary_search(&index, &"FFFFFFFFFFFFFFFFFFFFFFFFFFFFFFFF".to_string()));
}

#[test]
fn query_after_normalization_matches_canonical_query() {
    let index = load_hashes(strings(&[A_LOWER]));
    let from_mixed = normalize_line("AaBbCcDdEeFf00112233445566778899");
    let canonical = A_UPPER.to_string();
    assert_eq!(
        binary_search(&index, &from_mixed),
        binary_search(&index, &canonical)
    );
    assert!(binary_search(&index, &from_mixed));
}

#[test]
fn binary_search_over_larger_index() {
    let mut lines = Vec::new();
    for b in 0..16 {
        let digit = char::from_digit(b, 16).unwrap();
        lines.push(digit.to_string().repeat(32));
    }
    let index = load_hashes(lines);
    assert_eq!(index.len(), 16);
    for b in 0..16u32 {
        let digit = char::from_digit(b, 16).unwrap();
        let q = normalize_line(&digit.to_string().repeat(32));
        assert!(binary_search(&index, &q));
    }
    assert!(!binary_search(&index, &"01010101010101010101010101010101".to_string()));
}

#[test]
fn load_corpus_keeps_input_order() {
    let lines = strings(&["ffffffffffffffffffffffffffffffff", A_LOWER, "bad line", ZEROS]);
    let corpus = load_corpus(&lines);
    assert_eq!(corpus.len(), 3);
    assert_eq!(corpus[0], "FFFFFFFFFFFFFFFFFFFFFFFFFFFFFFFF");
    assert_eq!(corpus[1], A_UPPER);
    assert_eq!(corpus[2], ZEROS);
}

#[test]
fn build_index_sorts_canonical_identifiers() {
    let idents = strings(&["FFFFFFFFFFFFFFFFFFFFFFFFFFFFFFFF", A_UPPER, ZEROS]);
    let sorted = build_index(&idents);
    assert_eq!(sorted.len(), 3);
    assert_eq!(sorted[0], ZEROS);
    assert_eq!(sorted[1], A_UPPER);
    assert_eq!(sorted[2], "FFFFFFFFFFFFFFFFFFFFFFFFFFFFFFFF");
}

#[test]
fn hash_index_build_and_query() {
    let index = HashIndex::build(strings(&[A_LOWER, "junk", ZEROS, ZEROS]));
    assert_eq!(index.len(), 3);
    assert!(index.contains(&A_UPPER.to_string()));
    assert!(index.contains(&ZEROS.to_string()));
    assert!(!index.contains(&"22222222222222222222222222222222".to_string()));
}

#[test]
fn hash_index_empty_query_reports_not_found() {
    let index = HashIndex::build(Vec::new());
    assert_eq!(index.len(), 0);
    assert!(!index.contains(&ZEROS.to_string()));
}
