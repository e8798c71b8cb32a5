use nsrlsvr::ident::{is_valid_line, normalize_line, IDENT_LEN};
use nsrlsvr::order::{cmp_ident, Comparison};

#[test]
fn ident_len_is_32() {
    assert_eq!(IDENT_LEN, 32);
}

#[test]
fn valid_lines_are_accepted() {
    assert!(is_valid_line("aabbccddeeff00112233445566778899"));
    assert!(is_valid_line("AABBCCDDEEFF00112233445566778899"));
    assert!(is_valid_line("AaBbCcDdEeFf00112233445566778899"));
    assert!(is_valid_line("00000000000000000000000000000000"));
    assert!(is_valid_line("ffffffffffffffffffffffffffffffff"));
}

#[test]
fn wrong_length_is_rejected() {
    assert!(!is_valid_line(""));
    assert!(!is_valid_line("aabbccddeeff001122334455667788"));
    assert!(!is_valid_line("aabbccddeeff0011223344556677889"));
    assert!(!is_valid_line("aabbccddeeff001122334455667788990"));
}

#[test]
fn non_hex_content_is_rejected() {
    assert!(!is_valid_line("gabbccddeeff00112233445566778899"));
    assert!(!is_valid_line("aabbccddeeff0011223344556677889!"));
    assert!(!is_valid_line(" aabbccddeeff0011223344556677889"));
    assert!(!is_valid_line("aabbccddeeff0011223344556677889 "));
    assert!(!is_valid_line("not-a-hash"));
}

#[test]
fn non_ascii_content_is_rejected() {
    assert!(!is_valid_line(&"\u{e9}".repeat(32)));
    assert!(!is_valid_line("aabbccddeeff001122334455667788\u{e9}"));
}

#[test]
fn normalization_uppercases_hex_letters() {
    assert_eq!(
        normalize_line("aabbccddeeff00112233445566778899"),
        "AABBCCDDEEFF00112233445566778899"
    );
    assert_eq!(
        normalize_line("AaBbCcDdEeFf00112233445566778899"),
        "AABBCCDDEEFF00112233445566778899"
    );
}

#[test]
fn normalization_leaves_canonical_form_alone() {
    let canonical = "AABBCCDDEEFF00112233445566778899";
    assert_eq!(normalize_line(canonical), canonical);
    assert_eq!(normalize_line("00000000000000000000000000000000"), "00000000000000000000000000000000");
}

#[test]
fn normalization_is_idempotent() {
    let once = normalize_line("deadbeefdeadbeefdeadbeefdeadbeef");
    let twice = normalize_line(&once);
    assert_eq!(once, twice);
}

#[test]
fn comparison_orders_lexicographically() {
    let zeros = "00000000000000000000000000000000";
    let a = "AABBCCDDEEFF00112233445566778899";
    let f = "FFFFFFFFFFFFFFFFFFFFFFFFFFFFFFFF";
    assert_eq!(cmp_ident(zeros, a), Comparison::Less);
    assert_eq!(cmp_ident(a, a), Comparison::Equal);
    assert_eq!(cmp_ident(f, a), Comparison::Greater);
    assert_eq!(cmp_ident(a, zeros), Comparison::Greater);
}

#[test]
fn comparison_finds_first_difference() {
    let x = "AAAAAAAAAAAAAAAAAAAAAAAAAAAAAAA0";
    let y = "AAAAAAAAAAAAAAAAAAAAAAAAAAAAAAA1";
    assert_eq!(cmp_ident(x, y), Comparison::Less);
    assert_eq!(cmp_ident(y, x), Comparison::Greater);
}
