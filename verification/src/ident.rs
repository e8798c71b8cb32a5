//! Validation and normalization of identifiers.
//!
//! An identifier is a line of exactly 32 characters drawn from the alphabet
//! `[0-9A-Fa-f]`; its canonical form is uppercase. Lines that do not match
//! the format are rejected (and silently dropped by the loader).

use vstd::prelude::*;

verus! {

/// The number of characters in every identifier.
pub const IDENT_LEN: usize = 32;

/// A decimal digit or a hexadecimal letter of either case.
pub open spec fn is_hex_digit(c: char) -> bool {
    ('0' <= c && c <= '9') || ('a' <= c && c <= 'f') || ('A' <= c && c <= 'F')
}

/// A decimal digit or an uppercase hexadecimal letter.
pub open spec fn is_canonical_hex_digit(c: char) -> bool {
    ('0' <= c && c <= '9') || ('A' <= c && c <= 'F')
}

/// A line that is accepted by the loader: exactly 32 hexadecimal characters,
/// either case, nothing else.
pub open spec fn is_identifier(s: Seq<char>) -> bool {
    s.len() == IDENT_LEN && forall|i: int| 0 <= i < s.len() ==> is_hex_digit(#[trigger] s[i])
}

/// An identifier already in canonical (uppercase) form.
pub open spec fn is_canonical_identifier(s: Seq<char>) -> bool {
    s.len() == IDENT_LEN && forall|i: int|
        0 <= i < s.len() ==> is_canonical_hex_digit(#[trigger] s[i])
}

/// The uppercase image of one character: a lowercase hexadecimal letter is
/// mapped to its uppercase form, every other character is left alone.
pub open spec fn upper_hex_char(c: char) -> char {
    if 'a' <= c && c <= 'f' {
        (((c as u8) - 32) as char)
    } else {
        c
    }
}

/// The canonical (uppercase) form of a line.
pub open spec fn normalize_seq(s: Seq<char>) -> Seq<char> {
    s.map_values(|c: char| upper_hex_char(c))
}

/// A canonical identifier is already its own canonical form, so normalizing
/// twice is the same as normalizing once.
pub proof fn lemma_normalize_idempotent(s: Seq<char>)
    ensures
        normalize_seq(normalize_seq(s)) == normalize_seq(s),
{
    assert(normalize_seq(normalize_seq(s)) =~= normalize_seq(s));
}

/// Normalizing an identifier yields a canonical identifier of the same length.
pub proof fn lemma_normalize_identifier(s: Seq<char>)
    requires
        is_identifier(s),
    ensures
        is_canonical_identifier(normalize_seq(s)),
{
    assert forall|i: int| 0 <= i < normalize_seq(s).len() implies is_canonical_hex_digit(
        #[trigger] normalize_seq(s)[i],
    ) by {
        assert(is_hex_digit(s[i]));
    }
}

/// Decides whether a line is a well-formed identifier: exactly 32 characters,
/// each a hexadecimal digit of either case.
pub fn is_valid_line(s: &str) -> (r: bool)
    ensures
        r == is_identifier(s@),
{
    if !s.is_ascii() {
        proof {
            let i = choose|i: int| !(0 <= i < s@.len() ==> '\0' <= #[trigger] s@[i] <= '\u{7f}');
            if s@.len() == IDENT_LEN {
                assert(!is_hex_digit(s@[i]));
            }
        }
        return false;
    }
    let n = s.unicode_len();
    if n != IDENT_LEN {
        return false;
    }
    let mut i: usize = 0;
    while i < IDENT_LEN
        invariant
            0 <= i <= IDENT_LEN,
            s.is_ascii(),
            s@.len() == IDENT_LEN,
            forall|j: int| 0 <= j < i ==> is_hex_digit(#[trigger] s@[j]),
        decreases IDENT_LEN - i,
    {
        let b = s.get_ascii(i);
        let ok = (b >= 48 && b <= 57) || (b >= 97 && b <= 102) || (b >= 65 && b <= 70);
        proof {
            assert(s@[i as int] as u8 == b);
            assert('\0' <= s@[i as int] <= '\u{7f}');
            assert(ok == is_hex_digit(s@[i as int]));
        }
        if !ok {
            return false;
        }
        i += 1;
    }
    true
}

/// Relies on `String::push`, which appends the given character to the end of
/// the string.
#[verifier::external_body]
fn push_char(s: &mut String, c: char)
    ensures
        final(s)@ == old(s)@.push(c),
{
    s.push(c);
}

/// Produces the canonical form of an identifier: the same characters with
/// every lowercase hexadecimal letter replaced by its uppercase form.
pub fn normalize_line(s: &str) -> (r: String)
    requires
        is_identifier(s@),
    ensures
        r@ == normalize_seq(s@),
        is_canonical_identifier(r@),
{
    let mut out = String::new();
    let mut i: usize = 0;
    while i < IDENT_LEN
        invariant
            0 <= i <= IDENT_LEN,
            is_identifier(s@),
            out@ =~= normalize_seq(s@).take(i as int),
        decreases IDENT_LEN - i,
    {
        let c = s.get_char(i);
        proof {
            assert(is_hex_digit(s@[i as int]));
        }
        let u: char = if c >= 'a' && c <= 'f' {
            ((c as u8) - 32) as char
        } else {
            c
        };
        proof {
            assert(u == upper_hex_char(s@[i as int]));
        }
        push_char(&mut out, u);
        proof {
            assert(out@ =~= normalize_seq(s@).take(i + 1));
        }
        i += 1;
    }
    proof {
        assert(out@ =~= normalize_seq(s@));
        lemma_normalize_identifier(s@);
    }
    out
}

} // verus!
