//! Lexicographic order on identifiers.
//!
//! Identifiers are compared as opaque character strings under byte-wise
//! (character-wise) lexicographic order; no numeric interpretation is used.

use vstd::prelude::*;

verus! {

/// Byte-wise lexicographic order on character sequences: `a` comes no later
/// than `b`.
pub open spec fn lex_le(a: Seq<char>, b: Seq<char>) -> bool
    decreases a.len(),
{
    if a.len() == 0 {
        true
    } else if b.len() == 0 {
        false
    } else if a[0] != b[0] {
        a[0] < b[0]
    } else {
        lex_le(a.drop_first(), b.drop_first())
    }
}

/// Strict lexicographic order: `a` comes before `b`.
pub open spec fn lex_lt(a: Seq<char>, b: Seq<char>) -> bool {
    lex_le(a, b) && a != b
}

/// Every sequence compares no later than itself.
pub proof fn lemma_lex_le_refl(a: Seq<char>)
    ensures
        lex_le(a, a),
    decreases a.len(),
{
    if a.len() > 0 {
        lemma_lex_le_refl(a.drop_first());
    }
}

/// Two sequences that compare no later than each other are equal.
pub proof fn lemma_lex_le_antisym(a: Seq<char>, b: Seq<char>)
    requires
        lex_le(a, b),
        lex_le(b, a),
    ensures
        a == b,
    decreases a.len(),
{
    if a.len() == 0 {
        assert(b.len() == 0);
        assert(a =~= b);
    } else {
        assert(a[0] == b[0]);
        lemma_lex_le_antisym(a.drop_first(), b.drop_first());
        assert(a.len() == b.len());
        assert forall|i: int| 0 <= i < a.len() implies a[i] == b[i] by {
            if i > 0 {
                assert(a[i] == a.drop_first()[i - 1]);
                assert(b[i] == b.drop_first()[i - 1]);
            }
        }
        assert(a =~= b);
    }
}

/// The order is transitive.
pub proof fn lemma_lex_le_trans(a: Seq<char>, b: Seq<char>, c: Seq<char>)
    requires
        lex_le(a, b),
        lex_le(b, c),
    ensures
        lex_le(a, c),
    decreases a.len(),
{
    if a.len() > 0 && b.len() > 0 && c.len() > 0 {
        if a[0] == b[0] && b[0] == c[0] {
            lemma_lex_le_trans(a.drop_first(), b.drop_first(), c.drop_first());
        }
    }
}

/// On sequences of equal length, the first position where they differ decides
/// the strict order.
pub proof fn lemma_lex_lt_first_diff(a: Seq<char>, b: Seq<char>, i: int)
    requires
        a.len() == b.len(),
        0 <= i < a.len(),
        forall|j: int| 0 <= j < i ==> a[j] == b[j],
        a[i] < b[i],
    ensures
        lex_lt(a, b),
    decreases i,
{
    if i == 0 {
        assert(a[0] != b[0]);
        assert(a != b) by {
            assert(a[0] != b[0]);
        }
    } else {
        assert(a[0] == b[0]);
        assert forall|j: int| 0 <= j < i - 1 implies a.drop_first()[j] == b.drop_first()[j] by {
            assert(a.drop_first()[j] == a[j + 1]);
        }
        assert(a.drop_first()[i - 1] == a[i]);
        lemma_lex_lt_first_diff(a.drop_first(), b.drop_first(), i - 1);
        assert(a != b) by {
            assert(a[i] != b[i]);
        }
    }
}

/// The outcome of comparing two identifiers.
#[derive(PartialEq, Eq, Structural, Clone, Copy, Debug)]
pub enum Comparison {
    Less,
    Equal,
    Greater,
}

/// Three-way lexicographic comparison of two canonical identifiers.
pub fn cmp_ident(a: &str, b: &str) -> (r: Comparison)
    requires
        crate::ident::is_canonical_identifier(a@),
        crate::ident::is_canonical_identifier(b@),
    ensures
        r == Comparison::Less ==> lex_lt(a@, b@),
        r == Comparison::Equal ==> a@ == b@,
        r == Comparison::Greater ==> lex_lt(b@, a@),
{
    let mut i: usize = 0;
    while i < crate::ident::IDENT_LEN
        invariant
            0 <= i <= crate::ident::IDENT_LEN,
            crate::ident::is_canonical_identifier(a@),
            crate::ident::is_canonical_identifier(b@),
            forall|j: int| 0 <= j < i ==> a@[j] == b@[j],
        decreases crate::ident::IDENT_LEN - i,
    {
        let x = a.get_ascii(i);
        let y = b.get_ascii(i);
        proof {
            assert(a@[i as int] as u8 == x);
            assert(b@[i as int] as u8 == y);
            assert('\0' <= a@[i as int] <= '\u{7f}');
            assert('\0' <= b@[i as int] <= '\u{7f}');
        }
        if x < y {
            proof {
                lemma_lex_lt_first_diff(a@, b@, i as int);
            }
            return Comparison::Less;
        }
        if x > y {
            proof {
                lemma_lex_lt_first_diff(b@, a@, i as int);
            }
            return Comparison::Greater;
        }
        i += 1;
    }
    proof {
        assert(a@ =~= b@);
    }
    Comparison::Equal
}

} // verus!
