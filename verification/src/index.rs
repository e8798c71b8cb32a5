//! The hash-corpus index.
//!
//! The loader turns raw lines into validated, normalized identifiers; the
//! index orders them and answers exact-match membership queries by binary
//! search. Malformed lines are silently dropped, duplicates are retained,
//! and once built the index is never mutated.

use vstd::prelude::*;
use crate::ident::{
    is_identifier, is_canonical_identifier, normalize_seq, is_valid_line, normalize_line,
};
use crate::order::{
    lex_le, lex_lt, lemma_lex_le_refl, lemma_lex_le_antisym,
    lemma_lex_le_trans, cmp_ident, Comparison,
};

verus! {

/// A sequence of identifiers in non-decreasing lexicographic order.
pub open spec fn sorted(s: Seq<Seq<char>>) -> bool {
    forall|i: int, j: int| 0 <= i <= j < s.len() ==> lex_le(s[i], s[j])
}

/// Every entry is an identifier in canonical (uppercase) form.
pub open spec fn all_canonical(s: Seq<Seq<char>>) -> bool {
    forall|i: int| 0 <= i < s.len() ==> is_canonical_identifier(#[trigger] s[i])
}

/// What the loader produces from a sequence of raw lines: the valid lines,
/// in input order, each normalized to its canonical form.
pub open spec fn normalized_valid_lines(lines: Seq<Seq<char>>) -> Seq<Seq<char>>
    decreases lines.len(),
{
    if lines.len() == 0 {
        Seq::empty()
    } else {
        let rest = normalized_valid_lines(lines.drop_last());
        if is_identifier(lines.last()) {
            rest.push(normalize_seq(lines.last()))
        } else {
            rest
        }
    }
}

/// Validates and normalizes raw lines: the result holds exactly the valid
/// lines, in input order, each in canonical form. Malformed lines are
/// silently dropped; duplicates are retained.
pub fn load_corpus(lines: &Vec<String>) -> (r: Vec<String>)
    ensures
        r.deep_view() == normalized_valid_lines(lines.deep_view()),
        all_canonical(r.deep_view()),
{
    let mut out: Vec<String> = Vec::new();
    let mut i: usize = 0;
    while i < lines.len()
        invariant
            i <= lines.len(),
            out.deep_view() == normalized_valid_lines(lines.deep_view().take(i as int)),
            all_canonical(out.deep_view()),
        decreases lines.len() - i,
    {
        let ghost prev = out.deep_view();
        let s = &lines[i];
        if is_valid_line(s.as_str()) {
            let n = normalize_line(s.as_str());
            let ghost nv = n@;
            out.push(n);
            proof {
                assert(out.deep_view() =~= prev.push(nv));
            }
        }
        proof {
            let dv = lines.deep_view();
            assert(dv.take(i + 1).drop_last() =~= dv.take(i as int));
            assert(dv.take(i + 1).last() == dv[i as int]);
            assert(out.deep_view() =~= normalized_valid_lines(dv.take(i + 1)));
        }
        i += 1;
    }
    proof {
        assert(lines.deep_view().take(lines.len() as int) =~= lines.deep_view());
    }
    out
}

/// Returns the position at which `x` can be placed in the sorted sequence
/// `v` so that the sequence stays sorted: everything before it is strictly
/// below `x`, everything from it on is at least `x`.
fn insertion_point(v: &Vec<String>, x: &String) -> (pos: usize)
    requires
        sorted(v.deep_view()),
        all_canonical(v.deep_view()),
        is_canonical_identifier(x@),
    ensures
        pos <= v.len(),
        forall|j: int| 0 <= j < pos ==> lex_lt(#[trigger] v.deep_view()[j], x@),
        forall|j: int| pos <= j < v.len() ==> lex_le(x@, #[trigger] v.deep_view()[j]),
{
    let ghost dv = v.deep_view();
    let mut pos: usize = 0;
    loop
        invariant
            pos <= v.len(),
            dv == v.deep_view(),
            sorted(dv),
            all_canonical(dv),
            is_canonical_identifier(x@),
            forall|j: int| 0 <= j < pos ==> lex_lt(#[trigger] dv[j], x@),
        decreases v.len() - pos,
    {
        if pos == v.len() {
            return pos;
        }
        proof {
            assert(dv[pos as int] == v@[pos as int]@);
            assert(is_canonical_identifier(dv[pos as int]));
        }
        match cmp_ident(v[pos].as_str(), x.as_str()) {
            Comparison::Less => {
                pos = pos + 1;
            },
            Comparison::Equal => {
                proof {
                    lemma_lex_le_refl(x@);
                    assert forall|j: int| pos <= j < dv.len() implies lex_le(
                        x@,
                        #[trigger] dv[j],
                    ) by {
                        assert(lex_le(dv[pos as int], dv[j]));
                        lemma_lex_le_trans(x@, dv[pos as int], dv[j]);
                    }
                }
                return pos;
            },
            Comparison::Greater => {
                proof {
                    assert(lex_le(x@, dv[pos as int]));
                    assert forall|j: int| pos <= j < dv.len() implies lex_le(
                        x@,
                        #[trigger] dv[j],
                    ) by {
                        assert(lex_le(dv[pos as int], dv[j]));
                        lemma_lex_le_trans(x@, dv[pos as int], dv[j]);
                    }
                }
                return pos;
            },
        }
    }
}

/// Places one canonical identifier into a sorted sequence, keeping it sorted.
fn sorted_insert(v: &mut Vec<String>, x: String)
    requires
        sorted(old(v).deep_view()),
        all_canonical(old(v).deep_view()),
        is_canonical_identifier(x@),
    ensures
        sorted(final(v).deep_view()),
        all_canonical(final(v).deep_view()),
        final(v).deep_view().to_multiset() == old(v).deep_view().to_multiset().insert(x@),
{
    let ghost dv = v.deep_view();
    let ghost xv = x@;
    let pos = insertion_point(v, &x);
    v.insert(pos, x);
    proof {
        assert(v.deep_view() =~= dv.insert(pos as int, xv));
        let dw = v.deep_view();
        assert forall|i: int, j: int| 0 <= i <= j < dw.len() implies lex_le(dw[i], dw[j]) by {
            if i < pos && j == pos {
                assert(lex_lt(dv[i], xv));
            } else if i == pos && j > pos {
                assert(lex_le(xv, dv[j - 1]));
            } else if i < pos && j > pos {
                assert(lex_lt(dv[i], xv));
                assert(lex_le(xv, dv[j - 1]));
                lemma_lex_le_trans(dv[i], xv, dv[j - 1]);
            } else if i == pos && j == pos {
                lemma_lex_le_refl(xv);
            } else {
                assert(lex_le(dv[if i < pos { i } else { i - 1 }], dv[if j < pos { j } else { j - 1 }]));
            }
        }
        vstd::seq_lib::to_multiset_insert(dv, pos as int, xv);
    }
}

/// Orders a collection of canonical identifiers: the result is sorted and
/// holds exactly the given identifiers, duplicates included.
pub fn build_index(idents: &Vec<String>) -> (r: Vec<String>)
    requires
        all_canonical(idents.deep_view()),
    ensures
        sorted(r.deep_view()),
        all_canonical(r.deep_view()),
        r.deep_view().to_multiset() == idents.deep_view().to_multiset(),
{
    let ghost dv = idents.deep_view();
    let mut out: Vec<String> = Vec::new();
    proof {
        assert(out.deep_view() =~= Seq::<Seq<char>>::empty());
        assert(dv.take(0) =~= Seq::<Seq<char>>::empty());
    }
    let mut i: usize = 0;
    while i < idents.len()
        invariant
            i <= idents.len(),
            dv == idents.deep_view(),
            all_canonical(dv),
            sorted(out.deep_view()),
            all_canonical(out.deep_view()),
            out.deep_view().to_multiset() == dv.take(i as int).to_multiset(),
        decreases idents.len() - i,
    {
        let x = idents[i].clone();
        proof {
            assert(x@ == dv[i as int]);
        }
        sorted_insert(&mut out, x);
        proof {
            assert(dv.take(i + 1) =~= dv.take(i as int).push(dv[i as int]));
            vstd::seq_lib::to_multiset_build(dv.take(i as int), dv[i as int]);
        }
        i += 1;
    }
    proof {
        assert(dv.take(idents.len() as int) =~= dv);
    }
    out
}

/// Builds the sorted index from raw lines: validation, normalization, then
/// ordering. The result is sorted and holds exactly the valid lines of the
/// input, normalized, duplicates included.
pub fn load_hashes(lines: Vec<String>) -> (r: Vec<String>)
    ensures
        sorted(r.deep_view()),
        all_canonical(r.deep_view()),
        r.deep_view().to_multiset() == normalized_valid_lines(lines.deep_view()).to_multiset(),
{
    let corpus = load_corpus(&lines);
    build_index(&corpus)
}

/// Exact-match membership query over a sorted sequence of canonical
/// identifiers, by binary search over a closed interval.
pub fn binary_search(v: &Vec<String>, val: &String) -> (r: bool)
    requires
        sorted(v.deep_view()),
        all_canonical(v.deep_view()),
        is_canonical_identifier(val@),
    ensures
        r == v.deep_view().contains(val@),
{
    let ghost dv = v.deep_view();
    if v.len() == 0 {
        return false;
    }
    let mut low: usize = 0;
    let mut high: usize = v.len() - 1;
    loop
        invariant
            low <= high < v.len(),
            dv == v.deep_view(),
            sorted(dv),
            all_canonical(dv),
            is_canonical_identifier(val@),
            forall|j: int| 0 <= j < dv.len() && dv[j] == val@ ==> low <= j <= high,
        decreases high - low,
    {
        let mid = low + (high - low) / 2;
        proof {
            assert(dv[mid as int] == v@[mid as int]@);
            assert(is_canonical_identifier(dv[mid as int]));
        }
        match cmp_ident(v[mid].as_str(), val.as_str()) {
            Comparison::Equal => {
                proof {
                    assert(dv[mid as int] == val@);
                }
                return true;
            },
            Comparison::Less => {
                proof {
                    assert forall|j: int| 0 <= j <= mid implies dv[j] != val@ by {
                        if dv[j] == val@ {
                            assert(lex_le(dv[j], dv[mid as int]));
                            lemma_lex_le_antisym(val@, dv[mid as int]);
                        }
                    }
                }
                if mid == high {
                    proof {
                        assert(forall|j: int| 0 <= j < dv.len() ==> dv[j] != val@);
                        assert(!dv.contains(val@));
                    }
                    return false;
                }
                low = mid + 1;
            },
            Comparison::Greater => {
                proof {
                    assert forall|j: int| mid <= j < dv.len() implies dv[j] != val@ by {
                        if dv[j] == val@ {
                            assert(lex_le(dv[mid as int], dv[j]));
                            lemma_lex_le_antisym(val@, dv[mid as int]);
                        }
                    }
                }
                if mid == low {
                    proof {
                        assert(forall|j: int| 0 <= j < dv.len() ==> dv[j] != val@);
                        assert(!dv.contains(val@));
                    }
                    return false;
                }
                high = mid - 1;
            },
        }
    }
}

/// The index in its ready state: a sorted, canonical, immutable collection
/// of identifiers. A value of this type can only be obtained through
/// [`HashIndex::build`], so its well-formedness invariant always holds and
/// it is safe to share read-only among any number of queriers.
pub struct HashIndex {
    entries: Vec<String>,
}

impl View for HashIndex {
    type V = Seq<Seq<char>>;

    closed spec fn view(&self) -> Seq<Seq<char>> {
        self.entries.deep_view()
    }
}

impl HashIndex {
    /// The invariant of a ready index: sorted, every entry canonical.
    pub open spec fn wf(&self) -> bool {
        sorted(self@) && all_canonical(self@)
    }

    /// Builds a ready index from raw corpus lines: validation, normalization,
    /// then ordering.
    pub fn build(lines: Vec<String>) -> (r: HashIndex)
        ensures
            r.wf(),
            r@.to_multiset() == normalized_valid_lines(lines.deep_view()).to_multiset(),
    {
        HashIndex { entries: load_hashes(lines) }
    }

    /// The number of identifiers held, duplicates included.
    pub fn len(&self) -> (n: usize)
        ensures
            n == self@.len(),
    {
        self.entries.len()
    }

    /// Exact-match membership query for a canonical identifier.
    pub fn contains(&self, val: &String) -> (r: bool)
        requires
            self.wf(),
            is_canonical_identifier(val@),
        ensures
            r == self@.contains(val@),
    {
        binary_search(&self.entries, val)
    }
}

/// The valid lines of a corpus reappear, normalized, among what the loader
/// produces.
proof fn lemma_nvl_contains(lines: Seq<Seq<char>>, i: int)
    requires
        0 <= i < lines.len(),
        is_identifier(lines[i]),
    ensures
        normalized_valid_lines(lines).contains(normalize_seq(lines[i])),
    decreases lines.len(),
{
    let nvl = normalized_valid_lines(lines);
    if i == lines.len() - 1 {
        assert(nvl.last() == normalize_seq(lines[i]));
        assert(nvl.contains(normalize_seq(lines[i])));
    } else {
        assert(lines.drop_last()[i] == lines[i]);
        lemma_nvl_contains(lines.drop_last(), i);
        let rest = normalized_valid_lines(lines.drop_last());
        let k = choose|k: int| 0 <= k < rest.len() && rest[k] == normalize_seq(lines[i]);
        assert(nvl[k] == normalize_seq(lines[i]));
    }
}

/// Everything the loader produces is the normalization of some valid line
/// of the corpus.
proof fn lemma_nvl_origin(lines: Seq<Seq<char>>, x: Seq<char>)
    requires
        normalized_valid_lines(lines).contains(x),
    ensures
        exists|i: int|
            0 <= i < lines.len() && is_identifier(#[trigger] lines[i]) && normalize_seq(lines[i])
                == x,
    decreases lines.len(),
{
    let nvl = normalized_valid_lines(lines);
    let rest = normalized_valid_lines(lines.drop_last());
    if is_identifier(lines.last()) && x == normalize_seq(lines.last()) {
        assert(lines[lines.len() - 1] == lines.last());
    } else {
        let k = choose|k: int| 0 <= k < nvl.len() && nvl[k] == x;
        assert(rest[k] == x);
        lemma_nvl_origin(lines.drop_last(), x);
        let i = choose|i: int|
            0 <= i < lines.drop_last().len() && is_identifier(#[trigger] lines.drop_last()[i])
                && normalize_seq(lines.drop_last()[i]) == x;
        assert(lines[i] == lines.drop_last()[i]);
    }
}

/// Round-trip membership: every identifier present in the source corpus is,
/// after normalization, present in any index built from that corpus.
pub proof fn lemma_round_trip(lines: Seq<Seq<char>>, index: Seq<Seq<char>>, i: int)
    requires
        index.to_multiset() == normalized_valid_lines(lines).to_multiset(),
        0 <= i < lines.len(),
        is_identifier(lines[i]),
    ensures
        index.contains(normalize_seq(lines[i])),
{
    broadcast use vstd::seq_lib::group_to_multiset_ensures;

    lemma_nvl_contains(lines, i);
    let y = normalize_seq(lines[i]);
    assert(normalized_valid_lines(lines).to_multiset().count(y) > 0);
    assert(index.to_multiset().count(y) > 0);
}

/// Negative membership: an identifier that no valid corpus line normalizes
/// to is absent from any index built from that corpus.
pub proof fn lemma_negative_membership(lines: Seq<Seq<char>>, index: Seq<Seq<char>>, x: Seq<char>)
    requires
        index.to_multiset() == normalized_valid_lines(lines).to_multiset(),
        forall|i: int|
            0 <= i < lines.len() ==> !(is_identifier(#[trigger] lines[i]) && normalize_seq(
                lines[i],
            ) == x),
    ensures
        !index.contains(x),
{
    broadcast use vstd::seq_lib::group_to_multiset_ensures;

    if index.contains(x) {
        assert(index.to_multiset().count(x) > 0);
        assert(normalized_valid_lines(lines).to_multiset().count(x) > 0);
        assert(normalized_valid_lines(lines).contains(x));
        lemma_nvl_origin(lines, x);
    }
}

/// Empty corpus: a source with no lines, or none that are valid, yields an
/// index of length zero, and no query against it finds anything.
pub proof fn lemma_empty_corpus(lines: Seq<Seq<char>>, index: Seq<Seq<char>>)
    requires
        index.to_multiset() == normalized_valid_lines(lines).to_multiset(),
        forall|i: int| 0 <= i < lines.len() ==> !is_identifier(#[trigger] lines[i]),
    ensures
        index.len() == 0,
        forall|x: Seq<char>| !index.contains(x),
{
    broadcast use vstd::seq_lib::group_to_multiset_ensures;

    lemma_nvl_empty(lines);
    assert(normalized_valid_lines(lines).to_multiset().len() == 0);
}

/// A corpus without valid lines loads to nothing.
proof fn lemma_nvl_empty(lines: Seq<Seq<char>>)
    requires
        forall|i: int| 0 <= i < lines.len() ==> !is_identifier(#[trigger] lines[i]),
    ensures
        normalized_valid_lines(lines).len() == 0,
    decreases lines.len(),
{
    if lines.len() > 0 {
        assert(lines[lines.len() - 1] == lines.last());
        lemma_nvl_empty(lines.drop_last());
    }
}

/// Case-normalization idempotence for queries: querying a mixed-case
/// spelling after normalizing it, and querying the canonical uppercase form
/// (which is its own normalization), are queries for the same value and so
/// give the same verdict.
pub proof fn lemma_case_normalization(index: Seq<Seq<char>>, s: Seq<char>)
    ensures
        index.contains(normalize_seq(s)) == index.contains(normalize_seq(normalize_seq(s))),
{
    crate::ident::lemma_normalize_idempotent(s);
}

} // verus!
