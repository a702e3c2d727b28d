//! Lexicographic order on strings, and sorting artifacts by file name.
//!
//! `String`'s order compares UTF-8 bytes; since UTF-8 preserves the order of
//! code points, that is the lexicographic order on characters defined here.

use vstd::prelude::*;

use crate::archiver::BuiltArtifact;
use crate::text::chars_of;

verus! {

broadcast use {vstd::string::group_string_axioms, vstd::seq_lib::group_to_multiset_ensures};

/// `a` comes strictly before `b`: at the first difference `a` holds the
/// smaller character, or `a` is a proper prefix of `b`.
pub open spec fn lex_lt(a: Seq<char>, b: Seq<char>) -> bool
    decreases a.len(),
{
    if b.len() == 0 {
        false
    } else if a.len() == 0 {
        true
    } else if (a[0] as u32) < (b[0] as u32) {
        true
    } else if a[0] == b[0] {
        lex_lt(a.drop_first(), b.drop_first())
    } else {
        false
    }
}

/// `a` comes before `b` or equals it.
pub open spec fn lex_le(a: Seq<char>, b: Seq<char>) -> bool {
    !lex_lt(b, a)
}

/// The order is irreflexive.
pub proof fn lemma_lex_irreflexive(a: Seq<char>)
    ensures
        !lex_lt(a, a),
    decreases a.len(),
{
    if a.len() > 0 {
        lemma_lex_irreflexive(a.drop_first());
    }
}

/// Two different strings are ordered one way or the other, never both.
pub proof fn lemma_lex_total(a: Seq<char>, b: Seq<char>)
    ensures
        a != b ==> lex_lt(a, b) || lex_lt(b, a),
        !(lex_lt(a, b) && lex_lt(b, a)),
    decreases a.len(),
{
    if a.len() == 0 && b.len() == 0 {
        assert(a =~= b);
    } else if a.len() == 0 || b.len() == 0 {
    } else if a[0] == b[0] {
        lemma_lex_total(a.drop_first(), b.drop_first());
        if a != b {
            assert(a =~= seq![a[0]] + a.drop_first());
            assert(b =~= seq![b[0]] + b.drop_first());
        }
    } else {
        let x = a[0] as u32;
        let y = b[0] as u32;
        vstd::utf8::char_u32_cast(a[0], x);
        vstd::utf8::char_u32_cast(b[0], y);
        assert(x != y);
        assert(x < y || y < x);
    }
}

/// The order is transitive.
pub proof fn lemma_lex_transitive(a: Seq<char>, b: Seq<char>, c: Seq<char>)
    requires
        lex_lt(a, b),
        lex_lt(b, c),
    ensures
        lex_lt(a, c),
    decreases a.len(),
{
    if a.len() > 0 && b.len() > 0 && c.len() > 0 && a[0] == b[0] && b[0] == c[0] {
        lemma_lex_transitive(a.drop_first(), b.drop_first(), c.drop_first());
    }
}

/// `lex_le` is transitive.
pub proof fn lemma_lex_le_transitive(a: Seq<char>, b: Seq<char>, c: Seq<char>)
    requires
        lex_le(a, b),
        lex_le(b, c),
    ensures
        lex_le(a, c),
{
    if lex_lt(c, a) {
        lemma_lex_total(a, b);
        lemma_lex_total(b, c);
        if a == b {
        } else if b == c {
        } else {
            lemma_lex_transitive(a, b, c);
            lemma_lex_total(a, c);
        }
    }
}

/// Whether `a` comes strictly before `b`.
pub fn str_lt(a: &str, b: &str) -> (r: bool)
    ensures
        r == lex_lt(a@, b@),
{
    let va = chars_of(a);
    let vb = chars_of(b);
    let mut i: usize = 0;
    assert(va@.skip(0) =~= va@);
    assert(vb@.skip(0) =~= vb@);
    loop
        invariant
            va@ == a@,
            vb@ == b@,
            i <= va.len(),
            i <= vb.len(),
            lex_lt(a@, b@) == lex_lt(va@.skip(i as int), vb@.skip(i as int)),
        decreases va.len() - i,
    {
        if i == vb.len() {
            return false;
        }
        if i == va.len() {
            return true;
        }
        let x = va[i];
        let y = vb[i];
        if (x as u32) < (y as u32) {
            return true;
        }
        if x != y {
            return false;
        }
        assert(va@.skip(i as int).drop_first() =~= va@.skip(i + 1));
        assert(vb@.skip(i as int).drop_first() =~= vb@.skip(i + 1));
        i = i + 1;
    }
}

/// The artifacts are in ascending order of file name.
pub open spec fn sorted_by_file_name(s: Seq<BuiltArtifact>) -> bool {
    forall|i: int, j: int|
        0 <= i < j < s.len() ==> lex_le(#[trigger] s[i].file_name@, #[trigger] s[j].file_name@)
}

/// `r` is `v` rearranged by `perm` (`r[i]` is `v[perm[i]]`, no position of
/// `v` used twice), and artifacts with the same file name keep their order.
pub open spec fn stable_rearrangement(r: Seq<BuiltArtifact>, v: Seq<BuiltArtifact>, perm: Seq<int>) -> bool {
    &&& r.len() == v.len()
    &&& perm.len() == r.len()
    &&& forall|i: int| 0 <= i < r.len() ==> 0 <= #[trigger] perm[i] < v.len() && r[i] == v[perm[i]]
    &&& forall|i: int, j: int| 0 <= i < j < r.len() ==> #[trigger] perm[i] != #[trigger] perm[j]
    &&& forall|i: int, j: int|
        0 <= i < j < r.len() && (#[trigger] r[i]).file_name@ == (#[trigger] r[j]).file_name@
            ==> perm[i] < perm[j]
}

/// Sorts artifacts by file name, stably:
/// the result holds the same artifacts, in ascending order of file name, and
/// artifacts with equal file names keep the order they came in.
pub fn sort_artifacts(v: Vec<BuiltArtifact>) -> (r: Vec<BuiltArtifact>)
    ensures
        r@.to_multiset() == v@.to_multiset(),
        sorted_by_file_name(r@),
        exists|perm: Seq<int>| stable_rearrangement(r@, v@, perm),
{
    let mut rest = v;
    let n = rest.len();
    let ghost orig = rest@;
    let mut r: Vec<BuiltArtifact> = Vec::new();
    let mut k: usize = 0;
    let ghost mut perm: Seq<int> = Seq::empty();
    assert(orig.skip(0) =~= orig);
    assert(orig.take(0) =~= Seq::<BuiltArtifact>::empty());
    while rest.len() > 0
        invariant
            orig.len() == n,
            k <= orig.len(),
            rest@ == orig.skip(k as int),
            r@.to_multiset() == orig.take(k as int).to_multiset(),
            sorted_by_file_name(r@),
            stable_rearrangement(r@, orig.take(k as int), perm),
        decreases rest.len(),
    {
        let x = rest.remove(0);
        assert(orig.skip(k as int)[0] == orig[k as int]);
        assert(orig.skip(k as int).remove(0) =~= orig.skip(k + 1));
        let mut pos = r.len();
        while pos > 0 && str_lt(x.file_name.as_str(), r[pos - 1].file_name.as_str())
            invariant
                pos <= r.len(),
                sorted_by_file_name(r@),
                forall|j: int| pos <= j < r.len() ==> lex_lt(x.file_name@, #[trigger] r@[j].file_name@),
            decreases pos,
        {
            pos = pos - 1;
        }
        let ghost old_r = r@;
        let ghost old_perm = perm;
        r.insert(pos, x);
        proof {
            perm = old_perm.insert(pos as int, k as int);
        }
        proof {
            assert(r@ == old_r.insert(pos as int, x));
            assert forall|i: int, j: int| 0 <= i < j < r@.len() implies lex_le(
                #[trigger] r@[i].file_name@,
                #[trigger] r@[j].file_name@,
            ) by {
                if i < pos && j == pos {
                    if i < pos - 1 {
                        assert(lex_le(old_r[i].file_name@, old_r[pos - 1].file_name@));
                    } else {
                        lemma_lex_irreflexive(old_r[i].file_name@);
                    }
                    lemma_lex_le_transitive(old_r[i].file_name@, old_r[pos - 1].file_name@, x.file_name@);
                } else if i == pos && j > pos {
                    lemma_lex_total(x.file_name@, old_r[j - 1].file_name@);
                } else if i < pos && j > pos {
                    assert(lex_le(old_r[i].file_name@, old_r[j - 1].file_name@));
                } else if i > pos {
                    assert(lex_le(old_r[i - 1].file_name@, old_r[j - 1].file_name@));
                } else {
                    assert(lex_le(old_r[i].file_name@, old_r[j].file_name@));
                }
            }
            assert(r@.remove(pos as int) =~= old_r);
            assert(r@[pos as int] == x);
            assert(r@.contains(x));
            assert(orig.take(k + 1) =~= orig.take(k as int).push(x));
            assert(r@.to_multiset() =~= old_r.to_multiset().insert(x));
            let t = orig.take(k + 1);
            assert forall|i: int| 0 <= i < r@.len() implies 0 <= #[trigger] perm[i] < t.len()
                && r@[i] == t[perm[i]] by {
                if i < pos {
                    assert(perm[i] == old_perm[i]);
                } else if i > pos {
                    assert(perm[i] == old_perm[i - 1]);
                }
            }
            assert forall|i: int, j: int| 0 <= i < j < r@.len() implies #[trigger] perm[i]
                != #[trigger] perm[j] by {
                if i < pos && j < pos {
                    assert(old_perm[i] != old_perm[j]);
                } else if i > pos && j > pos {
                    assert(old_perm[i - 1] != old_perm[j - 1]);
                } else if i < pos && j > pos {
                    assert(old_perm[i] != old_perm[j - 1]);
                } else if i == pos {
                    assert(old_perm[j - 1] < k);
                } else {
                    assert(old_perm[i] < k);
                }
            }
            assert forall|i: int, j: int|
                0 <= i < j < r@.len() && (#[trigger] r@[i]).file_name@ == (
                #[trigger] r@[j]).file_name@ implies perm[i] < perm[j] by {
                if i < pos && j < pos {
                    assert(old_r[i] == r@[i] && old_r[j] == r@[j]);
                } else if i > pos && j > pos {
                    assert(old_r[i - 1] == r@[i] && old_r[j - 1] == r@[j]);
                } else if i < pos && j > pos {
                    assert(old_r[i] == r@[i] && old_r[j - 1] == r@[j]);
                } else if i == pos {
                    assert(lex_lt(x.file_name@, old_r[j - 1].file_name@));
                    lemma_lex_irreflexive(x.file_name@);
                } else {
                    assert(old_perm[i] < k);
                }
            }
            assert(stable_rearrangement(r@, orig.take(k + 1), perm));
        }
        k = k + 1;
    }
    assert(orig.take(k as int) =~= orig);
    assert(stable_rearrangement(r@, orig, perm));
    r
}

} // verus!
