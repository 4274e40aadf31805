//! Verified character-level comparison and ordering of string slices.

use vstd::prelude::*;

verus! {

/// Character-for-character equality of two string slices.
pub fn str_eq(a: &str, b: &str) -> (r: bool)
    ensures
        r == (a@ == b@),
{
    let alen = a.unicode_len();
    let blen = b.unicode_len();
    if alen != blen {
        assert(a@ != b@) by {
            assert(a@.len() != b@.len());
        }
        return false;
    }
    let mut i: usize = 0;
    while i < alen
        invariant
            alen == a@.len(),
            alen == b@.len(),
            i <= alen,
            forall|j: int| 0 <= j < i ==> a@[j] == b@[j],
        decreases alen - i,
    {
        if a.get_char(i) != b.get_char(i) {
            return false;
        }
        i += 1;
    }
    assert(a@ =~= b@);
    true
}

/// Lexicographic "at most" on character sequences, by code point: a proper
/// prefix comes before any extension of it.
pub open spec fn seq_char_le(a: Seq<char>, b: Seq<char>) -> bool
    decreases a.len(),
{
    if a.len() == 0 {
        true
    } else if b.len() == 0 {
        false
    } else if a[0] == b[0] {
        seq_char_le(a.drop_first(), b.drop_first())
    } else {
        (a[0] as u32) <= (b[0] as u32)
    }
}

/// Every character sequence is at most itself.
pub proof fn lemma_seq_char_le_refl(a: Seq<char>)
    ensures
        seq_char_le(a, a),
    decreases a.len(),
{
    if a.len() > 0 {
        lemma_seq_char_le_refl(a.drop_first());
    }
}

/// Of any two character sequences, one is at most the other.
pub proof fn lemma_seq_char_le_total(a: Seq<char>, b: Seq<char>)
    ensures
        seq_char_le(a, b) || seq_char_le(b, a),
    decreases a.len(),
{
    if a.len() > 0 && b.len() > 0 && a[0] == b[0] {
        lemma_seq_char_le_total(a.drop_first(), b.drop_first());
    }
}

/// Two character sequences that are each at most the other are equal.
pub proof fn lemma_seq_char_le_antisymmetric(a: Seq<char>, b: Seq<char>)
    requires
        seq_char_le(a, b),
        seq_char_le(b, a),
    ensures
        a == b,
    decreases a.len(),
{
    if a.len() == 0 {
        assert(b.len() == 0);
        assert(a =~= b);
    } else {
        assert(b.len() > 0);
        if a[0] == b[0] {
            lemma_seq_char_le_antisymmetric(a.drop_first(), b.drop_first());
            assert(a.drop_first() == b.drop_first());
            assert(a.drop_first().len() == b.drop_first().len());
            assert(a.len() == b.len());
            assert forall|j: int| 0 <= j < a.len() implies a[j] == b[j] by {
                if j > 0 {
                    assert(a[j] == a.drop_first()[j - 1]);
                    assert(b[j] == b.drop_first()[j - 1]);
                }
            }
            assert(a =~= b);
        } else {
            assert(a[0] as u32 == b[0] as u32);
            proof_char_eq_from_u32(a[0], b[0]);
        }
    }
}

/// The lexicographic "at most" is transitive.
pub proof fn lemma_seq_char_le_trans(a: Seq<char>, b: Seq<char>, c: Seq<char>)
    requires
        seq_char_le(a, b),
        seq_char_le(b, c),
    ensures
        seq_char_le(a, c),
    decreases a.len(),
{
    if a.len() > 0 {
        assert(b.len() > 0);
        assert(c.len() > 0);
        if a[0] == b[0] && b[0] == c[0] {
            lemma_seq_char_le_trans(a.drop_first(), b.drop_first(), c.drop_first());
        } else if a[0] != b[0] && b[0] != c[0] && a[0] == c[0] {
            assert(a[0] as u32 == c[0] as u32);
            assert(a[0] as u32 == b[0] as u32);
            proof_char_eq_from_u32(a[0], b[0]);
        }
    }
}

/// Two characters with one code point are one character.
proof fn proof_char_eq_from_u32(a: char, b: char)
    requires
        a as u32 == b as u32,
    ensures
        a == b,
{
    vstd::utf8::char_u32_cast(a, a as u32);
    vstd::utf8::char_u32_cast(b, b as u32);
}

/// Equal prefixes do not decide the comparison: it reduces to the suffixes.
proof fn lemma_seq_char_le_skip(a: Seq<char>, b: Seq<char>, i: int)
    requires
        0 <= i <= a.len(),
        i <= b.len(),
        forall|j: int| 0 <= j < i ==> a[j] == b[j],
    ensures
        seq_char_le(a, b) == seq_char_le(a.skip(i), b.skip(i)),
    decreases i,
{
    if i > 0 {
        assert(a[0] == b[0]);
        assert(forall|j: int| 0 <= j < a.len() - 1 ==> a.drop_first()[j] == a[j + 1]);
        assert(forall|j: int| 0 <= j < b.len() - 1 ==> b.drop_first()[j] == b[j + 1]);
        lemma_seq_char_le_skip(a.drop_first(), b.drop_first(), i - 1);
        assert(a.drop_first().skip(i - 1) =~= a.skip(i));
        assert(b.drop_first().skip(i - 1) =~= b.skip(i));
    } else {
        assert(a.skip(0) =~= a);
        assert(b.skip(0) =~= b);
    }
}

/// Character-for-character lexicographic "at most" of two string slices.
pub fn str_le(a: &str, b: &str) -> (r: bool)
    ensures
        r == seq_char_le(a@, b@),
{
    let alen = a.unicode_len();
    let blen = b.unicode_len();
    let shorter: usize = if alen < blen {
        alen
    } else {
        blen
    };
    let mut i: usize = 0;
    while i < shorter
        invariant
            alen == a@.len(),
            blen == b@.len(),
            shorter == (if alen < blen {
                alen
            } else {
                blen
            }),
            i <= shorter,
            forall|j: int| 0 <= j < i ==> a@[j] == b@[j],
        decreases shorter - i,
    {
        let ca = a.get_char(i);
        let cb = b.get_char(i);
        if ca != cb {
            proof {
                lemma_seq_char_le_skip(a@, b@, i as int);
                assert(a@.skip(i as int)[0] == a@[i as int]);
                assert(b@.skip(i as int)[0] == b@[i as int]);
            }
            return (ca as u32) <= (cb as u32);
        }
        i += 1;
    }
    proof {
        lemma_seq_char_le_skip(a@, b@, shorter as int);
        if alen > blen {
            assert(b@.skip(shorter as int).len() == 0);
            assert(a@.skip(shorter as int).len() > 0);
        } else {
            assert(a@.skip(shorter as int).len() == 0);
        }
    }
    alen <= blen
}

} // verus!
