use vstd::prelude::*;

verus! {

/// Lexicographic comparison of two character sequences, starting at
/// position `i`: true when `a` is less than or equal to `b` once their
/// first `i` characters are disregarded.
pub open spec fn lex_le_from(a: Seq<char>, b: Seq<char>, i: int) -> bool
    decreases a.len() - i,
{
    if i >= a.len() {
        true
    } else if i >= b.len() {
        false
    } else if a[i] == b[i] {
        lex_le_from(a, b, i + 1)
    } else {
        (a[i] as u32) < (b[i] as u32)
    }
}

/// Lexicographic order on character sequences: a shorter sequence
/// precedes every sequence it is a prefix of, and otherwise the first
/// differing character decides.
pub open spec fn lex_le(a: Seq<char>, b: Seq<char>) -> bool {
    lex_le_from(a, b, 0)
}

proof fn char_ne_u32(c: char, d: char)
    requires
        c != d,
    ensures
        (c as u32) != (d as u32),
{
}

proof fn lemma_lex_le_from_total(a: Seq<char>, b: Seq<char>, i: int)
    requires
        0 <= i,
    ensures
        lex_le_from(a, b, i) || lex_le_from(b, a, i),
    decreases a.len() - i,
{
    if i < a.len() && i < b.len() {
        if a[i] == b[i] {
            lemma_lex_le_from_total(a, b, i + 1);
        } else {
            char_ne_u32(a[i], b[i]);
        }
    }
}

/// The order is total: of any two sequences, one is less than or equal
/// to the other.
pub proof fn lemma_lex_le_total(a: Seq<char>, b: Seq<char>)
    ensures
        lex_le(a, b) || lex_le(b, a),
{
    lemma_lex_le_from_total(a, b, 0);
}

proof fn lemma_lex_le_from_trans(a: Seq<char>, b: Seq<char>, c: Seq<char>, i: int)
    requires
        lex_le_from(a, b, i),
        lex_le_from(b, c, i),
    ensures
        lex_le_from(a, c, i),
    decreases a.len() - i,
{
    if i < a.len() && i < b.len() && i < c.len() && a[i] == b[i] && b[i] == c[i] {
        lemma_lex_le_from_trans(a, b, c, i + 1);
    }
}

/// The order is transitive.
pub proof fn lemma_lex_le_trans(a: Seq<char>, b: Seq<char>, c: Seq<char>)
    requires
        lex_le(a, b),
        lex_le(b, c),
    ensures
        lex_le(a, c),
{
    lemma_lex_le_from_trans(a, b, c, 0);
}

proof fn lemma_lex_le_from_antisym(a: Seq<char>, b: Seq<char>, i: int)
    requires
        0 <= i,
        lex_le_from(a, b, i),
        lex_le_from(b, a, i),
        a.subrange(0, i) =~= b.subrange(0, i),
        i <= a.len(),
        i <= b.len(),
    ensures
        a == b,
    decreases a.len() - i,
{
    if i >= a.len() {
        assert(i >= b.len());
        assert forall|j: int| 0 <= j < a.len() implies a[j] == b[j] by {
            assert(a.subrange(0, i)[j] == b.subrange(0, i)[j]);
        }
        assert(a =~= b);
    } else {
        assert(i < b.len());
        assert(a[i] == b[i]);
        assert(a.subrange(0, i + 1) =~= b.subrange(0, i + 1));
        lemma_lex_le_from_antisym(a, b, i + 1);
    }
}

/// The order is antisymmetric: two sequences each less than or equal to
/// the other are equal.
pub proof fn lemma_lex_le_antisym(a: Seq<char>, b: Seq<char>)
    requires
        lex_le(a, b),
        lex_le(b, a),
    ensures
        a == b,
{
    assert(a.subrange(0, 0) =~= b.subrange(0, 0));
    lemma_lex_le_from_antisym(a, b, 0);
}

/// Decides `lex_le` over two strings.
pub fn str_le(a: &str, b: &str) -> (r: bool)
    ensures
        r == lex_le(a@, b@),
{
    let alen = a.unicode_len();
    let blen = b.unicode_len();
    let mut i: usize = 0;
    loop
        invariant
            0 <= i <= alen,
            i <= blen,
            alen == a@.len(),
            blen == b@.len(),
            lex_le(a@, b@) == lex_le_from(a@, b@, i as int),
        decreases alen - i,
    {
        if i >= alen {
            return true;
        }
        if i >= blen {
            return false;
        }
        let ca = a.get_char(i);
        let cb = b.get_char(i);
        if ca != cb {
            return (ca as u32) < (cb as u32);
        }
        i = i + 1;
    }
}

} // verus!
