use vstd::prelude::*;
use vstd::slice::slice_to_vec;

verus! {

/// An owned copy of a byte string.
pub fn copy_bytes(v: &Vec<u8>) -> (r: Vec<u8>)
    ensures
        r@ == v@,
{
    slice_to_vec(v.as_slice())
}

/// Strict lexicographic order on byte strings: a proper prefix sorts before
/// its extensions; otherwise the first differing byte decides.
pub open spec fn lex_lt(a: Seq<u8>, b: Seq<u8>) -> bool
    decreases a.len(),
{
    if b.len() == 0 {
        false
    } else if a.len() == 0 {
        true
    } else if a[0] < b[0] {
        true
    } else if a[0] > b[0] {
        false
    } else {
        lex_lt(a.drop_first(), b.drop_first())
    }
}

/// Reflexive closure of `lex_lt`.
pub open spec fn lex_le(a: Seq<u8>, b: Seq<u8>) -> bool {
    lex_lt(a, b) || a == b
}

/// `lex_lt` is decided at the first index where the two strings differ, or
/// where one of them ends.
pub proof fn lemma_lex_first_diff(a: Seq<u8>, b: Seq<u8>, i: int)
    requires
        0 <= i <= a.len(),
        i <= b.len(),
        forall|j: int| 0 <= j < i ==> a[j] == b[j],
        i < a.len() && i < b.len() ==> a[i] != b[i],
    ensures
        lex_lt(a, b) <==> (i < b.len() && (i == a.len() || a[i] < b[i])),
    decreases i,
{
    if i > 0 {
        let a2 = a.drop_first();
        let b2 = b.drop_first();
        assert(a[0] == b[0]);
        assert forall|j: int| 0 <= j < i - 1 implies a2[j] == b2[j] by {
            assert(a[j + 1] == b[j + 1]);
        }
        if i - 1 < a2.len() && i - 1 < b2.len() {
            assert(a2[i - 1] == a[i]);
            assert(b2[i - 1] == b[i]);
        }
        lemma_lex_first_diff(a2, b2, i - 1);
    }
}

/// Any two byte strings are ordered one way or the other, or equal.
pub proof fn lemma_lex_trichotomy(a: Seq<u8>, b: Seq<u8>)
    ensures
        lex_lt(a, b) || lex_lt(b, a) || a == b,
    decreases a.len(),
{
    if a.len() == 0 && b.len() == 0 {
        assert(a =~= b);
    } else if a.len() > 0 && b.len() > 0 && a[0] == b[0] {
        lemma_lex_trichotomy(a.drop_first(), b.drop_first());
        if a.drop_first() == b.drop_first() {
            assert(a.drop_first().len() == b.drop_first().len());
            assert forall|j: int| 0 <= j < a.len() implies a[j] == b[j] by {
                if j > 0 {
                    assert(a.drop_first()[j - 1] == b.drop_first()[j - 1]);
                }
            }
            assert(a =~= b);
        }
    }
}

/// `lex_lt` is irreflexive.
pub proof fn lemma_lex_lt_irrefl(a: Seq<u8>)
    ensures
        !lex_lt(a, a),
    decreases a.len(),
{
    if a.len() > 0 {
        lemma_lex_lt_irrefl(a.drop_first());
    }
}

/// `lex_lt` is transitive.
pub proof fn lemma_lex_lt_trans(a: Seq<u8>, b: Seq<u8>, c: Seq<u8>)
    requires
        lex_lt(a, b),
        lex_lt(b, c),
    ensures
        lex_lt(a, c),
    decreases a.len(),
{
    if a.len() > 0 && b.len() > 0 && c.len() > 0 {
        if a[0] == b[0] && b[0] == c[0] {
            lemma_lex_lt_trans(a.drop_first(), b.drop_first(), c.drop_first());
        }
    }
}

/// A strict bound chained with a following non-strict one stays strict.
pub proof fn lemma_lex_lt_le_trans(a: Seq<u8>, b: Seq<u8>, c: Seq<u8>)
    requires
        lex_lt(a, b),
        lex_le(b, c),
    ensures
        lex_lt(a, c),
{
    if b != c {
        lemma_lex_lt_trans(a, b, c);
    }
}

/// A non-strict bound chained with a following strict one stays strict.
pub proof fn lemma_lex_le_lt_trans(a: Seq<u8>, b: Seq<u8>, c: Seq<u8>)
    requires
        lex_le(a, b),
        lex_lt(b, c),
    ensures
        lex_lt(a, c),
{
    if a != b {
        lemma_lex_lt_trans(a, b, c);
    }
}

/// Decides `lex_lt` on byte vectors.
pub fn bytes_lt(a: &Vec<u8>, b: &Vec<u8>) -> (r: bool)
    ensures
        r == lex_lt(a@, b@),
{
    let mut i: usize = 0;
    while i < a.len() && i < b.len()
        invariant
            i <= a@.len(),
            i <= b@.len(),
            forall|j: int| 0 <= j < i ==> a@[j] == b@[j],
        decreases a@.len() - i,
    {
        if a[i] != b[i] {
            proof {
                lemma_lex_first_diff(a@, b@, i as int);
            }
            return a[i] < b[i];
        }
        i += 1;
    }
    proof {
        lemma_lex_first_diff(a@, b@, i as int);
    }
    a.len() < b.len()
}

/// Decides byte-string equality.
pub fn bytes_eq(a: &Vec<u8>, b: &Vec<u8>) -> (r: bool)
    ensures
        r == (a@ == b@),
{
    if a.len() != b.len() {
        proof {
            assert(a@ != b@);
        }
        return false;
    }
    let mut i: usize = 0;
    while i < a.len()
        invariant
            i <= a@.len(),
            a@.len() == b@.len(),
            forall|j: int| 0 <= j < i ==> a@[j] == b@[j],
        decreases a@.len() - i,
    {
        if a[i] != b[i] {
            return false;
        }
        i += 1;
    }
    proof {
        assert(a@ =~= b@);
    }
    true
}

/// Decides `lex_le` on byte vectors.
pub fn bytes_le(a: &Vec<u8>, b: &Vec<u8>) -> (r: bool)
    ensures
        r == lex_le(a@, b@),
{
    let r = !bytes_lt(b, a);
    proof {
        lemma_lex_trichotomy(a@, b@);
        if lex_lt(a@, b@) && lex_lt(b@, a@) {
            lemma_lex_lt_trans(a@, b@, a@);
            lemma_lex_lt_irrefl(a@);
        }
        if a@ == b@ {
            lemma_lex_lt_irrefl(a@);
        }
    }
    r
}

/// Fixed-width big-endian image of a 64-bit integer, most significant byte
/// first.
pub open spec fn u64_be_bytes(x: u64) -> Seq<u8> {
    seq![
        (x >> 56) as u8,
        (x >> 48) as u8,
        (x >> 40) as u8,
        (x >> 32) as u8,
        (x >> 24) as u8,
        (x >> 16) as u8,
        (x >> 8) as u8,
        x as u8,
    ]
}

/// Appends the fixed-width big-endian bytes of `x`.
pub fn push_u64_be(out: &mut Vec<u8>, x: u64)
    ensures
        final(out)@ == old(out)@ + u64_be_bytes(x),
{
    out.push((x >> 56) as u8);
    out.push((x >> 48) as u8);
    out.push((x >> 40) as u8);
    out.push((x >> 32) as u8);
    out.push((x >> 24) as u8);
    out.push((x >> 16) as u8);
    out.push((x >> 8) as u8);
    out.push(x as u8);
    proof {
        assert(out@ =~= old(out)@ + u64_be_bytes(x));
    }
}

/// Fixed-width big-endian encoding is strictly monotone: a larger integer
/// yields a lexicographically larger byte string, with no gap or overlap
/// between neighbours.
pub proof fn lemma_u64_be_bytes_order(x: u64, y: u64)
    requires
        x < y,
    ensures
        lex_lt(u64_be_bytes(x), u64_be_bytes(y)),
{
    let a = u64_be_bytes(x);
    let b = u64_be_bytes(y);
    let x0 = (x >> 56) as u8;
    let x1 = (x >> 48) as u8;
    let x2 = (x >> 40) as u8;
    let x3 = (x >> 32) as u8;
    let x4 = (x >> 24) as u8;
    let x5 = (x >> 16) as u8;
    let x6 = (x >> 8) as u8;
    let x7 = x as u8;
    let y0 = (y >> 56) as u8;
    let y1 = (y >> 48) as u8;
    let y2 = (y >> 40) as u8;
    let y3 = (y >> 32) as u8;
    let y4 = (y >> 24) as u8;
    let y5 = (y >> 16) as u8;
    let y6 = (y >> 8) as u8;
    let y7 = y as u8;
    assert(x0 < y0 || (x0 == y0 && x1 < y1) || (x0 == y0 && x1 == y1 && x2 < y2) || (x0 == y0 && x1
        == y1 && x2 == y2 && x3 < y3) || (x0 == y0 && x1 == y1 && x2 == y2 && x3 == y3 && x4 < y4)
        || (x0 == y0 && x1 == y1 && x2 == y2 && x3 == y3 && x4 == y4 && x5 < y5) || (x0 == y0 && x1
        == y1 && x2 == y2 && x3 == y3 && x4 == y4 && x5 == y5 && x6 < y6) || (x0 == y0 && x1 == y1
        && x2 == y2 && x3 == y3 && x4 == y4 && x5 == y5 && x6 == y6 && x7 < y7)) by (bit_vector)
        requires
            x < y,
            x0 == (x >> 56) as u8,
            x1 == (x >> 48) as u8,
            x2 == (x >> 40) as u8,
            x3 == (x >> 32) as u8,
            x4 == (x >> 24) as u8,
            x5 == (x >> 16) as u8,
            x6 == (x >> 8) as u8,
            x7 == x as u8,
            y0 == (y >> 56) as u8,
            y1 == (y >> 48) as u8,
            y2 == (y >> 40) as u8,
            y3 == (y >> 32) as u8,
            y4 == (y >> 24) as u8,
            y5 == (y >> 16) as u8,
            y6 == (y >> 8) as u8,
            y7 == y as u8,
    ;
    if a[0] != b[0] {
        lemma_lex_first_diff(a, b, 0);
    } else if a[1] != b[1] {
        lemma_lex_first_diff(a, b, 1);
    } else if a[2] != b[2] {
        lemma_lex_first_diff(a, b, 2);
    } else if a[3] != b[3] {
        lemma_lex_first_diff(a, b, 3);
    } else if a[4] != b[4] {
        lemma_lex_first_diff(a, b, 4);
    } else if a[5] != b[5] {
        lemma_lex_first_diff(a, b, 5);
    } else if a[6] != b[6] {
        lemma_lex_first_diff(a, b, 6);
    } else if a[7] != b[7] {
        lemma_lex_first_diff(a, b, 7);
    } else {
        assert(false);
    }
}

/// Prepending a common prefix preserves strict lexicographic order.
pub proof fn lemma_lex_prepend(p: Seq<u8>, s: Seq<u8>, t: Seq<u8>)
    requires
        lex_lt(s, t),
    ensures
        lex_lt(p + s, p + t),
    decreases p.len(),
{
    if p.len() == 0 {
        assert(p + s =~= s);
        assert(p + t =~= t);
    } else {
        lemma_lex_prepend(p.drop_first(), s, t);
        assert((p + s).drop_first() =~= p.drop_first() + s);
        assert((p + t).drop_first() =~= p.drop_first() + t);
        assert((p + s)[0] == p[0]);
        assert((p + t)[0] == p[0]);
    }
}

} // verus!
