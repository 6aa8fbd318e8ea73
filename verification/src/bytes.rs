//! Small verified helpers over byte slices and byte vectors: comparison,
//! prefix tests, copying, appending, and decimal rendering of lengths.

use vstd::prelude::*;

verus! {

/// The two-byte line terminator `\r\n`.
pub open spec fn crlf() -> Seq<u8> {
    seq![13u8, 10u8]
}

/// The blank-line separator `\r\n\r\n` between head and body.
pub open spec fn crlf2() -> Seq<u8> {
    seq![13u8, 10u8, 13u8, 10u8]
}

/// A byte vector's deep view is its view: its elements are plain bytes.
pub proof fn lemma_u8_deep(v: Vec<u8>)
    ensures
        v.deep_view() == v@,
{
    assert(v.deep_view() =~= v@);
}

/// Byte-for-byte equality of two slices.
pub fn bytes_eq(a: &[u8], b: &[u8]) -> (r: bool)
    ensures
        r == (a@ == b@),
{
    if a.len() != b.len() {
        assert(a@ != b@) by {
            assert(a@.len() != b@.len());
        }
        return false;
    }
    let mut i: usize = 0;
    while i < a.len()
        invariant
            i <= a@.len(),
            a@.len() == b@.len(),
            forall|j: int| 0 <= j < i ==> a@[j] == b@[j],
        decreases a@.len() - i,
    {
        if a[i] != b[i] {
            return false;
        }
        i += 1;
    }
    proof {
        assert(a@ =~= b@);
    }
    true
}

/// Does `s` start with the prefix `p`?
pub open spec fn has_prefix(s: Seq<u8>, p: Seq<u8>) -> bool {
    s.len() >= p.len() && s.subrange(0, p.len() as int) == p
}

/// Does `a` start with the prefix `p`? Executable twin of `has_prefix`.
pub fn starts_with(a: &[u8], p: &[u8]) -> (r: bool)
    ensures
        r == has_prefix(a@, p@),
{
    if a.len() < p.len() {
        return false;
    }
    let mut i: usize = 0;
    while i < p.len()
        invariant
            i <= p@.len() <= a@.len(),
            forall|j: int| 0 <= j < i ==> a@[j] == p@[j],
        decreases p@.len() - i,
    {
        if a[i] != p[i] {
            assert(a@.subrange(0, p@.len() as int)[i as int] == a@[i as int]);
            return false;
        }
        i += 1;
    }
    proof {
        assert(a@.subrange(0, p@.len() as int) =~= p@);
    }
    true
}

/// A fresh vector holding the bytes of `a[from..to]`.
pub fn copy_range(a: &[u8], from: usize, to: usize) -> (r: Vec<u8>)
    requires
        from <= to <= a@.len(),
    ensures
        r@ == a@.subrange(from as int, to as int),
{
    let mut r: Vec<u8> = Vec::new();
    let mut i: usize = from;
    while i < to
        invariant
            from <= i <= to <= a@.len(),
            r@ == a@.subrange(from as int, i as int),
        decreases to - i,
    {
        r.push(a[i]);
        proof {
            assert(r@ =~= a@.subrange(from as int, i + 1));
        }
        i += 1;
    }
    r
}

/// Appends all of `s` to `out`.
pub fn append_bytes(out: &mut Vec<u8>, s: &[u8])
    ensures
        final(out)@ == old(out)@ + s@,
{
    proof {
        assert(out@ =~= old(out)@ + s@.subrange(0, 0));
    }
    let mut i: usize = 0;
    while i < s.len()
        invariant
            i <= s@.len(),
            out@ == old(out)@ + s@.subrange(0, i as int),
        decreases s@.len() - i,
    {
        out.push(s[i]);
        proof {
            assert(out@ =~= old(out)@ + s@.subrange(0, i + 1));
        }
        i += 1;
    }
    proof {
        assert(old(out)@ + s@.subrange(0, s@.len() as int) =~= old(out)@ + s@);
    }
}

/// The ASCII decimal digits of `n`, most significant first, no leading zeros
/// (except for `n == 0`, which is the single digit `0`).
pub open spec fn dec_rep(n: nat) -> Seq<u8>
    decreases n,
{
    if n < 10 {
        seq![(48 + n) as u8]
    } else {
        dec_rep(n / 10).push((48 + n % 10) as u8)
    }
}

/// Renders `n` in ASCII decimal, exactly as `dec_rep` describes.
pub fn usize_to_decimal(n: usize) -> (r: Vec<u8>)
    ensures
        r@ == dec_rep(n as nat),
{
    let mut rev: Vec<u8> = Vec::new();
    let mut m: usize = n;
    proof {
        assert(dec_rep(n as nat) =~= dec_rep(n as nat) + rev@.reverse());
    }
    while m >= 10
        invariant
            dec_rep(n as nat) == dec_rep(m as nat) + rev@.reverse(),
        decreases m,
    {
        let ghost rev0 = rev@;
        let d: u8 = (m % 10) as u8;
        rev.push(48 + d);
        m = m / 10;
        proof {
            assert(rev@.reverse() =~= seq![(48 + d) as u8] + rev0.reverse());
            assert(dec_rep((m * 10 + d) as nat) == dec_rep(m as nat).push((48 + d) as u8));
            assert(dec_rep(m as nat).push((48 + d) as u8) + rev0.reverse() =~= dec_rep(m as nat)
                + rev@.reverse());
        }
    }
    let ghost rev1 = rev@;
    rev.push(48 + (m as u8));
    proof {
        assert(rev@.reverse() =~= seq![(48 + m as nat) as u8] + rev1.reverse());
        assert(dec_rep(m as nat) + rev1.reverse() =~= rev@.reverse());
    }
    let mut r: Vec<u8> = Vec::new();
    let mut i: usize = rev.len();
    while i > 0
        invariant
            i <= rev@.len(),
            r@ == rev@.reverse().subrange(0, rev@.len() - i),
        decreases i,
    {
        i -= 1;
        r.push(rev[i]);
        proof {
            assert(r@ =~= rev@.reverse().subrange(0, rev@.len() - i));
        }
    }
    proof {
        assert(r@ =~= rev@.reverse());
    }
    r
}

} // verus!
