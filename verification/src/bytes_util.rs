//! Small verified helpers on byte vectors: concatenation, comparison,
//! and canonical decimal rendering of `u64` values (used in ledger keys).

use vstd::prelude::*;
use vstd::arithmetic::div_mod::*;

verus! {

/// Appends a copy of `src` to `dst`.
pub fn append_bytes(dst: &mut Vec<u8>, src: &Vec<u8>)
    ensures
        final(dst)@ == old(dst)@ + src@,
{
    let mut i: usize = 0;
    while i < src.len()
        invariant
            i <= src.len(),
            dst@ == old(dst)@ + src@.take(i as int),
        decreases src.len() - i,
    {
        dst.push(src[i]);
        proof {
            assert(src@.take(i + 1) =~= src@.take(i as int).push(src@[i as int]));
        }
        i = i + 1;
    }
    proof {
        assert(src@.take(src@.len() as int) =~= src@);
    }
}

/// Copies `src[from..to]` into a fresh vector.
pub fn copy_range(src: &Vec<u8>, from: usize, to: usize) -> (r: Vec<u8>)
    requires
        from <= to <= src.len(),
    ensures
        r@ == src@.subrange(from as int, to as int),
{
    let mut out: Vec<u8> = Vec::new();
    let mut i: usize = from;
    while i < to
        invariant
            from <= i <= to <= src.len(),
            out@ == src@.subrange(from as int, i as int),
        decreases to - i,
    {
        out.push(src[i]);
        proof {
            assert(src@.subrange(from as int, i + 1) =~= src@.subrange(
                from as int,
                i as int,
            ).push(src@[i as int]));
        }
        i = i + 1;
    }
    out
}

/// Compares two byte vectors. When the lengths agree, every position is
/// examined; there is no early exit on the first differing byte.
pub fn bytes_eq(a: &Vec<u8>, b: &Vec<u8>) -> (r: bool)
    ensures
        r == (a@ == b@),
{
    if a.len() != b.len() {
        proof {
            assert(a@ != b@);
        }
        return false;
    }
    let mut same = true;
    let mut i: usize = 0;
    while i < a.len()
        invariant
            i <= a.len(),
            a.len() == b.len(),
            same == (forall|j: int| 0 <= j < i ==> a@[j] == b@[j]),
        decreases a.len() - i,
    {
        let eq = a[i] == b[i];
        same = same && eq;
        i = i + 1;
    }
    proof {
        if same {
            assert(a@ =~= b@);
        } else {
            assert(a@ != b@);
        }
    }
    same
}

/// The canonical decimal rendering of a number, as ASCII digit bytes.
pub open spec fn dec_digits(n: nat) -> Seq<u8>
    decreases n,
{
    if n < 10 {
        seq![(48 + n) as u8]
    } else {
        dec_digits(n / 10).push((48 + n % 10) as u8)
    }
}

/// The numeric value of a sequence of ASCII digit bytes.
pub open spec fn val_of_digits(s: Seq<u8>) -> int
    decreases s.len(),
{
    if s.len() == 0 {
        0
    } else {
        val_of_digits(s.drop_last()) * 10 + (s.last() - 48)
    }
}

/// All bytes are ASCII digits.
pub open spec fn is_digits(s: Seq<u8>) -> bool {
    forall|i: int| 0 <= i < s.len() ==> 48 <= #[trigger] s[i] <= 57
}

/// A canonical decimal rendering: digits only, non-empty, no leading zero.
pub open spec fn is_canonical_dec(s: Seq<u8>) -> bool {
    &&& is_digits(s)
    &&& s.len() >= 1
    &&& (s.len() > 1 ==> s[0] != 48)
}

/// Shape and value of the canonical rendering.
pub proof fn lemma_dec_digits_props(n: nat)
    ensures
        is_canonical_dec(dec_digits(n)),
        val_of_digits(dec_digits(n)) == n,
        n > 0 ==> dec_digits(n)[0] != 48,
    decreases n,
{
    if n < 10 {
        let s = dec_digits(n);
        assert(s == seq![(48 + n) as u8]);
        assert(s.drop_last() =~= Seq::<u8>::empty());
        assert(val_of_digits(s) == val_of_digits(s.drop_last()) * 10 + (s.last() - 48));
        assert(val_of_digits(Seq::<u8>::empty()) == 0);
        assert(forall|i: int| 0 <= i < s.len() ==> 48 <= #[trigger] s[i] <= 57);
    } else {
        lemma_dec_digits_props(n / 10);
        lemma_fundamental_div_mod(n as int, 10);
        let s = dec_digits(n);
        let s0 = dec_digits(n / 10);
        assert(s == s0.push((48 + n % 10) as u8));
        assert(s.drop_last() =~= s0);
        assert(s.last() == (48 + n % 10) as u8);
        assert(val_of_digits(s) == val_of_digits(s0) * 10 + (s.last() - 48));
        assert(val_of_digits(s) == (n / 10) * 10 + n % 10);
        assert(val_of_digits(s) == n);
        assert(forall|i: int|
            0 <= i < s.len() ==> 48 <= #[trigger] s[i] <= 57) by {
            assert(forall|i: int| 0 <= i < s0.len() ==> s[i] == #[trigger] s0[i]);
        }
        assert(s[0] == s0[0]);
        assert(n / 10 > 0);
    }
}

/// Digit sequences have non-negative value.
pub proof fn lemma_val_nonneg(s: Seq<u8>)
    requires
        is_digits(s),
    ensures
        val_of_digits(s) >= 0,
    decreases s.len(),
{
    if s.len() > 0 {
        assert(is_digits(s.drop_last()));
        lemma_val_nonneg(s.drop_last());
    }
}

/// A digit sequence without a leading zero has value at least 1.
pub proof fn lemma_val_no_leading_zero(s: Seq<u8>)
    requires
        is_digits(s),
        s.len() >= 1,
        s[0] != 48,
    ensures
        val_of_digits(s) >= 1,
    decreases s.len(),
{
    if s.len() == 1 {
        assert(s.drop_last() =~= Seq::<u8>::empty());
        assert(val_of_digits(s) == val_of_digits(s.drop_last()) * 10 + (s.last() - 48));
        assert(s.last() == s[0]);
    } else {
        let s0 = s.drop_last();
        assert(is_digits(s0)) by {
            assert(forall|i: int| 0 <= i < s0.len() ==> s0[i] == #[trigger] s[i]);
        }
        assert(s0[0] == s[0]);
        lemma_val_no_leading_zero(s0);
        assert(48 <= s.last() <= 57) by {
            assert(s.last() == s[s.len() - 1]);
        }
        assert(val_of_digits(s) == val_of_digits(s0) * 10 + (s.last() - 48));
        assert(val_of_digits(s0) * 10 >= 10) by (nonlinear_arith)
            requires
                val_of_digits(s0) >= 1,
        ;
    }
}

/// A canonical digit sequence is the canonical rendering of its value.
pub proof fn lemma_canonical_unique(s: Seq<u8>)
    requires
        is_canonical_dec(s),
    ensures
        s == dec_digits(val_of_digits(s) as nat),
    decreases s.len(),
{
    lemma_val_nonneg(s);
    let v = val_of_digits(s);
    if s.len() == 1 {
        assert(s.drop_last() =~= Seq::<u8>::empty());
        assert(val_of_digits(s) == val_of_digits(s.drop_last()) * 10 + (s.last() - 48));
        assert(val_of_digits(Seq::<u8>::empty()) == 0);
        assert(s.last() == s[0]);
        assert(v == s[0] - 48);
        assert(dec_digits(v as nat) == seq![(48 + v) as u8]);
        assert(s =~= dec_digits(v as nat));
    } else {
        let s0 = s.drop_last();
        let d = s.last() - 48;
        assert(is_digits(s0));
        assert(s0[0] == s[0]);
        assert(is_canonical_dec(s0));
        lemma_val_no_leading_zero(s0);
        lemma_val_nonneg(s0);
        let v0 = val_of_digits(s0);
        assert(v == v0 * 10 + d);
        assert(v >= 10) by {
            assert(v0 >= 1);
            assert(v0 * 10 >= 10) by (nonlinear_arith)
                requires
                    v0 >= 1,
            ;
        }
        lemma_fundamental_div_mod_converse(v, 10, v0, d);
        assert(v / 10 == v0);
        assert(v % 10 == d);
        lemma_canonical_unique(s0);
        assert(dec_digits(v as nat) == dec_digits((v / 10) as nat).push((48 + v % 10) as u8));
        assert(s =~= dec_digits(v as nat));
    }
}

/// Value grows (weakly) along prefixes of a digit sequence.
pub proof fn lemma_val_take_monotone(s: Seq<u8>, i: int)
    requires
        is_digits(s),
        0 <= i <= s.len(),
    ensures
        val_of_digits(s.take(i)) <= val_of_digits(s),
    decreases s.len() - i,
{
    if i == s.len() {
        assert(s.take(i) =~= s);
    } else {
        assert(s.take(i + 1).drop_last() =~= s.take(i));
        assert(s.take(i + 1).last() == s[i]);
        assert(is_digits(s.take(i)));
        lemma_val_nonneg(s.take(i));
        assert(val_of_digits(s.take(i + 1)) == val_of_digits(s.take(i)) * 10 + (s[i] - 48));
        assert(val_of_digits(s.take(i)) * 10 >= val_of_digits(s.take(i))) by (nonlinear_arith)
            requires
                val_of_digits(s.take(i)) >= 0,
        ;
        lemma_val_take_monotone(s, i + 1);
    }
}

/// Renders a number as canonical decimal ASCII digits.
pub fn format_u64(n: u64) -> (r: Vec<u8>)
    ensures
        r@ == dec_digits(n as nat),
    decreases n,
{
    if n < 10 {
        let mut v: Vec<u8> = Vec::new();
        v.push(48 + (n as u8));
        v
    } else {
        let mut v = format_u64(n / 10);
        v.push(48 + ((n % 10) as u8));
        v
    }
}

/// Parses a canonical decimal rendering back into a number. Returns `None`
/// exactly when the bytes are not the canonical rendering of any `u64`.
pub fn parse_dec_u64(s: &Vec<u8>) -> (r: Option<u64>)
    ensures
        match r {
            Some(ts) => s@ == dec_digits(ts as nat),
            None => forall|ts: u64| s@ != dec_digits(ts as nat),
        },
{
    if s.len() == 0 {
        proof {
            assert forall|ts: u64| s@ != dec_digits(ts as nat) by {
                lemma_dec_digits_props(ts as nat);
            }
        }
        return None;
    }
    if s.len() > 1 && s[0] == 48 {
        proof {
            assert forall|ts: u64| s@ != dec_digits(ts as nat) by {
                lemma_dec_digits_props(ts as nat);
            }
        }
        return None;
    }
    let mut acc: u64 = 0;
    let mut i: usize = 0;
    while i < s.len()
        invariant
            i <= s.len(),
            s.len() >= 1,
            s.len() > 1 ==> s@[0] != 48,
            is_digits(s@.take(i as int)),
            acc == val_of_digits(s@.take(i as int)),
        decreases s.len() - i,
    {
        let b = s[i];
        if b < 48 || b > 57 {
            proof {
                assert(!is_digits(s@));
                assert forall|ts: u64| s@ != dec_digits(ts as nat) by {
                    lemma_dec_digits_props(ts as nat);
                }
            }
            return None;
        }
        let d: u64 = (b - 48) as u64;
        proof {
            assert(s@.take(i + 1).drop_last() =~= s@.take(i as int));
            assert(s@.take(i + 1).last() == s@[i as int]);
            assert(is_digits(s@.take(i + 1)));
        }
        if acc > (u64::MAX - d) / 10 {
            proof {
                lemma_val_nonneg(s@.take(i as int));
                lemma_fundamental_div_mod((u64::MAX - d) as int, 10);
                assert(acc * 10 > u64::MAX - d) by (nonlinear_arith)
                    requires
                        acc > (u64::MAX - d) / 10,
                        10 * ((u64::MAX - d) as int / 10) + (u64::MAX - d) as int % 10 == (
                        u64::MAX - d) as int,
                        0 <= (u64::MAX - d) as int % 10 < 10,
                ;
                assert(val_of_digits(s@.take(i + 1)) > u64::MAX);
                assert forall|ts: u64| s@ != dec_digits(ts as nat) by {
                    lemma_dec_digits_props(ts as nat);
                    if s@ == dec_digits(ts as nat) {
                        assert(is_digits(s@));
                        lemma_val_take_monotone(s@, i + 1);
                        assert(val_of_digits(s@) == ts);
                    }
                }
            }
            return None;
        }
        proof {
            lemma_val_nonneg(s@.take(i as int));
            lemma_fundamental_div_mod((u64::MAX - d) as int, 10);
            assert(acc * 10 + d <= u64::MAX) by (nonlinear_arith)
                requires
                    acc <= (u64::MAX - d) as int / 10,
                    acc >= 0,
                    10 * ((u64::MAX - d) as int / 10) + (u64::MAX - d) as int % 10 == (u64::MAX
                        - d) as int,
                    0 <= (u64::MAX - d) as int % 10 < 10,
                    0 <= d <= 9,
            ;
        }
        acc = acc * 10 + d;
        i = i + 1;
    }
    proof {
        assert(s@.take(s@.len() as int) =~= s@);
        assert(is_canonical_dec(s@));
        lemma_canonical_unique(s@);
    }
    Some(acc)
}

} // verus!
