//! Widening and exact narrowing between the 32-bit and 64-bit IEEE-754
//! binary interchange patterns, carried out on integer bit patterns only.
//!
//! A chunk whose header declares a four-byte number width stores number
//! constants as 32-bit patterns on the wire, while the in-memory
//! representation is always the 64-bit pattern. Widening is exact;
//! narrowing is only defined here for values that widen back unchanged,
//! which is what the encoder demands of a well-formed chunk.

use vstd::prelude::*;

verus! {

/// Normalizes a non-zero fraction of a subnormal 32-bit value: doubles
/// `m` (and lowers `e`) until `m` reaches the implicit-bit position.
/// The pair `(m / 2^23) * 2^e` is kept constant.
pub open spec fn spec_norm(m: nat, e: int) -> (nat, int)
    decreases (if m < 0x800000 { 0x800000 - m } else { 0int }),
{
    if m == 0 || m >= 0x800000 {
        (m, e)
    } else {
        spec_norm(m * 2, e - 1)
    }
}


/// The 64-bit pattern denoting the same value as the 32-bit pattern `b`.
/// Infinities and quiet bits map across; payload bits shift up by 29.
pub open spec fn spec_widen(b: u32) -> u64 {
    let s = (b / 0x8000_0000) as int;
    let e = ((b / 0x80_0000) % 0x100) as int;
    let m = (b % 0x80_0000) as int;
    if e == 0xFF {
        (s * 0x8000_0000_0000_0000 + 0x7FF0_0000_0000_0000 + m * 0x2000_0000) as u64
    } else if e == 0 {
        if m == 0 {
            (s * 0x8000_0000_0000_0000) as u64
        } else {
            let (m2, e2) = spec_norm(m as nat, -126);
            (s * 0x8000_0000_0000_0000 + (e2 + 1023) * 0x10_0000_0000_0000 + (m2
                - 0x800000) * 0x2000_0000) as u64
        }
    } else {
        (s * 0x8000_0000_0000_0000 + (e + 896) * 0x10_0000_0000_0000 + m * 0x2000_0000) as u64
    }
}

/// Halves `v` a total of `n` times, recording whether every halving was
/// exact.
pub open spec fn spec_shr_exact(v: nat, n: nat) -> (nat, bool)
    decreases n,
{
    if n == 0 {
        (v, true)
    } else {
        let sub = spec_shr_exact(v / 2, (n - 1) as nat);
        (sub.0, sub.1 && v % 2 == 0)
    }
}

/// The 32-bit pattern that widens to `b`, if the shape of `b` admits
/// one; `None` when the exponent is out of the 32-bit range or mantissa
/// bits would be lost. Candidates are rechecked against `spec_widen` by
/// every user, so this function only has to find them.
pub open spec fn spec_narrow32(b: u64) -> Option<u32> {
    let s = (b / 0x8000_0000_0000_0000) as int;
    let e = ((b / 0x10_0000_0000_0000) % 0x800) as int;
    let m = (b % 0x10_0000_0000_0000) as int;
    if e == 0x7FF {
        if m % 0x2000_0000 == 0 {
            Option::Some((s * 0x8000_0000 + 0xFF * 0x80_0000 + m / 0x2000_0000) as u32)
        } else {
            Option::None
        }
    } else if e == 0 {
        if m == 0 {
            Option::Some((s * 0x8000_0000) as u32)
        } else {
            Option::None
        }
    } else if 874 <= e <= 896 {
        let sh = spec_shr_exact((0x10_0000_0000_0000 + m) as nat, (926 - e) as nat);
        if sh.1 && sh.0 <= 0x7F_FFFF {
            Option::Some((s * 0x8000_0000 + sh.0) as u32)
        } else {
            Option::None
        }
    } else if 897 <= e <= 1150 {
        if m % 0x2000_0000 == 0 {
            Option::Some((s * 0x8000_0000 + (e - 896) * 0x80_0000 + m / 0x2000_0000) as u32)
        } else {
            Option::None
        }
    } else {
        Option::None
    }
}

/// Whether the 64-bit pattern `b` is exactly representable as a 32-bit
/// pattern: a candidate exists and widens back to `b`.
pub open spec fn num32_exact(b: u64) -> bool {
    match spec_narrow32(b) {
        Option::Some(c) => spec_widen(c) == b,
        Option::None => false,
    }
}

/// The 32-bit pattern of an exactly representable 64-bit pattern.
pub open spec fn num32_of(b: u64) -> u32
    recommends
        num32_exact(b),
{
    match spec_narrow32(b) {
        Option::Some(c) => c,
        Option::None => 0,
    }
}

/// Executable widening; equal to `spec_widen`.
pub fn widen32(b: u32) -> (r: u64)
    ensures
        r == spec_widen(b),
{
    let s: u64 = (b / 0x8000_0000) as u64;
    let e: u64 = ((b / 0x80_0000) % 0x100) as u64;
    let m: u64 = (b % 0x80_0000) as u64;
    if e == 0xFF {
        s * 0x8000_0000_0000_0000 + 0x7FF0_0000_0000_0000 + m * 0x2000_0000
    } else if e == 0 {
        if m == 0 {
            s * 0x8000_0000_0000_0000
        } else {
            let mut m2: u64 = m;
            let mut e2: i64 = -126;
            let ghost (gm, ge) = spec_norm(m as nat, -126);
            proof {
                vstd::arithmetic::power2::lemma2_to64();
            }
            while m2 < 0x800000
                invariant
                    1 <= m2 < 0x1000000,
                    -149 <= e2 <= -126,
                    m2 as nat >= vstd::arithmetic::power2::pow2((-126 - e2) as nat),
                    spec_norm(m2 as nat, e2 as int) == (gm, ge),
                decreases 0x1000000 - m2,
            {
                proof {
                    vstd::arithmetic::power2::lemma2_to64();
                    if -126 - e2 >= 23 {
                        vstd::arithmetic::power2::lemma_pow2_strictly_increases(
                            22,
                            (-126 - e2) as nat,
                        );
                    }
                    assert(vstd::arithmetic::power2::pow2((-126 - (e2 - 1)) as nat) == 2
                        * vstd::arithmetic::power2::pow2((-126 - e2) as nat)) by {
                        vstd::arithmetic::power2::lemma_pow2_adds(1, (-126 - e2) as nat);
                    }
                }
                m2 = m2 * 2;
                e2 = e2 - 1;
            }
            assert(m2 == gm && e2 == ge);
            s * 0x8000_0000_0000_0000 + ((e2 + 1023) as u64) * 0x10_0000_0000_0000 + (m2
                - 0x800000) * 0x2000_0000
        }
    } else {
        s * 0x8000_0000_0000_0000 + (e + 896) * 0x10_0000_0000_0000 + m * 0x2000_0000
    }
}

/// Executable narrowing candidate; equal to `spec_narrow32`.
pub fn narrow32(b: u64) -> (r: Option<u32>)
    ensures
        r == spec_narrow32(b),
{
    let s: u64 = b / 0x8000_0000_0000_0000;
    let e: u64 = (b / 0x10_0000_0000_0000) % 0x800;
    let m: u64 = b % 0x10_0000_0000_0000;
    if e == 0x7FF {
        if m % 0x2000_0000 == 0 {
            Option::Some((s * 0x8000_0000 + 0xFF * 0x80_0000 + m / 0x2000_0000) as u32)
        } else {
            Option::None
        }
    } else if e == 0 {
        if m == 0 {
            Option::Some((s * 0x8000_0000) as u32)
        } else {
            Option::None
        }
    } else if 874 <= e && e <= 896 {
        let mut v: u64 = 0x10_0000_0000_0000 + m;
        let mut exact: bool = true;
        let mut j: u64 = 0;
        let n: u64 = 926 - e;
        let ghost (gv, gx) = spec_shr_exact((0x10_0000_0000_0000 + m) as nat, (926 - e) as nat);
        while j < n
            invariant
                j <= n,
                n <= 52,
                gv == spec_shr_exact(v as nat, (n - j) as nat).0,
                gx == (exact && spec_shr_exact(v as nat, (n - j) as nat).1),
            decreases n - j,
        {
            if v % 2 != 0 {
                exact = false;
            }
            v = v / 2;
            j = j + 1;
        }
        assert(v == gv && exact == gx);
        if exact && v <= 0x7F_FFFF {
            Option::Some((s * 0x8000_0000 + v) as u32)
        } else {
            Option::None
        }
    } else if 897 <= e && e <= 1150 {
        if m % 0x2000_0000 == 0 {
            Option::Some((s * 0x8000_0000 + (e - 896) * 0x80_0000 + m / 0x2000_0000) as u32)
        } else {
            Option::None
        }
    } else {
        Option::None
    }
}

} // verus!
