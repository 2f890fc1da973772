//! Format-specific checksum validation of security identifiers.
//!
//! Each constructor accepts the raw bytes of one identifier format and
//! returns a validated [`Identifier`] exactly when the format's check
//! digits match the checksum computed over the identifier's body.
use vstd::prelude::*;
use vstd::arithmetic::div_mod::{
    lemma_add_mod_noop, lemma_mod_bound, lemma_mul_mod_noop_left,
};

verus! {

/// A security identifier whose checksum has been validated.
#[derive(Clone, Copy, Debug, PartialEq, Eq)]
pub enum Identifier {
    CUSIP([u8; 9]),
    CINS([u8; 9]),
    ISIN([u8; 12]),
    LEI([u8; 20]),
    EMPTY,
}

impl Default for Identifier {
    fn default() -> (r: Self)
        ensures
            r == Identifier::EMPTY,
    {
        Identifier::EMPTY
    }
}

/// Numeric value of one identifier byte: digits map to 0-9, letters to
/// 10-35 (case-insensitive), `*`, `@` and `#` to 36-38; anything else
/// stands for itself.
pub open spec fn spec_byte_value(b: u8) -> u8 {
    if b == 42 {
        36
    } else if b == 64 {
        37
    } else if b == 35 {
        38
    } else if 48 <= b && b <= 57 {
        (b - 48) as u8
    } else if 65 <= b && b <= 90 {
        (b - 55) as u8
    } else if 97 <= b && b <= 122 {
        (b - 87) as u8
    } else {
        b
    }
}

/// Numeric value of one identifier byte.
pub fn byte_value(b: u8) -> (r: u8)
    ensures
        r == spec_byte_value(b),
{
    match b {
        42 => 36,
        64 => 37,
        35 => 38,
        48..=57 => b - 48,
        65..=90 => b - 55,
        97..=122 => b - 87,
        _ => b,
    }
}

/// Contribution of one byte to the CUSIP sum: its value, doubled at odd
/// positions, reduced to the sum of its decimal digits.
pub open spec fn spec_cusip_step(b: u8, doubled: bool) -> int {
    let v: int = if doubled {
        2 * spec_byte_value(b)
    } else {
        spec_byte_value(b) as int
    };
    v / 10 + v % 10
}

/// CUSIP digit sum of a byte sequence.
pub open spec fn spec_cusip_sum(s: Seq<u8>) -> int
    decreases s.len(),
{
    if s.len() == 0 {
        0
    } else {
        spec_cusip_sum(s.drop_last()) + spec_cusip_step(s.last(), (s.len() - 1) % 2 == 1)
    }
}

/// CUSIP check digit of a byte sequence.
pub open spec fn spec_cusip_checksum(s: Seq<u8>) -> int {
    (10 - spec_cusip_sum(s) % 10) % 10
}

proof fn lemma_cusip_sum_nonneg(s: Seq<u8>)
    ensures
        spec_cusip_sum(s) >= 0,
    decreases s.len(),
{
    if s.len() > 0 {
        lemma_cusip_sum_nonneg(s.drop_last());
    }
}

/// CUSIP check digit of the given bytes.
pub fn cusip_checksum(bytes: &[u8]) -> (r: u8)
    ensures
        r == spec_cusip_checksum(bytes@),
        r < 10,
{
    let n: usize = bytes.len();
    // Only the digit sum modulo ten matters for the check digit.
    let mut total: u8 = 0;
    let mut i: usize = 0;
    while i < n
        invariant
            i <= n,
            n == bytes@.len(),
            total == spec_cusip_sum(bytes@.subrange(0, i as int)) % 10,
        decreases n - i,
    {
        let v0: u16 = byte_value(bytes[i]) as u16;
        let v: u16 = if i % 2 == 1 {
            2 * v0
        } else {
            v0
        };
        let step: u16 = v / 10 + v % 10;
        proof {
            let pre = bytes@.subrange(0, i as int);
            let post = bytes@.subrange(0, i + 1);
            assert(post.drop_last() =~= pre);
            assert(post.last() == bytes@[i as int]);
            assert(step == spec_cusip_step(bytes@[i as int], i % 2 == 1));
            lemma_cusip_sum_nonneg(pre);
            lemma_add_mod_noop(spec_cusip_sum(pre), step as int, 10);
        }
        total = ((total as u16 + step % 10) % 10) as u8;
        i = i + 1;
    }
    proof {
        assert(bytes@.subrange(0, n as int) =~= bytes@);
        lemma_cusip_sum_nonneg(bytes@);
        lemma_mod_bound(spec_cusip_sum(bytes@), 10);
    }
    (10 - total) % 10
}

/// Copies the first `k` bytes of `bytes` into a fresh vector.
fn prefix_of<const N: usize>(bytes: &[u8; N], k: usize) -> (r: Vec<u8>)
    requires
        k <= N,
    ensures
        r@ == bytes@.subrange(0, k as int),
{
    let mut r: Vec<u8> = Vec::new();
    let mut i: usize = 0;
    while i < k
        invariant
            i <= k <= N,
            r@ == bytes@.subrange(0, i as int),
        decreases k - i,
    {
        r.push(bytes[i]);
        proof {
            assert(r@ =~= bytes@.subrange(0, i + 1));
        }
        i = i + 1;
    }
    r
}

impl Identifier {
    /// Validates a CUSIP: the ninth byte must be the decimal digit of
    /// the checksum of the first eight bytes.
    pub fn cusip(bytes: [u8; 9]) -> (r: Option<Identifier>)
        ensures
            r == (if spec_cusip_checksum(bytes@.subrange(0, 8)) + 48 == bytes@[8] {
                Some(Identifier::CUSIP(bytes))
            } else {
                None::<Identifier>
            }),
    {
        let prefix: Vec<u8> = prefix_of(&bytes, 8);
        let cs: u8 = cusip_checksum(prefix.as_slice());
        if cs + 48 == bytes[8] {
            Some(Identifier::CUSIP(bytes))
        } else {
            None
        }
    }

    /// Validates a CINS, which shares the CUSIP checksum.
    pub fn cins(bytes: [u8; 9]) -> (r: Option<Identifier>)
        ensures
            r == (if spec_cusip_checksum(bytes@.subrange(0, 8)) + 48 == bytes@[8] {
                Some(Identifier::CINS(bytes))
            } else {
                None::<Identifier>
            }),
    {
        let prefix: Vec<u8> = prefix_of(&bytes, 8);
        let cs: u8 = cusip_checksum(prefix.as_slice());
        if cs + 48 == bytes[8] {
            Some(Identifier::CINS(bytes))
        } else {
            None
        }
    }

    /// Validates an ISIN: the Luhn sum over the decimal expansion of
    /// the byte values must be divisible by ten.
    pub fn isin(bytes: [u8; 12]) -> (r: Option<Identifier>)
        ensures
            r == (if spec_luhn_sum(spec_isin_digits(bytes@)) % 10 == 0 {
                Some(Identifier::ISIN(bytes))
            } else {
                None::<Identifier>
            }),
    {
        let mut digits: Vec<u8> = Vec::new();
        let mut i: usize = 0;
        while i < 12
            invariant
                i <= 12,
                digits@ == spec_isin_digits(bytes@.subrange(0, i as int)),
                digits@.len() <= 3 * i,
                forall|k: int| 0 <= k < digits@.len() ==> digits@[k] < 10,
            decreases 12 - i,
        {
            let ghost pre_digits = digits@;
            let v: u8 = byte_value(bytes[i]);
            if v < 10 {
                digits.push(v);
            } else if v < 100 {
                digits.push(v / 10);
                digits.push(v % 10);
            } else {
                digits.push(v / 100);
                digits.push((v / 10) % 10);
                digits.push(v % 10);
            }
            proof {
                let post = bytes@.subrange(0, i + 1);
                assert(post.drop_last() =~= bytes@.subrange(0, i as int));
                assert(post.last() == bytes@[i as int]);
                assert(digits@ =~= pre_digits + spec_dec_digits(v));
            }
            i = i + 1;
        }
        proof {
            assert(bytes@.subrange(0, 12) =~= bytes@);
        }
        let sum: u32 = luhn_sum(&digits);
        if sum % 10 == 0 {
            Some(Identifier::ISIN(bytes))
        } else {
            None
        }
    }

    /// Validates an LEI: the two trailing bytes must spell the decimal
    /// check number computed over the first eighteen bytes.
    pub fn lei(bytes: [u8; 20]) -> (r: Option<Identifier>)
        ensures
            r == (match spec_lei_checksum(bytes@.subrange(0, 18)) {
                Some(c) => if spec_lei_check_pair(bytes@[18], bytes@[19]) == c {
                    Some(Identifier::LEI(bytes))
                } else {
                    None::<Identifier>
                },
                None => None::<Identifier>,
            }),
    {
        let mut body: [u8; 18] = [0; 18];
        let mut i: usize = 0;
        while i < 18
            invariant
                i <= 18,
                forall|k: int| 0 <= k < i ==> body@[k] == bytes@[k],
            decreases 18 - i,
        {
            body[i] = bytes[i];
            i = i + 1;
        }
        proof {
            assert(body@ =~= bytes@.subrange(0, 18));
        }
        match lei_checksum(body) {
            None => None,
            Some(c) => {
                let pair: u8 = bytes[18].wrapping_sub(48).wrapping_mul(10).wrapping_add(
                    bytes[19].wrapping_sub(48),
                );
                if pair == c {
                    Some(Identifier::LEI(bytes))
                } else {
                    None
                }
            },
        }
    }
}

/// A stored identifier is valid when its own format's check digits
/// match; the empty identifier is vacuously valid.
pub open spec fn spec_identifier_valid(id: Identifier) -> bool {
    match id {
        Identifier::CUSIP(b) => spec_cusip_checksum(b@.subrange(0, 8)) + 48 == b@[8],
        Identifier::CINS(b) => spec_cusip_checksum(b@.subrange(0, 8)) + 48 == b@[8],
        Identifier::ISIN(b) => spec_luhn_sum(spec_isin_digits(b@)) % 10 == 0,
        Identifier::LEI(b) => match spec_lei_checksum(b@.subrange(0, 18)) {
            Some(c) => spec_lei_check_pair(b@[18], b@[19]) == c,
            None => false,
        },
        Identifier::EMPTY => true,
    }
}

impl Identifier {
    /// Re-validates the identifier's checksum.
    pub fn is_valid(&self) -> (r: bool)
        ensures
            r == spec_identifier_valid(*self),
    {
        match self {
            Identifier::CUSIP(b) => Identifier::cusip(*b).is_some(),
            Identifier::CINS(b) => Identifier::cins(*b).is_some(),
            Identifier::ISIN(b) => Identifier::isin(*b).is_some(),
            Identifier::LEI(b) => Identifier::lei(*b).is_some(),
            Identifier::EMPTY => true,
        }
    }
}

/// Number the two trailing LEI bytes spell, with the byte arithmetic
/// wrapping as unsigned eight-bit arithmetic does.
pub open spec fn spec_lei_check_pair(b18: u8, b19: u8) -> u8 {
    b18.wrapping_sub(48).wrapping_mul(10).wrapping_add(b19.wrapping_sub(48))
}

/// Decimal digits of a byte value, most significant first.
pub open spec fn spec_dec_digits(v: u8) -> Seq<u8> {
    if v < 10 {
        seq![v]
    } else if v < 100 {
        seq![(v / 10) as u8, (v % 10) as u8]
    } else {
        seq![(v / 100) as u8, ((v / 10) % 10) as u8, (v % 10) as u8]
    }
}

/// Concatenated decimal expansions of the values of a byte sequence.
pub open spec fn spec_isin_digits(s: Seq<u8>) -> Seq<u8>
    decreases s.len(),
{
    if s.len() == 0 {
        Seq::empty()
    } else {
        spec_isin_digits(s.drop_last()) + spec_dec_digits(spec_byte_value(s.last()))
    }
}

/// Luhn contribution of one decimal digit: doubled at odd positions
/// (counted from the end), minus nine when the doubling carries.
pub open spec fn spec_luhn_step(digit: u8, odd: bool) -> int {
    if odd {
        2 * digit - (if digit >= 5 {
            9int
        } else {
            0
        })
    } else {
        digit as int
    }
}

/// Luhn sum of the first `k` digits of `d`, with positions counted from
/// the end of the whole sequence.
pub open spec fn spec_luhn_pre(d: Seq<u8>, k: int) -> int
    decreases k,
{
    if k <= 0 {
        0
    } else {
        spec_luhn_pre(d, k - 1) + spec_luhn_step(d[k - 1], (d.len() - k) % 2 == 1)
    }
}

/// Luhn sum of a digit sequence.
pub open spec fn spec_luhn_sum(d: Seq<u8>) -> int {
    spec_luhn_pre(d, d.len() as int)
}

/// Luhn sum of a vector of decimal digits.
fn luhn_sum(d: &Vec<u8>) -> (r: u32)
    requires
        d@.len() <= 100,
        forall|k: int| 0 <= k < d@.len() ==> d@[k] < 10,
    ensures
        r == spec_luhn_sum(d@),
{
    let n: usize = d.len();
    let mut sum: u32 = 0;
    let mut i: usize = 0;
    while i < n
        invariant
            i <= n,
            n == d@.len() <= 100,
            forall|k: int| 0 <= k < d@.len() ==> d@[k] < 10,
            sum == spec_luhn_pre(d@, i as int),
            sum <= 18 * i,
        decreases n - i,
    {
        let digit: u32 = d[i] as u32;
        let step: u32 = if (n - 1 - i) % 2 == 1 {
            if digit >= 5 {
                2 * digit - 9
            } else {
                2 * digit
            }
        } else {
            digit
        };
        sum = sum + step;
        i = i + 1;
    }
    sum
}

/// Power of ten that shifts past the decimal digits of a byte value.
pub open spec fn spec_pow10_len(v: u8) -> int {
    if v < 10 {
        10
    } else if v < 100 {
        100
    } else {
        1000
    }
}

/// Number spelled by concatenating the decimal values of a byte
/// sequence, read as one decimal numeral.
pub open spec fn spec_lei_value(s: Seq<u8>) -> int
    decreases s.len(),
{
    if s.len() == 0 {
        0
    } else {
        spec_lei_value(s.drop_last()) * spec_pow10_len(spec_byte_value(s.last()))
            + spec_byte_value(s.last())
    }
}

/// LEI check number of a byte sequence: the concatenated value times
/// one hundred, modulo ninety-seven, subtracted from ninety-eight.
/// None when that number does not fit the machine word the computation
/// uses.
pub open spec fn spec_lei_checksum(s: Seq<u8>) -> Option<u8> {
    if spec_lei_value(s) * 100 <= u128::MAX {
        Some((98 - (spec_lei_value(s) * 100) % 97) as u8)
    } else {
        None
    }
}

proof fn lemma_lei_value_nonneg(s: Seq<u8>)
    ensures
        spec_lei_value(s) >= 0,
    decreases s.len(),
{
    if s.len() > 0 {
        lemma_lei_value_nonneg(s.drop_last());
        let a = spec_lei_value(s.drop_last());
        let m = spec_pow10_len(spec_byte_value(s.last()));
        assert(a * m >= 0) by (nonlinear_arith)
            requires
                a >= 0,
                m >= 10,
        ;
    }
}

proof fn lemma_lei_value_mono(s: Seq<u8>, k: int)
    requires
        0 <= k <= s.len(),
    ensures
        spec_lei_value(s.subrange(0, k)) <= spec_lei_value(s),
    decreases s.len() - k,
{
    if k < s.len() {
        lemma_lei_value_mono(s, k + 1);
        let pre = s.subrange(0, k);
        let post = s.subrange(0, k + 1);
        assert(post.drop_last() =~= pre);
        let a = spec_lei_value(pre);
        let m = spec_pow10_len(spec_byte_value(post.last()));
        lemma_lei_value_nonneg(pre);
        assert(a * m >= a) by (nonlinear_arith)
            requires
                a >= 0,
                m >= 10,
        ;
    } else {
        assert(s.subrange(0, k) =~= s);
    }
}

/// LEI check number of the given bytes, or None when the concatenated
/// value times one hundred overflows the 128-bit accumulator.
pub fn lei_checksum(bytes: [u8; 18]) -> (r: Option<u8>)
    ensures
        r == spec_lei_checksum(bytes@),
{
    let mut acc: u128 = 0;
    let mut i: usize = 0;
    while i < 18
        invariant
            i <= 18,
            acc == spec_lei_value(bytes@.subrange(0, i as int)),
        decreases 18 - i,
    {
        let v: u8 = byte_value(bytes[i]);
        let mult: u128 = if v < 10 {
            10
        } else if v < 100 {
            100
        } else {
            1000
        };
        proof {
            let post = bytes@.subrange(0, i + 1);
            assert(post.drop_last() =~= bytes@.subrange(0, i as int));
            assert(post.last() == bytes@[i as int]);
        }
        let shifted: Option<u128> = acc.checked_mul(mult);
        match shifted {
            None => {
                proof {
                    lemma_lei_value_mono(bytes@, i + 1);
                    lemma_lei_value_nonneg(bytes@);
                    assert(spec_lei_value(bytes@) * 100 >= spec_lei_value(bytes@))
                        by (nonlinear_arith)
                        requires
                            spec_lei_value(bytes@) >= 0,
                    ;
                }
                return None;
            },
            Some(x) => {
                let next: Option<u128> = x.checked_add(v as u128);
                match next {
                    None => {
                        proof {
                            lemma_lei_value_mono(bytes@, i + 1);
                            lemma_lei_value_nonneg(bytes@);
                            assert(spec_lei_value(bytes@) * 100 >= spec_lei_value(bytes@))
                                by (nonlinear_arith)
                                requires
                                    spec_lei_value(bytes@) >= 0,
                            ;
                        }
                        return None;
                    },
                    Some(y) => {
                        acc = y;
                    },
                }
            },
        }
        i = i + 1;
    }
    proof {
        assert(bytes@.subrange(0, 18) =~= bytes@);
    }
    let full: Option<u128> = acc.checked_mul(100);
    match full {
        None => None,
        Some(n) => Some(98 - (n % 97) as u8),
    }
}

} // verus!
