//! Text helpers: comparison, decimal parsing and little-endian encoding.

use vstd::prelude::*;

verus! {

/// Whether `c` is an ASCII decimal digit.
pub open spec fn is_digit(c: char) -> bool {
    '0' as int <= c as int <= '9' as int
}

/// Whether `s` is made of ASCII decimal digits only.
pub open spec fn all_digits(s: Seq<char>) -> bool {
    forall|i: int| 0 <= i < s.len() ==> is_digit(#[trigger] s[i])
}

/// The value of the decimal numeral `s` (digits only).
pub open spec fn digits_value(s: Seq<char>) -> int
    decreases s.len(),
{
    if s.len() == 0 {
        0
    } else {
        digits_value(s.drop_last()) * 10 + (s.last() as int - '0' as int)
    }
}

/// Whether `s` is a nonempty run of digits.
pub open spec fn is_numeral(s: Seq<char>) -> bool {
    s.len() > 0 && all_digits(s)
}

/// What parsing `s` as a `u16` yields: an optional `+` followed by digits
/// whose value fits.
pub open spec fn parsed_u16(s: Seq<char>) -> Option<u16> {
    let d = if s.len() > 0 && s[0] == '+' { s.drop_first() } else { s };
    if is_numeral(d) && digits_value(d) <= u16::MAX {
        Some(digits_value(d) as u16)
    } else {
        None
    }
}

/// What parsing `s` as an `i64` yields: an optional `+` or `-` followed by
/// digits whose signed value fits.
pub open spec fn parsed_i64(s: Seq<char>) -> Option<i64> {
    if s.len() > 0 && s[0] == '-' {
        let d = s.drop_first();
        if is_numeral(d) && -digits_value(d) >= i64::MIN {
            Some((-digits_value(d)) as i64)
        } else {
            None
        }
    } else {
        let d = if s.len() > 0 && s[0] == '+' { s.drop_first() } else { s };
        if is_numeral(d) && digits_value(d) <= i64::MAX {
            Some(digits_value(d) as i64)
        } else {
            None
        }
    }
}

/// Parses `s` as a decimal `u16` with `str::parse::<u16>`.
///
/// Trusted: std documents that the text must be an optional `+` followed by
/// ASCII digits only, and that a value out of range is an error; the contract
/// states exactly that.
#[verifier::external_body]
pub(crate) fn parse_u16(s: &str) -> (r: Option<u16>)
    ensures
        r == parsed_u16(s@),
{
    s.parse::<u16>().ok()
}

/// Parses `s` as a decimal `i64` with `str::parse::<i64>`.
///
/// Trusted: std documents that the text must be an optional `+` or `-`
/// followed by ASCII digits only, and that a value out of range is an error;
/// the contract states exactly that.
#[verifier::external_body]
pub(crate) fn parse_i64(s: &str) -> (r: Option<i64>)
    ensures
        r == parsed_i64(s@),
{
    s.parse::<i64>().ok()
}

/// Whether two strings hold the same characters.
pub fn text_eq(a: &str, b: &str) -> (r: bool)
    ensures
        r == (a@ == b@),
{
    let n = a.unicode_len();
    let m = b.unicode_len();
    if n != m {
        return false;
    }
    let mut i: usize = 0;
    while i < n
        invariant
            n == a@.len(),
            m == b@.len(),
            n == m,
            i <= n,
            forall|j: int| 0 <= j < i ==> a@[j] == b@[j],
        decreases n - i,
    {
        if a.get_char(i) != b.get_char(i) {
            return false;
        }
        i = i + 1;
    }
    assert(a@ =~= b@);
    true
}

/// The `n` low bytes of `x`, least significant first.
pub open spec fn le_bytes(x: nat, n: nat) -> Seq<u8>
    decreases n,
{
    if n == 0 {
        Seq::empty()
    } else {
        seq![(x % 256) as u8] + le_bytes(x / 256, (n - 1) as nat)
    }
}

/// The eight little-endian bytes of `v` in two's complement.
pub open spec fn i64_le_bytes(v: i64) -> Seq<u8> {
    le_bytes((v as u64) as nat, 8)
}

/// The eight little-endian bytes of `v` in two's complement
/// (what `i64::to_le_bytes` gives).
pub fn encode_i64_le(v: i64) -> (bytes: Vec<u8>)
    ensures
        bytes@ == i64_le_bytes(v),
{
    let mut x: u64 = v as u64;
    let mut out: Vec<u8> = Vec::new();
    let mut k: usize = 0;
    while k < 8
        invariant
            k <= 8,
            out@ + le_bytes(x as nat, (8 - k) as nat) == i64_le_bytes(v),
        decreases 8 - k,
    {
        let ghost before = out@;
        proof {
            assert(le_bytes(x as nat, (8 - k) as nat) == seq![(x % 256) as u8] + le_bytes(
                (x / 256) as nat,
                (8 - k - 1) as nat,
            ));
        }
        out.push((x % 256) as u8);
        x = x / 256;
        k = k + 1;
        proof {
            assert(before + (seq![out@.last()] + le_bytes(x as nat, (8 - k) as nat)) =~= out@
                + le_bytes(x as nat, (8 - k) as nat));
        }
    }
    assert(out@ + le_bytes(x as nat, 0) =~= out@);
    out
}

/// The number whose little-endian bytes are `b`.
pub open spec fn le_value(b: Seq<u8>) -> nat
    decreases b.len(),
{
    if b.len() == 0 {
        0
    } else {
        b[0] as nat + 256 * le_value(b.drop_first())
    }
}

/// `256` to the power `n`.
pub open spec fn pow256(n: nat) -> nat
    decreases n,
{
    if n == 0 {
        1
    } else {
        256 * pow256((n - 1) as nat)
    }
}

/// Reading back `n` little-endian bytes of `x < 256^n` gives `x`.
proof fn lemma_le_bytes_roundtrip(x: nat, n: nat)
    requires
        x < pow256(n),
    ensures
        le_value(le_bytes(x, n)) == x,
    decreases n,
{
    if n > 0 {
        let q = x / 256;
        let r = x % 256;
        vstd::arithmetic::div_mod::lemma_fundamental_div_mod(x as int, 256);
        assert(q < pow256((n - 1) as nat)) by (nonlinear_arith)
            requires
                x == 256 * q + r,
                0 <= r,
                0 <= q,
                x < 256 * pow256((n - 1) as nat),
        ;
        lemma_le_bytes_roundtrip(q, (n - 1) as nat);
        let b = le_bytes(x, n);
        assert(b.drop_first() =~= le_bytes(q, (n - 1) as nat));
    }
}

/// The eight bytes encoding an `i64` decode, as an unsigned little-endian
/// number, to the value's two's complement bit pattern: what
/// `i64::from_le_bytes` reads back.
pub proof fn law_i64_le_bytes_roundtrip(v: i64)
    ensures
        i64_le_bytes(v).len() == 8,
        le_value(i64_le_bytes(v)) == (v as u64) as nat,
{
    assert(pow256(8) == 0x1_0000_0000_0000_0000) by {
        reveal_with_fuel(pow256, 9);
    }
    lemma_le_bytes_len((v as u64) as nat, 8);
    lemma_le_bytes_roundtrip((v as u64) as nat, 8);
}

/// `le_bytes(x, n)` has `n` bytes.
proof fn lemma_le_bytes_len(x: nat, n: nat)
    ensures
        le_bytes(x, n).len() == n,
    decreases n,
{
    if n > 0 {
        lemma_le_bytes_len(x / 256, (n - 1) as nat);
    }
}

} // verus!
