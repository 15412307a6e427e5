use vstd::prelude::*;

use vstd::arithmetic::power2::{lemma2_to64, pow2};

verus! {

/// Relies on String::from_utf8: bytes below 128 decode to exactly those
/// characters, one each.
#[verifier::external_body]
pub(crate) fn ascii_to_string(v: Vec<u8>) -> (r: String)
    requires
        forall|i: int| 0 <= i < v@.len() ==> v@[i] < 128,
    ensures
        r@ == v@.map_values(|b: u8| b as char),
{
    match String::from_utf8(v) {
        Ok(s) => s,
        Err(_) => String::new(),
    }
}

/// The shortest decimal rendering of `n`, as ASCII digit bytes.
pub open spec fn spec_decimal(n: nat) -> Seq<u8>
    decreases n,
{
    if n < 10 {
        seq![(48 + n) as u8]
    } else {
        spec_decimal(n / 10) + seq![(48 + n % 10) as u8]
    }
}

/// Every byte of a decimal rendering is an ASCII digit.
pub proof fn lemma_decimal_is_digits(n: nat)
    ensures
        spec_decimal(n).len() >= 1,
        forall|i: int| 0 <= i < spec_decimal(n).len() ==> 48 <= #[trigger] spec_decimal(n)[i] <= 57,
    decreases n,
{
    if n >= 10 {
        lemma_decimal_is_digits(n / 10);
    }
}

/// Render `n` in decimal.
pub fn decimal_u64(n: u64) -> (r: Vec<u8>)
    ensures
        r@ == spec_decimal(n as nat),
    decreases n,
{
    if n < 10 {
        let mut v: Vec<u8> = Vec::new();
        v.push(48 + (n as u8));
        proof {
            assert(v@ =~= spec_decimal(n as nat));
        }
        v
    } else {
        let mut v = decimal_u64(n / 10);
        v.push(48 + ((n % 10) as u8));
        proof {
            assert(v@ =~= spec_decimal(n as nat));
        }
        v
    }
}

/// The base32-like alphabet of the digest encoding: the ten digits and
/// the lower-case letters except e, o, t and u.
pub open spec fn nb32_alphabet_chars() -> Seq<char> {
    "0123456789abcdfghijklmnpqrsvwxyz"@
}

pub open spec fn nb32_alphabet() -> Seq<u8> {
    Seq::new(32, |i: int| nb32_alphabet_chars()[i] as u8)
}

/// Length of the encoding of `n` bytes: one character for each started
/// group of five bits.
pub open spec fn nb32_len(n: nat) -> nat {
    (n * 8 + 4) / 5
}

/// The value of the `g`-th five-bit group of `bytes`, counting bits from
/// the low end of the first byte.
pub open spec fn nb32_group(bytes: Seq<u8>, g: int) -> int {
    let b = 5 * g;
    let i = b / 8;
    let j = b % 8;
    let lo = (bytes[i] as int) / pow2(j as nat) as int;
    let hi = if i + 1 < bytes.len() {
        (bytes[i + 1] as int) * pow2((8 - j) as nat) as int
    } else {
        0
    };
    (lo + hi) % 32
}

/// The digest encoding of `bytes`: the five-bit groups rendered in the
/// alphabet, last group first.
pub open spec fn nixbase32_of(bytes: Seq<u8>) -> Seq<u8> {
    Seq::new(
        nb32_len(bytes.len()),
        |k: int| nb32_alphabet()[nb32_group(bytes, nb32_len(bytes.len()) - 1 - k)],
    )
}

/// Every byte of the encoding is an ASCII digit or lower-case letter.
pub proof fn lemma_nixbase32_is_ascii(bytes: Seq<u8>)
    ensures
        forall|i: int|
            0 <= i < nixbase32_of(bytes).len() ==> 48 <= #[trigger] nixbase32_of(bytes)[i] < 128,
{
    reveal_strlit("0123456789abcdfghijklmnpqrsvwxyz");
    assert forall|i: int|
        0 <= i < nixbase32_of(bytes).len() implies 48 <= #[trigger] nixbase32_of(bytes)[i]
        < 128 by {
        let g = nb32_len(bytes.len()) - 1 - i;
        assert(0 <= nb32_group(bytes, g) < 32) by {
            assert((nb32_group_sum(bytes, g)) % 32 >= 0);
        }
        assert(48 <= nb32_alphabet()[nb32_group(bytes, g)] < 128);
    }
}

/// The sum whose remainder modulo 32 is the group value.
pub open spec fn nb32_group_sum(bytes: Seq<u8>, g: int) -> int {
    let b = 5 * g;
    let i = b / 8;
    let j = b % 8;
    (bytes[i] as int) / pow2(j as nat) as int + if i + 1 < bytes.len() {
        (bytes[i + 1] as int) * pow2((8 - j) as nat) as int
    } else {
        0
    }
}

/// Two raised to `e`, for the small exponents the encoder uses.
fn pow2_u32(e: u32) -> (r: u32)
    requires
        e <= 8,
    ensures
        r as nat == pow2(e as nat),
        1 <= r <= 256,
{
    proof {
        lemma2_to64();
    }
    match e {
        0 => 1,
        1 => 2,
        2 => 4,
        3 => 8,
        4 => 16,
        5 => 32,
        6 => 64,
        7 => 128,
        _ => 256,
    }
}

/// One character of the alphabet.
fn nb32_alphabet_byte(v: usize) -> (r: u8)
    requires
        v < 32,
    ensures
        r == nb32_alphabet()[v as int],
{
    let a = "0123456789abcdfghijklmnpqrsvwxyz";
    proof {
        reveal_strlit("0123456789abcdfghijklmnpqrsvwxyz");
        assert(a.is_ascii());
    }
    a.get_ascii(v)
}

/// The base64 alphabet.
pub open spec fn b64_alphabet_chars() -> Seq<char> {
    "ABCDEFGHIJKLMNOPQRSTUVWXYZabcdefghijklmnopqrstuvwxyz0123456789+/"@
}

pub open spec fn b64_alphabet() -> Seq<u8> {
    Seq::new(64, |i: int| b64_alphabet_chars()[i] as u8)
}

/// The padded base64 encoding of `bytes`: each group of three bytes
/// becomes four alphabet characters; a final group of one or two bytes
/// is padded with '='.
pub open spec fn base64_of(bytes: Seq<u8>) -> Seq<u8>
    decreases bytes.len(),
{
    if bytes.len() == 0 {
        Seq::empty()
    } else if bytes.len() == 1 {
        let b0 = bytes[0] as int;
        seq![b64_alphabet()[b0 / 4], b64_alphabet()[(b0 % 4) * 16], 61u8, 61u8]
    } else if bytes.len() == 2 {
        let b0 = bytes[0] as int;
        let b1 = bytes[1] as int;
        seq![
            b64_alphabet()[b0 / 4],
            b64_alphabet()[(b0 % 4) * 16 + b1 / 16],
            b64_alphabet()[(b1 % 16) * 4],
            61u8,
        ]
    } else {
        let b0 = bytes[0] as int;
        let b1 = bytes[1] as int;
        let b2 = bytes[2] as int;
        seq![
            b64_alphabet()[b0 / 4],
            b64_alphabet()[(b0 % 4) * 16 + b1 / 16],
            b64_alphabet()[(b1 % 16) * 4 + b2 / 64],
            b64_alphabet()[b2 % 64],
        ] + base64_of(bytes.skip(3))
    }
}

/// One character of the base64 alphabet.
fn b64_alphabet_byte(v: usize) -> (r: u8)
    requires
        v < 64,
    ensures
        r == b64_alphabet()[v as int],
{
    let a = "ABCDEFGHIJKLMNOPQRSTUVWXYZabcdefghijklmnopqrstuvwxyz0123456789+/";
    proof {
        reveal_strlit("ABCDEFGHIJKLMNOPQRSTUVWXYZabcdefghijklmnopqrstuvwxyz0123456789+/");
        assert(a.is_ascii());
    }
    a.get_ascii(v)
}

/// Every byte of a base64 encoding is printable ASCII.
pub proof fn lemma_base64_is_ascii(bytes: Seq<u8>)
    ensures
        forall|i: int|
            0 <= i < base64_of(bytes).len() ==> 43 <= #[trigger] base64_of(bytes)[i] < 128,
    decreases bytes.len(),
{
    reveal_strlit("ABCDEFGHIJKLMNOPQRSTUVWXYZabcdefghijklmnopqrstuvwxyz0123456789+/");
    if bytes.len() > 2 {
        lemma_base64_is_ascii(bytes.skip(3));
        assert forall|i: int|
            0 <= i < base64_of(bytes).len() implies 43 <= #[trigger] base64_of(bytes)[i]
            < 128 by {
            if i >= 4 {
                assert(base64_of(bytes)[i] == base64_of(bytes.skip(3))[i - 4]);
            }
        }
    }
}

/// Encode `bytes` in padded base64.
pub fn base64_encode(bytes: &[u8]) -> (r: Vec<u8>)
    ensures
        r@ == base64_of(bytes@),
{
    let n = bytes.len();
    let mut out: Vec<u8> = Vec::new();
    let mut p: usize = 0;
    proof {
        assert(bytes@.skip(0) =~= bytes@);
        assert(out@ + base64_of(bytes@) =~= base64_of(bytes@));
    }
    while n - p >= 3
        invariant
            p <= n,
            n == bytes@.len(),
            base64_of(bytes@) == out@ + base64_of(bytes@.skip(p as int)),
        decreases n - p,
    {
        let ghost pre = out@;
        let b0 = bytes[p];
        let b1 = bytes[p + 1];
        let b2 = bytes[p + 2];
        out.push(b64_alphabet_byte((b0 / 4) as usize));
        out.push(b64_alphabet_byte(((b0 % 4) * 16 + b1 / 16) as usize));
        out.push(b64_alphabet_byte(((b1 % 16) * 4 + b2 / 64) as usize));
        out.push(b64_alphabet_byte((b2 % 64) as usize));
        proof {
            let rest = bytes@.skip(p as int);
            assert(rest[0] == b0 && rest[1] == b1 && rest[2] == b2);
            assert(rest.skip(3) =~= bytes@.skip(p + 3));
            assert(out@ =~= pre + base64_of(rest).take(4));
            assert(base64_of(bytes@) =~= out@ + base64_of(bytes@.skip(p + 3)));
        }
        p = p + 3;
    }
    if n - p == 1 {
        let ghost pre = out@;
        let b0 = bytes[p];
        out.push(b64_alphabet_byte((b0 / 4) as usize));
        out.push(b64_alphabet_byte(((b0 % 4) * 16) as usize));
        out.push(61);
        out.push(61);
        proof {
            let rest = bytes@.skip(p as int);
            assert(rest[0] == b0 && rest.len() == 1);
            assert(out@ =~= pre + base64_of(rest));
            assert(out@ =~= base64_of(bytes@));
        }
    } else if n - p == 2 {
        let ghost pre = out@;
        let b0 = bytes[p];
        let b1 = bytes[p + 1];
        out.push(b64_alphabet_byte((b0 / 4) as usize));
        out.push(b64_alphabet_byte(((b0 % 4) * 16 + b1 / 16) as usize));
        out.push(b64_alphabet_byte(((b1 % 16) * 4) as usize));
        out.push(61);
        proof {
            let rest = bytes@.skip(p as int);
            assert(rest[0] == b0 && rest[1] == b1 && rest.len() == 2);
            assert(out@ =~= pre + base64_of(rest));
            assert(out@ =~= base64_of(bytes@));
        }
    } else {
        proof {
            assert(bytes@.skip(p as int).len() == 0);
            assert(out@ =~= base64_of(bytes@));
        }
    }
    out
}

/// Encode `bytes` in the digest alphabet.
pub fn nixbase32_encode(bytes: &[u8]) -> (r: Vec<u8>)
    requires
        bytes@.len() * 8 + 4 <= usize::MAX,
    ensures
        r@ == nixbase32_of(bytes@),
{
    let n = bytes.len();
    let out_len = (n * 8 + 4) / 5;
    proof {
        assert(out_len == nb32_len(bytes@.len()));
    }
    let mut out: Vec<u8> = Vec::new();
    let mut k: usize = 0;
    while k < out_len
        invariant
            k <= out_len,
            n == bytes@.len(),
            n * 8 + 4 <= usize::MAX,
            out_len == nb32_len(n as nat),
            out@ =~= nixbase32_of(bytes@).take(k as int),
        decreases out_len - k,
    {
        let g = out_len - 1 - k;
        proof {
            assert(5 * ((n * 8 + 4) / 5) <= n * 8 + 4) by (nonlinear_arith);
            assert(5 * g <= 8 * n - 1);
        }
        let b = 5 * g;
        let i = b / 8;
        let j = (b % 8) as u32;
        proof {
            assert(i < n);
        }
        let p_lo = pow2_u32(j);
        let lo: u32 = (bytes[i] as u32) / p_lo;
        let hi: u32 = if i + 1 < n {
            let b_hi = bytes[i + 1];
            let p_hi = pow2_u32(8 - j);
            proof {
                assert((b_hi as u32) * p_hi <= 255 * 256) by (nonlinear_arith)
                    requires
                        b_hi <= 255,
                        p_hi <= 256,
                ;
            }
            (b_hi as u32) * p_hi
        } else {
            0
        };
        proof {
            assert(lo <= 255);
            assert(hi <= 255 * 256);
        }
        let v = ((lo + hi) % 32) as usize;
        proof {
            assert(v as int == nb32_group(bytes@, g as int));
        }
        out.push(nb32_alphabet_byte(v));
        proof {
            assert(out@ =~= nixbase32_of(bytes@).take(k + 1));
        }
        k = k + 1;
    }
    proof {
        assert(out@ =~= nixbase32_of(bytes@));
    }
    out
}

} // verus!
