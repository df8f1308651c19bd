//! Rendering of persisted binary columns for human-readable output: hashes
//! as `0x`-prefixed lowercase hex, 20-byte blobs as checksummed addresses,
//! and amounts as decimal strings.

use vstd::prelude::*;
use vstd::slice::{slice_subrange, slice_to_vec};
use vstd::string::StringExecFns;

verus! {

/// The lowercase hex digit for a value below sixteen.
pub open spec fn hex_digit(n: int) -> char {
    if n == 0 {
        '0'
    } else if n == 1 {
        '1'
    } else if n == 2 {
        '2'
    } else if n == 3 {
        '3'
    } else if n == 4 {
        '4'
    } else if n == 5 {
        '5'
    } else if n == 6 {
        '6'
    } else if n == 7 {
        '7'
    } else if n == 8 {
        '8'
    } else if n == 9 {
        '9'
    } else if n == 10 {
        'a'
    } else if n == 11 {
        'b'
    } else if n == 12 {
        'c'
    } else if n == 13 {
        'd'
    } else if n == 14 {
        'e'
    } else {
        'f'
    }
}

/// Lowercase hex of a byte sequence: two digits per byte, in order.
pub open spec fn hex_of(bytes: Seq<u8>) -> Seq<char>
    decreases bytes.len(),
{
    if bytes.len() == 0 {
        Seq::empty()
    } else {
        seq![hex_digit(bytes[0] as int / 16), hex_digit(bytes[0] as int % 16)] + hex_of(
            bytes.drop_first(),
        )
    }
}

/// Hex of a byte sequence with the customary `0x` prefix.
pub open spec fn hex_prefixed(bytes: Seq<u8>) -> Seq<char> {
    seq!['0', 'x'] + hex_of(bytes)
}

/// The decimal digit character for a value below ten.
pub open spec fn dec_digit(n: int) -> char {
    if n == 0 {
        '0'
    } else if n == 1 {
        '1'
    } else if n == 2 {
        '2'
    } else if n == 3 {
        '3'
    } else if n == 4 {
        '4'
    } else if n == 5 {
        '5'
    } else if n == 6 {
        '6'
    } else if n == 7 {
        '7'
    } else if n == 8 {
        '8'
    } else {
        '9'
    }
}

/// Ordinary decimal notation of a natural number, without leading zeros —
/// a single `0` for zero.
pub open spec fn dec_digits(n: nat) -> Seq<char>
    decreases n,
{
    if n < 10 {
        seq![dec_digit(n as int)]
    } else {
        dec_digits(n / 10).push(dec_digit((n % 10) as int))
    }
}

/// The unsigned big-endian value of a byte sequence.
pub open spec fn be_value(bytes: Seq<u8>) -> nat
    decreases bytes.len(),
{
    if bytes.len() == 0 {
        0
    } else {
        be_value(bytes.drop_last()) * 256 + bytes.last() as nat
    }
}

/// The EIP-55 checksummed rendering of 20 address bytes, `0x`-prefixed.
/// Which digits come out uppercase depends on a hash of the address, so the
/// form is not restated here; it is a function of the 20 bytes alone.
pub uninterp spec fn checksummed(addr: Seq<u8>) -> Seq<char>;

/// Relies on `alloy::hex::encode`: lowercase, exactly two digits per byte.
#[verifier::external_body]
fn hex_encode(bytes: &[u8]) -> (r: String)
    ensures
        r@ == hex_of(bytes@),
{
    alloy::hex::encode(bytes)
}

/// A binary column as `0x`-prefixed lowercase hex.
pub fn bytes_to_hex(bytes: &[u8]) -> (r: String)
    ensures
        r@ == hex_prefixed(bytes@),
{
    let mut out = String::new();
    out.append("0x");
    let digits = hex_encode(bytes);
    out.append(digits.as_str());
    proof {
        assert(Seq::<char>::empty() + "0x"@ + hex_of(bytes@) =~= seq!['0', 'x'] + hex_of(
            bytes@,
        )) by {
            reveal_strlit("0x");
        }
    }
    out
}

/// Relies on `alloy::primitives::Address`: `from_slice` accepts exactly 20
/// bytes, and `to_checksum(None)` renders their 42-character EIP-55 form.
#[verifier::external_body]
fn checksum_address(bytes: &[u8]) -> (r: String)
    requires
        bytes@.len() == 20,
    ensures
        r@ == checksummed(bytes@),
        r@.len() == 42,
{
    alloy::primitives::Address::from_slice(bytes).to_checksum(None)
}

/// Relies on `alloy::primitives::U256`: `from_be_bytes` reads the 32 bytes
/// big-endian, and its display form is ordinary decimal.
#[verifier::external_body]
fn u256_decimal(bytes: &[u8]) -> (r: String)
    requires
        bytes@.len() == 32,
    ensures
        r@ == dec_digits(be_value(bytes@)),
{
    let mut word = [0u8; 32];
    word.copy_from_slice(bytes);
    format!("{}", alloy::primitives::U256::from_be_bytes(word))
}

/// Prepending a zero byte leaves the big-endian value unchanged.
proof fn lemma_be_zero_prefix(s: Seq<u8>)
    ensures
        be_value(seq![0u8] + s) == be_value(s),
    decreases s.len(),
{
    if s.len() == 0 {
        assert((seq![0u8] + s) =~= seq![0u8]);
        assert(be_value(seq![0u8]) == be_value(seq![0u8].drop_last()) * 256 + 0);
        assert(seq![0u8].drop_last() =~= Seq::<u8>::empty());
    } else {
        assert((seq![0u8] + s).drop_last() =~= seq![0u8] + s.drop_last());
        assert((seq![0u8] + s).last() == s.last());
        lemma_be_zero_prefix(s.drop_last());
    }
}

/// An address column: 20 bytes render as the checksummed address, a 32-byte
/// word as the checksummed address of its low 20 bytes, and anything else as
/// a note quoting the length and the raw hex.
pub fn bytes_to_address(bytes: &[u8]) -> (r: String)
    ensures
        bytes@.len() == 20 ==> r@ == checksummed(bytes@),
        bytes@.len() == 32 ==> r@ == checksummed(bytes@.subrange(12, 32)),
        (bytes@.len() != 20 && bytes@.len() != 32) ==> r@ == "<invalid address length "@
            + dec_digits(bytes@.len() as nat) + ": "@ + hex_prefixed(bytes@) + ">"@,
{
    let n = bytes.len();
    if n == 20 {
        checksum_address(bytes)
    } else if n == 32 {
        checksum_address(slice_subrange(bytes, 12, 32))
    } else {
        let mut out = String::new();
        out.append("<invalid address length ");
        let count = u64_to_decimal(n as u64);
        out.append(count.as_str());
        out.append(": ");
        let hex = bytes_to_hex(bytes);
        out.append(hex.as_str());
        out.append(">");
        out
    }
}

/// An amount column: up to 32 big-endian bytes render as the decimal value,
/// anything longer as a note quoting the raw hex.
pub fn bytes_to_u256(bytes: &[u8]) -> (r: String)
    ensures
        bytes@.len() <= 32 ==> r@ == dec_digits(be_value(bytes@)),
        bytes@.len() > 32 ==> r@ == "<invalid u256: "@ + hex_prefixed(bytes@) + ">"@,
{
    let n = bytes.len();
    if n <= 32 {
        let mut padded: Vec<u8> = Vec::new();
        let pad = 32 - n;
        let mut i: usize = 0;
        while i < pad
            invariant
                0 <= i <= pad,
                padded@ =~= Seq::new(i as nat, |_k: int| 0u8),
            decreases pad - i,
        {
            padded.push(0u8);
            proof {
                assert(padded@ =~= Seq::new((i + 1) as nat, |_k: int| 0u8));
            }
            i = i + 1;
        }
        let tail = slice_to_vec(bytes);
        let mut j: usize = 0;
        while j < n
            invariant
                n == bytes@.len(),
                tail@ == bytes@,
                0 <= j <= n,
                padded@ =~= Seq::new((32 - n) as nat, |_k: int| 0u8) + bytes@.take(j as int),
            decreases n - j,
        {
            padded.push(tail[j]);
            proof {
                assert(bytes@.take(j as int + 1) =~= bytes@.take(j as int).push(bytes@[j as int]));
            }
            j = j + 1;
        }
        proof {
            assert(bytes@.take(n as int) =~= bytes@);
            lemma_be_pad(bytes@, (32 - n) as nat);
            assert(padded@.len() == 32);
        }
        u256_decimal(padded.as_slice())
    } else {
        let mut out = String::new();
        out.append("<invalid u256: ");
        let hex = bytes_to_hex(bytes);
        out.append(hex.as_str());
        out.append(">");
        out
    }
}

/// Any run of leading zero bytes leaves the big-endian value unchanged.
proof fn lemma_be_pad(s: Seq<u8>, k: nat)
    ensures
        be_value(Seq::new(k, |_k: int| 0u8) + s) == be_value(s),
    decreases k,
{
    if k == 0 {
        assert(Seq::new(0, |_k: int| 0u8) + s =~= s);
    } else {
        lemma_be_pad(s, (k - 1) as nat);
        assert(Seq::new(k, |_k: int| 0u8) + s =~= seq![0u8] + (Seq::new(
            (k - 1) as nat,
            |_k: int| 0u8,
        ) + s));
        lemma_be_zero_prefix(Seq::new((k - 1) as nat, |_k: int| 0u8) + s);
    }
}

/// The decimal digit character, as a one-character string slice.
fn dec_digit_str(d: u64) -> (r: &'static str)
    requires
        d < 10,
    ensures
        r@ == seq![dec_digit(d as int)],
{
    proof {
        reveal_strlit("0");
        reveal_strlit("1");
        reveal_strlit("2");
        reveal_strlit("3");
        reveal_strlit("4");
        reveal_strlit("5");
        reveal_strlit("6");
        reveal_strlit("7");
        reveal_strlit("8");
        reveal_strlit("9");
    }
    if d == 0 {
        "0"
    } else if d == 1 {
        "1"
    } else if d == 2 {
        "2"
    } else if d == 3 {
        "3"
    } else if d == 4 {
        "4"
    } else if d == 5 {
        "5"
    } else if d == 6 {
        "6"
    } else if d == 7 {
        "7"
    } else if d == 8 {
        "8"
    } else {
        "9"
    }
}

fn push_decimal(n: u64, out: &mut String)
    ensures
        final(out)@ == old(out)@ + dec_digits(n as nat),
    decreases n,
{
    if n >= 10 {
        push_decimal(n / 10, out);
    }
    out.append(dec_digit_str(n % 10));
    proof {
        if n < 10 {
            assert(old(out)@ + dec_digits(n as nat) =~= old(out)@ + seq![dec_digit(n as int)]);
        } else {
            assert(old(out)@ + dec_digits((n / 10) as nat) + seq![dec_digit((n % 10) as int)]
                =~= old(out)@ + dec_digits(n as nat));
        }
    }
}

/// A number in ordinary decimal notation.
pub fn u64_to_decimal(n: u64) -> (r: String)
    ensures
        r@ == dec_digits(n as nat),
{
    let mut out = String::new();
    push_decimal(n, &mut out);
    proof {
        assert(Seq::<char>::empty() + dec_digits(n as nat) =~= dec_digits(n as nat));
    }
    out
}

} // verus!
