//! Small shared helpers: decimal formatting of integers and exact-length
//! reads.

use vstd::prelude::*;
use crate::model::{dec_digits, dec_text, to_signed};
use crate::reader::ByteReader;
use crate::types::RdbResult;

verus! {

/// Formats a signed 64-bit integer as ASCII decimal text.
pub fn i64_to_vec(number: i64) -> (r: Vec<u8>)
    ensures
        r@ == dec_text(number as int),
{
    let neg = number < 0;
    let m: u64 = if number < 0 {
        (-(number + 1)) as u64 + 1
    } else {
        number as u64
    };
    let mut digits: Vec<u8> = Vec::new();
    let mut n: u64 = m;
    while n >= 10
        invariant
            dec_digits(m as nat) == dec_digits(n as nat) + digits@.reverse(),
        decreases n,
    {
        let d: u8 = (n % 10) as u8 + 48;
        proof {
            assert(dec_digits(n as nat) == dec_digits(n as nat / 10).push(
                (48 + n as nat % 10) as u8));
            assert(digits@.push(d).reverse() =~= seq![d] + digits@.reverse());
            assert(dec_digits(n as nat / 10) + (seq![d] + digits@.reverse())
                =~= (dec_digits(n as nat / 10) + seq![d]) + digits@.reverse());
            assert(dec_digits(n as nat / 10).push(d) =~= dec_digits(n as nat / 10) + seq![d]);
        }
        digits.push(d);
        n = n / 10;
    }
    let mut out: Vec<u8> = Vec::new();
    if neg {
        out.push(45);
    }
    out.push(n as u8 + 48);
    proof {
        assert(dec_digits(n as nat) =~= seq![(48 + n as nat) as u8]);
        assert(out@ + digits@.reverse() =~= (if neg { seq![45u8] } else { Seq::<u8>::empty() })
            + dec_digits(m as nat));
    }
    while digits.len() != 0
        invariant
            out@ + digits@.reverse() =~= (if neg { seq![45u8] } else { Seq::<u8>::empty() })
                + dec_digits(m as nat),
        decreases digits.len(),
    {
        let ghost pre = digits@;
        let d = match digits.pop() {
            Some(d) => d,
            None => 0,
        };
        out.push(d);
        proof {
            assert(pre.reverse() =~= seq![d] + digits@.reverse());
        }
    }
    proof {
        assert(digits@.reverse() =~= Seq::<u8>::empty());
        assert(out@ =~= out@ + digits@.reverse());
        if neg {
            assert(m as int == -(number as int));
        }
    }
    out
}

/// Formats a signed 32-bit integer as ASCII decimal text.
pub fn int_to_vec(number: i32) -> (r: Vec<u8>)
    ensures
        r@ == dec_text(number as int),
{
    i64_to_vec(number as i64)
}

/// Formats an unsigned 64-bit integer as ASCII decimal digits.
pub fn u64_to_vec(number: u64) -> (r: Vec<u8>)
    ensures
        r@ == dec_digits(number as nat),
{
    i64_to_vec_unsigned(number)
}

/// Appends the bytes of `src` to `dst`.
pub fn append_bytes(dst: &mut Vec<u8>, src: &[u8])
    ensures
        final(dst)@ == old(dst)@ + src@,
{
    let ghost pre = dst@;
    let mut k: usize = 0;
    while k < src.len()
        invariant
            k <= src@.len(),
            dst@ == pre + src@.subrange(0, k as int),
        decreases src@.len() - k,
    {
        dst.push(src[k]);
        k = k + 1;
        proof {
            assert(dst@ =~= pre + src@.subrange(0, k as int));
        }
    }
    proof {
        assert(dst@ =~= pre + src@);
    }
}

/// The digit loop shared by the signed and unsigned formatters.
fn i64_to_vec_unsigned(m: u64) -> (r: Vec<u8>)
    ensures
        r@ == dec_digits(m as nat),
{
    let mut digits: Vec<u8> = Vec::new();
    let mut n: u64 = m;
    while n >= 10
        invariant
            dec_digits(m as nat) == dec_digits(n as nat) + digits@.reverse(),
        decreases n,
    {
        let d: u8 = (n % 10) as u8 + 48;
        proof {
            assert(dec_digits(n as nat) == dec_digits(n as nat / 10).push(
                (48 + n as nat % 10) as u8));
            assert(digits@.push(d).reverse() =~= seq![d] + digits@.reverse());
            assert(dec_digits(n as nat / 10) + (seq![d] + digits@.reverse())
                =~= (dec_digits(n as nat / 10) + seq![d]) + digits@.reverse());
            assert(dec_digits(n as nat / 10).push(d) =~= dec_digits(n as nat / 10) + seq![d]);
        }
        digits.push(d);
        n = n / 10;
    }
    let mut out: Vec<u8> = Vec::new();
    out.push(n as u8 + 48);
    proof {
        assert(dec_digits(n as nat) =~= seq![(48 + n as nat) as u8]);
        assert(out@ + digits@.reverse() =~= dec_digits(m as nat));
    }
    while digits.len() != 0
        invariant
            out@ + digits@.reverse() =~= dec_digits(m as nat),
        decreases digits.len(),
    {
        let ghost pre = digits@;
        let d = match digits.pop() {
            Some(d) => d,
            None => 0,
        };
        out.push(d);
        proof {
            assert(pre.reverse() =~= seq![d] + digits@.reverse());
        }
    }
    proof {
        assert(digits@.reverse() =~= Seq::<u8>::empty());
        assert(out@ =~= out@ + digits@.reverse());
    }
    out
}

/// Decimal text of `v` read as a two's-complement signed integer modulo
/// `m`, for the 8-, 16-, 24- and 32-bit packed forms.
pub fn small_signed_text(v: u64, m: u64) -> (r: Vec<u8>)
    requires
        v < m,
        m % 2 == 0,
        m <= 0x100000000,
    ensures
        r@ == dec_text(to_signed(v as nat, m as nat)),
{
    if v >= m / 2 {
        i64_to_vec(v as i64 - m as i64)
    } else {
        i64_to_vec(v as i64)
    }
}

/// Decimal text of `v` read as a signed 64-bit integer.
pub fn big_signed_text(v: u64) -> (r: Vec<u8>)
    ensures
        r@ == dec_text(to_signed(v as nat, 0x10000000000000000)),
{
    if v >= 0x8000000000000000 {
        let m = u64::MAX - v;
        i64_to_vec(-(m as i64) - 1)
    } else {
        i64_to_vec(v as i64)
    }
}

/// Reads exactly `len` bytes from the reader.
pub fn read_exact(reader: &mut ByteReader, len: usize) -> (r: RdbResult<Vec<u8>>)
    requires
        old(reader).wf(),
    ensures
        final(reader).wf(),
        final(reader).bytes() == old(reader).bytes(),
        r is Ok <==> old(reader).pos() + len <= old(reader).bytes().len(),
        r matches Ok(v) ==> v@ == old(reader).bytes().subrange(old(reader).pos(),
            old(reader).pos() + len) && final(reader).pos() == old(reader).pos() + len,
        r is Err ==> *final(reader) == *old(reader),
        r matches Err(e) ==> e is MalformedInput,
    {
    reader.read_bytes(len)
}

} // verus!
