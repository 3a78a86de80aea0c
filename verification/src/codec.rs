//! The prefix and blob decoders: the 2-bit-tagged length prefix that
//! gates every variable-width field, the magic and version checks, and
//! the string blob decoder with its packed-integer and LZF forms.

use vstd::prelude::*;
use crate::constants::{ENC_INT8, ENC_INT16, ENC_INT32, ENC_LZF, SUPPORTED_MINIMUM,
    SUPPORTED_MAXIMUM, LZF_MAX_EXPANSION};
use crate::foreign::lzf_decompress;
use crate::helper::small_signed_text;
use crate::model::{len_at, blob_at, magic_seq, version_ok, lemma_len_at_fits, le_val};
use crate::reader::ByteReader;
use crate::types::{RdbError, RdbResult};

verus! {

/// Decodes the length prefix at the current position: the value and
/// whether it marks a packed string encoding rather than a byte count.
pub fn read_length_with_encoding(input: &mut ByteReader) -> (r: RdbResult<(u64, bool)>)
    requires
        old(input).wf(),
    ensures
        final(input).wf(),
        final(input).bytes() == old(input).bytes(),
        r is Ok <==> len_at(old(input).bytes(), old(input).pos()) is Some,
        r matches Ok(v) ==> len_at(old(input).bytes(), old(input).pos())
            == Some((v.0 as nat, v.1, final(input).pos())),
        r matches Err(e) ==> e is MalformedInput,
    {
    proof {
        lemma_len_at_fits(old(input).bytes(), old(input).pos());
    }
    let b = input.read_u8()?;
    if b < 0x40 {
        Ok(((b as u64), false))
    } else if b < 0x80 {
        let c = input.read_u8()?;
        Ok((((b - 0x40) as u64) * 0x100 + c as u64, false))
    } else if b == 0x80 {
        let v = input.read_be_u32()?;
        Ok((v as u64, false))
    } else if b == 0x81 {
        let v = input.read_be_u64()?;
        Ok((v, false))
    } else if b < 0xC0 {
        Err(RdbError::MalformedInput(input.position()))
    } else {
        Ok((((b - 0xC0) as u64), true))
    }
}

/// Decodes a length prefix, discarding the is-encoded flag.
pub fn read_length(input: &mut ByteReader) -> (r: RdbResult<u64>)
    requires
        old(input).wf(),
    ensures
        final(input).wf(),
        final(input).bytes() == old(input).bytes(),
        r is Ok <==> len_at(old(input).bytes(), old(input).pos()) is Some,
        r matches Ok(l) ==> len_at(old(input).bytes(), old(input).pos())
            matches Some(t) && t.0 == l as nat && t.2 == final(input).pos(),
        r matches Err(e) ==> e is MalformedInput,
    {
    let (length, _) = read_length_with_encoding(input)?;
    Ok(length)
}

/// Reads the five magic bytes and reports whether they are the expected
/// identifier.
pub fn verify_magic(input: &mut ByteReader) -> (r: RdbResult<bool>)
    requires
        old(input).wf(),
    ensures
        final(input).wf(),
        final(input).bytes() == old(input).bytes(),
        r is Ok <==> old(input).pos() + 5 <= old(input).bytes().len(),
        r matches Ok(b) ==> final(input).pos() == old(input).pos() + 5
            && (b <==> old(input).bytes().subrange(old(input).pos(), old(input).pos() + 5)
                == magic_seq()),
        r matches Err(e) ==> e is MalformedInput,
    {
    let m = input.read_bytes(5)?;
    let ok = m[0] == 82 && m[1] == 69 && m[2] == 68 && m[3] == 73 && m[4] == 83;
    proof {
        let ms = magic_seq();
        assert(ms.len() == 5 && ms[0] == 82 && ms[1] == 69 && ms[2] == 68 && ms[3] == 73
            && ms[4] == 83);
        if ok {
            assert(m@ =~= ms);
        }
    }
    Ok(ok)
}

/// Reads the four ASCII version digits and reports whether they name a
/// supported version.
pub fn verify_version(input: &mut ByteReader) -> (r: RdbResult<bool>)
    requires
        old(input).wf(),
    ensures
        final(input).wf(),
        final(input).bytes() == old(input).bytes(),
        r is Ok <==> old(input).pos() + 4 <= old(input).bytes().len(),
        r matches Ok(b) ==> final(input).pos() == old(input).pos() + 4
            && (b <==> version_ok(old(input).bytes().subrange(old(input).pos(),
                old(input).pos() + 4))),
        r matches Err(e) ==> e is MalformedInput,
    {
    let m = input.read_bytes(4)?;
    let digits = m[0] >= 48 && m[0] <= 57 && m[1] >= 48 && m[1] <= 57
        && m[2] >= 48 && m[2] <= 57 && m[3] >= 48 && m[3] <= 57;
    if !digits {
        proof {
            assert(!version_ok(m@));
        }
        return Ok(false);
    }
    let version: u32 = (m[0] - 48) as u32 * 1000 + (m[1] - 48) as u32 * 100
        + (m[2] - 48) as u32 * 10 + (m[3] - 48) as u32;
    proof {
        assert(forall|k: int| 0 <= k < 4 ==> 48 <= #[trigger] m@[k] <= 57);
    }
    Ok(version >= SUPPORTED_MINIMUM && version <= SUPPORTED_MAXIMUM)
}

/// Reads one string blob: a raw byte run, a packed 8/16/32-bit integer
/// rendered as decimal text, or an LZF-compressed run that must
/// decompress to exactly its declared length.
pub fn read_blob(input: &mut ByteReader) -> (r: RdbResult<Vec<u8>>)
    requires
        old(input).wf(),
    ensures
        final(input).wf(),
        final(input).bytes() == old(input).bytes(),
        r is Ok <==> blob_at(old(input).bytes(), old(input).pos()) is Some,
        r matches Ok(v) ==> blob_at(old(input).bytes(), old(input).pos())
            == Some((v@, final(input).pos())),
        r matches Err(e) ==> e is MalformedInput,
    {
    let ghost s = old(input).bytes();
    let ghost i = old(input).pos();
    let (length, is_encoded) = read_length_with_encoding(input)?;
    if is_encoded {
        if length == ENC_INT8 {
            let b = input.read_u8()?;
            Ok(small_signed_text(b as u64, 0x100))
        } else if length == ENC_INT16 {
            let v = input.read_le_u16()?;
            Ok(small_signed_text(v as u64, 0x10000))
        } else if length == ENC_INT32 {
            let v = input.read_le_u32()?;
            Ok(small_signed_text(v as u64, 0x100000000))
        } else if length == ENC_LZF {
            let compressed_length = read_length(input)?;
            let real_length = read_length(input)?;
            let rem = input.remaining();
            if compressed_length > rem as u64 {
                return Err(RdbError::MalformedInput(input.position()));
            }
            let policy_ok = if compressed_length > u64::MAX / LZF_MAX_EXPANSION {
                proof {
                    assert(real_length as nat <= 264 * compressed_length as nat);
                }
                true
            } else {
                real_length <= LZF_MAX_EXPANSION * compressed_length
            };
            if !policy_ok || real_length > usize::MAX as u64 {
                return Err(RdbError::MalformedInput(input.position()));
            }
            let data = input.read_bytes(compressed_length as usize)?;
            let decompressed = lzf_decompress(data.as_slice(), real_length as usize)?;
            if decompressed.len() != real_length as usize {
                return Err(RdbError::MalformedInput(input.position()));
            }
            Ok(decompressed)
        } else {
            Err(RdbError::MalformedInput(input.position()))
        }
    } else {
        let rem = input.remaining();
        if length > rem as u64 {
            return Err(RdbError::MalformedInput(input.position()));
        }
        input.read_bytes(length as usize)
    }
}

/// Reads the three little-endian header fields of a ziplist: total
/// bytes, tail offset and entry count.
pub fn read_ziplist_metadata(input: &mut ByteReader) -> (r: RdbResult<(u32, u32, u16)>)
    requires
        old(input).wf(),
    ensures
        final(input).wf(),
        final(input).bytes() == old(input).bytes(),
        r is Ok <==> old(input).pos() + 10 <= old(input).bytes().len(),
        r matches Ok(v) ==> final(input).pos() == old(input).pos() + 10
            && v.0 as nat == le_val(old(input).bytes().subrange(old(input).pos(),
                old(input).pos() + 4))
            && v.1 as nat == le_val(old(input).bytes().subrange(old(input).pos() + 4,
                old(input).pos() + 8))
            && v.2 as nat == le_val(old(input).bytes().subrange(old(input).pos() + 8,
                old(input).pos() + 10)),
        r matches Err(e) ==> e is MalformedInput,
    {
    let zlbytes = input.read_le_u32()?;
    let zltail = input.read_le_u32()?;
    let zllen = input.read_le_u16()?;
    Ok((zlbytes, zltail, zllen))
}

} // verus!
