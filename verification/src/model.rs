//! The mathematical model of the snapshot format: what each prefix, blob,
//! packed encoding and key record denotes, as functions over the input
//! byte sequence.  The executable decoder is specified against these
//! definitions.

use vstd::prelude::*;
use crate::types::{EncodingType, EventV, ScoreV};
use crate::foreign::lzf_unpack;

verus! {

/// Little-endian value of a byte sequence.
pub open spec fn le_val(s: Seq<u8>) -> nat
    decreases s.len(),
{
    if s.len() == 0 {
        0
    } else {
        (s[0] + 256 * le_val(s.skip(1))) as nat
    }
}

/// Big-endian value of a byte sequence.
pub open spec fn be_val(s: Seq<u8>) -> nat
    decreases s.len(),
{
    if s.len() == 0 {
        0
    } else {
        (be_val(s.drop_last()) * 256 + s.last()) as nat
    }
}

/// Two's-complement reading of `v` modulo `m` (`m` a power of two).
pub open spec fn to_signed(v: nat, m: nat) -> int {
    if 2 * v >= m {
        v - m
    } else {
        v as int
    }
}

/// The decimal digits of a natural number, most significant first.
pub open spec fn dec_digits(n: nat) -> Seq<u8>
    decreases n,
{
    if n < 10 {
        seq![(48 + n) as u8]
    } else {
        dec_digits(n / 10).push((48 + n % 10) as u8)
    }
}

/// The ASCII decimal text of an integer, with a leading minus sign when
/// negative.
pub open spec fn dec_text(v: int) -> Seq<u8> {
    if v < 0 {
        seq![45u8] + dec_digits((-v) as nat)
    } else {
        dec_digits(v as nat)
    }
}

/// The five magic bytes every snapshot starts with: ASCII "REDIS".
pub open spec fn magic_seq() -> Seq<u8> {
    seq![82u8, 69u8, 68u8, 73u8, 83u8]
}

/// The version number encoded by the four ASCII digit bytes after the
/// magic.
pub open spec fn version_value(s: Seq<u8>) -> int {
    (s[0] - 48) * 1000 + (s[1] - 48) * 100 + (s[2] - 48) * 10 + (s[3] - 48)
}

/// Whether four version bytes are decimal digits naming a supported
/// version.
pub open spec fn version_ok(s: Seq<u8>) -> bool {
    &&& s.len() == 4
    &&& forall|k: int| 0 <= k < 4 ==> 48 <= #[trigger] s[k] <= 57
    &&& crate::constants::SUPPORTED_MINIMUM <= version_value(s)
    &&& version_value(s) <= crate::constants::SUPPORTED_MAXIMUM
}

/// The length prefix at position `i`: `(value, is-encoded, end)`, or
/// `None` where the input ends early or the tag byte is not defined.
pub open spec fn len_at(s: Seq<u8>, i: int) -> Option<(nat, bool, int)> {
    if 0 <= i < s.len() {
        let b = s[i];
        if b < 0x40 {
            Some((b as nat, false, i + 1))
        } else if b < 0x80 {
            if i + 2 <= s.len() {
                Some((((b - 0x40) * 256 + s[i + 1]) as nat, false, i + 2))
            } else {
                None
            }
        } else if b == 0x80 {
            if i + 5 <= s.len() {
                Some((be_val(s.subrange(i + 1, i + 5)), false, i + 5))
            } else {
                None
            }
        } else if b == 0x81 {
            if i + 9 <= s.len() {
                Some((be_val(s.subrange(i + 1, i + 9)), false, i + 9))
            } else {
                None
            }
        } else if b < 0xC0 {
            None
        } else {
            Some(((b - 0xC0) as nat, true, i + 1))
        }
    } else {
        None
    }
}

/// The string blob at position `i`: its decoded bytes and end position.
/// Raw blobs are copied, packed integers become their decimal text, and
/// LZF blobs decompress; a declared decompressed length beyond
/// [`crate::constants::LZF_MAX_EXPANSION`] times the compressed length is
/// rejected.
pub open spec fn blob_at(s: Seq<u8>, i: int) -> Option<(Seq<u8>, int)> {
    match len_at(s, i) {
        None => None,
        Some((l, enc, j)) => {
            if !enc {
                if j + l <= s.len() {
                    Some((s.subrange(j, j + l), j + l))
                } else {
                    None
                }
            } else if l == 0 {
                if j + 1 <= s.len() {
                    Some((dec_text(to_signed(s[j] as nat, 0x100)), j + 1))
                } else {
                    None
                }
            } else if l == 1 {
                if j + 2 <= s.len() {
                    Some((dec_text(to_signed(le_val(s.subrange(j, j + 2)), 0x10000)), j + 2))
                } else {
                    None
                }
            } else if l == 2 {
                if j + 4 <= s.len() {
                    Some((dec_text(to_signed(le_val(s.subrange(j, j + 4)), 0x100000000)), j + 4))
                } else {
                    None
                }
            } else if l == 3 {
                match len_at(s, j) {
                    None => None,
                    Some((clen, _, j2)) => match len_at(s, j2) {
                        None => None,
                        Some((ulen, _, j3)) => {
                            if j3 + clen <= s.len() && ulen <= 264 * clen
                                && ulen <= usize::MAX {
                                match lzf_unpack(s.subrange(j3, j3 + clen), ulen) {
                                    Some(d) => if d.len() == ulen {
                                        Some((d, j3 + clen))
                                    } else {
                                        None
                                    },
                                    None => None,
                                }
                            } else {
                                None
                            }
                        },
                    },
                }
            } else {
                None
            }
        },
    }
}

/// Where skipping the blob at `i` ends.  Skipping never decompresses, so
/// it succeeds wherever decoding does, and at the same end position.
pub open spec fn blob_end(s: Seq<u8>, i: int) -> Option<int> {
    match len_at(s, i) {
        None => None,
        Some((l, enc, j)) => {
            if !enc {
                if j + l <= s.len() {
                    Some(j + l)
                } else {
                    None
                }
            } else if l == 0 {
                if j + 1 <= s.len() {
                    Some(j + 1)
                } else {
                    None
                }
            } else if l == 1 {
                if j + 2 <= s.len() {
                    Some(j + 2)
                } else {
                    None
                }
            } else if l == 2 {
                if j + 4 <= s.len() {
                    Some(j + 4)
                } else {
                    None
                }
            } else if l == 3 {
                match len_at(s, j) {
                    None => None,
                    Some((clen, _, j2)) => match len_at(s, j2) {
                        None => None,
                        Some((_, _, j3)) => {
                            if j3 + clen <= s.len() {
                                Some(j3 + clen)
                            } else {
                                None
                            }
                        },
                    },
                }
            } else {
                None
            }
        },
    }
}

/// `n` consecutive blobs starting at `i`: their values and the end.
pub open spec fn blobs_at(s: Seq<u8>, i: int, n: nat) -> Option<(Seq<Seq<u8>>, int)>
    decreases n,
{
    if n == 0 {
        Some((seq![], i))
    } else {
        match blob_at(s, i) {
            None => None,
            Some((v, j)) => match blobs_at(s, j, (n - 1) as nat) {
                None => None,
                Some((vs, e)) => Some((seq![v] + vs, e)),
            },
        }
    }
}

/// Where skipping `n` consecutive blobs starting at `i` ends.
pub open spec fn blobs_end(s: Seq<u8>, i: int, n: nat) -> Option<int>
    decreases n,
{
    if n == 0 {
        Some(i)
    } else {
        match blob_end(s, i) {
            None => None,
            Some(j) => blobs_end(s, j, (n - 1) as nat),
        }
    }
}

/// The sorted-set score record at `i`: one length byte that is either a
/// sentinel (253 not-a-number, 254 plus infinity, 255 minus infinity) or
/// the length of ASCII decimal text.
pub open spec fn score_at(s: Seq<u8>, i: int) -> Option<(ScoreV, int)> {
    if 0 <= i < s.len() {
        let b = s[i];
        if b == 253 {
            Some((ScoreV::NotANumber, i + 1))
        } else if b == 254 {
            Some((ScoreV::PosInf, i + 1))
        } else if b == 255 {
            Some((ScoreV::NegInf, i + 1))
        } else {
            if i + 1 + b <= s.len() {
                Some((ScoreV::Text(s.subrange(i + 1, i + 1 + b)), i + 1 + b))
            } else {
                None
            }
        }
    } else {
        None
    }
}

/// Classification of raw IEEE-754 bits: the infinities and NaN become
/// their sentinels, finite values stay as bits.
pub open spec fn score_of_bits(bits: u64) -> ScoreV {
    let expo = (bits / 0x10000000000000) % 0x800;
    let frac = bits % 0x10000000000000;
    if expo == 0x7FF {
        if frac == 0 {
            if bits / 0x8000000000000000 == 0 {
                ScoreV::PosInf
            } else {
                ScoreV::NegInf
            }
        } else {
            ScoreV::NotANumber
        }
    } else {
        ScoreV::Packed(bits)
    }
}

/// `n` sorted-set items (member blob, text-or-sentinel score) at `i`.
pub open spec fn zset_items_at(s: Seq<u8>, i: int, n: nat) -> Option<(Seq<(Seq<u8>, ScoreV)>, int)>
    decreases n,
{
    if n == 0 {
        Some((seq![], i))
    } else {
        match blob_at(s, i) {
            None => None,
            Some((m, j)) => match score_at(s, j) {
                None => None,
                Some((sc, j2)) => match zset_items_at(s, j2, (n - 1) as nat) {
                    None => None,
                    Some((items, e)) => Some((seq![(m, sc)] + items, e)),
                },
            },
        }
    }
}

/// `n` sorted-set items (member blob, 8-byte little-endian IEEE-754
/// score) at `i`.
pub open spec fn zset2_items_at(s: Seq<u8>, i: int, n: nat) -> Option<(Seq<(Seq<u8>, ScoreV)>, int)>
    decreases n,
{
    if n == 0 {
        Some((seq![], i))
    } else {
        match blob_at(s, i) {
            None => None,
            Some((m, j)) => {
                if j + 8 <= s.len() {
                    let sc = score_of_bits(le_val(s.subrange(j, j + 8)) as u64);
                    match zset2_items_at(s, j + 8, (n - 1) as nat) {
                        None => None,
                        Some((items, e)) => Some((seq![(m, sc)] + items, e)),
                    }
                } else {
                    None
                }
            },
        }
    }
}

/// One ziplist entry at `i` inside a ziplist blob: the emitted bytes
/// (strings verbatim, inline integers as decimal text) and the end.
pub open spec fn zl_entry_at(s: Seq<u8>, i: int) -> Option<(Seq<u8>, int)> {
    if 0 <= i < s.len() {
        let j = if s[i] == 254 { i + 5 } else { i + 1 };
        if 0 <= j < s.len() {
            let f = s[j];
            if f < 0x40 {
                if j + 1 + f <= s.len() {
                    Some((s.subrange(j + 1, j + 1 + f), j + 1 + f))
                } else {
                    None
                }
            } else if f < 0x80 {
                if j + 2 <= s.len() {
                    let l = (f - 0x40) * 256 + s[j + 1];
                    if j + 2 + l <= s.len() {
                        Some((s.subrange(j + 2, j + 2 + l), j + 2 + l))
                    } else {
                        None
                    }
                } else {
                    None
                }
            } else if f < 0xC0 {
                if j + 5 <= s.len() {
                    let l = be_val(s.subrange(j + 1, j + 5));
                    if j + 5 + l <= s.len() {
                        Some((s.subrange(j + 5, j + 5 + l), j + 5 + l))
                    } else {
                        None
                    }
                } else {
                    None
                }
            } else if f < 0xD0 {
                if j + 3 <= s.len() {
                    Some((dec_text(to_signed(le_val(s.subrange(j + 1, j + 3)), 0x10000)), j + 3))
                } else {
                    None
                }
            } else if f < 0xE0 {
                if j + 5 <= s.len() {
                    Some((dec_text(to_signed(le_val(s.subrange(j + 1, j + 5)), 0x100000000)), j + 5))
                } else {
                    None
                }
            } else if f < 0xF0 {
                if j + 9 <= s.len() {
                    Some((dec_text(to_signed(le_val(s.subrange(j + 1, j + 9)),
                        0x10000000000000000)), j + 9))
                } else {
                    None
                }
            } else if f == 0xF0 {
                if j + 4 <= s.len() {
                    let v = (s[j + 1] * 0x10000 + s[j + 2] * 0x100 + s[j + 3]) as nat;
                    Some((dec_text(to_signed(v, 0x1000000)), j + 4))
                } else {
                    None
                }
            } else if f == 0xFE {
                if j + 2 <= s.len() {
                    Some((dec_text(to_signed(s[j + 1] as nat, 0x100)), j + 2))
                } else {
                    None
                }
            } else if f == 0xFF {
                None
            } else {
                Some((dec_text((f - 0xF1) as int), j + 1))
            }
        } else {
            None
        }
    } else {
        None
    }
}

/// `n` consecutive ziplist entries starting at `i`.
pub open spec fn zl_entries_at(s: Seq<u8>, i: int, n: nat) -> Option<(Seq<Seq<u8>>, int)>
    decreases n,
{
    if n == 0 {
        Some((seq![], i))
    } else {
        match zl_entry_at(s, i) {
            None => None,
            Some((v, j)) => match zl_entries_at(s, j, (n - 1) as nat) {
                None => None,
                Some((vs, e)) => Some((seq![v] + vs, e)),
            },
        }
    }
}

/// The entries of a whole ziplist blob: an 11-byte header whose last two
/// bytes give the entry count little-endian, the entries, then the 0xFF
/// terminator.
pub open spec fn zl_items(b: Seq<u8>) -> Option<Seq<Seq<u8>>> {
    if b.len() >= 11 {
        let n = le_val(b.subrange(8, 10));
        match zl_entries_at(b, 10, n) {
            None => None,
            Some((items, e)) => {
                if e < b.len() && b[e] == 255 {
                    Some(items)
                } else {
                    None
                }
            },
        }
    } else {
        None
    }
}

/// The modulus for a signed intset element of byte width `w`.
pub open spec fn width_modulus(w: nat) -> nat {
    if w == 2 {
        0x10000
    } else if w == 4 {
        0x100000000
    } else {
        0x10000000000000000
    }
}

/// `n` packed signed integers of width `w` at `i`, as decimal texts.
pub open spec fn int_texts_at(s: Seq<u8>, i: int, w: nat, n: nat) -> Option<(Seq<Seq<u8>>, int)>
    decreases n,
{
    if n == 0 {
        Some((seq![], i))
    } else if i + w <= s.len() && 0 <= i {
        let t = dec_text(to_signed(le_val(s.subrange(i, i + w)), width_modulus(w)));
        match int_texts_at(s, i + w, w, (n - 1) as nat) {
            None => None,
            Some((ts, e)) => Some((seq![t] + ts, e)),
        }
    } else {
        None
    }
}

/// The elements of an intset blob: width (2, 4 or 8) and count as
/// little-endian u32, then the packed elements, as decimal texts.
pub open spec fn intset_items(b: Seq<u8>) -> Option<Seq<Seq<u8>>> {
    if b.len() >= 8 {
        let w = le_val(b.subrange(0, 4));
        let n = le_val(b.subrange(4, 8));
        if w == 2 || w == 4 || w == 8 {
            match int_texts_at(b, 8, w, n) {
                None => None,
                Some((items, _)) => Some(items),
            }
        } else {
            None
        }
    } else {
        None
    }
}

/// Closed form of [`le_val`] for two bytes.
pub proof fn lemma_le_val2(s: Seq<u8>)
    requires
        s.len() == 2,
    ensures
        le_val(s) == s[0] + s[1] * 0x100,
        le_val(s) < 0x10000,
{
    let s1 = s.skip(1);
    let s2 = s1.skip(1);
    assert(s1[0] == s[1]);
    assert(s2.len() == 0);
    assert(le_val(s2) == 0);
    assert(le_val(s1) == s1[0] + 256 * le_val(s2));
    assert(le_val(s) == s[0] + 256 * le_val(s1));
}

/// Closed form of [`le_val`] for four bytes.
pub proof fn lemma_le_val4(s: Seq<u8>)
    requires
        s.len() == 4,
    ensures
        le_val(s) == s[0] + s[1] * 0x100 + s[2] * 0x10000 + s[3] * 0x1000000,
        le_val(s) < 0x100000000,
{
    let s1 = s.skip(1);
    let s2 = s1.skip(1);
    assert(s1[0] == s[1]);
    assert(s2[0] == s[2]);
    assert(s2.skip(1)[0] == s[3]);
    lemma_le_val2(s2);
    assert(le_val(s1) == s1[0] + 256 * le_val(s2));
    assert(le_val(s) == s[0] + 256 * le_val(s1));
}

/// Closed form of [`le_val`] for eight bytes.
pub proof fn lemma_le_val8(s: Seq<u8>)
    requires
        s.len() == 8,
    ensures
        le_val(s) == s[0] + s[1] * 0x100 + s[2] * 0x10000 + s[3] * 0x1000000
            + s[4] * 0x100000000 + s[5] * 0x10000000000 + s[6] * 0x1000000000000
            + s[7] * 0x100000000000000,
        le_val(s) < 0x10000000000000000,
{
    let s1 = s.skip(1);
    let s2 = s1.skip(1);
    let s3 = s2.skip(1);
    let s4 = s3.skip(1);
    assert(s1[0] == s[1]);
    assert(s2[0] == s[2]);
    assert(s3[0] == s[3]);
    assert(s4[0] == s[4]);
    assert(s4[1] == s[5]);
    assert(s4[2] == s[6]);
    assert(s4[3] == s[7]);
    lemma_le_val4(s4);
    assert(le_val(s3) == s3[0] + 256 * le_val(s4));
    assert(le_val(s2) == s2[0] + 256 * le_val(s3));
    assert(le_val(s1) == s1[0] + 256 * le_val(s2));
    assert(le_val(s) == s[0] + 256 * le_val(s1));
}

/// Closed form of [`be_val`] for four bytes.
pub proof fn lemma_be_val4(s: Seq<u8>)
    requires
        s.len() == 4,
    ensures
        be_val(s) == s[3] + s[2] * 0x100 + s[1] * 0x10000 + s[0] * 0x1000000,
        be_val(s) < 0x100000000,
{
    let t3 = s.drop_last();
    let t2 = t3.drop_last();
    let t1 = t2.drop_last();
    let t0 = t1.drop_last();
    assert(t3.last() == s[2]);
    assert(t2.last() == s[1]);
    assert(t1.last() == s[0]);
    assert(t0.len() == 0);
    assert(be_val(t0) == 0);
    assert(be_val(t1) == be_val(t0) * 256 + t1.last());
    assert(be_val(t2) == be_val(t1) * 256 + t2.last());
    assert(be_val(t3) == be_val(t2) * 256 + t3.last());
    assert(be_val(s) == be_val(t3) * 256 + s.last());
}

/// Closed form of [`be_val`] for eight bytes.
pub proof fn lemma_be_val8(s: Seq<u8>)
    requires
        s.len() == 8,
    ensures
        be_val(s) == s[7] + s[6] * 0x100 + s[5] * 0x10000 + s[4] * 0x1000000
            + s[3] * 0x100000000 + s[2] * 0x10000000000 + s[1] * 0x1000000000000
            + s[0] * 0x100000000000000,
        be_val(s) < 0x10000000000000000,
{
    let t7 = s.drop_last();
    let t6 = t7.drop_last();
    let t5 = t6.drop_last();
    let t4 = t5.drop_last();
    assert(t7.last() == s[6]);
    assert(t6.last() == s[5]);
    assert(t5.last() == s[4]);
    assert(t4 =~= s.subrange(0, 4));
    lemma_be_val4(t4);
    assert(be_val(t5) == be_val(t4) * 256 + t5.last());
    assert(be_val(t6) == be_val(t5) * 256 + t6.last());
    assert(be_val(t7) == be_val(t6) * 256 + t7.last());
    assert(be_val(s) == be_val(t7) * 256 + s.last());
}

/// Every length prefix value fits in 64 bits.
pub proof fn lemma_len_at_fits(s: Seq<u8>, i: int)
    ensures
        len_at(s, i) matches Some(t) ==> t.0 < 0x10000000000000000,
{
    if len_at(s, i) is Some && 0 <= i < s.len() {
        let b = s[i];
        if b == 0x80 && i + 5 <= s.len() {
            lemma_be_val4(s.subrange(i + 1, i + 5));
        } else if b == 0x81 && i + 9 <= s.len() {
            lemma_be_val8(s.subrange(i + 1, i + 9));
        }
    }
}

/// A zipmap string at `i`: a length byte below 253 is the length itself,
/// 253 means the next four bytes little-endian are, 254 and 255 are
/// invalid.
pub open spec fn zm_str_at(s: Seq<u8>, i: int) -> Option<(Seq<u8>, int)> {
    if 0 <= i < s.len() {
        let b = s[i];
        if b == 254 || b == 255 {
            None
        } else if b == 253 {
            if i + 5 <= s.len() {
                let l = le_val(s.subrange(i + 1, i + 5));
                if i + 5 + l <= s.len() {
                    Some((s.subrange(i + 5, i + 5 + l), i + 5 + l))
                } else {
                    None
                }
            } else {
                None
            }
        } else {
            if i + 1 + b <= s.len() {
                Some((s.subrange(i + 1, i + 1 + b), i + 1 + b))
            } else {
                None
            }
        }
    } else {
        None
    }
}

/// A zipmap value at `j`: a length (with the same rules as the key), one
/// discarded free byte, then the value bytes.
pub open spec fn zm_val_at(s: Seq<u8>, j: int) -> Option<(Seq<u8>, int)> {
    if 0 <= j < s.len() {
        let b = s[j];
        if b == 254 || b == 255 {
            None
        } else if b == 253 {
            if j + 6 <= s.len() {
                let l = le_val(s.subrange(j + 1, j + 5));
                if j + 6 + l <= s.len() {
                    Some((s.subrange(j + 6, j + 6 + l), j + 6 + l))
                } else {
                    None
                }
            } else {
                None
            }
        } else {
            if j + 2 + b <= s.len() {
                Some((s.subrange(j + 2, j + 2 + b), j + 2 + b))
            } else {
                None
            }
        }
    } else {
        None
    }
}

/// A zipmap pair at `i`: key string, then value record.
pub open spec fn zm_pair_at(s: Seq<u8>, i: int) -> Option<((Seq<u8>, Seq<u8>), int)> {
    match zm_str_at(s, i) {
        None => None,
        Some((k, j)) => match zm_val_at(s, j) {
            None => None,
            Some((v, e)) => Some(((k, v), e)),
        },
    }
}

/// Zipmap pairs read until the 0xFF terminator.
pub open spec fn zm_scan(s: Seq<u8>, i: int) -> Option<(Seq<(Seq<u8>, Seq<u8>)>, int)>
    decreases s.len() - i,
{
    if 0 <= i < s.len() {
        if s[i] == 255 {
            Some((seq![], i + 1))
        } else {
            match zm_pair_at(s, i) {
                None => None,
                Some((kv, j)) => {
                    if i < j <= s.len() {
                        match zm_scan(s, j) {
                            None => None,
                            Some((kvs, e)) => Some((seq![kv] + kvs, e)),
                        }
                    } else {
                        None
                    }
                },
            }
        }
    } else {
        None
    }
}

/// Exactly `n` zipmap pairs followed by the 0xFF terminator.
pub open spec fn zm_counted(s: Seq<u8>, i: int, n: nat) -> Option<(Seq<(Seq<u8>, Seq<u8>)>, int)>
    decreases n,
{
    if n == 0 {
        if 0 <= i < s.len() && s[i] == 255 {
            Some((seq![], i + 1))
        } else {
            None
        }
    } else {
        match zm_pair_at(s, i) {
            None => None,
            Some((kv, j)) => match zm_counted(s, j, (n - 1) as nat) {
                None => None,
                Some((kvs, e)) => Some((seq![kv] + kvs, e)),
            },
        }
    }
}

/// The pairs of a whole zipmap blob: a count hint byte (exact when at
/// most 254, otherwise scan to the terminator), then the pairs.
pub open spec fn zipmap_items(b: Seq<u8>) -> Option<Seq<(Seq<u8>, Seq<u8>)>> {
    if b.len() >= 1 {
        if b[0] <= 254 {
            match zm_counted(b, 1, b[0] as nat) {
                None => None,
                Some((kvs, _)) => Some(kvs),
            }
        } else {
            match zm_scan(b, 1) {
                None => None,
                Some((kvs, _)) => Some(kvs),
            }
        }
    } else {
        None
    }
}

/// The ziplist contents of `n` quicklist children starting at `i`: each
/// child is one blob holding a whole ziplist; the entries concatenate.
pub open spec fn ql_items(s: Seq<u8>, i: int, n: nat) -> Option<(Seq<Seq<u8>>, int)>
    decreases n,
{
    if n == 0 {
        Some((seq![], i))
    } else {
        match blob_at(s, i) {
            None => None,
            Some((b, j)) => match zl_items(b) {
                None => None,
                Some(items) => match ql_items(s, j, (n - 1) as nat) {
                    None => None,
                    Some((rest, e)) => Some((items + rest, e)),
                },
            },
        }
    }
}

/// The physical-encoding hint reported with the start event of each
/// collection encoding.
pub open spec fn encoding_hint(t: u8) -> EncodingType {
    if t == crate::constants::TYPE_LIST {
        EncodingType::LinkedList
    } else if t == crate::constants::TYPE_SET {
        EncodingType::Hashtable
    } else if t == crate::constants::TYPE_ZSET || t == crate::constants::TYPE_ZSET_2 {
        EncodingType::Skiplist
    } else if t == crate::constants::TYPE_HASH {
        EncodingType::Hashtable
    } else if t == crate::constants::TYPE_HASH_ZIPMAP {
        EncodingType::Zipmap
    } else if t == crate::constants::TYPE_SET_INTSET {
        EncodingType::Intset
    } else if t == crate::constants::TYPE_LIST_QUICKLIST {
        EncodingType::Quicklist
    } else {
        EncodingType::Ziplist
    }
}

/// The emitter events of one key record of encoding type `t` starting at
/// `i`, together with the position one past the record.  `None` where the
/// record is malformed or the type byte is not a supported encoding.
pub open spec fn record_events(s: Seq<u8>, i: int, t: u8, key: Seq<u8>, exp: Option<u64>)
    -> Option<(Seq<EventV>, int)> {
    if t == crate::constants::TYPE_STRING {
        match blob_at(s, i) {
            None => None,
            Some((v, e)) => Some((seq![EventV::SetString(key, v, exp)], e)),
        }
    } else if t == crate::constants::TYPE_LIST || t == crate::constants::TYPE_SET {
        match len_at(s, i) {
            None => None,
            Some((n, _, j)) => match blobs_at(s, j, n) {
                None => None,
                Some((vs, e)) => {
                    if t == crate::constants::TYPE_LIST {
                        Some((seq![EventV::StartList(key, n as u64, exp, encoding_hint(t))]
                            + vs.map_values(|v: Seq<u8>| EventV::ListElement(key, v))
                            + seq![EventV::EndList(key)], e))
                    } else {
                        Some((seq![EventV::StartSet(key, n as u64, exp, encoding_hint(t))]
                            + vs.map_values(|v: Seq<u8>| EventV::SetElement(key, v))
                            + seq![EventV::EndSet(key)], e))
                    }
                },
            },
        }
    } else if t == crate::constants::TYPE_ZSET || t == crate::constants::TYPE_ZSET_2 {
        match len_at(s, i) {
            None => None,
            Some((n, _, j)) => {
                let parsed = if t == crate::constants::TYPE_ZSET {
                    zset_items_at(s, j, n)
                } else {
                    zset2_items_at(s, j, n)
                };
                match parsed {
                    None => None,
                    Some((items, e)) => Some((
                        seq![EventV::StartSortedSet(key, n as u64, exp, encoding_hint(t))]
                        + items.map_values(|it: (Seq<u8>, ScoreV)|
                            EventV::SortedSetElement(key, it.1, it.0))
                        + seq![EventV::EndSortedSet(key)], e)),
                }
            },
        }
    } else if t == crate::constants::TYPE_HASH {
        match len_at(s, i) {
            None => None,
            Some((n, _, j)) => match blobs_at(s, j, (n * 2) as nat) {
                None => None,
                Some((vs, e)) => Some((
                    seq![EventV::StartHash(key, n as u64, exp, encoding_hint(t))]
                    + Seq::new(n, |k: int| EventV::HashElement(key, vs[2 * k], vs[2 * k + 1]))
                    + seq![EventV::EndHash(key)], e)),
            },
        }
    } else if t == crate::constants::TYPE_HASH_ZIPMAP {
        match blob_at(s, i) {
            None => None,
            Some((b, e)) => match zipmap_items(b) {
                None => None,
                Some(kvs) => Some((
                    seq![EventV::StartHash(key, kvs.len() as u64, exp, encoding_hint(t))]
                    + kvs.map_values(|kv: (Seq<u8>, Seq<u8>)|
                        EventV::HashElement(key, kv.0, kv.1))
                    + seq![EventV::EndHash(key)], e)),
            },
        }
    } else if t == crate::constants::TYPE_LIST_ZIPLIST {
        match blob_at(s, i) {
            None => None,
            Some((b, e)) => match zl_items(b) {
                None => None,
                Some(items) => Some((
                    seq![EventV::StartList(key, items.len() as u64, exp, encoding_hint(t))]
                    + items.map_values(|v: Seq<u8>| EventV::ListElement(key, v))
                    + seq![EventV::EndList(key)], e)),
            },
        }
    } else if t == crate::constants::TYPE_SET_INTSET {
        match blob_at(s, i) {
            None => None,
            Some((b, e)) => match intset_items(b) {
                None => None,
                Some(items) => Some((
                    seq![EventV::StartSet(key, items.len() as u64, exp, encoding_hint(t))]
                    + items.map_values(|v: Seq<u8>| EventV::SetElement(key, v))
                    + seq![EventV::EndSet(key)], e)),
            },
        }
    } else if t == crate::constants::TYPE_ZSET_ZIPLIST {
        match blob_at(s, i) {
            None => None,
            Some((b, e)) => match zl_items(b) {
                None => None,
                Some(items) => {
                    if items.len() % 2 == 0 {
                        Some((
                            seq![EventV::StartSortedSet(key, (items.len() / 2) as u64, exp,
                                encoding_hint(t))]
                            + Seq::new(items.len() / 2, |k: int| EventV::SortedSetElement(key,
                                ScoreV::Text(items[2 * k + 1]), items[2 * k]))
                            + seq![EventV::EndSortedSet(key)], e))
                    } else {
                        None
                    }
                },
            },
        }
    } else if t == crate::constants::TYPE_HASH_ZIPLIST {
        match blob_at(s, i) {
            None => None,
            Some((b, e)) => match zl_items(b) {
                None => None,
                Some(items) => {
                    if items.len() % 2 == 0 {
                        Some((
                            seq![EventV::StartHash(key, (items.len() / 2) as u64, exp,
                                encoding_hint(t))]
                            + Seq::new(items.len() / 2, |k: int| EventV::HashElement(key,
                                items[2 * k], items[2 * k + 1]))
                            + seq![EventV::EndHash(key)], e))
                    } else {
                        None
                    }
                },
            },
        }
    } else if t == crate::constants::TYPE_LIST_QUICKLIST {
        match len_at(s, i) {
            None => None,
            Some((n, _, j)) => match ql_items(s, j, n) {
                None => None,
                Some((items, e)) => Some((
                    seq![EventV::StartList(key, 0, exp, encoding_hint(t))]
                    + items.map_values(|v: Seq<u8>| EventV::ListElement(key, v))
                    + seq![EventV::EndList(key)], e)),
            },
        }
    } else {
        None
    }
}

/// Where the score record at `i` ends, decoded or skipped alike.
pub open spec fn score_end(s: Seq<u8>, i: int) -> Option<int> {
    match score_at(s, i) {
        None => None,
        Some((_, e)) => Some(e),
    }
}

/// Where skipping `n` sorted-set items (member blob plus text score)
/// starting at `i` ends.
pub open spec fn zset_ends(s: Seq<u8>, i: int, n: nat) -> Option<int>
    decreases n,
{
    if n == 0 {
        Some(i)
    } else {
        match blob_end(s, i) {
            None => None,
            Some(j) => match score_end(s, j) {
                None => None,
                Some(j2) => zset_ends(s, j2, (n - 1) as nat),
            },
        }
    }
}

/// Where skipping `n` sorted-set items (member blob plus 8 raw score
/// bytes) starting at `i` ends.
pub open spec fn zset2_ends(s: Seq<u8>, i: int, n: nat) -> Option<int>
    decreases n,
{
    if n == 0 {
        Some(i)
    } else {
        match blob_end(s, i) {
            None => None,
            Some(j) => {
                if j + 8 <= s.len() {
                    zset2_ends(s, j + 8, (n - 1) as nat)
                } else {
                    None
                }
            },
        }
    }
}

/// Where skipping the whole key record of type `t` at `i` ends.  Skipping
/// consumes exactly the bytes that decoding would, but without looking
/// inside blobs, so it succeeds wherever decoding does.
pub open spec fn object_end(s: Seq<u8>, i: int, t: u8) -> Option<int> {
    if t == crate::constants::TYPE_STRING || t == crate::constants::TYPE_HASH_ZIPMAP
        || t == crate::constants::TYPE_LIST_ZIPLIST || t == crate::constants::TYPE_SET_INTSET
        || t == crate::constants::TYPE_ZSET_ZIPLIST || t == crate::constants::TYPE_HASH_ZIPLIST {
        blob_end(s, i)
    } else if t == crate::constants::TYPE_LIST || t == crate::constants::TYPE_SET
        || t == crate::constants::TYPE_LIST_QUICKLIST {
        match len_at(s, i) {
            None => None,
            Some((n, _, j)) => blobs_end(s, j, n),
        }
    } else if t == crate::constants::TYPE_HASH {
        match len_at(s, i) {
            None => None,
            Some((n, _, j)) => blobs_end(s, j, (n * 2) as nat),
        }
    } else if t == crate::constants::TYPE_ZSET {
        match len_at(s, i) {
            None => None,
            Some((n, _, j)) => zset_ends(s, j, n),
        }
    } else if t == crate::constants::TYPE_ZSET_2 {
        match len_at(s, i) {
            None => None,
            Some((n, _, j)) => zset2_ends(s, j, n),
        }
    } else {
        None
    }
}

/// A decoded record ends at or after its first byte.
pub proof fn lemma_blob_at_ge(s: Seq<u8>, i: int)
    ensures
        blob_at(s, i) matches Some(p) ==> p.1 > i,
{
}

/// A skipped blob ends after its first byte.
pub proof fn lemma_blob_end_ge(s: Seq<u8>, i: int)
    ensures
        blob_end(s, i) matches Some(e) ==> e > i,
{
}

pub proof fn lemma_blobs_at_ge(s: Seq<u8>, i: int, n: nat)
    ensures
        blobs_at(s, i, n) matches Some(p) ==> p.1 >= i,
    decreases n,
{
    if n > 0 {
        match blob_at(s, i) {
            Some((_, j)) => {
                lemma_blob_at_ge(s, i);
                lemma_blobs_at_ge(s, j, (n - 1) as nat);
            },
            None => {},
        }
    }
}

pub proof fn lemma_blobs_end_ge(s: Seq<u8>, i: int, n: nat)
    ensures
        blobs_end(s, i, n) matches Some(e) ==> e >= i,
    decreases n,
{
    if n > 0 {
        match blob_end(s, i) {
            Some(j) => {
                lemma_blob_end_ge(s, i);
                lemma_blobs_end_ge(s, j, (n - 1) as nat);
            },
            None => {},
        }
    }
}

pub proof fn lemma_zset_items_ge(s: Seq<u8>, i: int, n: nat)
    ensures
        zset_items_at(s, i, n) matches Some(p) ==> p.1 >= i,
    decreases n,
{
    if n > 0 {
        match blob_at(s, i) {
            Some((_, j)) => {
                lemma_blob_at_ge(s, i);
                match score_at(s, j) {
                    Some((_, j2)) => {
                        lemma_zset_items_ge(s, j2, (n - 1) as nat);
                    },
                    None => {},
                }
            },
            None => {},
        }
    }
}

pub proof fn lemma_zset2_items_ge(s: Seq<u8>, i: int, n: nat)
    ensures
        zset2_items_at(s, i, n) matches Some(p) ==> p.1 >= i,
    decreases n,
{
    if n > 0 {
        match blob_at(s, i) {
            Some((_, j)) => {
                lemma_blob_at_ge(s, i);
                if j + 8 <= s.len() {
                    lemma_zset2_items_ge(s, j + 8, (n - 1) as nat);
                }
            },
            None => {},
        }
    }
}

pub proof fn lemma_zset_ends_ge(s: Seq<u8>, i: int, n: nat)
    ensures
        zset_ends(s, i, n) matches Some(e) ==> e >= i,
    decreases n,
{
    if n > 0 {
        match blob_end(s, i) {
            Some(j) => {
                lemma_blob_end_ge(s, i);
                match score_end(s, j) {
                    Some(j2) => {
                        lemma_zset_ends_ge(s, j2, (n - 1) as nat);
                    },
                    None => {},
                }
            },
            None => {},
        }
    }
}

pub proof fn lemma_zset2_ends_ge(s: Seq<u8>, i: int, n: nat)
    ensures
        zset2_ends(s, i, n) matches Some(e) ==> e >= i,
    decreases n,
{
    if n > 0 {
        match blob_end(s, i) {
            Some(j) => {
                lemma_blob_end_ge(s, i);
                if j + 8 <= s.len() {
                    lemma_zset2_ends_ge(s, j + 8, (n - 1) as nat);
                }
            },
            None => {},
        }
    }
}

pub proof fn lemma_ql_items_ge(s: Seq<u8>, i: int, n: nat)
    ensures
        ql_items(s, i, n) matches Some(p) ==> p.1 >= i,
    decreases n,
{
    if n > 0 {
        match blob_at(s, i) {
            Some((_, j)) => {
                lemma_blob_at_ge(s, i);
                lemma_ql_items_ge(s, j, (n - 1) as nat);
            },
            None => {},
        }
    }
}

/// A key record never ends before it starts: decoding consumes forward.
pub proof fn lemma_record_end_ge(s: Seq<u8>, i: int, t: u8, key: Seq<u8>, exp: Option<u64>)
    ensures
        record_events(s, i, t, key, exp) matches Some(p) ==> p.1 >= i,
{
    lemma_blob_at_ge(s, i);
    if t == crate::constants::TYPE_LIST || t == crate::constants::TYPE_SET {
        match len_at(s, i) {
            Some((n, _, j)) => {
                lemma_blobs_at_ge(s, j, n);
            },
            None => {},
        }
    } else if t == crate::constants::TYPE_ZSET {
        match len_at(s, i) {
            Some((n, _, j)) => {
                lemma_zset_items_ge(s, j, n);
            },
            None => {},
        }
    } else if t == crate::constants::TYPE_ZSET_2 {
        match len_at(s, i) {
            Some((n, _, j)) => {
                lemma_zset2_items_ge(s, j, n);
            },
            None => {},
        }
    } else if t == crate::constants::TYPE_HASH {
        match len_at(s, i) {
            Some((n, _, j)) => {
                lemma_blobs_at_ge(s, j, (n * 2) as nat);
            },
            None => {},
        }
    } else if t == crate::constants::TYPE_LIST_QUICKLIST {
        match len_at(s, i) {
            Some((n, _, j)) => {
                lemma_ql_items_ge(s, j, n);
            },
            None => {},
        }
    }
}

/// Skipping a key record never moves backwards either.
pub proof fn lemma_object_end_ge(s: Seq<u8>, i: int, t: u8)
    ensures
        object_end(s, i, t) matches Some(e) ==> e >= i,
{
    lemma_blob_end_ge(s, i);
    match len_at(s, i) {
        Some((n, _, j)) => {
            lemma_blobs_end_ge(s, j, n);
            lemma_blobs_end_ge(s, j, (n * 2) as nat);
            lemma_zset_ends_ge(s, j, n);
            lemma_zset2_ends_ge(s, j, n);
        },
        None => {},
    }
}

/// The events that stand alone in the stream body.
pub open spec fn is_single(e: EventV) -> bool {
    ||| e matches EventV::StartDatabase(_)
    ||| e matches EventV::EndDatabase(_)
    ||| e matches EventV::ResizeDb(_, _)
    ||| e matches EventV::AuxField(_, _)
    ||| e matches EventV::SetString(_, _, _)
}

/// A collection record block: one start event, the matching elements of
/// the same key, and the matching end event with the same key.
pub open spec fn is_coll_block(evs: Seq<EventV>) -> bool {
    &&& evs.len() >= 2
    &&& ({
        ||| (evs[0] matches EventV::StartList(k, _, _, _) && evs.last() == EventV::EndList(k)
            && (forall|m: int| 1 <= m < evs.len() - 1
                ==> ((#[trigger] evs[m]) matches EventV::ListElement(k2, _) && k2 == k)))
        ||| (evs[0] matches EventV::StartSet(k, _, _, _) && evs.last() == EventV::EndSet(k)
            && (forall|m: int| 1 <= m < evs.len() - 1
                ==> ((#[trigger] evs[m]) matches EventV::SetElement(k2, _) && k2 == k)))
        ||| (evs[0] matches EventV::StartHash(k, _, _, _) && evs.last() == EventV::EndHash(k)
            && (forall|m: int| 1 <= m < evs.len() - 1
                ==> ((#[trigger] evs[m]) matches EventV::HashElement(k2, _, _) && k2 == k)))
        ||| (evs[0] matches EventV::StartSortedSet(k, _, _, _)
            && evs.last() == EventV::EndSortedSet(k)
            && (forall|m: int| 1 <= m < evs.len() - 1
                ==> ((#[trigger] evs[m]) matches EventV::SortedSetElement(k2, _, _) && k2 == k)))
    })
}

/// One body block: a stand-alone event or a whole collection record.
pub open spec fn is_block(evs: Seq<EventV>) -> bool {
    (evs.len() == 1 && is_single(evs[0])) || is_coll_block(evs)
}

/// The stream body: a concatenation of blocks.
pub open spec fn is_body(evs: Seq<EventV>) -> bool
    decreases evs.len(),
{
    evs.len() == 0 || exists|n: int| 1 <= n <= evs.len() && #[trigger] is_block(evs.take(n))
        && is_body(evs.skip(n))
}

/// A whole event stream: the opening event, a body of blocks, the
/// closing event and the checksum.
pub open spec fn is_full_stream(evs: Seq<EventV>) -> bool {
    &&& evs.len() >= 3
    &&& evs[0] == EventV::StartRdb
    &&& evs[evs.len() - 2] == EventV::EndRdb
    &&& evs.last() matches EventV::Checksum(_)
    &&& is_body(evs.subrange(1, evs.len() - 2))
}

/// Appending a block to a body yields a body.
pub proof fn lemma_body_append(a: Seq<EventV>, b: Seq<EventV>)
    requires
        is_body(a),
        is_block(b),
    ensures
        is_body(a + b),
    decreases a.len(),
{
    if a.len() == 0 {
        assert(a + b =~= b);
        assert(b.len() >= 1);
        assert((a + b).take(b.len() as int) =~= b);
        assert((a + b).skip(b.len() as int) =~= Seq::<EventV>::empty());
        assert(is_body((a + b).skip(b.len() as int)));
        assert(is_body(a + b));
    } else {
        let n = choose|n: int| 1 <= n <= a.len() && #[trigger] is_block(a.take(n))
            && is_body(a.skip(n));
        assert((a + b).take(n) =~= a.take(n));
        lemma_body_append(a.skip(n), b);
        assert((a + b).skip(n) =~= a.skip(n) + b);
        assert(is_block((a + b).take(n)));
        assert(is_body(a + b));
    }
}

/// A stand-alone event is a block on its own.
pub proof fn lemma_single_block(e: EventV)
    requires
        is_single(e),
    ensures
        is_block(seq![e]),
{
}

/// The events of a decoded key record form one block.
pub proof fn lemma_record_is_block(s: Seq<u8>, i: int, t: u8, key: Seq<u8>, exp: Option<u64>)
    ensures
        record_events(s, i, t, key, exp) matches Some(p) ==> is_block(p.0),
{
    match record_events(s, i, t, key, exp) {
        Some((evs, _)) => {
            if t == crate::constants::TYPE_STRING {
                assert(evs.len() == 1 && is_single(evs[0]));
            } else {
                assert(is_coll_block(evs));
            }
        },
        None => {},
    }
}

} // verus!
