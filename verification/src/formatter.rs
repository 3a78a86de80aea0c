//! The emitter interface the parser's events replay into, the null
//! emitter, and shared output helpers.  The concrete emitters render
//! into an in-memory byte buffer; callers write the buffer wherever they
//! like.

use vstd::prelude::*;
use vstd::string::StringSliceAdditionalSpecFns;
use crate::foreign::{hex_bytes, hex_encode};
use crate::helper::append_bytes;
use crate::types::{EncodingType, Event, RdbResult, Score, ScoreV};

verus! {

/// Appends the UTF-8 bytes of a string slice to an output buffer.
pub fn write_str(out: &mut Vec<u8>, data: &str) -> (r: RdbResult<()>)
    ensures
        final(out)@ == old(out)@ + data.spec_bytes(),
        r is Ok,
{
    append_bytes(out, data.as_bytes());
    Ok(())
}

/// The little-endian bytes of a 64-bit value.
pub open spec fn u64_le_bytes(b: u64) -> Seq<u8> {
    seq![
        (b % 0x100) as u8,
        ((b / 0x100) % 0x100) as u8,
        ((b / 0x10000) % 0x100) as u8,
        ((b / 0x1000000) % 0x100) as u8,
        ((b / 0x100000000) % 0x100) as u8,
        ((b / 0x10000000000) % 0x100) as u8,
        ((b / 0x1000000000000) % 0x100) as u8,
        ((b / 0x100000000000000) % 0x100) as u8,
    ]
}

/// The text form a score renders as: stored decimal text verbatim, fixed
/// words for the sentinels, and the hex of the raw bits for a finite
/// packed score.
pub open spec fn score_text(sv: ScoreV) -> Seq<u8> {
    match sv {
        ScoreV::Text(t) => t,
        ScoreV::NotANumber => ("nan").spec_bytes(),
        ScoreV::PosInf => ("inf").spec_bytes(),
        ScoreV::NegInf => ("-inf").spec_bytes(),
        ScoreV::Packed(b) => hex_bytes(u64_le_bytes(b)),
    }
}

/// Renders a score as bytes.
pub fn score_bytes(score: &Score) -> (r: Vec<u8>)
    ensures
        r@ == score_text(score@),
{
    match score {
        Score::Text(t) => {
            let mut out: Vec<u8> = Vec::new();
            append_bytes(&mut out, t.as_slice());
            proof {
                assert(out@ =~= t@);
            }
            out
        },
        Score::NotANumber => {
            let mut out: Vec<u8> = Vec::new();
            append_bytes(&mut out, ("nan").as_bytes());
            proof {
                assert(out@ =~= ("nan").spec_bytes());
            }
            out
        },
        Score::PosInf => {
            let mut out: Vec<u8> = Vec::new();
            append_bytes(&mut out, ("inf").as_bytes());
            proof {
                assert(out@ =~= ("inf").spec_bytes());
            }
            out
        },
        Score::NegInf => {
            let mut out: Vec<u8> = Vec::new();
            append_bytes(&mut out, ("-inf").as_bytes());
            proof {
                assert(out@ =~= ("-inf").spec_bytes());
            }
            out
        },
        Score::Packed(b) => {
            let bits = *b;
            let mut raw: Vec<u8> = Vec::new();
            raw.push((bits % 0x100) as u8);
            raw.push(((bits / 0x100) % 0x100) as u8);
            raw.push(((bits / 0x10000) % 0x100) as u8);
            raw.push(((bits / 0x1000000) % 0x100) as u8);
            raw.push(((bits / 0x100000000) % 0x100) as u8);
            raw.push(((bits / 0x10000000000) % 0x100) as u8);
            raw.push(((bits / 0x1000000000000) % 0x100) as u8);
            raw.push(((bits / 0x100000000000000) % 0x100) as u8);
            proof {
                assert(raw@ =~= u64_le_bytes(bits));
            }
            hex_encode(raw.as_slice())
        },
    }
}

/// The emitter interface: one operation per observable event.  Every
/// operation may fail; a failure aborts the parse that drives it.
pub trait Formatter {
    /// Whether this emitter's operations never fail.  For emitters with
    /// this property, the driving parse succeeds exactly when the input
    /// decodes under the filter.
    open spec fn infallible(&self) -> bool {
        false
    }

    fn start_rdb(&mut self) -> (r: RdbResult<()>)
        ensures
            old(self).infallible() ==> r is Ok && final(self).infallible(),
    ;

    fn end_rdb(&mut self) -> (r: RdbResult<()>)
        ensures
            old(self).infallible() ==> r is Ok && final(self).infallible(),
    ;

    fn checksum(&mut self, checksum: &[u8]) -> (r: RdbResult<()>)
        ensures
            old(self).infallible() ==> r is Ok && final(self).infallible(),
    ;

    fn start_database(&mut self, db_index: u64) -> (r: RdbResult<()>)
        ensures
            old(self).infallible() ==> r is Ok && final(self).infallible(),
    ;

    fn end_database(&mut self, db_index: u64) -> (r: RdbResult<()>)
        ensures
            old(self).infallible() ==> r is Ok && final(self).infallible(),
    ;

    fn resizedb(&mut self, db_size: u64, expires_size: u64) -> (r: RdbResult<()>)
        ensures
            old(self).infallible() ==> r is Ok && final(self).infallible(),
    ;

    fn aux_field(&mut self, key: &[u8], value: &[u8]) -> (r: RdbResult<()>)
        ensures
            old(self).infallible() ==> r is Ok && final(self).infallible(),
    ;

    fn set(&mut self, key: &[u8], value: &[u8], expiry: Option<u64>) -> (r: RdbResult<()>)
        ensures
            old(self).infallible() ==> r is Ok && final(self).infallible(),
    ;

    fn start_hash(&mut self, key: &[u8], length: u64, expiry: Option<u64>,
        info: EncodingType) -> (r: RdbResult<()>)
        ensures
            old(self).infallible() ==> r is Ok && final(self).infallible(),
    ;

    fn end_hash(&mut self, key: &[u8]) -> (r: RdbResult<()>)
        ensures
            old(self).infallible() ==> r is Ok && final(self).infallible(),
    ;

    fn hash_element(&mut self, key: &[u8], field: &[u8], value: &[u8]) -> (r: RdbResult<()>)
        ensures
            old(self).infallible() ==> r is Ok && final(self).infallible(),
    ;

    fn start_set(&mut self, key: &[u8], cardinality: u64, expiry: Option<u64>,
        info: EncodingType) -> (r: RdbResult<()>)
        ensures
            old(self).infallible() ==> r is Ok && final(self).infallible(),
    ;

    fn end_set(&mut self, key: &[u8]) -> (r: RdbResult<()>)
        ensures
            old(self).infallible() ==> r is Ok && final(self).infallible(),
    ;

    fn set_element(&mut self, key: &[u8], member: &[u8]) -> (r: RdbResult<()>)
        ensures
            old(self).infallible() ==> r is Ok && final(self).infallible(),
    ;

    fn start_list(&mut self, key: &[u8], length: u64, expiry: Option<u64>,
        info: EncodingType) -> (r: RdbResult<()>)
        ensures
            old(self).infallible() ==> r is Ok && final(self).infallible(),
    ;

    fn end_list(&mut self, key: &[u8]) -> (r: RdbResult<()>)
        ensures
            old(self).infallible() ==> r is Ok && final(self).infallible(),
    ;

    fn list_element(&mut self, key: &[u8], value: &[u8]) -> (r: RdbResult<()>)
        ensures
            old(self).infallible() ==> r is Ok && final(self).infallible(),
    ;

    fn start_sorted_set(&mut self, key: &[u8], length: u64, expiry: Option<u64>,
        info: EncodingType) -> (r: RdbResult<()>)
        ensures
            old(self).infallible() ==> r is Ok && final(self).infallible(),
    ;

    fn end_sorted_set(&mut self, key: &[u8]) -> (r: RdbResult<()>)
        ensures
            old(self).infallible() ==> r is Ok && final(self).infallible(),
    ;

    fn sorted_set_element(&mut self, key: &[u8], score: &Score, member: &[u8]) -> (r: RdbResult<()>)
        ensures
            old(self).infallible() ==> r is Ok && final(self).infallible(),
    ;
}

/// The emitter that swallows everything.
#[derive(Clone, Copy)]
pub struct Nil;

impl Formatter for Nil {
    open spec fn infallible(&self) -> bool {
        true
    }

    fn start_rdb(&mut self) -> RdbResult<()> {
        Ok(())
    }

    fn end_rdb(&mut self) -> RdbResult<()> {
        Ok(())
    }

    fn checksum(&mut self, checksum: &[u8]) -> RdbResult<()> {
        Ok(())
    }

    fn start_database(&mut self, db_index: u64) -> RdbResult<()> {
        Ok(())
    }

    fn end_database(&mut self, db_index: u64) -> RdbResult<()> {
        Ok(())
    }

    fn resizedb(&mut self, db_size: u64, expires_size: u64) -> RdbResult<()> {
        Ok(())
    }

    fn aux_field(&mut self, key: &[u8], value: &[u8]) -> RdbResult<()> {
        Ok(())
    }

    fn set(&mut self, key: &[u8], value: &[u8], expiry: Option<u64>) -> RdbResult<()> {
        Ok(())
    }

    fn start_hash(&mut self, key: &[u8], length: u64, expiry: Option<u64>,
        info: EncodingType) -> RdbResult<()> {
        Ok(())
    }

    fn end_hash(&mut self, key: &[u8]) -> RdbResult<()> {
        Ok(())
    }

    fn hash_element(&mut self, key: &[u8], field: &[u8], value: &[u8]) -> RdbResult<()> {
        Ok(())
    }

    fn start_set(&mut self, key: &[u8], cardinality: u64, expiry: Option<u64>,
        info: EncodingType) -> RdbResult<()> {
        Ok(())
    }

    fn end_set(&mut self, key: &[u8]) -> RdbResult<()> {
        Ok(())
    }

    fn set_element(&mut self, key: &[u8], member: &[u8]) -> RdbResult<()> {
        Ok(())
    }

    fn start_list(&mut self, key: &[u8], length: u64, expiry: Option<u64>,
        info: EncodingType) -> RdbResult<()> {
        Ok(())
    }

    fn end_list(&mut self, key: &[u8]) -> RdbResult<()> {
        Ok(())
    }

    fn list_element(&mut self, key: &[u8], value: &[u8]) -> RdbResult<()> {
        Ok(())
    }

    fn start_sorted_set(&mut self, key: &[u8], length: u64, expiry: Option<u64>,
        info: EncodingType) -> RdbResult<()> {
        Ok(())
    }

    fn end_sorted_set(&mut self, key: &[u8]) -> RdbResult<()> {
        Ok(())
    }

    fn sorted_set_element(&mut self, key: &[u8], score: &Score, member: &[u8])
        -> RdbResult<()> {
        Ok(())
    }
}

/// Replays one decoded event into an emitter.
pub fn emit_event<F: Formatter>(formatter: &mut F, event: &Event) -> (r: RdbResult<()>)
    ensures
        old(formatter).infallible() ==> r is Ok && final(formatter).infallible(),
{
    match event {
        Event::StartRdb => formatter.start_rdb(),
        Event::EndRdb => formatter.end_rdb(),
        Event::Checksum(c) => formatter.checksum(c.as_slice()),
        Event::StartDatabase(d) => formatter.start_database(*d),
        Event::EndDatabase(d) => formatter.end_database(*d),
        Event::ResizeDb(a, b) => formatter.resizedb(*a, *b),
        Event::AuxField(k, v) => formatter.aux_field(k.as_slice(), v.as_slice()),
        Event::SetString(k, v, e) => formatter.set(k.as_slice(), v.as_slice(), *e),
        Event::StartHash(k, n, e, i) => formatter.start_hash(k.as_slice(), *n, *e, *i),
        Event::EndHash(k) => formatter.end_hash(k.as_slice()),
        Event::HashElement(k, f, v) => formatter.hash_element(k.as_slice(), f.as_slice(),
            v.as_slice()),
        Event::StartSet(k, n, e, i) => formatter.start_set(k.as_slice(), *n, *e, *i),
        Event::EndSet(k) => formatter.end_set(k.as_slice()),
        Event::SetElement(k, m) => formatter.set_element(k.as_slice(), m.as_slice()),
        Event::StartList(k, n, e, i) => formatter.start_list(k.as_slice(), *n, *e, *i),
        Event::EndList(k) => formatter.end_list(k.as_slice()),
        Event::ListElement(k, v) => formatter.list_element(k.as_slice(), v.as_slice()),
        Event::StartSortedSet(k, n, e, i) => formatter.start_sorted_set(k.as_slice(), *n, *e,
            *i),
        Event::EndSortedSet(k) => formatter.end_sorted_set(k.as_slice()),
        Event::SortedSetElement(k, s, m) => formatter.sorted_set_element(k.as_slice(), s,
            m.as_slice()),
    }
}

} // verus!
