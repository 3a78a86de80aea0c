//! The decoded shapes the parser reports: logical value types, physical
//! encoding hints, sorted-set scores, emitter events and errors.

use vstd::prelude::*;

verus! {

/// Errors the decoder reports.  The parse never panics on malformed input;
/// every failure is surfaced as one of these.
#[derive(Clone, Copy, PartialEq, Eq, Structural, Debug)]
pub enum RdbError {
    /// The input violates the format; the payload is the byte offset at
    /// which the violation was noticed.
    MalformedInput(usize),
    /// A recognised but unimplemented encoding-type byte.
    Unsupported(u8),
    /// The underlying reader failed (only raised by callers that feed the
    /// parser from a fallible source).
    Io,
    /// A downstream emitter operation failed.
    EmitterFailure,
}

pub type RdbResult<T> = Result<T, RdbError>;

/// The five logical value shapes a key can hold.
#[derive(Clone, Copy, PartialEq, Eq, Structural, Debug)]
pub enum Type {
    String,
    List,
    UnorderedSet,
    SortedSet,
    Hash,
}

/// The physical encoding a collection was stored in, passed to emitters as
/// a hint alongside the matching start event.
#[derive(Clone, Copy, PartialEq, Eq, Structural, Debug)]
pub enum EncodingType {
    LinkedList,
    Hashtable,
    Skiplist,
    Intset,
    Ziplist,
    Zipmap,
    Quicklist,
}

impl Type {
    /// The logical type introduced by an encoding-type byte, or `None` for
    /// a byte that introduces no supported key record.
    pub open spec fn spec_from_encoding(enc_type: u8) -> Option<Type> {
        if enc_type == crate::constants::TYPE_STRING {
            Some(Type::String)
        } else if enc_type == crate::constants::TYPE_LIST
            || enc_type == crate::constants::TYPE_LIST_ZIPLIST
            || enc_type == crate::constants::TYPE_LIST_QUICKLIST {
            Some(Type::List)
        } else if enc_type == crate::constants::TYPE_SET
            || enc_type == crate::constants::TYPE_SET_INTSET {
            Some(Type::UnorderedSet)
        } else if enc_type == crate::constants::TYPE_ZSET
            || enc_type == crate::constants::TYPE_ZSET_2
            || enc_type == crate::constants::TYPE_ZSET_ZIPLIST {
            Some(Type::SortedSet)
        } else if enc_type == crate::constants::TYPE_HASH
            || enc_type == crate::constants::TYPE_HASH_ZIPMAP
            || enc_type == crate::constants::TYPE_HASH_ZIPLIST {
            Some(Type::Hash)
        } else {
            None
        }
    }

    /// Classifies an encoding-type byte.
    pub fn from_encoding(enc_type: u8) -> (r: Option<Type>)
        ensures
            r == Type::spec_from_encoding(enc_type),
    {
        match enc_type {
            crate::constants::TYPE_STRING => Some(Type::String),
            crate::constants::TYPE_LIST
            | crate::constants::TYPE_LIST_ZIPLIST
            | crate::constants::TYPE_LIST_QUICKLIST => Some(Type::List),
            crate::constants::TYPE_SET
            | crate::constants::TYPE_SET_INTSET => Some(Type::UnorderedSet),
            crate::constants::TYPE_ZSET
            | crate::constants::TYPE_ZSET_2
            | crate::constants::TYPE_ZSET_ZIPLIST => Some(Type::SortedSet),
            crate::constants::TYPE_HASH
            | crate::constants::TYPE_HASH_ZIPMAP
            | crate::constants::TYPE_HASH_ZIPLIST => Some(Type::Hash),
            _ => None,
        }
    }
}

/// A sorted-set score.  The format stores scores either as ASCII decimal
/// text of a given length, as one of three sentinel length bytes, or (in
/// the newer sorted-set encoding) as the raw bits of an 8-byte IEEE-754
/// little-endian value.  Finite raw scores are carried as their bits; the
/// library itself never computes with floating point.
#[derive(Clone, PartialEq, Eq, Debug)]
pub enum Score {
    /// ASCII decimal text, exactly as stored.
    Text(Vec<u8>),
    NotANumber,
    PosInf,
    NegInf,
    /// The bits of a finite 8-byte IEEE-754 score.
    Packed(u64),
}

/// Mathematical image of a [`Score`].
pub enum ScoreV {
    Text(Seq<u8>),
    NotANumber,
    PosInf,
    NegInf,
    Packed(u64),
}

impl View for Score {
    type V = ScoreV;

    open spec fn view(&self) -> ScoreV {
        match self {
            Score::Text(t) => ScoreV::Text(t@),
            Score::NotANumber => ScoreV::NotANumber,
            Score::PosInf => ScoreV::PosInf,
            Score::NegInf => ScoreV::NegInf,
            Score::Packed(b) => ScoreV::Packed(*b),
        }
    }
}

impl DeepView for Score {
    type V = ScoreV;

    open spec fn deep_view(&self) -> ScoreV {
        self.view()
    }
}

/// One observable emitter event.  A parse of a whole snapshot yields the
/// ordered sequence of these; replaying them into a [`crate::Formatter`]
/// reproduces the callback protocol of the streaming interface.
#[derive(Clone, PartialEq, Eq, Debug)]
pub enum Event {
    StartRdb,
    EndRdb,
    /// The trailing checksum bytes, passed through verbatim.
    Checksum(Vec<u8>),
    StartDatabase(u64),
    EndDatabase(u64),
    /// Hash-table sizes announced by a resize record: main and expires.
    ResizeDb(u64, u64),
    /// A metadata key/value pair.
    AuxField(Vec<u8>, Vec<u8>),
    /// A string key: key, value, optional absolute expiry in milliseconds.
    SetString(Vec<u8>, Vec<u8>, Option<u64>),
    /// key, length, expiry, encoding hint.
    StartHash(Vec<u8>, u64, Option<u64>, EncodingType),
    EndHash(Vec<u8>),
    /// key, field, value.
    HashElement(Vec<u8>, Vec<u8>, Vec<u8>),
    StartSet(Vec<u8>, u64, Option<u64>, EncodingType),
    EndSet(Vec<u8>),
    /// key, member.
    SetElement(Vec<u8>, Vec<u8>),
    StartList(Vec<u8>, u64, Option<u64>, EncodingType),
    EndList(Vec<u8>),
    /// key, value.
    ListElement(Vec<u8>, Vec<u8>),
    StartSortedSet(Vec<u8>, u64, Option<u64>, EncodingType),
    EndSortedSet(Vec<u8>),
    /// key, score, member.
    SortedSetElement(Vec<u8>, Score, Vec<u8>),
}

/// Mathematical image of an [`Event`].
pub enum EventV {
    StartRdb,
    EndRdb,
    Checksum(Seq<u8>),
    StartDatabase(u64),
    EndDatabase(u64),
    ResizeDb(u64, u64),
    AuxField(Seq<u8>, Seq<u8>),
    SetString(Seq<u8>, Seq<u8>, Option<u64>),
    StartHash(Seq<u8>, u64, Option<u64>, EncodingType),
    EndHash(Seq<u8>),
    HashElement(Seq<u8>, Seq<u8>, Seq<u8>),
    StartSet(Seq<u8>, u64, Option<u64>, EncodingType),
    EndSet(Seq<u8>),
    SetElement(Seq<u8>, Seq<u8>),
    StartList(Seq<u8>, u64, Option<u64>, EncodingType),
    EndList(Seq<u8>),
    ListElement(Seq<u8>, Seq<u8>),
    StartSortedSet(Seq<u8>, u64, Option<u64>, EncodingType),
    EndSortedSet(Seq<u8>),
    SortedSetElement(Seq<u8>, ScoreV, Seq<u8>),
}

impl View for Event {
    type V = EventV;

    open spec fn view(&self) -> EventV {
        match self {
            Event::StartRdb => EventV::StartRdb,
            Event::EndRdb => EventV::EndRdb,
            Event::Checksum(c) => EventV::Checksum(c@),
            Event::StartDatabase(d) => EventV::StartDatabase(*d),
            Event::EndDatabase(d) => EventV::EndDatabase(*d),
            Event::ResizeDb(a, b) => EventV::ResizeDb(*a, *b),
            Event::AuxField(k, v) => EventV::AuxField(k@, v@),
            Event::SetString(k, v, e) => EventV::SetString(k@, v@, *e),
            Event::StartHash(k, n, e, i) => EventV::StartHash(k@, *n, *e, *i),
            Event::EndHash(k) => EventV::EndHash(k@),
            Event::HashElement(k, f, v) => EventV::HashElement(k@, f@, v@),
            Event::StartSet(k, n, e, i) => EventV::StartSet(k@, *n, *e, *i),
            Event::EndSet(k) => EventV::EndSet(k@),
            Event::SetElement(k, m) => EventV::SetElement(k@, m@),
            Event::StartList(k, n, e, i) => EventV::StartList(k@, *n, *e, *i),
            Event::EndList(k) => EventV::EndList(k@),
            Event::ListElement(k, v) => EventV::ListElement(k@, v@),
            Event::StartSortedSet(k, n, e, i) => EventV::StartSortedSet(k@, *n, *e, *i),
            Event::EndSortedSet(k) => EventV::EndSortedSet(k@),
            Event::SortedSetElement(k, s, m) => EventV::SortedSetElement(k@, s@, m@),
        }
    }
}

impl DeepView for Event {
    type V = EventV;

    open spec fn deep_view(&self) -> EventV {
        self.view()
    }
}

} // verus!
