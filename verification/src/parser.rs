//! The streaming decoder: the top-level opcode loop, the per-type record
//! readers and the byte-exact skip path.  A parse consumes the whole
//! input and accumulates the ordered sequence of emitter events; each
//! record reader is proved to append exactly the events the model
//! assigns to its bytes, ending exactly where the record ends.

use vstd::prelude::*;
use crate::codec::{read_blob, read_length, read_length_with_encoding, read_ziplist_metadata,
    verify_magic, verify_version};
use crate::constants::{TYPE_STRING, TYPE_LIST, TYPE_SET, TYPE_ZSET, TYPE_HASH, TYPE_ZSET_2,
    TYPE_HASH_ZIPMAP, TYPE_LIST_ZIPLIST, TYPE_SET_INTSET, TYPE_ZSET_ZIPLIST, TYPE_HASH_ZIPLIST,
    TYPE_LIST_QUICKLIST, OP_AUX, OP_RESIZEDB, OP_EXPIRETIME, OP_EXPIRETIME_MS, OP_SELECTDB,
    OP_EOF};
use crate::filter::RdbFilter;
use crate::formatter::Formatter;
use crate::helper::{small_signed_text, big_signed_text, i64_to_vec};
use crate::constants::{ENC_INT8, ENC_INT16, ENC_INT32, ENC_LZF, TYPE_MODULE, TYPE_MODULE_2};
use crate::model::{blob_at, blobs_at, len_at, record_events, zset_items_at, zset2_items_at,
    zl_entry_at, zl_entries_at, zl_items, int_texts_at, intset_items, zm_str_at, zm_val_at,
    zm_pair_at,
    zm_scan, zm_counted, zipmap_items, ql_items, score_at, score_of_bits,
    width_modulus, le_val, be_val, dec_text, to_signed,
    blob_end, blobs_end, score_end, zset_ends, zset2_ends, object_end,
    magic_seq, version_ok, is_body, is_single, is_full_stream,
    lemma_record_end_ge, lemma_object_end_ge, lemma_blob_end_ge,
    lemma_body_append, lemma_single_block, lemma_record_is_block};
use crate::reader::ByteReader;
use crate::types::{Event, EventV, RdbError, RdbResult, Score, ScoreV, EncodingType};

verus! {

/// Copies a byte vector.
fn dup(v: &Vec<u8>) -> (r: Vec<u8>)
    ensures
        r@ == v@,
{
    let mut out: Vec<u8> = Vec::new();
    let mut k: usize = 0;
    while k < v.len()
        invariant
            k <= v@.len(),
            out@ == v@.subrange(0, k as int),
        decreases v@.len() - k,
    {
        out.push(v[k]);
        k = k + 1;
        proof {
            assert(out@ =~= v@.subrange(0, k as int));
        }
    }
    proof {
        assert(out@ =~= v@);
    }
    out
}

/// Appends one event, tracked at the view level.
fn push_ev(events: &mut Vec<Event>, e: Event)
    ensures
        final(events).deep_view() == old(events).deep_view().push(e@),
{
    let ghost pre = events.deep_view();
    events.push(e);
    proof {
        assert(events.deep_view() =~= pre.push(e@));
    }
}

/// Reads one sorted-set score record: a sentinel length byte or ASCII
/// decimal text of the given length.
fn read_score(input: &mut ByteReader) -> (r: RdbResult<Score>)
    requires
        old(input).wf(),
    ensures
        final(input).wf(),
        final(input).bytes() == old(input).bytes(),
        r is Ok <==> score_at(old(input).bytes(), old(input).pos()) is Some,
        r matches Ok(sc) ==> (score_at(old(input).bytes(), old(input).pos())
            matches Some(p) && p.0 == sc@ && p.1 == final(input).pos()),
        r matches Err(e) ==> e is MalformedInput,
{
    let b = input.read_u8()?;
    if b == 253 {
        Ok(Score::NotANumber)
    } else if b == 254 {
        Ok(Score::PosInf)
    } else if b == 255 {
        Ok(Score::NegInf)
    } else {
        let t = input.read_bytes(b as usize)?;
        Ok(Score::Text(t))
    }
}

/// Reads one 8-byte little-endian IEEE-754 score, classifying the
/// infinities and NaN by their bit patterns.
fn read_score_bits(input: &mut ByteReader) -> (r: RdbResult<Score>)
    requires
        old(input).wf(),
    ensures
        final(input).wf(),
        final(input).bytes() == old(input).bytes(),
        r is Ok <==> old(input).pos() + 8 <= old(input).bytes().len(),
        r matches Ok(sc) ==> sc@ == score_of_bits(le_val(old(input).bytes().subrange(
            old(input).pos(), old(input).pos() + 8)) as u64)
            && final(input).pos() == old(input).pos() + 8,
        r matches Err(e) ==> e is MalformedInput,
{
    let v = input.read_le_u64()?;
    let expo = (v / 0x10000000000000) % 0x800;
    let frac = v % 0x10000000000000;
    if expo == 0x7FF {
        if frac == 0 {
            if v / 0x8000000000000000 == 0 {
                Ok(Score::PosInf)
            } else {
                Ok(Score::NegInf)
            }
        } else {
            Ok(Score::NotANumber)
        }
    } else {
        Ok(Score::Packed(v))
    }
}

/// Decodes one ziplist entry: the back-pointer, then either a string of
/// one of three length widths or an inline integer rendered as decimal
/// text.
fn read_ziplist_entry(zl: &mut ByteReader) -> (r: RdbResult<Vec<u8>>)
    requires
        old(zl).wf(),
    ensures
        final(zl).wf(),
        final(zl).bytes() == old(zl).bytes(),
        r is Ok <==> zl_entry_at(old(zl).bytes(), old(zl).pos()) is Some,
        r matches Ok(v) ==> zl_entry_at(old(zl).bytes(), old(zl).pos())
            == Some((v@, final(zl).pos())),
        r matches Err(e) ==> e is MalformedInput,
{
    let p = zl.read_u8()?;
    if p == 254 {
        zl.skip_bytes(4)?;
    }
    let f = zl.read_u8()?;
    if f < 0x40 {
        let d = zl.read_bytes(f as usize)?;
        Ok(d)
    } else if f < 0x80 {
        let c = zl.read_u8()?;
        let l = (f - 0x40) as u32 * 0x100 + c as u32;
        let d = zl.read_bytes(l as usize)?;
        Ok(d)
    } else if f < 0xC0 {
        let l = zl.read_be_u32()?;
        let rem = zl.remaining();
        if l as u64 > rem as u64 {
            return Err(RdbError::MalformedInput(zl.position()));
        }
        let d = zl.read_bytes(l as usize)?;
        Ok(d)
    } else if f < 0xD0 {
        let v = zl.read_le_u16()?;
        Ok(small_signed_text(v as u64, 0x10000))
    } else if f < 0xE0 {
        let v = zl.read_le_u32()?;
        Ok(small_signed_text(v as u64, 0x100000000))
    } else if f < 0xF0 {
        let v = zl.read_le_u64()?;
        Ok(big_signed_text(v))
    } else if f == 0xF0 {
        let b3 = zl.read_bytes(3)?;
        let v = b3[0] as u64 * 0x10000 + b3[1] as u64 * 0x100 + b3[2] as u64;
        Ok(small_signed_text(v, 0x1000000))
    } else if f == 0xFE {
        let b1 = zl.read_u8()?;
        Ok(small_signed_text(b1 as u64, 0x100))
    } else if f == 0xFF {
        Err(RdbError::MalformedInput(zl.position()))
    } else {
        Ok(i64_to_vec((f - 0xF1) as i64))
    }
}

/// Decodes a whole ziplist blob: the 11-byte header, the counted
/// entries, then the 0xFF terminator.
fn read_ziplist_items(blob: Vec<u8>) -> (r: RdbResult<Vec<Vec<u8>>>)
    ensures
        r is Ok <==> zl_items(blob@) is Some,
        r matches Ok(v) ==> zl_items(blob@) == Some(v.deep_view()),
        r matches Err(e) ==> e is MalformedInput,
{
    let ghost b = blob@;
    let mut rd = ByteReader::new(blob);
    let meta = read_ziplist_metadata(&mut rd)?;
    let zllen = meta.2;
    let mut items: Vec<Vec<u8>> = Vec::new();
    let mut cnt: u16 = 0;
    while cnt < zllen
        invariant
            rd.wf(),
            rd.bytes() == b,
            cnt <= zllen,
            b == blob@,
            zllen as nat == le_val(b.subrange(8, 10)),
            b.len() >= 10,
            items.deep_view().len() == cnt,
            zl_entries_at(b, rd.pos(), (zllen - cnt) as nat) matches Some(p)
                ==> zl_entries_at(b, 10, zllen as nat) == Some((items.deep_view() + p.0, p.1)),
            zl_entries_at(b, rd.pos(), (zllen - cnt) as nat) is None
                ==> zl_entries_at(b, 10, zllen as nat) is None,
        decreases zllen - cnt,
    {
        let ghost cur = rd.pos();
        let ghost done = items.deep_view();
        let entry = match read_ziplist_entry(&mut rd) {
            Ok(v) => v,
            Err(e) => {
                proof {
                    assert(zl_entries_at(b, cur, (zllen - cnt) as nat) is None);
                }
                return Err(e);
            },
        };
        let ghost v = entry@;
        items.push(entry);
        proof {
            assert(items.deep_view() =~~= done.push(v));
            let sub = (zllen - cnt) as nat;
            assert(zl_entry_at(b, cur) == Some((v, rd.pos())));
            match zl_entries_at(b, rd.pos(), (sub - 1) as nat) {
                Some(p2) => {
                    assert(zl_entries_at(b, cur, sub) == Some((seq![v] + p2.0, p2.1)));
                    assert(done + (seq![v] + p2.0) =~= done.push(v) + p2.0);
                },
                None => {
                    assert(zl_entries_at(b, cur, sub) is None);
                },
            }
        }
        cnt = cnt + 1;
    }
    let ghost e = rd.pos();
    proof {
        assert(zl_entries_at(b, e, 0) == Some((Seq::<Seq<u8>>::empty(), e)));
        assert(items.deep_view() + Seq::<Seq<u8>>::empty() =~= items.deep_view());
        assert(zl_entries_at(b, 10, zllen as nat) == Some((items.deep_view(), e)));
    }
    let term = rd.read_u8()?;
    if term != 255 {
        return Err(RdbError::MalformedInput(rd.position()));
    }
    Ok(items)
}

/// Relates the deep view of a byte-vector element to its shallow view.
proof fn lemma_item_bytes(items: &Vec<Vec<u8>>, q: int)
    requires
        0 <= q < items@.len(),
    ensures
        items.deep_view()[q] == items@[q]@,
{
    assert(items.deep_view()[q] =~= items@[q]@);
}

/// Reads one zipmap string whose length byte was already consumed: a
/// byte below 253 is the length itself, 253 means the next four bytes
/// little-endian are, 254 and 255 are invalid.
fn read_zipmap_entry(next_byte: u8, zipmap: &mut ByteReader) -> (r: RdbResult<Vec<u8>>)
    requires
        old(zipmap).wf(),
        old(zipmap).pos() >= 1,
        old(zipmap).bytes()[old(zipmap).pos() - 1] == next_byte,
    ensures
        final(zipmap).wf(),
        final(zipmap).bytes() == old(zipmap).bytes(),
        r is Ok <==> zm_str_at(old(zipmap).bytes(), old(zipmap).pos() - 1) is Some,
        r matches Ok(v) ==> zm_str_at(old(zipmap).bytes(), old(zipmap).pos() - 1)
            == Some((v@, final(zipmap).pos())),
        r matches Err(e) ==> e is MalformedInput,
{
    if next_byte == 254 || next_byte == 255 {
        Err(RdbError::MalformedInput(zipmap.position()))
    } else if next_byte == 253 {
        let l = zipmap.read_le_u32()?;
        let rem = zipmap.remaining();
        if l as u64 > rem as u64 {
            return Err(RdbError::MalformedInput(zipmap.position()));
        }
        zipmap.read_bytes(l as usize)
    } else {
        zipmap.read_bytes(next_byte as usize)
    }
}

/// Reads one zipmap value record: a length byte with the same rules as
/// the key, one discarded free byte, then the value bytes.
fn read_zipmap_value(zipmap: &mut ByteReader) -> (r: RdbResult<Vec<u8>>)
    requires
        old(zipmap).wf(),
    ensures
        final(zipmap).wf(),
        final(zipmap).bytes() == old(zipmap).bytes(),
        r is Ok <==> zm_val_at(old(zipmap).bytes(), old(zipmap).pos()) is Some,
        r matches Ok(v) ==> zm_val_at(old(zipmap).bytes(), old(zipmap).pos())
            == Some((v@, final(zipmap).pos())),
        r matches Err(e) ==> e is MalformedInput,
{
    let b = zipmap.read_u8()?;
    if b == 254 || b == 255 {
        Err(RdbError::MalformedInput(zipmap.position()))
    } else if b == 253 {
        let l = zipmap.read_le_u32()?;
        let _free = zipmap.read_u8()?;
        let rem = zipmap.remaining();
        if l as u64 > rem as u64 {
            return Err(RdbError::MalformedInput(zipmap.position()));
        }
        zipmap.read_bytes(l as usize)
    } else {
        let _free = zipmap.read_u8()?;
        zipmap.read_bytes(b as usize)
    }
}

/// The items of a sorted set under either score encoding.
pub open spec fn sorted_items(s: Seq<u8>, i: int, n: nat, t: u8)
    -> Option<(Seq<(Seq<u8>, ScoreV)>, int)> {
    if t == TYPE_ZSET {
        zset_items_at(s, i, n)
    } else {
        zset2_items_at(s, i, n)
    }
}



/// The events of the opcode loop from position `i` to the end-of-file
/// opcode, under a filter and the running state: the current database,
/// whether a start event was emitted for it, and the latched expiry.
/// `None` where the input is malformed or holds an unsupported record.
pub open spec fn body_events<L: RdbFilter>(s: Seq<u8>, i: int, filter: L, db: u64,
    open_db: bool, latch: Option<u64>) -> Option<Seq<EventV>>
    decreases s.len() - i,
{
    if 0 <= i < s.len() {
        let op = s[i];
        if op == OP_SELECTDB {
            match len_at(s, i + 1) {
                None => None,
                Some((d, _, j)) => {
                    if i < j <= s.len() {
                        let closing = if open_db {
                            seq![EventV::EndDatabase(db)]
                        } else {
                            Seq::<EventV>::empty()
                        };
                        let admitted = filter.db_allowed(d as u64);
                        let opening = if admitted {
                            seq![EventV::StartDatabase(d as u64)]
                        } else {
                            Seq::<EventV>::empty()
                        };
                        match body_events(s, j, filter, d as u64, admitted, latch) {
                            None => None,
                            Some(rest) => Some(closing + opening + rest),
                        }
                    } else {
                        None
                    }
                },
            }
        } else if op == OP_EOF {
            let closing = if open_db {
                seq![EventV::EndDatabase(db)]
            } else {
                Seq::<EventV>::empty()
            };
            Some(closing + seq![EventV::EndRdb, EventV::Checksum(s.skip(i + 1))])
        } else if op == OP_EXPIRETIME_MS {
            if i + 9 <= s.len() {
                body_events(s, i + 9, filter, db, open_db,
                    Some(le_val(s.subrange(i + 1, i + 9)) as u64))
            } else {
                None
            }
        } else if op == OP_EXPIRETIME {
            if i + 5 <= s.len() {
                body_events(s, i + 5, filter, db, open_db,
                    Some((be_val(s.subrange(i + 1, i + 5)) * 1000) as u64))
            } else {
                None
            }
        } else if op == OP_RESIZEDB {
            match len_at(s, i + 1) {
                None => None,
                Some((a, _, j)) => match len_at(s, j) {
                    None => None,
                    Some((b, _, j2)) => {
                        if i < j2 <= s.len() {
                            match body_events(s, j2, filter, db, open_db, latch) {
                                None => None,
                                Some(rest) => Some(seq![EventV::ResizeDb(a as u64, b as u64)]
                                    + rest),
                            }
                        } else {
                            None
                        }
                    },
                },
            }
        } else if op == OP_AUX {
            match blob_at(s, i + 1) {
                None => None,
                Some((k, j)) => match blob_at(s, j) {
                    None => None,
                    Some((v, j2)) => {
                        if i < j2 <= s.len() {
                            match body_events(s, j2, filter, db, open_db, latch) {
                                None => None,
                                Some(rest) => Some(seq![EventV::AuxField(k, v)] + rest),
                            }
                        } else {
                            None
                        }
                    },
                },
            }
        } else {
            if filter.db_allowed(db) {
                match blob_at(s, i + 1) {
                    None => None,
                    Some((key, j)) => {
                        if filter.type_allowed(op) && filter.key_allowed(key) {
                            match record_events(s, j, op, key, latch) {
                                None => None,
                                Some((evs, e)) => {
                                    if i < e <= s.len() {
                                        match body_events(s, e, filter, db, open_db, None) {
                                            None => None,
                                            Some(rest) => Some(evs + rest),
                                        }
                                    } else {
                                        None
                                    }
                                },
                            }
                        } else {
                            match object_end(s, j, op) {
                                None => None,
                                Some(e) => {
                                    if i < e <= s.len() {
                                        body_events(s, e, filter, db, open_db, None)
                                    } else {
                                        None
                                    }
                                },
                            }
                        }
                    },
                }
            } else {
                match blob_end(s, i + 1) {
                    None => None,
                    Some(j) => match object_end(s, j, op) {
                        None => None,
                        Some(e) => {
                            if i < e <= s.len() {
                                body_events(s, e, filter, db, open_db, None)
                            } else {
                                None
                            }
                        },
                    },
                }
            }
        }
    } else {
        None
    }
}

/// The full event stream of a snapshot under a filter: the magic and
/// version gate, then the opcode loop from offset 9 with database 0
/// current, nothing open and no latched expiry.  This is the function
/// the parser computes.
pub open spec fn stream_events<L: RdbFilter>(s: Seq<u8>, filter: L) -> Option<Seq<EventV>> {
    if s.len() >= 9 && s.subrange(0, 5) == magic_seq() && version_ok(s.subrange(5, 9)) {
        match body_events(s, 9, filter, 0, false, None) {
            None => None,
            Some(rest) => Some(seq![EventV::StartRdb] + rest),
        }
    } else {
        None
    }
}


/// What the opcode loop maintains: the whole-body result from offset 9
/// equals the events emitted so far plus whatever the remaining input
/// yields from the current position and state.
pub open spec fn loop_continues<L: RdbFilter>(s: Seq<u8>, pos: int, filter: L, db: u64,
    open_db: bool, latch: Option<u64>, done: Seq<EventV>) -> bool {
    &&& (body_events(s, pos, filter, db, open_db, latch) matches Some(rest)
        ==> body_events(s, 9, filter, 0, false, None) == Some(done + rest))
    &&& (body_events(s, pos, filter, db, open_db, latch) is None
        ==> body_events(s, 9, filter, 0, false, None) is None)
}

/// One loop step that emits `prefix` and moves to a new position and
/// state preserves the continuation.
#[verifier::rlimit(100)]
#[verifier::spinoff_prover]
proof fn lemma_continue_step<L: RdbFilter>(s: Seq<u8>, pos0: int, newpos: int, f: L,
    db0: u64, open0: bool, latch0: Option<u64>, db1: u64, open1: bool,
    latch1: Option<u64>, done: Seq<EventV>, prefix: Seq<EventV>)
    requires
        loop_continues(s, pos0, f, db0, open0, latch0, done),
        body_events(s, pos0, f, db0, open0, latch0)
            == match body_events(s, newpos, f, db1, open1, latch1) {
                None => None::<Seq<EventV>>,
                Some(rest) => Some(prefix + rest),
            },
    ensures
        loop_continues(s, newpos, f, db1, open1, latch1, done + prefix),
{
    match body_events(s, newpos, f, db1, open1, latch1) {
        Some(rest) => {
            assert(done + (prefix + rest) =~= (done + prefix) + rest);
        },
        None => {},
    }
}

/// One loop step that emits nothing preserves the continuation.
#[verifier::rlimit(100)]
#[verifier::spinoff_prover]
proof fn lemma_continue_same<L: RdbFilter>(s: Seq<u8>, pos0: int, newpos: int, f: L,
    db0: u64, open0: bool, latch0: Option<u64>, db1: u64, open1: bool,
    latch1: Option<u64>, done: Seq<EventV>)
    requires
        loop_continues(s, pos0, f, db0, open0, latch0, done),
        body_events(s, pos0, f, db0, open0, latch0)
            == body_events(s, newpos, f, db1, open1, latch1),
    ensures
        loop_continues(s, newpos, f, db1, open1, latch1, done),
{
}

/// One stand-alone event extends a stream body.
proof fn lemma_push_single(pre: Seq<EventV>, body: Seq<EventV>, e: EventV)
    requires
        is_body(body),
        is_single(e),
    ensures
        is_body(body + seq![e]),
        (pre + body).push(e) =~= pre + (body + seq![e]),
{
    lemma_single_block(e);
    lemma_body_append(body, seq![e]);
}


/// Closing a body with the end event and the checksum yields a whole
/// stream.
proof fn lemma_close_stream(evs: Seq<EventV>, body: Seq<EventV>, c: Seq<u8>)
    requires
        evs =~= seq![EventV::StartRdb] + body + seq![EventV::EndRdb, EventV::Checksum(c)],
        is_body(body),
    ensures
        is_full_stream(evs),
{
    assert(evs[0] == EventV::StartRdb);
    assert(evs[evs.len() - 2] == EventV::EndRdb);
    assert(evs.last() matches EventV::Checksum(_));
    assert(evs.subrange(1, evs.len() - 2) =~= body);
}

/// Parses a whole snapshot and replays every decoded event into the
/// emitter, in file order.  It returns the events of [`stream_events`]
/// exactly; it fails where the input does not decode under the filter,
/// or where the emitter refuses an event.  With an emitter that cannot
/// fail, success depends on the input and the filter alone.
#[verifier::rlimit(100)]
#[verifier::spinoff_prover]
pub fn parse<F: Formatter, L: RdbFilter>(input: Vec<u8>, formatter: &mut F, filter: L)
    -> (r: RdbResult<Vec<Event>>)
    ensures
        r matches Ok(events) ==> stream_events(input@, filter)
            == Some(events.deep_view()),
        r matches Ok(events) ==> is_full_stream(events.deep_view()),
        stream_events(input@, filter) is None ==> (r matches Err(e)
            && (e is MalformedInput || e is Unsupported)),
        old(formatter).infallible() ==> (r is Ok <==> stream_events(input@, filter)
            is Some),
{
    let ghost f_inf = old(formatter).infallible();
    let mut rdb_parser = RdbParser::new(input, filter);
    rdb_parser.parse()?;
    let events = rdb_parser.take_events();
    let ghost evd = events.deep_view();
    let mut k: usize = 0;
    while k < events.len()
        invariant
            k <= events@.len(),
            events.deep_view() == evd,
            is_full_stream(evd),
            stream_events(input@, filter) == Some(evd),
            f_inf == old(formatter).infallible(),
            f_inf ==> formatter.infallible(),
        decreases events@.len() - k,
    {
        match crate::formatter::emit_event(formatter, &events[k]) {
            Ok(_) => {},
            Err(e) => {
                proof {
                    assert(!f_inf);
                }
                return Err(e);
            },
        }
        k = k + 1;
    }
    Ok(events)
}

/// The streaming parser: it owns the input and the filter for the
/// duration of one parse, latches at most one pending expiry, and
/// accumulates the emitted events in file order.
pub struct RdbParser<L: RdbFilter> {
    input: ByteReader,
    filter: L,
    last_expiretime: Option<u64>,
    events: Vec<Event>,
}

impl<L: RdbFilter> RdbParser<L> {
    /// The whole input.
    pub closed spec fn bytes(&self) -> Seq<u8> {
        self.input.bytes()
    }

    /// The current read position.
    pub closed spec fn pos(&self) -> int {
        self.input.pos()
    }

    /// The events emitted so far, in order.
    pub closed spec fn evs(&self) -> Seq<EventV> {
        self.events.deep_view()
    }

    /// The latched pending expiry.
    pub closed spec fn latch(&self) -> Option<u64> {
        self.last_expiretime
    }

    /// The filter value.
    pub closed spec fn spec_filter(&self) -> L {
        self.filter
    }

    /// The reader position is in range.
    pub closed spec fn wf(&self) -> bool {
        self.input.wf()
    }

    /// What every record reader guarantees: the input bytes, filter and
    /// latch are untouched; it succeeds exactly when the model assigns
    /// events to the record at the current position; and on success it
    /// appends exactly those events and stops exactly at the record end.
    pub open spec fn record_step(pre: Self, post: Self, r: RdbResult<()>, t: u8, key: Seq<u8>)
        -> bool {
        &&& post.wf()
        &&& post.bytes() == pre.bytes()
        &&& post.spec_filter() == pre.spec_filter()
        &&& post.latch() == pre.latch()
        &&& (r is Ok <==> record_events(pre.bytes(), pre.pos(), t, key, pre.latch()) is Some)
        &&& (r is Ok ==> (record_events(pre.bytes(), pre.pos(), t, key, pre.latch())
            matches Some(pr) && post.evs() == pre.evs() + pr.0 && post.pos() == pr.1))
        &&& (r matches Err(e) ==> e is MalformedInput || e is Unsupported)
        &&& (r matches Err(e) ==> (e is Unsupported ==> t == crate::constants::TYPE_MODULE
            || t == crate::constants::TYPE_MODULE_2))
        &&& (t == crate::constants::TYPE_MODULE || t == crate::constants::TYPE_MODULE_2
            ==> (r matches Err(e) && e is Unsupported))
    }

    pub fn new(input: Vec<u8>, filter: L) -> (r: Self)
        ensures
            r.bytes() == input@,
            r.pos() == 0,
            r.evs() =~= Seq::<EventV>::empty(),
            r.latch() is None,
            r.spec_filter() == filter,
            r.wf(),
    {
        let r = RdbParser {
            input: ByteReader::new(input),
            filter,
            last_expiretime: None,
            events: Vec::new(),
        };
        proof {
            assert(r.events.deep_view() =~= Seq::<EventV>::empty());
        }
        r
    }

    /// Hands out the accumulated events.
    pub fn take_events(self) -> (r: Vec<Event>)
        ensures
            r.deep_view() == self.evs(),
    {
        self.events
    }

    /// Runs the whole parse: magic and version, then the opcode loop
    /// until the end-of-file opcode, consuming every record byte-exactly.
    /// It succeeds exactly when [`stream_events`] assigns the input a
    /// stream under this filter, and then the accumulated events are
    /// exactly that stream.
    #[verifier::rlimit(100)]
    #[verifier::spinoff_prover]
    pub fn parse(&mut self) -> (r: RdbResult<()>)
        requires
            old(self).wf(),
            old(self).pos() == 0,
            old(self).evs() == Seq::<EventV>::empty(),
            old(self).latch() is None,
        ensures
            final(self).wf(),
            final(self).bytes() == old(self).bytes(),
            final(self).spec_filter() == old(self).spec_filter(),
            r is Ok <==> stream_events(old(self).bytes(), old(self).spec_filter()) is Some,
            r is Ok ==> (stream_events(old(self).bytes(), old(self).spec_filter())
                matches Some(evs) && final(self).evs() == evs),
            r is Ok ==> final(self).pos() == old(self).bytes().len(),
            r is Ok ==> is_full_stream(final(self).evs()),
            r matches Err(e) ==> e is MalformedInput || e is Unsupported,
            !(old(self).bytes().len() >= 9
                && old(self).bytes().subrange(0, 5) == magic_seq()
                && version_ok(old(self).bytes().subrange(5, 9)))
                ==> (r matches Err(e) && e is MalformedInput),
    {
        let ghost s = self.input.bytes();
        let ghost f0 = self.filter;
        let ok_magic = verify_magic(&mut self.input)?;
        if !ok_magic {
            return Err(RdbError::MalformedInput(self.input.position()));
        }
        let ok_version = verify_version(&mut self.input)?;
        if !ok_version {
            return Err(RdbError::MalformedInput(self.input.position()));
        }
        push_ev(&mut self.events, Event::StartRdb);
        proof {
            assert(self.events.deep_view() =~= seq![EventV::StartRdb]);
        }
        let mut last_database: u64 = 0;
        let mut open_db: bool = false;
        let mut fin: bool = false;
        let ghost mut body: Seq<EventV> = Seq::empty();
        proof {
            assert(self.events.deep_view() =~= seq![EventV::StartRdb] + body);
            match body_events(s, 9, f0, 0, false, None) {
                Some(rest) => {
                    assert(body + rest =~= rest);
                },
                None => {},
            }
        }
        while !fin
            invariant
                self.input.wf(),
                self.input.bytes() == s,
                self.filter == f0,
                old(self).bytes() == s,
                old(self).spec_filter() == f0,
                s.len() >= 9,
                s.subrange(0, 5) == magic_seq(),
                version_ok(s.subrange(5, 9)),
                !fin ==> self.events.deep_view() == seq![EventV::StartRdb] + body,
                !fin ==> is_body(body),
                !fin ==> loop_continues(s, self.input.pos(), f0, last_database, open_db,
                    self.last_expiretime, body),
                fin ==> is_full_stream(self.events.deep_view()),
                fin ==> self.input.pos() == s.len(),
                fin ==> (body_events(s, 9, f0, 0, false, None) matches Some(all)
                    && self.events.deep_view() == seq![EventV::StartRdb] + all),
            decreases s.len() - self.input.pos() + (if fin { 0int } else { 1int }),
        {
            let ghost pos0 = self.input.pos();
            let ghost db0 = last_database;
            let ghost open0 = open_db;
            let ghost latch0 = self.last_expiretime;
            let next_op = match self.input.read_u8() {
                Ok(b) => b,
                Err(e) => {
                    proof {
                        assert(body_events(s, pos0, f0, db0, open0, latch0) is None);
                    }
                    return Err(e);
                },
            };
            if next_op == OP_SELECTDB {
                let gb = self.op_selectdb(&mut last_database, &mut open_db, Ghost(pos0),
                    Ghost(body))?;
                proof {
                    body = gb@;
                }
            } else if next_op == OP_EOF {
                self.op_eof(last_database, open_db, Ghost(pos0), Ghost(body));
                fin = true;
            } else if next_op == OP_EXPIRETIME_MS {
                let gb = self.op_expiretime_ms(last_database, open_db, Ghost(pos0),
                    Ghost(body))?;
                proof {
                    body = gb@;
                }
            } else if next_op == OP_EXPIRETIME {
                let gb = self.op_expiretime(last_database, open_db, Ghost(pos0),
                    Ghost(body))?;
                proof {
                    body = gb@;
                }
            } else if next_op == OP_RESIZEDB {
                let gb = self.op_resizedb(last_database, open_db, Ghost(pos0),
                    Ghost(body))?;
                proof {
                    body = gb@;
                }
            } else if next_op == OP_AUX {
                let gb = self.op_aux(last_database, open_db, Ghost(pos0), Ghost(body))?;
                proof {
                    body = gb@;
                }
            } else {
                let gb = self.op_key_record(next_op, last_database, open_db, Ghost(pos0),
                    Ghost(body))?;
                proof {
                    body = gb@;
                }
            }
        }
        Ok(())
    }

    /// Handles a select-database opcode: closes the open database, reads
    /// the new id, and opens it when the filter admits it.
    #[verifier::rlimit(100)]
    #[verifier::spinoff_prover]
    fn op_selectdb(&mut self, last_database: &mut u64, open_db: &mut bool,
        Ghost(pos0): Ghost<int>, Ghost(body): Ghost<Seq<EventV>>)
        -> (r: RdbResult<Ghost<Seq<EventV>>>)
        requires
            old(self).wf(),
            0 <= pos0 < old(self).bytes().len(),
            old(self).bytes()[pos0] == OP_SELECTDB,
            old(self).pos() == pos0 + 1,
            old(self).evs() == seq![EventV::StartRdb] + body,
            is_body(body),
            loop_continues(old(self).bytes(), pos0, old(self).spec_filter(),
                *old(last_database), *old(open_db), old(self).latch(), body),
        ensures
            final(self).wf(),
            final(self).bytes() == old(self).bytes(),
            final(self).spec_filter() == old(self).spec_filter(),
            final(self).latch() == old(self).latch(),
            r matches Ok(b2) ==> final(self).pos() > pos0
                && final(self).evs() == seq![EventV::StartRdb] + b2@
                && is_body(b2@)
                && loop_continues(final(self).bytes(), final(self).pos(),
                    final(self).spec_filter(), *final(last_database), *final(open_db),
                    final(self).latch(), b2@),
            r matches Err(e) ==> e is MalformedInput
                && body_events(old(self).bytes(), 9, old(self).spec_filter(), 0, false,
                    None) is None,
    {
        let ghost s = self.input.bytes();
        let ghost f0 = self.filter;
        let ghost db0 = *last_database;
        let ghost open0 = *open_db;
        let ghost latch0 = self.last_expiretime;
        let ghost body0 = body;
        let ghost mut body = body;
        let db = match read_length(&mut self.input) {
            Ok(d) => d,
            Err(e) => {
                proof {
                    assert(body_events(s, pos0, f0, db0, open0, latch0) is None);
                }
                return Err(e);
            },
        };
        let ghost newpos = self.input.pos();
        if *open_db {
            let ev = Event::EndDatabase(*last_database);
            let ghost evv = ev@;
            push_ev(&mut self.events, ev);
            proof {
                lemma_push_single(seq![EventV::StartRdb], body, evv);
                body = body + seq![evv];
            }
        }
        *last_database = db;
        if self.filter.matches_db(db) {
            let ev = Event::StartDatabase(db);
            let ghost evv = ev@;
            push_ev(&mut self.events, ev);
            proof {
                lemma_push_single(seq![EventV::StartRdb], body, evv);
                body = body + seq![evv];
            }
            *open_db = true;
        } else {
            *open_db = false;
        }
        proof {
            let closing = if open0 {
                seq![EventV::EndDatabase(db0)]
            } else {
                Seq::<EventV>::empty()
            };
            let opening = if *open_db {
                seq![EventV::StartDatabase(db)]
            } else {
                Seq::<EventV>::empty()
            };
            assert(body =~= body0 + (closing + opening));
            assert(body_events(s, pos0, f0, db0, open0, latch0)
                == match body_events(s, newpos, f0, db, *open_db, latch0) {
                    None => None::<Seq<EventV>>,
                    Some(rest) => Some((closing + opening) + rest),
                });
            lemma_continue_step(s, pos0, newpos, f0, db0, open0, latch0, db, *open_db,
                latch0, body0, closing + opening);
        }
        Ok(Ghost(body))
    }

    /// Handles the end-of-file opcode: closes the open database, closes
    /// the stream and captures the checksum trailer verbatim.
    #[verifier::rlimit(100)]
    #[verifier::spinoff_prover]
    fn op_eof(&mut self, last_database: u64, open_db: bool, Ghost(pos0): Ghost<int>,
        Ghost(body): Ghost<Seq<EventV>>)
        requires
            old(self).wf(),
            0 <= pos0 < old(self).bytes().len(),
            old(self).bytes()[pos0] == OP_EOF,
            old(self).pos() == pos0 + 1,
            old(self).evs() == seq![EventV::StartRdb] + body,
            is_body(body),
            loop_continues(old(self).bytes(), pos0, old(self).spec_filter(),
                last_database, open_db, old(self).latch(), body),
        ensures
            final(self).wf(),
            final(self).bytes() == old(self).bytes(),
            final(self).spec_filter() == old(self).spec_filter(),
            final(self).pos() == old(self).bytes().len(),
            is_full_stream(final(self).evs()),
            body_events(old(self).bytes(), 9, old(self).spec_filter(), 0, false, None)
                matches Some(all) && final(self).evs() == seq![EventV::StartRdb] + all,
    {
        let ghost s = self.input.bytes();
        let ghost f0 = self.filter;
        let ghost db0 = last_database;
        let ghost open0 = open_db;
        let ghost latch0 = self.last_expiretime;
        let ghost body0 = body;
        let ghost mut body = body;
        if open_db {
            let ev = Event::EndDatabase(last_database);
            let ghost evv = ev@;
            push_ev(&mut self.events, ev);
            proof {
                lemma_push_single(seq![EventV::StartRdb], body, evv);
                body = body + seq![evv];
            }
        }
        push_ev(&mut self.events, Event::EndRdb);
        let checksum = self.input.read_rest();
        let ghost c = checksum@;
        push_ev(&mut self.events, Event::Checksum(checksum));
        proof {
            let evs = self.events.deep_view();
            assert(evs =~= seq![EventV::StartRdb] + body
                + seq![EventV::EndRdb, EventV::Checksum(c)]);
            lemma_close_stream(evs, body, c);
            let closing = if open0 {
                seq![EventV::EndDatabase(db0)]
            } else {
                Seq::<EventV>::empty()
            };
            assert(c =~= s.skip(pos0 + 1));
            assert(body_events(s, pos0, f0, db0, open0, latch0)
                == Some(closing + seq![EventV::EndRdb, EventV::Checksum(c)]));
            assert(body0 + (closing + seq![EventV::EndRdb, EventV::Checksum(c)])
                =~= body + seq![EventV::EndRdb, EventV::Checksum(c)]);
            assert(body_events(s, 9, f0, 0, false, None)
                == Some(body + seq![EventV::EndRdb, EventV::Checksum(c)]));
            assert(evs =~= seq![EventV::StartRdb]
                + (body + seq![EventV::EndRdb, EventV::Checksum(c)]));
        }
    }

    /// Handles a millisecond expire opcode: latches the value.
    #[verifier::rlimit(100)]
    #[verifier::spinoff_prover]
    fn op_expiretime_ms(&mut self, last_database: u64, open_db: bool,
        Ghost(pos0): Ghost<int>, Ghost(body): Ghost<Seq<EventV>>)
        -> (r: RdbResult<Ghost<Seq<EventV>>>)
        requires
            old(self).wf(),
            0 <= pos0 < old(self).bytes().len(),
            old(self).bytes()[pos0] == OP_EXPIRETIME_MS,
            old(self).pos() == pos0 + 1,
            old(self).evs() == seq![EventV::StartRdb] + body,
            is_body(body),
            loop_continues(old(self).bytes(), pos0, old(self).spec_filter(),
                last_database, open_db, old(self).latch(), body),
        ensures
            final(self).wf(),
            final(self).bytes() == old(self).bytes(),
            final(self).spec_filter() == old(self).spec_filter(),
            r matches Ok(b2) ==> final(self).pos() > pos0
                && final(self).evs() == seq![EventV::StartRdb] + b2@
                && is_body(b2@)
                && loop_continues(final(self).bytes(), final(self).pos(),
                    final(self).spec_filter(), last_database, open_db,
                    final(self).latch(), b2@),
            r matches Err(e) ==> e is MalformedInput
                && body_events(old(self).bytes(), 9, old(self).spec_filter(), 0, false,
                    None) is None,
    {
        let ghost s = self.input.bytes();
        let ghost f0 = self.filter;
        let ghost latch0 = self.last_expiretime;
        let expiretime_ms = match self.input.read_le_u64() {
            Ok(t) => t,
            Err(e) => {
                proof {
                    assert(body_events(s, pos0, f0, last_database, open_db, latch0)
                        is None);
                }
                return Err(e);
            },
        };
        self.last_expiretime = Some(expiretime_ms);
        proof {
            assert(body_events(s, pos0, f0, last_database, open_db, latch0)
                == body_events(s, pos0 + 9, f0, last_database, open_db,
                    Some(expiretime_ms)));
            lemma_continue_same(s, pos0, pos0 + 9, f0, last_database, open_db, latch0,
                last_database, open_db, Some(expiretime_ms), body);
        }
        Ok(Ghost(body))
    }

    /// Handles a second-resolution expire opcode: latches the value
    /// scaled to milliseconds.
    #[verifier::rlimit(100)]
    #[verifier::spinoff_prover]
    fn op_expiretime(&mut self, last_database: u64, open_db: bool,
        Ghost(pos0): Ghost<int>, Ghost(body): Ghost<Seq<EventV>>)
        -> (r: RdbResult<Ghost<Seq<EventV>>>)
        requires
            old(self).wf(),
            0 <= pos0 < old(self).bytes().len(),
            old(self).bytes()[pos0] == OP_EXPIRETIME,
            old(self).pos() == pos0 + 1,
            old(self).evs() == seq![EventV::StartRdb] + body,
            is_body(body),
            loop_continues(old(self).bytes(), pos0, old(self).spec_filter(),
                last_database, open_db, old(self).latch(), body),
        ensures
            final(self).wf(),
            final(self).bytes() == old(self).bytes(),
            final(self).spec_filter() == old(self).spec_filter(),
            r matches Ok(b2) ==> final(self).pos() > pos0
                && final(self).evs() == seq![EventV::StartRdb] + b2@
                && is_body(b2@)
                && loop_continues(final(self).bytes(), final(self).pos(),
                    final(self).spec_filter(), last_database, open_db,
                    final(self).latch(), b2@),
            r matches Err(e) ==> e is MalformedInput
                && body_events(old(self).bytes(), 9, old(self).spec_filter(), 0, false,
                    None) is None,
    {
        let ghost s = self.input.bytes();
        let ghost f0 = self.filter;
        let ghost latch0 = self.last_expiretime;
        let expiretime = match self.input.read_be_u32() {
            Ok(t) => t,
            Err(e) => {
                proof {
                    assert(body_events(s, pos0, f0, last_database, open_db, latch0)
                        is None);
                }
                return Err(e);
            },
        };
        let expiretime_ms = expiretime as u64 * 1000;
        self.last_expiretime = Some(expiretime_ms);
        proof {
            assert(body_events(s, pos0, f0, last_database, open_db, latch0)
                == body_events(s, pos0 + 5, f0, last_database, open_db,
                    Some(expiretime_ms)));
            lemma_continue_same(s, pos0, pos0 + 5, f0, last_database, open_db, latch0,
                last_database, open_db, Some(expiretime_ms), body);
        }
        Ok(Ghost(body))
    }

    /// Handles a resize opcode: two lengths forwarded as one event.
    #[verifier::rlimit(100)]
    #[verifier::spinoff_prover]
    fn op_resizedb(&mut self, last_database: u64, open_db: bool, Ghost(pos0): Ghost<int>,
        Ghost(body): Ghost<Seq<EventV>>) -> (r: RdbResult<Ghost<Seq<EventV>>>)
        requires
            old(self).wf(),
            0 <= pos0 < old(self).bytes().len(),
            old(self).bytes()[pos0] == OP_RESIZEDB,
            old(self).pos() == pos0 + 1,
            old(self).evs() == seq![EventV::StartRdb] + body,
            is_body(body),
            loop_continues(old(self).bytes(), pos0, old(self).spec_filter(),
                last_database, open_db, old(self).latch(), body),
        ensures
            final(self).wf(),
            final(self).bytes() == old(self).bytes(),
            final(self).spec_filter() == old(self).spec_filter(),
            final(self).latch() == old(self).latch(),
            r matches Ok(b2) ==> final(self).pos() > pos0
                && final(self).evs() == seq![EventV::StartRdb] + b2@
                && is_body(b2@)
                && loop_continues(final(self).bytes(), final(self).pos(),
                    final(self).spec_filter(), last_database, open_db,
                    final(self).latch(), b2@),
            r matches Err(e) ==> e is MalformedInput
                && body_events(old(self).bytes(), 9, old(self).spec_filter(), 0, false,
                    None) is None,
    {
        let ghost s = self.input.bytes();
        let ghost f0 = self.filter;
        let ghost latch0 = self.last_expiretime;
        let ghost body0 = body;
        let ghost mut body = body;
        let db_size = match read_length(&mut self.input) {
            Ok(d) => d,
            Err(e) => {
                proof {
                    assert(body_events(s, pos0, f0, last_database, open_db, latch0)
                        is None);
                }
                return Err(e);
            },
        };
        let expires_size = match read_length(&mut self.input) {
            Ok(d) => d,
            Err(e) => {
                proof {
                    assert(body_events(s, pos0, f0, last_database, open_db, latch0)
                        is None);
                }
                return Err(e);
            },
        };
        let ghost newpos = self.input.pos();
        let ev = Event::ResizeDb(db_size, expires_size);
        let ghost evv = ev@;
        push_ev(&mut self.events, ev);
        proof {
            lemma_push_single(seq![EventV::StartRdb], body, evv);
            body = body + seq![evv];
            assert(body_events(s, pos0, f0, last_database, open_db, latch0)
                == match body_events(s, newpos, f0, last_database, open_db, latch0) {
                    None => None::<Seq<EventV>>,
                    Some(rest) => Some(seq![evv] + rest),
                });
            lemma_continue_step(s, pos0, newpos, f0, last_database, open_db, latch0,
                last_database, open_db, latch0, body0, seq![evv]);
            assert(body0 + seq![evv] =~= body);
        }
        Ok(Ghost(body))
    }

    /// Handles a metadata opcode: two blobs forwarded as one event.
    #[verifier::rlimit(100)]
    #[verifier::spinoff_prover]
    fn op_aux(&mut self, last_database: u64, open_db: bool, Ghost(pos0): Ghost<int>,
        Ghost(body): Ghost<Seq<EventV>>) -> (r: RdbResult<Ghost<Seq<EventV>>>)
        requires
            old(self).wf(),
            0 <= pos0 < old(self).bytes().len(),
            old(self).bytes()[pos0] == OP_AUX,
            old(self).pos() == pos0 + 1,
            old(self).evs() == seq![EventV::StartRdb] + body,
            is_body(body),
            loop_continues(old(self).bytes(), pos0, old(self).spec_filter(),
                last_database, open_db, old(self).latch(), body),
        ensures
            final(self).wf(),
            final(self).bytes() == old(self).bytes(),
            final(self).spec_filter() == old(self).spec_filter(),
            final(self).latch() == old(self).latch(),
            r matches Ok(b2) ==> final(self).pos() > pos0
                && final(self).evs() == seq![EventV::StartRdb] + b2@
                && is_body(b2@)
                && loop_continues(final(self).bytes(), final(self).pos(),
                    final(self).spec_filter(), last_database, open_db,
                    final(self).latch(), b2@),
            r matches Err(e) ==> e is MalformedInput
                && body_events(old(self).bytes(), 9, old(self).spec_filter(), 0, false,
                    None) is None,
    {
        let ghost s = self.input.bytes();
        let ghost f0 = self.filter;
        let ghost latch0 = self.last_expiretime;
        let ghost body0 = body;
        let ghost mut body = body;
        let ghost apos = self.input.pos();
        let auxkey = match read_blob(&mut self.input) {
            Ok(v) => v,
            Err(e) => {
                proof {
                    assert(body_events(s, pos0, f0, last_database, open_db, latch0)
                        is None);
                }
                return Err(e);
            },
        };
        let auxval = match read_blob(&mut self.input) {
            Ok(v) => v,
            Err(e) => {
                proof {
                    assert(body_events(s, pos0, f0, last_database, open_db, latch0)
                        is None);
                }
                return Err(e);
            },
        };
        let ghost newpos = self.input.pos();
        let ev = Event::AuxField(auxkey, auxval);
        let ghost evv = ev@;
        push_ev(&mut self.events, ev);
        proof {
            crate::model::lemma_blob_at_ge(s, apos);
            lemma_push_single(seq![EventV::StartRdb], body, evv);
            body = body + seq![evv];
            assert(body_events(s, pos0, f0, last_database, open_db, latch0)
                == match body_events(s, newpos, f0, last_database, open_db, latch0) {
                    None => None::<Seq<EventV>>,
                    Some(rest) => Some(seq![evv] + rest),
                });
            lemma_continue_step(s, pos0, newpos, f0, last_database, open_db, latch0,
                last_database, open_db, latch0, body0, seq![evv]);
            assert(body0 + seq![evv] =~= body);
        }
        Ok(Ghost(body))
    }

    /// Handles one key record: reads the key, consults the filter,
    /// decodes or skip-consumes the record byte-exactly, and clears the
    /// expiry latch either way.
    #[verifier::rlimit(100)]
    #[verifier::spinoff_prover]
    fn op_key_record(&mut self, next_op: u8, last_database: u64, open_db: bool,
        Ghost(pos0): Ghost<int>, Ghost(body): Ghost<Seq<EventV>>)
        -> (r: RdbResult<Ghost<Seq<EventV>>>)
        requires
            old(self).wf(),
            0 <= pos0 < old(self).bytes().len(),
            old(self).bytes()[pos0] == next_op,
            next_op != OP_SELECTDB,
            next_op != OP_EOF,
            next_op != OP_EXPIRETIME_MS,
            next_op != OP_EXPIRETIME,
            next_op != OP_RESIZEDB,
            next_op != OP_AUX,
            old(self).pos() == pos0 + 1,
            old(self).evs() == seq![EventV::StartRdb] + body,
            is_body(body),
            loop_continues(old(self).bytes(), pos0, old(self).spec_filter(),
                last_database, open_db, old(self).latch(), body),
        ensures
            final(self).wf(),
            final(self).bytes() == old(self).bytes(),
            final(self).spec_filter() == old(self).spec_filter(),
            final(self).latch() is None,
            r matches Ok(b2) ==> final(self).pos() > pos0
                && final(self).evs() == seq![EventV::StartRdb] + b2@
                && is_body(b2@)
                && loop_continues(final(self).bytes(), final(self).pos(),
                    final(self).spec_filter(), last_database, open_db,
                    final(self).latch(), b2@),
            r matches Err(e) ==> (e is MalformedInput || e is Unsupported)
                && body_events(old(self).bytes(), 9, old(self).spec_filter(), 0, false,
                    None) is None,
    {
        let ghost s = self.input.bytes();
        let ghost f0 = self.filter;
        let ghost latch0 = self.last_expiretime;
        let ghost body0 = body;
        let ghost mut body = body;
        if self.filter.matches_db(last_database) {
            let ghost kpos = self.input.pos();
            let key = match read_blob(&mut self.input) {
                Ok(v) => v,
                Err(e) => {
                    self.last_expiretime = None;
                    proof {
                        assert(body_events(s, pos0, f0, last_database, open_db, latch0)
                            is None);
                    }
                    return Err(e);
                },
            };
            proof {
                crate::model::lemma_blob_at_ge(s, kpos);
            }
            if self.filter.matches_type(next_op) && self.filter.matches_key(
                key.as_slice()) {
                let ghost rpos = self.input.pos();
                match self.read_type(&key, next_op) {
                    Ok(_) => {},
                    Err(e) => {
                        self.last_expiretime = None;
                        proof {
                            assert(record_events(s, rpos, next_op, key@, latch0)
                                is None);
                            assert(body_events(s, pos0, f0, last_database, open_db,
                                latch0) is None);
                        }
                        return Err(e);
                    },
                }
                self.last_expiretime = None;
                proof {
                    lemma_record_end_ge(s, rpos, next_op, key@, latch0);
                    let newpos = self.input.pos();
                    match record_events(s, rpos, next_op, key@, latch0) {
                        Some(pr) => {
                            lemma_record_is_block(s, rpos, next_op, key@, latch0);
                            lemma_body_append(body, pr.0);
                            assert((seq![EventV::StartRdb] + body) + pr.0
                                =~= seq![EventV::StartRdb] + (body + pr.0));
                            body = body + pr.0;
                            assert(body_events(s, pos0, f0, last_database, open_db,
                                latch0)
                                == match body_events(s, newpos, f0, last_database,
                                    open_db, None) {
                                    None => None::<Seq<EventV>>,
                                    Some(rest) => Some(pr.0 + rest),
                                });
                            lemma_continue_step(s, pos0, newpos, f0, last_database,
                                open_db, latch0, last_database, open_db, None, body0,
                                pr.0);
                        },
                        None => {
                            assert(false);
                        },
                    }
                }
            } else {
                let ghost rpos = self.input.pos();
                match self.skip_object(next_op) {
                    Ok(_) => {},
                    Err(e) => {
                        self.last_expiretime = None;
                        proof {
                            assert(object_end(s, rpos, next_op) is None);
                            assert(body_events(s, pos0, f0, last_database, open_db,
                                latch0) is None);
                        }
                        return Err(e);
                    },
                }
                self.last_expiretime = None;
                proof {
                    lemma_object_end_ge(s, rpos, next_op);
                    let newpos = self.input.pos();
                    assert(body_events(s, pos0, f0, last_database, open_db, latch0)
                        == body_events(s, newpos, f0, last_database, open_db, None));
                    lemma_continue_same(s, pos0, newpos, f0, last_database, open_db,
                        latch0, last_database, open_db, None, body);
                }
            }
        } else {
            let ghost rpos = self.input.pos();
            match self.skip_key_and_object(next_op) {
                Ok(_) => {},
                Err(e) => {
                    self.last_expiretime = None;
                    proof {
                        assert(body_events(s, pos0, f0, last_database, open_db, latch0)
                            is None);
                    }
                    return Err(e);
                },
            }
            self.last_expiretime = None;
            proof {
                lemma_blob_end_ge(s, rpos);
                match blob_end(s, rpos) {
                    Some(j2) => {
                        lemma_object_end_ge(s, j2, next_op);
                    },
                    None => {
                        assert(false);
                    },
                }
                let newpos = self.input.pos();
                assert(body_events(s, pos0, f0, last_database, open_db, latch0)
                    == body_events(s, newpos, f0, last_database, open_db, None));
                lemma_continue_same(s, pos0, newpos, f0, last_database, open_db, latch0,
                    last_database, open_db, None, body);
            }
        }
        Ok(Ghost(body))
    }

    /// Reads a length-prefixed run of blobs as a list or a set.
    #[verifier::rlimit(60)]
    fn read_linked_list(&mut self, key: &Vec<u8>, t: u8) -> (r: RdbResult<()>)
        requires
            old(self).wf(),
            t == TYPE_LIST || t == TYPE_SET,
        ensures
            Self::record_step(*old(self), *final(self), r, t, key@),
    {
        let ghost s = self.input.bytes();
        let ghost i0 = self.input.pos();
        let ghost pre_evs = self.events.deep_view();
        let ghost exp = self.last_expiretime;
        let ghost f0 = self.filter;
        let n = match read_length(&mut self.input) {
            Ok(n) => n,
            Err(e) => {
                return Err(e);
            },
        };
        let ghost j = self.input.pos();
        let start = if t == TYPE_LIST {
            Event::StartList(dup(key), n, self.last_expiretime, EncodingType::LinkedList)
        } else {
            Event::StartSet(dup(key), n, self.last_expiretime, EncodingType::Hashtable)
        };
        let ghost start_v = start@;
        push_ev(&mut self.events, start);
        let ghost ec = |v: Seq<u8>| if t == TYPE_LIST {
            EventV::ListElement(key@, v)
        } else {
            EventV::SetElement(key@, v)
        };
        let mut k: u64 = 0;
        let ghost mut done: Seq<Seq<u8>> = Seq::empty();
        while k < n
            invariant
                self.input.wf(),
                self.input.bytes() == s,
                self.filter == f0,
                self.last_expiretime == exp,
                k <= n,
                t == TYPE_LIST || t == TYPE_SET,
                len_at(s, i0) matches Some(p) && p.0 == n as nat && p.2 == j,
                old(self).bytes() == s,
                old(self).pos() == i0,
                old(self).evs() == pre_evs,
                old(self).latch() == exp,
                old(self).spec_filter() == f0,
                forall|v: Seq<u8>| #[trigger] ec(v) == if t == TYPE_LIST {
                    EventV::ListElement(key@, v)
                } else {
                    EventV::SetElement(key@, v)
                },
                done.len() == k,
                self.events.deep_view() == pre_evs.push(start_v) + done.map_values(ec),
                blobs_at(s, self.input.pos(), (n - k) as nat) matches Some(p)
                    ==> blobs_at(s, j, n as nat) == Some((done + p.0, p.1)),
                blobs_at(s, self.input.pos(), (n - k) as nat) is None
                    ==> blobs_at(s, j, n as nat) is None,
            decreases n - k,
        {
            let ghost cur = self.input.pos();
            let blob = match read_blob(&mut self.input) {
                Ok(b) => b,
                Err(e) => {
                    proof {
                        assert(blobs_at(s, cur, (n - k) as nat) is None);
                    }
                    return Err(e);
                },
            };
            let ghost v = blob@;
            let el = if t == TYPE_LIST {
                Event::ListElement(dup(key), blob)
            } else {
                Event::SetElement(dup(key), blob)
            };
            let ghost elv = el@;
            push_ev(&mut self.events, el);
            proof {
                let sub = (n - k) as nat;
                let newpos = self.input.pos();
                assert(blob_at(s, cur) == Some((v, newpos)));
                match blobs_at(s, newpos, (sub - 1) as nat) {
                    Some(p2) => {
                        assert(blobs_at(s, cur, sub) == Some((seq![v] + p2.0, p2.1)));
                        assert(done + (seq![v] + p2.0) =~= done.push(v) + p2.0);
                    },
                    None => {
                        assert(blobs_at(s, cur, sub) is None);
                    },
                }
                assert(elv == ec(v));
                assert(done.push(v).map_values(ec) =~= done.map_values(ec).push(ec(v)));
                assert((pre_evs.push(start_v) + done.map_values(ec)).push(elv)
                    =~= pre_evs.push(start_v) + done.map_values(ec).push(ec(v)));
                done = done.push(v);
            }
            k = k + 1;
        }
        let endev = if t == TYPE_LIST {
            Event::EndList(dup(key))
        } else {
            Event::EndSet(dup(key))
        };
        let ghost end_v = endev@;
        push_ev(&mut self.events, endev);
        proof {
            let e = self.input.pos();
            assert(blobs_at(s, e, 0) == Some((Seq::<Seq<u8>>::empty(), e)));
            assert(done + Seq::<Seq<u8>>::empty() =~= done);
            assert(blobs_at(s, j, n as nat) == Some((done, e)));
            if t == TYPE_LIST {
                assert(done.map_values(ec)
                    =~= done.map_values(|v: Seq<u8>| EventV::ListElement(key@, v)));
                assert((pre_evs.push(start_v) + done.map_values(ec)).push(end_v)
                    =~= pre_evs + (seq![start_v]
                        + done.map_values(|v: Seq<u8>| EventV::ListElement(key@, v))
                        + seq![end_v]));
            } else {
                assert(done.map_values(ec)
                    =~= done.map_values(|v: Seq<u8>| EventV::SetElement(key@, v)));
                assert((pre_evs.push(start_v) + done.map_values(ec)).push(end_v)
                    =~= pre_evs + (seq![start_v]
                        + done.map_values(|v: Seq<u8>| EventV::SetElement(key@, v))
                        + seq![end_v]));
            }
        }
        Ok(())
    }

    /// Reads a length-prefixed run of (member, score) items under either
    /// sorted-set score encoding.
    #[verifier::rlimit(60)]
    fn read_sorted_set(&mut self, key: &Vec<u8>, t: u8) -> (r: RdbResult<()>)
        requires
            old(self).wf(),
            t == TYPE_ZSET || t == TYPE_ZSET_2,
        ensures
            Self::record_step(*old(self), *final(self), r, t, key@),
    {
        let ghost s = self.input.bytes();
        let ghost i0 = self.input.pos();
        let ghost pre_evs = self.events.deep_view();
        let ghost exp = self.last_expiretime;
        let ghost f0 = self.filter;
        let n = match read_length(&mut self.input) {
            Ok(n) => n,
            Err(e) => {
                return Err(e);
            },
        };
        let ghost j = self.input.pos();
        let start = Event::StartSortedSet(dup(key), n, self.last_expiretime,
            EncodingType::Skiplist);
        let ghost start_v = start@;
        push_ev(&mut self.events, start);
        let ghost ec = |it: (Seq<u8>, ScoreV)| EventV::SortedSetElement(key@, it.1, it.0);
        let mut k: u64 = 0;
        let ghost mut done: Seq<(Seq<u8>, ScoreV)> = Seq::empty();
        while k < n
            invariant
                self.input.wf(),
                self.input.bytes() == s,
                self.filter == f0,
                self.last_expiretime == exp,
                k <= n,
                t == TYPE_ZSET || t == TYPE_ZSET_2,
                len_at(s, i0) matches Some(p) && p.0 == n as nat && p.2 == j,
                old(self).bytes() == s,
                old(self).pos() == i0,
                old(self).evs() == pre_evs,
                old(self).latch() == exp,
                old(self).spec_filter() == f0,
                forall|it: (Seq<u8>, ScoreV)| #[trigger] ec(it)
                    == EventV::SortedSetElement(key@, it.1, it.0),
                done.len() == k,
                self.events.deep_view() == pre_evs.push(start_v) + done.map_values(ec),
                sorted_items(s, self.input.pos(), (n - k) as nat, t) matches Some(p)
                    ==> sorted_items(s, j, n as nat, t) == Some((done + p.0, p.1)),
                sorted_items(s, self.input.pos(), (n - k) as nat, t) is None
                    ==> sorted_items(s, j, n as nat, t) is None,
            decreases n - k,
        {
            let ghost cur = self.input.pos();
            let ghost sub = (n - k) as nat;
            let member = match read_blob(&mut self.input) {
                Ok(b) => b,
                Err(e) => {
                    proof {
                        assert(zset_items_at(s, cur, sub) is None);
                        assert(zset2_items_at(s, cur, sub) is None);
                    }
                    return Err(e);
                },
            };
            let ghost mv = member@;
            let ghost mid = self.input.pos();
            let score = if t == TYPE_ZSET {
                match read_score(&mut self.input) {
                    Ok(sc) => sc,
                    Err(e) => {
                        proof {
                            assert(zset_items_at(s, cur, sub) is None);
                        }
                        return Err(e);
                    },
                }
            } else {
                match read_score_bits(&mut self.input) {
                    Ok(sc) => sc,
                    Err(e) => {
                        proof {
                            assert(zset2_items_at(s, cur, sub) is None);
                        }
                        return Err(e);
                    },
                }
            };
            let ghost scv = score@;
            let el = Event::SortedSetElement(dup(key), score, member);
            let ghost elv = el@;
            push_ev(&mut self.events, el);
            proof {
                let newpos = self.input.pos();
                if t == TYPE_ZSET {
                    assert(score_at(s, mid) == Some((scv, newpos)));
                    match zset_items_at(s, newpos, (sub - 1) as nat) {
                        Some(p2) => {
                            assert(zset_items_at(s, cur, sub)
                                == Some((seq![(mv, scv)] + p2.0, p2.1)));
                            assert(done + (seq![(mv, scv)] + p2.0)
                                =~= done.push((mv, scv)) + p2.0);
                        },
                        None => {
                            assert(zset_items_at(s, cur, sub) is None);
                        },
                    }
                } else {
                    assert(newpos == mid + 8);
                    assert(scv == score_of_bits(le_val(s.subrange(mid, mid + 8)) as u64));
                    match zset2_items_at(s, newpos, (sub - 1) as nat) {
                        Some(p2) => {
                            assert(zset2_items_at(s, cur, sub)
                                == Some((seq![(mv, scv)] + p2.0, p2.1)));
                            assert(done + (seq![(mv, scv)] + p2.0)
                                =~= done.push((mv, scv)) + p2.0);
                        },
                        None => {
                            assert(zset2_items_at(s, cur, sub) is None);
                        },
                    }
                }
                assert(elv == ec((mv, scv)));
                assert(done.push((mv, scv)).map_values(ec)
                    =~= done.map_values(ec).push(ec((mv, scv))));
                assert((pre_evs.push(start_v) + done.map_values(ec)).push(elv)
                    =~= pre_evs.push(start_v) + done.map_values(ec).push(ec((mv, scv))));
                done = done.push((mv, scv));
            }
            k = k + 1;
        }
        let endev = Event::EndSortedSet(dup(key));
        let ghost end_v = endev@;
        push_ev(&mut self.events, endev);
        proof {
            let e = self.input.pos();
            assert(zset_items_at(s, e, 0) == Some((Seq::<(Seq<u8>, ScoreV)>::empty(), e)));
            assert(zset2_items_at(s, e, 0) == Some((Seq::<(Seq<u8>, ScoreV)>::empty(), e)));
            assert(done + Seq::<(Seq<u8>, ScoreV)>::empty() =~= done);
            assert(sorted_items(s, j, n as nat, t) == Some((done, e)));
            assert(done.map_values(ec) =~= done.map_values(|it: (Seq<u8>, ScoreV)|
                EventV::SortedSetElement(key@, it.1, it.0)));
            assert((pre_evs.push(start_v) + done.map_values(ec)).push(end_v)
                =~= pre_evs + (seq![start_v]
                    + done.map_values(|it: (Seq<u8>, ScoreV)|
                        EventV::SortedSetElement(key@, it.1, it.0))
                    + seq![end_v]));
        }
        Ok(())
    }

    /// Reads a length-prefixed run of (field, value) blob pairs.
    #[verifier::rlimit(60)]
    fn read_hash(&mut self, key: &Vec<u8>) -> (r: RdbResult<()>)
        requires
            old(self).wf(),
        ensures
            Self::record_step(*old(self), *final(self), r, TYPE_HASH, key@),
    {
        let ghost s = self.input.bytes();
        let ghost i0 = self.input.pos();
        let ghost pre_evs = self.events.deep_view();
        let ghost exp = self.last_expiretime;
        let ghost f0 = self.filter;
        let n = match read_length(&mut self.input) {
            Ok(n) => n,
            Err(e) => {
                return Err(e);
            },
        };
        let ghost j = self.input.pos();
        let start = Event::StartHash(dup(key), n, self.last_expiretime, EncodingType::Hashtable);
        let ghost start_v = start@;
        push_ev(&mut self.events, start);
        let mut k: u64 = 0;
        let ghost mut done: Seq<Seq<u8>> = Seq::empty();
        while k < n
            invariant
                self.input.wf(),
                self.input.bytes() == s,
                self.filter == f0,
                self.last_expiretime == exp,
                k <= n,
                len_at(s, i0) matches Some(p) && p.0 == n as nat && p.2 == j,
                old(self).bytes() == s,
                old(self).pos() == i0,
                old(self).evs() == pre_evs,
                old(self).latch() == exp,
                old(self).spec_filter() == f0,
                done.len() == 2 * k,
                self.events.deep_view() == pre_evs.push(start_v)
                    + Seq::new(k as nat, |m: int| EventV::HashElement(key@, done[2 * m],
                        done[2 * m + 1])),
                blobs_at(s, self.input.pos(), (2 * (n - k)) as nat) matches Some(p)
                    ==> blobs_at(s, j, (2 * n) as nat) == Some((done + p.0, p.1)),
                blobs_at(s, self.input.pos(), (2 * (n - k)) as nat) is None
                    ==> blobs_at(s, j, (2 * n) as nat) is None,
            decreases n - k,
        {
            let ghost cur = self.input.pos();
            let ghost sub = (2 * (n - k)) as nat;
            let field = match read_blob(&mut self.input) {
                Ok(b) => b,
                Err(e) => {
                    proof {
                        assert(blobs_at(s, cur, sub) is None);
                    }
                    return Err(e);
                },
            };
            let ghost fv = field@;
            let ghost mid = self.input.pos();
            let value = match read_blob(&mut self.input) {
                Ok(b) => b,
                Err(e) => {
                    proof {
                        assert(blobs_at(s, mid, (sub - 1) as nat) is None);
                        assert(blobs_at(s, cur, sub) is None);
                    }
                    return Err(e);
                },
            };
            let ghost vv = value@;
            let el = Event::HashElement(dup(key), field, value);
            let ghost elv = el@;
            push_ev(&mut self.events, el);
            proof {
                let newpos = self.input.pos();
                assert(blob_at(s, cur) == Some((fv, mid)));
                assert(blob_at(s, mid) == Some((vv, newpos)));
                match blobs_at(s, newpos, (sub - 2) as nat) {
                    Some(p2) => {
                        assert(blobs_at(s, mid, (sub - 1) as nat)
                            == Some((seq![vv] + p2.0, p2.1)));
                        assert(blobs_at(s, cur, sub)
                            == Some((seq![fv] + (seq![vv] + p2.0), p2.1)));
                        assert(done + (seq![fv] + (seq![vv] + p2.0))
                            =~= done.push(fv).push(vv) + p2.0);
                    },
                    None => {
                        assert(blobs_at(s, mid, (sub - 1) as nat) is None);
                        assert(blobs_at(s, cur, sub) is None);
                    },
                }
                let done2 = done.push(fv).push(vv);
                assert(Seq::new((k + 1) as nat, |m: int| EventV::HashElement(key@,
                    done2[2 * m], done2[2 * m + 1]))
                    =~= Seq::new(k as nat, |m: int| EventV::HashElement(key@, done[2 * m],
                        done[2 * m + 1])).push(elv));
                assert((pre_evs.push(start_v) + Seq::new(k as nat, |m: int|
                    EventV::HashElement(key@, done[2 * m], done[2 * m + 1]))).push(elv)
                    =~= pre_evs.push(start_v) + Seq::new(k as nat, |m: int|
                        EventV::HashElement(key@, done[2 * m], done[2 * m + 1])).push(elv));
                done = done2;
            }
            k = k + 1;
        }
        let endev = Event::EndHash(dup(key));
        let ghost end_v = endev@;
        push_ev(&mut self.events, endev);
        proof {
            let e = self.input.pos();
            assert(blobs_at(s, e, 0) == Some((Seq::<Seq<u8>>::empty(), e)));
            assert(done + Seq::<Seq<u8>>::empty() =~= done);
            assert(blobs_at(s, j, (2 * n) as nat) == Some((done, e)));
            assert((pre_evs.push(start_v) + Seq::new(n as nat, |m: int|
                EventV::HashElement(key@, done[2 * m], done[2 * m + 1]))).push(end_v)
                =~= pre_evs + (seq![start_v] + Seq::new(n as nat, |m: int|
                    EventV::HashElement(key@, done[2 * m], done[2 * m + 1])) + seq![end_v]));
        }
        Ok(())
    }

    /// Reads one ziplist blob and reports its entries as a list, as
    /// sorted-set pairs or as hash pairs, by encoding type.
    #[verifier::rlimit(90)]
    fn read_list_ziplist(&mut self, key: &Vec<u8>, t: u8) -> (r: RdbResult<()>)
        requires
            old(self).wf(),
            t == TYPE_LIST_ZIPLIST || t == TYPE_ZSET_ZIPLIST || t == TYPE_HASH_ZIPLIST,
        ensures
            Self::record_step(*old(self), *final(self), r, t, key@),
    {
        let ghost s = self.input.bytes();
        let ghost i0 = self.input.pos();
        let ghost pre_evs = self.events.deep_view();
        let ghost exp = self.last_expiretime;
        let ghost f0 = self.filter;
        let blob = match read_blob(&mut self.input) {
            Ok(b) => b,
            Err(e) => {
                return Err(e);
            },
        };
        let ghost bv = blob@;
        let ghost eend = self.input.pos();
        let items = match read_ziplist_items(blob) {
            Ok(v) => v,
            Err(e) => {
                return Err(e);
            },
        };
        let ghost itd = items.deep_view();
        if t == TYPE_LIST_ZIPLIST {
            let start = Event::StartList(dup(key), items.len() as u64, self.last_expiretime,
                EncodingType::Ziplist);
            let ghost start_v = start@;
            push_ev(&mut self.events, start);
            let mut idx: usize = 0;
            while idx < items.len()
                invariant
                    self.input.wf(),
                    self.input.bytes() == s,
                    self.filter == f0,
                    self.last_expiretime == exp,
                    self.input.pos() == eend,
                    idx <= items@.len(),
                    itd == items.deep_view(),
                    self.events.deep_view() == pre_evs.push(start_v)
                        + itd.take(idx as int).map_values(|v: Seq<u8>|
                            EventV::ListElement(key@, v)),
                decreases items@.len() - idx,
            {
                let el = Event::ListElement(dup(key), dup(&items[idx]));
                let ghost elv = el@;
                push_ev(&mut self.events, el);
                proof {
                    lemma_item_bytes(&items, idx as int);
                    assert(elv == EventV::ListElement(key@, itd[idx as int]));
                    assert(itd.take(idx + 1) =~= itd.take(idx as int).push(itd[idx as int]));
                    assert(itd.take(idx + 1).map_values(|v: Seq<u8>|
                        EventV::ListElement(key@, v))
                        =~= itd.take(idx as int).map_values(|v: Seq<u8>|
                            EventV::ListElement(key@, v)).push(elv));
                    assert((pre_evs.push(start_v) + itd.take(idx as int).map_values(
                        |v: Seq<u8>| EventV::ListElement(key@, v))).push(elv)
                        =~= pre_evs.push(start_v) + itd.take(idx as int).map_values(
                            |v: Seq<u8>| EventV::ListElement(key@, v)).push(elv));
                }
                idx = idx + 1;
            }
            let endev = Event::EndList(dup(key));
            let ghost end_v = endev@;
            push_ev(&mut self.events, endev);
            proof {
                assert(itd.take(items@.len() as int) =~= itd);
                assert((pre_evs.push(start_v) + itd.map_values(|v: Seq<u8>|
                    EventV::ListElement(key@, v))).push(end_v)
                    =~= pre_evs + (seq![start_v] + itd.map_values(|v: Seq<u8>|
                        EventV::ListElement(key@, v)) + seq![end_v]));
            }
            Ok(())
        } else {
            if items.len() % 2 != 0 {
                return Err(RdbError::MalformedInput(self.input.position()));
            }
            let npairs = items.len() / 2;
            let zset_case = t == TYPE_ZSET_ZIPLIST;
            let start = if zset_case {
                Event::StartSortedSet(dup(key), npairs as u64, self.last_expiretime,
                    EncodingType::Ziplist)
            } else {
                Event::StartHash(dup(key), npairs as u64, self.last_expiretime,
                    EncodingType::Ziplist)
            };
            let ghost start_v = start@;
            push_ev(&mut self.events, start);
            let ghost pe = |m: int| if t == TYPE_ZSET_ZIPLIST {
                EventV::SortedSetElement(key@, ScoreV::Text(itd[2 * m + 1]), itd[2 * m])
            } else {
                EventV::HashElement(key@, itd[2 * m], itd[2 * m + 1])
            };
            let mut m: usize = 0;
            while m < npairs
                invariant
                    self.input.wf(),
                    self.input.bytes() == s,
                    self.filter == f0,
                    self.last_expiretime == exp,
                    self.input.pos() == eend,
                    m <= npairs,
                    npairs == items@.len() / 2,
                    items@.len() <= usize::MAX,
                    items@.len() % 2 == 0,
                    zset_case == (t == TYPE_ZSET_ZIPLIST),
                    t == TYPE_ZSET_ZIPLIST || t == TYPE_HASH_ZIPLIST,
                    itd == items.deep_view(),
                    forall|q: int| #[trigger] pe(q) == if t == TYPE_ZSET_ZIPLIST {
                        EventV::SortedSetElement(key@, ScoreV::Text(itd[2 * q + 1]), itd[2 * q])
                    } else {
                        EventV::HashElement(key@, itd[2 * q], itd[2 * q + 1])
                    },
                    self.events.deep_view() == pre_evs.push(start_v)
                        + Seq::new(m as nat, pe),
                decreases npairs - m,
            {
                let el = if zset_case {
                    Event::SortedSetElement(dup(key), Score::Text(dup(&items[2 * m + 1])),
                        dup(&items[2 * m]))
                } else {
                    Event::HashElement(dup(key), dup(&items[2 * m]), dup(&items[2 * m + 1]))
                };
                let ghost elv = el@;
                push_ev(&mut self.events, el);
                proof {
                    lemma_item_bytes(&items, 2 * m as int);
                    lemma_item_bytes(&items, 2 * m + 1 as int);
                    assert(elv == pe(m as int));
                    assert(Seq::new((m + 1) as nat, pe) =~= Seq::new(m as nat, pe).push(
                        pe(m as int)));
                    assert((pre_evs.push(start_v) + Seq::new(m as nat, pe)).push(elv)
                        =~= pre_evs.push(start_v) + Seq::new(m as nat, pe).push(elv));
                }
                m = m + 1;
            }
            let endev = if zset_case {
                Event::EndSortedSet(dup(key))
            } else {
                Event::EndHash(dup(key))
            };
            let ghost end_v = endev@;
            push_ev(&mut self.events, endev);
            proof {
                if t == TYPE_ZSET_ZIPLIST {
                    assert(Seq::new(npairs as nat, pe) =~= Seq::new(itd.len() / 2, |q: int|
                        EventV::SortedSetElement(key@, ScoreV::Text(itd[2 * q + 1]),
                            itd[2 * q])));
                    assert((pre_evs.push(start_v) + Seq::new(npairs as nat, pe)).push(end_v)
                        =~= pre_evs + (seq![start_v] + Seq::new(itd.len() / 2, |q: int|
                            EventV::SortedSetElement(key@, ScoreV::Text(itd[2 * q + 1]),
                                itd[2 * q])) + seq![end_v]));
                } else {
                    assert(Seq::new(npairs as nat, pe) =~= Seq::new(itd.len() / 2, |q: int|
                        EventV::HashElement(key@, itd[2 * q], itd[2 * q + 1])));
                    assert((pre_evs.push(start_v) + Seq::new(npairs as nat, pe)).push(end_v)
                        =~= pre_evs + (seq![start_v] + Seq::new(itd.len() / 2, |q: int|
                            EventV::HashElement(key@, itd[2 * q], itd[2 * q + 1]))
                            + seq![end_v]));
                }
            }
            Ok(())
        }
    }

    /// Reads one intset blob: element width and count, then the packed
    /// signed integers, reported as decimal text set members.
    #[verifier::rlimit(80)]
    fn read_set_intset(&mut self, key: &Vec<u8>) -> (r: RdbResult<()>)
        requires
            old(self).wf(),
        ensures
            Self::record_step(*old(self), *final(self), r, TYPE_SET_INTSET, key@),
    {
        let ghost s = self.input.bytes();
        let ghost i0 = self.input.pos();
        let ghost pre_evs = self.events.deep_view();
        let ghost exp = self.last_expiretime;
        let ghost f0 = self.filter;
        let blob = match read_blob(&mut self.input) {
            Ok(b) => b,
            Err(e) => {
                return Err(e);
            },
        };
        let ghost bv = blob@;
        let ghost eend = self.input.pos();
        let mut rd = ByteReader::new(blob);
        let w = rd.read_le_u32()?;
        let n = rd.read_le_u32()?;
        if !(w == 2 || w == 4 || w == 8) {
            return Err(RdbError::MalformedInput(self.input.position()));
        }
        let start = Event::StartSet(dup(key), n as u64, self.last_expiretime,
            EncodingType::Intset);
        let ghost start_v = start@;
        push_ev(&mut self.events, start);
        let ghost ec = |v: Seq<u8>| EventV::SetElement(key@, v);
        let mut k: u32 = 0;
        let ghost mut done: Seq<Seq<u8>> = Seq::empty();
        while k < n
            invariant
                self.input.wf(),
                self.input.bytes() == s,
                self.filter == f0,
                self.last_expiretime == exp,
                self.input.pos() == eend,
                rd.wf(),
                rd.bytes() == bv,
                k <= n,
                w == 2 || w == 4 || w == 8,
                old(self).bytes() == s,
                old(self).pos() == i0,
                old(self).evs() == pre_evs,
                old(self).latch() == exp,
                old(self).spec_filter() == f0,
                blob_at(s, i0) == Some((bv, eend)),
                bv.len() >= 8,
                w as nat == le_val(bv.subrange(0, 4)),
                n as nat == le_val(bv.subrange(4, 8)),
                forall|v: Seq<u8>| #[trigger] ec(v) == EventV::SetElement(key@, v),
                start_v == EventV::StartSet(key@, n as u64, exp, EncodingType::Intset),
                done.len() == k,
                self.events.deep_view() == pre_evs.push(start_v) + done.map_values(ec),
                int_texts_at(bv, rd.pos(), w as nat, (n - k) as nat) matches Some(p)
                    ==> int_texts_at(bv, 8, w as nat, n as nat) == Some((done + p.0, p.1)),
                int_texts_at(bv, rd.pos(), w as nat, (n - k) as nat) is None
                    ==> int_texts_at(bv, 8, w as nat, n as nat) is None,
            decreases n - k,
        {
            let ghost cur = rd.pos();
            let ghost sub = (n - k) as nat;
            let text = if w == 2 {
                match rd.read_le_u16() {
                    Ok(v) => small_signed_text(v as u64, 0x10000),
                    Err(e) => {
                        proof {
                            assert(int_texts_at(bv, cur, w as nat, sub) is None);
                        }
                        return Err(e);
                    },
                }
            } else if w == 4 {
                match rd.read_le_u32() {
                    Ok(v) => small_signed_text(v as u64, 0x100000000),
                    Err(e) => {
                        proof {
                            assert(int_texts_at(bv, cur, w as nat, sub) is None);
                        }
                        return Err(e);
                    },
                }
            } else {
                match rd.read_le_u64() {
                    Ok(v) => big_signed_text(v),
                    Err(e) => {
                        proof {
                            assert(int_texts_at(bv, cur, w as nat, sub) is None);
                        }
                        return Err(e);
                    },
                }
            };
            let ghost tv = text@;
            let el = Event::SetElement(dup(key), text);
            let ghost elv = el@;
            push_ev(&mut self.events, el);
            proof {
                assert(tv == dec_text(to_signed(le_val(bv.subrange(cur, cur + w)),
                    width_modulus(w as nat))));
                match int_texts_at(bv, rd.pos(), w as nat, (sub - 1) as nat) {
                    Some(p2) => {
                        assert(int_texts_at(bv, cur, w as nat, sub)
                            == Some((seq![tv] + p2.0, p2.1)));
                        assert(done + (seq![tv] + p2.0) =~= done.push(tv) + p2.0);
                    },
                    None => {
                        assert(int_texts_at(bv, cur, w as nat, sub) is None);
                    },
                }
                assert(elv == ec(tv));
                assert(done.push(tv).map_values(ec) =~= done.map_values(ec).push(ec(tv)));
                assert((pre_evs.push(start_v) + done.map_values(ec)).push(elv)
                    =~= pre_evs.push(start_v) + done.map_values(ec).push(ec(tv)));
                done = done.push(tv);
            }
            k = k + 1;
        }
        let endev = Event::EndSet(dup(key));
        let ghost end_v = endev@;
        push_ev(&mut self.events, endev);
        proof {
            let e = rd.pos();
            assert(int_texts_at(bv, e, w as nat, 0) == Some((Seq::<Seq<u8>>::empty(), e)));
            assert(done + Seq::<Seq<u8>>::empty() =~= done);
            assert(int_texts_at(bv, 8, w as nat, n as nat) == Some((done, e)));
            assert(intset_items(bv) == Some(done));
            assert((pre_evs.push(start_v) + done.map_values(ec)).push(end_v)
                =~= pre_evs + (seq![start_v] + done.map_values(|v: Seq<u8>|
                    EventV::SetElement(key@, v)) + seq![end_v]));
        }
        Ok(())
    }

    /// Reads one zipmap blob: the count hint byte, the pairs (counted or
    /// scanned to the terminator), then reports them as hash elements.
    #[verifier::rlimit(90)]
    fn read_hash_zipmap(&mut self, key: &Vec<u8>) -> (r: RdbResult<()>)
        requires
            old(self).wf(),
        ensures
            Self::record_step(*old(self), *final(self), r, TYPE_HASH_ZIPMAP, key@),
    {
        let ghost s = self.input.bytes();
        let ghost i0 = self.input.pos();
        let ghost pre_evs = self.events.deep_view();
        let ghost exp = self.last_expiretime;
        let ghost f0 = self.filter;
        let blob = match read_blob(&mut self.input) {
            Ok(b) => b,
            Err(e) => {
                return Err(e);
            },
        };
        let ghost bv = blob@;
        let ghost eend = self.input.pos();
        let mut rd = ByteReader::new(blob);
        let zmlen = rd.read_u8()?;
        let mut kvs: Vec<(Vec<u8>, Vec<u8>)> = Vec::new();
        if zmlen <= 254 {
            let mut cnt: u8 = 0;
            while cnt < zmlen
                invariant
                    self.input.wf(),
                    self.input.bytes() == s,
                    self.input.pos() == eend,
                    self.filter == f0,
                    self.last_expiretime == exp,
                    old(self).bytes() == s,
                    old(self).pos() == i0,
                    old(self).evs() == pre_evs,
                    old(self).latch() == exp,
                    old(self).spec_filter() == f0,
                    self.events.deep_view() == pre_evs,
                    blob_at(s, i0) == Some((bv, eend)),
                    rd.wf(),
                    rd.bytes() == bv,
                    cnt <= zmlen,
                    zmlen <= 254,
                    bv.len() >= 1,
                    bv[0] == zmlen,
                    kvs.deep_view().len() == cnt,
                    zm_counted(bv, rd.pos(), (zmlen - cnt) as nat) matches Some(p)
                        ==> zm_counted(bv, 1, zmlen as nat)
                            == Some((kvs.deep_view() + p.0, p.1)),
                    zm_counted(bv, rd.pos(), (zmlen - cnt) as nat) is None
                        ==> zm_counted(bv, 1, zmlen as nat) is None,
                decreases zmlen - cnt,
            {
                let ghost cur = rd.pos();
                let ghost done = kvs.deep_view();
                let ghost sub = (zmlen - cnt) as nat;
                let b1 = match rd.read_u8() {
                    Ok(b) => b,
                    Err(e) => {
                        proof {
                            assert(zm_str_at(bv, cur) is None);
                            assert(zm_counted(bv, cur, sub) is None);
                        }
                        return Err(e);
                    },
                };
                let kb = match read_zipmap_entry(b1, &mut rd) {
                    Ok(v) => v,
                    Err(e) => {
                        proof {
                            assert(zm_counted(bv, cur, sub) is None);
                        }
                        return Err(e);
                    },
                };
                let ghost kv = kb@;
                let ghost mid = rd.pos();
                let vb = match read_zipmap_value(&mut rd) {
                    Ok(v) => v,
                    Err(e) => {
                        proof {
                            assert(zm_pair_at(bv, cur) is None);
                            assert(zm_counted(bv, cur, sub) is None);
                        }
                        return Err(e);
                    },
                };
                let ghost vv = vb@;
                kvs.push((kb, vb));
                proof {
                    assert(kvs.deep_view() =~~= done.push((kv, vv)));
                    assert(zm_pair_at(bv, cur) == Some(((kv, vv), rd.pos())));
                    match zm_counted(bv, rd.pos(), (sub - 1) as nat) {
                        Some(p2) => {
                            assert(zm_counted(bv, cur, sub)
                                == Some((seq![(kv, vv)] + p2.0, p2.1)));
                            assert(done + (seq![(kv, vv)] + p2.0)
                                =~= done.push((kv, vv)) + p2.0);
                        },
                        None => {
                            assert(zm_counted(bv, cur, sub) is None);
                        },
                    }
                }
                cnt = cnt + 1;
            }
            let ghost cur = rd.pos();
            let term = rd.read_u8()?;
            if term != 255 {
                proof {
                    assert(zm_counted(bv, cur, 0) is None);
                }
                return Err(RdbError::MalformedInput(rd.position()));
            }
            proof {
                assert(zm_counted(bv, cur, 0) == Some((Seq::<(Seq<u8>, Seq<u8>)>::empty(),
                    cur + 1)));
                assert(kvs.deep_view() + Seq::<(Seq<u8>, Seq<u8>)>::empty()
                    =~= kvs.deep_view());
                assert(zm_counted(bv, 1, zmlen as nat) == Some((kvs.deep_view(), cur + 1)));
                assert(zipmap_items(bv) == Some(kvs.deep_view()));
            }
        } else {
            let mut fin: bool = false;
            while !fin
                invariant
                    self.input.wf(),
                    self.input.bytes() == s,
                    self.input.pos() == eend,
                    self.filter == f0,
                    self.last_expiretime == exp,
                    old(self).bytes() == s,
                    old(self).pos() == i0,
                    old(self).evs() == pre_evs,
                    old(self).latch() == exp,
                    old(self).spec_filter() == f0,
                    self.events.deep_view() == pre_evs,
                    blob_at(s, i0) == Some((bv, eend)),
                    rd.wf(),
                    rd.bytes() == bv,
                    bv.len() >= 1,
                    bv[0] == zmlen,
                    zmlen > 254,
                    !fin ==> (zm_scan(bv, rd.pos()) matches Some(p)
                        ==> zm_scan(bv, 1) == Some((kvs.deep_view() + p.0, p.1))),
                    !fin ==> (zm_scan(bv, rd.pos()) is None ==> zm_scan(bv, 1) is None),
                    fin ==> (zm_scan(bv, 1) matches Some(p) && p.0 == kvs.deep_view()),
                decreases bv.len() - rd.pos() + (if fin { 0int } else { 1int }),
            {
                let ghost cur = rd.pos();
                let ghost done = kvs.deep_view();
                let b1 = match rd.read_u8() {
                    Ok(b) => b,
                    Err(e) => {
                        proof {
                            assert(zm_scan(bv, cur) is None);
                        }
                        return Err(e);
                    },
                };
                if b1 == 255 {
                    proof {
                        assert(zm_scan(bv, cur) == Some((Seq::<(Seq<u8>, Seq<u8>)>::empty(),
                            cur + 1)));
                        assert(done + Seq::<(Seq<u8>, Seq<u8>)>::empty() =~= done);
                    }
                    fin = true;
                } else {
                    let kb = match read_zipmap_entry(b1, &mut rd) {
                        Ok(v) => v,
                        Err(e) => {
                            proof {
                                assert(zm_pair_at(bv, cur) is None);
                                assert(zm_scan(bv, cur) is None);
                            }
                            return Err(e);
                        },
                    };
                    let ghost kv = kb@;
                    let vb = match read_zipmap_value(&mut rd) {
                        Ok(v) => v,
                        Err(e) => {
                            proof {
                                assert(zm_pair_at(bv, cur) is None);
                                assert(zm_scan(bv, cur) is None);
                            }
                            return Err(e);
                        },
                    };
                    let ghost vv = vb@;
                    kvs.push((kb, vb));
                    proof {
                        assert(kvs.deep_view() =~~= done.push((kv, vv)));
                        assert(zm_pair_at(bv, cur) == Some(((kv, vv), rd.pos())));
                        match zm_scan(bv, rd.pos()) {
                            Some(p2) => {
                                assert(zm_scan(bv, cur)
                                    == Some((seq![(kv, vv)] + p2.0, p2.1)));
                                assert(done + (seq![(kv, vv)] + p2.0)
                                    =~= done.push((kv, vv)) + p2.0);
                            },
                            None => {
                                assert(zm_scan(bv, cur) is None);
                            },
                        }
                    }
                }
            }
            proof {
                assert(zipmap_items(bv) == Some(kvs.deep_view()));
            }
        }
        let ghost kvsd = kvs.deep_view();
        let start = Event::StartHash(dup(key), kvs.len() as u64, self.last_expiretime,
            EncodingType::Zipmap);
        let ghost start_v = start@;
        push_ev(&mut self.events, start);
        let ghost pe = |kv: (Seq<u8>, Seq<u8>)| EventV::HashElement(key@, kv.0, kv.1);
        let mut m: usize = 0;
        while m < kvs.len()
            invariant
                self.input.wf(),
                self.input.bytes() == s,
                self.filter == f0,
                self.last_expiretime == exp,
                self.input.pos() == eend,
                m <= kvs@.len(),
                kvsd == kvs.deep_view(),
                forall|kv: (Seq<u8>, Seq<u8>)| #[trigger] pe(kv)
                    == EventV::HashElement(key@, kv.0, kv.1),
                self.events.deep_view() == pre_evs.push(start_v)
                    + kvsd.take(m as int).map_values(pe),
            decreases kvs@.len() - m,
        {
            let el = Event::HashElement(dup(key), dup(&kvs[m].0), dup(&kvs[m].1));
            let ghost elv = el@;
            push_ev(&mut self.events, el);
            proof {
                assert(kvsd[m as int].0 =~= kvs@[m as int].0@);
                assert(kvsd[m as int].1 =~= kvs@[m as int].1@);
                assert(elv == pe(kvsd[m as int]));
                assert(kvsd.take(m + 1) =~= kvsd.take(m as int).push(kvsd[m as int]));
                assert(kvsd.take(m + 1).map_values(pe)
                    =~= kvsd.take(m as int).map_values(pe).push(elv));
                assert((pre_evs.push(start_v) + kvsd.take(m as int).map_values(pe)).push(elv)
                    =~= pre_evs.push(start_v) + kvsd.take(m as int).map_values(pe).push(elv));
            }
            m = m + 1;
        }
        let endev = Event::EndHash(dup(key));
        let ghost end_v = endev@;
        push_ev(&mut self.events, endev);
        proof {
            assert(kvsd.take(kvs@.len() as int) =~= kvsd);
            assert(kvsd.map_values(pe) =~= kvsd.map_values(|kv: (Seq<u8>, Seq<u8>)|
                EventV::HashElement(key@, kv.0, kv.1)));
            assert((pre_evs.push(start_v) + kvsd.map_values(pe)).push(end_v)
                =~= pre_evs + (seq![start_v] + kvsd.map_values(|kv: (Seq<u8>, Seq<u8>)|
                    EventV::HashElement(key@, kv.0, kv.1)) + seq![end_v]));
        }
        Ok(())
    }

    /// Reads a quicklist: a length-prefixed run of ziplist blobs whose
    /// entries concatenate into one list.
    #[verifier::rlimit(90)]
    fn read_quicklist(&mut self, key: &Vec<u8>) -> (r: RdbResult<()>)
        requires
            old(self).wf(),
        ensures
            Self::record_step(*old(self), *final(self), r, TYPE_LIST_QUICKLIST, key@),
    {
        let ghost s = self.input.bytes();
        let ghost i0 = self.input.pos();
        let ghost pre_evs = self.events.deep_view();
        let ghost exp = self.last_expiretime;
        let ghost f0 = self.filter;
        let n = match read_length(&mut self.input) {
            Ok(n) => n,
            Err(e) => {
                return Err(e);
            },
        };
        let ghost j = self.input.pos();
        let start = Event::StartList(dup(key), 0, self.last_expiretime,
            EncodingType::Quicklist);
        let ghost start_v = start@;
        push_ev(&mut self.events, start);
        let ghost ec = |v: Seq<u8>| EventV::ListElement(key@, v);
        let mut k: u64 = 0;
        let ghost mut done: Seq<Seq<u8>> = Seq::empty();
        while k < n
            invariant
                self.input.wf(),
                self.input.bytes() == s,
                self.filter == f0,
                self.last_expiretime == exp,
                k <= n,
                len_at(s, i0) matches Some(p) && p.0 == n as nat && p.2 == j,
                old(self).bytes() == s,
                old(self).pos() == i0,
                old(self).evs() == pre_evs,
                old(self).latch() == exp,
                old(self).spec_filter() == f0,
                forall|v: Seq<u8>| #[trigger] ec(v) == EventV::ListElement(key@, v),
                start_v == EventV::StartList(key@, 0, exp, EncodingType::Quicklist),
                self.events.deep_view() == pre_evs.push(start_v) + done.map_values(ec),
                ql_items(s, self.input.pos(), (n - k) as nat) matches Some(p)
                    ==> ql_items(s, j, n as nat) == Some((done + p.0, p.1)),
                ql_items(s, self.input.pos(), (n - k) as nat) is None
                    ==> ql_items(s, j, n as nat) is None,
            decreases n - k,
        {
            let ghost cur = self.input.pos();
            let ghost sub = (n - k) as nat;
            let blob = match read_blob(&mut self.input) {
                Ok(b) => b,
                Err(e) => {
                    proof {
                        assert(ql_items(s, cur, sub) is None);
                    }
                    return Err(e);
                },
            };
            let ghost cbv = blob@;
            let ghost mid = self.input.pos();
            let items = match read_ziplist_items(blob) {
                Ok(v) => v,
                Err(e) => {
                    proof {
                        assert(ql_items(s, cur, sub) is None);
                    }
                    return Err(e);
                },
            };
            let ghost itd = items.deep_view();
            let mut idx: usize = 0;
            while idx < items.len()
                invariant
                    self.input.wf(),
                    self.input.bytes() == s,
                    self.filter == f0,
                    self.last_expiretime == exp,
                    self.input.pos() == mid,
                    idx <= items@.len(),
                    itd == items.deep_view(),
                    forall|v: Seq<u8>| #[trigger] ec(v) == EventV::ListElement(key@, v),
                    self.events.deep_view() == pre_evs.push(start_v)
                        + done.map_values(ec) + itd.take(idx as int).map_values(ec),
                decreases items@.len() - idx,
            {
                let el = Event::ListElement(dup(key), dup(&items[idx]));
                let ghost elv = el@;
                push_ev(&mut self.events, el);
                proof {
                    lemma_item_bytes(&items, idx as int);
                    assert(elv == ec(itd[idx as int]));
                    assert(itd.take(idx + 1) =~= itd.take(idx as int).push(itd[idx as int]));
                    assert(itd.take(idx + 1).map_values(ec)
                        =~= itd.take(idx as int).map_values(ec).push(elv));
                    assert((pre_evs.push(start_v) + done.map_values(ec)
                        + itd.take(idx as int).map_values(ec)).push(elv)
                        =~= pre_evs.push(start_v) + done.map_values(ec)
                            + itd.take(idx as int).map_values(ec).push(elv));
                }
                idx = idx + 1;
            }
            proof {
                assert(itd.take(items@.len() as int) =~= itd);
                assert(zl_items(cbv) == Some(itd));
                match ql_items(s, mid, (sub - 1) as nat) {
                    Some(p2) => {
                        assert(ql_items(s, cur, sub) == Some((itd + p2.0, p2.1)));
                        assert(done + (itd + p2.0) =~= (done + itd) + p2.0);
                    },
                    None => {
                        assert(ql_items(s, cur, sub) is None);
                    },
                }
                assert((done + itd).map_values(ec) =~= done.map_values(ec)
                    + itd.map_values(ec));
                done = done + itd;
            }
            k = k + 1;
        }
        let endev = Event::EndList(dup(key));
        let ghost end_v = endev@;
        push_ev(&mut self.events, endev);
        proof {
            let e = self.input.pos();
            assert(ql_items(s, e, 0) == Some((Seq::<Seq<u8>>::empty(), e)));
            assert(done + Seq::<Seq<u8>>::empty() =~= done);
            assert(ql_items(s, j, n as nat) == Some((done, e)));
            assert((pre_evs.push(start_v) + done.map_values(ec)).push(end_v)
                =~= pre_evs + (seq![start_v] + done.map_values(|v: Seq<u8>|
                    EventV::ListElement(key@, v)) + seq![end_v]));
        }
        Ok(())
    }

    /// Dispatches one key record by its encoding-type byte.
    fn read_type(&mut self, key: &Vec<u8>, value_type: u8) -> (r: RdbResult<()>)
        requires
            old(self).wf(),
        ensures
            Self::record_step(*old(self), *final(self), r, value_type, key@),
    {
        match value_type {
            TYPE_STRING => {
                let ghost pre_evs = self.events.deep_view();
                let val = read_blob(&mut self.input)?;
                let ev = Event::SetString(dup(key), val, self.last_expiretime);
                let ghost evv = ev@;
                push_ev(&mut self.events, ev);
                proof {
                    assert(pre_evs.push(evv) =~= pre_evs + seq![evv]);
                }
                Ok(())
            },
            TYPE_LIST | TYPE_SET => self.read_linked_list(key, value_type),
            TYPE_ZSET | TYPE_ZSET_2 => self.read_sorted_set(key, value_type),
            TYPE_HASH => self.read_hash(key),
            TYPE_HASH_ZIPMAP => self.read_hash_zipmap(key),
            TYPE_LIST_ZIPLIST | TYPE_ZSET_ZIPLIST | TYPE_HASH_ZIPLIST => {
                self.read_list_ziplist(key, value_type)
            },
            TYPE_SET_INTSET => self.read_set_intset(key),
            TYPE_LIST_QUICKLIST => self.read_quicklist(key),
            TYPE_MODULE | TYPE_MODULE_2 => Err(RdbError::Unsupported(value_type)),
            _ => Err(RdbError::MalformedInput(self.input.position())),
        }
    }

    /// Advances past `skip_bytes` raw bytes.
    fn skip(&mut self, skip_bytes: usize) -> (r: RdbResult<()>)
        requires
            old(self).wf(),
        ensures
            final(self).wf(),
            final(self).bytes() == old(self).bytes(),
            final(self).spec_filter() == old(self).spec_filter(),
            final(self).latch() == old(self).latch(),
            final(self).evs() == old(self).evs(),
            r is Ok <==> old(self).pos() + skip_bytes <= old(self).bytes().len(),
            r is Ok ==> final(self).pos() == old(self).pos() + skip_bytes,
            r matches Err(e) ==> e is MalformedInput,
    {
        self.input.skip_bytes(skip_bytes)
    }

    /// Advances past one blob without decoding it, consuming exactly the
    /// bytes that decoding would.
    fn skip_blob(&mut self) -> (r: RdbResult<()>)
        requires
            old(self).wf(),
        ensures
            final(self).wf(),
            final(self).bytes() == old(self).bytes(),
            final(self).spec_filter() == old(self).spec_filter(),
            final(self).latch() == old(self).latch(),
            final(self).evs() == old(self).evs(),
            r is Ok <==> blob_end(old(self).bytes(), old(self).pos()) is Some,
            r is Ok ==> blob_end(old(self).bytes(), old(self).pos())
                == Some(final(self).pos()),
            r matches Err(e) ==> e is MalformedInput,
    {
        let (len, is_encoded) = read_length_with_encoding(&mut self.input)?;
        if is_encoded {
            if len == ENC_INT8 {
                self.skip(1)
            } else if len == ENC_INT16 {
                self.skip(2)
            } else if len == ENC_INT32 {
                self.skip(4)
            } else if len == ENC_LZF {
                let compressed_length = read_length(&mut self.input)?;
                let _real_length = read_length(&mut self.input)?;
                let rem = self.input.remaining();
                if compressed_length > rem as u64 {
                    return Err(RdbError::MalformedInput(self.input.position()));
                }
                self.skip(compressed_length as usize)
            } else {
                Err(RdbError::MalformedInput(self.input.position()))
            }
        } else {
            let rem = self.input.remaining();
            if len > rem as u64 {
                return Err(RdbError::MalformedInput(self.input.position()));
            }
            self.skip(len as usize)
        }
    }

    /// Advances past one whole key record without emitting anything,
    /// consuming exactly the bytes that decoding would.
    fn skip_object(&mut self, enc_type: u8) -> (r: RdbResult<()>)
        requires
            old(self).wf(),
        ensures
            final(self).wf(),
            final(self).bytes() == old(self).bytes(),
            final(self).spec_filter() == old(self).spec_filter(),
            final(self).latch() == old(self).latch(),
            final(self).evs() == old(self).evs(),
            r is Ok <==> object_end(old(self).bytes(), old(self).pos(), enc_type) is Some,
            r is Ok ==> object_end(old(self).bytes(), old(self).pos(), enc_type)
                == Some(final(self).pos()),
            r matches Err(e) ==> e is MalformedInput || e is Unsupported,
            r matches Err(e) ==> (e is Unsupported ==> enc_type == TYPE_MODULE
                || enc_type == TYPE_MODULE_2),
            enc_type == TYPE_MODULE || enc_type == TYPE_MODULE_2
                ==> (r matches Err(e) && e is Unsupported),
    {
        let ghost s = self.input.bytes();
        let ghost i0 = self.input.pos();
        let ghost f0 = self.filter;
        let ghost exp = self.last_expiretime;
        let ghost pre_evs = self.events.deep_view();
        match enc_type {
            TYPE_STRING | TYPE_HASH_ZIPMAP | TYPE_LIST_ZIPLIST | TYPE_SET_INTSET
            | TYPE_ZSET_ZIPLIST | TYPE_HASH_ZIPLIST => self.skip_blob(),
            TYPE_LIST | TYPE_SET | TYPE_LIST_QUICKLIST => {
                let n = read_length(&mut self.input)?;
                let ghost j = self.input.pos();
                let mut k: u64 = 0;
                while k < n
                    invariant
                        self.input.wf(),
                        self.input.bytes() == s,
                        self.filter == f0,
                        self.last_expiretime == exp,
                        self.events.deep_view() == pre_evs,
                        old(self).bytes() == s,
                        old(self).pos() == i0,
                        old(self).evs() == pre_evs,
                        old(self).latch() == exp,
                        old(self).spec_filter() == f0,
                        len_at(s, i0) matches Some(p) && p.0 == n as nat && p.2 == j,
                        enc_type == TYPE_LIST || enc_type == TYPE_SET || enc_type == TYPE_LIST_QUICKLIST,
                        k <= n,
                        blobs_end(s, self.input.pos(), (n - k) as nat)
                            == blobs_end(s, j, n as nat),
                    decreases n - k,
                {
                    let ghost cur = self.input.pos();
                    match self.skip_blob() {
                        Ok(_) => {},
                        Err(e) => {
                            proof {
                                assert(blobs_end(s, cur, (n - k) as nat) is None);
                            }
                            return Err(e);
                        },
                    }
                    proof {
                        assert(blob_end(s, cur) == Some(self.input.pos()));
                    }
                    k = k + 1;
                }
                proof {
                    assert(blobs_end(s, self.input.pos(), 0) == Some(self.input.pos()));
                }
                Ok(())
            },
            TYPE_HASH => {
                let n = read_length(&mut self.input)?;
                let ghost j = self.input.pos();
                let mut k: u64 = 0;
                while k < n
                    invariant
                        self.input.wf(),
                        self.input.bytes() == s,
                        self.filter == f0,
                        self.last_expiretime == exp,
                        self.events.deep_view() == pre_evs,
                        old(self).bytes() == s,
                        old(self).pos() == i0,
                        old(self).evs() == pre_evs,
                        old(self).latch() == exp,
                        old(self).spec_filter() == f0,
                        len_at(s, i0) matches Some(p) && p.0 == n as nat && p.2 == j,
                        enc_type == TYPE_HASH,
                        k <= n,
                        blobs_end(s, self.input.pos(), (2 * (n - k)) as nat)
                            == blobs_end(s, j, (2 * n) as nat),
                    decreases n - k,
                {
                    let ghost cur = self.input.pos();
                    let ghost sub = (2 * (n - k)) as nat;
                    match self.skip_blob() {
                        Ok(_) => {},
                        Err(e) => {
                            proof {
                                assert(blobs_end(s, cur, sub) is None);
                            }
                            return Err(e);
                        },
                    }
                    let ghost mid = self.input.pos();
                    proof {
                        assert(blob_end(s, cur) == Some(mid));
                    }
                    match self.skip_blob() {
                        Ok(_) => {},
                        Err(e) => {
                            proof {
                                assert(blobs_end(s, mid, (sub - 1) as nat) is None);
                                assert(blobs_end(s, cur, sub) is None);
                            }
                            return Err(e);
                        },
                    }
                    proof {
                        assert(blob_end(s, mid) == Some(self.input.pos()));
                        assert(blobs_end(s, cur, sub)
                            == blobs_end(s, self.input.pos(), (sub - 2) as nat));
                    }
                    k = k + 1;
                }
                proof {
                    assert(blobs_end(s, self.input.pos(), 0) == Some(self.input.pos()));
                }
                Ok(())
            },
            TYPE_ZSET => {
                let n = read_length(&mut self.input)?;
                let ghost j = self.input.pos();
                let mut k: u64 = 0;
                while k < n
                    invariant
                        self.input.wf(),
                        self.input.bytes() == s,
                        self.filter == f0,
                        self.last_expiretime == exp,
                        self.events.deep_view() == pre_evs,
                        old(self).bytes() == s,
                        old(self).pos() == i0,
                        old(self).evs() == pre_evs,
                        old(self).latch() == exp,
                        old(self).spec_filter() == f0,
                        len_at(s, i0) matches Some(p) && p.0 == n as nat && p.2 == j,
                        enc_type == TYPE_ZSET,
                        k <= n,
                        zset_ends(s, self.input.pos(), (n - k) as nat)
                            == zset_ends(s, j, n as nat),
                    decreases n - k,
                {
                    let ghost cur = self.input.pos();
                    match self.skip_blob() {
                        Ok(_) => {},
                        Err(e) => {
                            proof {
                                assert(zset_ends(s, cur, (n - k) as nat) is None);
                            }
                            return Err(e);
                        },
                    }
                    let ghost mid = self.input.pos();
                    let sb = match self.input.read_u8() {
                        Ok(b) => b,
                        Err(e) => {
                            proof {
                                assert(score_end(s, mid) is None);
                                assert(zset_ends(s, cur, (n - k) as nat) is None);
                            }
                            return Err(e);
                        },
                    };
                    if sb < 253 {
                        match self.skip(sb as usize) {
                            Ok(_) => {},
                            Err(e) => {
                                proof {
                                    assert(score_end(s, mid) is None);
                                    assert(zset_ends(s, cur, (n - k) as nat) is None);
                                }
                                return Err(e);
                            },
                        }
                    }
                    proof {
                        assert(blob_end(s, cur) == Some(mid));
                        assert(score_end(s, mid) == Some(self.input.pos()));
                        assert(zset_ends(s, cur, (n - k) as nat)
                            == zset_ends(s, self.input.pos(), (n - k - 1) as nat));
                    }
                    k = k + 1;
                }
                proof {
                    assert(zset_ends(s, self.input.pos(), 0) == Some(self.input.pos()));
                }
                Ok(())
            },
            TYPE_ZSET_2 => {
                let n = read_length(&mut self.input)?;
                let ghost j = self.input.pos();
                let mut k: u64 = 0;
                while k < n
                    invariant
                        self.input.wf(),
                        self.input.bytes() == s,
                        self.filter == f0,
                        self.last_expiretime == exp,
                        self.events.deep_view() == pre_evs,
                        old(self).bytes() == s,
                        old(self).pos() == i0,
                        old(self).evs() == pre_evs,
                        old(self).latch() == exp,
                        old(self).spec_filter() == f0,
                        len_at(s, i0) matches Some(p) && p.0 == n as nat && p.2 == j,
                        enc_type == TYPE_ZSET_2,
                        k <= n,
                        zset2_ends(s, self.input.pos(), (n - k) as nat)
                            == zset2_ends(s, j, n as nat),
                    decreases n - k,
                {
                    let ghost cur = self.input.pos();
                    match self.skip_blob() {
                        Ok(_) => {},
                        Err(e) => {
                            proof {
                                assert(zset2_ends(s, cur, (n - k) as nat) is None);
                            }
                            return Err(e);
                        },
                    }
                    let ghost mid = self.input.pos();
                    match self.skip(8) {
                        Ok(_) => {},
                        Err(e) => {
                            proof {
                                assert(blob_end(s, cur) == Some(mid));
                                assert(zset2_ends(s, cur, (n - k) as nat) is None);
                            }
                            return Err(e);
                        },
                    }
                    proof {
                        assert(blob_end(s, cur) == Some(mid));
                        assert(zset2_ends(s, cur, (n - k) as nat)
                            == zset2_ends(s, self.input.pos(), (n - k - 1) as nat));
                    }
                    k = k + 1;
                }
                proof {
                    assert(zset2_ends(s, self.input.pos(), 0) == Some(self.input.pos()));
                }
                Ok(())
            },
            TYPE_MODULE | TYPE_MODULE_2 => Err(RdbError::Unsupported(enc_type)),
            _ => Err(RdbError::MalformedInput(self.input.position())),
        }
    }

    /// Skips a key blob and the record that follows it.
    fn skip_key_and_object(&mut self, enc_type: u8) -> (r: RdbResult<()>)
        requires
            old(self).wf(),
        ensures
            final(self).wf(),
            final(self).bytes() == old(self).bytes(),
            final(self).spec_filter() == old(self).spec_filter(),
            final(self).latch() == old(self).latch(),
            final(self).evs() == old(self).evs(),
            r is Ok <==> (blob_end(old(self).bytes(), old(self).pos())
                matches Some(j) && object_end(old(self).bytes(), j, enc_type) is Some),
            r is Ok ==> (blob_end(old(self).bytes(), old(self).pos())
                matches Some(j) && object_end(old(self).bytes(), j, enc_type)
                    == Some(final(self).pos())),
            r matches Err(e) ==> e is MalformedInput || e is Unsupported,
            r matches Err(e) ==> (e is Unsupported ==> enc_type == TYPE_MODULE
                || enc_type == TYPE_MODULE_2),
    {
        self.skip_blob()?;
        self.skip_object(enc_type)
    }
}

} // verus!
