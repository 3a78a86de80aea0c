//! The laws the decoder obeys, stated and proved over the model: start
//! and end events balance for every key, a record's events carry exactly
//! the latched expiry, skipping a record consumes exactly the bytes that
//! decoding it would, a string record's events depend on the decoded
//! blob value alone, and the three physical list encodings with the same
//! logical contents yield the same element events.

use vstd::prelude::*;
use crate::constants::{TYPE_STRING, TYPE_LIST, TYPE_SET, TYPE_ZSET, TYPE_HASH, TYPE_ZSET_2,
    TYPE_LIST_ZIPLIST, TYPE_LIST_QUICKLIST, OP_SELECTDB, OP_EOF, OP_EXPIRETIME_MS,
    OP_EXPIRETIME, OP_RESIZEDB, OP_AUX};
use crate::model::{blob_at, blob_end, blobs_at, blobs_end, len_at, record_events, object_end,
    score_at, zset_items_at, zset_ends, zset2_items_at, zset2_ends, ql_items,
    zl_items, is_block, is_body, is_single, is_full_stream, le_val, be_val};
use crate::parser::{body_events, stream_events};
use crate::types::EventV;

verus! {

/// How one event changes the count of open collections for a key: +1
/// for its start events, -1 for its end events, 0 otherwise.
pub open spec fn nesting_delta(e: EventV, key: Seq<u8>) -> int {
    match e {
        EventV::StartList(k, _, _, _) => if k == key { 1int } else { 0int },
        EventV::StartSet(k, _, _, _) => if k == key { 1int } else { 0int },
        EventV::StartHash(k, _, _, _) => if k == key { 1int } else { 0int },
        EventV::StartSortedSet(k, _, _, _) => if k == key { 1int } else { 0int },
        EventV::EndList(k) => if k == key { -1int } else { 0int },
        EventV::EndSet(k) => if k == key { -1int } else { 0int },
        EventV::EndHash(k) => if k == key { -1int } else { 0int },
        EventV::EndSortedSet(k) => if k == key { -1int } else { 0int },
        _ => 0int,
    }
}

/// The running balance of start against end events for a key.
pub open spec fn nesting_balance(evs: Seq<EventV>, key: Seq<u8>) -> int
    decreases evs.len(),
{
    if evs.len() == 0 {
        0
    } else {
        nesting_delta(evs[0], key) + nesting_balance(evs.skip(1), key)
    }
}

/// The balance of a concatenation is the sum of the balances.
pub proof fn lemma_balance_add(a: Seq<EventV>, b: Seq<EventV>, key: Seq<u8>)
    ensures
        nesting_balance(a + b, key) == nesting_balance(a, key) + nesting_balance(b, key),
    decreases a.len(),
{
    if a.len() == 0 {
        assert(a + b =~= b);
    } else {
        assert((a + b).skip(1) =~= a.skip(1) + b);
        assert((a + b)[0] == a[0]);
        lemma_balance_add(a.skip(1), b, key);
    }
}

/// The balance of a single event is its delta.
proof fn lemma_balance_one(e: EventV, key: Seq<u8>)
    ensures
        nesting_balance(seq![e], key) == nesting_delta(e, key),
{
    assert(nesting_balance(Seq::<EventV>::empty(), key) == 0);
    assert(seq![e].skip(1) =~= Seq::<EventV>::empty());
    assert(seq![e][0] == e);
}

/// A sequence of events that are neither starts nor ends balances to
/// zero.
proof fn lemma_balance_elements(evs: Seq<EventV>, key: Seq<u8>)
    requires
        forall|m: int| 0 <= m < evs.len() ==> nesting_delta(#[trigger] evs[m], key) == 0,
    ensures
        nesting_balance(evs, key) == 0,
    decreases evs.len(),
{
    if evs.len() > 0 {
        lemma_balance_elements(evs.skip(1), key);
    }
}

/// Every block balances to zero for every key: a stand-alone event
/// opens nothing, and a collection block closes exactly what it opens.
pub proof fn lemma_block_balanced(b: Seq<EventV>, key: Seq<u8>)
    requires
        is_block(b),
    ensures
        nesting_balance(b, key) == 0,
{
    if b.len() == 1 && is_single(b[0]) {
        assert(nesting_balance(b.skip(1), key) == 0);
    } else {
        let middle = b.subrange(1, b.len() - 1);
        assert(b =~= seq![b[0]] + middle + seq![b.last()]);
        lemma_balance_add(seq![b[0]] + middle, seq![b.last()], key);
        lemma_balance_add(seq![b[0]], middle, key);
        lemma_balance_one(b[0], key);
        lemma_balance_one(b.last(), key);
        assert(forall|m: int| 0 <= m < middle.len()
            ==> nesting_delta(#[trigger] middle[m], key) == 0);
        lemma_balance_elements(middle, key);
        assert(nesting_delta(b[0], key) + nesting_delta(b.last(), key) == 0);
    }
}

/// A body of blocks balances to zero for every key.
pub proof fn lemma_body_balanced(evs: Seq<EventV>, key: Seq<u8>)
    requires
        is_body(evs),
    ensures
        nesting_balance(evs, key) == 0,
    decreases evs.len(),
{
    if evs.len() > 0 {
        let n = choose|n: int| 1 <= n <= evs.len() && #[trigger] is_block(evs.take(n))
            && is_body(evs.skip(n));
        assert(evs =~= evs.take(n) + evs.skip(n));
        lemma_balance_add(evs.take(n), evs.skip(n), key);
        lemma_block_balanced(evs.take(n), key);
        lemma_body_balanced(evs.skip(n), key);
    }
}

/// Event nesting: in every complete stream, each key sees exactly as
/// many collection start events as end events.  That the elements of a
/// collection sit between its start and its end, under the same key, is
/// part of the stream shape itself ([`is_body`] splits the stream into
/// blocks and every block is so bracketed).
pub proof fn lemma_stream_balanced(evs: Seq<EventV>, key: Seq<u8>)
    requires
        is_full_stream(evs),
    ensures
        nesting_balance(evs, key) == 0,
{
    let body = evs.subrange(1, evs.len() - 2);
    assert(evs =~= seq![evs[0]] + body + seq![evs[evs.len() - 2], evs.last()]);
    lemma_balance_add(seq![evs[0]] + body, seq![evs[evs.len() - 2], evs.last()], key);
    lemma_balance_add(seq![evs[0]], body, key);
    lemma_body_balanced(body, key);
    lemma_balance_one(evs[0], key);
    let tail = seq![evs[evs.len() - 2], evs.last()];
    assert(nesting_balance(tail, key) == nesting_delta(tail[0], key)
        + nesting_balance(tail.skip(1), key));
    assert(nesting_balance(tail.skip(1), key) == nesting_delta(tail.skip(1)[0], key)
        + nesting_balance(tail.skip(1).skip(1), key));
    assert(tail.skip(1).skip(1).len() == 0);
}

/// The expiry an event carries, where it carries one.
pub open spec fn event_expiry(e: EventV) -> Option<Option<u64>> {
    match e {
        EventV::SetString(_, _, exp) => Some(exp),
        EventV::StartList(_, _, exp, _) => Some(exp),
        EventV::StartSet(_, _, exp, _) => Some(exp),
        EventV::StartHash(_, _, exp, _) => Some(exp),
        EventV::StartSortedSet(_, _, exp, _) => Some(exp),
        _ => None,
    }
}

/// Expiry pairing: the first event of every decoded key record carries
/// exactly the expiry that was latched when the record was read.  The
/// opcode loop latches an expiry opcode's value and clears the latch
/// after every key record, so subsequent records carry none unless
/// re-latched.
pub proof fn lemma_record_expiry(s: Seq<u8>, i: int, t: u8, key: Seq<u8>, exp: Option<u64>)
    ensures
        record_events(s, i, t, key, exp) matches Some(p) ==> p.0.len() >= 1
            && event_expiry(p.0[0]) == Some(exp),
{
}

/// Skip agreement: wherever a key record decodes, skipping it succeeds
/// and ends at exactly the same position.  Filtered-out keys therefore
/// consume exactly the bytes the decoded record would.
pub proof fn lemma_skip_matches_read(s: Seq<u8>, i: int, t: u8, key: Seq<u8>, exp: Option<u64>)
    ensures
        record_events(s, i, t, key, exp) matches Some(p) ==> object_end(s, i, t) == Some(p.1),
{
    lemma_blob_skip(s, i);
    if t == TYPE_LIST || t == TYPE_SET || t == TYPE_LIST_QUICKLIST || t == TYPE_HASH
        || t == TYPE_ZSET || t == TYPE_ZSET_2 {
        match len_at(s, i) {
            Some((n, _, j)) => {
                lemma_blobs_skip(s, j, n);
                lemma_blobs_skip(s, j, (n * 2) as nat);
                lemma_zset_skip(s, j, n);
                lemma_zset2_skip(s, j, n);
                lemma_ql_skip(s, j, n);
            },
            None => {},
        }
    }
}

/// Decoding a blob implies skipping it ends at the same place.
pub proof fn lemma_blob_skip(s: Seq<u8>, i: int)
    ensures
        blob_at(s, i) matches Some(p) ==> blob_end(s, i) == Some(p.1),
{
}

proof fn lemma_blobs_skip(s: Seq<u8>, i: int, n: nat)
    ensures
        blobs_at(s, i, n) matches Some(p) ==> blobs_end(s, i, n) == Some(p.1),
    decreases n,
{
    if n > 0 {
        lemma_blob_skip(s, i);
        match blob_at(s, i) {
            Some((_, j)) => {
                lemma_blobs_skip(s, j, (n - 1) as nat);
            },
            None => {},
        }
    }
}

proof fn lemma_zset_skip(s: Seq<u8>, i: int, n: nat)
    ensures
        zset_items_at(s, i, n) matches Some(p) ==> zset_ends(s, i, n) == Some(p.1),
    decreases n,
{
    if n > 0 {
        lemma_blob_skip(s, i);
        match blob_at(s, i) {
            Some((_, j)) => {
                match score_at(s, j) {
                    Some((_, j2)) => {
                        lemma_zset_skip(s, j2, (n - 1) as nat);
                    },
                    None => {},
                }
            },
            None => {},
        }
    }
}

proof fn lemma_zset2_skip(s: Seq<u8>, i: int, n: nat)
    ensures
        zset2_items_at(s, i, n) matches Some(p) ==> zset2_ends(s, i, n) == Some(p.1),
    decreases n,
{
    if n > 0 {
        lemma_blob_skip(s, i);
        match blob_at(s, i) {
            Some((_, j)) => {
                if j + 8 <= s.len() {
                    lemma_zset2_skip(s, j + 8, (n - 1) as nat);
                }
            },
            None => {},
        }
    }
}

proof fn lemma_ql_skip(s: Seq<u8>, i: int, n: nat)
    ensures
        ql_items(s, i, n) matches Some(p) ==> blobs_end(s, i, n) == Some(p.1),
    decreases n,
{
    if n > 0 {
        lemma_blob_skip(s, i);
        match blob_at(s, i) {
            Some((_, j)) => {
                lemma_ql_skip(s, j, (n - 1) as nat);
            },
            None => {},
        }
    }
}

/// Blob-encoding transparency: a string record's events depend on the
/// decoded blob value alone, so a value stored raw and the same value
/// stored LZF-compressed or integer-packed produce identical events.
pub proof fn lemma_string_events_by_value(s1: Seq<u8>, i1: int, s2: Seq<u8>, i2: int,
    key: Seq<u8>, exp: Option<u64>)
    requires
        blob_at(s1, i1) is Some,
        blob_at(s2, i2) is Some,
        blob_at(s1, i1)->Some_0.0 == blob_at(s2, i2)->Some_0.0,
    ensures
        record_events(s1, i1, TYPE_STRING, key, exp) matches Some(p1)
            && record_events(s2, i2, TYPE_STRING, key, exp) matches Some(p2)
            && p1.0 == p2.0,
{
}

/// The element events of a list record: everything between the start
/// and the end event.
pub open spec fn element_events(evs: Seq<EventV>) -> Seq<EventV> {
    evs.subrange(1, evs.len() - 1)
}

/// List-encoding equivalence: a list stored plain, as one ziplist, or
/// as a quicklist yields exactly the same ordered `ListElement` events
/// whenever the logical contents agree.
pub proof fn lemma_list_encoding_equivalence(s1: Seq<u8>, i1: int, t1: u8, s2: Seq<u8>,
    i2: int, t2: u8, key: Seq<u8>, exp: Option<u64>, items: Seq<Seq<u8>>)
    requires
        t1 == TYPE_LIST || t1 == TYPE_LIST_ZIPLIST || t1 == TYPE_LIST_QUICKLIST,
        t2 == TYPE_LIST || t2 == TYPE_LIST_ZIPLIST || t2 == TYPE_LIST_QUICKLIST,
        record_events(s1, i1, t1, key, exp) is Some,
        record_events(s2, i2, t2, key, exp) is Some,
        list_contents(s1, i1, t1) == Some(items),
        list_contents(s2, i2, t2) == Some(items),
    ensures
        record_events(s1, i1, t1, key, exp) matches Some(p1)
            && record_events(s2, i2, t2, key, exp) matches Some(p2)
            && element_events(p1.0) == element_events(p2.0),
{
    lemma_list_record_elements(s1, i1, t1, key, exp, items);
    lemma_list_record_elements(s2, i2, t2, key, exp, items);
}

/// The logical contents of a list record under each physical encoding.
pub open spec fn list_contents(s: Seq<u8>, i: int, t: u8) -> Option<Seq<Seq<u8>>> {
    if t == TYPE_LIST {
        match len_at(s, i) {
            None => None,
            Some((n, _, j)) => match blobs_at(s, j, n) {
                None => None,
                Some((vs, _)) => Some(vs),
            },
        }
    } else if t == TYPE_LIST_ZIPLIST {
        match blob_at(s, i) {
            None => None,
            Some((b, _)) => zl_items(b),
        }
    } else if t == TYPE_LIST_QUICKLIST {
        match len_at(s, i) {
            None => None,
            Some((n, _, j)) => match ql_items(s, j, n) {
                None => None,
                Some((vs, _)) => Some(vs),
            },
        }
    } else {
        None
    }
}

proof fn lemma_list_record_elements(s: Seq<u8>, i: int, t: u8, key: Seq<u8>,
    exp: Option<u64>, items: Seq<Seq<u8>>)
    requires
        t == TYPE_LIST || t == TYPE_LIST_ZIPLIST || t == TYPE_LIST_QUICKLIST,
        record_events(s, i, t, key, exp) is Some,
        list_contents(s, i, t) == Some(items),
    ensures
        record_events(s, i, t, key, exp) matches Some(p) && element_events(p.0)
            == items.map_values(|v: Seq<u8>| EventV::ListElement(key, v)),
{
    match record_events(s, i, t, key, exp) {
        Some((evs, _)) => {
            assert(element_events(evs)
                =~= items.map_values(|v: Seq<u8>| EventV::ListElement(key, v)));
        },
        None => {},
    }
}


/// How one event changes the count of open databases.
pub open spec fn db_delta(e: EventV) -> int {
    match e {
        EventV::StartDatabase(_) => 1int,
        EventV::EndDatabase(_) => -1int,
        _ => 0int,
    }
}

/// The running balance of database start against end events.
pub open spec fn db_balance(evs: Seq<EventV>) -> int
    decreases evs.len(),
{
    if evs.len() == 0 {
        0
    } else {
        db_delta(evs[0]) + db_balance(evs.skip(1))
    }
}

proof fn lemma_db_balance_add(a: Seq<EventV>, b: Seq<EventV>)
    ensures
        db_balance(a + b) == db_balance(a) + db_balance(b),
    decreases a.len(),
{
    if a.len() == 0 {
        assert(a + b =~= b);
    } else {
        assert((a + b).skip(1) =~= a.skip(1) + b);
        assert((a + b)[0] == a[0]);
        lemma_db_balance_add(a.skip(1), b);
    }
}

proof fn lemma_db_balance_zero(evs: Seq<EventV>)
    requires
        forall|m: int| 0 <= m < evs.len() ==> db_delta(#[trigger] evs[m]) == 0,
    ensures
        db_balance(evs) == 0,
    decreases evs.len(),
{
    if evs.len() > 0 {
        lemma_db_balance_zero(evs.skip(1));
    }
}

/// A key record's events hold no database events.
proof fn lemma_record_db_free(s: Seq<u8>, i: int, t: u8, key: Seq<u8>, exp: Option<u64>)
    ensures
        record_events(s, i, t, key, exp) matches Some(p) ==> db_balance(p.0) == 0,
{
    match record_events(s, i, t, key, exp) {
        Some((evs, _)) => {
            assert(forall|m: int| 0 <= m < evs.len() ==> db_delta(#[trigger] evs[m]) == 0);
            lemma_db_balance_zero(evs);
        },
        None => {},
    }
}

/// The opcode loop closes every database it opens: from any state, the
/// emitted events change the number of open databases by exactly minus
/// the one open at entry.
proof fn lemma_body_db_balance<L: crate::filter::RdbFilter>(s: Seq<u8>, i: int, f: L,
    db: u64, open_db: bool, latch: Option<u64>)
    ensures
        body_events(s, i, f, db, open_db, latch) matches Some(evs)
            ==> db_balance(evs) == if open_db { -1int } else { 0int },
    decreases s.len() - i, 1int,
{
    if 0 <= i < s.len() {
        let op = s[i];
        if op == OP_SELECTDB {
            lemma_db_arm_selectdb(s, i, f, db, open_db, latch);
        } else if op == OP_EOF {
            lemma_db_arm_eof(s, i, f, db, open_db, latch);
        } else if op == OP_EXPIRETIME_MS {
            if i + 9 <= s.len() {
                lemma_body_db_balance(s, i + 9, f, db, open_db,
                    Some(le_val(s.subrange(i + 1, i + 9)) as u64));
            }
        } else if op == OP_EXPIRETIME {
            if i + 5 <= s.len() {
                lemma_body_db_balance(s, i + 5, f, db, open_db,
                    Some((be_val(s.subrange(i + 1, i + 5)) * 1000) as u64));
            }
        } else if op == OP_RESIZEDB {
            lemma_db_arm_resizedb(s, i, f, db, open_db, latch);
        } else if op == OP_AUX {
            lemma_db_arm_aux(s, i, f, db, open_db, latch);
        } else {
            lemma_db_arm_key(s, i, f, db, open_db, latch);
        }
    }
}

proof fn lemma_db_closing(db: u64, open_db: bool)
    ensures
        db_balance(if open_db { seq![EventV::EndDatabase(db)] } else { Seq::empty() })
            == if open_db { -1int } else { 0int },
{
    assert(db_balance(Seq::<EventV>::empty()) == 0);
    if open_db {
        assert(seq![EventV::EndDatabase(db)].skip(1) =~= Seq::<EventV>::empty());
        assert(seq![EventV::EndDatabase(db)][0] == EventV::EndDatabase(db));
    }
}

proof fn lemma_db_one(e: EventV)
    ensures
        db_balance(seq![e]) == db_delta(e),
{
    assert(db_balance(Seq::<EventV>::empty()) == 0);
    assert(seq![e].skip(1) =~= Seq::<EventV>::empty());
    assert(seq![e][0] == e);
}

#[verifier::rlimit(100)]
#[verifier::spinoff_prover]
proof fn lemma_db_arm_selectdb<L: crate::filter::RdbFilter>(s: Seq<u8>, i: int, f: L,
    db: u64, open_db: bool, latch: Option<u64>)
    requires
        0 <= i < s.len(),
        s[i] == OP_SELECTDB,
    ensures
        body_events(s, i, f, db, open_db, latch) matches Some(evs)
            ==> db_balance(evs) == if open_db { -1int } else { 0int },
    decreases s.len() - i, 0int,
{
    lemma_db_closing(db, open_db);
    match len_at(s, i + 1) {
        Some((d, _, j)) => {
            if i < j <= s.len() {
                let admitted = f.db_allowed(d as u64);
                let opening: Seq<EventV> = if admitted {
                    seq![EventV::StartDatabase(d as u64)]
                } else {
                    Seq::empty()
                };
                if admitted {
                    lemma_db_one(EventV::StartDatabase(d as u64));
                }
                lemma_body_db_balance(s, j, f, d as u64, admitted, latch);
                match body_events(s, j, f, d as u64, admitted, latch) {
                    Some(rest) => {
                        let closing: Seq<EventV> = if open_db {
                            seq![EventV::EndDatabase(db)]
                        } else {
                            Seq::empty()
                        };
                        lemma_db_balance_add(closing + opening, rest);
                        lemma_db_balance_add(closing, opening);
                    },
                    None => {},
                }
            }
        },
        None => {},
    }
}

#[verifier::rlimit(100)]
#[verifier::spinoff_prover]
proof fn lemma_db_arm_eof<L: crate::filter::RdbFilter>(s: Seq<u8>, i: int, f: L, db: u64,
    open_db: bool, latch: Option<u64>)
    requires
        0 <= i < s.len(),
        s[i] == OP_EOF,
    ensures
        body_events(s, i, f, db, open_db, latch) matches Some(evs)
            ==> db_balance(evs) == if open_db { -1int } else { 0int },
{
    let closing: Seq<EventV> = if open_db {
        seq![EventV::EndDatabase(db)]
    } else {
        Seq::empty()
    };
    let tail = seq![EventV::EndRdb, EventV::Checksum(s.skip(i + 1))];
    assert(body_events(s, i, f, db, open_db, latch) == Some(closing + tail));
    lemma_db_closing(db, open_db);
    let c2 = seq![EventV::Checksum(s.skip(i + 1))];
    lemma_db_one(EventV::EndRdb);
    lemma_db_one(EventV::Checksum(s.skip(i + 1)));
    lemma_db_balance_add(seq![EventV::EndRdb], c2);
    assert(tail =~= seq![EventV::EndRdb] + c2);
    lemma_db_balance_add(closing, tail);
}

#[verifier::rlimit(100)]
#[verifier::spinoff_prover]
proof fn lemma_db_arm_resizedb<L: crate::filter::RdbFilter>(s: Seq<u8>, i: int, f: L,
    db: u64, open_db: bool, latch: Option<u64>)
    requires
        0 <= i < s.len(),
        s[i] == OP_RESIZEDB,
    ensures
        body_events(s, i, f, db, open_db, latch) matches Some(evs)
            ==> db_balance(evs) == if open_db { -1int } else { 0int },
    decreases s.len() - i, 0int,
{
    match len_at(s, i + 1) {
        Some((a, _, j)) => match len_at(s, j) {
            Some((b, _, j2)) => {
                if i < j2 <= s.len() {
                    lemma_body_db_balance(s, j2, f, db, open_db, latch);
                    match body_events(s, j2, f, db, open_db, latch) {
                        Some(rest) => {
                            lemma_db_one(EventV::ResizeDb(a as u64, b as u64));
                            lemma_db_balance_add(seq![EventV::ResizeDb(a as u64,
                                b as u64)], rest);
                        },
                        None => {},
                    }
                }
            },
            None => {},
        },
        None => {},
    }
}

#[verifier::rlimit(100)]
#[verifier::spinoff_prover]
proof fn lemma_db_arm_aux<L: crate::filter::RdbFilter>(s: Seq<u8>, i: int, f: L, db: u64,
    open_db: bool, latch: Option<u64>)
    requires
        0 <= i < s.len(),
        s[i] == OP_AUX,
    ensures
        body_events(s, i, f, db, open_db, latch) matches Some(evs)
            ==> db_balance(evs) == if open_db { -1int } else { 0int },
    decreases s.len() - i, 0int,
{
    match blob_at(s, i + 1) {
        Some((k, j)) => match blob_at(s, j) {
            Some((v, j2)) => {
                if i < j2 <= s.len() {
                    lemma_body_db_balance(s, j2, f, db, open_db, latch);
                    match body_events(s, j2, f, db, open_db, latch) {
                        Some(rest) => {
                            lemma_db_one(EventV::AuxField(k, v));
                            lemma_db_balance_add(seq![EventV::AuxField(k, v)], rest);
                        },
                        None => {},
                    }
                }
            },
            None => {},
        },
        None => {},
    }
}

#[verifier::rlimit(100)]
#[verifier::spinoff_prover]
proof fn lemma_db_arm_key<L: crate::filter::RdbFilter>(s: Seq<u8>, i: int, f: L, db: u64,
    open_db: bool, latch: Option<u64>)
    requires
        0 <= i < s.len(),
        s[i] != OP_SELECTDB,
        s[i] != OP_EOF,
        s[i] != OP_EXPIRETIME_MS,
        s[i] != OP_EXPIRETIME,
        s[i] != OP_RESIZEDB,
        s[i] != OP_AUX,
    ensures
        body_events(s, i, f, db, open_db, latch) matches Some(evs)
            ==> db_balance(evs) == if open_db { -1int } else { 0int },
    decreases s.len() - i, 0int,
{
    let op = s[i];
    if f.db_allowed(db) {
        match blob_at(s, i + 1) {
            Some((key, j)) => {
                if f.type_allowed(op) && f.key_allowed(key) {
                    match record_events(s, j, op, key, latch) {
                        Some((evs, e)) => {
                            if i < e <= s.len() {
                                lemma_record_db_free(s, j, op, key, latch);
                                lemma_body_db_balance(s, e, f, db, open_db, None);
                                match body_events(s, e, f, db, open_db, None) {
                                    Some(rest) => {
                                        lemma_db_balance_add(evs, rest);
                                    },
                                    None => {},
                                }
                            }
                        },
                        None => {},
                    }
                } else {
                    match object_end(s, j, op) {
                        Some(e) => {
                            if i < e <= s.len() {
                                lemma_body_db_balance(s, e, f, db, open_db, None);
                            }
                        },
                        None => {},
                    }
                }
            },
            None => {},
        }
    } else {
        match blob_end(s, i + 1) {
            Some(j) => match object_end(s, j, op) {
                Some(e) => {
                    if i < e <= s.len() {
                        lemma_body_db_balance(s, e, f, db, open_db, None);
                    }
                },
                None => {},
            },
            None => {},
        }
    }
}

/// Database pairing: in the stream of a successful parse, database
/// start and end events balance exactly; the loop closes every database
/// it opens, and closes it before the next one starts by construction
/// of [`body_events`].
pub proof fn lemma_stream_db_balanced<L: crate::filter::RdbFilter>(s: Seq<u8>, f: L)
    ensures
        stream_events(s, f) matches Some(evs) ==> db_balance(evs) == 0,
{
    if s.len() >= 9 && s.subrange(0, 5) == crate::model::magic_seq()
        && crate::model::version_ok(s.subrange(5, 9)) {
        lemma_body_db_balance(s, 9, f, 0, false, None);
        match body_events(s, 9, f, 0, false, None) {
            Some(rest) => {
                lemma_db_balance_add(seq![EventV::StartRdb], rest);
                lemma_db_one(EventV::StartRdb);
            },
            None => {},
        }
    }
}

} // verus!
