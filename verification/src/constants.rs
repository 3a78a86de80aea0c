//! Numeric constants of the snapshot format: opcodes, encoding-type bytes,
//! length-prefix tags and the packed string encodings.

use vstd::prelude::*;

verus! {

/// Lowest accepted format version.
pub const SUPPORTED_MINIMUM: u32 = 1;

/// Highest accepted format version.
pub const SUPPORTED_MAXIMUM: u32 = 8;

// Opcodes of the top-level record loop.
pub const OP_AUX: u8 = 250;
pub const OP_RESIZEDB: u8 = 251;
pub const OP_EXPIRETIME_MS: u8 = 252;
pub const OP_EXPIRETIME: u8 = 253;
pub const OP_SELECTDB: u8 = 254;
pub const OP_EOF: u8 = 255;

// Encoding-type bytes introducing a key record.
pub const TYPE_STRING: u8 = 0;
pub const TYPE_LIST: u8 = 1;
pub const TYPE_SET: u8 = 2;
pub const TYPE_ZSET: u8 = 3;
pub const TYPE_HASH: u8 = 4;
pub const TYPE_ZSET_2: u8 = 5;
pub const TYPE_MODULE: u8 = 6;
pub const TYPE_MODULE_2: u8 = 7;
pub const TYPE_HASH_ZIPMAP: u8 = 9;
pub const TYPE_LIST_ZIPLIST: u8 = 10;
pub const TYPE_SET_INTSET: u8 = 11;
pub const TYPE_ZSET_ZIPLIST: u8 = 12;
pub const TYPE_HASH_ZIPLIST: u8 = 13;
pub const TYPE_LIST_QUICKLIST: u8 = 14;

// Packed representations selected by an encoded length prefix.
pub const ENC_INT8: u64 = 0;
pub const ENC_INT16: u64 = 1;
pub const ENC_INT32: u64 = 2;
pub const ENC_LZF: u64 = 3;

/// Bound on how much longer than its compressed form a stored LZF blob may
/// claim to be.  The compressed stream spends at least one control byte per
/// 264 output bytes, so a declared length above this is rejected rather than
/// allocated.
pub const LZF_MAX_EXPANSION: u64 = 264;

} // verus!
