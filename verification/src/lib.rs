//! Streaming decoder for the RDB snapshot format: a compact, versioned
//! binary file holding zero or more logical databases of keys with five
//! value shapes and several packed physical encodings.  A parse walks the
//! input bytes once, consuming every record exactly, and yields the
//! ordered sequence of emitter events; the decoding of every prefix,
//! blob and packed encoding is specified in [`model`] and proved.

use vstd::prelude::*;

pub mod codec;
pub mod constants;
pub mod filter;
pub mod foreign;
pub mod formatter;
pub mod helper;
pub mod json;
pub mod laws;
pub mod model;
pub mod parser;
pub mod plain;
pub mod protocol;
pub mod reader;
pub mod types;

verus! {

pub use crate::codec::{read_blob, read_length, read_length_with_encoding,
    read_ziplist_metadata, verify_magic, verify_version};
pub use crate::filter::{AllFilter, RdbFilter, StrictFilter};
pub use crate::formatter::{Formatter, Nil, write_str};
pub use crate::json::JSON;
pub use crate::parser::{parse, body_events, stream_events, RdbParser};
pub use crate::plain::Plain;
pub use crate::protocol::Protocol;
pub use crate::reader::ByteReader;
pub use crate::types::{EncodingType, Event, EventV, RdbError, RdbResult, Score, ScoreV, Type};

} // verus!
