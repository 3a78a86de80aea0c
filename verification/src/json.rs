//! The JSON emitter: one object per database, keys quoted and escaped,
//! rendered into an in-memory buffer.

use vstd::prelude::*;
use vstd::string::StringSliceAdditionalSpecFns;
use crate::foreign::{json_quote, json_quoted, lossy_chars, utf8_lossy};
use crate::formatter::{Formatter, write_str, score_bytes};
use crate::helper::append_bytes;
use crate::types::{EncodingType, RdbResult, Score};

verus! {

/// Quotes arbitrary bytes as a JSON string: the bytes are decoded
/// leniently to text, then escaped.
pub fn encode_to_ascii(value: &[u8]) -> (r: RdbResult<Vec<u8>>)
    ensures
        r matches Ok(v) ==> v@ == json_quoted(lossy_chars(value@)),
        r matches Err(e) ==> e is EmitterFailure,
{
    let s = utf8_lossy(value);
    json_quote(s.as_str())
}

/// The JSON emitter.
pub struct JSON {
    out: Vec<u8>,
    is_first_db: bool,
    has_databases: bool,
    is_first_key_in_db: bool,
    elements_in_key: u64,
    element_index: u64,
}

impl JSON {
    /// Everything rendered so far.
    pub closed spec fn out_bytes(&self) -> Seq<u8> {
        self.out@
    }

    /// Whether the next key is the first of its database.
    pub closed spec fn first_key(&self) -> bool {
        self.is_first_key_in_db
    }

    /// How many elements of the current key were written.
    pub closed spec fn elem_index(&self) -> u64 {
        self.element_index
    }

    pub fn new() -> (r: JSON)
        ensures
            r.out_bytes() =~= Seq::<u8>::empty(),
    {
        JSON {
            out: Vec::new(),
            is_first_db: true,
            has_databases: false,
            is_first_key_in_db: true,
            elements_in_key: 0,
            element_index: 0,
        }
    }

    /// The rendered buffer.
    pub fn output(&self) -> (r: &Vec<u8>)
        ensures
            r@ == self.out_bytes(),
    {
        &self.out
    }

    /// Opens one key's entry: a separating comma unless it is the first
    /// key of its database.
    pub fn start_key(&mut self, length: u64) -> (r: RdbResult<()>)
        ensures
            final(self).out_bytes() == if old(self).first_key() {
                old(self).out_bytes()
            } else {
                old(self).out_bytes() + (",").spec_bytes()
            },
            r is Ok,
    {
        if !self.is_first_key_in_db {
            let _ = write_str(&mut self.out, ",");
        }
        self.is_first_key_in_db = false;
        self.elements_in_key = length;
        self.element_index = 0;
        Ok(())
    }

    /// Closes one key's entry.
    pub fn end_key(&mut self)
        ensures
            final(self).out_bytes() == old(self).out_bytes(),
    {
    }

    /// Writes the separating comma between elements of one key.
    pub fn write_comma(&mut self) -> (r: RdbResult<()>)
        ensures
            final(self).out_bytes() == if old(self).elem_index() > 0 {
                old(self).out_bytes() + (",").spec_bytes()
            } else {
                old(self).out_bytes()
            },
            r is Ok,
    {
        if self.element_index > 0 {
            let _ = write_str(&mut self.out, ",");
        }
        if self.element_index < u64::MAX {
            self.element_index = self.element_index + 1;
        }
        Ok(())
    }

    /// Writes a quoted key.
    pub fn write_key(&mut self, key: &[u8]) -> (r: RdbResult<()>)
        ensures
            r is Ok ==> final(self).out_bytes() == old(self).out_bytes()
                + json_quoted(lossy_chars(key@)),
            r matches Err(e) ==> e is EmitterFailure,
    {
        let quoted = encode_to_ascii(key)?;
        append_bytes(&mut self.out, quoted.as_slice());
        Ok(())
    }

    /// Writes a quoted value.
    pub fn write_value(&mut self, value: &[u8]) -> (r: RdbResult<()>)
        ensures
            r is Ok ==> final(self).out_bytes() == old(self).out_bytes()
                + json_quoted(lossy_chars(value@)),
            r matches Err(e) ==> e is EmitterFailure,
    {
        let quoted = encode_to_ascii(value)?;
        append_bytes(&mut self.out, quoted.as_slice());
        Ok(())
    }
}

impl Formatter for JSON {
    fn start_rdb(&mut self) -> RdbResult<()> {
        write_str(&mut self.out, "[")
    }

    fn end_rdb(&mut self) -> RdbResult<()> {
        if self.has_databases {
            let _ = write_str(&mut self.out, "}");
        }
        write_str(&mut self.out, "]\n")
    }

    fn checksum(&mut self, checksum: &[u8]) -> RdbResult<()> {
        Ok(())
    }

    fn start_database(&mut self, db_index: u64) -> RdbResult<()> {
        if !self.is_first_db {
            let _ = write_str(&mut self.out, "},");
        }
        let _ = write_str(&mut self.out, "{");
        self.is_first_db = false;
        self.has_databases = true;
        self.is_first_key_in_db = true;
        Ok(())
    }

    fn end_database(&mut self, db_index: u64) -> RdbResult<()> {
        Ok(())
    }

    fn resizedb(&mut self, db_size: u64, expires_size: u64) -> RdbResult<()> {
        Ok(())
    }

    fn aux_field(&mut self, key: &[u8], value: &[u8]) -> RdbResult<()> {
        Ok(())
    }

    fn set(&mut self, key: &[u8], value: &[u8], expiry: Option<u64>) -> RdbResult<()> {
        let _ = self.start_key(0);
        self.write_key(key)?;
        let _ = write_str(&mut self.out, ":");
        self.write_value(value)
    }

    fn start_hash(&mut self, key: &[u8], length: u64, expiry: Option<u64>,
        info: EncodingType) -> RdbResult<()> {
        let _ = self.start_key(length);
        self.write_key(key)?;
        write_str(&mut self.out, ":{")
    }

    fn end_hash(&mut self, key: &[u8]) -> RdbResult<()> {
        self.end_key();
        write_str(&mut self.out, "}")
    }

    fn hash_element(&mut self, key: &[u8], field: &[u8], value: &[u8]) -> RdbResult<()> {
        let _ = self.write_comma();
        self.write_key(field)?;
        let _ = write_str(&mut self.out, ":");
        self.write_value(value)
    }

    fn start_set(&mut self, key: &[u8], cardinality: u64, expiry: Option<u64>,
        info: EncodingType) -> RdbResult<()> {
        let _ = self.start_key(cardinality);
        self.write_key(key)?;
        write_str(&mut self.out, ":[")
    }

    fn end_set(&mut self, key: &[u8]) -> RdbResult<()> {
        self.end_key();
        write_str(&mut self.out, "]")
    }

    fn set_element(&mut self, key: &[u8], member: &[u8]) -> RdbResult<()> {
        let _ = self.write_comma();
        self.write_value(member)
    }

    fn start_list(&mut self, key: &[u8], length: u64, expiry: Option<u64>,
        info: EncodingType) -> RdbResult<()> {
        let _ = self.start_key(length);
        self.write_key(key)?;
        write_str(&mut self.out, ":[")
    }

    fn end_list(&mut self, key: &[u8]) -> RdbResult<()> {
        self.end_key();
        write_str(&mut self.out, "]")
    }

    fn list_element(&mut self, key: &[u8], value: &[u8]) -> RdbResult<()> {
        let _ = self.write_comma();
        self.write_value(value)
    }

    fn start_sorted_set(&mut self, key: &[u8], length: u64, expiry: Option<u64>,
        info: EncodingType) -> RdbResult<()> {
        let _ = self.start_key(length);
        self.write_key(key)?;
        write_str(&mut self.out, ":{")
    }

    fn end_sorted_set(&mut self, key: &[u8]) -> RdbResult<()> {
        self.end_key();
        write_str(&mut self.out, "}")
    }

    fn sorted_set_element(&mut self, key: &[u8], score: &Score, member: &[u8])
        -> RdbResult<()> {
        let _ = self.write_comma();
        self.write_key(member)?;
        let _ = write_str(&mut self.out, ":");
        let sc = score_bytes(score);
        self.write_value(sc.as_slice())
    }
}

} // verus!
