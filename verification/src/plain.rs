//! The plain-text emitter: one line per element, prefixed with the
//! database number, rendered into an in-memory buffer.

use vstd::prelude::*;
use vstd::string::StringSliceAdditionalSpecFns;
use crate::foreign::hex_encode;
use crate::formatter::{Formatter, write_str, score_bytes};
use crate::helper::{append_bytes, u64_to_vec};
use crate::model::dec_digits;
use crate::types::{EncodingType, RdbResult, Score};

verus! {

/// The plain-text emitter.
pub struct Plain {
    out: Vec<u8>,
    dbnum: u64,
    index: u64,
}

impl Plain {
    /// Everything rendered so far.
    pub closed spec fn out_bytes(&self) -> Seq<u8> {
        self.out@
    }

    /// The database number lines are prefixed with.
    pub closed spec fn spec_dbnum(&self) -> u64 {
        self.dbnum
    }

    /// The element index within the current collection.
    pub closed spec fn spec_index(&self) -> u64 {
        self.index
    }

    pub fn new() -> (r: Plain)
        ensures
            r.out_bytes() =~= Seq::<u8>::empty(),
    {
        Plain { out: Vec::new(), dbnum: 0, index: 0 }
    }

    /// The rendered buffer.
    pub fn output(&self) -> (r: &Vec<u8>)
        ensures
            r@ == self.out_bytes(),
    {
        &self.out
    }

    /// Writes the `db=N ` prefix every line starts with.
    pub fn write_line_start(&mut self) -> (r: RdbResult<()>)
        ensures
            final(self).out_bytes() == old(self).out_bytes() + ("db=").spec_bytes()
                + dec_digits(old(self).spec_dbnum() as nat) + (" ").spec_bytes(),
            final(self).spec_dbnum() == old(self).spec_dbnum(),
            final(self).spec_index() == old(self).spec_index(),
            r is Ok,
    {
        let _ = write_str(&mut self.out, "db=");
        let num = u64_to_vec(self.dbnum);
        append_bytes(&mut self.out, num.as_slice());
        write_str(&mut self.out, " ")
    }
}

impl Formatter for Plain {
    open spec fn infallible(&self) -> bool {
        true
    }

    fn start_rdb(&mut self) -> RdbResult<()> {
        Ok(())
    }

    fn end_rdb(&mut self) -> RdbResult<()> {
        Ok(())
    }

    fn checksum(&mut self, checksum: &[u8]) -> RdbResult<()> {
        let _ = write_str(&mut self.out, "checksum ");
        let hexed = hex_encode(checksum);
        append_bytes(&mut self.out, hexed.as_slice());
        write_str(&mut self.out, "\n")
    }

    fn start_database(&mut self, db_index: u64) -> RdbResult<()> {
        self.dbnum = db_index;
        Ok(())
    }

    fn end_database(&mut self, db_index: u64) -> RdbResult<()> {
        Ok(())
    }

    fn resizedb(&mut self, db_size: u64, expires_size: u64) -> RdbResult<()> {
        Ok(())
    }

    fn aux_field(&mut self, key: &[u8], value: &[u8]) -> RdbResult<()> {
        let _ = write_str(&mut self.out, "aux ");
        append_bytes(&mut self.out, key);
        let _ = write_str(&mut self.out, " -> ");
        append_bytes(&mut self.out, value);
        write_str(&mut self.out, "\n")
    }

    fn set(&mut self, key: &[u8], value: &[u8], expiry: Option<u64>) -> RdbResult<()> {
        let _ = self.write_line_start();
        append_bytes(&mut self.out, key);
        let _ = write_str(&mut self.out, " -> ");
        append_bytes(&mut self.out, value);
        write_str(&mut self.out, "\n")
    }

    fn start_hash(&mut self, key: &[u8], length: u64, expiry: Option<u64>,
        info: EncodingType) -> RdbResult<()> {
        Ok(())
    }

    fn end_hash(&mut self, key: &[u8]) -> RdbResult<()> {
        Ok(())
    }

    fn hash_element(&mut self, key: &[u8], field: &[u8], value: &[u8]) -> RdbResult<()> {
        let _ = self.write_line_start();
        append_bytes(&mut self.out, key);
        let _ = write_str(&mut self.out, " . ");
        append_bytes(&mut self.out, field);
        let _ = write_str(&mut self.out, " -> ");
        append_bytes(&mut self.out, value);
        write_str(&mut self.out, "\n")
    }

    fn start_set(&mut self, key: &[u8], cardinality: u64, expiry: Option<u64>,
        info: EncodingType) -> RdbResult<()> {
        Ok(())
    }

    fn end_set(&mut self, key: &[u8]) -> RdbResult<()> {
        Ok(())
    }

    fn set_element(&mut self, key: &[u8], member: &[u8]) -> RdbResult<()> {
        let _ = self.write_line_start();
        append_bytes(&mut self.out, key);
        let _ = write_str(&mut self.out, " { ");
        append_bytes(&mut self.out, member);
        write_str(&mut self.out, " } \n")
    }

    fn start_list(&mut self, key: &[u8], length: u64, expiry: Option<u64>,
        info: EncodingType) -> RdbResult<()> {
        self.index = 0;
        Ok(())
    }

    fn end_list(&mut self, key: &[u8]) -> RdbResult<()> {
        Ok(())
    }

    fn list_element(&mut self, key: &[u8], value: &[u8]) -> RdbResult<()> {
        let _ = self.write_line_start();
        append_bytes(&mut self.out, key);
        let _ = write_str(&mut self.out, "[");
        let idx = u64_to_vec(self.index);
        append_bytes(&mut self.out, idx.as_slice());
        let _ = write_str(&mut self.out, "]");
        let _ = write_str(&mut self.out, " -> ");
        append_bytes(&mut self.out, value);
        let r = write_str(&mut self.out, "\n");
        if self.index < u64::MAX {
            self.index = self.index + 1;
        }
        r
    }

    fn start_sorted_set(&mut self, key: &[u8], length: u64, expiry: Option<u64>,
        info: EncodingType) -> RdbResult<()> {
        self.index = 0;
        Ok(())
    }

    fn end_sorted_set(&mut self, key: &[u8]) -> RdbResult<()> {
        Ok(())
    }

    fn sorted_set_element(&mut self, key: &[u8], score: &Score, member: &[u8])
        -> RdbResult<()> {
        let _ = self.write_line_start();
        append_bytes(&mut self.out, key);
        let _ = write_str(&mut self.out, "[");
        let idx = u64_to_vec(self.index);
        append_bytes(&mut self.out, idx.as_slice());
        let _ = write_str(&mut self.out, "]");
        let _ = write_str(&mut self.out, " -> {");
        append_bytes(&mut self.out, member);
        let _ = write_str(&mut self.out, ", score=");
        let sc = score_bytes(score);
        append_bytes(&mut self.out, sc.as_slice());
        let r = write_str(&mut self.out, "}\n");
        if self.index < u64::MAX {
            self.index = self.index + 1;
        }
        r
    }
}

} // verus!
