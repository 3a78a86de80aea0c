//! Filters: the three predicates the state machine consults before
//! committing to decoding a key record.  A key is emitted only when all
//! three admit it; otherwise its record is skip-consumed byte-exactly.

use vstd::prelude::*;
use crate::foreign::{regex_is_match, regex_match};
use crate::types::Type;

verus! {

/// The filter interface: which databases, encoding types and keys to
/// decode.  Implementors supply the three predicates; the parser
/// consumes every record either way.
pub trait RdbFilter {
    /// What the database predicate decides.
    spec fn db_allowed(&self, db: u64) -> bool;

    /// What the type predicate decides.
    spec fn type_allowed(&self, enc_type: u8) -> bool;

    /// What the key predicate decides.
    spec fn key_allowed(&self, key: Seq<u8>) -> bool;

    fn matches_db(&self, db: u64) -> (r: bool)
        ensures
            r == self.db_allowed(db),
    ;

    fn matches_type(&self, enc_type: u8) -> (r: bool)
        ensures
            r == self.type_allowed(enc_type),
    ;

    fn matches_key(&self, key: &[u8]) -> (r: bool)
        ensures
            r == self.key_allowed(key@),
    ;
}

/// The filter that admits everything.
#[derive(Clone, Copy)]
pub struct AllFilter;

impl RdbFilter for AllFilter {
    open spec fn db_allowed(&self, db: u64) -> bool {
        true
    }

    open spec fn type_allowed(&self, enc_type: u8) -> bool {
        true
    }

    open spec fn key_allowed(&self, key: Seq<u8>) -> bool {
        true
    }

    fn matches_db(&self, db: u64) -> (r: bool) {
        true
    }

    fn matches_type(&self, enc_type: u8) -> (r: bool) {
        true
    }

    fn matches_key(&self, key: &[u8]) -> (r: bool) {
        true
    }
}

/// A filter over chosen databases, logical types and a key pattern.  An
/// empty database or type list admits everything; an absent pattern
/// admits every key.
pub struct StrictFilter {
    databases: Vec<u64>,
    types: Vec<Type>,
    keys: Option<regex::bytes::Regex>,
}

impl StrictFilter {
    pub fn new() -> (r: StrictFilter)
        ensures
            r.spec_databases() =~= Seq::<u64>::empty(),
            r.spec_types() =~= Seq::<Type>::empty(),
            r.spec_keys() is None,
    {
        StrictFilter { databases: Vec::new(), types: Vec::new(), keys: None }
    }

    /// The database list.
    pub closed spec fn spec_databases(&self) -> Seq<u64> {
        self.databases@
    }

    /// The type list.
    pub closed spec fn spec_types(&self) -> Seq<Type> {
        self.types@
    }

    /// The key pattern, if one was set.
    pub closed spec fn spec_keys(&self) -> Option<regex::bytes::Regex> {
        self.keys
    }

    /// Restricts the filter to one more database.
    pub fn add_database(&mut self, db: u64)
        ensures
            final(self).spec_databases() == old(self).spec_databases().push(db),
            final(self).spec_types() == old(self).spec_types(),
            final(self).spec_keys() == old(self).spec_keys(),
    {
        self.databases.push(db);
    }

    /// Restricts the filter to one more logical type.
    pub fn add_type(&mut self, typ: Type)
        ensures
            final(self).spec_types() == old(self).spec_types().push(typ),
            final(self).spec_databases() == old(self).spec_databases(),
            final(self).spec_keys() == old(self).spec_keys(),
    {
        self.types.push(typ);
    }

    /// Restricts the filter to keys matching a pattern.
    pub fn add_keys(&mut self, re: regex::bytes::Regex)
        ensures
            final(self).spec_keys() == Some(re),
            final(self).spec_databases() == old(self).spec_databases(),
            final(self).spec_types() == old(self).spec_types(),
    {
        self.keys = Some(re);
    }
}

impl RdbFilter for StrictFilter {
    open spec fn db_allowed(&self, db: u64) -> bool {
        self.spec_databases().len() == 0 || self.spec_databases().contains(db)
    }

    open spec fn type_allowed(&self, enc_type: u8) -> bool {
        self.spec_types().len() == 0 || match Type::spec_from_encoding(enc_type) {
            Some(t) => self.spec_types().contains(t),
            None => false,
        }
    }

    open spec fn key_allowed(&self, key: Seq<u8>) -> bool {
        match self.spec_keys() {
            None => true,
            Some(re) => regex_match(re, key),
        }
    }

    fn matches_db(&self, db: u64) -> (r: bool) {
        if self.databases.len() == 0 {
            return true;
        }
        let mut k: usize = 0;
        while k < self.databases.len()
            invariant
                k <= self.databases@.len(),
                forall|m: int| 0 <= m < k ==> self.databases@[m] != db,
            decreases self.databases@.len() - k,
        {
            if self.databases[k] == db {
                proof {
                    assert(self.databases@.contains(db));
                }
                return true;
            }
            k = k + 1;
        }
        proof {
            assert(!self.databases@.contains(db));
        }
        false
    }

    fn matches_type(&self, enc_type: u8) -> (r: bool) {
        if self.types.len() == 0 {
            return true;
        }
        let typ = match Type::from_encoding(enc_type) {
            Some(t) => t,
            None => {
                return false;
            },
        };
        let mut k: usize = 0;
        while k < self.types.len()
            invariant
                k <= self.types@.len(),
                forall|m: int| 0 <= m < k ==> self.types@[m] != typ,
                Type::spec_from_encoding(enc_type) == Some(typ),
            decreases self.types@.len() - k,
        {
            if self.types[k] == typ {
                proof {
                    assert(self.types@.contains(typ));
                }
                return true;
            }
            k = k + 1;
        }
        proof {
            assert(!self.types@.contains(typ));
        }
        false
    }

    fn matches_key(&self, key: &[u8]) -> (r: bool) {
        match &self.keys {
            None => true,
            Some(re) => regex_is_match(re, key),
        }
    }
}

} // verus!
