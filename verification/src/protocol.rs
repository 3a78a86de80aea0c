//! The wire-protocol emitter: renders every event as commands in the
//! serialization protocol of the store, an array of bulk strings per
//! command, into an in-memory buffer.

use vstd::prelude::*;
use vstd::string::StringSliceAdditionalSpecFns;
use crate::formatter::{Formatter, write_str, score_bytes};
use crate::helper::{append_bytes, u64_to_vec};
use crate::model::dec_digits;
use crate::types::{EncodingType, RdbResult, Score};

verus! {

/// One bulk string: `$`, its length in decimal, CRLF, the bytes, CRLF.
pub open spec fn resp_arg(a: Seq<u8>) -> Seq<u8> {
    ("$").spec_bytes() + dec_digits(a.len()) + ("\r\n").spec_bytes() + a
        + ("\r\n").spec_bytes()
}

/// The bulk strings of a command, in order.
pub open spec fn resp_args(args: Seq<Seq<u8>>) -> Seq<u8>
    decreases args.len(),
{
    if args.len() == 0 {
        Seq::empty()
    } else {
        resp_arg(args[0]) + resp_args(args.skip(1))
    }
}

/// A whole command: `*`, the argument count in decimal, CRLF, then the
/// bulk strings.
pub open spec fn resp_of(args: Seq<Seq<u8>>) -> Seq<u8> {
    ("*").spec_bytes() + dec_digits(args.len()) + ("\r\n").spec_bytes() + resp_args(args)
}

/// Copies a string slice into an owned byte vector.
pub fn str_vec(s: &str) -> (r: Vec<u8>)
    ensures
        r@ == s.spec_bytes(),
{
    let mut out: Vec<u8> = Vec::new();
    append_bytes(&mut out, s.as_bytes());
    proof {
        assert(out@ =~= s.spec_bytes());
    }
    out
}

/// Copies a byte slice into an owned byte vector.
pub fn slice_vec(b: &[u8]) -> (r: Vec<u8>)
    ensures
        r@ == b@,
{
    let mut out: Vec<u8> = Vec::new();
    append_bytes(&mut out, b);
    proof {
        assert(out@ =~= b@);
    }
    out
}

/// The wire-protocol emitter.  It latches the pending expiry of the key
/// record being emitted and issues the expiry command after the record's
/// own commands.
pub struct Protocol {
    out: Vec<u8>,
    last_expiry: Option<u64>,
}

impl Protocol {
    /// Everything rendered so far.
    pub closed spec fn out_bytes(&self) -> Seq<u8> {
        self.out@
    }

    /// The expiry latched for the key being emitted.
    pub closed spec fn spec_last_expiry(&self) -> Option<u64> {
        self.last_expiry
    }

    pub fn new() -> (r: Protocol)
        ensures
            r.out_bytes() =~= Seq::<u8>::empty(),
            r.spec_last_expiry() is None,
    {
        Protocol { out: Vec::new(), last_expiry: None }
    }

    /// The rendered buffer.
    pub fn output(&self) -> (r: &Vec<u8>)
        ensures
            r@ == self.out_bytes(),
    {
        &self.out
    }

    /// Renders one command.
    #[verifier::rlimit(60)]
    fn emit(&mut self, args: &Vec<Vec<u8>>) -> (r: RdbResult<()>)
        ensures
            final(self).out_bytes() == old(self).out_bytes() + resp_of(args.deep_view()),
            final(self).spec_last_expiry() == old(self).spec_last_expiry(),
            r is Ok,
    {
        let ghost argsd = args.deep_view();
        let ghost exp0 = self.last_expiry;
        let ghost target = old(self).out_bytes() + resp_of(argsd);
        let _ = write_str(&mut self.out, "*");
        let count = u64_to_vec(args.len() as u64);
        append_bytes(&mut self.out, count.as_slice());
        let _ = write_str(&mut self.out, "\r\n");
        proof {
            assert(self.out@ + resp_args(argsd) =~= target);
            assert(argsd.skip(0) =~= argsd);
        }
        let mut k: usize = 0;
        while k < args.len()
            invariant
                self.last_expiry == exp0,
                k <= args@.len(),
                argsd == args.deep_view(),
                self.out@ + resp_args(argsd.skip(k as int)) =~= target,
            decreases args@.len() - k,
        {
            let ghost pre = self.out@;
            let _ = write_str(&mut self.out, "$");
            let alen = u64_to_vec(args[k].len() as u64);
            append_bytes(&mut self.out, alen.as_slice());
            let _ = write_str(&mut self.out, "\r\n");
            append_bytes(&mut self.out, args[k].as_slice());
            let _ = write_str(&mut self.out, "\r\n");
            proof {
                assert(argsd[k as int] =~= args@[k as int]@);
                assert(self.out@ =~= pre + resp_arg(argsd[k as int]));
                assert(argsd.skip(k as int)[0] == argsd[k as int]);
                assert(argsd.skip(k as int).skip(1) =~= argsd.skip(k + 1));
                assert(resp_args(argsd.skip(k as int))
                    == resp_arg(argsd[k as int]) + resp_args(argsd.skip(k + 1)));
                assert(self.out@ + resp_args(argsd.skip(k + 1)) =~= target);
            }
            k = k + 1;
        }
        proof {
            assert(argsd.skip(args@.len() as int) =~= Seq::<Seq<u8>>::empty());
            assert(resp_args(argsd.skip(args@.len() as int)) =~= Seq::<u8>::empty());
            assert(self.out@ =~= target);
        }
        Ok(())
    }

    /// Latches the expiry of the record being emitted.
    fn pre_expire(&mut self, expiry: Option<u64>)
        ensures
            final(self).out_bytes() == old(self).out_bytes(),
            final(self).spec_last_expiry() == expiry,
    {
        self.last_expiry = expiry;
    }

    /// Issues the latched expiry command for the finished record, then
    /// clears the latch.
    fn post_expire(&mut self, key: &[u8]) -> (r: RdbResult<()>)
        ensures
            final(self).spec_last_expiry() is None,
            old(self).spec_last_expiry() matches Some(t) ==> final(self).out_bytes()
                == old(self).out_bytes() + resp_of(seq![("PEXPIREAT").spec_bytes(), key@,
                    dec_digits(t as nat)]),
            old(self).spec_last_expiry() is None ==> final(self).out_bytes()
                == old(self).out_bytes(),
            r is Ok,
    {
        let expiry = self.last_expiry;
        match expiry {
            Some(expire) => {
                let mut args: Vec<Vec<u8>> = Vec::new();
                args.push(str_vec("PEXPIREAT"));
                args.push(slice_vec(key));
                args.push(u64_to_vec(expire));
                proof {
                    assert(args.deep_view() =~~= seq![("PEXPIREAT").spec_bytes(), key@,
                        dec_digits(expire as nat)]);
                }
                let _ = self.emit(&args);
                self.last_expiry = None;
                Ok(())
            },
            None => Ok(()),
        }
    }
}

impl Formatter for Protocol {
    open spec fn infallible(&self) -> bool {
        true
    }

    fn start_rdb(&mut self) -> RdbResult<()> {
        Ok(())
    }

    fn end_rdb(&mut self) -> RdbResult<()> {
        Ok(())
    }

    fn checksum(&mut self, checksum: &[u8]) -> RdbResult<()> {
        Ok(())
    }

    fn start_database(&mut self, db_index: u64) -> RdbResult<()> {
        let mut args: Vec<Vec<u8>> = Vec::new();
        args.push(str_vec("SELECT"));
        args.push(u64_to_vec(db_index));
        self.emit(&args)
    }

    fn end_database(&mut self, db_index: u64) -> RdbResult<()> {
        Ok(())
    }

    fn resizedb(&mut self, db_size: u64, expires_size: u64) -> RdbResult<()> {
        Ok(())
    }

    fn aux_field(&mut self, key: &[u8], value: &[u8]) -> RdbResult<()> {
        Ok(())
    }

    fn set(&mut self, key: &[u8], value: &[u8], expiry: Option<u64>) -> RdbResult<()> {
        self.pre_expire(expiry);
        let mut args: Vec<Vec<u8>> = Vec::new();
        args.push(str_vec("SET"));
        args.push(slice_vec(key));
        args.push(slice_vec(value));
        let r = self.emit(&args);
        if r.is_err() {
            return r;
        }
        self.post_expire(key)
    }

    fn start_hash(&mut self, key: &[u8], length: u64, expiry: Option<u64>,
        info: EncodingType) -> RdbResult<()> {
        self.pre_expire(expiry);
        Ok(())
    }

    fn end_hash(&mut self, key: &[u8]) -> RdbResult<()> {
        self.post_expire(key)
    }

    fn hash_element(&mut self, key: &[u8], field: &[u8], value: &[u8]) -> RdbResult<()> {
        let mut args: Vec<Vec<u8>> = Vec::new();
        args.push(str_vec("HSET"));
        args.push(slice_vec(key));
        args.push(slice_vec(field));
        args.push(slice_vec(value));
        self.emit(&args)
    }

    fn start_set(&mut self, key: &[u8], cardinality: u64, expiry: Option<u64>,
        info: EncodingType) -> RdbResult<()> {
        self.pre_expire(expiry);
        Ok(())
    }

    fn end_set(&mut self, key: &[u8]) -> RdbResult<()> {
        self.post_expire(key)
    }

    fn set_element(&mut self, key: &[u8], member: &[u8]) -> RdbResult<()> {
        let mut args: Vec<Vec<u8>> = Vec::new();
        args.push(str_vec("SADD"));
        args.push(slice_vec(key));
        args.push(slice_vec(member));
        self.emit(&args)
    }

    fn start_list(&mut self, key: &[u8], length: u64, expiry: Option<u64>,
        info: EncodingType) -> RdbResult<()> {
        self.pre_expire(expiry);
        Ok(())
    }

    fn end_list(&mut self, key: &[u8]) -> RdbResult<()> {
        self.post_expire(key)
    }

    fn list_element(&mut self, key: &[u8], value: &[u8]) -> RdbResult<()> {
        let mut args: Vec<Vec<u8>> = Vec::new();
        args.push(str_vec("RPUSH"));
        args.push(slice_vec(key));
        args.push(slice_vec(value));
        self.emit(&args)
    }

    fn start_sorted_set(&mut self, key: &[u8], length: u64, expiry: Option<u64>,
        info: EncodingType) -> RdbResult<()> {
        self.pre_expire(expiry);
        Ok(())
    }

    fn end_sorted_set(&mut self, key: &[u8]) -> RdbResult<()> {
        self.post_expire(key)
    }

    fn sorted_set_element(&mut self, key: &[u8], score: &Score, member: &[u8])
        -> RdbResult<()> {
        let mut args: Vec<Vec<u8>> = Vec::new();
        args.push(str_vec("ZADD"));
        args.push(slice_vec(key));
        args.push(score_bytes(score));
        args.push(slice_vec(member));
        self.emit(&args)
    }
}

} // verus!
