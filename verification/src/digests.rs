//! Fixed-length digests: a streaming hash behind the provider's [`Digest`]
//! interface.
//!
//! The hash computation itself comes from a [`BcHash`] implementation
//! (bc-rust's hashes); this module decides capacity, lifecycle, parameters
//! and saved-state framing around it.

use vstd::prelude::*;

use crate::digest::{holds_bytes, lent_bytes, same_outside, zeroed, Digest, Error, Output, Result};
use crate::params::{
    lists_descriptors, name_blocksize, name_eq, name_size, size_t_stored, spec_name_blocksize, spec_name_size, OSSL_PARAM,
    ParamMut, ParamTable, Params,
};

verus! {

/// What a provider digest needs from a streaming hash: construction, input,
/// finalization into a buffer, copies, and saving/restoring an unfinished
/// computation as `SLEN` bytes.
pub trait BcHash<const SLEN: usize>: Sized {
    /// Input block length in bytes.
    const BLOCK_LEN: usize;
    /// Digest length in bytes.
    const OUTPUT_LEN: usize;

    /// A hash with no input absorbed.
    fn new_hash() -> Self;

    /// Absorbs input.
    fn do_update(&mut self, data: &[u8]);

    /// Finishes the computation, writing the digest into `out`.
    fn do_final_out(self, out: &mut [u8]);

    /// An independent copy of the computation so far.
    fn duplicate(&self) -> Self;

    /// Replaces this computation with a copy of `source`'s.
    fn clone_from_hash(&mut self, source: &Self);

    /// Saves the unfinished computation.
    fn suspend(self) -> [u8; SLEN];

    /// Restores a computation from `SLEN` saved bytes, if they are valid.
    fn from_suspended(state: &[u8]) -> Option<Self>;
}

/// A streaming hash behind the provider's [`Digest`] interface.
pub struct BcDigest<H, const SLEN: usize>(H);

/// The algorithm-wide descriptor table of a fixed-length digest:
/// `blocksize` and `size`, both unsigned.
fn fixed_digest_params() -> (t: ParamTable)
    ensures
        lists_descriptors(
            t.spec_entries(),
            seq![
                (spec_name_blocksize(), OSSL_PARAM::UNSIGNED_INTEGER),
                (spec_name_size(), OSSL_PARAM::UNSIGNED_INTEGER),
            ],
        ),
{
    let mut entries: Vec<OSSL_PARAM> = Vec::new();
    entries.push(OSSL_PARAM::defn(&name_blocksize(), OSSL_PARAM::UNSIGNED_INTEGER));
    entries.push(OSSL_PARAM::defn(&name_size(), OSSL_PARAM::UNSIGNED_INTEGER));
    entries.push(OSSL_PARAM::end());
    let ghost listed = entries@;
    match ParamTable::new(entries) {
        Some(t) => {
            assert(lists_descriptors(
                listed,
                seq![
                    (spec_name_blocksize(), OSSL_PARAM::UNSIGNED_INTEGER),
                    (spec_name_size(), OSSL_PARAM::UNSIGNED_INTEGER),
                ],
            ));
            t
        },
        None => {
            assert(false);
            ParamTable::empty()
        },
    }
}

/// The size a saved-state query reports is exactly what an export then
/// commits to the output: the answer of [`Digest::serialize`] without
/// output (`queried`) and the committed counts before and after a
/// successful export agree.
pub proof fn law_query_size_is_export_size<const SLEN: usize>(
    queried: Result<usize>,
    committed_before: nat,
    committed_after: nat,
)
    requires
        queried == Ok::<usize, Error>(SLEN),
        committed_after == committed_before + SLEN,
    ensures
        queried matches Ok(size) && committed_after - committed_before == size,
{
}

impl<H: BcHash<SLEN>, const SLEN: usize> BcDigest<H, SLEN> {
    /// The hash state.
    pub closed spec fn hash(&self) -> H {
        self.0
    }
}

impl<H: BcHash<SLEN>, const SLEN: usize> Digest for BcDigest<H, SLEN> {
    const HAS_NEWCTX: bool = true;
    const HAS_INIT: bool = true;
    const HAS_UPDATE: bool = true;
    const HAS_FINALIZE: bool = true;
    const HAS_GETTABLE_PARAMS: bool = true;
    const HAS_GET_PARAM: bool = true;
    const HAS_DUPCTX: bool = true;
    const HAS_COPYCTX: bool = true;
    const HAS_SERIALIZE: bool = true;
    const HAS_DESERIALIZE: bool = true;

    /// A fresh hash.
    fn newctx() -> (r: Result<Self>)
        ensures
            r matches Ok(d) && call_ensures(H::new_hash, (), d.hash()),
    {
        Ok(BcDigest(H::new_hash()))
    }

    /// Restarts with a fresh hash; there are no initialization parameters.
    fn init(&mut self, params: Option<Params<'_>>) -> (r: Result)
        ensures
            r is Ok,
            call_ensures(H::new_hash, (), final(self).hash()),
    {
        self.0 = H::new_hash();
        Ok(())
    }

    /// `blocksize` and `size`, both unsigned.
    fn gettable_params() -> (t: ParamTable)
        ensures
            lists_descriptors(
                t.spec_entries(),
                seq![
                    (spec_name_blocksize(), OSSL_PARAM::UNSIGNED_INTEGER),
                    (spec_name_size(), OSSL_PARAM::UNSIGNED_INTEGER),
                ],
            ),
    {
        fixed_digest_params()
    }

    /// `blocksize` is the hash's block length and `size` its digest length.
    fn get_param(name: &[u8], param: &mut ParamMut<'_>) -> (r: bool)
        ensures
            name@ == spec_name_blocksize() ==> size_t_stored(old(param).cell(), final(param).cell(), H::BLOCK_LEN, r),
            name@ == spec_name_size() ==> size_t_stored(old(param).cell(), final(param).cell(), H::OUTPUT_LEN, r),
            name@ != spec_name_blocksize() && name@ != spec_name_size() ==> !r && *final(param)
                == *old(param),
    {
        if name_eq(name, &name_blocksize()) {
            return param.set_size_t(H::BLOCK_LEN);
        }
        if name_eq(name, &name_size()) {
            return param.set_size_t(H::OUTPUT_LEN);
        }
        false
    }

    /// The hash absorbs the input.
    fn update(&mut self, data: &[u8]) -> (r: Result)
        ensures
            r is Ok,
            exists|target: &mut H, input: &[u8]|
                #[trigger] call_ensures(H::do_update, (target, input), ()) && *target == old(self).hash()
                    && input@ == data@ && *final(target) == final(self).hash(),
    {
        self.0.do_update(data);
        Ok(())
    }

    /// Writes the digest when the output has room for it; otherwise reports
    /// `BufferTooSmall` and leaves the computation and the output alone.
    fn finalize(&mut self, out: &mut Output<'_>) -> (r: Result)
        ensures
            r is Ok <==> old(out).committed() + H::OUTPUT_LEN <= old(out).capacity(),
            r is Ok ==> final(out).committed() == old(out).committed() + H::OUTPUT_LEN,
            r is Err ==> r == Err::<(), Error>(Error::BufferTooSmall) && *final(out) == *old(out)
                && *final(self) == *old(self),
            r is Ok ==> call_ensures(H::new_hash, (), final(self).hash()),
            r is Ok ==> same_outside(
                final(out).storage(),
                old(out).storage(),
                old(out).committed() as int,
                old(out).committed() + H::OUTPUT_LEN,
            ),
            r is Ok ==> exists|finished: H, digest: &mut [u8]|
                #[trigger] call_ensures(H::do_final_out, (finished, digest), ()) && finished == old(self).hash()
                    && digest@ == Seq::new(
                    H::OUTPUT_LEN as nat,
                    |i: int| 0u8,
                ) && (final(digest)@.len() == H::OUTPUT_LEN ==> holds_bytes(
                    final(out).storage(),
                    old(out).committed() as int,
                    final(digest)@,
                )),
    {
        if out.remaining() < H::OUTPUT_LEN {
            return Err(Error::BufferTooSmall);
        }
        let mut state = H::new_hash();
        core::mem::swap(&mut state, &mut self.0);
        let mut digest = zeroed(H::OUTPUT_LEN);
        state.do_final_out(digest.as_mut_slice());
        let produced = lent_bytes(digest.as_slice(), H::OUTPUT_LEN);
        out.write(produced.as_slice())
    }

    /// A copy holding the hash's own duplicate.
    fn dupctx(&self) -> (r: Result<Self>)
        ensures
            r matches Ok(copy) && exists|from: &H, made: H|
                #[trigger] call_ensures(H::duplicate, (from,), made) && *from == self.hash() && copy.hash() == made,
    {
        let copy = self.0.duplicate();
        Ok(BcDigest(copy))
    }

    /// The hash becomes what the hash's own copy leaves it, from the
    /// source's hash.
    fn copyctx(&mut self, source: &Self)
        ensures
            exists|target: &mut H, from: &H|
                call_ensures(H::clone_from_hash, (target, from), ()) && *target == old(self).hash() && *from
                    == source.hash() && *final(target) == final(self).hash(),
    {
        self.0.clone_from_hash(&source.0);
    }

    /// Without output, reports `SLEN`; with output, appends the `SLEN` saved
    /// bytes and reports the output's written count, or fails with
    /// `BufferTooSmall` leaving the output alone.
    fn serialize(&self, out: Option<&mut Output<'_>>) -> (r: Result<usize>)
        ensures
            out is None ==> r == Ok::<usize, Error>(SLEN),
            out is Some ==> (r is Ok <==> old(out->0).committed() + SLEN <= old(out->0).capacity()),
            out is Some && r is Ok ==> {
                &&& final(out->0).committed() == old(out->0).committed() + SLEN
                &&& r == Ok::<usize, Error>(final(out->0).committed() as usize)
            },
            out is Some && r is Err ==> r == Err::<usize, Error>(Error::BufferTooSmall)
                && *final(out->0) == *old(out->0),
            out is Some && r is Ok ==> same_outside(
                final(out->0).storage(),
                old(out->0).storage(),
                old(out->0).committed() as int,
                old(out->0).committed() + SLEN,
            ),
            out is Some && r is Ok ==> exists|from: &H, copy: H, saved: [u8; SLEN]|
                #[trigger] call_ensures(H::duplicate, (from,), copy) && *from == self.hash() && #[trigger] call_ensures(
                    H::suspend,
                    (copy,),
                    saved,
                ) && holds_bytes(final(out->0).storage(), old(out->0).committed() as int, saved@),
    {
        let out = match out {
            Some(out) => out,
            None => return Ok(SLEN),
        };
        let state = self.0.duplicate().suspend();
        out.write(state.as_slice())?;
        Ok(out.written())
    }

    /// Restores exactly `SLEN` valid saved bytes; anything else is rejected
    /// with `InvalidParameter`, keeping the current computation.
    fn deserialize(&mut self, input: &[u8]) -> (r: Result)
        ensures
            input@.len() != SLEN ==> r == Err::<(), Error>(Error::InvalidParameter),
            r is Err ==> r == Err::<(), Error>(Error::InvalidParameter)
                && *final(self) == *old(self),
            input@.len() == SLEN ==> exists|restored: Option<H>|
                #[trigger] call_ensures(H::from_suspended, (input,), restored) && match restored {
                    Some(state) => r is Ok && final(self).hash() == state,
                    None => r == Err::<(), Error>(Error::InvalidParameter),
                },
    {
        if input.len() != SLEN {
            return Err(Error::InvalidParameter);
        }
        match H::from_suspended(input) {
            Some(state) => {
                self.0 = state;
                Ok(())
            },
            None => Err(Error::InvalidParameter),
        }
    }
}

} // verus!
