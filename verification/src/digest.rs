//! Digest operation: bounded output storage, the `Digest` interface a
//! provider implements, and the adapters that serve OpenSSL's callbacks.

use core::marker::PhantomData;
use vstd::prelude::*;

use crate::bindings::OSSL_DISPATCH;
use crate::params::{find_named, is_first_named, is_live_len, lists_descriptors, position_named, OSSL_PARAM, ParamMut, ParamTable, Params};

verus! {

/// Errors that the digest adapters report to C as failure.
#[derive(Clone, Copy, Debug, PartialEq, Eq, Structural)]
pub enum Error {
    /// The operation is not implemented.
    Unsupported,
    /// The caller's output buffer cannot hold the requested bytes.
    BufferTooSmall,
    /// A context parameter was rejected.
    InvalidParameter,
    /// The operation is not valid in the context's current phase.
    InvalidState,
}

/// A fallible operation on a digest context.
pub type Result<T = ()> = core::result::Result<T, Error>;

/// Whether the storage holds exactly `bytes` from position `start` on.
pub open spec fn holds_bytes(storage: Seq<u8>, start: int, bytes: Seq<u8>) -> bool {
    &&& 0 <= start
    &&& start + bytes.len() <= storage.len()
    &&& forall|i: int| 0 <= i < bytes.len() ==> #[trigger] storage[start + i] == bytes[i]
}

/// Whether two storage sequences agree everywhere outside `[start, end)`.
pub open spec fn same_outside(a: Seq<u8>, b: Seq<u8>, start: int, end: int) -> bool {
    &&& a.len() == b.len()
    &&& forall|i: int| 0 <= i < a.len() && !(start <= i < end) ==> #[trigger] a[i] == b[i]
}

/// A buffer of `len` zero bytes.
pub(crate) fn zeroed(len: usize) -> (v: Vec<u8>)
    ensures
        v@ == Seq::new(len as nat, |i: int| 0u8),
{
    let mut v: Vec<u8> = Vec::new();
    while v.len() < len
        invariant
            v@ == Seq::new(v@.len(), |i: int| 0u8),
            v@.len() <= len,
        decreases len - v@.len(),
    {
        v.push(0u8);
        assert(v@ =~= Seq::new(v@.len(), |i: int| 0u8));
    }
    assert(v@ =~= Seq::new(len as nat, |i: int| 0u8));
    v
}

/// The first `len` bytes a callee left in a lent buffer of that length.
///
/// A callee cannot resize a slice it was lent; the bound only keeps the copy
/// in range without relying on that.
pub(crate) fn lent_bytes(buffer: &[u8], len: usize) -> (v: Vec<u8>)
    ensures
        v@.len() == len,
        buffer@.len() == len ==> v@ == buffer@,
{
    let mut v: Vec<u8> = Vec::new();
    while v.len() < len
        invariant
            v@.len() <= len,
            buffer@.len() == len ==> v@ == buffer@.take(v@.len() as int),
        decreases len - v@.len(),
    {
        let i = v.len();
        let byte = if i < buffer.len() {
            buffer[i]
        } else {
            0u8
        };
        v.push(byte);
        assert(buffer@.len() == len ==> v@ =~= buffer@.take(v@.len() as int));
    }
    assert(buffer@.len() == len ==> buffer@.take(len as int) =~= buffer@);
    v
}

/// Borrowed output storage that tracks the bytes a digest committed.
///
/// Writes never read the previous contents, only replace the region they
/// commit, and advance the committed count only on success; nothing about
/// the storage is offered beyond `written`.
pub struct Output<'a> {
    storage: &'a mut [u8],
    written: usize,
}

/// Two successful writes leave their bytes one after the other from where
/// the first began, and nothing else changes.
pub proof fn law_writes_append(
    before: Seq<u8>,
    middle: Seq<u8>,
    after: Seq<u8>,
    start: int,
    first: Seq<u8>,
    second: Seq<u8>,
)
    requires
        holds_bytes(middle, start, first),
        same_outside(middle, before, start, start + first.len()),
        holds_bytes(after, start + first.len(), second),
        same_outside(after, middle, start + first.len(), start + first.len() + second.len()),
    ensures
        holds_bytes(after, start, first + second),
        same_outside(after, before, start, start + first.len() + second.len()),
{
    let both = first + second;
    assert forall|i: int| 0 <= i < both.len() implies #[trigger] after[start + i] == both[i] by {
        if i < first.len() {
            assert(after[start + i] == middle[start + i]);
            assert(middle[start + i] == first[i]);
        } else {
            let j = i - first.len();
            assert(after[start + first.len() + j] == second[j]);
        }
    }
}

/// The bytes that the successful writes among `lens` request, `oks[i]`
/// telling whether the `i`-th write succeeded.
pub open spec fn successful_total(lens: Seq<nat>, oks: Seq<bool>) -> nat
    decreases lens.len(),
{
    if lens.len() == 0 {
        0
    } else {
        successful_total(lens.drop_last(), oks.drop_last()) + if oks[lens.len() - 1] {
            lens.last()
        } else {
            0
        }
    }
}

/// Over any run of writes, the committed count grows by exactly the lengths
/// of the writes that succeeded: `counts[i]` is the count before the `i`-th
/// write, which asked for `lens[i]` bytes and succeeded when `oks[i]`.
pub proof fn law_committed_counts_successes(counts: Seq<nat>, lens: Seq<nat>, oks: Seq<bool>)
    requires
        counts.len() == lens.len() + 1,
        oks.len() == lens.len(),
        forall|i: int|
            0 <= i < lens.len() ==> counts[i + 1] == counts[i] + if #[trigger] oks[i] {
                lens[i]
            } else {
                0
            },
    ensures
        counts.last() == counts[0] + successful_total(lens, oks),
    decreases lens.len(),
{
    if lens.len() > 0 {
        law_committed_counts_successes(counts.drop_last(), lens.drop_last(), oks.drop_last());
    }
}

impl<'a> Output<'a> {
    #[verifier::type_invariant]
    spec fn inv(&self) -> bool {
        self.written <= self.storage@.len()
    }

    /// The storage cells, including those not written yet.
    pub closed spec fn storage(&self) -> Seq<u8> {
        self.storage@
    }

    /// The borrowed storage itself: its final value is where the output's
    /// writes end up.
    pub closed spec fn target(&self) -> &'a mut [u8] {
        self.storage
    }

    /// Gives the storage back: what it holds now is what the borrowed
    /// storage ends up holding.
    pub fn release(self)
        ensures
            final(self.target())@ == self.storage(),
    {
    }

    /// Number of bytes the storage can hold in total.
    pub open spec fn capacity(&self) -> nat {
        self.storage().len()
    }

    /// Number of bytes committed by successful writes.
    pub closed spec fn committed(&self) -> nat {
        self.written as nat
    }

    /// Wrap exclusive output storage, initially reporting no bytes written.
    /// What is written through the output ends up in the storage.
    pub fn new(storage: &'a mut [u8]) -> (out: Self)
        ensures
            out.storage() == old(storage)@,
            out.committed() == 0,
            final(storage)@ == final(out.target())@,
    {
        Output { storage, written: 0 }
    }

    /// Number of storage bytes not yet committed.
    pub fn remaining(&self) -> (n: usize)
        ensures
            n == self.capacity() - self.committed(),
    {
        proof {
            use_type_invariant(self);
        }
        self.storage.len() - self.written
    }

    /// Append bytes without reading the previous contents of the buffer.
    ///
    /// Succeeds exactly when the bytes fit after those already committed;
    /// otherwise returns `BufferTooSmall` and writes nothing.
    pub fn write(&mut self, bytes: &[u8]) -> (r: Result)
        ensures
            final(self).capacity() == old(self).capacity(),
            r is Ok <==> old(self).committed() + bytes@.len() <= old(self).capacity(),
            r is Ok ==> {
                &&& final(self).committed() == old(self).committed() + bytes@.len()
                &&& holds_bytes(final(self).storage(), old(self).committed() as int, bytes@)
                &&& same_outside(
                    final(self).storage(),
                    old(self).storage(),
                    old(self).committed() as int,
                    (old(self).committed() + bytes@.len()) as int,
                )
            },
            r is Err ==> r == Err::<(), Error>(Error::BufferTooSmall) && *final(self) == *old(self),
            final(final(self).target())@ == final(old(self).target())@,
    {
        proof {
            use_type_invariant(&*self);
        }
        let start = self.written;
        if bytes.len() > self.storage.len() - start {
            return Err(Error::BufferTooSmall);
        }
        let mut i: usize = 0;
        while i < bytes.len()
            invariant
                start == self.written,
                start == old(self).written,
                final(self.target())@ == final(old(self).target())@,
                start + bytes@.len() <= self.storage.len(),
                self.storage@.len() == old(self).storage@.len(),
                0 <= i <= bytes@.len(),
                holds_bytes(self.storage@, start as int, bytes@.take(i as int)),
                same_outside(self.storage@, old(self).storage@, start as int, start + i),
            decreases bytes.len() - i,
        {
            self.storage[start + i] = bytes[i];
            i += 1;
            assert(bytes@.take(i as int) =~= bytes@.take((i - 1) as int).push(bytes@[i - 1]));
        }
        assert(bytes@.take(bytes@.len() as int) =~= bytes@);
        self.written = start + bytes.len();
        Ok(())
    }

    /// Append `len` bytes that a callback fills in a zeroed buffer.
    ///
    /// The callback is not invoked when capacity is insufficient. The region
    /// is zeroed first; the written length advances only if the callback
    /// succeeds. Whatever the callback left in the region stays there, also
    /// when it fails.
    pub fn write_with<F>(&mut self, len: usize, fill: F) -> (r: Result) where
        F: FnOnce(&mut [u8]) -> Result,
        requires
            forall|bytes: &mut [u8]| bytes@.len() == len ==> #[trigger] fill.requires((bytes,)),
        ensures
            final(self).capacity() == old(self).capacity(),
            old(self).committed() + len > old(self).capacity() ==> r == Err::<(), Error>(
                Error::BufferTooSmall,
            ) && *final(self) == *old(self),
            old(self).committed() + len <= old(self).capacity() ==> {
                &&& exists|bytes: &mut [u8]|
                    bytes@ == Seq::new(len as nat, |i: int| 0u8) && #[trigger] fill.ensures((bytes,), r) && (
                    final(bytes)@.len() == len ==> holds_bytes(
                        final(self).storage(),
                        old(self).committed() as int,
                        final(bytes)@,
                    ))
                &&& r is Ok ==> final(self).committed() == old(self).committed() + len
                &&& r is Err ==> final(self).committed() == old(self).committed()
                &&& same_outside(
                    final(self).storage(),
                    old(self).storage(),
                    old(self).committed() as int,
                    (old(self).committed() + len) as int,
                )
            },
            final(final(self).target())@ == final(old(self).target())@,
    {
        proof {
            use_type_invariant(&*self);
        }
        let start = self.written;
        if len > self.storage.len() - start {
            return Err(Error::BufferTooSmall);
        }
        let mut region_bytes = zeroed(len);
        let region = region_bytes.as_mut_slice();
        let r = fill(region);
        let filled: &[u8] = region;
        let mut i: usize = 0;
        while i < len
            invariant
                start == self.written,
                start == old(self).written,
                final(self.target())@ == final(old(self).target())@,
                start + len <= self.storage.len(),
                self.storage@.len() == old(self).storage@.len(),
                0 <= i <= len,
                same_outside(self.storage@, old(self).storage@, start as int, start + i),
                filled@.len() == len ==> holds_bytes(self.storage@, start as int, filled@.take(i as int)),
            decreases len - i,
        {
            // A callback cannot resize the lent region; the guard only keeps
            // the copy in bounds.
            let byte = if i < filled.len() {
                filled[i]
            } else {
                0u8
            };
            self.storage[start + i] = byte;
            i += 1;
            assert(filled@.len() == len ==> filled@.take(i as int) =~= filled@.take(i - 1).push(filled@[i - 1]));
        }
        assert(filled@.len() == len ==> filled@.take(len as int) =~= filled@);
        if r.is_ok() {
            self.written = start + len;
        }
        r
    }

    /// Number of output bytes committed by successful writes.
    pub fn written(&self) -> (n: usize)
        ensures
            n == self.committed(),
            n <= self.capacity(),
    {
        proof {
            use_type_invariant(self);
        }
        self.written
    }
}


/// A digest dispatch table whose callbacks share one context type.
///
/// Obtained only from [`DigestAlgorithm::functions`]; it always ends with
/// the terminator.
pub struct DigestFunctions {
    entries: Vec<OSSL_DISPATCH>,
}

impl DigestFunctions {
    #[verifier::type_invariant]
    spec fn inv(&self) -> bool {
        &&& self.entries@.len() > 0
        &&& self.entries@.last().id() == 0
    }

    /// The callback ids in table order, terminator included.
    pub closed spec fn ids(&self) -> Seq<i32> {
        self.entries@.map_values(|e: OSSL_DISPATCH| e.id())
    }

    fn new(entries: Vec<OSSL_DISPATCH>) -> (f: Self)
        requires
            entries@.len() > 0,
            entries@.last().id() == 0,
        ensures
            f.ids() == entries@.map_values(|e: OSSL_DISPATCH| e.id()),
    {
        DigestFunctions { entries }
    }

    /// The table for the C ABI, terminator included.
    pub fn entries(&self) -> (e: &[OSSL_DISPATCH])
        ensures
            e@.map_values(|x: OSSL_DISPATCH| x.id()) == self.ids(),
            e@.len() > 0,
            e@.last().id() == 0,
    {
        proof {
            use_type_invariant(self);
        }
        self.entries.as_slice()
    }
}


/// A streaming digest with explicit construction and optional operations.
///
/// The required core consists of ordinary methods. Optional methods have
/// failure defaults. Every method has a `HAS_*` presence flag, `false` by
/// default; an implementation sets the flag of each method it writes, and
/// only the optional callbacks whose flags are set are registered with
/// OpenSSL.
pub trait Digest: Sized {
    /// The implementation supplies `newctx`.
    const HAS_NEWCTX: bool = false;
    /// The implementation supplies `init`.
    const HAS_INIT: bool = false;
    /// The implementation supplies `update`.
    const HAS_UPDATE: bool = false;
    /// The implementation supplies `finalize`.
    const HAS_FINALIZE: bool = false;
    /// The implementation supplies `gettable_params`.
    const HAS_GETTABLE_PARAMS: bool = false;
    /// The implementation supplies `get_param`.
    const HAS_GET_PARAM: bool = false;
    /// The implementation supplies `apply_ctx_params`.
    const HAS_APPLY_CTX_PARAMS: bool = false;
    /// The implementation supplies `dupctx`.
    const HAS_DUPCTX: bool = false;
    /// The implementation supplies `copyctx`.
    const HAS_COPYCTX: bool = false;
    /// The implementation supplies `serialize`.
    const HAS_SERIALIZE: bool = false;
    /// The implementation supplies `deserialize`.
    const HAS_DESERIALIZE: bool = false;
    /// The implementation supplies `squeeze`.
    const HAS_SQUEEZE: bool = false;
    /// The implementation supplies `set_ctx_param`.
    const HAS_SET_CTX_PARAM: bool = false;
    /// The implementation supplies `settable_ctx_params`.
    const HAS_SETTABLE_CTX_PARAMS: bool = false;
    /// The implementation supplies `get_ctx_param`.
    const HAS_GET_CTX_PARAM: bool = false;
    /// The implementation supplies `gettable_ctx_params`.
    const HAS_GETTABLE_CTX_PARAMS: bool = false;

    /// Construct owned state.
    fn newctx() -> Result<Self>;

    /// Start or restart a computation. `None` represents a null parameter array.
    fn init(&mut self, params: Option<Params<'_>>) -> Result;

    /// Absorb input into an initialized computation.
    fn update(&mut self, input: &[u8]) -> Result;

    /// Write the digest, checking capacity before consuming the hash state.
    fn finalize(&mut self, out: &mut Output<'_>) -> (r: Result)
        ensures
            final(out).capacity() == old(out).capacity(),
            final(final(out).target())@ == final(old(out).target())@,
    ;

    /// Describe algorithm-wide parameters.
    fn gettable_params() -> ParamTable;

    /// Fill one described algorithm-wide parameter.
    fn get_param(name: &[u8], param: &mut ParamMut<'_>) -> (r: bool)
        ensures
            *final(final(param).target()) == *final(old(param).target()),
    ;

    /// Optionally duplicate a context, including any partial computation.
    fn dupctx(&self) -> (r: Result<Self>)
        default_ensures
            r == Err::<Self, Error>(Error::Unsupported),
    {
        Err(Error::Unsupported)
    }

    /// Optionally replace this computation with a copy of `source`'s,
    /// keeping this context's allocation. Cannot fail.
    fn copyctx(&mut self, source: &Self)
        default_ensures
            *final(self) == *old(self),
    {
    }

    /// Optionally save the computation: with no output, report the size
    /// needed; with an output, write the saved state and report its size.
    fn serialize(&self, out: Option<&mut Output<'_>>) -> (r: Result<usize>)
        ensures
            out is Some ==> final(out->0).capacity() == old(out->0).capacity(),
            out is Some ==> final(final(out->0).target())@ == final(old(out->0).target())@,
        default_ensures
            r == Err::<usize, Error>(Error::Unsupported),
            out is Some ==> *final(out->0) == *old(out->0),
    {
        Err(Error::Unsupported)
    }

    /// Optionally restore a computation saved by `serialize`.
    fn deserialize(&mut self, input: &[u8]) -> (r: Result)
        default_ensures
            r == Err::<(), Error>(Error::Unsupported),
            *final(self) == *old(self),
    {
        Err(Error::Unsupported)
    }

    /// Optionally produce the next `len` bytes of an extendable output.
    fn squeeze(&mut self, out: &mut Output<'_>, len: usize) -> (r: Result)
        ensures
            final(out).capacity() == old(out).capacity(),
            final(final(out).target())@ == final(old(out).target())@,
        default_ensures
            r == Err::<(), Error>(Error::Unsupported),
            *final(self) == *old(self),
            *final(out) == *old(out),
    {
        Err(Error::Unsupported)
    }

    /// Optional descriptor table, paired with `set_ctx_param`.
    fn settable_ctx_params() -> (t: ParamTable)
        default_ensures
            lists_descriptors(t.spec_entries(), seq![]),
    {
        ParamTable::empty()
    }

    /// Apply one described context parameter.
    fn set_ctx_param(&mut self, name: &[u8], param: &OSSL_PARAM) -> (r: bool)
        default_ensures
            !r,
            *final(self) == *old(self),
    {
        false
    }

    /// Optional descriptor table, paired with `get_ctx_param`.
    fn gettable_ctx_params() -> (t: ParamTable)
        default_ensures
            lists_descriptors(t.spec_entries(), seq![]),
    {
        ParamTable::empty()
    }

    /// Fill one described context parameter.
    fn get_ctx_param(&self, name: &[u8], param: &mut ParamMut<'_>) -> (r: bool)
        ensures
            *final(final(param).target()) == *final(old(param).target()),
        default_ensures
            !r,
            *final(param) == *old(param),
    {
        false
    }

    /// Apply supported parameters during initialization or a setter callback.
    ///
    /// A null array succeeds. Names the settable table does not describe are
    /// ignored; a described name whose handler rejects the value fails with
    /// `InvalidParameter`.
    fn apply_ctx_params(&mut self, params: Option<Params<'_>>) -> (r: Result)
        default_ensures
            params is None ==> r is Ok && *final(self) == *old(self),
            !Self::HAS_SET_CTX_PARAM ==> r is Ok && *final(self) == *old(self),
            r is Err ==> r == Err::<(), Error>(Error::InvalidParameter),
            (params is Some && Self::HAS_SET_CTX_PARAM) ==> exists|table: ParamTable, selves: Seq<Self>, answers: Seq<bool>|
                #[trigger] call_ensures(Self::settable_ctx_params, (), table) && #[trigger] apply_traced(
                    table.spec_entries(),
                    params->0.spec_entries(),
                    selves,
                    answers,
                    r,
                ) && selves[0] == *old(self) && selves.last() == *final(self) && forall|j: int|
                    #![trigger key_at(table.spec_entries(), j)]
                    0 <= j < answers.len() && find_named(params->0.spec_entries(), key_at(table.spec_entries(), j)) is Some
                        ==> exists|target: &mut Self, name: &[u8], param: &OSSL_PARAM|
                        #[trigger] call_ensures(Self::set_ctx_param, (target, name, param), answers[j]) && *target
                            == selves[j] && *final(target) == selves[j + 1] && name@ == key_at(table.spec_entries(), j)
                            && *param == params->0.spec_entries()[find_named(
                            params->0.spec_entries(),
                            key_at(table.spec_entries(), j),
                        )->0],
    {
        let view = match params {
            Some(p) => p,
            None => return Ok(()),
        };
        if !Self::HAS_SET_CTX_PARAM {
            return Ok(());
        }
        let table = Self::settable_ctx_params();
        let ghost described = table;
        let descriptors = table.entries();
        let ghost entries = view.spec_entries();
        let ghost mut selves: Seq<Self> = seq![*self];
        let ghost mut answers: Seq<bool> = seq![];
        let mut i: usize = 0;
        while i < descriptors.len()
            invariant_except_break
                0 <= i <= descriptors@.len(),
                params is Some,
                Self::HAS_SET_CTX_PARAM,
                entries == params->0.spec_entries(),
                view == params->0,
                call_ensures(Self::settable_ctx_params, (), described),
                descriptors@ == described.spec_entries(),
                selves.len() == i + 1,
                answers.len() == i,
                selves[0] == *old(self),
                selves.last() == *self,
                forall|j: int| 0 <= j < i ==> !(#[trigger] descriptors@[j]).spec_is_end(),
                forall|j: int|
                    #![trigger key_at(descriptors@, j)]
                    0 <= j < i && find_named(entries, key_at(descriptors@, j)) is None ==> selves[j + 1] == selves[j]
                        && answers[j],
                forall|j: int| 0 <= j < i ==> #[trigger] answers[j],
                forall|j: int|
                    #![trigger key_at(descriptors@, j)]
                    0 <= j < i && find_named(entries, key_at(descriptors@, j)) is Some ==> exists|
                        target: &mut Self,
                        n: &[u8],
                        param: &OSSL_PARAM,
                    |
                        #[trigger] call_ensures(Self::set_ctx_param, (target, n, param), answers[j]) && *target == selves[j]
                            && *final(target) == selves[j + 1] && n@ == key_at(descriptors@, j) && *param
                            == entries[find_named(entries, key_at(descriptors@, j))->0],
            ensures
                i <= descriptors@.len(),
                is_live_len(descriptors@, i as int),
                selves.len() == i + 1,
                answers.len() == i,
                selves[0] == *old(self),
                selves.last() == *self,
                forall|j: int|
                    #![trigger key_at(descriptors@, j)]
                    0 <= j < i && find_named(entries, key_at(descriptors@, j)) is None ==> selves[j + 1] == selves[j]
                        && answers[j],
                forall|j: int| 0 <= j < i ==> #[trigger] answers[j],
                forall|j: int|
                    #![trigger key_at(descriptors@, j)]
                    0 <= j < i && find_named(entries, key_at(descriptors@, j)) is Some ==> exists|
                        target: &mut Self,
                        n: &[u8],
                        param: &OSSL_PARAM,
                    |
                        #[trigger] call_ensures(Self::set_ctx_param, (target, n, param), answers[j]) && *target == selves[j]
                            && *final(target) == selves[j + 1] && n@ == key_at(descriptors@, j) && *param
                            == entries[find_named(entries, key_at(descriptors@, j))->0],
            decreases descriptors.len() - i,
        {
            let name = match descriptors[i].key() {
                Some(name) => name,
                None => break,
            };
            let ghost prev_selves = selves;
            let ghost prev_answers = answers;
            match view.locate(name) {
                Some(param) => {
                    let ghost was = *self;
                    let accepted = self.set_ctx_param(name, param);
                    proof {
                        assert(exists|target: &mut Self, n: &[u8], p: &OSSL_PARAM|
                            #[trigger] call_ensures(Self::set_ctx_param, (target, n, p), accepted) && *target == was
                                && *final(target) == *self && n@ == key_at(descriptors@, i as int) && *p
                                == entries[find_named(entries, key_at(descriptors@, i as int))->0]);
                        selves = selves.push(*self);
                        answers = answers.push(accepted);
                        assert forall|j: int|
                            #![trigger key_at(descriptors@, j)]
                            0 <= j < i + 1 && find_named(entries, key_at(descriptors@, j)) is Some implies exists|
                                target: &mut Self,
                                n: &[u8],
                                p: &OSSL_PARAM,
                            |
                                #[trigger] call_ensures(Self::set_ctx_param, (target, n, p), answers[j]) && *target
                                    == selves[j] && *final(target) == selves[j + 1] && n@ == key_at(descriptors@, j)
                                    && *p == entries[find_named(entries, key_at(descriptors@, j))->0] by {
                            if j < i {
                                assert(prev_answers[j] == answers[j]);
                                assert(prev_selves[j] == selves[j]);
                                assert(prev_selves[j + 1] == selves[j + 1]);
                            } else {
                                assert(answers[j] == accepted);
                                assert(selves[j] == was);
                                assert(selves[j + 1] == *self);
                            }
                        }
                    }
                    if !accepted {
                        proof {
                            assert(apply_traced(described.spec_entries(), entries, selves, answers, Err(Error::InvalidParameter)));
                        assert forall|j: int|
                            #![trigger key_at(described.spec_entries(), j)]
                            0 <= j < answers.len() && find_named(entries, key_at(described.spec_entries(), j)) is Some implies exists|
                                target: &mut Self,
                                n: &[u8],
                                p: &OSSL_PARAM,
                            |
                                #[trigger] call_ensures(Self::set_ctx_param, (target, n, p), answers[j]) && *target == selves[j]
                                    && *final(target) == selves[j + 1] && n@ == key_at(described.spec_entries(), j) && *p
                                    == entries[find_named(entries, key_at(described.spec_entries(), j))->0] by {
                            assert(key_at(descriptors@, j) == key_at(described.spec_entries(), j));
                        }
                        }
                        return Err(Error::InvalidParameter);
                    }
                },
                None => {
                    proof {
                        selves = selves.push(*self);
                        answers = answers.push(true);
                        assert forall|j: int|
                            #![trigger key_at(descriptors@, j)]
                            0 <= j < i + 1 && find_named(entries, key_at(descriptors@, j)) is Some implies exists|
                                target: &mut Self,
                                n: &[u8],
                                p: &OSSL_PARAM,
                            |
                                #[trigger] call_ensures(Self::set_ctx_param, (target, n, p), answers[j]) && *target
                                    == selves[j] && *final(target) == selves[j + 1] && n@ == key_at(descriptors@, j)
                                    && *p == entries[find_named(entries, key_at(descriptors@, j))->0] by {
                            if j < i {
                                assert(prev_answers[j] == answers[j]);
                                assert(prev_selves[j] == selves[j]);
                                assert(prev_selves[j + 1] == selves[j + 1]);
                            }
                        }
                    }
                },
            }
            i += 1;
        }
        proof {
            assert(apply_traced(described.spec_entries(), entries, selves, answers, Ok(())));
            assert forall|j: int|
                #![trigger key_at(described.spec_entries(), j)]
                0 <= j < answers.len() && find_named(entries, key_at(described.spec_entries(), j)) is Some implies exists|
                    target: &mut Self,
                    n: &[u8],
                    p: &OSSL_PARAM,
                |
                    #[trigger] call_ensures(Self::set_ctx_param, (target, n, p), answers[j]) && *target == selves[j]
                        && *final(target) == selves[j + 1] && n@ == key_at(described.spec_entries(), j) && *p
                        == entries[find_named(entries, key_at(described.spec_entries(), j))->0] by {
                assert(key_at(descriptors@, j) == key_at(described.spec_entries(), j));
            }
        }
        Ok(())
    }
}


/// The callback ids a digest table holds, in table order and followed by
/// the terminator: the required callbacks, then each optional callback whose
/// method the implementation supplies.
pub open spec fn dispatch_ids<D: Digest>() -> Seq<i32> {
    seq![
        OSSL_DISPATCH::OSSL_FUNC_DIGEST_NEWCTX,
        OSSL_DISPATCH::OSSL_FUNC_DIGEST_FREECTX,
        OSSL_DISPATCH::OSSL_FUNC_DIGEST_INIT,
        OSSL_DISPATCH::OSSL_FUNC_DIGEST_UPDATE,
        OSSL_DISPATCH::OSSL_FUNC_DIGEST_FINAL,
        OSSL_DISPATCH::OSSL_FUNC_DIGEST_GET_PARAMS,
        OSSL_DISPATCH::OSSL_FUNC_DIGEST_GETTABLE_PARAMS,
    ] + optional_id(D::HAS_DUPCTX, OSSL_DISPATCH::OSSL_FUNC_DIGEST_DUPCTX) + optional_id(
        D::HAS_COPYCTX,
        OSSL_DISPATCH::OSSL_FUNC_DIGEST_COPYCTX,
    ) + optional_id(D::HAS_SET_CTX_PARAM, OSSL_DISPATCH::OSSL_FUNC_DIGEST_SET_CTX_PARAMS)
        + optional_id(
        D::HAS_SETTABLE_CTX_PARAMS,
        OSSL_DISPATCH::OSSL_FUNC_DIGEST_SETTABLE_CTX_PARAMS,
    ) + optional_id(D::HAS_GET_CTX_PARAM, OSSL_DISPATCH::OSSL_FUNC_DIGEST_GET_CTX_PARAMS)
        + optional_id(
        D::HAS_GETTABLE_CTX_PARAMS,
        OSSL_DISPATCH::OSSL_FUNC_DIGEST_GETTABLE_CTX_PARAMS,
    ) + optional_id(D::HAS_SQUEEZE, OSSL_DISPATCH::OSSL_FUNC_DIGEST_SQUEEZE) + optional_id(
        D::HAS_SERIALIZE,
        OSSL_DISPATCH::OSSL_FUNC_DIGEST_SERIALIZE,
    ) + optional_id(D::HAS_DESERIALIZE, OSSL_DISPATCH::OSSL_FUNC_DIGEST_DESERIALIZE) + seq![0i32]
}

/// Membership in a concatenation is membership in one of its parts.
proof fn lemma_concat_contains(a: Seq<i32>, b: Seq<i32>, x: i32)
    ensures
        (a + b).contains(x) <==> a.contains(x) || b.contains(x),
{
    if (a + b).contains(x) {
        let i = choose|i: int| 0 <= i < (a + b).len() && (a + b)[i] == x;
        if i >= a.len() {
            assert(b[i - a.len()] == x);
        }
    }
    if a.contains(x) {
        let i = choose|i: int| 0 <= i < a.len() && a[i] == x;
        assert((a + b)[i] == x);
    }
    if b.contains(x) {
        let i = choose|i: int| 0 <= i < b.len() && b[i] == x;
        assert((a + b)[a.len() + i] == x);
    }
}

/// Which callback ids a digest table holds: the seven required callbacks,
/// and each optional callback exactly when the implementation supplies its
/// method.
pub open spec fn holds_callbacks<D: Digest>(ids: Seq<i32>) -> bool {
    &&& ids.contains(OSSL_DISPATCH::OSSL_FUNC_DIGEST_NEWCTX)
    &&& ids.contains(OSSL_DISPATCH::OSSL_FUNC_DIGEST_FREECTX)
    &&& ids.contains(OSSL_DISPATCH::OSSL_FUNC_DIGEST_INIT)
    &&& ids.contains(OSSL_DISPATCH::OSSL_FUNC_DIGEST_UPDATE)
    &&& ids.contains(OSSL_DISPATCH::OSSL_FUNC_DIGEST_FINAL)
    &&& ids.contains(OSSL_DISPATCH::OSSL_FUNC_DIGEST_GET_PARAMS)
    &&& ids.contains(OSSL_DISPATCH::OSSL_FUNC_DIGEST_GETTABLE_PARAMS)
    &&& ids.contains(OSSL_DISPATCH::OSSL_FUNC_DIGEST_DUPCTX) == D::HAS_DUPCTX
    &&& ids.contains(OSSL_DISPATCH::OSSL_FUNC_DIGEST_COPYCTX) == D::HAS_COPYCTX
    &&& ids.contains(OSSL_DISPATCH::OSSL_FUNC_DIGEST_SET_CTX_PARAMS) == D::HAS_SET_CTX_PARAM
    &&& ids.contains(OSSL_DISPATCH::OSSL_FUNC_DIGEST_SETTABLE_CTX_PARAMS) == D::HAS_SETTABLE_CTX_PARAMS
    &&& ids.contains(OSSL_DISPATCH::OSSL_FUNC_DIGEST_GET_CTX_PARAMS) == D::HAS_GET_CTX_PARAM
    &&& ids.contains(OSSL_DISPATCH::OSSL_FUNC_DIGEST_GETTABLE_CTX_PARAMS) == D::HAS_GETTABLE_CTX_PARAMS
    &&& ids.contains(OSSL_DISPATCH::OSSL_FUNC_DIGEST_SQUEEZE) == D::HAS_SQUEEZE
    &&& ids.contains(OSSL_DISPATCH::OSSL_FUNC_DIGEST_SERIALIZE) == D::HAS_SERIALIZE
    &&& ids.contains(OSSL_DISPATCH::OSSL_FUNC_DIGEST_DESERIALIZE) == D::HAS_DESERIALIZE
}

/// A digest table ends with its one terminator, with no hole before it
/// where a callback is absent, and advertises the required callbacks and
/// exactly the optional callbacks whose methods the implementation supplies.
#[verifier::spinoff_prover]
#[verifier::rlimit(60)]
pub proof fn law_dispatch_table_shape<D: Digest>()
    ensures
        dispatch_ids::<D>().len() > 0,
        dispatch_ids::<D>().last() == 0,
        forall|i: int| 0 <= i < dispatch_ids::<D>().len() - 1 ==> dispatch_ids::<D>()[i] != 0,
        holds_callbacks::<D>(dispatch_ids::<D>().drop_last()),
{
    let required = seq![
        OSSL_DISPATCH::OSSL_FUNC_DIGEST_NEWCTX,
        OSSL_DISPATCH::OSSL_FUNC_DIGEST_FREECTX,
        OSSL_DISPATCH::OSSL_FUNC_DIGEST_INIT,
        OSSL_DISPATCH::OSSL_FUNC_DIGEST_UPDATE,
        OSSL_DISPATCH::OSSL_FUNC_DIGEST_FINAL,
        OSSL_DISPATCH::OSSL_FUNC_DIGEST_GET_PARAMS,
        OSSL_DISPATCH::OSSL_FUNC_DIGEST_GETTABLE_PARAMS,
    ];
    let s1 = required + optional_id(D::HAS_DUPCTX, OSSL_DISPATCH::OSSL_FUNC_DIGEST_DUPCTX);
    let s2 = s1 + optional_id(D::HAS_COPYCTX, OSSL_DISPATCH::OSSL_FUNC_DIGEST_COPYCTX);
    let s3 = s2 + optional_id(D::HAS_SET_CTX_PARAM, OSSL_DISPATCH::OSSL_FUNC_DIGEST_SET_CTX_PARAMS);
    let s4 = s3 + optional_id(
        D::HAS_SETTABLE_CTX_PARAMS,
        OSSL_DISPATCH::OSSL_FUNC_DIGEST_SETTABLE_CTX_PARAMS,
    );
    let s5 = s4 + optional_id(D::HAS_GET_CTX_PARAM, OSSL_DISPATCH::OSSL_FUNC_DIGEST_GET_CTX_PARAMS);
    let s6 = s5 + optional_id(
        D::HAS_GETTABLE_CTX_PARAMS,
        OSSL_DISPATCH::OSSL_FUNC_DIGEST_GETTABLE_CTX_PARAMS,
    );
    let s7 = s6 + optional_id(D::HAS_SQUEEZE, OSSL_DISPATCH::OSSL_FUNC_DIGEST_SQUEEZE);
    let s8 = s7 + optional_id(D::HAS_SERIALIZE, OSSL_DISPATCH::OSSL_FUNC_DIGEST_SERIALIZE);
    let s9 = s8 + optional_id(D::HAS_DESERIALIZE, OSSL_DISPATCH::OSSL_FUNC_DIGEST_DESERIALIZE);
    let ids = dispatch_ids::<D>();
    assert(ids == s9 + seq![0i32]);
    assert(ids.drop_last() =~= s9);
    assert forall|x: i32| #![trigger s9.contains(x)]
        s9.contains(x) <==> (required.contains(x)
            || optional_id(D::HAS_DUPCTX, OSSL_DISPATCH::OSSL_FUNC_DIGEST_DUPCTX).contains(x)
            || optional_id(D::HAS_COPYCTX, OSSL_DISPATCH::OSSL_FUNC_DIGEST_COPYCTX).contains(x)
            || optional_id(D::HAS_SET_CTX_PARAM, OSSL_DISPATCH::OSSL_FUNC_DIGEST_SET_CTX_PARAMS).contains(x)
            || optional_id(D::HAS_SETTABLE_CTX_PARAMS, OSSL_DISPATCH::OSSL_FUNC_DIGEST_SETTABLE_CTX_PARAMS).contains(x)
            || optional_id(D::HAS_GET_CTX_PARAM, OSSL_DISPATCH::OSSL_FUNC_DIGEST_GET_CTX_PARAMS).contains(x)
            || optional_id(D::HAS_GETTABLE_CTX_PARAMS, OSSL_DISPATCH::OSSL_FUNC_DIGEST_GETTABLE_CTX_PARAMS).contains(x)
            || optional_id(D::HAS_SQUEEZE, OSSL_DISPATCH::OSSL_FUNC_DIGEST_SQUEEZE).contains(x)
            || optional_id(D::HAS_SERIALIZE, OSSL_DISPATCH::OSSL_FUNC_DIGEST_SERIALIZE).contains(x)
            || optional_id(D::HAS_DESERIALIZE, OSSL_DISPATCH::OSSL_FUNC_DIGEST_DESERIALIZE).contains(x)) by {
        lemma_concat_contains(required, optional_id(D::HAS_DUPCTX, OSSL_DISPATCH::OSSL_FUNC_DIGEST_DUPCTX), x);
        lemma_concat_contains(s1, optional_id(D::HAS_COPYCTX, OSSL_DISPATCH::OSSL_FUNC_DIGEST_COPYCTX), x);
        lemma_concat_contains(s2, optional_id(D::HAS_SET_CTX_PARAM, OSSL_DISPATCH::OSSL_FUNC_DIGEST_SET_CTX_PARAMS), x);
        lemma_concat_contains(s3, optional_id(D::HAS_SETTABLE_CTX_PARAMS, OSSL_DISPATCH::OSSL_FUNC_DIGEST_SETTABLE_CTX_PARAMS), x);
        lemma_concat_contains(s4, optional_id(D::HAS_GET_CTX_PARAM, OSSL_DISPATCH::OSSL_FUNC_DIGEST_GET_CTX_PARAMS), x);
        lemma_concat_contains(s5, optional_id(D::HAS_GETTABLE_CTX_PARAMS, OSSL_DISPATCH::OSSL_FUNC_DIGEST_GETTABLE_CTX_PARAMS), x);
        lemma_concat_contains(s6, optional_id(D::HAS_SQUEEZE, OSSL_DISPATCH::OSSL_FUNC_DIGEST_SQUEEZE), x);
        lemma_concat_contains(s7, optional_id(D::HAS_SERIALIZE, OSSL_DISPATCH::OSSL_FUNC_DIGEST_SERIALIZE), x);
        lemma_concat_contains(s8, optional_id(D::HAS_DESERIALIZE, OSSL_DISPATCH::OSSL_FUNC_DIGEST_DESERIALIZE), x);
    }
    assert forall|x: i32| #![trigger optional_id(true, x)]
        optional_id(true, x).contains(x) by {
        assert(optional_id(true, x)[0] == x);
    }
    assert forall|x: i32, y: i32, b: bool| #![trigger optional_id(b, x).contains(y)]
        optional_id(b, x).contains(y) ==> b && x == y by {
        if optional_id(b, x).contains(y) {
            let i = choose|i: int| 0 <= i < optional_id(b, x).len() && optional_id(b, x)[i] == y;
        }
    }
    assert forall|x: i32| #![trigger required.contains(x)]
        required.contains(x) <==> (x == 1 || x == 6 || x == 2 || x == 3 || x == 4 || x == 8 || x == 11) by {
        if required.contains(x) {
            let i = choose|i: int| 0 <= i < required.len() && required[i] == x;
        }
        if x == 1 { assert(required[0] == x); }
        if x == 6 { assert(required[1] == x); }
        if x == 2 { assert(required[2] == x); }
        if x == 3 { assert(required[3] == x); }
        if x == 4 { assert(required[4] == x); }
        if x == 8 { assert(required[5] == x); }
        if x == 11 { assert(required[6] == x); }
    }
    assert(!s9.contains(0i32));
    assert forall|i: int| 0 <= i < ids.len() - 1 implies ids[i] != 0 by {
        assert(ids[i] == s9[i]);
        if ids[i] == 0 {
            assert(s9.contains(0i32));
        }
    }
    assert(s9.contains(OSSL_DISPATCH::OSSL_FUNC_DIGEST_NEWCTX));
    assert(s9.contains(OSSL_DISPATCH::OSSL_FUNC_DIGEST_FREECTX));
    assert(s9.contains(OSSL_DISPATCH::OSSL_FUNC_DIGEST_INIT));
    assert(s9.contains(OSSL_DISPATCH::OSSL_FUNC_DIGEST_UPDATE));
    assert(s9.contains(OSSL_DISPATCH::OSSL_FUNC_DIGEST_FINAL));
    assert(s9.contains(OSSL_DISPATCH::OSSL_FUNC_DIGEST_GET_PARAMS));
    assert(s9.contains(OSSL_DISPATCH::OSSL_FUNC_DIGEST_GETTABLE_PARAMS));
    assert(s9.contains(OSSL_DISPATCH::OSSL_FUNC_DIGEST_DUPCTX) == D::HAS_DUPCTX);
    assert(s9.contains(OSSL_DISPATCH::OSSL_FUNC_DIGEST_COPYCTX) == D::HAS_COPYCTX);
    assert(s9.contains(OSSL_DISPATCH::OSSL_FUNC_DIGEST_SET_CTX_PARAMS) == D::HAS_SET_CTX_PARAM);
    assert(s9.contains(OSSL_DISPATCH::OSSL_FUNC_DIGEST_SETTABLE_CTX_PARAMS) == D::HAS_SETTABLE_CTX_PARAMS);
    assert(s9.contains(OSSL_DISPATCH::OSSL_FUNC_DIGEST_GET_CTX_PARAMS) == D::HAS_GET_CTX_PARAM);
    assert(s9.contains(OSSL_DISPATCH::OSSL_FUNC_DIGEST_GETTABLE_CTX_PARAMS) == D::HAS_GETTABLE_CTX_PARAMS);
    assert(s9.contains(OSSL_DISPATCH::OSSL_FUNC_DIGEST_SQUEEZE) == D::HAS_SQUEEZE);
    assert(s9.contains(OSSL_DISPATCH::OSSL_FUNC_DIGEST_SERIALIZE) == D::HAS_SERIALIZE);
    assert(s9.contains(OSSL_DISPATCH::OSSL_FUNC_DIGEST_DESERIALIZE) == D::HAS_DESERIALIZE);
}

/// One id when `present`, none otherwise.
pub open spec fn optional_id(present: bool, id: i32) -> Seq<i32> {
    if present {
        seq![id]
    } else {
        seq![]
    }
}

/// The callback pairings a digest table must respect: a context setter with
/// its descriptors, a context getter with its descriptors, and a getter
/// only alongside a setter.
pub open spec fn pairings_hold<D: Digest>() -> bool {
    &&& D::HAS_SET_CTX_PARAM == D::HAS_SETTABLE_CTX_PARAMS
    &&& D::HAS_GET_CTX_PARAM == D::HAS_GETTABLE_CTX_PARAMS
    &&& D::HAS_GET_CTX_PARAM ==> D::HAS_SET_CTX_PARAM
}

/// Appends the entry for `id` when `present`.
fn push_optional(entries: &mut Vec<OSSL_DISPATCH>, present: bool, id: i32)
    ensures
        final(entries)@.map_values(|e: OSSL_DISPATCH| e.id()) == old(entries)@.map_values(
            |e: OSSL_DISPATCH| e.id(),
        ) + optional_id(present, id),
{
    let ghost before = entries@;
    if present {
        entries.push(OSSL_DISPATCH::entry(id));
        assert(entries@.map_values(|e: OSSL_DISPATCH| e.id()) =~= before.map_values(
            |e: OSSL_DISPATCH| e.id(),
        ) + optional_id(present, id));
    } else {
        assert(entries@.map_values(|e: OSSL_DISPATCH| e.id()) =~= before.map_values(
            |e: OSSL_DISPATCH| e.id(),
        ) + optional_id(present, id));
    }
}

/// Whether `new` differs from `old` only in cells that are the first live
/// cell carrying their name.
pub open spec fn changes_first_named_only(old: Seq<OSSL_PARAM>, new: Seq<OSSL_PARAM>) -> bool {
    &&& new.len() == old.len()
    &&& forall|k: int|
        0 <= k < old.len() && #[trigger] new[k] != old[k] ==> old[k].spec_key() is Some && is_first_named(
            old,
            old[k].spec_key()->0,
            k,
        )
}

/// Changing one more cell that is the first live cell of its name keeps
/// the changes confined to such cells.
proof fn lemma_change_first_named(before: Seq<OSSL_PARAM>, current: Seq<OSSL_PARAM>, after: Seq<OSSL_PARAM>, k: int)
    requires
        changes_first_named_only(before, current),
        0 <= k < current.len(),
        after.len() == current.len(),
        forall|j: int| 0 <= j < current.len() && j != k ==> #[trigger] after[j] == current[j],
        before[k].spec_key() is Some,
        is_first_named(before, before[k].spec_key()->0, k),
    ensures
        changes_first_named_only(before, after),
{
    assert forall|m: int| 0 <= m < before.len() && #[trigger] after[m] != before[m] implies before[m].spec_key() is Some
        && is_first_named(before, before[m].spec_key()->0, m) by {
        if m != k {
            assert(after[m] == current[m]);
        }
    }
}

/// The two contexts a copy callback receives.
pub enum CopyOperands<'a, D> {
    /// Two distinct live contexts.
    Distinct(&'a mut D, &'a D),
    /// The same context as destination and source.
    Same,
    /// A null destination or source.
    Missing,
}

/// The C answer to an operation's outcome: one on success, zero on failure.
pub fn c_status<T>(outcome: &Result<T>) -> (r: i32)
    ensures
        r == (if outcome is Ok { 1i32 } else { 0i32 }),
{
    match outcome {
        Ok(_) => 1,
        Err(_) => 0,
    }
}

/// Reports an operation that wrote output: on success the length slot takes
/// the committed count and the answer is one; on failure the slot is kept
/// and the answer is zero.
pub fn report_written<T>(outcome: &Result<T>, committed: usize, outl: &mut usize) -> (r: i32)
    ensures
        r == (if outcome is Ok { 1i32 } else { 0i32 }),
        outcome is Ok ==> *final(outl) == committed,
        outcome is Err ==> *final(outl) == *old(outl),
{
    match outcome {
        Ok(_) => {
            *outl = committed;
            1
        },
        Err(_) => 0,
    }
}

/// Reports a size query: on success the length slot takes the size and the
/// answer is one; on failure the slot is kept and the answer is zero.
pub fn report_size(outcome: &Result<usize>, outl: &mut usize) -> (r: i32)
    ensures
        r == (if outcome is Ok { 1i32 } else { 0i32 }),
        outcome matches Ok(size) ==> *final(outl) == size,
        outcome is Err ==> *final(outl) == *old(outl),
{
    match outcome {
        Ok(size) => {
            *outl = *size;
            1
        },
        Err(_) => 0,
    }
}

/// Reports a request for `len` bytes of output: it succeeds only when the
/// operation succeeded and committed exactly `len` bytes; then the optional
/// length slot takes `len`, which it otherwise keeps.
pub fn report_squeezed(outcome: &Result, committed: usize, len: usize, outl: Option<&mut usize>) -> (r: i32)
    ensures
        r == (if outcome is Ok && committed == len { 1i32 } else { 0i32 }),
        outl is Some ==> *final(outl->0) == (if r == 1 { len } else { *old(outl->0) }),
{
    if outcome.is_err() || committed != len {
        return 0;
    }
    match outl {
        Some(outl) => *outl = len,
        None => {},
    }
    1
}

/// The C answer to an outcome: one on success, zero on failure.
pub open spec fn status_of<T>(outcome: Result<T>) -> i32 {
    if outcome is Ok {
        1
    } else {
        0
    }
}

/// The context an implementation's constructor outcome gives: the context
/// on success, a null one on failure.
pub open spec fn context_of<D>(made: Result<D>) -> Option<D> {
    match made {
        Ok(ctx) => Some(ctx),
        Err(_) => None,
    }
}

/// Whether `view` is the view of the parameter array `params`: absent for
/// a null array, over the same entries otherwise.
pub open spec fn views(view: Option<Params<'_>>, params: Option<&[OSSL_PARAM]>) -> bool {
    match params {
        Some(entries) => view matches Some(v) && v.spec_entries() == entries@,
        None => view is None,
    }
}

/// The name of the `j`-th descriptor.
pub open spec fn key_at(descriptors: Seq<OSSL_PARAM>, j: int) -> Seq<u8> {
    descriptors[j].spec_key()->0
}

/// One step of a fill: a name the original array (`before`) lacks changes
/// nothing and counts as accepted; otherwise only the first live cell of
/// that name, found in `before`, may change from `from` to `to`.
pub open spec fn fill_step(before: Seq<OSSL_PARAM>, key: Seq<u8>, from: Seq<OSSL_PARAM>, to: Seq<OSSL_PARAM>, answer: bool) -> bool {
    match find_named(before, key) {
        None => to == from && answer,
        Some(k) => to == from.update(k, to[k]),
    }
}

/// Whether `states` and `answers` trace a fill following `descriptors` that
/// returned `r`: step `j` took the `j`-th live descriptor, turned array
/// `states[j]` into `states[j + 1]` and had the handler answer `answers[j]`.
/// Steps run in descriptor order and stop at the first refusal, which makes
/// the result zero; the result is one when every live descriptor was taken
/// and accepted.
pub open spec fn fill_traced(descriptors: Seq<OSSL_PARAM>, states: Seq<Seq<OSSL_PARAM>>, answers: Seq<bool>, r: i32) -> bool {
    &&& states.len() == answers.len() + 1
    &&& answers.len() <= descriptors.len()
    &&& forall|j: int| 0 <= j < answers.len() ==> (#[trigger] descriptors[j]).spec_key() is Some
    &&& forall|j: int|
        0 <= j < answers.len() ==> fill_step(states[0], key_at(descriptors, j), states[j], states[j + 1], #[trigger] answers[j])
    &&& forall|j: int| 0 <= j < answers.len() - 1 ==> #[trigger] answers[j]
    &&& r == 1 ==> is_live_len(descriptors, answers.len() as int) && (answers.len() == 0 || answers.last())
    &&& r == 0 ==> answers.len() > 0 && !answers.last()
}

/// Whether `selves` and `answers` trace how parameters `entries` were
/// applied following `descriptors`, ending in the result `r`:
/// step `j` took the `j`-th live descriptor and turned the state `selves[j]`
/// into `selves[j + 1]`, the setter answering `answers[j]`. A name the array
/// lacks changes nothing; steps run in descriptor order and stop at the first
/// refusal, which is the one failure; success takes every live descriptor.
pub open spec fn apply_traced<S>(
    descriptors: Seq<OSSL_PARAM>,
    entries: Seq<OSSL_PARAM>,
    selves: Seq<S>,
    answers: Seq<bool>,
    r: Result,
) -> bool {
    &&& selves.len() == answers.len() + 1
    &&& answers.len() <= descriptors.len()
    &&& forall|j: int| 0 <= j < answers.len() ==> (#[trigger] descriptors[j]).spec_key() is Some
    &&& forall|j: int|
        #![trigger key_at(descriptors, j)]
        0 <= j < answers.len() && find_named(entries, key_at(descriptors, j)) is None ==> selves[j + 1] == selves[j]
            && answers[j]
    &&& forall|j: int| 0 <= j < answers.len() - 1 ==> #[trigger] answers[j]
    &&& r is Ok ==> is_live_len(descriptors, answers.len() as int) && (answers.len() == 0 || answers.last())
    &&& r is Err ==> answers.len() > 0 && !answers.last()
}

/// Adapts one digest implementation to the OpenSSL ABI.
///
/// Each adapter receives the core's arguments with null pointers as `None`
/// and a buffer as the slice it designates, and answers `1` for success and
/// `0` for failure as the C callbacks do.
pub struct DigestAlgorithm<D>(PhantomData<D>);

/// The largest length a byte slice can have.
pub open spec fn slice_limit() -> int {
    isize::MAX as int
}

impl<D: Digest> DigestAlgorithm<D> {
    /// The opaque dispatch table, with absent operations omitted and the
    /// terminator last.
    pub fn functions() -> (f: DigestFunctions)
        requires
            pairings_hold::<D>(),
        ensures
            f.ids() == dispatch_ids::<D>(),
    {
        let mut entries: Vec<OSSL_DISPATCH> = Vec::new();
        entries.push(OSSL_DISPATCH::entry(OSSL_DISPATCH::OSSL_FUNC_DIGEST_NEWCTX));
        entries.push(OSSL_DISPATCH::entry(OSSL_DISPATCH::OSSL_FUNC_DIGEST_FREECTX));
        entries.push(OSSL_DISPATCH::entry(OSSL_DISPATCH::OSSL_FUNC_DIGEST_INIT));
        entries.push(OSSL_DISPATCH::entry(OSSL_DISPATCH::OSSL_FUNC_DIGEST_UPDATE));
        entries.push(OSSL_DISPATCH::entry(OSSL_DISPATCH::OSSL_FUNC_DIGEST_FINAL));
        entries.push(OSSL_DISPATCH::entry(OSSL_DISPATCH::OSSL_FUNC_DIGEST_GET_PARAMS));
        entries.push(OSSL_DISPATCH::entry(OSSL_DISPATCH::OSSL_FUNC_DIGEST_GETTABLE_PARAMS));
        assert(entries@.map_values(|e: OSSL_DISPATCH| e.id()) =~= seq![
            OSSL_DISPATCH::OSSL_FUNC_DIGEST_NEWCTX,
            OSSL_DISPATCH::OSSL_FUNC_DIGEST_FREECTX,
            OSSL_DISPATCH::OSSL_FUNC_DIGEST_INIT,
            OSSL_DISPATCH::OSSL_FUNC_DIGEST_UPDATE,
            OSSL_DISPATCH::OSSL_FUNC_DIGEST_FINAL,
            OSSL_DISPATCH::OSSL_FUNC_DIGEST_GET_PARAMS,
            OSSL_DISPATCH::OSSL_FUNC_DIGEST_GETTABLE_PARAMS,
        ]);
        push_optional(&mut entries, D::HAS_DUPCTX, OSSL_DISPATCH::OSSL_FUNC_DIGEST_DUPCTX);
        push_optional(&mut entries, D::HAS_COPYCTX, OSSL_DISPATCH::OSSL_FUNC_DIGEST_COPYCTX);
        push_optional(&mut entries, D::HAS_SET_CTX_PARAM, OSSL_DISPATCH::OSSL_FUNC_DIGEST_SET_CTX_PARAMS);
        push_optional(
            &mut entries,
            D::HAS_SETTABLE_CTX_PARAMS,
            OSSL_DISPATCH::OSSL_FUNC_DIGEST_SETTABLE_CTX_PARAMS,
        );
        push_optional(&mut entries, D::HAS_GET_CTX_PARAM, OSSL_DISPATCH::OSSL_FUNC_DIGEST_GET_CTX_PARAMS);
        push_optional(
            &mut entries,
            D::HAS_GETTABLE_CTX_PARAMS,
            OSSL_DISPATCH::OSSL_FUNC_DIGEST_GETTABLE_CTX_PARAMS,
        );
        push_optional(&mut entries, D::HAS_SQUEEZE, OSSL_DISPATCH::OSSL_FUNC_DIGEST_SQUEEZE);
        push_optional(&mut entries, D::HAS_SERIALIZE, OSSL_DISPATCH::OSSL_FUNC_DIGEST_SERIALIZE);
        push_optional(&mut entries, D::HAS_DESERIALIZE, OSSL_DISPATCH::OSSL_FUNC_DIGEST_DESERIALIZE);
        let ghost before = entries@;
        entries.push(OSSL_DISPATCH::end());
        assert(entries@.map_values(|e: OSSL_DISPATCH| e.id()) =~= before.map_values(
            |e: OSSL_DISPATCH| e.id(),
        ) + seq![0i32]);
        assert(entries@.map_values(|e: OSSL_DISPATCH| e.id()) =~= dispatch_ids::<D>());
        DigestFunctions::new(entries)
    }

    /// `OSSL_FUNC_digest_newctx`: a fresh context, or `None` (a null
    /// context) when construction fails.
    pub fn newctx() -> (ctx: Option<D>)
        ensures
            exists|made: Result<D>| call_ensures(D::newctx, (), made) && ctx == context_of(made),
    {
        let made = D::newctx();
        let ghost answer = made;
        assert(call_ensures(D::newctx, (), answer));
        let ctx = match made {
            Ok(ctx) => Some(ctx),
            Err(_) => None,
        };
        assert(ctx == context_of(answer));
        ctx
    }

    /// `OSSL_FUNC_digest_dupctx`: an independent copy, or `None` for a null
    /// source or a failed duplication.
    pub fn dupctx(ctx: Option<&D>) -> (copy: Option<D>)
        ensures
            ctx is None ==> copy is None,
            ctx matches Some(source) ==> exists|made: Result<D>|
                call_ensures(D::dupctx, (source,), made) && copy == context_of(made),
    {
        match ctx {
            Some(ctx) => {
                let made = ctx.dupctx();
                let ghost answer = made;
                assert(call_ensures(D::dupctx, (ctx,), answer));
                let copy = match made {
                    Ok(copy) => Some(copy),
                    Err(_) => None,
                };
                assert(copy == context_of(answer));
                copy
            },
            None => None,
        }
    }

    /// `OSSL_FUNC_digest_copyctx`: replaces the destination's computation
    /// with the source's. Null or identical contexts are left alone.
    pub fn copyctx(operands: CopyOperands<'_, D>)
        ensures
            operands matches CopyOperands::Distinct(destination, source) ==> exists|target: &mut D, from: &D|
                call_ensures(D::copyctx, (target, from), ()) && *target == *destination && *from == *source
                    && *final(target) == *final(destination),
    {
        match operands {
            CopyOperands::Distinct(destination, source) => destination.copyctx(source),
            CopyOperands::Same => {},
            CopyOperands::Missing => {},
        }
    }

    /// `OSSL_FUNC_digest_init`: starts a computation with the given
    /// parameters; a null context fails.
    pub fn init(ctx: Option<&mut D>, params: Option<&[OSSL_PARAM]>) -> (r: i32)
        ensures
            r == 0 || r == 1,
            ctx is None ==> r == 0,
            ctx is Some ==> exists|target: &mut D, view: Option<Params<'_>>, outcome: Result|
                call_ensures(D::init, (target, view), outcome) && *target == *old(ctx->0) && *final(target)
                    == *final(ctx->0) && views(view, params) && r == status_of(outcome),
    {
        match ctx {
            Some(ctx) => {
                let outcome = ctx.init(Params::from_ptr(params));
                c_status(&outcome)
            },
            None => 0,
        }
    }

    /// `OSSL_FUNC_digest_update`: absorbs `len` bytes. A null context, a
    /// length beyond any slice, or null input with a nonzero length fail
    /// before the implementation runs; zero bytes reach it as an empty slice.
    pub fn update(ctx: Option<&mut D>, input: Option<&[u8]>, len: usize) -> (r: i32)
        requires
            input matches Some(bytes) ==> (len <= slice_limit() ==> bytes@.len() == len),
        ensures
            r == 0 || r == 1,
            (ctx is None || len > slice_limit() || (input is None && len != 0)) ==> r == 0,
            (ctx is Some && (len > slice_limit() || (input is None && len != 0))) ==> *final(ctx->0) == *old(ctx->0),
            (ctx is Some && len <= slice_limit() && !(input is None && len != 0)) ==> exists|
                target: &mut D,
                bytes: &[u8],
                outcome: Result,
            |
                call_ensures(D::update, (target, bytes), outcome) && *target == *old(ctx->0) && *final(target)
                    == *final(ctx->0) && bytes@ == (match input {
                    Some(given) => given@,
                    None => Seq::<u8>::empty(),
                }) && r == status_of(outcome),
    {
        let ctx = match ctx {
            Some(ctx) => ctx,
            None => return 0,
        };
        if len > isize::MAX as usize {
            return 0;
        }
        let empty: [u8; 0] = [];
        let bytes: &[u8] = match input {
            Some(bytes) => bytes,
            None => {
                if len != 0 {
                    return 0;
                }
                &empty
            },
        };
        let outcome = ctx.update(bytes);
        c_status(&outcome)
    }

    /// `OSSL_FUNC_digest_final`: writes the digest into `capacity` bytes of
    /// output and reports the bytes written. A null context or length slot, a
    /// capacity beyond any slice, or null output with nonzero capacity fail
    /// before the implementation runs; the length slot is written only on
    /// success.
    pub fn finalize(
        ctx: Option<&mut D>,
        out: Option<&mut [u8]>,
        outl: Option<&mut usize>,
        capacity: usize,
    ) -> (r: i32)
        requires
            out is Some ==> (capacity <= slice_limit() ==> old(out->0)@.len() == capacity),
        ensures
            r == 0 || r == 1,
            (ctx is None || outl is None || capacity > slice_limit() || (out is None && capacity
                != 0)) ==> r == 0,
            r == 1 ==> outl is Some && *final(outl->0) <= capacity,
            r == 0 && outl is Some ==> *final(outl->0) == *old(outl->0),
            (ctx is Some && outl is Some && capacity <= slice_limit() && !(out is None && capacity != 0))
                ==> exists|target: &mut D, output: &mut Output<'_>, outcome: Result|
                call_ensures(D::finalize, (target, output), outcome) && *target == *old(ctx->0) && *final(target)
                    == *final(ctx->0) && (out is Some ==> (*output).storage() == old(out->0)@) && (out is None
                    ==> (*output).storage().len() == 0) && (*output).committed() == 0 && r == status_of(outcome)
                    && (outcome is Ok ==> *final(outl->0) == (*final(output)).committed()) && (out is Some
                    ==> final(out->0)@ == (*final(output)).storage()),
            !(ctx is Some && outl is Some && capacity <= slice_limit() && !(out is None && capacity != 0)) ==> {
                &&& ctx is Some ==> *final(ctx->0) == *old(ctx->0)
                &&& out is Some ==> final(out->0)@ == old(out->0)@
            },
    {
        let ctx = match ctx {
            Some(ctx) => ctx,
            None => return 0,
        };
        let outl = match outl {
            Some(outl) => outl,
            None => return 0,
        };
        if capacity > isize::MAX as usize {
            return 0;
        }
        let mut none: Vec<u8> = Vec::new();
        let storage: &mut [u8] = match out {
            Some(out) => out,
            None => {
                if capacity != 0 {
                    return 0;
                }
                none.as_mut_slice()
            },
        };
        let mut output = Output::new(storage);
        let outcome = ctx.finalize(&mut output);
        let committed = output.written();
        report_written(&outcome, committed, outl)
    }

    /// `OSSL_FUNC_digest_get_params`: fills the algorithm-wide parameters the
    /// implementation describes. A null array succeeds. Otherwise the live
    /// descriptors are taken in order; for each name the array holds, the
    /// handler fills the first live cell of that name, and the call fails as
    /// soon as it refuses one.
    pub fn get_params(params: Option<&mut [OSSL_PARAM]>) -> (r: i32)
        ensures
            r == 0 || r == 1,
            params is None ==> r == 1,
            params is Some ==> changes_first_named_only(old(params->0)@, final(params->0)@),
            params is Some ==> exists|table: ParamTable, states: Seq<Seq<OSSL_PARAM>>, answers: Seq<bool>|
                #[trigger] call_ensures(D::gettable_params, (), table) && #[trigger] fill_traced(table.spec_entries(), states, answers, r)
                    && states[0] == old(params->0)@ && states.last() == final(params->0)@ && forall|j: int|
                    #![trigger key_at(table.spec_entries(), j)]
                    0 <= j < answers.len() && find_named(states[0], key_at(table.spec_entries(), j)) is Some
                        ==> exists|name: &[u8], cell: &mut ParamMut<'_>|
                        #[trigger] call_ensures(D::get_param, (name, cell), answers[j]) && name@ == key_at(
                            table.spec_entries(),
                            j,
                        ) && (*cell).cell() == states[j][find_named(states[0], key_at(table.spec_entries(), j))->0]
                            && (*final(cell)).cell() == states[j + 1][find_named(
                            states[0],
                            key_at(table.spec_entries(), j),
                        )->0],
    {
        match params {
            Some(entries) => Self::fill_params(entries),
            None => 1,
        }
    }

    /// Where each live descriptor's name is first found among `entries`:
    /// one answer per descriptor before the first terminator, in order.
    fn described_positions(descriptors: &[OSSL_PARAM], entries: &[OSSL_PARAM]) -> (positions: Vec<Option<usize>>)
        ensures
            is_live_len(descriptors@, positions@.len() as int),
            forall|i: int|
                0 <= i < positions@.len() ==> (#[trigger] descriptors@[i]).spec_key() is Some && match positions@[i] {
                    Some(k) => find_named(entries@, descriptors@[i].spec_key()->0) == Some(k as int),
                    None => find_named(entries@, descriptors@[i].spec_key()->0) is None,
                },
            forall|i: int|
                0 <= i < positions@.len() ==> (#[trigger] descriptors@[i]).spec_key() is Some && match positions@[i] {
                    Some(k) => is_first_named(entries@, descriptors@[i].spec_key()->0, k as int),
                    None => true,
                },
    {
        let mut positions: Vec<Option<usize>> = Vec::new();
        let mut i: usize = 0;
        while i < descriptors.len()
            invariant
                i <= descriptors@.len(),
                positions@.len() == i,
                forall|j: int| 0 <= j < i ==> !(#[trigger] descriptors@[j]).spec_is_end(),
                forall|j: int|
                    0 <= j < i ==> (#[trigger] descriptors@[j]).spec_key() is Some && match positions@[j] {
                        Some(k) => find_named(entries@, descriptors@[j].spec_key()->0) == Some(k as int),
                        None => find_named(entries@, descriptors@[j].spec_key()->0) is None,
                    },
                forall|j: int|
                    0 <= j < i ==> (#[trigger] descriptors@[j]).spec_key() is Some && match positions@[j] {
                        Some(k) => is_first_named(entries@, descriptors@[j].spec_key()->0, k as int),
                        None => true,
                    },
            ensures
                is_live_len(descriptors@, positions@.len() as int),
                forall|j: int|
                    0 <= j < positions@.len() ==> (#[trigger] descriptors@[j]).spec_key() is Some && match positions@[j] {
                        Some(k) => find_named(entries@, descriptors@[j].spec_key()->0) == Some(k as int),
                        None => find_named(entries@, descriptors@[j].spec_key()->0) is None,
                    },
                forall|j: int|
                    0 <= j < positions@.len() ==> (#[trigger] descriptors@[j]).spec_key() is Some && match positions@[j] {
                        Some(k) => is_first_named(entries@, descriptors@[j].spec_key()->0, k as int),
                        None => true,
                    },
            decreases descriptors.len() - i,
        {
            let name = match descriptors[i].key() {
                Some(name) => name,
                None => break,
            };
            let found = position_named(entries, name);
            proof {
                crate::params::lemma_find_named_found(entries@, name@);
            }
            positions.push(found);
            i += 1;
        }
        positions
    }

    /// Fills the described algorithm-wide parameters; see [`get_params`](Self::get_params).
    fn fill_params(entries: &mut [OSSL_PARAM]) -> (r: i32)
        ensures
            r == 0 || r == 1,
            changes_first_named_only(old(entries)@, final(entries)@),
            exists|table: ParamTable, states: Seq<Seq<OSSL_PARAM>>, answers: Seq<bool>|
                #[trigger] call_ensures(D::gettable_params, (), table) && #[trigger] fill_traced(table.spec_entries(), states, answers, r)
                    && states[0] == old(entries)@ && states.last() == final(entries)@ && forall|j: int|
                    #![trigger key_at(table.spec_entries(), j)]
                    0 <= j < answers.len() && find_named(states[0], key_at(table.spec_entries(), j)) is Some
                        ==> exists|name: &[u8], cell: &mut ParamMut<'_>|
                        #[trigger] call_ensures(D::get_param, (name, cell), answers[j]) && name@ == key_at(
                            table.spec_entries(),
                            j,
                        ) && (*cell).cell() == states[j][find_named(states[0], key_at(table.spec_entries(), j))->0]
                            && (*final(cell)).cell() == states[j + 1][find_named(
                            states[0],
                            key_at(table.spec_entries(), j),
                        )->0],
    {
        let ghost before = entries@;
        let table = D::gettable_params();
        let ghost described = table;
        let descriptors = table.entries();
        let positions = Self::described_positions(descriptors, entries);
        let ghost mut states: Seq<Seq<OSSL_PARAM>> = seq![before];
        let ghost mut answers: Seq<bool> = seq![];
        let mut i: usize = 0;
        while i < positions.len()
            invariant
                i <= positions@.len(),
                positions@.len() <= descriptors@.len(),
                before == old(entries)@,
                call_ensures(D::gettable_params, (), described),
                descriptors@ == described.spec_entries(),
                is_live_len(descriptors@, positions@.len() as int),
                forall|j: int|
                    0 <= j < positions@.len() ==> (#[trigger] descriptors@[j]).spec_key() is Some && match positions@[j] {
                        Some(k) => find_named(before, descriptors@[j].spec_key()->0) == Some(k as int),
                        None => find_named(before, descriptors@[j].spec_key()->0) is None,
                    },
                forall|j: int|
                    0 <= j < positions@.len() ==> (#[trigger] descriptors@[j]).spec_key() is Some && match positions@[j] {
                        Some(k) => is_first_named(before, descriptors@[j].spec_key()->0, k as int),
                        None => true,
                    },
                changes_first_named_only(before, entries@),
                states.len() == i + 1,
                answers.len() == i,
                states[0] == before,
                states.last() == entries@,
                forall|j: int|
                    0 <= j < i ==> fill_step(before, key_at(descriptors@, j), states[j], states[j + 1], #[trigger] answers[j]),
                forall|j: int| 0 <= j < i ==> #[trigger] answers[j],
                forall|j: int|
                    #![trigger key_at(descriptors@, j)]
                    0 <= j < i && find_named(before, key_at(descriptors@, j)) is Some ==> exists|
                        name: &[u8],
                        cell: &mut ParamMut<'_>,
                    |
                        #[trigger] call_ensures(D::get_param, (name, cell), answers[j]) && name@ == key_at(descriptors@, j)
                            && (*cell).cell() == states[j][find_named(before, key_at(descriptors@, j))->0]
                            && (*final(cell)).cell() == states[j + 1][find_named(before, key_at(descriptors@, j))->0],
            decreases positions.len() - i,
        {
            assert(descriptors@[i as int].spec_key() is Some);
            let name = match descriptors[i].key() {
                Some(name) => name,
                None => {
                    assert(false);
                    return 0;
                },
            };
            match positions[i] {
                Some(k) => {
                    let ghost current = entries@;
                    let mut param = ParamMut::new(&mut entries[k]);
                    let ok = D::get_param(name, &mut param);
                    param.release();
                    proof {
                        lemma_change_first_named(before, current, entries@, k as int);
                        assert(entries@ == current.update(k as int, entries@[k as int]));
                        assert(exists|n: &[u8], cell: &mut ParamMut<'_>|
                            #[trigger] call_ensures(D::get_param, (n, cell), ok) && n@ == key_at(descriptors@, i as int)
                                && (*cell).cell() == current[k as int] && (*final(cell)).cell() == entries@[k as int]);
                        let ghost prev_states = states;
                        let ghost prev_answers = answers;
                        states = states.push(entries@);
                        answers = answers.push(ok);
                        assert forall|j: int|
                            #![trigger key_at(descriptors@, j)]
                            0 <= j < answers.len() && find_named(before, key_at(descriptors@, j)) is Some implies exists|n: &[u8], cell: &mut ParamMut<'_>|
                                #[trigger] call_ensures(D::get_param, (n, cell), answers[j])
                                    && n@ == key_at(descriptors@, j) && (*cell).cell()
                                    == states[j][find_named(before, key_at(descriptors@, j))->0] && (*final(cell)).cell()
                                    == states[j + 1][find_named(before, key_at(descriptors@, j))->0] by {
                            if j < prev_answers.len() {
                                assert(prev_answers[j] == answers[j]);
                                assert(prev_states[j] == states[j]);
                                assert(prev_states[j + 1] == states[j + 1]);
                            } else {
                                assert(j == i);
                                assert(answers[j] == ok);
                                assert(states[j] == current);
                                assert(states[j + 1] == entries@);
                                assert(descriptors@[j].spec_key() is Some);
                                assert(find_named(before, key_at(descriptors@, j)) == Some(k as int));
                            }
                        }
                    }
                    if !ok {
                        proof {
                            assert(fill_traced(described.spec_entries(), states, answers, 0));
                        }
                        return 0;
                    }
                },
                None => {
                    proof {
                        let ghost prev_states = states;
                        let ghost prev_answers = answers;
                        states = states.push(entries@);
                        answers = answers.push(true);
                        assert forall|j: int|
                            #![trigger key_at(descriptors@, j)]
                            0 <= j < answers.len() && find_named(before, key_at(descriptors@, j)) is Some implies exists|n: &[u8], cell: &mut ParamMut<'_>|
                                #[trigger] call_ensures(D::get_param, (n, cell), answers[j])
                                    && n@ == key_at(descriptors@, j) && (*cell).cell()
                                    == states[j][find_named(before, key_at(descriptors@, j))->0] && (*final(cell)).cell()
                                    == states[j + 1][find_named(before, key_at(descriptors@, j))->0] by {
                            if j < prev_answers.len() {
                                assert(prev_answers[j] == answers[j]);
                                assert(prev_states[j] == states[j]);
                                assert(prev_states[j + 1] == states[j + 1]);
                            } else {
                                assert(descriptors@[j].spec_key() is Some);
                            }
                        }
                    }
                },
            }
            i += 1;
        }
        proof {
            assert(fill_traced(described.spec_entries(), states, answers, 1));
        }
        1
    }

    /// `OSSL_FUNC_digest_gettable_params`: the algorithm-wide descriptors.
    pub fn gettable_params() -> (t: ParamTable)
        ensures
            call_ensures(D::gettable_params, (), t),
    {
        D::gettable_params()
    }

    /// `OSSL_FUNC_digest_set_ctx_params`: applies context parameters. A null
    /// context, or an implementation without a context setter, fails.
    pub fn set_ctx_params(ctx: Option<&mut D>, params: Option<&[OSSL_PARAM]>) -> (r: i32)
        ensures
            r == 0 || r == 1,
            (ctx is None || !D::HAS_SET_CTX_PARAM) ==> r == 0,
            (ctx is Some && !D::HAS_SET_CTX_PARAM) ==> *final(ctx->0) == *old(ctx->0),
            (ctx is Some && D::HAS_SET_CTX_PARAM) ==> exists|target: &mut D, view: Option<Params<'_>>, outcome: Result|
                call_ensures(D::apply_ctx_params, (target, view), outcome) && *target == *old(ctx->0)
                    && *final(target) == *final(ctx->0) && views(view, params) && r == status_of(outcome),
    {
        let ctx = match ctx {
            Some(ctx) => ctx,
            None => return 0,
        };
        if !D::HAS_SET_CTX_PARAM {
            return 0;
        }
        let outcome = ctx.apply_ctx_params(Params::from_ptr(params));
        c_status(&outcome)
    }

    /// `OSSL_FUNC_digest_settable_ctx_params`: the context-setter descriptors.
    pub fn settable_ctx_params() -> (t: ParamTable)
        ensures
            call_ensures(D::settable_ctx_params, (), t),
    {
        D::settable_ctx_params()
    }

    /// `OSSL_FUNC_digest_get_ctx_params`: fills the context parameters the
    /// implementation describes. A null context, or an implementation without
    /// a context getter, fails; a null array then succeeds. Otherwise the live
    /// descriptors are taken in order; for each name the array holds, the
    /// context's handler fills the first live cell of that name, and the call
    /// fails as soon as it refuses one.
    pub fn get_ctx_params(ctx: Option<&D>, params: Option<&mut [OSSL_PARAM]>) -> (r: i32)
        ensures
            r == 0 || r == 1,
            (ctx is None || !D::HAS_GET_CTX_PARAM) ==> r == 0,
            (ctx is None || !D::HAS_GET_CTX_PARAM) && params is Some ==> final(params->0)@ == old(params->0)@,
            (ctx is Some && D::HAS_GET_CTX_PARAM && params is None) ==> r == 1,
            params is Some ==> changes_first_named_only(old(params->0)@, final(params->0)@),
            (ctx is Some && D::HAS_GET_CTX_PARAM && params is Some) ==> exists|
                table: ParamTable,
                states: Seq<Seq<OSSL_PARAM>>,
                answers: Seq<bool>,
            |
                #[trigger] call_ensures(D::gettable_ctx_params, (), table) && #[trigger] fill_traced(table.spec_entries(), states, answers, r)
                    && states[0] == old(params->0)@ && states.last() == final(params->0)@ && forall|j: int|
                    #![trigger key_at(table.spec_entries(), j)]
                    0 <= j < answers.len() && find_named(states[0], key_at(table.spec_entries(), j)) is Some
                        ==> exists|this: &D, name: &[u8], cell: &mut ParamMut<'_>|
                        #[trigger] call_ensures(D::get_ctx_param, (this, name, cell), answers[j]) && *this == *ctx->0
                            && name@ == key_at(table.spec_entries(), j) && (*cell).cell()
                            == states[j][find_named(states[0], key_at(table.spec_entries(), j))->0]
                            && (*final(cell)).cell() == states[j + 1][find_named(states[0], key_at(table.spec_entries(), j))->0],
    {
        let ctx = match ctx {
            Some(ctx) => ctx,
            None => return 0,
        };
        if !D::HAS_GET_CTX_PARAM {
            return 0;
        }
        match params {
            Some(entries) => Self::fill_ctx_params(ctx, entries),
            None => 1,
        }
    }

    /// Fills the described context parameters; see [`get_ctx_params`](Self::get_ctx_params).
    fn fill_ctx_params(ctx: &D, entries: &mut [OSSL_PARAM]) -> (r: i32)
        ensures
            r == 0 || r == 1,
            changes_first_named_only(old(entries)@, final(entries)@),
            exists|table: ParamTable, states: Seq<Seq<OSSL_PARAM>>, answers: Seq<bool>|
                #[trigger] call_ensures(D::gettable_ctx_params, (), table) && #[trigger] fill_traced(table.spec_entries(), states, answers, r)
                    && states[0] == old(entries)@ && states.last() == final(entries)@ && forall|j: int|
                    #![trigger key_at(table.spec_entries(), j)]
                    0 <= j < answers.len() && find_named(states[0], key_at(table.spec_entries(), j)) is Some
                        ==> exists|this: &D, name: &[u8], cell: &mut ParamMut<'_>|
                        #[trigger] call_ensures(D::get_ctx_param, (this, name, cell), answers[j]) && *this == *ctx && name@ == key_at(
                            table.spec_entries(),
                            j,
                        ) && (*cell).cell() == states[j][find_named(states[0], key_at(table.spec_entries(), j))->0]
                            && (*final(cell)).cell() == states[j + 1][find_named(
                            states[0],
                            key_at(table.spec_entries(), j),
                        )->0],
    {
        let ghost before = entries@;
        let table = D::gettable_ctx_params();
        let ghost described = table;
        let descriptors = table.entries();
        let positions = Self::described_positions(descriptors, entries);
        let ghost mut states: Seq<Seq<OSSL_PARAM>> = seq![before];
        let ghost mut answers: Seq<bool> = seq![];
        let mut i: usize = 0;
        while i < positions.len()
            invariant
                i <= positions@.len(),
                positions@.len() <= descriptors@.len(),
                before == old(entries)@,
                call_ensures(D::gettable_ctx_params, (), described),
                descriptors@ == described.spec_entries(),
                is_live_len(descriptors@, positions@.len() as int),
                forall|j: int|
                    0 <= j < positions@.len() ==> (#[trigger] descriptors@[j]).spec_key() is Some && match positions@[j] {
                        Some(k) => find_named(before, descriptors@[j].spec_key()->0) == Some(k as int),
                        None => find_named(before, descriptors@[j].spec_key()->0) is None,
                    },
                forall|j: int|
                    0 <= j < positions@.len() ==> (#[trigger] descriptors@[j]).spec_key() is Some && match positions@[j] {
                        Some(k) => is_first_named(before, descriptors@[j].spec_key()->0, k as int),
                        None => true,
                    },
                changes_first_named_only(before, entries@),
                states.len() == i + 1,
                answers.len() == i,
                states[0] == before,
                states.last() == entries@,
                forall|j: int|
                    0 <= j < i ==> fill_step(before, key_at(descriptors@, j), states[j], states[j + 1], #[trigger] answers[j]),
                forall|j: int| 0 <= j < i ==> #[trigger] answers[j],
                forall|j: int|
                    #![trigger key_at(descriptors@, j)]
                    0 <= j < i && find_named(before, key_at(descriptors@, j)) is Some ==> exists|
                        this: &D,
                        name: &[u8],
                        cell: &mut ParamMut<'_>,
                    |
                        #[trigger] call_ensures(D::get_ctx_param, (this, name, cell), answers[j]) && *this == *ctx && name@ == key_at(descriptors@, j)
                            && (*cell).cell() == states[j][find_named(before, key_at(descriptors@, j))->0]
                            && (*final(cell)).cell() == states[j + 1][find_named(before, key_at(descriptors@, j))->0],
            decreases positions.len() - i,
        {
            assert(descriptors@[i as int].spec_key() is Some);
            let name = match descriptors[i].key() {
                Some(name) => name,
                None => {
                    assert(false);
                    return 0;
                },
            };
            match positions[i] {
                Some(k) => {
                    let ghost current = entries@;
                    let mut param = ParamMut::new(&mut entries[k]);
                    let ok = ctx.get_ctx_param(name, &mut param);
                    param.release();
                    proof {
                        lemma_change_first_named(before, current, entries@, k as int);
                        assert(entries@ == current.update(k as int, entries@[k as int]));
                        assert(exists|this: &D, n: &[u8], cell: &mut ParamMut<'_>|
                            #[trigger] call_ensures(D::get_ctx_param, (this, n, cell), ok) && *this == *ctx && n@ == key_at(descriptors@, i as int)
                                && (*cell).cell() == current[k as int] && (*final(cell)).cell() == entries@[k as int]);
                        let ghost prev_states = states;
                        let ghost prev_answers = answers;
                        states = states.push(entries@);
                        answers = answers.push(ok);
                        assert forall|j: int|
                            #![trigger key_at(descriptors@, j)]
                            0 <= j < answers.len() && find_named(before, key_at(descriptors@, j)) is Some implies exists|this: &D, n: &[u8], cell: &mut ParamMut<'_>|
                                #[trigger] call_ensures(D::get_ctx_param, (this, n, cell), answers[j]) && *this == *ctx
                                    && n@ == key_at(descriptors@, j) && (*cell).cell()
                                    == states[j][find_named(before, key_at(descriptors@, j))->0] && (*final(cell)).cell()
                                    == states[j + 1][find_named(before, key_at(descriptors@, j))->0] by {
                            if j < prev_answers.len() {
                                assert(prev_answers[j] == answers[j]);
                                assert(prev_states[j] == states[j]);
                                assert(prev_states[j + 1] == states[j + 1]);
                            } else {
                                assert(j == i);
                                assert(answers[j] == ok);
                                assert(states[j] == current);
                                assert(states[j + 1] == entries@);
                                assert(descriptors@[j].spec_key() is Some);
                                assert(find_named(before, key_at(descriptors@, j)) == Some(k as int));
                            }
                        }
                    }
                    if !ok {
                        proof {
                            assert(fill_traced(described.spec_entries(), states, answers, 0));
                        }
                        return 0;
                    }
                },
                None => {
                    proof {
                        let ghost prev_states = states;
                        let ghost prev_answers = answers;
                        states = states.push(entries@);
                        answers = answers.push(true);
                        assert forall|j: int|
                            #![trigger key_at(descriptors@, j)]
                            0 <= j < answers.len() && find_named(before, key_at(descriptors@, j)) is Some implies exists|this: &D, n: &[u8], cell: &mut ParamMut<'_>|
                                #[trigger] call_ensures(D::get_ctx_param, (this, n, cell), answers[j]) && *this == *ctx
                                    && n@ == key_at(descriptors@, j) && (*cell).cell()
                                    == states[j][find_named(before, key_at(descriptors@, j))->0] && (*final(cell)).cell()
                                    == states[j + 1][find_named(before, key_at(descriptors@, j))->0] by {
                            if j < prev_answers.len() {
                                assert(prev_answers[j] == answers[j]);
                                assert(prev_states[j] == states[j]);
                                assert(prev_states[j + 1] == states[j + 1]);
                            } else {
                                assert(descriptors@[j].spec_key() is Some);
                            }
                        }
                    }
                },
            }
            i += 1;
        }
        proof {
            assert(fill_traced(described.spec_entries(), states, answers, 1));
        }
        1
    }

    /// `OSSL_FUNC_digest_gettable_ctx_params`: the context-getter descriptors.
    pub fn gettable_ctx_params() -> (t: ParamTable)
        ensures
            call_ensures(D::gettable_ctx_params, (), t),
    {
        D::gettable_ctx_params()
    }

    /// `OSSL_FUNC_digest_serialize`: with null output, reports the size the
    /// saved state needs; otherwise reads the length slot as the capacity,
    /// writes the state, and reports the bytes written. A null context or
    /// length slot, or a capacity beyond any slice, fail before the
    /// implementation runs; the slot is written only on success.
    pub fn serialize(ctx: Option<&D>, out: Option<&mut [u8]>, outl: Option<&mut usize>) -> (r: i32)
        requires
            (out is Some && outl is Some) ==> (*old(outl->0) <= slice_limit() ==> old(out->0)@.len()
                == *old(outl->0)),
        ensures
            r == 0 || r == 1,
            (ctx is None || outl is None) ==> r == 0,
            (out is Some && outl is Some && *old(outl->0) > slice_limit()) ==> r == 0,
            r == 0 && outl is Some ==> *final(outl->0) == *old(outl->0),
            r == 1 && out is Some ==> *final(outl->0) <= *old(outl->0),
            (ctx is Some && outl is Some && out is None) ==> exists|outcome: Result<usize>|
                call_ensures(D::serialize, (ctx->0, None::<&mut Output<'_>>), outcome) && r == status_of(outcome)
                    && (outcome matches Ok(size) ==> *final(outl->0) == size),
            (ctx is Some && outl is Some && out is Some && *old(outl->0) <= slice_limit()) ==> exists|
                output: &mut Output<'_>,
                outcome: Result<usize>,
            |
                call_ensures(D::serialize, (ctx->0, Some(output)), outcome) && (*output).storage() == old(out->0)@
                    && (*output).committed() == 0 && r == status_of(outcome) && (outcome is Ok ==> *final(outl->0)
                    == (*final(output)).committed()) && final(out->0)@ == (*final(output)).storage(),
            (ctx is None || outl is None || (out is Some && *old(outl->0) > slice_limit())) && out is Some
                ==> final(out->0)@ == old(out->0)@,
    {
        let ctx = match ctx {
            Some(ctx) => ctx,
            None => return 0,
        };
        let outl = match outl {
            Some(outl) => outl,
            None => return 0,
        };
        match out {
            None => {
                let outcome = ctx.serialize(None);
                let ghost answer = outcome;
                let r = report_size(&outcome, outl);
                assert(call_ensures(D::serialize, (ctx, None::<&mut Output<'_>>), answer) && r == status_of(answer));
                r
            },
            Some(storage) => {
                if *outl > isize::MAX as usize {
                    return 0;
                }
                let mut output = Output::new(storage);
                let outcome = ctx.serialize(Some(&mut output));
                let committed = output.written();
                report_written(&outcome, committed, outl)
            },
        }
    }

    /// `OSSL_FUNC_digest_deserialize`: restores saved state. A null context,
    /// null or empty input, or a length beyond any slice fail before the
    /// implementation runs.
    pub fn deserialize(ctx: Option<&mut D>, input: Option<&[u8]>, len: usize) -> (r: i32)
        requires
            input matches Some(bytes) ==> (len <= slice_limit() ==> bytes@.len() == len),
        ensures
            r == 0 || r == 1,
            (ctx is None || input is None || len == 0 || len > slice_limit()) ==> r == 0,
            (ctx is Some && (input is None || len == 0 || len > slice_limit())) ==> *final(ctx->0) == *old(ctx->0),
            (ctx is Some && input is Some && len != 0 && len <= slice_limit()) ==> exists|
                target: &mut D,
                bytes: &[u8],
                outcome: Result,
            |
                call_ensures(D::deserialize, (target, bytes), outcome) && *target == *old(ctx->0) && *final(target)
                    == *final(ctx->0) && bytes@ == input->0@ && r == status_of(outcome),
    {
        let ctx = match ctx {
            Some(ctx) => ctx,
            None => return 0,
        };
        let bytes = match input {
            Some(bytes) => bytes,
            None => return 0,
        };
        if len == 0 || len > isize::MAX as usize {
            return 0;
        }
        let outcome = ctx.deserialize(bytes);
        c_status(&outcome)
    }

    /// `OSSL_FUNC_digest_squeeze`: produces the next `len` bytes of output.
    ///
    /// Fails for a null context or an implementation without `squeeze`. A
    /// zero-length request succeeds without running the implementation and
    /// reports zero. Otherwise null output or a length beyond any slice fail;
    /// success needs the implementation to succeed and commit exactly `len`
    /// bytes. The length slot may be omitted and is written only on success.
    pub fn squeeze(
        ctx: Option<&mut D>,
        out: Option<&mut [u8]>,
        outl: Option<&mut usize>,
        len: usize,
    ) -> (r: i32)
        requires
            out is Some ==> (len <= slice_limit() ==> old(out->0)@.len() == len),
        ensures
            r == 0 || r == 1,
            (ctx is None || !D::HAS_SQUEEZE) ==> r == 0,
            (ctx is Some && D::HAS_SQUEEZE && len == 0) ==> r == 1 && *final(ctx->0) == *old(ctx->0),
            (ctx is Some && len != 0 && (out is None || len > slice_limit())) ==> r == 0
                && *final(ctx->0) == *old(ctx->0),
            r == 1 && outl is Some ==> *final(outl->0) == len,
            r == 0 && outl is Some ==> *final(outl->0) == *old(outl->0),
            (ctx is Some && len != 0 && (out is None || len > slice_limit()) && out is Some) ==> final(out->0)@
                == old(out->0)@,
            (ctx is Some && D::HAS_SQUEEZE && len != 0 && out is Some && len <= slice_limit()) ==> exists|
                target: &mut D,
                output: &mut Output<'_>,
                outcome: Result,
            |
                call_ensures(D::squeeze, (target, output, len), outcome) && *target == *old(ctx->0) && *final(target)
                    == *final(ctx->0) && (*output).storage() == old(out->0)@ && (*output).committed() == 0 && r
                    == (if outcome is Ok && (*final(output)).committed() == len {
                    1i32
                } else {
                    0i32
                }) && final(out->0)@ == (*final(output)).storage(),
    {
        let ctx = match ctx {
            Some(ctx) => ctx,
            None => return 0,
        };
        if !D::HAS_SQUEEZE {
            return 0;
        }
        if len == 0 {
            match outl {
                Some(outl) => *outl = 0,
                None => {},
            }
            return 1;
        }
        let storage = match out {
            Some(storage) => storage,
            None => return 0,
        };
        if len > isize::MAX as usize {
            return 0;
        }
        let mut output = Output::new(storage);
        let outcome = ctx.squeeze(&mut output, len);
        let committed = output.written();
        report_squeezed(&outcome, committed, len, outl)
    }
}

} // verus!
