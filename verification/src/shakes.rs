//! SHAKE adapters retaining the live sponge across incremental output calls.
//!
//! The sponge itself comes from a [`BcXof`] implementation (bc-rust's
//! SHAKE128 and SHAKE256); this module keeps OpenSSL's length and phase
//! rules around it.

use vstd::prelude::*;

use crate::digest::{holds_bytes, lent_bytes, same_outside, zeroed, Digest, Error, Output, Result};
use crate::params::{
    is_live_len, lemma_live_len, lemma_live_len_exists, live, name_blocksize, name_eq, name_size, name_xof, name_xoflen,
    int_stored, lists_descriptors, size_t_stored, size_t_value, spec_name_blocksize, spec_name_size, spec_name_xof, spec_name_xoflen,
    OSSL_PARAM, ParamData, ParamMut, ParamTable, Params,
};

verus! {

/// What a SHAKE context needs from an extendable-output sponge.
pub trait BcXof: Sized {
    /// A sponge with no input absorbed.
    fn new_xof() -> Self;

    /// Absorbs input; fails once the sponge has started squeezing.
    fn absorb(&mut self, input: &[u8]) -> core::result::Result<(), ()>;

    /// Squeezes output into `out`, returning the number of bytes produced.
    fn squeeze_out(&mut self, out: &mut [u8]) -> usize;

    /// An independent copy of the sponge.
    fn duplicate(&self) -> Self;

    /// Replaces this sponge with a copy of `source`.
    fn clone_from_xof(&mut self, source: &Self);
}

/// Where a SHAKE computation stands.
#[derive(Clone, Copy, Debug, PartialEq, Eq, Structural)]
pub enum Phase {
    /// Input may still be absorbed.
    Absorbing,
    /// Output has been squeezed incrementally.
    Squeezing,
    /// A final output of the configured length was produced.
    Finalized,
}

/// SHAKE128 with a 168-byte sponge rate and an explicitly selected final length.
pub type BcShake128<X> = BcShake<X, 168>;

/// SHAKE256 with a 136-byte sponge rate and an explicitly selected final length.
pub type BcShake256<X> = BcShake<X, 136>;

/// The length that marks "no final length configured yet", as OpenSSL does.
pub open spec fn unset_length() -> usize {
    usize::MAX
}

/// An extendable-output sponge with OpenSSL's SHAKE length and phase rules.
pub struct BcShake<X, const RATE: usize> {
    state: X,
    xoflen: usize,
    phase: Phase,
}

/// Whether a cell's name selects the final length (`xoflen` or `size`).
pub open spec fn is_length_key(key: Option<Seq<u8>>) -> bool {
    key == Some(spec_name_xoflen()) || key == Some(spec_name_size())
}

/// The cells among `cells` that select the final length, in order.
pub open spec fn length_cells(cells: Seq<OSSL_PARAM>) -> Seq<OSSL_PARAM>
    decreases cells.len(),
{
    if cells.len() == 0 {
        seq![]
    } else {
        let rest = length_cells(cells.drop_last());
        if is_length_key(cells.last().spec_key()) {
            rest.push(cells.last())
        } else {
            rest
        }
    }
}

/// A longer prefix selects at least as many length cells.
pub proof fn lemma_length_cells_grow(cells: Seq<OSSL_PARAM>, m: int, n: int)
    requires
        0 <= m <= n <= cells.len(),
    ensures
        length_cells(cells.take(m)).len() <= length_cells(cells.take(n)).len(),
    decreases n - m,
{
    if m < n {
        lemma_length_cells_grow(cells, m, n - 1);
        assert(cells.take(n).drop_last() =~= cells.take(n - 1));
    }
}

/// The final length a parameter array configures, given the current one:
/// `None` when the array is rejected (two length cells, or one that is not
/// an exact-width `size_t`).
pub open spec fn configured_length(entries: Seq<OSSL_PARAM>, current: usize) -> Option<usize> {
    let cells = length_cells(live(entries));
    if cells.len() == 0 {
        Some(current)
    } else if cells.len() == 1 {
        match cells[0].spec_data() {
            ParamData::SizeT(n) => Some(n),
            _ => None,
        }
    } else {
        None
    }
}

/// Among the first `i` entries, the length cells are the one at `k`, when
/// `i` goes past it, and no other.
proof fn lemma_one_length_cell(entries: Seq<OSSL_PARAM>, k: int, i: int)
    requires
        0 <= k < entries.len(),
        0 <= i <= entries.len(),
        is_length_key(entries[k].spec_key()),
        forall|j: int| 0 <= j < entries.len() && j != k ==> !is_length_key(#[trigger] entries[j].spec_key()),
    ensures
        length_cells(entries.take(i)) == (if i > k {
            seq![entries[k]]
        } else {
            Seq::<OSSL_PARAM>::empty()
        }),
    decreases i,
{
    if i > 0 {
        lemma_one_length_cell(entries, k, i - 1);
        assert(entries.take(i).drop_last() =~= entries.take(i - 1));
        assert(entries.take(i).last() == entries[i - 1]);
        if i - 1 == k {
            assert(seq![entries[k]] =~= Seq::<OSSL_PARAM>::empty().push(entries[k]));
        }
    }
}

/// Setting the final length through `xoflen` or through `size` is the same:
/// an array whose live entries (the first `m`) hold exactly one cell named
/// `xoflen` or `size`, an exact `size_t` of value `n`, configures the length
/// `n` whatever the current one, whichever of the two names it carries.
pub proof fn law_length_aliases_configure(entries: Seq<OSSL_PARAM>, current: usize, m: int, k: int, n: usize)
    requires
        is_live_len(entries, m),
        0 <= k < m,
        entries[k].spec_key() == Some(seq![120u8, 111u8, 102u8, 108u8, 101u8, 110u8]) || entries[k].spec_key() == Some(
            seq![115u8, 105u8, 122u8, 101u8],
        ),
        entries[k].spec_data() == ParamData::SizeT(n),
        forall|j: int|
            0 <= j < m && j != k ==> (#[trigger] entries[j]).spec_key() != Some(
                seq![120u8, 111u8, 102u8, 108u8, 101u8, 110u8],
            ) && entries[j].spec_key() != Some(seq![115u8, 105u8, 122u8, 101u8]),
    ensures
        configured_length(entries, current) == Some(n),
{
    lemma_live_len(entries, m);
    let cells = entries.take(m);
    assert(spec_name_xoflen() =~= seq![120u8, 111u8, 102u8, 108u8, 101u8, 110u8]);
    assert(spec_name_size() =~= seq![115u8, 105u8, 122u8, 101u8]);
    assert forall|j: int| 0 <= j < cells.len() && j != k implies !is_length_key(#[trigger] cells[j].spec_key()) by {
        assert(cells[j] == entries[j]);
    }
    assert(cells.take(m) =~= cells);
    lemma_one_length_cell(cells, k, m);
}

/// The final-length parameters: `xoflen` and `size`, both unsigned.
pub open spec fn length_names() -> Seq<(Seq<u8>, u32)> {
    seq![
        (spec_name_xoflen(), OSSL_PARAM::UNSIGNED_INTEGER),
        (spec_name_size(), OSSL_PARAM::UNSIGNED_INTEGER),
    ]
}

/// SHAKE's algorithm-wide parameters: `blocksize` and `size` unsigned, `xof`
/// signed.
pub open spec fn shake_names() -> Seq<(Seq<u8>, u32)> {
    seq![
        (spec_name_blocksize(), OSSL_PARAM::UNSIGNED_INTEGER),
        (spec_name_size(), OSSL_PARAM::UNSIGNED_INTEGER),
        (spec_name_xof(), OSSL_PARAM::INTEGER),
    ]
}

/// The descriptor table for the final length: `xoflen` and `size`, unsigned.
fn length_params() -> (t: ParamTable)
    ensures
        lists_descriptors(t.spec_entries(), length_names()),
{
    let mut entries: Vec<OSSL_PARAM> = Vec::new();
    entries.push(OSSL_PARAM::defn(&name_xoflen(), OSSL_PARAM::UNSIGNED_INTEGER));
    entries.push(OSSL_PARAM::defn(&name_size(), OSSL_PARAM::UNSIGNED_INTEGER));
    entries.push(OSSL_PARAM::end());
    let ghost listed = entries@;
    match ParamTable::new(entries) {
        Some(t) => {
            assert(lists_descriptors(listed, length_names()));
            t
        },
        None => {
            assert(false);
            ParamTable::empty()
        },
    }
}

/// The algorithm-wide descriptor table of SHAKE: `blocksize` and `size`
/// unsigned, `xof` signed.
fn shake_params() -> (t: ParamTable)
    ensures
        lists_descriptors(t.spec_entries(), shake_names()),
{
    let mut entries: Vec<OSSL_PARAM> = Vec::new();
    entries.push(OSSL_PARAM::defn(&name_blocksize(), OSSL_PARAM::UNSIGNED_INTEGER));
    entries.push(OSSL_PARAM::defn(&name_size(), OSSL_PARAM::UNSIGNED_INTEGER));
    entries.push(OSSL_PARAM::defn(&name_xof(), OSSL_PARAM::INTEGER));
    entries.push(OSSL_PARAM::end());
    let ghost listed = entries@;
    match ParamTable::new(entries) {
        Some(t) => {
            assert(lists_descriptors(listed, shake_names()));
            t
        },
        None => {
            assert(false);
            ParamTable::empty()
        },
    }
}

/// Whether `name` selects the final length.
fn is_length_name(name: &[u8]) -> (r: bool)
    ensures
        r == is_length_key(Some(name@)),
{
    name_eq(name, &name_xoflen()) || name_eq(name, &name_size())
}

/// A final length that a length parameter set reads back, as a `size_t`,
/// through either length name: the state the setter left reports exactly
/// the value the setter took.
pub proof fn law_length_reads_back<X: BcXof, const RATE: usize>(
    configured: BcShake<X, RATE>,
    param: OSSL_PARAM,
    cell_before: OSSL_PARAM,
    cell_after: OSSL_PARAM,
    r: bool,
)
    requires
        param.spec_data() is SizeT,
        configured.spec_xoflen() == param.spec_data()->SizeT_0,
        size_t_stored(cell_before, cell_after, configured.spec_xoflen(), r),
        cell_before.spec_data_type() == OSSL_PARAM::UNSIGNED_INTEGER,
        cell_before.spec_data() is SizeT,
    ensures
        r,
        size_t_value(cell_after) == Some(param.spec_data()->SizeT_0),
{
}

/// Whether `r` and the output after squeezing `len` bytes follow what the
/// sponge did: it was lent a zeroed buffer of `len` bytes (`lent`), left
/// `left` in it and reported `produced` bytes. The bytes it left fill the
/// `len` bytes after those already committed, also when it fell short (they
/// are not rolled back), and the rest of the output is unchanged; the squeeze
/// succeeded, committing them, exactly when all `len` were produced.
pub open spec fn squeeze_follows(
    lent: Seq<u8>,
    left: Seq<u8>,
    produced: usize,
    len: usize,
    out_before: Output<'_>,
    out_after: Output<'_>,
    r: Result,
) -> bool {
    &&& lent == Seq::new(len as nat, |i: int| 0u8)
    &&& r is Ok <==> produced == len
    &&& same_outside(out_after.storage(), out_before.storage(), out_before.committed() as int, out_before.committed() + len)
    &&& left.len() == len ==> holds_bytes(out_after.storage(), out_before.committed() as int, left)
}

/// Copies `source` over `target` when their lengths agree; a target of
/// another length is left alone.
fn copy_over(target: &mut [u8], source: &[u8])
    ensures
        final(target)@.len() == old(target)@.len(),
        old(target)@.len() == source@.len() ==> final(target)@ == source@,
        old(target)@.len() != source@.len() ==> final(target)@ == old(target)@,
{
    if target.len() != source.len() {
        return;
    }
    let ghost before = target@;
    let mut i: usize = 0;
    while i < source.len()
        invariant
            target@.len() == source@.len(),
            before.len() == source@.len(),
            0 <= i <= source@.len(),
            target@ == source@.take(i as int) + before.skip(i as int),
        decreases source.len() - i,
    {
        target[i] = source[i];
        i += 1;
        assert(target@ =~= source@.take(i as int) + before.skip(i as int));
    }
    assert(target@ =~= source@);
}

/// SHAKE's algorithm-wide table describes `blocksize` and `size` as
/// unsigned integers and `xof` as a signed one, and the handler takes a
/// cell of each described name and kind: asked to fill an empty cell of the
/// described kind, it accepts.
pub proof fn law_shake_algorithm_table<X: BcXof, const RATE: usize>(t: ParamTable)
    requires
        call_ensures(<BcShake<X, RATE> as Digest>::gettable_params, (), t),
    ensures
        t.spec_entries().len() == 4,
        t.spec_entries()[0].spec_key() == Some(seq![98u8, 108u8, 111u8, 99u8, 107u8, 115u8, 105u8, 122u8, 101u8]),
        t.spec_entries()[0].spec_data_type() == 2,
        t.spec_entries()[1].spec_key() == Some(seq![115u8, 105u8, 122u8, 101u8]),
        t.spec_entries()[1].spec_data_type() == 2,
        t.spec_entries()[2].spec_key() == Some(seq![120u8, 111u8, 102u8]),
        t.spec_entries()[2].spec_data_type() == 1,
        t.spec_entries()[3].spec_is_end(),
        forall|j: int, name: &[u8], cell: &mut ParamMut<'_>, r: bool|
            #![trigger call_ensures(<BcShake<X, RATE> as Digest>::get_param, (name, cell), r), t.spec_entries()[j]]
            0 <= j < 3 && call_ensures(<BcShake<X, RATE> as Digest>::get_param, (name, cell), r) && Some(name@)
                == t.spec_entries()[j].spec_key() && (*cell).cell().spec_data_type() == t.spec_entries()[j].spec_data_type()
                && (*cell).cell().spec_data() is Null ==> r,
{
}

/// SHAKE's context tables, for reading and for setting, describe the final
/// length under both `xoflen` and `size`, as unsigned integers; reading
/// either name into an exact `size_t` cell stores the context's final length.
pub proof fn law_shake_length_tables<X: BcXof, const RATE: usize>(gettable: ParamTable, settable: ParamTable)
    requires
        call_ensures(<BcShake<X, RATE> as Digest>::gettable_ctx_params, (), gettable),
        call_ensures(<BcShake<X, RATE> as Digest>::settable_ctx_params, (), settable),
    ensures
        gettable.spec_entries().len() == 3,
        gettable.spec_entries()[0].spec_key() == Some(seq![120u8, 111u8, 102u8, 108u8, 101u8, 110u8]),
        gettable.spec_entries()[0].spec_data_type() == 2,
        gettable.spec_entries()[1].spec_key() == Some(seq![115u8, 105u8, 122u8, 101u8]),
        gettable.spec_entries()[1].spec_data_type() == 2,
        gettable.spec_entries()[2].spec_is_end(),
        settable.spec_entries().len() == 3,
        settable.spec_entries()[0].spec_key() == Some(seq![120u8, 111u8, 102u8, 108u8, 101u8, 110u8]),
        settable.spec_entries()[0].spec_data_type() == 2,
        settable.spec_entries()[1].spec_key() == Some(seq![115u8, 105u8, 122u8, 101u8]),
        settable.spec_entries()[1].spec_data_type() == 2,
        settable.spec_entries()[2].spec_is_end(),
        forall|this: &BcShake<X, RATE>, name: &[u8], cell: &mut ParamMut<'_>, r: bool|
            #[trigger] call_ensures(<BcShake<X, RATE> as Digest>::get_ctx_param, (this, name, cell), r) && (name@ == seq![
                120u8,
                111u8,
                102u8,
                108u8,
                101u8,
                110u8,
            ] || name@ == seq![115u8, 105u8, 122u8, 101u8]) && (*cell).cell().spec_data_type() == 2 && (*cell).cell().spec_data() is SizeT
                ==> r && (*final(cell)).cell().spec_data() == ParamData::SizeT(this.spec_xoflen()),
{
}

impl<X: BcXof, const RATE: usize> BcShake<X, RATE> {
    /// The configured final length, `usize::MAX` while unset.
    pub closed spec fn spec_xoflen(&self) -> usize {
        self.xoflen
    }

    /// The phase of the computation.
    pub closed spec fn spec_phase(&self) -> Phase {
        self.phase
    }

    /// The sponge.
    pub closed spec fn spec_state(&self) -> X {
        self.state
    }

    /// The phase of the computation.
    pub fn phase(&self) -> (p: Phase)
        ensures
            p == self.spec_phase(),
    {
        self.phase
    }

    /// The configured final length, `usize::MAX` while unset.
    pub fn xoflen(&self) -> (n: usize)
        ensures
            n == self.spec_xoflen(),
    {
        self.xoflen
    }

    /// The sponge.
    pub fn sponge(&self) -> (x: &X)
        ensures
            *x == self.spec_state(),
    {
        &self.state
    }

    /// Takes the final length from an exact-width `size_t` cell.
    fn set_length(&mut self, param: &OSSL_PARAM) -> (r: bool)
        ensures
            r == param.spec_data() is SizeT,
            r ==> final(self).spec_xoflen() == param.spec_data()->SizeT_0,
            !r ==> final(self).spec_xoflen() == old(self).spec_xoflen(),
            final(self).spec_phase() == old(self).spec_phase(),
            final(self).spec_state() == old(self).spec_state(),
    {
        match param.get_size_t() {
            Some(len) => {
                self.xoflen = len;
                true
            },
            None => false,
        }
    }

    /// Squeezes `len` bytes into the output.
    ///
    /// Capacity is checked before the sponge or the phase advance: without
    /// room nothing changes. With room the phase becomes `Squeezing` and the
    /// sponge fills the region after the committed bytes; the bytes are
    /// committed when it produces all of them, and `InvalidState` is reported
    /// when it does not, the committed count unchanged and the region keeping
    /// what the sponge left.
    pub fn write_output(&mut self, out: &mut Output<'_>, len: usize) -> (r: Result)
        ensures
            final(out).capacity() == old(out).capacity(),
            final(self).spec_xoflen() == old(self).spec_xoflen(),
            old(out).committed() + len > old(out).capacity() ==> {
                &&& r == Err::<(), Error>(Error::BufferTooSmall)
                &&& *final(out) == *old(out)
                &&& *final(self) == *old(self)
            },
            old(out).committed() + len <= old(out).capacity() ==> {
                &&& final(self).spec_phase() == Phase::Squeezing
                &&& r is Ok ==> final(out).committed() == old(out).committed() + len
                &&& r is Err ==> r == Err::<(), Error>(Error::InvalidState) && final(out).committed()
                    == old(out).committed()
                &&& exists|sponge: &mut X, buf: &mut [u8], produced: usize|
                    #[trigger] call_ensures(X::squeeze_out, (sponge, buf), produced) && *sponge
                        == old(self).spec_state() && *final(sponge) == final(self).spec_state() && squeeze_follows(
                        buf@,
                        final(buf)@,
                        produced,
                        len,
                        *old(out),
                        *final(out),
                        r,
                    )
            },
            final(final(out).target())@ == final(old(out).target())@,
    {
        if out.remaining() < len {
            return Err(Error::BufferTooSmall);
        }
        self.phase = Phase::Squeezing;
        let mut buffer = zeroed(len);
        let produced = self.state.squeeze_out(buffer.as_mut_slice());
        let left = lent_bytes(buffer.as_slice(), len);
        let complete = produced == len;
        let fill = move |region: &mut [u8]| -> (r: Result)
            ensures
                final(region)@.len() == old(region)@.len(),
                old(region)@.len() == left@.len() ==> final(region)@ == left@,
                complete ==> r is Ok,
                !complete ==> r matches Err(Error::InvalidState),
            {
                copy_over(region, left.as_slice());
                if complete {
                    Ok(())
                } else {
                    Err(Error::InvalidState)
                }
            };
        out.write_with(len, fill)
    }
}

impl<X: BcXof, const RATE: usize> Digest for BcShake<X, RATE> {
    const HAS_NEWCTX: bool = true;
    const HAS_INIT: bool = true;
    const HAS_UPDATE: bool = true;
    const HAS_FINALIZE: bool = true;
    const HAS_GETTABLE_PARAMS: bool = true;
    const HAS_GET_PARAM: bool = true;
    const HAS_APPLY_CTX_PARAMS: bool = true;
    const HAS_DUPCTX: bool = true;
    const HAS_COPYCTX: bool = true;
    const HAS_SQUEEZE: bool = true;
    const HAS_SET_CTX_PARAM: bool = true;
    const HAS_SETTABLE_CTX_PARAMS: bool = true;
    const HAS_GET_CTX_PARAM: bool = true;
    const HAS_GETTABLE_CTX_PARAMS: bool = true;

    /// A fresh sponge, absorbing, with no final length configured.
    fn newctx() -> (r: Result<Self>)
        ensures
            r is Ok,
            r matches Ok(s) ==> s.spec_xoflen() == unset_length() && s.spec_phase() == Phase::Absorbing
                && call_ensures(X::new_xof, (), s.spec_state()),
    {
        Ok(BcShake { state: X::new_xof(), xoflen: usize::MAX, phase: Phase::Absorbing })
    }

    /// Resets the sponge to absorbing, then applies the parameters.
    fn init(&mut self, params: Option<Params<'_>>) -> (r: Result)
        ensures
            final(self).spec_phase() == Phase::Absorbing,
            call_ensures(X::new_xof, (), final(self).spec_state()),
            params is None ==> r is Ok && final(self).spec_xoflen() == old(self).spec_xoflen(),
            params matches Some(p) ==> match configured_length(p.spec_entries(), old(self).spec_xoflen()) {
                Some(n) => r is Ok && final(self).spec_xoflen() == n,
                None => r == Err::<(), Error>(Error::InvalidParameter) && final(self).spec_xoflen()
                    == old(self).spec_xoflen(),
            },
    {
        self.state = X::new_xof();
        self.phase = Phase::Absorbing;
        self.apply_ctx_params(params)
    }

    fn gettable_params() -> (t: ParamTable)
        ensures
            lists_descriptors(t.spec_entries(), shake_names()),
    {
        shake_params()
    }

    /// `blocksize` is the sponge rate, `size` is zero (the length is chosen
    /// per context) and `xof` is one.
    fn get_param(name: &[u8], param: &mut ParamMut<'_>) -> (r: bool)
        ensures
            name@ == spec_name_blocksize() ==> size_t_stored(old(param).cell(), final(param).cell(), RATE, r),
            name@ == spec_name_size() ==> size_t_stored(old(param).cell(), final(param).cell(), 0, r),
            name@ == spec_name_xof() ==> int_stored(old(param).cell(), final(param).cell(), 1, r),
            name@ != spec_name_blocksize() && name@ != spec_name_size() && name@ != spec_name_xof() ==> !r
                && *final(param) == *old(param),
    {
        if name_eq(name, &name_blocksize()) {
            return param.set_size_t(RATE);
        }
        if name_eq(name, &name_size()) {
            return param.set_size_t(0);
        }
        if name_eq(name, &name_xof()) {
            return param.set_int(1);
        }
        false
    }

    fn settable_ctx_params() -> (t: ParamTable)
        ensures
            lists_descriptors(t.spec_entries(), length_names()),
    {
        length_params()
    }

    /// `xoflen` and `size` both set the final length.
    fn set_ctx_param(&mut self, name: &[u8], param: &OSSL_PARAM) -> (r: bool)
        ensures
            !is_length_key(Some(name@)) ==> !r && *final(self) == *old(self),
            is_length_key(Some(name@)) ==> r == param.spec_data() is SizeT,
            is_length_key(Some(name@)) && r ==> final(self).spec_xoflen() == param.spec_data()->SizeT_0,
            !r ==> final(self).spec_xoflen() == old(self).spec_xoflen(),
            final(self).spec_phase() == old(self).spec_phase(),
            final(self).spec_state() == old(self).spec_state(),
    {
        if is_length_name(name) {
            self.set_length(param)
        } else {
            false
        }
    }

    fn gettable_ctx_params() -> (t: ParamTable)
        ensures
            lists_descriptors(t.spec_entries(), length_names()),
    {
        length_params()
    }

    /// `xoflen` and `size` both report the final length.
    fn get_ctx_param(&self, name: &[u8], param: &mut ParamMut<'_>) -> (r: bool)
        ensures
            is_length_key(Some(name@)) ==> size_t_stored(old(param).cell(), final(param).cell(), self.spec_xoflen(), r),
            !is_length_key(Some(name@)) ==> !r && *final(param) == *old(param),
    {
        if is_length_name(name) {
            param.set_size_t(self.xoflen)
        } else {
            false
        }
    }

    /// Sets the final length from the one length cell among the parameters.
    ///
    /// Two length cells (aliases or repeats) are rejected before anything
    /// changes, as is a length cell that is not an exact-width `size_t`.
    fn apply_ctx_params(&mut self, params: Option<Params<'_>>) -> (r: Result)
        ensures
            final(self).spec_phase() == old(self).spec_phase(),
            final(self).spec_state() == old(self).spec_state(),
            params is None ==> r is Ok && final(self).spec_xoflen() == old(self).spec_xoflen(),
            params matches Some(p) ==> match configured_length(p.spec_entries(), old(self).spec_xoflen()) {
                Some(n) => r is Ok && final(self).spec_xoflen() == n,
                None => r == Err::<(), Error>(Error::InvalidParameter) && final(self).spec_xoflen()
                    == old(self).spec_xoflen(),
            },
    {
        let view = match params {
            Some(view) => view,
            None => return Ok(()),
        };
        let ghost entries = view.spec_entries();
        let mut cursor = view.iter();
        let mut length: Option<&OSSL_PARAM> = None;
        loop
            invariant
                params is Some,
                entries == params->0.spec_entries(),
                cursor.spec_entries() == entries,
                cursor.position() <= entries.len(),
                forall|j: int| 0 <= j < cursor.position() ==> !(#[trigger] entries[j]).spec_is_end(),
                length_cells(entries.take(cursor.position() as int)).len() <= 1,
                length is None <==> length_cells(entries.take(cursor.position() as int)).len() == 0,
                length matches Some(p) ==> *p == length_cells(entries.take(cursor.position() as int))[0],
                *self == *old(self),
            ensures
                length_cells(live(entries)).len() <= 1,
                length is None <==> length_cells(live(entries)).len() == 0,
                length matches Some(p) ==> *p == length_cells(live(entries))[0],
                *self == *old(self),
            decreases entries.len() - cursor.position(),
        {
            let ghost pos = cursor.position() as int;
            match cursor.next() {
                None => {
                    proof {
                        assert(is_live_len(entries, pos));
                        lemma_live_len(entries, pos);
                    }
                    break;
                },
                Some(param) => {
                    proof {
                        assert(entries.take(pos + 1).drop_last() =~= entries.take(pos));
                        assert(entries.take(pos + 1).last() == entries[pos]);
                    }
                    match param.key() {
                        Some(key) => {
                            if is_length_name(key) {
                                if length.is_some() {
                                    proof {
                                        let m = pos + 1;
                                        assert(length_cells(entries.take(m)).len() == 2);
                                        lemma_live_len_exists(entries, m);
                                        let n = choose|n: int| m <= n && is_live_len(entries, n);
                                        lemma_live_len(entries, n);
                                        lemma_length_cells_grow(entries, m, n);
                                        assert(entries.take(n) == live(entries));
                                    }
                                    return Err(Error::InvalidParameter);
                                }
                                length = Some(param);
                            }
                        },
                        None => {},
                    }
                },
            }
        }
        match length {
            Some(param) => {
                if !self.set_length(param) {
                    return Err(Error::InvalidParameter);
                }
                Ok(())
            },
            None => Ok(()),
        }
    }

    /// Absorbs input while absorbing; empty input is always accepted and
    /// changes nothing; input after output has started is `InvalidState`.
    fn update(&mut self, input: &[u8]) -> (r: Result)
        ensures
            final(self).spec_xoflen() == old(self).spec_xoflen(),
            final(self).spec_phase() == old(self).spec_phase(),
            input@.len() == 0 ==> r is Ok && *final(self) == *old(self),
            input@.len() != 0 && old(self).spec_phase() != Phase::Absorbing ==> r == Err::<(), Error>(
                Error::InvalidState,
            ) && *final(self) == *old(self),
            r is Err ==> r == Err::<(), Error>(Error::InvalidState),
            input@.len() != 0 && old(self).spec_phase() == Phase::Absorbing ==> exists|
                sponge: &mut X,
                absorbed: core::result::Result<(), ()>,
            |
                #[trigger] call_ensures(X::absorb, (sponge, input), absorbed) && *sponge == old(self).spec_state()
                    && *final(sponge) == final(self).spec_state() && (r is Ok <==> absorbed is Ok),
    {
        if input.len() == 0 {
            return Ok(());
        }
        if self.phase != Phase::Absorbing {
            return Err(Error::InvalidState);
        }
        match self.state.absorb(input) {
            Ok(()) => Ok(()),
            Err(()) => Err(Error::InvalidState),
        }
    }

    /// Produces the configured final length once, from the absorbing phase.
    ///
    /// An unset length is `InvalidParameter`, any phase but absorbing is
    /// `InvalidState`, and a zero length succeeds without touching the
    /// sponge or the phase.
    fn finalize(&mut self, out: &mut Output<'_>) -> (r: Result)
        ensures
            final(out).capacity() == old(out).capacity(),
            final(self).spec_xoflen() == old(self).spec_xoflen(),
            old(self).spec_xoflen() == unset_length() ==> r == Err::<(), Error>(Error::InvalidParameter)
                && *final(self) == *old(self) && *final(out) == *old(out),
            old(self).spec_xoflen() != unset_length() && old(self).spec_phase() != Phase::Absorbing
                ==> r == Err::<(), Error>(Error::InvalidState) && *final(self) == *old(self)
                && *final(out) == *old(out),
            old(self).spec_xoflen() == 0 && old(self).spec_phase() == Phase::Absorbing ==> r is Ok
                && *final(self) == *old(self) && *final(out) == *old(out),
            ({
                let len = old(self).spec_xoflen();
                len != unset_length() && len != 0 && old(self).spec_phase() == Phase::Absorbing
                    ==> {
                    &&& old(out).committed() + len > old(out).capacity() ==> r == Err::<(), Error>(
                        Error::BufferTooSmall,
                    ) && *final(self) == *old(self) && *final(out) == *old(out)
                    &&& r is Ok ==> final(self).spec_phase() == Phase::Finalized
                        && final(out).committed() == old(out).committed() + len
                    &&& (old(out).committed() + len <= old(out).capacity() && r is Err) ==> r
                        == Err::<(), Error>(Error::InvalidState) && final(self).spec_phase()
                        == Phase::Squeezing && final(out).committed() == old(out).committed()
                    &&& old(out).committed() + len <= old(out).capacity() ==> exists|
                        sponge: &mut X,
                        buf: &mut [u8],
                        produced: usize,
                    |
                        #[trigger] call_ensures(X::squeeze_out, (sponge, buf), produced) && *sponge
                            == old(self).spec_state() && *final(sponge) == final(self).spec_state()
                            && squeeze_follows(buf@, final(buf)@, produced, len, *old(out), *final(out), r)
                }
            }),
    {
        if self.xoflen == usize::MAX {
            return Err(Error::InvalidParameter);
        }
        if self.phase != Phase::Absorbing {
            return Err(Error::InvalidState);
        }
        if self.xoflen == 0 {
            return Ok(());
        }
        let len = self.xoflen;
        self.write_output(out, len)?;
        self.phase = Phase::Finalized;
        Ok(())
    }

    /// Squeezes further output unless a final output was produced.
    fn squeeze(&mut self, out: &mut Output<'_>, len: usize) -> (r: Result)
        ensures
            final(out).capacity() == old(out).capacity(),
            final(self).spec_xoflen() == old(self).spec_xoflen(),
            old(self).spec_phase() == Phase::Finalized ==> r == Err::<(), Error>(Error::InvalidState)
                && *final(self) == *old(self) && *final(out) == *old(out),
            old(self).spec_phase() != Phase::Finalized ==> {
                &&& old(out).committed() + len > old(out).capacity() ==> r == Err::<(), Error>(
                    Error::BufferTooSmall,
                ) && *final(self) == *old(self) && *final(out) == *old(out)
                &&& old(out).committed() + len <= old(out).capacity() ==> final(self).spec_phase()
                    == Phase::Squeezing
                &&& r is Ok ==> final(out).committed() == old(out).committed() + len
                &&& (old(out).committed() + len <= old(out).capacity() && r is Err) ==> r
                    == Err::<(), Error>(Error::InvalidState) && final(out).committed() == old(out).committed()
                &&& old(out).committed() + len <= old(out).capacity() ==> exists|
                    sponge: &mut X,
                    buf: &mut [u8],
                    produced: usize,
                |
                    #[trigger] call_ensures(X::squeeze_out, (sponge, buf), produced) && *sponge
                        == old(self).spec_state() && *final(sponge) == final(self).spec_state()
                        && squeeze_follows(buf@, final(buf)@, produced, len, *old(out), *final(out), r)
            },
    {
        if self.phase == Phase::Finalized {
            return Err(Error::InvalidState);
        }
        self.write_output(out, len)
    }

    /// A copy with the same length and phase and an independent sponge.
    fn dupctx(&self) -> (r: Result<Self>)
        ensures
            r matches Ok(copy) && copy.spec_xoflen() == self.spec_xoflen() && copy.spec_phase()
                == self.spec_phase() && call_ensures(X::duplicate, (&self.spec_state(),), copy.spec_state()),
    {
        Ok(BcShake { state: self.state.duplicate(), xoflen: self.xoflen, phase: self.phase })
    }

    /// Takes the source's sponge, length and phase.
    fn copyctx(&mut self, source: &Self)
        ensures
            final(self).spec_xoflen() == source.spec_xoflen(),
            final(self).spec_phase() == source.spec_phase(),
            exists|sponge: &mut X, from: &X|
                #[trigger] call_ensures(X::clone_from_xof, (sponge, from), ()) && *sponge == old(self).spec_state()
                    && *from == source.spec_state() && *final(sponge) == final(self).spec_state(),
    {
        self.xoflen = source.xoflen;
        self.phase = source.phase;
        self.state.clone_from_xof(&source.state);
    }
}

} // verus!
