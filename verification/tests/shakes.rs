use rustle::digest::{Digest, DigestAlgorithm, Error, Output, Result};
use rustle::params::{OSSL_PARAM, ParamData, ParamMut, Params};
use rustle::shakes::{BcShake, BcShake128, BcShake256, BcXof, Phase};

/// A deterministic stand-in sponge: its output stream depends on everything
/// absorbed and advances with every byte squeezed.
#[derive(Clone, Debug, PartialEq)]
struct Sponge {
    absorbed: Vec<u8>,
    squeezed: usize,
}

impl Sponge {
    fn byte(&self, position: usize) -> u8 {
        let seed = self.absorbed.iter().fold(17u8, |acc, b| acc.wrapping_mul(31).wrapping_add(*b));
        seed.wrapping_add((position as u8).wrapping_mul(7))
    }
}

impl BcXof for Sponge {
    fn new_xof() -> Self {
        Sponge { absorbed: Vec::new(), squeezed: 0 }
    }
    fn absorb(&mut self, input: &[u8]) -> core::result::Result<(), ()> {
        if self.squeezed > 0 {
            return Err(());
        }
        self.absorbed.extend_from_slice(input);
        Ok(())
    }
    fn squeeze_out(&mut self, out: &mut [u8]) -> usize {
        for byte in out.iter_mut() {
            *byte = self.byte(self.squeezed);
            self.squeezed += 1;
        }
        out.len()
    }
    fn duplicate(&self) -> Self {
        self.clone()
    }
    fn clone_from_xof(&mut self, source: &Self) {
        *self = source.clone();
    }
}

fn next_bytes(state: &Sponge) -> [u8; 32] {
    let mut bytes = [0; 32];
    assert_eq!(state.duplicate().squeeze_out(&mut bytes), bytes.len());
    bytes
}


fn length_cell(name: &[u8], len: usize) -> OSSL_PARAM {
    OSSL_PARAM::cell(name, OSSL_PARAM::UNSIGNED_INTEGER, ParamData::SizeT(len))
}

fn short_output_preserves_state<const RATE: usize>() -> Result {
    let mut ctx = BcShake::<Sponge, RATE>::newctx()?;
    ctx.update(b"abc")?;
    assert!(ctx.set_ctx_param(b"xoflen", &length_cell(b"xoflen", 32)));
    let mut short = [0u8; 1];
    let expected = next_bytes(ctx.sponge());
    let mut out = Output::new(&mut short);
    assert_eq!(ctx.finalize(&mut out), Err(Error::BufferTooSmall));
    assert_eq!(out.written(), 0);
    assert!(matches!(ctx.phase(), Phase::Absorbing));
    assert_eq!(next_bytes(ctx.sponge()), expected);

    let mut prefix = [0u8; 7];
    ctx.squeeze(&mut Output::new(&mut prefix), 7)?;
    let expected = next_bytes(ctx.sponge());
    let mut out = Output::new(&mut short);
    assert_eq!(ctx.squeeze(&mut out, 32), Err(Error::BufferTooSmall));
    assert_eq!(out.written(), 0);
    assert!(matches!(ctx.phase(), Phase::Squeezing));
    assert_eq!(next_bytes(ctx.sponge()), expected);
    Ok(())
}

#[test]
fn shake128_short_output_preserves_state() -> Result {
    short_output_preserves_state::<168>()
}

#[test]
fn shake256_short_output_preserves_state() -> Result {
    short_output_preserves_state::<136>()
}

#[test]
fn finalize_needs_a_length_and_happens_once() {
    let mut ctx = BcShake128::<Sponge>::newctx().unwrap();
    assert_eq!(ctx.xoflen(), usize::MAX);
    let mut storage = [0u8; 4];
    assert_eq!(ctx.finalize(&mut Output::new(&mut storage)), Err(Error::InvalidParameter));
    assert!(ctx.set_ctx_param(b"size", &length_cell(b"size", 4)));
    assert_eq!(ctx.xoflen(), 4);
    let mut out = Output::new(&mut storage);
    assert_eq!(ctx.finalize(&mut out), Ok(()));
    assert_eq!(out.written(), 4);
    assert_eq!(ctx.phase(), Phase::Finalized);
    let mut more = [0u8; 4];
    assert_eq!(ctx.finalize(&mut Output::new(&mut more)), Err(Error::InvalidState));
    assert_eq!(ctx.squeeze(&mut Output::new(&mut more), 1), Err(Error::InvalidState));
    assert_eq!(ctx.update(b"x"), Err(Error::InvalidState));
    // Empty input is accepted in every phase.
    assert_eq!(ctx.update(b""), Ok(()));
    let expected = Sponge { absorbed: Vec::new(), squeezed: 0 };
    let reference: Vec<u8> = (0..4).map(|i| expected.byte(i)).collect();
    assert_eq!(storage.to_vec(), reference);
}

#[test]
fn zero_length_finalize_leaves_the_sponge_absorbing() {
    let mut ctx = BcShake256::<Sponge>::newctx().unwrap();
    assert!(ctx.set_ctx_param(b"xoflen", &length_cell(b"xoflen", 0)));
    let mut out = Output::new(&mut []);
    assert_eq!(ctx.finalize(&mut out), Ok(()));
    assert_eq!(ctx.phase(), Phase::Absorbing);
    assert_eq!(ctx.update(b"more"), Ok(()));
}

#[test]
fn squeezing_continues_the_output_stream() {
    let mut ctx = BcShake128::<Sponge>::newctx().unwrap();
    ctx.update(b"stream").unwrap();
    let mut first = [0u8; 3];
    let mut second = [0u8; 2];
    assert_eq!(ctx.squeeze(&mut Output::new(&mut first), 3), Ok(()));
    assert_eq!(ctx.squeeze(&mut Output::new(&mut second), 2), Ok(()));
    let reference = Sponge { absorbed: b"stream".to_vec(), squeezed: 0 };
    assert_eq!(first.to_vec(), (0..3).map(|i| reference.byte(i)).collect::<Vec<u8>>());
    assert_eq!(second.to_vec(), (3..5).map(|i| reference.byte(i)).collect::<Vec<u8>>());
    assert_eq!(ctx.update(b"late"), Err(Error::InvalidState));
    // A final output after squeezing is refused.
    assert!(ctx.set_ctx_param(b"xoflen", &length_cell(b"xoflen", 1)));
    let mut last = [0u8; 1];
    assert_eq!(ctx.finalize(&mut Output::new(&mut last)), Err(Error::InvalidState));
}

#[test]
fn length_parameters_reject_aliases_and_wrong_kinds() {
    let mut ctx = BcShake128::<Sponge>::newctx().unwrap();
    let aliases = vec![length_cell(b"xoflen", 8), length_cell(b"size", 9), OSSL_PARAM::end()];
    assert_eq!(ctx.apply_ctx_params(Params::from_ptr(Some(&aliases))), Err(Error::InvalidParameter));
    assert_eq!(ctx.xoflen(), usize::MAX);
    let repeated = vec![length_cell(b"xoflen", 8), length_cell(b"xoflen", 9), OSSL_PARAM::end()];
    assert_eq!(ctx.apply_ctx_params(Params::from_ptr(Some(&repeated))), Err(Error::InvalidParameter));
    let signed = vec![
        OSSL_PARAM::cell(b"xoflen", OSSL_PARAM::INTEGER, ParamData::Int(8)),
        OSSL_PARAM::end(),
    ];
    assert_eq!(ctx.apply_ctx_params(Params::from_ptr(Some(&signed))), Err(Error::InvalidParameter));
    assert_eq!(ctx.xoflen(), usize::MAX);
    // A second length after the terminator is never consulted.
    let hidden = vec![length_cell(b"xoflen", 8), OSSL_PARAM::end(), length_cell(b"size", 9)];
    assert_eq!(ctx.apply_ctx_params(Params::from_ptr(Some(&hidden))), Ok(()));
    assert_eq!(ctx.xoflen(), 8);
    let unrelated = vec![length_cell(b"other", 3), OSSL_PARAM::end()];
    assert_eq!(ctx.init(Params::from_ptr(Some(&unrelated))), Ok(()));
    assert_eq!(ctx.xoflen(), 8);
    assert_eq!(ctx.apply_ctx_params(None), Ok(()));
}

#[test]
fn parameters_report_rate_length_and_xof_flag() {
    let mut raw = vec![
        length_cell(b"blocksize", 0),
        length_cell(b"size", 1),
        OSSL_PARAM::cell(b"xof", OSSL_PARAM::INTEGER, ParamData::Int(0)),
        OSSL_PARAM::end(),
    ];
    assert_eq!(DigestAlgorithm::<BcShake256<Sponge>>::get_params(Some(&mut raw)), 1);
    assert_eq!(raw[0].get_size_t(), Some(136));
    assert_eq!(raw[1].get_size_t(), Some(0));
    assert_eq!(raw[2].get_int(), Some(1));

    let mut ctx = BcShake256::<Sponge>::newctx().unwrap();
    assert!(ctx.set_ctx_param(b"size", &length_cell(b"size", 64)));
    let mut raw = vec![length_cell(b"xoflen", 0), OSSL_PARAM::end()];
    assert_eq!(DigestAlgorithm::<BcShake256<Sponge>>::get_ctx_params(Some(&ctx), Some(&mut raw)), 1);
    assert_eq!(raw[0].get_size_t(), Some(64));
    let mut cell = length_cell(b"other", 5);
    let mut other = ParamMut::new(&mut cell);
    assert!(!ctx.get_ctx_param(b"other", &mut other));
    assert_eq!(cell.get_size_t(), Some(5));
}

#[test]
fn copies_keep_sponge_length_and_phase() {
    let mut ctx = BcShake128::<Sponge>::newctx().unwrap();
    ctx.update(b"abc").unwrap();
    assert!(ctx.set_ctx_param(b"xoflen", &length_cell(b"xoflen", 2)));
    let copy = ctx.dupctx().unwrap();
    assert_eq!(copy.xoflen(), 2);
    assert_eq!(copy.phase(), Phase::Absorbing);
    assert_eq!(copy.sponge(), ctx.sponge());
    let mut target = BcShake128::<Sponge>::newctx().unwrap();
    target.copyctx(&ctx);
    assert_eq!(target.xoflen(), 2);
    assert_eq!(target.sponge(), ctx.sponge());
}

#[test]
fn squeeze_adapter_handles_zero_and_null_requests() {
    let mut ctx = BcShake128::<Sponge>::newctx().unwrap();
    let mut outl = 99usize;
    assert_eq!(DigestAlgorithm::<BcShake128<Sponge>>::squeeze(Some(&mut ctx), None, Some(&mut outl), 0), 1);
    assert_eq!(outl, 0);
    assert_eq!(ctx.phase(), Phase::Absorbing);
    let mut outl = 99usize;
    assert_eq!(DigestAlgorithm::<BcShake128<Sponge>>::squeeze(Some(&mut ctx), None, Some(&mut outl), 4), 0);
    assert_eq!(outl, 99);
    let mut storage = [0u8; 4];
    assert_eq!(DigestAlgorithm::<BcShake128<Sponge>>::squeeze(Some(&mut ctx), Some(&mut storage), None, 4), 1);
    assert_eq!(ctx.phase(), Phase::Squeezing);
    assert_eq!(DigestAlgorithm::<BcShake128<Sponge>>::squeeze(None, None, Some(&mut outl), 0), 0);
}

/// A sponge that produces one byte fewer than it is asked for.
#[derive(Clone, Debug, PartialEq)]
struct ShortSponge;

impl BcXof for ShortSponge {
    fn new_xof() -> Self {
        ShortSponge
    }
    fn absorb(&mut self, _input: &[u8]) -> core::result::Result<(), ()> {
        Ok(())
    }
    fn squeeze_out(&mut self, out: &mut [u8]) -> usize {
        let n = out.len().saturating_sub(1);
        for byte in out.iter_mut().take(n) {
            *byte = 0x5a;
        }
        n
    }
    fn duplicate(&self) -> Self {
        ShortSponge
    }
    fn clone_from_xof(&mut self, _source: &Self) {}
}

#[test]
fn short_squeeze_keeps_its_bytes_uncommitted() {
    let mut ctx = BcShake::<ShortSponge, 168>::newctx().unwrap();
    let mut storage = [0xa5u8; 4];
    {
        let mut out = Output::new(&mut storage);
        assert_eq!(ctx.squeeze(&mut out, 3), Err(Error::InvalidState));
        assert_eq!(out.written(), 0);
        assert_eq!(ctx.phase(), Phase::Squeezing);
    }
    assert_eq!(storage, [0x5a, 0x5a, 0, 0xa5]);
}
