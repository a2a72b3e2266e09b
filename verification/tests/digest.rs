use rustle::bindings::OSSL_DISPATCH;
use rustle::digest::{
    c_status, report_size, report_squeezed, report_written, CopyOperands, Digest, DigestAlgorithm, Error, Output,
    Result,
};
use rustle::params::{OSSL_PARAM, ParamData, ParamMut, ParamTable, Params};

/// The table holding the named descriptors and the terminator.
fn table(names: &[(&[u8], u32)]) -> ParamTable {
    let mut entries: Vec<OSSL_PARAM> = names.iter().map(|(name, kind)| OSSL_PARAM::defn(name, *kind)).collect();
    entries.push(OSSL_PARAM::end());
    ParamTable::new(entries).unwrap()
}


/// Callbacks before the terminator.
fn advertised<D: Digest>() -> usize {
    let functions = DigestAlgorithm::<D>::functions();
    let entries = functions.entries();
    assert!(entries.last().is_some_and(OSSL_DISPATCH::is_end));
    entries.iter().take_while(|entry| !entry.is_end()).count()
}

#[derive(Clone)]
struct Copyable {
    state: u8,
    copies: usize,
}

impl Digest for Copyable {
    const HAS_NEWCTX: bool = true;
    const HAS_INIT: bool = true;
    const HAS_UPDATE: bool = true;
    const HAS_FINALIZE: bool = true;
    const HAS_GETTABLE_PARAMS: bool = true;
    const HAS_GET_PARAM: bool = true;
    const HAS_DUPCTX: bool = true;
    const HAS_COPYCTX: bool = true;

    fn newctx() -> Result<Self> {
        Ok(Self { state: 0, copies: 0 })
    }
    fn init(&mut self, _params: Option<Params<'_>>) -> Result {
        self.state = 0;
        Ok(())
    }
    fn update(&mut self, input: &[u8]) -> Result {
        for byte in input {
            self.state = self.state.wrapping_add(*byte);
        }
        Ok(())
    }
    fn finalize(&mut self, out: &mut Output<'_>) -> Result {
        out.write(&[self.state])
    }
    fn gettable_params() -> ParamTable {
        table(&[(b"size", OSSL_PARAM::UNSIGNED_INTEGER)])
    }
    fn get_param(name: &[u8], param: &mut ParamMut<'_>) -> bool {
        if name == b"size" {
            return param.set_size_t(1);
        }
        false
    }
    fn dupctx(&self) -> Result<Self> {
        Ok(self.clone())
    }
    fn copyctx(&mut self, source: &Self) {
        self.state = source.state;
        self.copies = self.copies.wrapping_add(1);
    }
}

#[test]
fn copyctx_replaces_state_without_changing_source() {
    assert!(Copyable::HAS_COPYCTX);
    assert!(Copyable::HAS_DUPCTX);
    assert!(!Configurable::HAS_COPYCTX);
    assert_eq!(advertised::<Copyable>(), 9);
    let mut source = Copyable { state: 42, copies: 0 };
    let mut destination = Copyable { state: 99, copies: 0 };
    DigestAlgorithm::<Copyable>::copyctx(CopyOperands::Distinct(&mut destination, &source));
    assert_eq!((destination.state, destination.copies), (42, 1));
    assert_eq!((source.state, source.copies), (42, 0));
    assert_eq!(source.update(&[1]), Ok(()));
    assert_eq!(destination.update(&[2]), Ok(()));
    assert_eq!((source.state, destination.state), (43, 44));
}

#[test]
fn copyctx_self_copy_and_null_arguments_do_not_call_implementation() {
    let ctx = Copyable { state: 42, copies: 0 };
    // The same context twice, then a null source, a null destination, and both null.
    for operands in [CopyOperands::Same, CopyOperands::Missing, CopyOperands::Missing, CopyOperands::Missing] {
        DigestAlgorithm::<Copyable>::copyctx(operands);
    }
    assert_eq!((ctx.state, ctx.copies), (42, 0));
}

struct Configurable(u8);

impl Digest for Configurable {
    const HAS_NEWCTX: bool = true;
    const HAS_INIT: bool = true;
    const HAS_UPDATE: bool = true;
    const HAS_FINALIZE: bool = true;
    const HAS_GETTABLE_PARAMS: bool = true;
    const HAS_GET_PARAM: bool = true;
    const HAS_SETTABLE_CTX_PARAMS: bool = true;
    const HAS_SET_CTX_PARAM: bool = true;

    fn newctx() -> Result<Self> {
        Ok(Self(0))
    }
    fn init(&mut self, params: Option<Params<'_>>) -> Result {
        self.apply_ctx_params(params)
    }
    fn update(&mut self, _input: &[u8]) -> Result {
        Ok(())
    }
    fn finalize(&mut self, out: &mut Output<'_>) -> Result {
        out.write(&[self.0])
    }
    fn gettable_params() -> ParamTable {
        table(&[(b"size", OSSL_PARAM::UNSIGNED_INTEGER)])
    }
    fn get_param(name: &[u8], param: &mut ParamMut<'_>) -> bool {
        if name == b"size" {
            return param.set_size_t(1);
        }
        false
    }
    fn settable_ctx_params() -> ParamTable {
        table(&[(b"value", OSSL_PARAM::INTEGER)])
    }
    fn set_ctx_param(&mut self, name: &[u8], param: &OSSL_PARAM) -> bool {
        if name == b"value" {
            return match param.get_int().and_then(|n| u8::try_from(n).ok()) {
                Some(value) => {
                    self.0 = value;
                    true
                }
                None => false,
            };
        }
        false
    }
}

/// The same state, additionally readable back through a context getter.
struct Readable(u8);

impl Digest for Readable {
    const HAS_NEWCTX: bool = true;
    const HAS_INIT: bool = true;
    const HAS_UPDATE: bool = true;
    const HAS_FINALIZE: bool = true;
    const HAS_GETTABLE_PARAMS: bool = true;
    const HAS_GET_PARAM: bool = true;
    const HAS_SETTABLE_CTX_PARAMS: bool = true;
    const HAS_SET_CTX_PARAM: bool = true;
    const HAS_GETTABLE_CTX_PARAMS: bool = true;
    const HAS_GET_CTX_PARAM: bool = true;

    fn newctx() -> Result<Self> {
        Ok(Self(0))
    }
    fn init(&mut self, params: Option<Params<'_>>) -> Result {
        self.apply_ctx_params(params)
    }
    fn update(&mut self, _input: &[u8]) -> Result {
        Ok(())
    }
    fn finalize(&mut self, out: &mut Output<'_>) -> Result {
        out.write(&[self.0])
    }
    fn gettable_params() -> ParamTable {
        table(&[(b"size", OSSL_PARAM::UNSIGNED_INTEGER)])
    }
    fn get_param(name: &[u8], param: &mut ParamMut<'_>) -> bool {
        if name == b"size" {
            return param.set_size_t(1);
        }
        false
    }
    fn settable_ctx_params() -> ParamTable {
        table(&[(b"value", OSSL_PARAM::INTEGER)])
    }
    fn set_ctx_param(&mut self, name: &[u8], param: &OSSL_PARAM) -> bool {
        if name == b"value" {
            return match param.get_int().and_then(|n| u8::try_from(n).ok()) {
                Some(value) => {
                    self.0 = value;
                    true
                }
                None => false,
            };
        }
        false
    }
    fn gettable_ctx_params() -> ParamTable {
        table(&[(b"value", OSSL_PARAM::INTEGER)])
    }
    fn get_ctx_param(&self, name: &[u8], param: &mut ParamMut<'_>) -> bool {
        if name == b"value" {
            return param.set_int(self.0.into());
        }
        false
    }
}

#[test]
fn cooperating_macros_register_setters_after_an_absent_dupctx() {
    assert!(Configurable::HAS_GET_PARAM);
    assert!(Configurable::HAS_GETTABLE_PARAMS);
    assert!(Configurable::HAS_SET_CTX_PARAM);
    assert!(Configurable::HAS_SETTABLE_CTX_PARAMS);
    assert!(!Configurable::HAS_GET_CTX_PARAM);
    assert!(!Configurable::HAS_GETTABLE_CTX_PARAMS);
    assert!(!Configurable::HAS_DUPCTX);
    // There must be no terminator in the hole left by the absent DUPCTX.
    assert_eq!(advertised::<Configurable>(), 9);
    assert_eq!(Configurable(0).dupctx().err(), Some(Error::Unsupported));
}

#[test]
fn a_context_getter_adds_both_of_its_callbacks() {
    assert!(Readable::HAS_GET_CTX_PARAM);
    assert!(Readable::HAS_GETTABLE_CTX_PARAMS);
    assert_eq!(advertised::<Readable>(), 11);
}

#[test]
fn get_ctx_params_fills_described_names_and_ignores_the_rest() {
    let ctx = Readable(42);
    let mut raw = vec![
        OSSL_PARAM::cell(b"value", OSSL_PARAM::INTEGER, ParamData::Int(0)),
        OSSL_PARAM::cell(b"undescribed", OSSL_PARAM::INTEGER, ParamData::Int(7)),
        OSSL_PARAM::end(),
    ];
    let result = DigestAlgorithm::<Readable>::get_ctx_params(Some(&ctx), Some(&mut raw));
    assert_eq!(result, 1);
    assert_eq!(raw[0].get_int(), Some(42));
    // A name the descriptor table does not list is left untouched.
    assert_eq!(raw[1].get_int(), Some(7));

    // A null array is a no-op success; a null context is a failure.
    assert_eq!(DigestAlgorithm::<Readable>::get_ctx_params(Some(&ctx), None), 1);
    assert_eq!(DigestAlgorithm::<Readable>::get_ctx_params(None, Some(&mut raw)), 0);
}

#[test]
fn get_ctx_params_fails_when_a_described_name_is_rejected() {
    let ctx = Readable(42);
    let mut raw = vec![
        OSSL_PARAM::cell(b"value", OSSL_PARAM::UNSIGNED_INTEGER, ParamData::SizeT(0)),
        OSSL_PARAM::end(),
    ];
    let result = DigestAlgorithm::<Readable>::get_ctx_params(Some(&ctx), Some(&mut raw));
    assert_eq!(result, 0);
    assert_eq!(raw[0].get_size_t(), Some(0));
}

#[test]
fn output_tracks_only_successful_bounded_writes() {
    let mut storage = [0xa5u8; 6];
    {
        let mut out = Output::new(&mut storage[1..5]);
        let mut called = false;
        assert_eq!(
            out.write_with(5, |_| {
                called = true;
                Ok(())
            }),
            Err(Error::BufferTooSmall)
        );
        assert!(!called);
        assert_eq!(out.written(), 0);
        assert_eq!(out.write(b"ab"), Ok(()));
        assert_eq!(
            out.write_with(1, |bytes| {
                assert_eq!(bytes, &[0]);
                if let Some(byte) = bytes.first_mut() {
                    *byte = b'x';
                }
                Err(Error::Unsupported)
            }),
            Err(Error::Unsupported)
        );
        assert_eq!(out.written(), 2);
        assert_eq!(
            out.write_with(1, |bytes| {
                assert_eq!(bytes, &[0]);
                if let Some(byte) = bytes.first_mut() {
                    *byte = b'c';
                }
                Ok(())
            }),
            Ok(())
        );
        assert_eq!(out.written(), 3);
        assert_eq!(out.write(b"de"), Err(Error::BufferTooSmall));
    }
    assert_eq!(storage.to_vec(), vec![0xa5, b'a', b'b', b'c', 0xa5, 0xa5]);
}

#[test]
fn finalize_reports_length_and_preserves_guards() {
    let mut ctx = Configurable(42);
    let mut bytes = [0xa5u8; 3];
    let mut written = usize::MAX;
    let result = DigestAlgorithm::<Configurable>::finalize(
        Some(&mut ctx),
        Some(&mut bytes[1..2]),
        Some(&mut written),
        1,
    );
    assert_eq!(result, 1);
    assert_eq!(written, 1);
    assert_eq!(bytes.to_vec(), vec![0xa5, 42, 0xa5]);
    let result = DigestAlgorithm::<Configurable>::update(Some(&mut ctx), None, 0);
    assert_eq!(result, 1);
}

/// One byte of state that exports and restores a one-byte blob.
struct Serializable(u8);

impl Digest for Serializable {
    const HAS_NEWCTX: bool = true;
    const HAS_INIT: bool = true;
    const HAS_UPDATE: bool = true;
    const HAS_FINALIZE: bool = true;
    const HAS_GETTABLE_PARAMS: bool = true;
    const HAS_GET_PARAM: bool = true;
    const HAS_SERIALIZE: bool = true;
    const HAS_DESERIALIZE: bool = true;

    fn newctx() -> Result<Self> {
        Ok(Self(0))
    }
    fn init(&mut self, _params: Option<Params<'_>>) -> Result {
        Ok(())
    }
    fn update(&mut self, _input: &[u8]) -> Result {
        Ok(())
    }
    fn finalize(&mut self, out: &mut Output<'_>) -> Result {
        out.write(&[self.0])
    }
    fn gettable_params() -> ParamTable {
        table(&[(b"size", OSSL_PARAM::UNSIGNED_INTEGER)])
    }
    fn get_param(name: &[u8], param: &mut ParamMut<'_>) -> bool {
        if name == b"size" {
            return param.set_size_t(1);
        }
        false
    }
    fn serialize(&self, out: Option<&mut Output<'_>>) -> Result<usize> {
        match out {
            None => Ok(1),
            Some(out) => {
                out.write(&[self.0])?;
                Ok(1)
            }
        }
    }
    fn deserialize(&mut self, input: &[u8]) -> Result {
        match input {
            &[value] => {
                self.0 = value;
                Ok(())
            }
            _ => Err(Error::InvalidParameter),
        }
    }
}

#[test]
fn serialization_methods_register_independently() {
    assert!(Serializable::HAS_SERIALIZE);
    assert!(Serializable::HAS_DESERIALIZE);
    assert!(!Configurable::HAS_SERIALIZE);
    assert!(!Configurable::HAS_DESERIALIZE);
    assert_eq!(advertised::<Serializable>(), 9);

    let mut ctx = Configurable(0);
    assert_eq!(ctx.serialize(None), Err(Error::Unsupported));
    assert_eq!(ctx.serialize(Some(&mut Output::new(&mut []))), Err(Error::Unsupported));
    assert_eq!(ctx.deserialize(&[]), Err(Error::Unsupported));
}

#[test]
fn serialize_queries_size_then_writes_through_output() {
    let mut ctx = Serializable(42);

    // A null output queries the size without reading the length slot.
    let mut size = 0usize;
    let result = DigestAlgorithm::<Serializable>::serialize(Some(&ctx), None, Some(&mut size));
    assert_eq!(result, 1);
    assert_eq!(size, 1);

    // A non-null output reads the slot as capacity and reports written bytes.
    let mut bytes = [0xa5u8; 3];
    let mut len = 1;
    let result = DigestAlgorithm::<Serializable>::serialize(Some(&ctx), Some(&mut bytes[1..2]), Some(&mut len));
    assert_eq!(result, 1);
    assert_eq!(len, 1);
    assert_eq!(bytes.to_vec(), vec![0xa5, 42, 0xa5]);
    // Serialization borrows the context; the computation survives.
    assert_eq!(ctx.0, 42);

    // A capacity larger than the blob succeeds and reports only written bytes.
    let mut bytes = [0xa5u8; 3];
    let mut len = 3;
    let result = DigestAlgorithm::<Serializable>::serialize(Some(&ctx), Some(&mut bytes[..]), Some(&mut len));
    assert_eq!(result, 1);
    assert_eq!(len, 1);
    assert_eq!(bytes.to_vec(), vec![42, 0xa5, 0xa5]);

    // Zero capacity cannot hold the blob; an oversized capacity is rejected
    // before a slice is ever formed. Both leave slot and buffer untouched.
    for capacity in [0, usize::MAX] {
        let mut len = capacity;
        let mut bytes = [0xa5u8; 3];
        let storage: &mut [u8] = if capacity == 0 { &mut bytes[..0] } else { &mut bytes[..] };
        let result = DigestAlgorithm::<Serializable>::serialize(Some(&ctx), Some(storage), Some(&mut len));
        assert_eq!(result, 0);
        assert_eq!(len, capacity);
        assert_eq!(bytes.to_vec(), vec![0xa5, 0xa5, 0xa5]);
    }

    // Null context and null length slot fail before anything is read.
    let mut len = 1;
    let result = DigestAlgorithm::<Serializable>::serialize(None, None, Some(&mut len));
    assert_eq!(result, 0);
    let result = DigestAlgorithm::<Serializable>::serialize(Some(&ctx), None, None);
    assert_eq!(result, 0);
    ctx.0 = 43;
    assert_eq!(ctx.serialize(None), Ok(1));
}

#[test]
fn deserialize_validates_input_before_restoring() {
    let mut ctx = Serializable(42);
    let input = [7u8];

    // Null input, zero length, and oversized length are all rejected at the
    // adapter before the implementation ever sees them. No rejected
    // restoration may touch the live state.
    for (data, len) in [(None, 1usize), (None, 0), (Some(&input[..]), 0), (Some(&input[..]), usize::MAX)] {
        let result = DigestAlgorithm::<Serializable>::deserialize(Some(&mut ctx), data, len);
        assert_eq!(result, 0);
        assert_eq!(ctx.0, 42);
    }

    // A null context is rejected before reading the input.
    let result = DigestAlgorithm::<Serializable>::deserialize(None, Some(&input[..]), 1);
    assert_eq!(result, 0);

    let result = DigestAlgorithm::<Serializable>::deserialize(Some(&mut ctx), Some(&input[..]), 1);
    assert_eq!(result, 1);
    assert_eq!(ctx.0, 7);
}

#[test]
fn outcomes_become_c_answers() {
    assert_eq!(c_status(&Ok::<u8, Error>(3)), 1);
    assert_eq!(c_status(&Err::<u8, Error>(Error::InvalidState)), 0);

    let mut slot = 9usize;
    assert_eq!(report_written(&Ok::<(), Error>(()), 4, &mut slot), 1);
    assert_eq!(slot, 4);
    assert_eq!(report_written(&Err::<(), Error>(Error::BufferTooSmall), 2, &mut slot), 0);
    assert_eq!(slot, 4);

    let mut slot = 9usize;
    assert_eq!(report_size(&Ok(32), &mut slot), 1);
    assert_eq!(slot, 32);
    assert_eq!(report_size(&Err(Error::Unsupported), &mut slot), 0);
    assert_eq!(slot, 32);

    let mut slot = 9usize;
    assert_eq!(report_squeezed(&Ok(()), 5, 5, Some(&mut slot)), 1);
    assert_eq!(slot, 5);
    let mut slot = 9usize;
    assert_eq!(report_squeezed(&Ok(()), 4, 5, Some(&mut slot)), 0);
    assert_eq!(report_squeezed(&Err(Error::InvalidState), 5, 5, Some(&mut slot)), 0);
    assert_eq!(slot, 9);
    assert_eq!(report_squeezed(&Ok(()), 5, 5, None), 1);
}

#[test]
fn committed_count_is_the_sum_of_successful_writes() {
    let mut storage = [0u8; 5];
    {
        let mut out = Output::new(&mut storage);
        assert_eq!(out.write(b"ab"), Ok(()));
        assert_eq!(out.write(b"cdef"), Err(Error::BufferTooSmall));
        assert_eq!(out.write_with(2, |_| Err(Error::Unsupported)), Err(Error::Unsupported));
        assert_eq!(out.write_with(2, |b| {
            b.copy_from_slice(b"xy");
            Ok(())
        }), Ok(()));
        assert_eq!(out.written(), 4);
        out.release();
    }
    assert_eq!(&storage[..4], b"abxy");
}
