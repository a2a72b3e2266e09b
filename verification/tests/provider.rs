use rustle::bindings::{OSSL_ALGORITHM, OSSL_DISPATCH};
use rustle::digest::{Digest, DigestAlgorithm, Output, Result};
use rustle::params::{OSSL_PARAM, ParamData, ParamMut, ParamTable, Params};
use rustle::provider::{Provider, ProviderDesc};

/// The parameter fixture digest: fixed sizes, two inline strings, and one
/// settable and readable context value.
struct TestDigest(u8);

fn table(names: &[(&[u8], u32)]) -> ParamTable {
    let mut entries: Vec<OSSL_PARAM> = names.iter().map(|(name, kind)| OSSL_PARAM::defn(name, *kind)).collect();
    entries.push(OSSL_PARAM::end());
    ParamTable::new(entries).unwrap()
}

impl Digest for TestDigest {
    const HAS_NEWCTX: bool = true;
    const HAS_INIT: bool = true;
    const HAS_UPDATE: bool = true;
    const HAS_FINALIZE: bool = true;
    const HAS_GETTABLE_PARAMS: bool = true;
    const HAS_GET_PARAM: bool = true;
    const HAS_SETTABLE_CTX_PARAMS: bool = true;
    const HAS_SET_CTX_PARAM: bool = true;
    const HAS_GETTABLE_CTX_PARAMS: bool = true;
    const HAS_GET_CTX_PARAM: bool = true;

    fn newctx() -> Result<Self> {
        Ok(Self(0))
    }
    fn init(&mut self, params: Option<Params<'_>>) -> Result {
        self.0 = 0;
        self.apply_ctx_params(params)
    }
    fn gettable_params() -> ParamTable {
        table(&[
            (b"size", OSSL_PARAM::UNSIGNED_INTEGER),
            (b"blocksize", OSSL_PARAM::UNSIGNED_INTEGER),
            (b"test-text", OSSL_PARAM::UTF8_STRING),
            (b"test-empty", OSSL_PARAM::UTF8_STRING),
        ])
    }
    fn get_param(name: &[u8], param: &mut ParamMut<'_>) -> bool {
        if name == b"size" {
            return param.set_size_t(1);
        }
        if name == b"blocksize" {
            return param.set_size_t(1);
        }
        if name == b"test-text" {
            return param.set_utf8_string("abc");
        }
        if name == b"test-empty" {
            return param.set_utf8_string("");
        }
        false
    }
    fn settable_ctx_params() -> ParamTable {
        table(&[(b"test-value", OSSL_PARAM::INTEGER)])
    }
    fn set_ctx_param(&mut self, name: &[u8], param: &OSSL_PARAM) -> bool {
        if name == b"test-value" {
            return match param.get_int().and_then(|n| u8::try_from(n).ok()) {
                Some(value) => {
                    self.0 = value;
                    true
                }
                None => false,
            };
        }
        false
    }
    fn gettable_ctx_params() -> ParamTable {
        table(&[(b"test-value", OSSL_PARAM::INTEGER)])
    }
    fn get_ctx_param(&self, name: &[u8], param: &mut ParamMut<'_>) -> bool {
        if name == b"test-value" {
            return param.set_int(self.0.into());
        }
        false
    }
    fn update(&mut self, _data: &[u8]) -> Result {
        Ok(())
    }
    fn finalize(&mut self, out: &mut Output<'_>) -> Result {
        out.write(&[self.0])
    }
}

fn fixture() -> Provider {
    Provider::from_desc(ProviderDesc {
        name: b"rustle_params_test".to_vec(),
        version: b"0".to_vec(),
        buildinfo: b"test fixture".to_vec(),
        digests: vec![
            OSSL_ALGORITHM::new(
                b"RUSTLE-PARAMS-TEST",
                b"provider=rustle_params_test",
                DigestAlgorithm::<TestDigest>::functions(),
                b"Parameter test fixture; not a cryptographic digest",
            ),
            OSSL_ALGORITHM::end(),
        ],
    })
}

#[test]
fn fixture_strings_fill_inline_buffers() {
    let mut raw = vec![
        OSSL_PARAM::cell(b"test-text", OSSL_PARAM::UTF8_STRING, ParamData::Bytes(vec![0xff; 4])),
        OSSL_PARAM::cell(b"test-empty", OSSL_PARAM::UTF8_STRING, ParamData::Bytes(vec![0xff; 2])),
        OSSL_PARAM::cell(b"size", OSSL_PARAM::UNSIGNED_INTEGER, ParamData::SizeT(0)),
        OSSL_PARAM::end(),
    ];
    assert_eq!(DigestAlgorithm::<TestDigest>::get_params(Some(&mut raw)), 1);
    assert_eq!(raw[0].get_utf8_string(), Some("abc"));
    assert_eq!(raw[0].return_size(), 3);
    assert_eq!(raw[1].data(), &ParamData::Bytes(vec![0, 0xff]));
    assert_eq!(raw[1].return_size(), 0);
    assert_eq!(raw[2].get_size_t(), Some(1));

    // A buffer too small for the text fails the whole call.
    let mut small = vec![
        OSSL_PARAM::cell(b"test-text", OSSL_PARAM::UTF8_STRING, ParamData::Bytes(vec![0xff; 2])),
        OSSL_PARAM::end(),
    ];
    assert_eq!(DigestAlgorithm::<TestDigest>::get_params(Some(&mut small)), 0);
}

#[test]
fn fixture_context_value_is_set_and_read_back() {
    let mut ctx = DigestAlgorithm::<TestDigest>::newctx().unwrap();
    let set = vec![OSSL_PARAM::cell(b"test-value", OSSL_PARAM::INTEGER, ParamData::Int(9)), OSSL_PARAM::end()];
    assert_eq!(DigestAlgorithm::<TestDigest>::set_ctx_params(Some(&mut ctx), Some(&set)), 1);
    let mut get = vec![OSSL_PARAM::cell(b"test-value", OSSL_PARAM::INTEGER, ParamData::Int(0)), OSSL_PARAM::end()];
    assert_eq!(DigestAlgorithm::<TestDigest>::get_ctx_params(Some(&ctx), Some(&mut get)), 1);
    assert_eq!(get[0].get_int(), Some(9));
    // Out of range for the context's byte: rejected.
    let bad = vec![OSSL_PARAM::cell(b"test-value", OSSL_PARAM::INTEGER, ParamData::Int(300)), OSSL_PARAM::end()];
    assert_eq!(DigestAlgorithm::<TestDigest>::set_ctx_params(Some(&mut ctx), Some(&bad)), 0);
    assert_eq!(DigestAlgorithm::<TestDigest>::init(Some(&mut ctx), Some(&bad)), 0);
    assert_eq!(DigestAlgorithm::<TestDigest>::init(Some(&mut ctx), None), 1);
    let mut get = vec![OSSL_PARAM::cell(b"test-value", OSSL_PARAM::INTEGER, ParamData::Int(5)), OSSL_PARAM::end()];
    assert_eq!(DigestAlgorithm::<TestDigest>::get_ctx_params(Some(&ctx), Some(&mut get)), 1);
    assert_eq!(get[0].get_int(), Some(0));
}

#[test]
fn provider_serves_its_digest_table_only() {
    let provider = fixture();
    let table = provider.query_operation(OSSL_DISPATCH::OSSL_OP_DIGEST).unwrap();
    assert_eq!(table.len(), 2);
    assert!(!table[0].is_end());
    assert!(table[1].is_end());
    assert!(provider.query_operation(2).is_none());
    assert!(provider.query_operation(0).is_none());
}

#[test]
fn provider_answers_identity_parameters() {
    let provider = fixture();
    let mut raw = vec![
        OSSL_PARAM::cell(b"status", OSSL_PARAM::INTEGER, ParamData::Int(0)),
        OSSL_PARAM::cell(b"name", OSSL_PARAM::UTF8_PTR, ParamData::Pointer(None)),
        OSSL_PARAM::cell(b"other", OSSL_PARAM::INTEGER, ParamData::Int(4)),
        OSSL_PARAM::cell(b"buildinfo", OSSL_PARAM::UTF8_PTR, ParamData::Pointer(None)),
        OSSL_PARAM::end(),
    ];
    assert_eq!(provider.get_params(Some(&mut raw)), 1);
    assert_eq!(raw[0].get_int(), Some(1));
    assert_eq!(raw[1].data(), &ParamData::Pointer(Some(b"rustle_params_test".to_vec())));
    assert_eq!(raw[1].return_size(), 18);
    assert_eq!(raw[2].get_int(), Some(4));
    assert_eq!(raw[2].return_size(), 0);
    assert_eq!(raw[3].data(), &ParamData::Pointer(Some(b"test fixture".to_vec())));
    assert_eq!(provider.get_params(None), 1);

    // A version slot of the wrong kind fails the call.
    let mut wrong = vec![
        OSSL_PARAM::cell(b"version", OSSL_PARAM::INTEGER, ParamData::Int(0)),
        OSSL_PARAM::end(),
    ];
    assert_eq!(provider.get_params(Some(&mut wrong)), 0);
    assert_eq!(wrong[0].get_int(), Some(0));

    let described = Provider::gettable_params();
    let keys: Vec<Option<&[u8]>> = described.entries().iter().map(|entry| entry.key()).collect();
    assert_eq!(keys, vec![Some(&b"name"[..]), Some(&b"version"[..]), Some(&b"buildinfo"[..]), Some(&b"status"[..]), None]);
}
