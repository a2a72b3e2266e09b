use rustle::bindings::{DispatchExt, OSSL_DISPATCH};
use rustle::digest::{Digest, DigestAlgorithm, Error, Output};
use rustle::digests::{BcDigest, BcHash};
use rustle::params::{OSSL_PARAM, ParamData};

/// A stand-in streaming hash: a running sum and a count, saved as two bytes.
#[derive(Clone, Debug, PartialEq)]
struct SumHash {
    sum: u8,
    count: u8,
}

impl BcHash<2> for SumHash {
    const BLOCK_LEN: usize = 64;
    const OUTPUT_LEN: usize = 3;

    fn new_hash() -> Self {
        SumHash { sum: 0, count: 0 }
    }
    fn do_update(&mut self, data: &[u8]) {
        for byte in data {
            self.sum = self.sum.wrapping_add(*byte);
            self.count = self.count.wrapping_add(1);
        }
    }
    fn do_final_out(self, out: &mut [u8]) {
        let digest = [self.sum, self.count, 0xd1];
        for (slot, byte) in out.iter_mut().zip(digest) {
            *slot = byte;
        }
    }
    fn duplicate(&self) -> Self {
        self.clone()
    }
    fn clone_from_hash(&mut self, source: &Self) {
        *self = source.clone();
    }
    fn suspend(self) -> [u8; 2] {
        [self.sum, self.count]
    }
    fn from_suspended(state: &[u8]) -> Option<Self> {
        match state {
            &[sum, count] if count != 0xff => Some(SumHash { sum, count }),
            _ => None,
        }
    }
}

type SumDigest = BcDigest<SumHash, 2>;


#[test]
fn fixed_digest_finalizes_only_with_room() {
    let mut ctx = SumDigest::newctx().unwrap();
    ctx.update(&[1, 2, 3]).unwrap();
    let mut small = [0u8; 2];
    assert_eq!(ctx.finalize(&mut Output::new(&mut small)), Err(Error::BufferTooSmall));
    let mut storage = [0u8; 4];
    let mut out = Output::new(&mut storage);
    assert_eq!(ctx.finalize(&mut out), Ok(()));
    assert_eq!(out.written(), 3);
    assert_eq!(storage.to_vec(), vec![6, 3, 0xd1, 0]);
    // Finalizing leaves a fresh computation behind.
    let mut again = [0u8; 3];
    assert_eq!(ctx.finalize(&mut Output::new(&mut again)), Ok(()));
    assert_eq!(again.to_vec(), vec![0, 0, 0xd1]);
}

#[test]
fn fixed_digest_serializes_and_restores() {
    let mut ctx = SumDigest::newctx().unwrap();
    ctx.update(&[5, 6]).unwrap();
    assert_eq!(ctx.serialize(None), Ok(2));
    let mut saved = [0u8; 2];
    let mut out = Output::new(&mut saved);
    assert_eq!(ctx.serialize(Some(&mut out)), Ok(2));
    let mut tiny = [0u8; 1];
    assert_eq!(ctx.serialize(Some(&mut Output::new(&mut tiny))), Err(Error::BufferTooSmall));
    let blob = saved.to_vec();
    assert_eq!(blob, vec![11, 2]);

    let mut restored = SumDigest::newctx().unwrap();
    assert_eq!(restored.deserialize(&blob), Ok(()));
    let mut a = [0u8; 3];
    let mut b = [0u8; 3];
    restored.finalize(&mut Output::new(&mut a)).unwrap();
    ctx.finalize(&mut Output::new(&mut b)).unwrap();
    assert_eq!(a.to_vec(), b.to_vec());

    // Wrong lengths and invalid state are rejected without touching the computation.
    let mut kept = SumDigest::newctx().unwrap();
    kept.update(&[9]).unwrap();
    assert_eq!(kept.deserialize(&[1]), Err(Error::InvalidParameter));
    assert_eq!(kept.deserialize(&[1, 0xff]), Err(Error::InvalidParameter));
    assert_eq!(kept.serialize(None), Ok(2));
    let mut check = [0u8; 2];
    kept.serialize(Some(&mut Output::new(&mut check))).unwrap();
    assert_eq!(check.to_vec(), vec![9, 1]);
}

#[test]
fn fixed_digest_parameters_and_table() {
    let mut raw = vec![
        OSSL_PARAM::cell(b"size", OSSL_PARAM::UNSIGNED_INTEGER, ParamData::SizeT(0)),
        OSSL_PARAM::cell(b"blocksize", OSSL_PARAM::UNSIGNED_INTEGER, ParamData::SizeT(0)),
        OSSL_PARAM::cell(b"xof", OSSL_PARAM::INTEGER, ParamData::Int(5)),
        OSSL_PARAM::end(),
    ];
    assert_eq!(DigestAlgorithm::<SumDigest>::get_params(Some(&mut raw)), 1);
    assert_eq!(raw[0].get_size_t(), Some(3));
    assert_eq!(raw[1].get_size_t(), Some(64));
    assert_eq!(raw[2].get_int(), Some(5));
    assert_eq!(DigestAlgorithm::<SumDigest>::get_params(None), 1);

    let functions = DigestAlgorithm::<SumDigest>::functions();
    let ids: Vec<i32> = functions.entries().iter().map(|entry| entry.function_id()).collect();
    assert_eq!(ids, vec![1, 6, 2, 3, 4, 8, 11, 7, 15, 16, 17, 0]);
}

#[test]
fn fixed_digest_adapters_round_trip_through_c_shapes() {
    let mut ctx = DigestAlgorithm::<SumDigest>::newctx().unwrap();
    assert_eq!(DigestAlgorithm::<SumDigest>::init(Some(&mut ctx), None), 1);
    assert_eq!(DigestAlgorithm::<SumDigest>::update(Some(&mut ctx), Some(&[4, 4][..]), 2), 1);
    assert_eq!(DigestAlgorithm::<SumDigest>::update(Some(&mut ctx), None, 1), 0);
    assert_eq!(DigestAlgorithm::<SumDigest>::update(None, Some(&[1][..]), 1), 0);
    let copy = DigestAlgorithm::<SumDigest>::dupctx(Some(&ctx)).unwrap();
    assert!(DigestAlgorithm::<SumDigest>::dupctx(None).is_none());
    let mut outl = 0usize;
    let mut storage = [0u8; 3];
    assert_eq!(DigestAlgorithm::<SumDigest>::finalize(Some(&mut ctx), Some(&mut storage), Some(&mut outl), 3), 1);
    assert_eq!(outl, 3);
    assert_eq!(storage.to_vec(), vec![8, 2, 0xd1]);
    let mut copy = copy;
    let mut outl = 7usize;
    let mut short = [0u8; 2];
    assert_eq!(DigestAlgorithm::<SumDigest>::finalize(Some(&mut copy), Some(&mut short), Some(&mut outl), 2), 0);
    assert_eq!(outl, 7);
    assert_eq!(DigestAlgorithm::<SumDigest>::finalize(Some(&mut copy), None, None, 0), 0);
    // A digest without a squeeze method refuses squeezing, even of nothing.
    assert_eq!(DigestAlgorithm::<SumDigest>::squeeze(Some(&mut copy), None, None, 0), 0);
    assert_eq!(DigestAlgorithm::<SumDigest>::set_ctx_params(Some(&mut copy), None), 0);
    assert_eq!(DigestAlgorithm::<SumDigest>::get_ctx_params(Some(&copy), None), 0);
}

#[test]
fn dispatch_walk_stops_at_the_terminator() {
    let functions = DigestAlgorithm::<SumDigest>::functions();
    let mut walk = DispatchExt::iter(functions.entries());
    let mut ids = Vec::new();
    while let Some(entry) = walk.next() {
        ids.push(entry.function_id());
    }
    assert_eq!(ids.len(), 11);
    assert!(!ids.contains(&0));
    let entries = [
        OSSL_DISPATCH::end(),
        functions.entries()[0],
    ];
    assert!(DispatchExt::iter(&entries[..]).next().is_none());
}
