//! OpenSSL provider core types: the opaque core handle, dispatch entries and
//! algorithm entries.
//!
//! A dispatch entry is modelled by its function id; the callback it carries
//! is the adapter that the id names for the table's digest type.

use vstd::prelude::*;

use crate::digest::DigestFunctions;

verus! {

/// Opaque handle to a provider instance, owned by the OpenSSL core.
///
/// Zero-sized and impossible to construct outside this module; the provider
/// only ever holds one behind the core's pointer and hands it back.
pub struct OSSL_CORE_HANDLE {
    _data: [u8; 0],
}

/// A single entry in a provider/core dispatch table.
///
/// The terminator has function id zero. Entries are built only inside this
/// crate, so no table pairs an id with a callback of another operation.
#[derive(Clone, Copy, Debug, PartialEq, Eq, Structural)]
pub struct OSSL_DISPATCH {
    function_id: i32,
}

impl OSSL_DISPATCH {
    /// Free the provider context; called when the provider is unloaded.
    pub const OSSL_FUNC_PROVIDER_TEARDOWN: i32 = 1024;
    /// Return the descriptor list that the provider's `get_params` can fill.
    pub const OSSL_FUNC_PROVIDER_GETTABLE_PARAMS: i32 = 1025;
    /// Populate requested provider parameters.
    pub const OSSL_FUNC_PROVIDER_GET_PARAMS: i32 = 1026;
    /// Return the algorithm array implementing a given operation id.
    pub const OSSL_FUNC_PROVIDER_QUERY_OPERATION: i32 = 1027;
    /// Release whatever `query_operation` returned.
    pub const OSSL_FUNC_PROVIDER_UNQUERY_OPERATION: i32 = 1028;
    /// Return the provider's error reason-string table.
    pub const OSSL_FUNC_PROVIDER_GET_REASON_STRINGS: i32 = 1029;
    /// Enumerate a named capability through a callback.
    pub const OSSL_FUNC_PROVIDER_GET_CAPABILITIES: i32 = 1030;
    /// Run the provider's on-demand self-tests.
    pub const OSSL_FUNC_PROVIDER_SELF_TEST: i32 = 1031;
    /// Supply random bytes to the core.
    pub const OSSL_FUNC_PROVIDER_RANDOM_BYTES: i32 = 1032;
    /// Allocate a new digest context.
    pub const OSSL_FUNC_DIGEST_NEWCTX: i32 = 1;
    /// (Re)initialize a digest context.
    pub const OSSL_FUNC_DIGEST_INIT: i32 = 2;
    /// Feed input bytes into the hash state.
    pub const OSSL_FUNC_DIGEST_UPDATE: i32 = 3;
    /// Finalize and produce the digest value.
    pub const OSSL_FUNC_DIGEST_FINAL: i32 = 4;
    /// Free a digest context.
    pub const OSSL_FUNC_DIGEST_FREECTX: i32 = 6;
    /// Duplicate a digest context (mid-hash state included).
    pub const OSSL_FUNC_DIGEST_DUPCTX: i32 = 7;
    /// Fill digest-wide parameters.
    pub const OSSL_FUNC_DIGEST_GET_PARAMS: i32 = 8;
    /// Apply per-context parameters.
    pub const OSSL_FUNC_DIGEST_SET_CTX_PARAMS: i32 = 9;
    /// Read per-context parameters back out of a live context.
    pub const OSSL_FUNC_DIGEST_GET_CTX_PARAMS: i32 = 10;
    /// Return the descriptor list `get_params` can fill.
    pub const OSSL_FUNC_DIGEST_GETTABLE_PARAMS: i32 = 11;
    /// Return the descriptor list `set_ctx_params` accepts.
    pub const OSSL_FUNC_DIGEST_SETTABLE_CTX_PARAMS: i32 = 12;
    /// Return the descriptor list `get_ctx_params` can fill.
    pub const OSSL_FUNC_DIGEST_GETTABLE_CTX_PARAMS: i32 = 13;
    /// Produce further output of an extendable-output function.
    pub const OSSL_FUNC_DIGEST_SQUEEZE: i32 = 14;
    /// Replace one context's computation with another's.
    pub const OSSL_FUNC_DIGEST_COPYCTX: i32 = 15;
    /// Save an unfinished computation as bytes.
    pub const OSSL_FUNC_DIGEST_SERIALIZE: i32 = 16;
    /// Restore a computation saved by `serialize`.
    pub const OSSL_FUNC_DIGEST_DESERIALIZE: i32 = 17;
    /// Digest operations.
    pub const OSSL_OP_DIGEST: i32 = 1;

    /// The callback id of this entry, zero for the terminator.
    pub closed spec fn id(&self) -> i32 {
        self.function_id
    }

    /// The terminator that marks the end of a dispatch array.
    pub fn end() -> (e: Self)
        ensures
            e.id() == 0,
    {
        OSSL_DISPATCH { function_id: 0 }
    }

    /// The entry for the callback with this id.
    pub(crate) fn entry(function_id: i32) -> (e: Self)
        ensures
            e.id() == function_id,
    {
        OSSL_DISPATCH { function_id }
    }

    /// The callback id of this entry, zero for the terminator.
    pub fn function_id(&self) -> (id: i32)
        ensures
            id == self.id(),
    {
        self.function_id
    }

    /// Returns `true` if this is the end-of-table terminator.
    pub fn is_end(&self) -> (r: bool)
        ensures
            r == (self.id() == 0),
    {
        self.function_id == 0
    }
}

/// A single algorithm entry returned by `query_operation`: colon-separated
/// names, a property set, the dispatch table and a description.
///
/// Entries are built only from [`new`](Self::new) and [`end`](Self::end).
pub struct OSSL_ALGORITHM {
    names: Option<Vec<u8>>,
    properties: Option<Vec<u8>>,
    functions: Option<DigestFunctions>,
    description: Option<Vec<u8>>,
}

impl OSSL_ALGORITHM {
    /// The name list, absent only in the terminator.
    pub closed spec fn spec_names(&self) -> Option<Seq<u8>> {
        match self.names {
            Some(n) => Some(n@),
            None => None,
        }
    }

    /// The property set, absent only in the terminator.
    pub closed spec fn spec_properties(&self) -> Option<Seq<u8>> {
        match self.properties {
            Some(p) => Some(p@),
            None => None,
        }
    }

    /// The description, absent only in the terminator.
    pub closed spec fn spec_description(&self) -> Option<Seq<u8>> {
        match self.description {
            Some(d) => Some(d@),
            None => None,
        }
    }

    /// The callback ids of the dispatch table, absent only in the terminator.
    pub closed spec fn spec_function_ids(&self) -> Option<Seq<i32>> {
        match self.functions {
            Some(f) => Some(f.ids()),
            None => None,
        }
    }

    /// The terminator that marks the end of an algorithm table.
    pub fn end() -> (a: Self)
        ensures
            a.spec_names() is None,
            a.spec_properties() is None,
            a.spec_function_ids() is None,
            a.spec_description() is None,
    {
        OSSL_ALGORITHM { names: None, properties: None, functions: None, description: None }
    }

    /// Builds a digest algorithm entry from its metadata and a complete
    /// dispatch table generated by [`DigestAlgorithm`](crate::digest::DigestAlgorithm).
    pub fn new(names: &[u8], properties: &[u8], functions: DigestFunctions, description: &[u8]) -> (a: Self)
        ensures
            a.spec_names() == Some(names@),
            a.spec_properties() == Some(properties@),
            a.spec_function_ids() == Some(functions.ids()),
            a.spec_description() == Some(description@),
    {
        OSSL_ALGORITHM {
            names: Some(vstd::slice::slice_to_vec(names)),
            properties: Some(vstd::slice::slice_to_vec(properties)),
            functions: Some(functions),
            description: Some(vstd::slice::slice_to_vec(description)),
        }
    }

    /// Returns `true` for the end-of-table terminator.
    pub fn is_end(&self) -> (r: bool)
        ensures
            r == self.spec_names() is None,
    {
        self.names.is_none()
    }
}

/// Walks a dispatch array up to its terminator.
pub trait DispatchExt<'a>: Sized {
    /// The entries of the array.
    spec fn spec_array(self) -> Seq<OSSL_DISPATCH>;

    /// Borrows the array as a cursor over its entries, stopping before the
    /// terminator.
    fn iter(self) -> (cursor: Dispatch<'a>)
        ensures
            cursor.spec_entries() == self.spec_array(),
            cursor.position() == 0,
    ;
}

impl<'a> DispatchExt<'a> for &'a [OSSL_DISPATCH] {
    open spec fn spec_array(self) -> Seq<OSSL_DISPATCH> {
        self@
    }

    fn iter(self) -> Dispatch<'a> {
        Dispatch { next: 0, entries: self }
    }
}

/// Cursor over a dispatch array; see [`DispatchExt::iter`].
pub struct Dispatch<'a> {
    next: usize,
    entries: &'a [OSSL_DISPATCH],
}

impl<'a> Dispatch<'a> {
    /// The array walked.
    pub closed spec fn spec_entries(&self) -> Seq<OSSL_DISPATCH> {
        self.entries@
    }

    /// How many entries were handed out so far.
    pub closed spec fn position(&self) -> nat {
        self.next as nat
    }

    /// The next entry, or `None` at the terminator or the end of the array.
    pub fn next(&mut self) -> (r: Option<&'a OSSL_DISPATCH>)
        ensures
            final(self).spec_entries() == old(self).spec_entries(),
            old(self).position() < old(self).spec_entries().len()
                && old(self).spec_entries()[old(self).position() as int].id() != 0 ==> {
                &&& r == Some(&old(self).spec_entries()[old(self).position() as int])
                &&& final(self).position() == old(self).position() + 1
            },
            !(old(self).position() < old(self).spec_entries().len()
                && old(self).spec_entries()[old(self).position() as int].id() != 0) ==> {
                &&& r is None
                &&& final(self).position() == old(self).position()
            },
    {
        if self.next < self.entries.len() && !self.entries[self.next].is_end() {
            let cur = &self.entries[self.next];
            self.next = self.next + 1;
            Some(cur)
        } else {
            None
        }
    }
}

} // verus!
