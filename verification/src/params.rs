//! OpenSSL parameter cells, borrowed views over parameter arrays, and
//! validated descriptor tables.
//!
//! A cell is modelled by plain values: its key (absent in the terminator),
//! its declared kind, its storage and the size it reports back. Arrays are
//! slices whose entries after the first terminator are never consulted.

use vstd::prelude::*;
use vstd::utf8::valid_utf8;
use vstd::string::StringSliceAdditionalSpecFns;

verus! {

/// Width of a C `int`, the storage an `INTEGER` cell reads and writes.
pub const INT_WIDTH: usize = 4;

/// Width of a `size_t` on this machine.
pub open spec fn spec_size_t_width() -> usize {
    (usize::BITS / 8) as usize
}

/// Width of a `size_t` on this machine, the storage of an `UNSIGNED_INTEGER` cell.
#[verifier::when_used_as_spec(spec_size_t_width)]
pub fn size_t_width() -> (w: usize)
    ensures
        w == spec_size_t_width(),
{
    (usize::BITS / 8) as usize
}

/// The storage a parameter cell points at.
///
/// Storage is classified by the cell's kind and size: storage of exactly one
/// C `int` in an `INTEGER` cell is `Int`, storage of exactly one `size_t` in an
/// `UNSIGNED_INTEGER` cell is `SizeT`, the pointer slot of a pointer kind is
/// `Pointer`, and every other buffer is `Bytes` of its full size.
#[derive(Debug, PartialEq, Eq)]
pub enum ParamData {
    /// A null data pointer (descriptors and size queries).
    Null,
    /// One C `int`.
    Int(i32),
    /// One `size_t`.
    SizeT(usize),
    /// A pointer slot, holding the string it points at, or `None` while null.
    Pointer(Option<Vec<u8>>),
    /// A buffer of `data_size` bytes.
    Bytes(Vec<u8>),
}

/// Whether `data` is the classified storage of a cell of kind `data_type`.
pub open spec fn canonical(data_type: u32, data: ParamData) -> bool {
    match data {
        ParamData::Null => true,
        ParamData::Int(_) => data_type == OSSL_PARAM::INTEGER,
        ParamData::SizeT(_) => data_type == OSSL_PARAM::UNSIGNED_INTEGER,
        ParamData::Pointer(_) => data_type == OSSL_PARAM::UTF8_PTR || data_type
            == OSSL_PARAM::OCTET_PTR,
        ParamData::Bytes(b) => {
            &&& !(data_type == OSSL_PARAM::INTEGER && b@.len() == INT_WIDTH)
            &&& !(data_type == OSSL_PARAM::UNSIGNED_INTEGER && b@.len() == spec_size_t_width())
            &&& data_type != OSSL_PARAM::UTF8_PTR
            &&& data_type != OSSL_PARAM::OCTET_PTR
        },
    }
}

/// Byte-wise equality of two names.
pub fn name_eq(a: &[u8], b: &[u8]) -> (r: bool)
    ensures
        r == (a@ == b@),
{
    if a.len() != b.len() {
        return false;
    }
    let mut i: usize = 0;
    while i < a.len()
        invariant
            a@.len() == b@.len(),
            0 <= i <= a@.len(),
            forall|k: int| 0 <= k < i ==> a@[k] == b@[k],
        decreases a.len() - i,
    {
        if a[i] != b[i] {
            return false;
        }
        i += 1;
    }
    assert(a@ =~= b@);
    true
}

/// Decodes UTF-8 text in place.
///
/// Calls `core::str::from_utf8`, whose documentation promises success exactly
/// for valid UTF-8 and a string over the same bytes; stated here with vstd's
/// `valid_utf8` and `spec_bytes`.
#[verifier::external_body]
fn decode_utf8(bytes: &[u8]) -> (r: Option<&str>)
    ensures
        r is Some <==> valid_utf8(bytes@),
        r matches Some(s) ==> s.spec_bytes() == bytes@,
{
    core::str::from_utf8(bytes).ok()
}

/// One parameter cell: a descriptor, a transfer cell, or the terminator.
pub struct OSSL_PARAM {
    key: Option<Vec<u8>>,
    data_type: u32,
    data: ParamData,
    return_size: usize,
}

impl OSSL_PARAM {
    /// Signed integer (`OSSL_PARAM_INTEGER`).
    pub const INTEGER: u32 = 1;
    /// Unsigned integer (`OSSL_PARAM_UNSIGNED_INTEGER`).
    pub const UNSIGNED_INTEGER: u32 = 2;
    /// IEEE floating point (`OSSL_PARAM_REAL`).
    pub const REAL: u32 = 3;
    /// Inline UTF-8 string (`OSSL_PARAM_UTF8_STRING`).
    pub const UTF8_STRING: u32 = 4;
    /// Inline byte string (`OSSL_PARAM_OCTET_STRING`).
    pub const OCTET_STRING: u32 = 5;
    /// Pointer to a UTF-8 string (`OSSL_PARAM_UTF8_PTR`).
    pub const UTF8_PTR: u32 = 6;
    /// Pointer to a byte string (`OSSL_PARAM_OCTET_PTR`).
    pub const OCTET_PTR: u32 = 7;

    #[verifier::type_invariant]
    spec fn inv(&self) -> bool {
        canonical(self.data_type, self.data)
    }

    /// The name, absent only in the terminator.
    pub closed spec fn spec_key(&self) -> Option<Seq<u8>> {
        match self.key {
            Some(k) => Some(k@),
            None => None,
        }
    }

    /// The declared kind of the cell's storage.
    pub closed spec fn spec_data_type(&self) -> u32 {
        self.data_type
    }

    /// The cell's storage.
    pub closed spec fn spec_data(&self) -> ParamData {
        self.data
    }

    /// The size the callee reported for the cell.
    pub closed spec fn spec_return_size(&self) -> usize {
        self.return_size
    }

    /// Whether this is the terminator.
    pub open spec fn spec_is_end(&self) -> bool {
        self.spec_key() is None
    }

    /// The all-zero terminator ending a parameter array (`OSSL_PARAM_END`).
    pub fn end() -> (p: Self)
        ensures
            p.spec_key() is None,
            p.spec_data_type() == 0,
            p.spec_data() == ParamData::Null,
            p.spec_return_size() == 0,
    {
        OSSL_PARAM { key: None, data_type: 0, data: ParamData::Null, return_size: 0 }
    }

    /// Creates a descriptor: a name and a kind, with no storage.
    pub fn defn(key: &[u8], data_type: u32) -> (p: Self)
        ensures
            p.spec_key() == Some(key@),
            p.spec_data_type() == data_type,
            p.spec_data() == ParamData::Null,
            p.spec_return_size() == 0,
    {
        OSSL_PARAM { key: Some(vstd::slice::slice_to_vec(key)), data_type, data: ParamData::Null, return_size: 0 }
    }

    /// Builds a live cell over the given storage, as the core hands them out.
    pub fn cell(key: &[u8], data_type: u32, data: ParamData) -> (p: Self)
        requires
            canonical(data_type, data),
        ensures
            p.spec_key() == Some(key@),
            p.spec_data_type() == data_type,
            p.spec_data() == data,
            p.spec_return_size() == 0,
    {
        OSSL_PARAM { key: Some(vstd::slice::slice_to_vec(key)), data_type, data, return_size: 0 }
    }

    /// Takes over a cell as the core hands it out: its name, kind, storage
    /// and the size it reports so far. Storage not classified for the kind
    /// (see [`ParamData`]) is refused.
    pub fn from_core(key: &[u8], data_type: u32, data: ParamData, return_size: usize) -> (r: Option<Self>)
        ensures
            r is Some <==> canonical(data_type, data),
            r matches Some(p) ==> p.spec_key() == Some(key@) && p.spec_data_type() == data_type
                && p.spec_data() == data && p.spec_return_size() == return_size,
    {
        let fits = match &data {
            ParamData::Null => true,
            ParamData::Int(_) => data_type == Self::INTEGER,
            ParamData::SizeT(_) => data_type == Self::UNSIGNED_INTEGER,
            ParamData::Pointer(_) => data_type == Self::UTF8_PTR || data_type == Self::OCTET_PTR,
            ParamData::Bytes(b) => {
                !(data_type == Self::INTEGER && b.len() == INT_WIDTH) && !(data_type
                    == Self::UNSIGNED_INTEGER && b.len() == size_t_width()) && data_type
                    != Self::UTF8_PTR && data_type != Self::OCTET_PTR
            },
        };
        if fits {
            Some(OSSL_PARAM { key: Some(vstd::slice::slice_to_vec(key)), data_type, data, return_size })
        } else {
            None
        }
    }

    /// Returns `true` for the end-of-array terminator.
    pub fn is_end(&self) -> (r: bool)
        ensures
            r == self.spec_is_end(),
    {
        self.key.is_none()
    }

    /// This parameter's name, or `None` for the terminator.
    pub fn key(&self) -> (r: Option<&[u8]>)
        ensures
            r matches Some(k) ==> self.spec_key() == Some(k@),
            r is None <==> self.spec_key() is None,
    {
        match &self.key {
            Some(k) => Some(k.as_slice()),
            None => None,
        }
    }

    /// The declared kind of this cell.
    pub fn data_type(&self) -> (t: u32)
        ensures
            t == self.spec_data_type(),
    {
        self.data_type
    }

    /// This cell's storage.
    pub fn data(&self) -> (d: &ParamData)
        ensures
            *d == self.spec_data(),
    {
        &self.data
    }

    /// The size reported back by the last setter.
    pub fn return_size(&self) -> (n: usize)
        ensures
            n == self.spec_return_size(),
    {
        self.return_size
    }

    /// Whether this cell carries a signed integer (`INTEGER`).
    pub fn is_integer(&self) -> (r: bool)
        ensures
            r == (self.spec_data_type() == Self::INTEGER),
    {
        self.data_type == Self::INTEGER
    }

    /// Whether this cell carries an inline UTF-8 string (`UTF8_STRING`).
    pub fn is_utf8_string(&self) -> (r: bool)
        ensures
            r == (self.spec_data_type() == Self::UTF8_STRING),
    {
        self.data_type == Self::UTF8_STRING
    }

    /// Whether this cell carries an inline byte string (`OCTET_STRING`).
    pub fn is_octet_string(&self) -> (r: bool)
        ensures
            r == (self.spec_data_type() == Self::OCTET_STRING),
    {
        self.data_type == Self::OCTET_STRING
    }

    /// Reads an exact-width `INTEGER` as a C `int`.
    ///
    /// Returns `None` for a kind or size mismatch, or null data.
    pub fn get_int(&self) -> (r: Option<i32>)
        ensures
            r == int_value(*self),
            r is Some ==> self.spec_data_type() == Self::INTEGER,
    {
        proof {
            use_type_invariant(self);
        }
        if self.data_type != Self::INTEGER {
            return None;
        }
        match &self.data {
            ParamData::Int(v) => Some(*v),
            _ => None,
        }
    }

    /// Reads an exact-width `UNSIGNED_INTEGER` as a `size_t`.
    ///
    /// Returns `None` for a kind or size mismatch, or null data.
    pub fn get_size_t(&self) -> (r: Option<usize>)
        ensures
            r == size_t_value(*self),
            r is Some ==> self.spec_data_type() == Self::UNSIGNED_INTEGER,
    {
        proof {
            use_type_invariant(self);
        }
        if self.data_type != Self::UNSIGNED_INTEGER {
            return None;
        }
        match &self.data {
            ParamData::SizeT(v) => Some(*v),
            _ => None,
        }
    }

    /// Borrows a `UTF8_STRING`, stripping one trailing NUL.
    ///
    /// Returns `None` for a kind mismatch, null data, or invalid UTF-8.
    pub fn get_utf8_string(&self) -> (r: Option<&str>)
        ensures
            r is Some <==> utf8_text(*self) is Some,
            r matches Some(s) ==> utf8_text(*self) == Some(s.spec_bytes()),
    {
        proof {
            use_type_invariant(self);
        }
        if self.data_type != Self::UTF8_STRING {
            return None;
        }
        match &self.data {
            ParamData::Bytes(b) => {
                let n = b.len();
                let text: &[u8] = if n > 0 && b[n - 1] == 0 {
                    vstd::slice::slice_subrange(b.as_slice(), 0, n - 1)
                } else {
                    b.as_slice()
                };
                decode_utf8(text)
            },
            _ => None,
        }
    }

    /// Stores a string's address in a `UTF8_PTR` cell (see
    /// [`ParamMut::set_utf8_ptr`]).
    pub(crate) fn store_utf8_ptr(&mut self, val: &[u8]) -> (r: bool)
        ensures
            utf8_ptr_stored(*old(self), *final(self), val@, r),
    {
        proof {
            use_type_invariant(&*self);
        }
        self.return_size = 0;
        if self.data_type != Self::UTF8_PTR {
            return false;
        }
        self.return_size = val.len();
        if let ParamData::Pointer(_) = &self.data {
            self.data = ParamData::Pointer(Some(vstd::slice::slice_to_vec(val)));
        }
        true
    }

    /// Writes a C `int` to an `INTEGER` cell (see [`ParamMut::set_int`]).
    pub(crate) fn store_int(&mut self, val: i32) -> (r: bool)
        ensures
            int_stored(*old(self), *final(self), val, r),
    {
        proof {
            use_type_invariant(&*self);
        }
        self.return_size = 0;
        if self.data_type != Self::INTEGER {
            return false;
        }
        self.return_size = INT_WIDTH;
        match &self.data {
            ParamData::Null => true,
            ParamData::Int(_) => {
                self.data = ParamData::Int(val);
                true
            },
            _ => false,
        }
    }

    /// Writes a `size_t` to an `UNSIGNED_INTEGER` cell (see
    /// [`ParamMut::set_size_t`]).
    pub(crate) fn store_size_t(&mut self, val: usize) -> (r: bool)
        ensures
            size_t_stored(*old(self), *final(self), val, r),
    {
        proof {
            use_type_invariant(&*self);
        }
        self.return_size = 0;
        if self.data_type != Self::UNSIGNED_INTEGER {
            return false;
        }
        self.return_size = size_t_width();
        match &self.data {
            ParamData::Null => true,
            ParamData::SizeT(_) => {
                self.data = ParamData::SizeT(val);
                true
            },
            _ => false,
        }
    }

    /// Borrows an `OCTET_STRING`, including an empty one.
    ///
    /// Returns `None` for a kind mismatch or null data.
    pub fn get_octet_string(&self) -> (r: Option<&[u8]>)
        ensures
            r is Some <==> (self.spec_data_type() == Self::OCTET_STRING
                && self.spec_data() is Bytes),
            r matches Some(s) ==> s@ == self.spec_data()->Bytes_0@,
    {
        proof {
            use_type_invariant(self);
        }
        if self.data_type != Self::OCTET_STRING {
            return None;
        }
        match &self.data {
            ParamData::Bytes(b) => Some(b.as_slice()),
            _ => None,
        }
    }
}

/// The C `int` an exact-width `INTEGER` cell holds.
pub open spec fn int_value(p: OSSL_PARAM) -> Option<i32> {
    match p.spec_data() {
        ParamData::Int(v) => Some(v),
        _ => None,
    }
}

/// The `size_t` an exact-width `UNSIGNED_INTEGER` cell holds.
pub open spec fn size_t_value(p: OSSL_PARAM) -> Option<usize> {
    match p.spec_data() {
        ParamData::SizeT(v) => Some(v),
        _ => None,
    }
}

/// The text a `UTF8_STRING` cell holds: its buffer without one trailing NUL,
/// when that is valid UTF-8.
pub open spec fn utf8_text(p: OSSL_PARAM) -> Option<Seq<u8>> {
    match p.spec_data() {
        ParamData::Bytes(b) => if p.spec_data_type() == OSSL_PARAM::UTF8_STRING && valid_utf8(
            strip_nul(b@),
        ) {
            Some(strip_nul(b@))
        } else {
            None
        },
        _ => None,
    }
}

/// How the `UTF8_PTR` setter storing the address of `text` relates the cell
/// before (`old`) and after (`new`) the call to its answer `r`: a kind
/// mismatch reports zero and fails; otherwise the text's length is
/// reported, a pointer slot receives the text, and null storage is a
/// successful size query.
pub open spec fn utf8_ptr_stored(old: OSSL_PARAM, new: OSSL_PARAM, text: Seq<u8>, r: bool) -> bool {
    &&& new.spec_key() == old.spec_key()
    &&& new.spec_data_type() == old.spec_data_type()
    &&& if old.spec_data_type() != OSSL_PARAM::UTF8_PTR {
        &&& !r
        &&& new.spec_return_size() == 0
        &&& new.spec_data() == old.spec_data()
    } else {
        &&& r
        &&& new.spec_return_size() == text.len()
        &&& old.spec_data() is Null ==> new.spec_data() is Null
        &&& old.spec_data() is Pointer ==> (new.spec_data() matches ParamData::Pointer(Some(p)) && p@ == text)
    }
}

/// How the `INTEGER` setter storing `val` relates the cell before (`old`)
/// and after (`new`) the call to its answer `r`: a kind mismatch reports
/// zero and fails; otherwise the C `int` width is reported, null storage is
/// a successful size query, one C `int` of storage receives `val`, and any
/// other storage fails untouched.
pub open spec fn int_stored(old: OSSL_PARAM, new: OSSL_PARAM, val: i32, r: bool) -> bool {
    &&& new.spec_key() == old.spec_key()
    &&& new.spec_data_type() == old.spec_data_type()
    &&& if old.spec_data_type() != OSSL_PARAM::INTEGER {
        &&& !r
        &&& new.spec_return_size() == 0
        &&& new.spec_data() == old.spec_data()
    } else {
        &&& new.spec_return_size() == INT_WIDTH
        &&& r == (old.spec_data() is Null || old.spec_data() is Int)
        &&& new.spec_data() == (if old.spec_data() is Int {
            ParamData::Int(val)
        } else {
            old.spec_data()
        })
    }
}

/// How the `UNSIGNED_INTEGER` setter storing `val` relates the cell before
/// and after the call to its answer, as [`int_stored`] does for `size_t`.
pub open spec fn size_t_stored(old: OSSL_PARAM, new: OSSL_PARAM, val: usize, r: bool) -> bool {
    &&& new.spec_key() == old.spec_key()
    &&& new.spec_data_type() == old.spec_data_type()
    &&& if old.spec_data_type() != OSSL_PARAM::UNSIGNED_INTEGER {
        &&& !r
        &&& new.spec_return_size() == 0
        &&& new.spec_data() == old.spec_data()
    } else {
        &&& new.spec_return_size() == spec_size_t_width()
        &&& r == (old.spec_data() is Null || old.spec_data() is SizeT)
        &&& new.spec_data() == (if old.spec_data() is SizeT {
            ParamData::SizeT(val)
        } else {
            old.spec_data()
        })
    }
}

/// An `INTEGER` cell with storage reads back the value its setter stored.
pub proof fn law_int_round_trip(old: OSSL_PARAM, new: OSSL_PARAM, val: i32, r: bool)
    requires
        int_stored(old, new, val, r),
        r,
        !(old.spec_data() is Null),
    ensures
        int_value(new) == Some(val),
{
}

/// An `UNSIGNED_INTEGER` cell with storage reads back the value its setter
/// stored.
pub proof fn law_size_t_round_trip(old: OSSL_PARAM, new: OSSL_PARAM, val: usize, r: bool)
    requires
        size_t_stored(old, new, val, r),
        r,
        !(old.spec_data() is Null),
    ensures
        size_t_value(new) == Some(val),
{
}

/// A `UTF8_STRING` buffer one byte longer than the text reads back exactly
/// the text its setter stored.
pub proof fn law_utf8_round_trip(old: OSSL_PARAM, new: OSSL_PARAM, text: Seq<u8>, r: bool)
    requires
        string_stored(old, new, OSSL_PARAM::UTF8_STRING, text, r),
        valid_utf8(text),
        old.spec_data_type() == OSSL_PARAM::UTF8_STRING,
        old.spec_data() matches ParamData::Bytes(b) && b@.len() == text.len() + 1,
    ensures
        r,
        utf8_text(new) == Some(text),
{
    let b = old.spec_data()->Bytes_0@;
    let stored = new.spec_data()->Bytes_0@;
    assert(b.skip(text.len() + 1int) =~= Seq::<u8>::empty());
    assert(stored =~= text + seq![0u8]);
    assert(strip_nul(stored) =~= text);
}

/// A buffer after `text` was copied to its start, followed by a NUL when
/// `nul` is asked for and a byte remains for it.
pub open spec fn with_text(buffer: Seq<u8>, text: Seq<u8>, nul: bool) -> Seq<u8> {
    if nul && buffer.len() > text.len() {
        text + seq![0u8] + buffer.skip(text.len() + 1int)
    } else {
        text + buffer.skip(text.len() as int)
    }
}

/// How a string setter of kind `kind` storing `text` relates the cell before
/// (`old`) and after (`new`) the call to its answer `r`.
pub open spec fn string_stored(old: OSSL_PARAM, new: OSSL_PARAM, kind: u32, text: Seq<u8>, r: bool) -> bool {
    &&& new.spec_key() == old.spec_key()
    &&& new.spec_data_type() == old.spec_data_type()
    &&& if old.spec_data_type() != kind {
        &&& !r
        &&& new.spec_return_size() == 0
        &&& new.spec_data() == old.spec_data()
    } else {
        &&& new.spec_return_size() == text.len()
        &&& match old.spec_data() {
            ParamData::Bytes(b) => if b@.len() < text.len() {
                !r && new.spec_data() == old.spec_data()
            } else {
                &&& r
                &&& new.spec_data() is Bytes
                &&& new.spec_data()->Bytes_0@ == with_text(b@, text, kind == OSSL_PARAM::UTF8_STRING)
            },
            ParamData::Null => r && new.spec_data() == old.spec_data(),
            _ => !r && new.spec_data() == old.spec_data(),
        }
    }
}

/// Copies `text` to the start of a byte buffer, followed by a NUL when `nul`
/// is asked for and a byte remains; refuses a buffer too small for the text.
/// Null storage (a size query) is left alone and accepted; storage that is
/// not a byte buffer is left alone and refused.
fn copy_text(data: &mut ParamData, text: &[u8], nul: bool) -> (r: bool)
    ensures
        match *old(data) {
            ParamData::Bytes(b) => if b@.len() < text@.len() {
                !r && *final(data) == *old(data)
            } else {
                &&& r
                &&& *final(data) is Bytes
                &&& (*final(data))->Bytes_0@ == with_text(b@, text@, nul)
            },
            ParamData::Null => r && *final(data) == *old(data),
            _ => !r && *final(data) == *old(data),
        },
{
    match data {
        ParamData::Bytes(buffer) => {
            let needed = text.len();
            if buffer.len() < needed {
                return false;
            }
            let ghost before = buffer@;
            let mut i: usize = 0;
            while i < needed
                invariant
                    needed == text@.len(),
                    needed <= buffer@.len(),
                    buffer@.len() == before.len(),
                    0 <= i <= needed,
                    buffer@ == text@.take(i as int) + before.skip(i as int),
                decreases needed - i,
            {
                buffer.set(i, text[i]);
                i += 1;
                assert(buffer@ =~= text@.take(i as int) + before.skip(i as int));
            }
            if nul && buffer.len() > needed {
                buffer.set(needed, 0u8);
                assert(buffer@ =~= with_text(before, text@, true));
            } else {
                assert(buffer@ =~= with_text(before, text@, nul));
            }
            true
        },
        ParamData::Null => true,
        _ => false,
    }
}

/// A borrowed writable parameter cell supplied by the core.
///
/// Moving the wrapper keeps the borrow of the core's array.
pub struct ParamMut<'a> {
    raw: &'a mut OSSL_PARAM,
}

impl<'a> ParamMut<'a> {
    /// The cell as it stands now.
    pub closed spec fn cell(&self) -> OSSL_PARAM {
        *self.raw
    }

    /// The borrowed cell itself: its final value is where the cell's
    /// writes end up.
    pub closed spec fn target(&self) -> &'a mut OSSL_PARAM {
        self.raw
    }

    /// Wraps an exclusively borrowed cell.
    pub fn new(raw: &'a mut OSSL_PARAM) -> (p: Self)
        ensures
            p.cell() == *old(raw),
            *final(raw) == *final(p.target()),
    {
        ParamMut { raw }
    }

    /// Gives the cell back: what it holds now is what the borrowed cell ends
    /// up holding.
    pub fn release(self)
        ensures
            *final(self.target()) == self.cell(),
    {
    }

    /// This parameter's name.
    pub fn key(&self) -> (r: Option<&[u8]>)
        ensures
            r matches Some(k) ==> self.cell().spec_key() == Some(k@),
            r is None <==> self.cell().spec_key() is None,
    {
        self.raw.key()
    }

    /// Whether this cell carries a signed integer.
    pub fn is_integer(&self) -> (r: bool)
        ensures
            r == (self.cell().spec_data_type() == OSSL_PARAM::INTEGER),
    {
        self.raw.is_integer()
    }

    /// Whether this cell carries an inline UTF-8 string.
    pub fn is_utf8_string(&self) -> (r: bool)
        ensures
            r == (self.cell().spec_data_type() == OSSL_PARAM::UTF8_STRING),
    {
        self.raw.is_utf8_string()
    }

    /// Whether this cell carries an inline byte string.
    pub fn is_octet_string(&self) -> (r: bool)
        ensures
            r == (self.cell().spec_data_type() == OSSL_PARAM::OCTET_STRING),
    {
        self.raw.is_octet_string()
    }

    /// Stores a string's address in a `UTF8_PTR` cell.
    ///
    /// Reports the byte length without NUL. Null data is a size query; a kind
    /// mismatch returns `false` and reports zero.
    pub fn set_utf8_ptr(&mut self, val: &[u8]) -> (r: bool)
        ensures
            utf8_ptr_stored(old(self).cell(), final(self).cell(), val@, r),
            *final(final(self).target()) == *final(old(self).target()),
    {
        self.raw.store_utf8_ptr(val)
    }

    /// Shared copy of string setters: kind check, reported size, capacity
    /// check, the copy, and a NUL after UTF-8 text when a byte remains.
    fn set_string_internal(&mut self, val: &[u8], data_type: u32) -> (r: bool)
        requires
            data_type == OSSL_PARAM::UTF8_STRING || data_type == OSSL_PARAM::OCTET_STRING,
        ensures
            old(self).cell().spec_data_type() != data_type ==> !r && final(self).cell() == old(self).cell(),
            old(self).cell().spec_data_type() == data_type ==> string_stored(
                old(self).cell(),
                final(self).cell(),
                data_type,
                val@,
                r,
            ),
            *final(final(self).target()) == *final(old(self).target()),
    {
        proof {
            use_type_invariant(&*self.raw);
        }
        if self.raw.data_type != data_type {
            return false;
        }
        let needed = val.len();
        self.raw.return_size = needed;
        let mut data = ParamData::Null;
        core::mem::swap(&mut data, &mut self.raw.data);
        let r = copy_text(&mut data, val, data_type == OSSL_PARAM::UTF8_STRING);
        self.raw.data = data;
        r
    }

    /// Copies text into a `UTF8_STRING` cell, adding NUL when capacity allows.
    ///
    /// Reports the length without NUL. Null data is a size query; a kind
    /// mismatch or insufficient capacity returns `false`.
    pub fn set_utf8_string(&mut self, val: &str) -> (r: bool)
        ensures
            string_stored(old(self).cell(), final(self).cell(), OSSL_PARAM::UTF8_STRING, val.spec_bytes(), r),
            *final(final(self).target()) == *final(old(self).target()),
    {
        proof {
            use_type_invariant(&*self.raw);
        }
        self.raw.return_size = 0;
        self.set_string_internal(val.as_bytes(), OSSL_PARAM::UTF8_STRING)
    }

    /// Writes a C `int` to an `INTEGER` cell and reports its byte size.
    ///
    /// Null data is a size query. Storage must be exactly one C `int`; a kind
    /// or size mismatch returns `false` without writing.
    pub fn set_int(&mut self, val: i32) -> (r: bool)
        ensures
            int_stored(old(self).cell(), final(self).cell(), val, r),
            *final(final(self).target()) == *final(old(self).target()),
    {
        self.raw.store_int(val)
    }

    /// Writes a `size_t` to an `UNSIGNED_INTEGER` cell and reports its byte size.
    ///
    /// Null data is a size query. Storage must be exactly one `size_t`; a
    /// kind or size mismatch returns `false` without writing.
    pub fn set_size_t(&mut self, val: usize) -> (r: bool)
        ensures
            size_t_stored(old(self).cell(), final(self).cell(), val, r),
            *final(final(self).target()) == *final(old(self).target()),
    {
        self.raw.store_size_t(val)
    }
}

/// The text of a UTF-8 buffer: its bytes without one trailing NUL.
pub open spec fn strip_nul(bytes: Seq<u8>) -> Seq<u8> {
    if bytes.len() > 0 && bytes.last() == 0 {
        bytes.drop_last()
    } else {
        bytes
    }
}

} // verus!

verus! {

/// Whether `i` is the first position of a live entry named `key`: every
/// entry up to it is not the terminator, and no earlier entry has that name.
pub open spec fn is_first_named(entries: Seq<OSSL_PARAM>, key: Seq<u8>, i: int) -> bool {
    &&& 0 <= i < entries.len()
    &&& forall|j: int| 0 <= j <= i ==> !(#[trigger] entries[j]).spec_is_end()
    &&& entries[i].spec_key() == Some(key)
    &&& forall|j: int| 0 <= j < i ==> (#[trigger] entries[j]).spec_key() != Some(key)
}

/// Position of the first live entry named `key`, if any.
pub open spec fn find_named(entries: Seq<OSSL_PARAM>, key: Seq<u8>) -> Option<int> {
    if exists|i: int| is_first_named(entries, key, i) {
        Some(choose|i: int| is_first_named(entries, key, i))
    } else {
        None
    }
}

/// At most one position is the first one named `key`.
pub proof fn lemma_first_named_unique(entries: Seq<OSSL_PARAM>, key: Seq<u8>, i: int, j: int)
    requires
        is_first_named(entries, key, i),
        is_first_named(entries, key, j),
    ensures
        i == j,
{
    if i < j {
        assert(entries[i].spec_key() != Some(key));
    } else if j < i {
        assert(entries[j].spec_key() != Some(key));
    }
}

/// What `find_named` finds is a live entry with that name.
pub proof fn lemma_find_named_found(entries: Seq<OSSL_PARAM>, key: Seq<u8>)
    ensures
        find_named(entries, key) matches Some(i) ==> is_first_named(entries, key, i),
{
}

/// Arrays with the same names in the same places find the same entries.
pub proof fn lemma_find_named_same_keys(a: Seq<OSSL_PARAM>, b: Seq<OSSL_PARAM>, key: Seq<u8>)
    requires
        a.len() == b.len(),
        forall|k: int| 0 <= k < a.len() ==> (#[trigger] a[k]).spec_key() == b[k].spec_key(),
    ensures
        find_named(a, key) == find_named(b, key),
{
    assert forall|i: int| is_first_named(a, key, i) <==> is_first_named(b, key, i) by {
        if is_first_named(a, key, i) {
            assert forall|j: int| 0 <= j <= i implies !(#[trigger] b[j]).spec_is_end() by {
                assert(a[j].spec_key() == b[j].spec_key());
            }
            assert forall|j: int| 0 <= j < i implies (#[trigger] b[j]).spec_key() != Some(key) by {
                assert(a[j].spec_key() == b[j].spec_key());
            }
        }
        if is_first_named(b, key, i) {
            assert forall|j: int| 0 <= j <= i implies !(#[trigger] a[j]).spec_is_end() by {
                assert(a[j].spec_key() == b[j].spec_key());
            }
            assert forall|j: int| 0 <= j < i implies (#[trigger] a[j]).spec_key() != Some(key) by {
                assert(a[j].spec_key() == b[j].spec_key());
            }
        }
    }
    if exists|i: int| is_first_named(a, key, i) {
        let i = choose|i: int| is_first_named(a, key, i);
        let j = choose|j: int| is_first_named(b, key, j);
        assert(is_first_named(b, key, i));
        lemma_first_named_unique(b, key, i, j);
    }
}

/// Whether `n` is the number of entries before the first terminator.
pub open spec fn is_live_len(entries: Seq<OSSL_PARAM>, n: int) -> bool {
    &&& 0 <= n <= entries.len()
    &&& forall|j: int| 0 <= j < n ==> !(#[trigger] entries[j]).spec_is_end()
    &&& n < entries.len() ==> entries[n].spec_is_end()
}

/// The entries before the first terminator (all of them when there is none).
pub open spec fn live(entries: Seq<OSSL_PARAM>) -> Seq<OSSL_PARAM> {
    entries.take(choose|n: int| is_live_len(entries, n))
}

/// Every array has a live count at least `i` when its first `i` entries are live.
pub proof fn lemma_live_len_exists(entries: Seq<OSSL_PARAM>, i: int)
    requires
        0 <= i <= entries.len(),
        forall|j: int| 0 <= j < i ==> !(#[trigger] entries[j]).spec_is_end(),
    ensures
        exists|n: int| i <= n && is_live_len(entries, n),
    decreases entries.len() - i,
{
    if i == entries.len() {
        assert(is_live_len(entries, i));
    } else if entries[i].spec_is_end() {
        assert(is_live_len(entries, i));
    } else {
        lemma_live_len_exists(entries, i + 1);
    }
}

/// Exactly one count of live entries exists, and `live` takes that many.
pub proof fn lemma_live_len(entries: Seq<OSSL_PARAM>, n: int)
    requires
        is_live_len(entries, n),
    ensures
        live(entries) == entries.take(n),
{
    let m = choose|m: int| is_live_len(entries, m);
    assert(is_live_len(entries, m));
    if m < n {
        assert(!entries[m].spec_is_end());
    } else if n < m {
        assert(!entries[n].spec_is_end());
    }
}

/// Finds the first live entry named `key`.
pub(crate) fn position_named(entries: &[OSSL_PARAM], key: &[u8]) -> (r: Option<usize>)
    ensures
        match r {
            Some(i) => find_named(entries@, key@) == Some(i as int),
            None => find_named(entries@, key@) is None,
        },
{
    let mut i: usize = 0;
    while i < entries.len()
        invariant
            0 <= i <= entries@.len(),
            forall|j: int| 0 <= j < i ==> !(#[trigger] entries@[j]).spec_is_end(),
            forall|j: int| 0 <= j < i ==> (#[trigger] entries@[j]).spec_key() != Some(key@),
        decreases entries.len() - i,
    {
        let entry = &entries[i];
        match entry.key() {
            None => {
                proof {
                    if exists|k: int| is_first_named(entries@, key@, k) {
                        let k = choose|k: int| is_first_named(entries@, key@, k);
                        if k < i {
                            assert(entries@[k].spec_key() != Some(key@));
                        } else {
                            assert(!entries@[i as int].spec_is_end());
                        }
                    }
                }
                return None;
            },
            Some(name) => {
                if name_eq(name, key) {
                    proof {
                        assert(is_first_named(entries@, key@, i as int));
                        let k = choose|k: int| is_first_named(entries@, key@, k);
                        lemma_first_named_unique(entries@, key@, i as int, k);
                    }
                    return Some(i);
                }
            },
        }
        i += 1;
    }
    proof {
        if exists|k: int| is_first_named(entries@, key@, k) {
            let k = choose|k: int| is_first_named(entries@, key@, k);
            assert(entries@[k].spec_key() != Some(key@));
        }
    }
    None
}

/// A read-only view of a core-supplied parameter array.
pub struct Params<'a> {
    entries: &'a [OSSL_PARAM],
}

impl<'a> Params<'a> {
    /// The array, terminator and any later entries included.
    pub closed spec fn spec_entries(&self) -> Seq<OSSL_PARAM> {
        self.entries@
    }

    /// Views the array the core passes to an `init` or `set_ctx_params`
    /// call; `None` stands for a null pointer.
    pub fn from_ptr(params: Option<&'a [OSSL_PARAM]>) -> (r: Option<Self>)
        ensures
            r is Some <==> params is Some,
            r matches Some(p) ==> p.spec_entries() == params->0@,
    {
        match params {
            Some(entries) => Some(Params { entries }),
            None => None,
        }
    }

    /// Finds the first live entry named `key`, the analogue of
    /// `OSSL_PARAM_locate_const`.
    pub fn locate(&self, key: &[u8]) -> (r: Option<&'a OSSL_PARAM>)
        ensures
            match find_named(self.spec_entries(), key@) {
                Some(i) => r == Some(&self.spec_entries()[i]),
                None => r is None,
            },
    {
        match position_named(self.entries, key) {
            Some(i) => Some(&self.entries[i]),
            None => None,
        }
    }

    /// Walks the entries before the first terminator.
    pub fn iter(&self) -> (it: ParamsIter<'a>)
        ensures
            it.spec_entries() == self.spec_entries(),
            it.position() == 0,
    {
        ParamsIter { entries: self.entries, pos: 0 }
    }
}

/// A cursor over the live entries of a parameter array (see [`Params::iter`]).
pub struct ParamsIter<'a> {
    entries: &'a [OSSL_PARAM],
    pos: usize,
}

impl<'a> ParamsIter<'a> {
    #[verifier::type_invariant]
    spec fn inv(&self) -> bool {
        &&& self.pos <= self.entries@.len()
        &&& forall|j: int| 0 <= j < self.pos ==> !(#[trigger] self.entries@[j]).spec_is_end()
    }

    /// The array walked.
    pub closed spec fn spec_entries(&self) -> Seq<OSSL_PARAM> {
        self.entries@
    }

    /// How many entries were handed out so far.
    pub closed spec fn position(&self) -> nat {
        self.pos as nat
    }

    /// The next entry, or `None` once the terminator or the end is reached.
    pub fn next(&mut self) -> (r: Option<&'a OSSL_PARAM>)
        ensures
            final(self).spec_entries() == old(self).spec_entries(),
            old(self).position() < old(self).spec_entries().len()
                && !old(self).spec_entries()[old(self).position() as int].spec_is_end() ==> {
                &&& r == Some(&old(self).spec_entries()[old(self).position() as int])
                &&& final(self).position() == old(self).position() + 1
            },
            !(old(self).position() < old(self).spec_entries().len()
                && !old(self).spec_entries()[old(self).position() as int].spec_is_end()) ==> {
                &&& r is None
                &&& final(self).position() == old(self).position()
            },
            final(self).position() <= final(self).spec_entries().len(),
            forall|j: int|
                0 <= j < final(self).position() ==> !(#[trigger] final(self).spec_entries()[j]).spec_is_end(),
    {
        proof {
            use_type_invariant(&*self);
        }
        if self.pos < self.entries.len() && !self.entries[self.pos].is_end() {
            let entry = &self.entries[self.pos];
            self.pos = self.pos + 1;
            Some(entry)
        } else {
            None
        }
    }
}

/// A writable view of a core-supplied parameter array.
pub struct ParamsMut<'a> {
    entries: &'a mut [OSSL_PARAM],
}

impl<'a> ParamsMut<'a> {
    /// The array as it stands now.
    pub closed spec fn spec_entries(&self) -> Seq<OSSL_PARAM> {
        self.entries@
    }

    /// The borrowed array itself: its final value is where the view's
    /// writes end up.
    pub closed spec fn target(&self) -> &'a mut [OSSL_PARAM] {
        self.entries
    }

    /// Gives the array back: what it holds now is what the borrowed array
    /// ends up holding.
    pub fn release(self)
        ensures
            final(self.target())@ == self.spec_entries(),
    {
    }

    /// Views the array the core passes to a `get_params` call; `None` stands
    /// for a null pointer. What is written through the view ends up in the
    /// array.
    pub fn from_ptr(params: Option<&'a mut [OSSL_PARAM]>) -> (r: Option<ParamsMut<'a>>)
        ensures
            r is Some <==> params is Some,
            r matches Some(p) ==> p.spec_entries() == old(params->0)@
                && final(params->0)@ == final(p.target())@,
    {
        match params {
            Some(entries) => Some(ParamsMut { entries }),
            None => None,
        }
    }

    /// Finds the first live entry named `key`, the analogue of
    /// `OSSL_PARAM_locate`, and lends it for writing: what is written
    /// through the cell ends up in that entry, and no other entry changes.
    pub fn locate(&mut self, key: &[u8]) -> (r: Option<ParamMut<'_>>)
        ensures
            match find_named(old(self).spec_entries(), key@) {
                Some(i) => {
                    &&& r matches Some(cell) && cell.cell() == old(self).spec_entries()[i]
                        && final(self).spec_entries() == old(self).spec_entries().update(i, *final(cell.target()))
                },
                None => r is None && final(self).spec_entries() == old(self).spec_entries(),
            },
            final(final(self).target())@ == final(old(self).target())@,
    {
        match position_named(self.entries, key) {
            Some(i) => Some(ParamMut { raw: &mut self.entries[i] }),
            None => None,
        }
    }
}

} // verus!

verus! {

/// Whether `entries` is the descriptor table listing `names` with their
/// kinds, in order, each without storage, followed by the terminator.
pub open spec fn lists_descriptors(entries: Seq<OSSL_PARAM>, names: Seq<(Seq<u8>, u32)>) -> bool {
    &&& entries.len() == names.len() + 1
    &&& forall|i: int|
        0 <= i < names.len() ==> {
            &&& (#[trigger] entries[i]).spec_key() == Some(names[i].0)
            &&& entries[i].spec_data_type() == names[i].1
            &&& entries[i].spec_data() == ParamData::Null
            &&& entries[i].spec_return_size() == 0
        }
    &&& entries.last().spec_is_end()
}

/// Descriptor storage laid out as one fixed-size array.
pub struct ParamArray<const N: usize>(pub [OSSL_PARAM; N]);

/// A validated descriptor table: a non-empty array ending in the terminator.
///
/// Earlier terminators keep their usual meaning: consumers stop there.
pub struct ParamTable {
    entries: Vec<OSSL_PARAM>,
}

impl ParamTable {
    #[verifier::type_invariant]
    spec fn inv(&self) -> bool {
        &&& self.entries@.len() > 0
        &&& self.entries@.last().spec_is_end()
    }

    /// The descriptors, terminator included.
    pub closed spec fn spec_entries(&self) -> Seq<OSSL_PARAM> {
        self.entries@
    }

    /// Validates a descriptor table, rejecting an empty array and one whose
    /// final entry is not the terminator.
    pub fn new(entries: Vec<OSSL_PARAM>) -> (r: Option<Self>)
        ensures
            r is Some <==> (entries@.len() > 0 && entries@.last().spec_is_end()),
            r matches Some(t) ==> t.spec_entries() == entries@,
    {
        let n = entries.len();
        if n > 0 && entries[n - 1].is_end() {
            Some(ParamTable { entries })
        } else {
            None
        }
    }

    /// The table describing no parameter: the terminator alone.
    pub fn empty() -> (t: Self)
        ensures
            t.spec_entries().len() == 1,
            t.spec_entries()[0].spec_is_end(),
            lists_descriptors(t.spec_entries(), seq![]),
    {
        let mut entries: Vec<OSSL_PARAM> = Vec::new();
        entries.push(OSSL_PARAM::end());
        ParamTable { entries }
    }

    /// The validated array for the C ABI, including its terminator.
    pub fn entries(&self) -> (e: &[OSSL_PARAM])
        ensures
            e@ == self.spec_entries(),
            e@.len() > 0,
            e@.last().spec_is_end(),
    {
        proof {
            use_type_invariant(self);
        }
        self.entries.as_slice()
    }
}

} // verus!

verus! {

/// The name `blocksize`.
pub open spec fn spec_name_blocksize() -> Seq<u8> {
    seq![98u8, 108, 111, 99, 107, 115, 105, 122, 101]
}

/// The name `size`.
pub open spec fn spec_name_size() -> Seq<u8> {
    seq![115u8, 105, 122, 101]
}

/// The name `xof`.
pub open spec fn spec_name_xof() -> Seq<u8> {
    seq![120u8, 111, 102]
}

/// The name `xoflen`.
pub open spec fn spec_name_xoflen() -> Seq<u8> {
    seq![120u8, 111, 102, 108, 101, 110]
}

/// The parameter name `blocksize`.
pub fn name_blocksize() -> (n: [u8; 9])
    ensures
        n@ == spec_name_blocksize(),
{
    let n: [u8; 9] = [98, 108, 111, 99, 107, 115, 105, 122, 101];
    assert(n@ =~= spec_name_blocksize());
    n
}

/// The parameter name `size`.
pub fn name_size() -> (n: [u8; 4])
    ensures
        n@ == spec_name_size(),
{
    let n: [u8; 4] = [115, 105, 122, 101];
    assert(n@ =~= spec_name_size());
    n
}

/// The parameter name `xof`.
pub fn name_xof() -> (n: [u8; 3])
    ensures
        n@ == spec_name_xof(),
{
    let n: [u8; 3] = [120, 111, 102];
    assert(n@ =~= spec_name_xof());
    n
}

/// The parameter name `xoflen`.
pub fn name_xoflen() -> (n: [u8; 6])
    ensures
        n@ == spec_name_xoflen(),
{
    let n: [u8; 6] = [120, 111, 102, 108, 101, 110];
    assert(n@ =~= spec_name_xoflen());
    n
}

} // verus!
