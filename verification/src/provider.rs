//! The provider itself: its identity parameters and the algorithm tables it
//! serves per operation.

use vstd::prelude::*;

use crate::bindings::{OSSL_ALGORITHM, OSSL_DISPATCH};
use crate::params::{
    find_named, int_stored, lemma_find_named_found, lemma_find_named_same_keys, lists_descriptors, name_eq,
    position_named, utf8_ptr_stored, OSSL_PARAM, ParamData, ParamTable,
};

verus! {

/// What a provider declares about itself.
pub struct ProviderDesc {
    /// The provider's name, reported as `name`.
    pub name: Vec<u8>,
    /// Its version, reported as `version`.
    pub version: Vec<u8>,
    /// Its build information, reported as `buildinfo`.
    pub buildinfo: Vec<u8>,
    /// The digest algorithm table, terminator included.
    pub digests: Vec<OSSL_ALGORITHM>,
}

/// A provider serving one algorithm table per operation id.
pub struct Provider {
    desc: ProviderDesc,
}

/// `name`.
pub open spec fn spec_name_name() -> Seq<u8> {
    seq![110u8, 97u8, 109u8, 101u8]
}

/// `version`.
pub open spec fn spec_name_version() -> Seq<u8> {
    seq![118u8, 101u8, 114u8, 115u8, 105u8, 111u8, 110u8]
}

/// `buildinfo`.
pub open spec fn spec_name_buildinfo() -> Seq<u8> {
    seq![98u8, 117u8, 105u8, 108u8, 100u8, 105u8, 110u8, 102u8, 111u8]
}

/// `status`.
pub open spec fn spec_name_status() -> Seq<u8> {
    seq![115u8, 116u8, 97u8, 116u8, 117u8, 115u8]
}

fn name_name() -> (n: [u8; 4])
    ensures
        n@ == spec_name_name(),
{
    let n = [110u8, 97u8, 109u8, 101u8];
    assert(n@ =~= spec_name_name());
    n
}

fn name_version() -> (n: [u8; 7])
    ensures
        n@ == spec_name_version(),
{
    let n = [118u8, 101u8, 114u8, 115u8, 105u8, 111u8, 110u8];
    assert(n@ =~= spec_name_version());
    n
}

fn name_buildinfo() -> (n: [u8; 9])
    ensures
        n@ == spec_name_buildinfo(),
{
    let n = [98u8, 117u8, 105u8, 108u8, 100u8, 105u8, 110u8, 102u8, 111u8];
    assert(n@ =~= spec_name_buildinfo());
    n
}

fn name_status() -> (n: [u8; 6])
    ensures
        n@ == spec_name_status(),
{
    let n = [115u8, 116u8, 97u8, 116u8, 117u8, 115u8];
    assert(n@ =~= spec_name_status());
    n
}

/// The identity parameters, in the order they are answered: `name`,
/// `version`, `buildinfo` and `status`.
pub open spec fn identity_names() -> Seq<Seq<u8>> {
    seq![spec_name_name(), spec_name_version(), spec_name_buildinfo(), spec_name_status()]
}

/// The identity descriptors: the three strings as UTF-8 pointers, `status`
/// as an integer.
pub open spec fn identity_descriptors() -> Seq<(Seq<u8>, u32)> {
    seq![
        (spec_name_name(), OSSL_PARAM::UTF8_PTR),
        (spec_name_version(), OSSL_PARAM::UTF8_PTR),
        (spec_name_buildinfo(), OSSL_PARAM::UTF8_PTR),
        (spec_name_status(), OSSL_PARAM::INTEGER),
    ]
}

/// How answering identity parameter `j` relates a cell before (`old`) and
/// after (`new`) to the answer `r`: the three strings are stored by
/// address, `status` is the integer one.
pub open spec fn identity_answered(p: Provider, j: int, old: OSSL_PARAM, new: OSSL_PARAM, r: bool) -> bool {
    if j == 0 {
        utf8_ptr_stored(old, new, p.spec_name(), r)
    } else if j == 1 {
        utf8_ptr_stored(old, new, p.spec_version(), r)
    } else if j == 2 {
        utf8_ptr_stored(old, new, p.spec_buildinfo(), r)
    } else {
        int_stored(old, new, 1, r)
    }
}

/// Whether a cell can take identity parameter `j`: a string pointer cell
/// for the strings, an `INTEGER` cell with null or exact storage for
/// `status`.
pub open spec fn identity_accepted(j: int, cell: OSSL_PARAM) -> bool {
    if j < 3 {
        cell.spec_data_type() == OSSL_PARAM::UTF8_PTR
    } else {
        cell.spec_data_type() == OSSL_PARAM::INTEGER && (cell.spec_data() is Null || cell.spec_data() is Int)
    }
}

/// Which of the first `count` identity parameters the array asks for at
/// position `k`, if any.
pub open spec fn requested(entries: Seq<OSSL_PARAM>, k: int, count: int) -> Option<int> {
    if 0 < count && find_named(entries, identity_names()[0]) == Some(k) {
        Some(0)
    } else if 1 < count && find_named(entries, identity_names()[1]) == Some(k) {
        Some(1)
    } else if 2 < count && find_named(entries, identity_names()[2]) == Some(k) {
        Some(2)
    } else if 3 < count && find_named(entries, identity_names()[3]) == Some(k) {
        Some(3)
    } else {
        None
    }
}

/// Whether `new` is `old` with the first `count` identity parameters
/// answered successfully where they are asked for, and nothing else changed.
pub open spec fn answered(p: Provider, old: Seq<OSSL_PARAM>, new: Seq<OSSL_PARAM>, count: int) -> bool {
    &&& new.len() == old.len()
    &&& forall|k: int|
        0 <= k < old.len() ==> match requested(old, k, count) {
            Some(j) => identity_answered(p, j, old[k], #[trigger] new[k], true),
            None => new[k] == old[k],
        }
}

/// Whether `new` is `old` after the first `i` identity parameters were
/// answered where they are asked for and parameter `i` was then refused by
/// the first cell that asks for it, nothing else having changed.
pub open spec fn refused_at(p: Provider, old: Seq<OSSL_PARAM>, new: Seq<OSSL_PARAM>, i: int) -> bool {
    &&& 0 <= i < 4
    &&& new.len() == old.len()
    &&& find_named(old, identity_names()[i]) matches Some(k) && !identity_accepted(i, old[k]) && identity_answered(
        p,
        i,
        old[k],
        new[k],
        false,
    ) && forall|m: int|
        0 <= m < old.len() && m != k ==> match requested(old, m, i) {
            Some(j) => identity_answered(p, j, old[m], #[trigger] new[m], true),
            None => new[m] == old[m],
        }
}

/// Whether a pointer slot points at exactly `text`.
pub open spec fn points_at(data: ParamData, text: Seq<u8>) -> bool {
    data matches ParamData::Pointer(Some(t)) && t@ == text
}

/// What an answered identity request holds, against the declared identity:
/// the first live cell named `name`, `version` or `buildinfo` that is a
/// UTF-8 pointer cell reports the length of the declared name, version or
/// build information respectively and, where it holds a pointer slot, points
/// at exactly those bytes; the first live `status` cell holding an integer
/// reads one.
pub proof fn law_identity_values(p: Provider, before: Seq<OSSL_PARAM>, after: Seq<OSSL_PARAM>, k: int)
    requires
        answered(p, before, after, 4),
    ensures
        find_named(before, seq![110u8, 97u8, 109u8, 101u8]) == Some(k) && before[k].spec_data_type()
            == OSSL_PARAM::UTF8_PTR ==> after[k].spec_return_size() == p.spec_name().len() && (before[k].spec_data() is Pointer
            ==> points_at(after[k].spec_data(), p.spec_name())),
        find_named(before, seq![118u8, 101u8, 114u8, 115u8, 105u8, 111u8, 110u8]) == Some(k)
            && before[k].spec_data_type() == OSSL_PARAM::UTF8_PTR ==> after[k].spec_return_size()
            == p.spec_version().len() && (before[k].spec_data() is Pointer ==> points_at(after[k].spec_data(), p.spec_version())),
        find_named(before, seq![98u8, 117u8, 105u8, 108u8, 100u8, 105u8, 110u8, 102u8, 111u8]) == Some(k)
            && before[k].spec_data_type() == OSSL_PARAM::UTF8_PTR ==> after[k].spec_return_size()
            == p.spec_buildinfo().len() && (before[k].spec_data() is Pointer ==> points_at(after[k].spec_data(), p.spec_buildinfo())),
        find_named(before, seq![115u8, 116u8, 97u8, 116u8, 117u8, 115u8]) == Some(k) && before[k].spec_data_type()
            == OSSL_PARAM::INTEGER && before[k].spec_data() is Int ==> after[k].spec_data() == ParamData::Int(1)
            && after[k].spec_return_size() == 4,
{
    let names = identity_names();
    lemma_find_named_found(before, names[0]);
    lemma_find_named_found(before, names[1]);
    lemma_find_named_found(before, names[2]);
    lemma_find_named_found(before, names[3]);
    assert(names[0] =~= seq![110u8, 97u8, 109u8, 101u8]);
    assert(names[1] =~= seq![118u8, 101u8, 114u8, 115u8, 105u8, 111u8, 110u8]);
    assert(names[2] =~= seq![98u8, 117u8, 105u8, 108u8, 100u8, 105u8, 110u8, 102u8, 111u8]);
    assert(names[3] =~= seq![115u8, 116u8, 97u8, 116u8, 117u8, 115u8]);
    lemma_names_distinct();
}

/// Whether every identity parameter the array asks for can be answered.
pub open spec fn all_accepted(entries: Seq<OSSL_PARAM>) -> bool {
    forall|j: int|
        0 <= j < 4 ==> match #[trigger] find_named(entries, identity_names()[j]) {
            Some(k) => identity_accepted(j, entries[k]),
            None => true,
        }
}

/// Whether an algorithm table ends with its terminator.
pub open spec fn terminated(table: Seq<OSSL_ALGORITHM>) -> bool {
    table.len() > 0 && table.last().spec_names() is None
}

impl Provider {
    #[verifier::type_invariant]
    spec fn inv(&self) -> bool {
        terminated(self.desc.digests@)
    }

    /// The declared name.
    pub closed spec fn spec_name(&self) -> Seq<u8> {
        self.desc.name@
    }

    /// The declared version.
    pub closed spec fn spec_version(&self) -> Seq<u8> {
        self.desc.version@
    }

    /// The declared build information.
    pub closed spec fn spec_buildinfo(&self) -> Seq<u8> {
        self.desc.buildinfo@
    }

    /// The digest algorithm table.
    pub closed spec fn spec_digests(&self) -> Seq<OSSL_ALGORITHM> {
        self.desc.digests@
    }

    /// A provider serving what `desc` declares. The algorithm table must end
    /// with [`OSSL_ALGORITHM::end`], so that the core never reads past it.
    pub fn from_desc(desc: ProviderDesc) -> (p: Self)
        requires
            terminated(desc.digests@),
        ensures
            p.spec_name() == desc.name@,
            p.spec_version() == desc.version@,
            p.spec_buildinfo() == desc.buildinfo@,
            p.spec_digests() == desc.digests@,
    {
        Provider { desc }
    }

    /// `OSSL_FUNC_provider_query_operation`: the algorithm table for an
    /// operation id, or `None` (a null table) for an operation this provider
    /// does not implement.
    pub fn query_operation(&self, operation_id: i32) -> (r: Option<&[OSSL_ALGORITHM]>)
        ensures
            operation_id == OSSL_DISPATCH::OSSL_OP_DIGEST ==> (r matches Some(t) && t@ == self.spec_digests()
                && terminated(t@)),
            operation_id != OSSL_DISPATCH::OSSL_OP_DIGEST ==> r is None,
    {
        proof {
            use_type_invariant(self);
        }
        if operation_id == OSSL_DISPATCH::OSSL_OP_DIGEST {
            Some(self.desc.digests.as_slice())
        } else {
            None
        }
    }

    /// `OSSL_FUNC_provider_gettable_params`: `name`, `version` and
    /// `buildinfo` as string pointers, `status` as an integer.
    pub fn gettable_params() -> (t: ParamTable)
        ensures
            lists_descriptors(t.spec_entries(), identity_descriptors()),
    {
        let mut entries: Vec<OSSL_PARAM> = Vec::new();
        entries.push(OSSL_PARAM::defn(&name_name(), OSSL_PARAM::UTF8_PTR));
        entries.push(OSSL_PARAM::defn(&name_version(), OSSL_PARAM::UTF8_PTR));
        entries.push(OSSL_PARAM::defn(&name_buildinfo(), OSSL_PARAM::UTF8_PTR));
        entries.push(OSSL_PARAM::defn(&name_status(), OSSL_PARAM::INTEGER));
        entries.push(OSSL_PARAM::end());
        let ghost listed = entries@;
        match ParamTable::new(entries) {
            Some(t) => {
                assert(lists_descriptors(listed, identity_descriptors()));
                t
            },
            None => {
                assert(false);
                ParamTable::empty()
            },
        }
    }

    /// Answers identity parameter `j` in one cell.
    fn answer(&self, j: usize, cell: &mut OSSL_PARAM) -> (r: bool)
        requires
            j < 4,
        ensures
            identity_answered(*self, j as int, *old(cell), *final(cell), r),
            r == identity_accepted(j as int, *old(cell)),
    {
        if j == 0 {
            cell.store_utf8_ptr(self.desc.name.as_slice())
        } else if j == 1 {
            cell.store_utf8_ptr(self.desc.version.as_slice())
        } else if j == 2 {
            cell.store_utf8_ptr(self.desc.buildinfo.as_slice())
        } else {
            cell.store_int(1)
        }
    }

    /// `OSSL_FUNC_provider_get_params`: answers the identity parameters the
    /// array asks for, in the order of [`identity_names`]. A null array
    /// succeeds; the call fails at the first requested cell that cannot
    /// take its value. Cells nobody asked for are never touched.
    pub fn get_params(&self, params: Option<&mut [OSSL_PARAM]>) -> (r: i32)
        ensures
            r == 0 || r == 1,
            params is None ==> r == 1,
            params is Some ==> {
                let before = old(params->0)@;
                let after = final(params->0)@;
                &&& (r == 1) == all_accepted(before)
                &&& r == 1 ==> answered(*self, before, after, 4)
                &&& r == 0 ==> exists|i: int| refused_at(*self, before, after, i)
                &&& after.len() == before.len()
                &&& forall|k: int|
                    0 <= k < before.len() && requested(before, k, 4) is None ==> #[trigger] after[k] == before[k]
            },
    {
        match params {
            Some(entries) => self.answer_all(entries),
            None => 1,
        }
    }

    /// Answers every identity parameter `entries` asks for; see
    /// [`get_params`](Self::get_params).
    fn answer_all(&self, entries: &mut [OSSL_PARAM]) -> (r: i32)
        ensures
            r == 0 || r == 1,
            (r == 1) == all_accepted(old(entries)@),
            r == 1 ==> answered(*self, old(entries)@, final(entries)@, 4),
            r == 0 ==> exists|i: int| refused_at(*self, old(entries)@, final(entries)@, i),
            final(entries)@.len() == old(entries)@.len(),
            forall|k: int|
                0 <= k < old(entries)@.len() && requested(old(entries)@, k, 4) is None
                    ==> #[trigger] final(entries)@[k] == old(entries)@[k],
    {
        let ghost before = entries@;
        let table = Self::gettable_params();
        let descriptors = table.entries();
        assert(descriptors@[0].spec_key() == Some(identity_descriptors()[0].0));
        assert(descriptors@[1].spec_key() == Some(identity_descriptors()[1].0));
        assert(descriptors@[2].spec_key() == Some(identity_descriptors()[2].0));
        assert(descriptors@[3].spec_key() == Some(identity_descriptors()[3].0));
        let mut i: usize = 0;
        while i < 4
            invariant
                0 <= i <= 4,
                before == old(entries)@,
                descriptors@ == table.spec_entries(),
                descriptors@.len() == 5,
                descriptors@[0].spec_key() == Some(spec_name_name()),
                descriptors@[1].spec_key() == Some(spec_name_version()),
                descriptors@[2].spec_key() == Some(spec_name_buildinfo()),
                descriptors@[3].spec_key() == Some(spec_name_status()),
                entries@.len() == before.len(),
                forall|k: int| 0 <= k < before.len() ==> (#[trigger] entries@[k]).spec_key() == before[k].spec_key(),
                answered(*self, before, entries@, i as int),
                forall|j: int|
                    0 <= j < i ==> match #[trigger] find_named(before, identity_names()[j]) {
                        Some(k) => identity_accepted(j, before[k]),
                        None => true,
                    },
            decreases 4 - i,
        {
            let name = match descriptors[i].key() {
                Some(name) => name,
                None => {
                    assert(false);
                    return 0;
                },
            };
            assert(name@ == identity_names()[i as int]);
            proof {
                lemma_find_named_same_keys(entries@, before, name@);
                lemma_find_named_found(before, name@);
                lemma_names_distinct();
            }
            match position_named(entries, name) {
                Some(k) => {
                    let ghost current = entries@;
                    let ok = self.answer(i, &mut entries[k]);
                    if !ok {
                        proof {
                            assert(!all_accepted(before)) by {
                                assert(find_named(before, identity_names()[i as int]) == Some(k as int));
                            }
                            assert forall|m: int| 0 <= m < before.len() && requested(before, m, 4) is None implies #[trigger] entries@[m] == before[m] by {
                                assert(requested(before, m, i as int) is None);
                                assert(current[m] == before[m]);
                            }
                            assert(find_named(before, identity_names()[i as int]) == Some(k as int));
                            assert(requested(before, k as int, i as int) is None);
                            assert(current[k as int] == before[k as int]);
                            assert forall|m: int| 0 <= m < before.len() && m != k implies match requested(before, m, i as int) {
                                Some(j) => identity_answered(*self, j, before[m], #[trigger] entries@[m], true),
                                None => entries@[m] == before[m],
                            } by {
                                assert(entries@[m] == current[m]);
                            }
                            assert(refused_at(*self, before, entries@, i as int));
                        }
                        return 0;
                    }
                    proof {
                        assert forall|m: int| 0 <= m < before.len() implies match requested(before, m, i + 1) {
                            Some(j) => identity_answered(*self, j, before[m], #[trigger] entries@[m], true),
                            None => entries@[m] == before[m],
                        } by {
                            if m != k {
                                assert(entries@[m] == current[m]);
                            } else {
                                assert(requested(before, m, i as int) is None);
                                assert(current[m] == before[m]);
                            }
                        }
                    }
                },
                None => {
                    proof {
                        assert forall|m: int| 0 <= m < before.len() implies match requested(before, m, i + 1) {
                            Some(j) => identity_answered(*self, j, before[m], #[trigger] entries@[m], true),
                            None => entries@[m] == before[m],
                        } by {
                            assert(requested(before, m, i + 1) == requested(before, m, i as int));
                        }
                    }
                },
            }
            i += 1;
        }
        proof {
            assert forall|k: int| 0 <= k < before.len() && requested(before, k, 4) is None implies #[trigger] entries@[k] == before[k] by {
            }
        }
        1
    }
}

/// The identity parameter names differ from one another.
proof fn lemma_names_distinct()
    ensures
        forall|a: int, b: int|
            0 <= a < 4 && 0 <= b < 4 && a != b ==> #[trigger] identity_names()[a] != #[trigger] identity_names()[b],
{
    assert(spec_name_name().len() == 4);
    assert(spec_name_version().len() == 7);
    assert(spec_name_buildinfo().len() == 9);
    assert(spec_name_status().len() == 6);
}

} // verus!
