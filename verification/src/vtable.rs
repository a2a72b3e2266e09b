//! Method-presence metadata for provider operation traits.
//!
//! The `#[vtable]` attribute is applied to a trait and to each of its
//! implementations. On the trait it declares a required `__VTABLE` marker and
//! a `HAS_<METHOD> = false` default for every method; on an implementation it
//! defines the marker and a `HAS_<METHOD> = true` override for every method
//! written there. This module decides what the attribute generates from the
//! shape of the annotated item; turning syntax into [`VtableItem`] and the
//! decision back into syntax is left to the macro front end.

use vstd::prelude::*;
use vstd::string::*;

verus! {

broadcast use vstd::string::group_string_axioms;

/// An attribute on a member, as far as the presence metadata reads it.
#[derive(Debug)]
pub struct Attr {
    /// The identifier the attribute's path consists of, as written, when the
    /// path is a single plain identifier (`cfg`, `doc`, ...); `None` for
    /// longer or qualified paths.
    pub path_ident: Option<String>,
}

/// A method of a trait or implementation.
#[derive(Debug)]
pub struct Method {
    /// The method's identifier as written (`r#type` keeps its `r#`).
    pub name: String,
    /// The method's outer attributes, in order.
    pub attrs: Vec<Attr>,
}

/// A member of a trait or implementation.
#[derive(Debug)]
pub enum Member {
    /// A method.
    Method(Method),
    /// An associated constant, with its identifier as written.
    Const(String),
    /// A macro invocation, with the last segment of the macro's path.
    Macro(Option<String>),
    /// Anything else (types, other items).
    Other,
}

/// The item the attribute is applied to.
#[derive(Debug)]
pub enum VtableItem {
    /// A trait with its members.
    Trait(Vec<Member>),
    /// An `impl` block; `of_trait` tells a trait implementation from an
    /// inherent one.
    Impl { of_trait: bool, members: Vec<Member> },
    /// Any other item.
    Other,
}

/// A generated presence constant.
#[derive(Debug)]
pub struct Presence {
    /// The constant's name, `HAS_` followed by the method's name uppercased.
    pub name: String,
    /// The position of the method among the item's members.
    pub member: usize,
    /// The positions of the method's configuration attributes (`cfg`,
    /// `cfg_attr`), which the constant carries too.
    pub cfg: Vec<usize>,
}

/// What the attribute adds to the annotated item.
#[derive(Debug)]
pub enum Expansion {
    /// On a trait: the declared `__VTABLE: ()` marker and, per method, a
    /// hidden `HAS_<METHOD>: bool = false` default.
    Trait { presence: Vec<Presence> },
    /// On a trait implementation: the `__VTABLE = ()` marker and, per method,
    /// `HAS_<METHOD> = true`; the cooperating parameter macros at `tagged`
    /// receive an `@vtable` prefix so that they emit their own constants.
    Impl { presence: Vec<Presence>, tagged: Vec<usize> },
}

/// Why the attribute refused an item.
#[derive(Clone, Copy, Debug, PartialEq, Eq, Structural)]
pub enum VtableError {
    /// The attribute was given arguments.
    Arguments,
    /// The item is neither a trait nor a trait implementation.
    NotTraitOrImpl,
    /// The member at this position writes generated metadata by hand.
    GeneratedOverride(usize),
    /// The member at this position is a macro that does not cooperate.
    UnsupportedMacro(usize),
}

/// Names what `str::to_uppercase` returns for a text.
pub uninterp spec fn uppercase(text: Seq<char>) -> Seq<char>;

/// Uppercases a text with `str::to_uppercase`, which applies Unicode's
/// uppercase mapping; its result is taken as [`uppercase`] of the text.
#[verifier::external_body]
fn to_uppercase(text: &str) -> (r: String)
    ensures
        r@ == uppercase(text@),
{
    text.to_uppercase()
}

/// `cfg`.
pub open spec fn cfg_text() -> Seq<char> {
    seq!['c', 'f', 'g']
}

/// `cfg_attr`.
pub open spec fn cfg_attr_text() -> Seq<char> {
    seq!['c', 'f', 'g', '_', 'a', 't', 't', 'r']
}

/// `__VTABLE`, the marker constant's name.
pub open spec fn marker_text() -> Seq<char> {
    seq!['_', '_', 'V', 'T', 'A', 'B', 'L', 'E']
}

/// `HAS_`, the prefix of every presence constant.
pub open spec fn presence_prefix() -> Seq<char> {
    seq!['H', 'A', 'S', '_']
}

/// The names of the parameter macros that emit their own presence constants.
pub open spec fn is_cooperating_macro(name: Seq<char>) -> bool {
    ||| name == seq!['g', 'e', 't', 't', 'a', 'b', 'l', 'e', '_', 'p', 'a', 'r', 'a', 'm', 's']
    ||| name == seq![
        's', 'e', 't', 't', 'a', 'b', 'l', 'e', '_', 'c', 't', 'x', '_', 'p', 'a', 'r', 'a', 'm', 's',
    ]
    ||| name == seq![
        'g', 'e', 't', 't', 'a', 'b', 'l', 'e', '_', 'c', 't', 'x', '_', 'p', 'a', 'r', 'a', 'm', 's',
    ]
}

/// An identifier without its raw `r#` prefix.
pub open spec fn unraw(name: Seq<char>) -> Seq<char> {
    if name.len() >= 2 && name[0] == 'r' && name[1] == '#' {
        name.skip(2)
    } else {
        name
    }
}

/// The presence constant's name for a method named `name`.
pub open spec fn presence_name(name: Seq<char>) -> Seq<char> {
    presence_prefix() + uppercase(unraw(name))
}

/// Whether an attribute is a configuration attribute (`cfg` or `cfg_attr`).
pub open spec fn is_configuration(attr: Attr) -> bool {
    match attr.path_ident {
        Some(ident) => ident@ == cfg_text() || ident@ == cfg_attr_text(),
        None => false,
    }
}

/// The positions of the configuration attributes among `attrs`, in order.
pub open spec fn configuration(attrs: Seq<Attr>) -> Seq<usize>
    decreases attrs.len(),
{
    if attrs.len() == 0 {
        seq![]
    } else {
        let rest = configuration(attrs.drop_last());
        if is_configuration(attrs.last()) {
            rest.push((attrs.len() - 1) as usize)
        } else {
            rest
        }
    }
}

/// The positions of the methods among `members`, in order.
pub open spec fn method_positions(members: Seq<Member>) -> Seq<usize>
    decreases members.len(),
{
    if members.len() == 0 {
        seq![]
    } else {
        let rest = method_positions(members.drop_last());
        if members.last() is Method {
            rest.push((members.len() - 1) as usize)
        } else {
            rest
        }
    }
}

/// Every position `method_positions` lists lies inside `members`.
pub proof fn lemma_method_positions_in_range(members: Seq<Member>)
    ensures
        forall|j: int|
            0 <= j < method_positions(members).len() ==> #[trigger] method_positions(members)[j]
                < members.len(),
    decreases members.len(),
{
    if members.len() > 0 {
        let rest = members.drop_last();
        lemma_method_positions_in_range(rest);
        assert forall|j: int| 0 <= j < method_positions(members).len() implies #[trigger] method_positions(members)[j]
            < members.len() by {
            if j < method_positions(rest).len() {
                assert(method_positions(members)[j] == method_positions(rest)[j]);
            }
        }
    }
}

/// Appending a member that is not a method keeps a description.
proof fn lemma_describes_push_other(presence: Seq<Presence>, before: Seq<Member>, member: Member)
    requires
        describes_methods(presence, before),
        !(member is Method),
    ensures
        describes_methods(presence, before.push(member)),
{
    let after = before.push(member);
    assert(after.drop_last() =~= before);
    lemma_method_positions_in_range(before);
    assert forall|j: int| 0 <= j < presence.len() implies {
        let k = method_positions(after)[j];
        &&& #[trigger] presence[j].member == k
        &&& after[k as int] matches Member::Method(m) && presence[j].name@ == presence_name(m.name@)
            && presence[j].cfg@ == configuration(m.attrs@)
    } by {
        let k = method_positions(before)[j];
        assert(presence[j].member == k);
        assert(after[k as int] == before[k as int]);
    }
}

/// Appending a method and its presence constant keeps a description.
proof fn lemma_describes_push_method(
    presence: Seq<Presence>,
    before: Seq<Member>,
    member: Member,
    added: Presence,
)
    requires
        describes_methods(presence, before),
        member matches Member::Method(m) && added.name@ == presence_name(m.name@) && added.cfg@
            == configuration(m.attrs@),
        added.member == before.len(),
    ensures
        describes_methods(presence.push(added), before.push(member)),
{
    let after = before.push(member);
    let grown = presence.push(added);
    assert(after.drop_last() =~= before);
    lemma_method_positions_in_range(before);
    assert forall|j: int| 0 <= j < grown.len() implies {
        let k = method_positions(after)[j];
        &&& #[trigger] grown[j].member == k
        &&& after[k as int] matches Member::Method(m) && grown[j].name@ == presence_name(m.name@)
            && grown[j].cfg@ == configuration(m.attrs@)
    } by {
        if j < presence.len() {
            let k = method_positions(before)[j];
            assert(presence[j].member == k);
            assert(after[k as int] == before[k as int]);
        }
    }
}

/// The positions of the macro invocations among `members`, in order.
pub open spec fn macro_positions(members: Seq<Member>) -> Seq<usize>
    decreases members.len(),
{
    if members.len() == 0 {
        seq![]
    } else {
        let rest = macro_positions(members.drop_last());
        if members.last() is Macro {
            rest.push((members.len() - 1) as usize)
        } else {
            rest
        }
    }
}

/// Whether `presence` is exactly the presence constants of the methods among
/// `members`: one per method, in order, named after it and carrying its
/// configuration attributes.
pub open spec fn describes_methods(presence: Seq<Presence>, members: Seq<Member>) -> bool {
    let positions = method_positions(members);
    &&& presence.len() == positions.len()
    &&& forall|i: int|
        0 <= i < presence.len() ==> {
            let k = positions[i];
            &&& #[trigger] presence[i].member == k
            &&& members[k as int] matches Member::Method(m) && presence[i].name@ == presence_name(m.name@)
                && presence[i].cfg@ == configuration(m.attrs@)
        }
}

/// Whether an implementation member is refused: a handwritten `__VTABLE` or
/// `HAS_*` constant, or a macro other than the cooperating parameter macros.
pub open spec fn is_offending(member: Member) -> bool {
    match member {
        Member::Const(name) => name@ == marker_text() || (presence_prefix().len() <= name@.len()
            && name@.take(presence_prefix().len() as int) == presence_prefix()),
        Member::Macro(last) => match last {
            Some(name) => !is_cooperating_macro(name@),
            None => true,
        },
        _ => false,
    }
}

/// The position of the first refused member, if any.
pub open spec fn first_offending(members: Seq<Member>) -> Option<int>
    decreases members.len(),
{
    if members.len() == 0 {
        None
    } else {
        match first_offending(members.drop_last()) {
            Some(i) => Some(i),
            None => if is_offending(members.last()) {
                Some(members.len() - 1)
            } else {
                None
            },
        }
    }
}

/// A refusal in a prefix of the members stays the first refusal of every
/// longer prefix.
pub proof fn lemma_first_offending_prefix(members: Seq<Member>, m: int, n: int)
    requires
        0 <= m <= n <= members.len(),
        first_offending(members.take(m)) is Some,
    ensures
        first_offending(members.take(n)) == first_offending(members.take(m)),
    decreases n - m,
{
    if m < n {
        lemma_first_offending_prefix(members, m, n - 1);
        assert(members.take(n).drop_last() =~= members.take(n - 1));
    }
}

/// An implementation holding a refused member is refused, at that member
/// or at an earlier one.
pub proof fn law_refused_member_refuses_impl(members: Seq<Member>, k: int)
    requires
        0 <= k < members.len(),
        is_offending(members[k]),
    ensures
        first_offending(members) matches Some(i) && 0 <= i <= k && is_offending(members[i]),
    decreases members.len(),
{
    let rest = members.drop_last();
    if k < members.len() - 1 {
        law_refused_member_refuses_impl(rest, k);
        assert(rest[k] == members[k]);
        let i = first_offending(rest)->0;
        assert(rest[i] == members[i]);
    } else {
        match first_offending(rest) {
            Some(i) => {
                lemma_first_offending_in_range(rest);
                assert(rest[i] == members[i]);
            },
            None => {},
        }
    }
}

/// A first refusal lies inside the members and is refused.
pub proof fn lemma_first_offending_in_range(members: Seq<Member>)
    ensures
        first_offending(members) matches Some(i) ==> 0 <= i < members.len() && is_offending(members[i]),
    decreases members.len(),
{
    if members.len() > 0 {
        let rest = members.drop_last();
        lemma_first_offending_in_range(rest);
        if let Some(i) = first_offending(rest) {
            assert(rest[i] == members[i]);
        }
    }
}

/// A method keeps its constant's name between a trait and an
/// implementation: the implementation's `true` overrides the trait's
/// `false` default of the same name.
pub proof fn law_impl_presence_matches_trait_default(
    trait_presence: Seq<Presence>,
    trait_members: Seq<Member>,
    impl_presence: Seq<Presence>,
    impl_members: Seq<Member>,
    i: int,
    j: int,
)
    requires
        describes_methods(trait_presence, trait_members),
        describes_methods(impl_presence, impl_members),
        0 <= i < trait_presence.len(),
        0 <= j < impl_presence.len(),
        trait_members[trait_presence[i].member as int] matches Member::Method(a)
            && impl_members[impl_presence[j].member as int] matches Member::Method(b) && a.name@ == b.name@,
    ensures
        trait_presence[i].name@ == impl_presence[j].name@,
{
    assert(trait_presence[i].member == method_positions(trait_members)[i]);
    assert(impl_presence[j].member == method_positions(impl_members)[j]);
}

/// A raw identifier gets the constant of the plain identifier it spells.
pub proof fn law_raw_identifier_presence(name: Seq<char>)
    requires
        !(name.len() >= 2 && name[0] == 'r' && name[1] == '#'),
    ensures
        presence_name(seq!['r', '#'] + name) == presence_name(name),
{
    assert((seq!['r', '#'] + name).skip(2) =~= name);
}

/// The three parameter macros by the last segment of their path:
/// `gettable_params`, `settable_ctx_params` and `gettable_ctx_params`.
pub open spec fn parameter_macro_names() -> Set<Seq<char>> {
    set![
        seq!['g', 'e', 't', 't', 'a', 'b', 'l', 'e', '_', 'p', 'a', 'r', 'a', 'm', 's'],
        seq!['s', 'e', 't', 't', 'a', 'b', 'l', 'e', '_', 'c', 't', 'x', '_', 'p', 'a', 'r', 'a', 'm', 's'],
        seq!['g', 'e', 't', 't', 'a', 'b', 'l', 'e', '_', 'c', 't', 'x', '_', 'p', 'a', 'r', 'a', 'm', 's'],
    ]
}

/// Whether a member is a method, a non-constant item or one of the three
/// parameter macros.
pub open spec fn plain_or_parameter_macro(member: Member) -> bool {
    match member {
        Member::Method(_) => true,
        Member::Other => true,
        Member::Macro(Some(name)) => parameter_macro_names().contains(name@),
        _ => false,
    }
}

/// A macro member of an implementation is refused exactly when its path has
/// no last segment or that segment names none of the three parameter macros.
pub proof fn law_macro_refused_unless_parameter_macro(last: Option<String>)
    ensures
        is_offending(Member::Macro(last)) <==> !(last matches Some(name) && parameter_macro_names().contains(name@)),
{
}

/// No member refused means no first refusal.
proof fn lemma_no_offending(members: Seq<Member>)
    requires
        forall|i: int| 0 <= i < members.len() ==> !is_offending(#[trigger] members[i]),
    ensures
        first_offending(members) is None,
    decreases members.len(),
{
    if members.len() > 0 {
        let rest = members.drop_last();
        assert forall|i: int| 0 <= i < rest.len() implies !is_offending(#[trigger] rest[i]) by {
            assert(rest[i] == members[i]);
        }
        lemma_no_offending(rest);
    }
}

/// A trait implementation made of methods, non-constant items and the three
/// parameter macros expands, every macro member tagged.
pub proof fn law_parameter_macros_expand(item: VtableItem, r: Result<Expansion, VtableError>)
    requires
        expands_to(item, r),
        item matches VtableItem::Impl { of_trait, members } && of_trait && forall|i: int|
            0 <= i < members@.len() ==> plain_or_parameter_macro(#[trigger] members@[i]),
    ensures
        item matches VtableItem::Impl { members, .. } && r matches Ok(Expansion::Impl { tagged, .. }) && tagged@
            == macro_positions(members@),
{
    if let VtableItem::Impl { members, .. } = item {
        assert forall|i: int| 0 <= i < members@.len() implies !is_offending(#[trigger] members@[i]) by {
            assert(plain_or_parameter_macro(members@[i]));
        }
        lemma_no_offending(members@);
    }
}

/// The error for a refused member.
pub open spec fn offense(members: Seq<Member>, i: int) -> VtableError {
    if members[i] is Const {
        VtableError::GeneratedOverride(i as usize)
    } else {
        VtableError::UnsupportedMacro(i as usize)
    }
}

/// What the attribute makes of an item, as a relation between the item and
/// the outcome.
pub open spec fn expands_to(item: VtableItem, r: Result<Expansion, VtableError>) -> bool {
    match item {
        VtableItem::Trait(members) => r matches Ok(Expansion::Trait { presence })
            && describes_methods(presence@, members@),
        VtableItem::Impl { of_trait, members } => if !of_trait {
            r == Err::<Expansion, VtableError>(VtableError::NotTraitOrImpl)
        } else {
            match first_offending(members@) {
                Some(i) => r == Err::<Expansion, VtableError>(offense(members@, i)),
                None => r matches Ok(Expansion::Impl { presence, tagged })
                    && describes_methods(presence@, members@) && tagged@ == macro_positions(
                    members@,
                ),
            }
        },
        VtableItem::Other => r == Err::<Expansion, VtableError>(VtableError::NotTraitOrImpl),
    }
}

/// The characters of a text.
fn chars_of(text: &str) -> (r: Vec<char>)
    ensures
        r@ == text@,
{
    let mut chars: Vec<char> = Vec::new();
    for c in it: text.chars()
        invariant
            chars@ == it.seq().take(it.index() as int),
    {
        chars.push(c);
    }
    chars
}

/// Whether two character sequences are equal.
fn same_chars(a: &[char], b: &[char]) -> (r: bool)
    ensures
        r == (a@ == b@),
{
    if a.len() != b.len() {
        return false;
    }
    let mut i: usize = 0;
    while i < a.len()
        invariant
            a@.len() == b@.len(),
            i <= a@.len(),
            a@.take(i as int) == b@.take(i as int),
        decreases a@.len() - i,
    {
        if a[i] != b[i] {
            assert(a@[i as int] != b@[i as int]);
            return false;
        }
        assert(a@.take(i + 1) =~= a@.take(i as int).push(a@[i as int]));
        assert(b@.take(i + 1) =~= b@.take(i as int).push(b@[i as int]));
        i += 1;
    }
    assert(a@ =~= a@.take(i as int));
    assert(b@ =~= b@.take(i as int));
    true
}

/// Whether `text` begins with `prefix`.
fn has_prefix(text: &[char], prefix: &[char]) -> (r: bool)
    ensures
        r == (prefix@.len() <= text@.len() && text@.take(prefix@.len() as int) == prefix@),
{
    if prefix.len() > text.len() {
        return false;
    }
    let mut head: Vec<char> = Vec::new();
    while head.len() < prefix.len()
        invariant
            prefix@.len() <= text@.len(),
            head@.len() <= prefix@.len(),
            head@ == text@.take(head@.len() as int),
        decreases prefix@.len() - head@.len(),
    {
        let i = head.len();
        head.push(text[i]);
        assert(head@ =~= text@.take(i + 1));
    }
    same_chars(head.as_slice(), prefix)
}

/// Whether `text` is `ident` exactly.
fn is_text(text: &String, ident: &[char]) -> (r: bool)
    ensures
        r == (text@ == ident@),
{
    let chars = chars_of(text.as_str());
    same_chars(chars.as_slice(), ident)
}

/// An identifier without its raw `r#` prefix.
pub fn unraw_name(name: &str) -> (r: String)
    ensures
        r@ == unraw(name@),
{
    let chars = chars_of(name);
    if chars.len() >= 2 && chars[0] == 'r' && chars[1] == '#' {
        name.substring_char(2, chars.len()).to_owned()
    } else {
        name.to_owned()
    }
}

/// The presence constant's name for a method whose name uppercases to
/// `uppercased`.
pub fn presence_name_of(uppercased: &str) -> (r: String)
    ensures
        r@ == presence_prefix() + uppercased@,
{
    let mut name = String::from_str("HAS_");
    proof {
        reveal_strlit("HAS_");
        assert("HAS_"@ =~= presence_prefix());
    }
    name.append(uppercased);
    name
}

/// The presence constant's name for a method named `name`.
pub fn method_presence_name(name: &str) -> (r: String)
    ensures
        r@ == presence_name(name@),
{
    let bare = unraw_name(name);
    let upper = to_uppercase(bare.as_str());
    presence_name_of(upper.as_str())
}

/// The positions of the configuration attributes among `attrs`.
pub fn configuration_of(attrs: &[Attr]) -> (r: Vec<usize>)
    ensures
        r@ == configuration(attrs@),
{
    let cfg = ['c', 'f', 'g'];
    let cfg_attr = ['c', 'f', 'g', '_', 'a', 't', 't', 'r'];
    proof {
        assert(cfg@ =~= cfg_text());
        assert(cfg_attr@ =~= cfg_attr_text());
    }
    let mut found: Vec<usize> = Vec::new();
    let mut i: usize = 0;
    while i < attrs.len()
        invariant
            i <= attrs@.len(),
            cfg@ == cfg_text(),
            cfg_attr@ == cfg_attr_text(),
            found@ == configuration(attrs@.take(i as int)),
        decreases attrs@.len() - i,
    {
        proof {
            assert(attrs@.take(i + 1).drop_last() =~= attrs@.take(i as int));
        }
        let selected = match &attrs[i].path_ident {
            Some(ident) => is_text(ident, &cfg) || is_text(ident, &cfg_attr),
            None => false,
        };
        if selected {
            found.push(i);
        }
        i += 1;
    }
    assert(attrs@ =~= attrs@.take(i as int));
    found
}

/// The presence constants of the methods among `members`.
fn presence_of(members: &[Member]) -> (r: Vec<Presence>)
    ensures
        describes_methods(r@, members@),
{
    let mut presence: Vec<Presence> = Vec::new();
    let mut i: usize = 0;
    while i < members.len()
        invariant
            i <= members@.len(),
            describes_methods(presence@, members@.take(i as int)),
        decreases members@.len() - i,
    {
        let ghost before = members@.take(i as int);
        proof {
            assert(members@.take(i + 1) =~= before.push(members@[i as int]));
        }
        match &members[i] {
            Member::Method(method) => {
                let name = method_presence_name(method.name.as_str());
                let cfg = configuration_of(method.attrs.as_slice());
                let added = Presence { name, member: i, cfg };
                proof {
                    lemma_describes_push_method(presence@, before, members@[i as int], added);
                }
                presence.push(added);
            },
            _ => {
                proof {
                    lemma_describes_push_other(presence@, before, members@[i as int]);
                }
            },
        }
        i += 1;
    }
    assert(members@ =~= members@.take(i as int));
    presence
}

/// The positions of the macro invocations among `members`.
fn macros_of(members: &[Member]) -> (r: Vec<usize>)
    ensures
        r@ == macro_positions(members@),
{
    let mut found: Vec<usize> = Vec::new();
    let mut i: usize = 0;
    while i < members.len()
        invariant
            i <= members@.len(),
            found@ == macro_positions(members@.take(i as int)),
        decreases members@.len() - i,
    {
        proof {
            assert(members@.take(i + 1).drop_last() =~= members@.take(i as int));
        }
        if let Member::Macro(_) = &members[i] {
            found.push(i);
        }
        i += 1;
    }
    assert(members@ =~= members@.take(i as int));
    found
}

/// Whether a macro name is one of the cooperating parameter macros.
fn is_cooperating(name: &String) -> (r: bool)
    ensures
        r == is_cooperating_macro(name@),
{
    let gettable = ['g', 'e', 't', 't', 'a', 'b', 'l', 'e', '_', 'p', 'a', 'r', 'a', 'm', 's'];
    let settable_ctx = [
        's', 'e', 't', 't', 'a', 'b', 'l', 'e', '_', 'c', 't', 'x', '_', 'p', 'a', 'r', 'a', 'm', 's',
    ];
    let gettable_ctx = [
        'g', 'e', 't', 't', 'a', 'b', 'l', 'e', '_', 'c', 't', 'x', '_', 'p', 'a', 'r', 'a', 'm', 's',
    ];
    proof {
        assert(gettable@ =~= seq!['g', 'e', 't', 't', 'a', 'b', 'l', 'e', '_', 'p', 'a', 'r', 'a', 'm', 's']);
        assert(settable_ctx@ =~= seq![
            's', 'e', 't', 't', 'a', 'b', 'l', 'e', '_', 'c', 't', 'x', '_', 'p', 'a', 'r', 'a', 'm', 's',
        ]);
        assert(gettable_ctx@ =~= seq![
            'g', 'e', 't', 't', 'a', 'b', 'l', 'e', '_', 'c', 't', 'x', '_', 'p', 'a', 'r', 'a', 'm', 's',
        ]);
    }
    is_text(name, &gettable) || is_text(name, &settable_ctx) || is_text(name, &gettable_ctx)
}

/// Whether an implementation member is refused.
fn offending(member: &Member) -> (r: bool)
    ensures
        r == is_offending(*member),
{
    match member {
        Member::Const(name) => {
            let marker = ['_', '_', 'V', 'T', 'A', 'B', 'L', 'E'];
            let prefix = ['H', 'A', 'S', '_'];
            proof {
                assert(marker@ =~= marker_text());
                assert(prefix@ =~= presence_prefix());
            }
            let chars = chars_of(name.as_str());
            same_chars(chars.as_slice(), &marker) || has_prefix(chars.as_slice(), &prefix)
        },
        Member::Macro(last) => match last {
            Some(name) => !is_cooperating(name),
            None => true,
        },
        _ => false,
    }
}

/// Decides what the attribute generates for an item.
///
/// A trait gets a `false` default per method. A trait implementation gets a
/// `true` override per method it writes, and its cooperating parameter
/// macros are tagged; its first handwritten `__VTABLE`/`HAS_*` constant or
/// non-cooperating macro refuses it. Anything else is refused.
pub fn expand(item: &VtableItem) -> (r: Result<Expansion, VtableError>)
    ensures
        expands_to(*item, r),
{
    match item {
        VtableItem::Trait(members) => Ok(Expansion::Trait { presence: presence_of(members.as_slice()) }),
        VtableItem::Impl { of_trait, members } => {
            if !*of_trait {
                return Err(VtableError::NotTraitOrImpl);
            }
            let mut i: usize = 0;
            while i < members.len()
                invariant
                    *item matches VtableItem::Impl { of_trait: t, members: ms } && t && ms@ == members@,
                    i <= members@.len(),
                    first_offending(members@.take(i as int)) is None,
                decreases members@.len() - i,
            {
                proof {
                    assert(members@.take(i + 1).drop_last() =~= members@.take(i as int));
                }
                if offending(&members[i]) {
                    proof {
                        assert(members@.take(i + 1).last() == members@[i as int]);
                        assert(first_offending(members@.take(i + 1)) == Some(i as int));
                        lemma_first_offending_prefix(members@, i + 1, members@.len() as int);
                        assert(members@.take(members@.len() as int) =~= members@);
                    }
                    let refusal = match &members[i] {
                        Member::Const(_) => VtableError::GeneratedOverride(i),
                        _ => VtableError::UnsupportedMacro(i),
                    };
                    return Err(refusal);
                }
                i += 1;
            }
            assert(members@.take(i as int) =~= members@);
            Ok(Expansion::Impl { presence: presence_of(members.as_slice()), tagged: macros_of(members.as_slice()) })
        },
        VtableItem::Other => Err(VtableError::NotTraitOrImpl),
    }
}

/// The attribute's entry point: it takes no arguments, then expands the item.
pub fn vtable(has_arguments: bool, item: &VtableItem) -> (r: Result<Expansion, VtableError>)
    ensures
        has_arguments ==> r == Err::<Expansion, VtableError>(VtableError::Arguments),
        !has_arguments ==> expands_to(*item, r),
{
    if has_arguments {
        return Err(VtableError::Arguments);
    }
    expand(item)
}

} // verus!
