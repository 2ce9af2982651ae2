//! The engine itself: finding the filter among the annotations of a
//! declaration, filtering a declaration tree for one version, and making
//! one variant of a declaration for every version of a registry.

use vstd::prelude::*;
use crate::arguments::arguments_of_text;
use crate::arguments::parse_input;
use crate::error::ARGUMENTS;
use crate::error::Error;
use crate::error::ErrorView;
use crate::filter::FilterView;
use crate::filter::VersionFilter;
use crate::syntax::filter_of_text;
use crate::text::reads_as;
use crate::tree::attributes_of;
use crate::tree::items_of;
use crate::tree::members_of;
use crate::tree::variants_of;
use crate::tree::Attribute;
use crate::tree::AttributeView;
use crate::tree::BodyItem;
use crate::tree::Form;
use crate::tree::FormView;
use crate::tree::Header;
use crate::tree::HeaderView;
use crate::tree::ItemView;
use crate::tree::Member;
use crate::tree::MemberView;
use crate::tree::Variant;
use crate::tree::VariantView;
use crate::tree::Visibility;
use crate::tree::VisibilityView;
use crate::version::Version;
use crate::version::VersionList;

verus! {

/// The settings of one invocation.
#[derive(Clone, Copy, Debug, PartialEq, Eq, Structural)]
pub struct Options {
    /// Whether each variant is tagged with a build condition named after its
    /// version.
    pub features: bool,
    /// Whether a module at the top is wrapped like any other declaration,
    /// instead of taking the version's name itself.
    pub nest_toplevel_modules: bool,
}

impl Default for Options {
    fn default() -> (res: Options)
        ensures
            !res.features,
            !res.nest_toplevel_modules,
    {
        Options { features: false, nest_toplevel_modules: false }
    }
}

/// Whether the annotation is a filter: named `version`, with a list.
pub open spec fn is_filter(a: AttributeView) -> bool {
    a.path == "version"@ && a.form is List
}

/// The place of the first filter among the annotations at `from` and after,
/// or their number if there is none.
pub open spec fn filter_place(attrs: Seq<AttributeView>, from: int) -> int
    decreases attrs.len() - from,
{
    if from < 0 || from >= attrs.len() {
        attrs.len() as int
    } else if is_filter(attrs[from]) {
        from
    } else {
        filter_place(attrs, from + 1)
    }
}

/// The annotations without the first filter among them: all the others,
/// unchanged and in their order. A later filter is one of the others: it
/// is not honoured, and it stays.
pub open spec fn stripped(attrs: Seq<AttributeView>) -> Seq<AttributeView> {
    let i = filter_place(attrs, 0);
    if 0 <= i < attrs.len() {
        attrs.remove(i)
    } else {
        attrs
    }
}

/// The filter that the annotations hold: what the list of the first filter
/// among them spells, read under the handle of that annotation; nothing,
/// if none of them is a filter.
pub open spec fn annotation(attrs: Seq<AttributeView>) -> Result<Option<FilterView>, ErrorView> {
    let i = filter_place(attrs, 0);
    if i >= attrs.len() {
        Ok(None)
    } else {
        match filter_of_text(attrs[i].form->List_0, attrs[i].origin) {
            Ok(f) => Ok(Some(f)),
            Err(e) => Err(e),
        }
    }
}

/// The first filter is found at or after `from`, within the annotations,
/// and no annotation between `from` and it is a filter.
pub proof fn lemma_filter_place(attrs: Seq<AttributeView>, from: int)
    requires
        0 <= from <= attrs.len(),
    ensures
        from <= filter_place(attrs, from) <= attrs.len(),
        filter_place(attrs, from) < attrs.len() ==> is_filter(attrs[filter_place(attrs, from)]),
        forall|i: int| from <= i < filter_place(attrs, from) ==> !is_filter(attrs[i]),
    decreases attrs.len() - from,
{
    if from < attrs.len() && !is_filter(attrs[from]) {
        lemma_filter_place(attrs, from + 1);
    }
}

/// The place of the first filter among `attrs`, or their number if there
/// is none.
fn first_filter(attrs: &[Attribute]) -> (place: usize)
    ensures
        place == filter_place(attributes_of(attrs@), 0),
        place <= attrs@.len(),
{
    let ghost views = attributes_of(attrs@);
    let mut i: usize = 0;
    while i < attrs.len()
        invariant
            i <= attrs@.len(),
            views == attributes_of(attrs@),
            filter_place(views, 0) == filter_place(views, i as int),
        decreases attrs.len() - i,
    {
        let attr = &attrs[i];
        if reads_as(&attr.path, "version") {
            if let Form::List(_) = &attr.form {
                return i;
            }
        }
        i += 1;
    }
    i
}

/// Reads the filter from the annotations `attrs`, if they hold one.
///
/// Only the first annotation that is a filter counts. One whose list does
/// not spell a filter is an error.
pub fn get_version_attr(attrs: &[Attribute]) -> (res: Result<Option<VersionFilter>, Error>)
    ensures
        res matches Ok(Some(f)) ==> annotation(attributes_of(attrs@)) == Ok::<
            Option<FilterView>,
            ErrorView,
        >(Some(f@)),
        res matches Ok(None) ==> annotation(attributes_of(attrs@)) == Ok::<
            Option<FilterView>,
            ErrorView,
        >(None),
        res matches Err(e) ==> annotation(attributes_of(attrs@)) == Err::<
            Option<FilterView>,
            ErrorView,
        >(e@),
{
    let place = first_filter(attrs);
    if place >= attrs.len() {
        return Ok(None);
    }
    proof {
        lemma_filter_place(attributes_of(attrs@), 0);
    }
    let attr = &attrs[place];
    match &attr.form {
        Form::List(args) => match VersionFilter::parse(args.as_str(), attr.origin) {
            Ok(f) => Ok(Some(f)),
            Err(e) => Err(e),
        },
        _ => Ok(None),
    }
}

/// The annotations `attrs` without the first filter among them: all the
/// others, unchanged and in their order.
pub fn generate_attrs(attrs: &[Attribute]) -> (res: Vec<Attribute>)
    ensures
        attributes_of(res@) == stripped(attributes_of(attrs@)),
{
    let ghost views = attributes_of(attrs@);
    let place = first_filter(attrs);
    let mut res: Vec<Attribute> = Vec::new();
    let mut i: usize = 0;
    while i < attrs.len()
        invariant
            i <= attrs@.len(),
            place <= attrs@.len(),
            views == attributes_of(attrs@),
            i <= place ==> attributes_of(res@) == views.take(i as int),
            i > place ==> attributes_of(res@) == views.take(i as int).remove(place as int),
        decreases attrs.len() - i,
    {
        if i != place {
            let ghost before = attributes_of(res@);
            res.push(attrs[i].clone());
            assert(attributes_of(res@) =~= before.push(views[i as int]));
            assert(i < place ==> before.push(views[i as int]) =~= views.take(i + 1));
            assert(i > place ==> before.push(views[i as int]) =~= views.take(i + 1).remove(
                place as int,
            ));
        } else {
            assert(views.take(i + 1).remove(place as int) =~= views.take(i as int));
        }
        i += 1;
    }
    assert(views.take(attrs@.len() as int) =~= views);
    res
}

/// Whether at most one of the annotations is a filter.
pub open spec fn holds_one_filter(attrs: Seq<AttributeView>) -> bool {
    forall|i: int, j: int|
        0 <= i < j < attrs.len() ==> !(is_filter(#[trigger] attrs[i]) && is_filter(
            #[trigger] attrs[j],
        ))
}

/// Where at most one annotation is a filter, reading the annotations that
/// are left after the filter was taken out finds no filter.
pub proof fn law_extraction_is_final(attrs: Seq<AttributeView>)
    requires
        holds_one_filter(attrs),
    ensures
        annotation(stripped(attrs)) == Ok::<Option<FilterView>, ErrorView>(None),
{
    let place = filter_place(attrs, 0);
    let rest = stripped(attrs);
    lemma_filter_place(attrs, 0);
    lemma_filter_place(rest, 0);
    let again = filter_place(rest, 0);
    if again < rest.len() {
        if again < place {
            assert(rest[again] == attrs[again]);
        } else {
            assert(rest[again] == attrs[again + 1]);
            assert(is_filter(attrs[place]) && is_filter(attrs[again + 1]));
        }
    }
}

/// What is left after the filter was taken out holds the filters that came
/// after it, and the first of them is found next.
pub proof fn law_extraction_takes_one(attrs: Seq<AttributeView>)
    requires
        filter_place(attrs, 0) < attrs.len(),
    ensures
        stripped(attrs).len() == attrs.len() - 1,
        filter_place(stripped(attrs), 0) == filter_place(attrs, filter_place(attrs, 0) + 1) - 1,
{
    let place = filter_place(attrs, 0);
    let rest = stripped(attrs);
    lemma_filter_place(attrs, 0);
    lemma_filter_place(attrs, place + 1);
    lemma_filter_place(rest, 0);
    let next = filter_place(attrs, place + 1);
    let again = filter_place(rest, 0);
    if again < rest.len() {
        if again < place {
            assert(rest[again] == attrs[again]);
        } else {
            assert(rest[again] == attrs[again + 1]);
        }
    }
    if next < attrs.len() {
        assert(rest[next - 1] == attrs[next]);
    }
}

/// What is left of a sequence of parts, each of which was kept, dropped or
/// found faulty: the parts that were kept, in their order; or the first
/// fault.
pub open spec fn gathered<T>(outcomes: Seq<Result<Option<T>, ErrorView>>) -> Result<
    Seq<T>,
    ErrorView,
>
    decreases outcomes.len(),
{
    if outcomes.len() == 0 {
        Ok(Seq::empty())
    } else {
        match gathered(outcomes.drop_last()) {
            Err(e) => Err(e),
            Ok(kept) => match outcomes.last() {
                Err(e) => Err(e),
                Ok(None) => Ok(kept),
                Ok(Some(part)) => Ok(kept.push(part)),
            },
        }
    }
}

/// Whether what carries the annotations `attrs` stays for the version
/// `candidate`: it does unless they hold a filter and the filter, verified
/// against `names`, does not admit the candidate.
pub open spec fn stays(attrs: Seq<AttributeView>, names: Seq<Seq<char>>, candidate: Seq<char>)
    -> Result<bool, ErrorView> {
    match annotation(attrs) {
        Err(e) => Err(e),
        Ok(None) => Ok(true),
        Ok(Some(f)) => f.verdict(names, candidate),
    }
}

/// A member as the version `candidate` has it: without its filter, or not
/// at all.
pub open spec fn filtered_member(m: MemberView, names: Seq<Seq<char>>, candidate: Seq<char>)
    -> Result<Option<MemberView>, ErrorView> {
    match stays(m.attrs, names, candidate) {
        Err(e) => Err(e),
        Ok(false) => Ok(None),
        Ok(true) => Ok(Some(MemberView { attrs: stripped(m.attrs), text: m.text })),
    }
}

/// What becomes of each of `members` for the version `candidate`.
pub open spec fn member_outcomes(
    members: Seq<MemberView>,
    names: Seq<Seq<char>>,
    candidate: Seq<char>,
) -> Seq<Result<Option<MemberView>, ErrorView>> {
    Seq::new(members.len(), |i: int| filtered_member(members[i], names, candidate))
}

/// The members that the version `candidate` has, in their order.
pub open spec fn filtered_members(
    members: Seq<MemberView>,
    names: Seq<Seq<char>>,
    candidate: Seq<char>,
) -> Result<Seq<MemberView>, ErrorView> {
    gathered(member_outcomes(members, names, candidate))
}

/// A variant as the version `candidate` has it: without its filter and
/// with the fields that the version has, or not at all.
pub open spec fn filtered_variant(v: VariantView, names: Seq<Seq<char>>, candidate: Seq<char>)
    -> Result<Option<VariantView>, ErrorView> {
    match stays(v.attrs, names, candidate) {
        Err(e) => Err(e),
        Ok(false) => Ok(None),
        Ok(true) => match filtered_members(v.fields, names, candidate) {
            Err(e) => Err(e),
            Ok(fields) => Ok(
                Some(
                    VariantView {
                        attrs: stripped(v.attrs),
                        text: v.text,
                        shape: v.shape,
                        fields,
                        tail: v.tail,
                    },
                ),
            ),
        },
    }
}

/// What becomes of each of `variants` for the version `candidate`.
pub open spec fn variant_outcomes(
    variants: Seq<VariantView>,
    names: Seq<Seq<char>>,
    candidate: Seq<char>,
) -> Seq<Result<Option<VariantView>, ErrorView>> {
    Seq::new(variants.len(), |i: int| filtered_variant(variants[i], names, candidate))
}

/// The variants that the version `candidate` has, in their order.
pub open spec fn filtered_variants(
    variants: Seq<VariantView>,
    names: Seq<Seq<char>>,
    candidate: Seq<char>,
) -> Result<Seq<VariantView>, ErrorView> {
    gathered(variant_outcomes(variants, names, candidate))
}

/// The header of a declaration that stays: without the filter, and fully
/// public where that is forced and the declaration has a visibility.
pub open spec fn retouched(h: HeaderView, force_public: bool) -> HeaderView {
    HeaderView {
        attrs: stripped(h.attrs),
        vis: if force_public && h.vis is Some {
            Some(VisibilityView::Public)
        } else {
            h.vis
        },
        text: h.text,
    }
}

/// A declaration as the version `candidate` has it, or nothing if the
/// version does not have it.
///
/// The declaration's own filter decides first. If it stays, its parts are
/// filtered in turn, each by its own filter, and stay in their order; the
/// declarations inside a module are neither at the top level nor forced
/// public. A module at the top level that is not forced public takes the
/// name of the version. A block is a kind of declaration that has no
/// visibility to force: forcing a trait, an implementation or a foreign
/// block public fails, whatever the trait declares.
pub open spec fn filtered_item(
    item: ItemView,
    names: Seq<Seq<char>>,
    candidate: Seq<char>,
    toplevel: bool,
    force_public: bool,
) -> Result<Option<ItemView>, ErrorView>
    decreases item, 0nat,
{
    match stays(item.header().attrs, names, candidate) {
        Err(e) => Err(e),
        Ok(false) => Ok(None),
        Ok(true) => match item {
            ItemView::Module { header, name, content } => {
                let header = retouched(header, force_public);
                let name = if toplevel && !force_public {
                    candidate
                } else {
                    name
                };
                match content {
                    None => Ok(Some(ItemView::Module { header, name, content: None })),
                    Some(items) => match gathered(item_outcomes(items, names, candidate)) {
                        Err(e) => Err(e),
                        Ok(kept) => Ok(Some(ItemView::Module { header, name, content: Some(kept) })),
                    },
                }
            },
            ItemView::Struct { header, shape, fields, tail } => match filtered_members(
                fields,
                names,
                candidate,
            ) {
                Err(e) => Err(e),
                Ok(fields) => Ok(
                    Some(
                        ItemView::Struct {
                            header: retouched(header, force_public),
                            shape,
                            fields,
                            tail,
                        },
                    ),
                ),
            },
            ItemView::Enum { header, variants } => match filtered_variants(
                variants,
                names,
                candidate,
            ) {
                Err(e) => Err(e),
                Ok(variants) => Ok(
                    Some(ItemView::Enum { header: retouched(header, force_public), variants }),
                ),
            },
            ItemView::Block { header, items } => if force_public {
                Err(ErrorView::UnsupportedVisibilityOverride)
            } else {
                match filtered_members(items, names, candidate) {
                    Err(e) => Err(e),
                    Ok(items) => Ok(
                        Some(ItemView::Block { header: retouched(header, force_public), items }),
                    ),
                }
            },
            ItemView::Leaf { header } => Ok(
                Some(ItemView::Leaf { header: retouched(header, force_public) }),
            ),
        },
    }
}

/// What becomes of each of the declarations of a module for the version
/// `candidate`.
pub open spec fn item_outcomes(items: Seq<ItemView>, names: Seq<Seq<char>>, candidate: Seq<char>)
    -> Seq<Result<Option<ItemView>, ErrorView>>
    decreases items, 1nat,
{
    Seq::new(
        items.len(),
        |i: int|
            if 0 <= i < items.len() {
                filtered_item(items[i], names, candidate, false, false)
            } else {
                Ok(None)
            },
    )
}

/// The declarations of a module as the version `candidate` has them.
pub open spec fn filtered_items(items: Seq<ItemView>, names: Seq<Seq<char>>, candidate: Seq<char>)
    -> Result<Seq<ItemView>, ErrorView> {
    gathered(item_outcomes(items, names, candidate))
}

/// Once a part is faulty, so is the whole, with the same fault.
pub proof fn lemma_gathered_fault<T>(outcomes: Seq<Result<Option<T>, ErrorView>>, n: int)
    requires
        0 <= n <= outcomes.len(),
        gathered(outcomes.take(n)) is Err,
    ensures
        gathered(outcomes) == gathered(outcomes.take(n)),
    decreases outcomes.len() - n,
{
    if n < outcomes.len() {
        assert(outcomes.take(n + 1).drop_last() =~= outcomes.take(n));
        lemma_gathered_fault(outcomes, n + 1);
    } else {
        assert(outcomes.take(n) =~= outcomes);
    }
}

/// What one more outcome adds to what was gathered before it.
pub proof fn lemma_gathered_step<T>(outcomes: Seq<Result<Option<T>, ErrorView>>, n: int)
    requires
        0 <= n < outcomes.len(),
    ensures
        gathered(outcomes.take(n + 1)) == match gathered(outcomes.take(n)) {
            Err(e) => Err(e),
            Ok(kept) => match outcomes[n] {
                Err(e) => Err(e),
                Ok(None) => Ok(kept),
                Ok(Some(part)) => Ok(kept.push(part)),
            },
        },
{
    assert(outcomes.take(n + 1).drop_last() =~= outcomes.take(n));
}

/// The model of what filtering a member came to.
pub open spec fn member_outcome(res: Result<Option<Member>, Error>) -> Result<
    Option<MemberView>,
    ErrorView,
> {
    match res {
        Ok(Some(m)) => Ok(Some(m@)),
        Ok(None) => Ok(None),
        Err(e) => Err(e@),
    }
}

/// The model of what filtering a variant came to.
pub open spec fn variant_outcome(res: Result<Option<Variant>, Error>) -> Result<
    Option<VariantView>,
    ErrorView,
> {
    match res {
        Ok(Some(v)) => Ok(Some(v@)),
        Ok(None) => Ok(None),
        Err(e) => Err(e@),
    }
}

/// The model of what filtering a declaration came to.
pub open spec fn item_outcome(res: Result<Option<BodyItem>, Error>) -> Result<
    Option<ItemView>,
    ErrorView,
> {
    match res {
        Ok(Some(item)) => Ok(Some(item@)),
        Ok(None) => Ok(None),
        Err(e) => Err(e@),
    }
}

/// Whether what carries `attrs` stays for `version`.
fn stays_for(attrs: &[Attribute], versions: &VersionList, version: &Version) -> (res: Result<
    bool,
    Error,
>)
    ensures
        res matches Ok(b) ==> stays(attributes_of(attrs@), versions@, version@) == Ok::<
            bool,
            ErrorView,
        >(b),
        res matches Err(e) ==> stays(attributes_of(attrs@), versions@, version@) == Err::<
            bool,
            ErrorView,
        >(e@),
{
    match get_version_attr(attrs) {
        Err(e) => Err(e),
        Ok(None) => Ok(true),
        Ok(Some(filter)) => filter.check(versions, version),
    }
}

/// Filters a member for `version`: if its own filter lets the version
/// through, or it has none, the member comes back without the filter.
pub fn generate_filtered_member(member: &Member, versions: &VersionList, version: &Version) -> (res:
    Result<Option<Member>, Error>)
    ensures
        member_outcome(res) == filtered_member(member@, versions@, version@),
{
    match stays_for(member.attrs.as_slice(), versions, version) {
        Err(e) => Err(e),
        Ok(false) => Ok(None),
        Ok(true) => Ok(
            Some(
                Member {
                    attrs: generate_attrs(member.attrs.as_slice()),
                    text: member.text.clone(),
                },
            ),
        ),
    }
}

/// Filters the members of a struct, a variant or a block for `version`.
fn filter_members(members: &Vec<Member>, versions: &VersionList, version: &Version) -> (res: Result<
    Vec<Member>,
    Error,
>)
    ensures
        res matches Ok(kept) ==> filtered_members(members_of(members@), versions@, version@)
            == Ok::<Seq<MemberView>, ErrorView>(members_of(kept@)),
        res matches Err(e) ==> filtered_members(members_of(members@), versions@, version@)
            == Err::<Seq<MemberView>, ErrorView>(e@),
{
    let ghost outcomes = member_outcomes(members_of(members@), versions@, version@);
    let mut kept: Vec<Member> = Vec::new();
    let mut i: usize = 0;
    proof {
        assert(members_of(kept@) =~= Seq::empty());
    }
    while i < members.len()
        invariant
            i <= members@.len(),
            outcomes == member_outcomes(members_of(members@), versions@, version@),
            gathered(outcomes.take(i as int)) == Ok::<Seq<MemberView>, ErrorView>(
                members_of(kept@),
            ),
        decreases members.len() - i,
    {
        proof {
            lemma_gathered_step(outcomes, i as int);
        }
        match generate_filtered_member(&members[i], versions, version) {
            Err(e) => {
                proof {
                    lemma_gathered_fault(outcomes, i + 1);
                }
                return Err(e);
            },
            Ok(None) => {},
            Ok(Some(m)) => {
                let ghost before = kept@;
                kept.push(m);
                assert(members_of(kept@) =~= members_of(before).push(m@));
            },
        }
        i += 1;
    }
    assert(outcomes.take(members@.len() as int) =~= outcomes);
    Ok(kept)
}

/// Filters a variant of an enum for `version`: first by its own filter,
/// then its fields by theirs.
pub fn generate_filtered_variant(variant: &Variant, versions: &VersionList, version: &Version)
    -> (res: Result<Option<Variant>, Error>)
    ensures
        variant_outcome(res) == filtered_variant(variant@, versions@, version@),
{
    match stays_for(variant.attrs.as_slice(), versions, version) {
        Err(e) => Err(e),
        Ok(false) => Ok(None),
        Ok(true) => match filter_members(&variant.fields, versions, version) {
            Err(e) => Err(e),
            Ok(fields) => Ok(
                Some(
                    Variant {
                        attrs: generate_attrs(variant.attrs.as_slice()),
                        text: variant.text.clone(),
                        shape: variant.shape,
                        fields,
                        tail: variant.tail.clone(),
                    },
                ),
            ),
        },
    }
}

/// Filters the variants of an enum for `version`.
fn filter_variants(variants: &Vec<Variant>, versions: &VersionList, version: &Version) -> (res:
    Result<Vec<Variant>, Error>)
    ensures
        res matches Ok(kept) ==> filtered_variants(variants_of(variants@), versions@, version@)
            == Ok::<Seq<VariantView>, ErrorView>(variants_of(kept@)),
        res matches Err(e) ==> filtered_variants(variants_of(variants@), versions@, version@)
            == Err::<Seq<VariantView>, ErrorView>(e@),
{
    let ghost outcomes = variant_outcomes(variants_of(variants@), versions@, version@);
    let mut kept: Vec<Variant> = Vec::new();
    let mut i: usize = 0;
    proof {
        assert(variants_of(kept@) =~= Seq::empty());
    }
    while i < variants.len()
        invariant
            i <= variants@.len(),
            outcomes == variant_outcomes(variants_of(variants@), versions@, version@),
            gathered(outcomes.take(i as int)) == Ok::<Seq<VariantView>, ErrorView>(
                variants_of(kept@),
            ),
        decreases variants.len() - i,
    {
        proof {
            lemma_gathered_step(outcomes, i as int);
        }
        match generate_filtered_variant(&variants[i], versions, version) {
            Err(e) => {
                proof {
                    lemma_gathered_fault(outcomes, i + 1);
                }
                return Err(e);
            },
            Ok(None) => {},
            Ok(Some(v)) => {
                let ghost before = kept@;
                kept.push(v);
                assert(variants_of(kept@) =~= variants_of(before).push(v@));
            },
        }
        i += 1;
    }
    assert(outcomes.take(variants@.len() as int) =~= outcomes);
    Ok(kept)
}

/// The header of a declaration that stays.
fn retouch(header: &Header, force_public: bool) -> (res: Header)
    ensures
        res@ == retouched(header@, force_public),
{
    let vis = match &header.vis {
        None => None,
        Some(v) => if force_public {
            Some(Visibility::Public)
        } else {
            Some(v.clone())
        },
    };
    Header { attrs: generate_attrs(header.attrs.as_slice()), vis, text: header.text.clone() }
}

/// The annotations of `item`.
pub fn item_attrs(item: &BodyItem) -> (attrs: &Vec<Attribute>)
    ensures
        *attrs == item.header().attrs,
{
    match item {
        BodyItem::Module { header, .. } => &header.attrs,
        BodyItem::Struct { header, .. } => &header.attrs,
        BodyItem::Enum { header, .. } => &header.attrs,
        BodyItem::Block { header, .. } => &header.attrs,
        BodyItem::Leaf { header } => &header.attrs,
    }
}

/// The visibility of `item`, if it has one.
pub fn item_vis(item: &BodyItem) -> (vis: Option<&Visibility>)
    ensures
        vis is Some <==> item.header().vis is Some,
        vis matches Some(v) ==> *v == item.header().vis->0,
{
    let header = match item {
        BodyItem::Module { header, .. } => header,
        BodyItem::Struct { header, .. } => header,
        BodyItem::Enum { header, .. } => header,
        BodyItem::Block { header, .. } => header,
        BodyItem::Leaf { header } => header,
    };
    match &header.vis {
        Some(v) => Some(v),
        None => None,
    }
}

/// Filters a declaration for `version`, with `versions` giving the order
/// of the versions.
///
/// The result is the declaration as the version has it, each kept part
/// without the filter that kept it, or nothing if the version does not
/// have the declaration. `toplevel` says
/// that the declaration is the one the variants are made of, `force_public`
/// that it is to be made fully public.
pub fn generate_filtered_item(
    item: &BodyItem,
    versions: &VersionList,
    version: &Version,
    toplevel: bool,
    force_public: bool,
) -> (res: Result<Option<BodyItem>, Error>)
    ensures
        item_outcome(res) == filtered_item(item@, versions@, version@, toplevel, force_public),
    decreases item, 0nat,
{
    match stays_for(item_attrs(item).as_slice(), versions, version) {
        Err(e) => {
            return Err(e);
        },
        Ok(false) => {
            return Ok(None);
        },
        Ok(true) => {},
    }
    match item {
        BodyItem::Module { header, name, content } => {
            let new_header = retouch(header, force_public);
            let new_name = if toplevel && !force_public {
                version.0.clone()
            } else {
                name.clone()
            };
            let new_content = match content {
                None => None,
                Some(items) => match filter_items(items, versions, version) {
                    Err(e) => {
                        return Err(e);
                    },
                    Ok(kept) => Some(kept),
                },
            };
            Ok(Some(BodyItem::Module { header: new_header, name: new_name, content: new_content }))
        },
        BodyItem::Struct { header, shape, fields, tail } => match filter_members(
            fields,
            versions,
            version,
        ) {
            Err(e) => Err(e),
            Ok(kept) => Ok(
                Some(
                    BodyItem::Struct {
                        header: retouch(header, force_public),
                        shape: *shape,
                        fields: kept,
                        tail: tail.clone(),
                    },
                ),
            ),
        },
        BodyItem::Enum { header, variants } => match filter_variants(variants, versions, version) {
            Err(e) => Err(e),
            Ok(kept) => Ok(
                Some(BodyItem::Enum { header: retouch(header, force_public), variants: kept }),
            ),
        },
        BodyItem::Block { header, items } => {
            if force_public {
                return Err(Error::UnsupportedVisibilityOverride);
            }
            match filter_members(items, versions, version) {
                Err(e) => Err(e),
                Ok(kept) => Ok(
                    Some(BodyItem::Block { header: retouch(header, force_public), items: kept }),
                ),
            }
        },
        BodyItem::Leaf { header } => Ok(
            Some(BodyItem::Leaf { header: retouch(header, force_public) }),
        ),
    }
}

/// Filters the declarations of a module for `version`.
fn filter_items(items: &Vec<BodyItem>, versions: &VersionList, version: &Version) -> (res: Result<
    Vec<BodyItem>,
    Error,
>)
    ensures
        res matches Ok(kept) ==> filtered_items(items_of(items@), versions@, version@) == Ok::<
            Seq<ItemView>,
            ErrorView,
        >(items_of(kept@)),
        res matches Err(e) ==> filtered_items(items_of(items@), versions@, version@) == Err::<
            Seq<ItemView>,
            ErrorView,
        >(e@),
    decreases items, 1nat,
{
    let ghost outcomes = item_outcomes(items_of(items@), versions@, version@);
    let mut kept: Vec<BodyItem> = Vec::new();
    let mut i: usize = 0;
    proof {
        assert(items_of(kept@) =~= Seq::empty());
    }
    while i < items.len()
        invariant
            i <= items@.len(),
            outcomes == item_outcomes(items_of(items@), versions@, version@),
            gathered(outcomes.take(i as int)) == Ok::<Seq<ItemView>, ErrorView>(items_of(kept@)),
        decreases items.len() - i,
    {
        proof {
            lemma_gathered_step(outcomes, i as int);
        }
        match generate_filtered_item(&items[i], versions, version, false, false) {
            Err(e) => {
                proof {
                    lemma_gathered_fault(outcomes, i + 1);
                }
                return Err(e);
            },
            Ok(None) => {},
            Ok(Some(item)) => {
                let ghost before = kept@;
                kept.push(item);
                assert(items_of(kept@) =~= items_of(before).push(item@));
            },
        }
        i += 1;
    }
    assert(outcomes.take(items@.len() as int) =~= outcomes);
    Ok(kept)
}

/// Filters a declaration that stands inside a module for `version`.
pub fn filter_item(item: &BodyItem, versions: &VersionList, version: &Version) -> (res: Result<
    Option<BodyItem>,
    Error,
>)
    ensures
        item_outcome(res) == filtered_item(item@, versions@, version@, false, false),
{
    generate_filtered_item(item, versions, version, false, false)
}

/// Whether the variants of `root` are wrapped in a module of their own:
/// always, unless `root` is a module and the settings leave it at that.
pub open spec fn wraps(root: ItemView, opts: Options) -> bool {
    !(root is Module) || opts.nest_toplevel_modules
}

/// The module, named `name`, that holds `item` and nothing else. It can be
/// seen as far as `root` could, and has no annotations.
pub open spec fn wrapped(root: ItemView, item: ItemView, name: Seq<char>) -> ItemView {
    ItemView::Module {
        header: HeaderView {
            attrs: Seq::empty(),
            vis: Some(
                match root.header().vis {
                    Some(v) => v,
                    None => VisibilityView::Inherited,
                },
            ),
            text: "mod"@,
        },
        name,
        content: Some(seq![item]),
    }
}

/// The annotation that makes a declaration part of the build only where
/// the feature `name` is on.
pub open spec fn feature_gate(name: Seq<char>) -> AttributeView {
    AttributeView {
        path: "cfg"@,
        form: FormView::List("feature = \""@ + name + "\""@),
        origin: ARGUMENTS,
    }
}

/// `item` with the feature gate for `name` in front of its annotations.
pub open spec fn gated(item: ItemView, name: Seq<char>) -> ItemView {
    item.with_header(
        HeaderView {
            attrs: seq![feature_gate(name)] + item.header().attrs,
            vis: item.header().vis,
            text: item.header().text,
        },
    )
}

/// The variant of `root` for the version `candidate`, with the name of the
/// version; nothing, if the version does not have `root` at all.
pub open spec fn variant_for(
    root: ItemView,
    names: Seq<Seq<char>>,
    candidate: Seq<char>,
    opts: Options,
) -> Result<Option<(Seq<char>, ItemView)>, ErrorView> {
    let wrap = wraps(root, opts);
    match filtered_item(root, names, candidate, true, wrap) {
        Err(e) => Err(e),
        Ok(None) => Ok(None),
        Ok(Some(item)) => {
            let placed = if wrap {
                wrapped(root, item, candidate)
            } else {
                item
            };
            Ok(
                Some(
                    (
                        candidate,
                        if opts.features {
                            gated(placed, candidate)
                        } else {
                            placed
                        },
                    ),
                ),
            )
        },
    }
}

/// What becomes of `root` for each of the versions `names`.
pub open spec fn variant_results(root: ItemView, names: Seq<Seq<char>>, opts: Options) -> Seq<
    Result<Option<(Seq<char>, ItemView)>, ErrorView>,
> {
    Seq::new(names.len(), |i: int| variant_for(root, names, names[i], opts))
}

/// The variants of `root`: one for each version that has it, in the order
/// of the versions, each with the name of its version.
pub open spec fn emitted(root: ItemView, names: Seq<Seq<char>>, opts: Options) -> Result<
    Seq<(Seq<char>, ItemView)>,
    ErrorView,
> {
    gathered(variant_results(root, names, opts))
}

/// The models of `variants`, in order.
pub open spec fn emitted_of(variants: Seq<(Version, BodyItem)>) -> Seq<(Seq<char>, ItemView)> {
    Seq::new(variants.len(), |i: int| (variants[i].0@, variants[i].1@))
}

fn wrap(root: &BodyItem, item: BodyItem, version: &Version) -> (res: BodyItem)
    ensures
        res@ == wrapped(root@, item@, version@),
{
    let vis = match item_vis(root) {
        Some(v) => v.clone(),
        None => Visibility::Inherited,
    };
    let header = Header { attrs: Vec::new(), vis: Some(vis), text: String::from_str("mod") };
    let name = version.0.clone();
    let mut items: Vec<BodyItem> = Vec::new();
    items.push(item);
    let content = Some(items);
    proof {
        assert(attributes_of(header.attrs@) =~= Seq::empty());
        assert(items_of(items@) =~= seq![item@]);
    }
    BodyItem::Module { header, name, content }
}

fn gate_header(header: Header, version: &Version) -> (res: Header)
    ensures
        res@ == (HeaderView {
            attrs: seq![feature_gate(version@)] + header@.attrs,
            vis: header@.vis,
            text: header@.text,
        }),
{
    let mut args = String::from_str("feature = \"");
    args.append(version.0.as_str());
    args.append("\"");
    let gate = Attribute { path: String::from_str("cfg"), form: Form::List(args), origin: ARGUMENTS };
    let Header { attrs, vis, text } = header;
    let mut attrs = attrs;
    let ghost before = attrs@;
    attrs.insert(0, gate);
    assert(attributes_of(attrs@) =~= seq![gate@] + attributes_of(before));
    Header { attrs, vis, text }
}

fn gate(item: BodyItem, version: &Version) -> (res: BodyItem)
    ensures
        res@ == gated(item@, version@),
{
    match item {
        BodyItem::Module { header, name, content } => {
            let header = gate_header(header, version);
            BodyItem::Module { header, name, content }
        },
        BodyItem::Struct { header, shape, fields, tail } => BodyItem::Struct {
            header: gate_header(header, version),
            shape,
            fields,
            tail,
        },
        BodyItem::Enum { header, variants } => BodyItem::Enum {
            header: gate_header(header, version),
            variants,
        },
        BodyItem::Block { header, items } => BodyItem::Block {
            header: gate_header(header, version),
            items,
        },
        BodyItem::Leaf { header } => BodyItem::Leaf { header: gate_header(header, version) },
    }
}

/// Whether `item` is a module.
fn is_module(item: &BodyItem) -> (b: bool)
    ensures
        b == (item@ is Module),
{
    match item {
        BodyItem::Module { .. } => true,
        _ => false,
    }
}

/// Makes the variant of `root` for `version`.
fn emit_for(root: &BodyItem, versions: &VersionList, version: &Version, opts: Options) -> (res:
    Result<Option<(Version, BodyItem)>, Error>)
    ensures
        res matches Ok(Some(v)) ==> variant_for(root@, versions@, version@, opts) == Ok::<
            Option<(Seq<char>, ItemView)>,
            ErrorView,
        >(Some((v.0@, v.1@))),
        res matches Ok(None) ==> variant_for(root@, versions@, version@, opts) == Ok::<
            Option<(Seq<char>, ItemView)>,
            ErrorView,
        >(None),
        res matches Err(e) ==> variant_for(root@, versions@, version@, opts) == Err::<
            Option<(Seq<char>, ItemView)>,
            ErrorView,
        >(e@),
{
    let wrap_in_mod = !is_module(root) || opts.nest_toplevel_modules;
    match generate_filtered_item(root, versions, version, true, wrap_in_mod) {
        Err(e) => Err(e),
        Ok(None) => Ok(None),
        Ok(Some(item)) => {
            let placed = if wrap_in_mod {
                wrap(root, item, version)
            } else {
                item
            };
            let tagged = if opts.features {
                gate(placed, version)
            } else {
                placed
            };
            Ok(Some((version.clone(), tagged)))
        },
    }
}

/// Makes the variants of `root`: for each version of `versions`, in their
/// order, the declaration as that version has it, with the version.
///
/// A version that does not have `root` at all is left out. Unless `root`
/// is a module and `opts` leaves it at that, each variant is wrapped in a
/// module named after its version, in which it is fully public; a module
/// that is not wrapped takes the name of the version itself. Where `opts`
/// asks for it, each variant is tagged with the feature gate of its
/// version. The first error ends it all.
pub fn emit(root: &BodyItem, versions: &VersionList, opts: Options) -> (res: Result<
    Vec<(Version, BodyItem)>,
    Error,
>)
    ensures
        res matches Ok(variants) ==> emitted(root@, versions@, opts) == Ok::<
            Seq<(Seq<char>, ItemView)>,
            ErrorView,
        >(emitted_of(variants@)),
        res matches Err(e) ==> emitted(root@, versions@, opts) == Err::<
            Seq<(Seq<char>, ItemView)>,
            ErrorView,
        >(e@),
{
    let ghost outcomes = variant_results(root@, versions@, opts);
    let mut variants: Vec<(Version, BodyItem)> = Vec::new();
    let n = versions.len();
    let mut i: usize = 0;
    proof {
        assert(emitted_of(variants@) =~= Seq::empty());
    }
    while i < n
        invariant
            i <= n,
            n == versions@.len(),
            outcomes == variant_results(root@, versions@, opts),
            gathered(outcomes.take(i as int)) == Ok::<Seq<(Seq<char>, ItemView)>, ErrorView>(
                emitted_of(variants@),
            ),
        decreases n - i,
    {
        proof {
            lemma_gathered_step(outcomes, i as int);
        }
        match emit_for(root, versions, versions.get(i), opts) {
            Err(e) => {
                proof {
                    lemma_gathered_fault(outcomes, i + 1);
                }
                return Err(e);
            },
            Ok(None) => {},
            Ok(Some(v)) => {
                let ghost before = variants@;
                variants.push(v);
                assert(emitted_of(variants@) =~= emitted_of(before).push((v.0@, v.1@)));
            },
        }
        i += 1;
    }
    assert(outcomes.take(n as int) =~= outcomes);
    Ok(variants)
}

/// The variants of `root` for the versions and settings that `text`
/// spells.
pub open spec fn called(text: Seq<char>, root: ItemView) -> Result<
    Seq<(Seq<char>, ItemView)>,
    ErrorView,
> {
    match arguments_of_text(text) {
        Err(e) => Err(e),
        Ok(args) => emitted(root, args.names, args.options),
    }
}

/// Handles one invocation: reads the versions and the settings from
/// `attrs` and makes the variants of `input` for them.
///
/// Either all the variants come back, in the order in which `attrs` names
/// the versions, or the first error and nothing else.
pub fn call(attrs: &str, input: &BodyItem) -> (res: Result<Vec<(Version, BodyItem)>, Error>)
    ensures
        res matches Ok(variants) ==> called(attrs@, input@) == Ok::<
            Seq<(Seq<char>, ItemView)>,
            ErrorView,
        >(emitted_of(variants@)),
        res matches Err(e) ==> called(attrs@, input@) == Err::<
            Seq<(Seq<char>, ItemView)>,
            ErrorView,
        >(e@),
{
    match parse_input(attrs) {
        Err(e) => Err(e),
        Ok((versions, opts)) => emit(input, &versions, opts),
    }
}

} // verus!
