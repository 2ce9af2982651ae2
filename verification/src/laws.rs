//! What holds of the engine whatever it is given.

use vstd::prelude::*;
use crate::error::ErrorView;
use crate::filter::law_empty_conjunction_verdict;
use crate::filter::FilterView;
use crate::tree::AttributeView;
use crate::tree::HeaderView;
use crate::tree::ItemView;
use crate::tree::MemberView;
use crate::tree::VariantView;
use crate::tree::VisibilityView;
use crate::versioning::annotation;
use crate::versioning::emitted;
use crate::versioning::filtered_item;
use crate::versioning::filtered_items;
use crate::versioning::filtered_member;
use crate::versioning::filtered_members;
use crate::versioning::filtered_variant;
use crate::versioning::filtered_variants;
use crate::versioning::gated;
use crate::versioning::gathered;
use crate::versioning::lemma_gathered_fault;
use crate::versioning::lemma_gathered_step;
use crate::versioning::is_filter;
use crate::versioning::item_outcomes;
use crate::versioning::lemma_filter_place;
use crate::versioning::member_outcomes;
use crate::versioning::stays;
use crate::versioning::stripped;
use crate::versioning::variant_for;
use crate::versioning::variant_outcomes;
use crate::versioning::variant_results;
use crate::versioning::wrapped;
use crate::versioning::wraps;
use crate::versioning::Options;

verus! {

/// Whether the annotations hold, as their filter, the conjunction of
/// nothing.
pub open spec fn bars_all(attrs: Seq<AttributeView>) -> bool {
    annotation(attrs) == Ok::<Option<FilterView>, ErrorView>(
        Some(FilterView::All(Seq::empty())),
    )
}

/// What carries the conjunction of nothing as its filter stays for no
/// version, in no registry.
pub proof fn law_conjunction_of_nothing(
    attrs: Seq<AttributeView>,
    names: Seq<Seq<char>>,
    candidate: Seq<char>,
)
    requires
        bars_all(attrs),
    ensures
        stays(attrs, names, candidate) == Ok::<bool, ErrorView>(false),
{
    law_empty_conjunction_verdict(names, candidate);
}

/// A declaration, a variant or a member whose filter is the conjunction of
/// nothing is not part of any version: filtering it yields nothing,
/// whatever the registry, the version and the place of the declaration.
pub proof fn law_barred_parts_vanish(
    item: ItemView,
    variant: VariantView,
    member: MemberView,
    names: Seq<Seq<char>>,
    candidate: Seq<char>,
    toplevel: bool,
    force_public: bool,
)
    ensures
        bars_all(item.header().attrs) ==> filtered_item(
            item,
            names,
            candidate,
            toplevel,
            force_public,
        ) == Ok::<Option<ItemView>, ErrorView>(None),
        bars_all(variant.attrs) ==> filtered_variant(variant, names, candidate) == Ok::<
            Option<VariantView>,
            ErrorView,
        >(None),
        bars_all(member.attrs) ==> filtered_member(member, names, candidate) == Ok::<
            Option<MemberView>,
            ErrorView,
        >(None),
{
    law_empty_conjunction_verdict(names, candidate);
}

/// A part that was dropped leaves no trace: what is gathered is what would
/// have been gathered without it.
pub proof fn lemma_gathered_without<T>(outcomes: Seq<Result<Option<T>, ErrorView>>, i: int)
    requires
        0 <= i < outcomes.len(),
        outcomes[i] == Ok::<Option<T>, ErrorView>(None),
    ensures
        gathered(outcomes) == gathered(outcomes.remove(i)),
    decreases outcomes.len(),
{
    if i == outcomes.len() - 1 {
    } else {
        lemma_gathered_without(outcomes.drop_last(), i);
        assert(outcomes.remove(i).drop_last() =~= outcomes.drop_last().remove(i));
    }
}

/// A module holds, for every version, exactly what it would hold if the
/// declarations in it whose filter is the conjunction of nothing were not
/// there.
pub proof fn law_barred_items_are_absent(
    items: Seq<ItemView>,
    i: int,
    names: Seq<Seq<char>>,
    candidate: Seq<char>,
)
    requires
        0 <= i < items.len(),
        bars_all(items[i].header().attrs),
    ensures
        filtered_items(items, names, candidate) == filtered_items(
            items.remove(i),
            names,
            candidate,
        ),
{
    let outcomes = item_outcomes(items, names, candidate);
    law_empty_conjunction_verdict(names, candidate);
    lemma_gathered_without(outcomes, i);
    assert(outcomes.remove(i) =~= item_outcomes(items.remove(i), names, candidate));
}

/// A struct, a variant or a block has, for every version, exactly the
/// members it would have if those whose filter is the conjunction of
/// nothing were not there; and an enum its variants likewise.
pub proof fn law_barred_members_are_absent(
    members: Seq<MemberView>,
    variants: Seq<VariantView>,
    i: int,
    names: Seq<Seq<char>>,
    candidate: Seq<char>,
)
    ensures
        0 <= i < members.len() && bars_all(members[i].attrs) ==> filtered_members(
            members,
            names,
            candidate,
        ) == filtered_members(members.remove(i), names, candidate),
        0 <= i < variants.len() && bars_all(variants[i].attrs) ==> filtered_variants(
            variants,
            names,
            candidate,
        ) == filtered_variants(variants.remove(i), names, candidate),
{
    law_empty_conjunction_verdict(names, candidate);
    if 0 <= i < members.len() && bars_all(members[i].attrs) {
        let outcomes = member_outcomes(members, names, candidate);
        lemma_gathered_without(outcomes, i);
        assert(outcomes.remove(i) =~= member_outcomes(members.remove(i), names, candidate));
    }
    if 0 <= i < variants.len() && bars_all(variants[i].attrs) {
        let outcomes = variant_outcomes(variants, names, candidate);
        lemma_gathered_without(outcomes, i);
        assert(outcomes.remove(i) =~= variant_outcomes(variants.remove(i), names, candidate));
    }
}

/// Where nothing was kept, nothing is gathered.
pub proof fn lemma_gathered_nothing<T>(outcomes: Seq<Result<Option<T>, ErrorView>>)
    requires
        forall|i: int| 0 <= i < outcomes.len() ==> outcomes[i] == Ok::<Option<T>, ErrorView>(None),
    ensures
        gathered(outcomes) == Ok::<Seq<T>, ErrorView>(Seq::empty()),
    decreases outcomes.len(),
{
    if outcomes.len() > 0 {
        lemma_gathered_nothing(outcomes.drop_last());
    }
}

/// A declaration whose filter is the conjunction of nothing has no
/// variants, whatever the registry and the settings.
pub proof fn law_barred_root_has_no_variants(root: ItemView, names: Seq<Seq<char>>, opts: Options)
    requires
        bars_all(root.header().attrs),
    ensures
        emitted(root, names, opts) == Ok::<Seq<(Seq<char>, ItemView)>, ErrorView>(Seq::empty()),
{
    let results = variant_results(root, names, opts);
    assert forall|i: int| 0 <= i < results.len() implies results[i] == Ok::<
        Option<(Seq<char>, ItemView)>,
        ErrorView,
    >(None) by {
        law_empty_conjunction_verdict(names, names[i]);
    }
    lemma_gathered_nothing(results);
}

/// Whether none of the annotations is a filter.
pub open spec fn plain(attrs: Seq<AttributeView>) -> bool {
    forall|i: int| 0 <= i < attrs.len() ==> !is_filter(#[trigger] attrs[i])
}

/// Whether neither the variant nor any of its fields carries a filter.
pub open spec fn plain_variant(v: VariantView) -> bool {
    plain(v.attrs) && forall|i: int| 0 <= i < v.fields.len() ==> plain((#[trigger] v.fields[i]).attrs)
}

/// Whether nothing in the declaration carries a filter: not the
/// declaration, and none of its parts, however deep.
pub open spec fn plain_item(item: ItemView) -> bool
    decreases item,
{
    plain(item.header().attrs) && match item {
        ItemView::Module { content, .. } => match content {
            None => true,
            Some(items) => forall|i: int| 0 <= i < items.len() ==> plain_item(#[trigger] items[i]),
        },
        ItemView::Struct { fields, .. } => forall|i: int|
            0 <= i < fields.len() ==> plain((#[trigger] fields[i]).attrs),
        ItemView::Enum { variants, .. } => forall|i: int|
            0 <= i < variants.len() ==> plain_variant(#[trigger] variants[i]),
        ItemView::Block { items, .. } => forall|i: int|
            0 <= i < items.len() ==> plain((#[trigger] items[i]).attrs),
        ItemView::Leaf { .. } => true,
    }
}

/// What the place of a declaration does to it, apart from all filtering:
/// it is made fully public where that is forced and it has a visibility,
/// and a module at the top level that is not forced public takes the name
/// of the version.
pub open spec fn placed(item: ItemView, candidate: Seq<char>, toplevel: bool, force_public: bool)
    -> ItemView {
    let header = HeaderView {
        attrs: item.header().attrs,
        vis: if force_public && item.header().vis is Some {
            Some(VisibilityView::Public)
        } else {
            item.header().vis
        },
        text: item.header().text,
    };
    match item {
        ItemView::Module { name, content, .. } => ItemView::Module {
            header,
            name: if toplevel && !force_public {
                candidate
            } else {
                name
            },
            content,
        },
        _ => item.with_header(header),
    }
}

/// Annotations of which none is a filter hold no filter, and taking the
/// filter out of them changes nothing.
pub proof fn lemma_plain(attrs: Seq<AttributeView>)
    requires
        plain(attrs),
    ensures
        annotation(attrs) == Ok::<Option<FilterView>, ErrorView>(None),
        stripped(attrs) == attrs,
{
    lemma_filter_place(attrs, 0);
}

/// Where every part was kept as it is, the parts are gathered as they are.
pub proof fn lemma_gathered_all<T>(outcomes: Seq<Result<Option<T>, ErrorView>>, parts: Seq<T>)
    requires
        outcomes.len() == parts.len(),
        forall|i: int|
            0 <= i < outcomes.len() ==> outcomes[i] == Ok::<Option<T>, ErrorView>(Some(parts[i])),
    ensures
        gathered(outcomes) == Ok::<Seq<T>, ErrorView>(parts),
    decreases outcomes.len(),
{
    if outcomes.len() > 0 {
        lemma_gathered_all(outcomes.drop_last(), parts.drop_last());
        assert(parts.drop_last().push(parts.last()) =~= parts);
    } else {
        assert(parts =~= Seq::empty());
    }
}

/// Members without a filter are members of every version, as they are.
pub proof fn lemma_plain_members(
    members: Seq<MemberView>,
    names: Seq<Seq<char>>,
    candidate: Seq<char>,
)
    requires
        forall|i: int| 0 <= i < members.len() ==> plain((#[trigger] members[i]).attrs),
    ensures
        filtered_members(members, names, candidate) == Ok::<Seq<MemberView>, ErrorView>(members),
{
    let outcomes = member_outcomes(members, names, candidate);
    assert forall|i: int| 0 <= i < outcomes.len() implies outcomes[i] == Ok::<
        Option<MemberView>,
        ErrorView,
    >(Some(members[i])) by {
        lemma_plain(members[i].attrs);
    }
    lemma_gathered_all(outcomes, members);
}

/// A declaration in which nothing carries a filter is, for every version
/// of every registry, what it was: filtering changes it only as its place
/// demands, by forcing it public or by giving a module at the top the name
/// of the version. All that can fail is forcing a trait, an
/// implementation or a foreign block public.
pub proof fn law_plain_items_are_untouched(
    item: ItemView,
    names: Seq<Seq<char>>,
    candidate: Seq<char>,
    toplevel: bool,
    force_public: bool,
)
    requires
        plain_item(item),
    ensures
        filtered_item(item, names, candidate, toplevel, force_public) == if force_public && item
            is Block {
            Err::<Option<ItemView>, ErrorView>(ErrorView::UnsupportedVisibilityOverride)
        } else {
            Ok::<Option<ItemView>, ErrorView>(
                Some(placed(item, candidate, toplevel, force_public)),
            )
        },
    decreases item,
{
    lemma_plain(item.header().attrs);
    match item {
        ItemView::Module { header, name, content } => {
            if let Some(items) = content {
                let outcomes = item_outcomes(items, names, candidate);
                assert forall|i: int| 0 <= i < outcomes.len() implies outcomes[i] == Ok::<
                    Option<ItemView>,
                    ErrorView,
                >(Some(items[i])) by {
                    law_plain_items_are_untouched(items[i], names, candidate, false, false);
                    lemma_placed_inside(items[i], candidate);
                }
                lemma_gathered_all(outcomes, items);
            }
        },
        ItemView::Struct { header, shape, fields, tail } => {
            lemma_plain_members(fields, names, candidate);
        },
        ItemView::Enum { header, variants } => {
            let outcomes = variant_outcomes(variants, names, candidate);
            assert forall|i: int| 0 <= i < outcomes.len() implies outcomes[i] == Ok::<
                Option<VariantView>,
                ErrorView,
            >(Some(variants[i])) by {
                lemma_plain(variants[i].attrs);
                lemma_plain_members(variants[i].fields, names, candidate);
            }
            lemma_gathered_all(outcomes, variants);
        },
        ItemView::Block { header, items } => {
            lemma_plain_members(items, names, candidate);
        },
        ItemView::Leaf { header } => {},
    }
}

/// Inside a module a declaration's place demands nothing of it.
pub proof fn lemma_placed_inside(item: ItemView, candidate: Seq<char>)
    ensures
        placed(item, candidate, false, false) == item,
{
}

/// A declaration in which nothing carries a filter is the same in every
/// version: inside a module, two versions have it alike.
pub proof fn law_plain_items_are_alike(
    item: ItemView,
    names: Seq<Seq<char>>,
    one: Seq<char>,
    other: Seq<char>,
)
    requires
        plain_item(item),
    ensures
        filtered_item(item, names, one, false, false) == filtered_item(
            item,
            names,
            other,
            false,
            false,
        ),
        filtered_item(item, names, one, false, false) == Ok::<Option<ItemView>, ErrorView>(
            Some(item),
        ),
{
    law_plain_items_are_untouched(item, names, one, false, false);
    law_plain_items_are_untouched(item, names, other, false, false);
    lemma_placed_inside(item, one);
    lemma_placed_inside(item, other);
}

/// The variant of a declaration that no filter touches: the declaration as
/// its place at the top demands it, wrapped and gated as the settings say.
pub open spec fn dressed(root: ItemView, candidate: Seq<char>, opts: Options) -> ItemView {
    let wrap = wraps(root, opts);
    let item = placed(root, candidate, true, wrap);
    let set = if wrap {
        wrapped(root, item, candidate)
    } else {
        item
    };
    if opts.features {
        gated(set, candidate)
    } else {
        set
    }
}

/// A declaration in which nothing carries a filter has a variant for every
/// version of the registry, in the order of the registry, and its variants
/// differ by nothing but the name of the version. All that can fail is
/// wrapping a trait, an implementation or a foreign block, which fails
/// for the first version there is.
pub proof fn law_plain_root_has_every_variant(
    root: ItemView,
    names: Seq<Seq<char>>,
    opts: Options,
)
    requires
        plain_item(root),
    ensures
        emitted(root, names, opts) == if wraps(root, opts) && root is Block {
            if names.len() > 0 {
                Err::<Seq<(Seq<char>, ItemView)>, ErrorView>(
                    ErrorView::UnsupportedVisibilityOverride,
                )
            } else {
                Ok::<Seq<(Seq<char>, ItemView)>, ErrorView>(Seq::empty())
            }
        } else {
            Ok::<Seq<(Seq<char>, ItemView)>, ErrorView>(
                Seq::new(names.len(), |i: int| (names[i], dressed(root, names[i], opts))),
            )
        },
{
    let results = variant_results(root, names, opts);
    if wraps(root, opts) && root is Block {
        if names.len() > 0 {
            law_plain_items_are_untouched(root, names, names[0], true, true);
            let first = results.take(1);
            assert(gathered(first.drop_last()) is Ok);
            lemma_gathered_fault(results, 1);
        } else {
            lemma_gathered_nothing(results);
        }
    } else {
        let variants = Seq::new(names.len(), |i: int| (names[i], dressed(root, names[i], opts)));
        assert forall|i: int| 0 <= i < results.len() implies results[i] == Ok::<
            Option<(Seq<char>, ItemView)>,
            ErrorView,
        >(Some(variants[i])) by {
            law_plain_items_are_untouched(root, names, names[i], true, wraps(root, opts));
        }
        lemma_gathered_all(results, variants);
    }
}

/// A declaration whose own filter names, in a bound, a version that the
/// registry lacks has no variants at all: where the registry holds any
/// version, making the variants fails with that reference, the first
/// unknown one of the filter.
pub proof fn law_unknown_reference_fails(
    root: ItemView,
    filter: FilterView,
    names: Seq<Seq<char>>,
    opts: Options,
)
    requires
        annotation(root.header().attrs) == Ok::<Option<FilterView>, ErrorView>(Some(filter)),
        filter.first_unknown(names) is Some,
        names.len() > 0,
    ensures
        emitted(root, names, opts) == Err::<Seq<(Seq<char>, ItemView)>, ErrorView>(
            ErrorView::UnknownVersionReference {
                name: filter.first_unknown(names)->0.value,
                at: filter.first_unknown(names)->0.at,
            },
        ),
{
    let results = variant_results(root, names, opts);
    let first = results.take(1);
    assert(gathered(first.drop_last()) is Ok);
    lemma_gathered_fault(results, 1);
}

/// The test that a version passes if it has a variant of `root`.
pub open spec fn has_variant(root: ItemView, names: Seq<Seq<char>>, opts: Options) -> spec_fn(
    Seq<char>,
) -> bool {
    |candidate: Seq<char>|
        variant_for(root, names, candidate, opts) is Ok && variant_for(
            root,
            names,
            candidate,
            opts,
        )->Ok_0 is Some
}

/// The names of `variants`, in order.
pub open spec fn names_in(variants: Seq<(Seq<char>, ItemView)>) -> Seq<Seq<char>> {
    Seq::new(variants.len(), |i: int| variants[i].0)
}

/// The variants come in the order of the registry: their versions are the
/// versions of the registry that have a variant, each as often and in the
/// place in which the registry holds it.
pub proof fn law_variants_follow_the_registry(root: ItemView, names: Seq<Seq<char>>, opts: Options)
    requires
        emitted(root, names, opts) is Ok,
    ensures
        names_in(emitted(root, names, opts)->Ok_0) == names.filter(has_variant(root, names, opts)),
{
    lemma_variants_follow(root, names, opts, names.len() as int);
    assert(names.take(names.len() as int) =~= names);
    assert(variant_results(root, names, opts).take(names.len() as int) =~= variant_results(
        root,
        names,
        opts,
    ));
}

/// The variants of the first `n` versions come in the order of those
/// versions.
proof fn lemma_variants_follow(root: ItemView, names: Seq<Seq<char>>, opts: Options, n: int)
    requires
        0 <= n <= names.len(),
        emitted(root, names, opts) is Ok,
    ensures
        gathered(variant_results(root, names, opts).take(n)) is Ok,
        names_in(gathered(variant_results(root, names, opts).take(n))->Ok_0) == names.take(
            n,
        ).filter(has_variant(root, names, opts)),
    decreases n,
{
    let results = variant_results(root, names, opts);
    let test = has_variant(root, names, opts);
    reveal(Seq::filter);
    if gathered(results.take(n)) is Err {
        lemma_gathered_fault(results, n);
    }
    if n == 0 {
        assert(results.take(0) =~= Seq::empty());
        assert(names.take(0) =~= Seq::empty());
    } else {
        lemma_variants_follow(root, names, opts, n - 1);
        lemma_gathered_step(results, n - 1);
        names.take(n - 1).lemma_filter_push(names[n - 1], test);
        assert(names.take(n - 1).push(names[n - 1]) =~= names.take(n));
        let before = gathered(results.take(n - 1))->Ok_0;
        let after = gathered(results.take(n))->Ok_0;
        if test(names[n - 1]) {
            assert(names_in(after) =~= names_in(before).push(names[n - 1]));
        }
    }
}

} // verus!
