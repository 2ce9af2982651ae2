//! The filter expressions: what they are, when they are well-founded in a
//! registry, and which versions they admit.

use vstd::prelude::*;
use crate::error::Error;
use crate::error::ErrorView;
use crate::error::Location;
use crate::text::starts_with;
use crate::version::rank;
use crate::version::Version;
use crate::version::VersionList;

verus! {

/// A string literal of a filter expression, with the place it was read at.
#[derive(Debug, PartialEq, Eq)]
pub struct Literal {
    pub value: String,
    pub at: Location,
}

/// The mathematical content of a [`Literal`].
pub struct LiteralView {
    pub value: Seq<char>,
    pub at: Location,
}

impl View for Literal {
    type V = LiteralView;

    open spec fn view(&self) -> LiteralView {
        LiteralView { value: self.value@, at: self.at }
    }
}

/// A filter of versions: a small expression tree that a version either
/// matches or does not.
#[derive(Debug, PartialEq, Eq)]
pub enum VersionFilter {
    /// Matches the versions whose name starts with the literal.
    Version(Literal),
    /// Matches the versions that come after the named one.
    AtLeastExcl(Literal),
    /// Matches the named version and those after it.
    AtLeast(Literal),
    /// Matches the versions that come before the named one.
    AtMostExcl(Literal),
    /// Matches the named version and those before it.
    AtMost(Literal),
    /// Matches what the nested filter does not.
    Not(Box<VersionFilter>),
    /// Matches what at least one of the nested filters matches; nothing, if
    /// there are none.
    Any(Vec<VersionFilter>),
    /// Matches what every nested filter matches; nothing, if there are none.
    All(Vec<VersionFilter>),
}

/// The mathematical content of a [`VersionFilter`].
pub enum FilterView {
    Version(LiteralView),
    AtLeastExcl(LiteralView),
    AtLeast(LiteralView),
    AtMostExcl(LiteralView),
    AtMost(LiteralView),
    Not(Box<FilterView>),
    Any(Seq<FilterView>),
    All(Seq<FilterView>),
}

impl VersionFilter {
    /// The expression as a value of the model.
    pub open spec fn model(self) -> FilterView
        decreases self, 0nat,
    {
        match self {
            VersionFilter::Version(l) => FilterView::Version(l@),
            VersionFilter::AtLeastExcl(l) => FilterView::AtLeastExcl(l@),
            VersionFilter::AtLeast(l) => FilterView::AtLeast(l@),
            VersionFilter::AtMostExcl(l) => FilterView::AtMostExcl(l@),
            VersionFilter::AtMost(l) => FilterView::AtMost(l@),
            VersionFilter::Not(f) => FilterView::Not(Box::new(f.model())),
            VersionFilter::Any(fs) => FilterView::Any(models_of(fs@)),
            VersionFilter::All(fs) => FilterView::All(models_of(fs@)),
        }
    }
}

/// The models of `filters`, in order.
pub open spec fn models_of(filters: Seq<VersionFilter>) -> Seq<FilterView>
    decreases filters, 1nat,
{
    Seq::new(
        filters.len(),
        |i: int|
            if 0 <= i < filters.len() {
                filters[i].model()
            } else {
                FilterView::Any(Seq::empty())
            },
    )
}

impl View for VersionFilter {
    type V = FilterView;

    open spec fn view(&self) -> FilterView {
        self.model()
    }
}

impl FilterView {
    /// Whether the filter admits the version named `candidate`, with the
    /// versions ordered as in `names`.
    ///
    /// A literal admits the names it is a prefix of. A bound compares the
    /// candidate's place in `names` with that of the version it names. An
    /// empty disjunction admits nothing, and neither does an empty
    /// conjunction.
    pub open spec fn admits(self, names: Seq<Seq<char>>, candidate: Seq<char>) -> bool
        decreases self,
    {
        match self {
            FilterView::Version(l) => l.value.is_prefix_of(candidate),
            FilterView::AtLeastExcl(l) => rank(names, candidate) > rank(names, l.value),
            FilterView::AtLeast(l) => rank(names, candidate) >= rank(names, l.value),
            FilterView::AtMostExcl(l) => rank(names, candidate) < rank(names, l.value),
            FilterView::AtMost(l) => rank(names, candidate) <= rank(names, l.value),
            FilterView::Not(f) => !f.admits(names, candidate),
            FilterView::Any(fs) => exists|i: int|
                0 <= i < fs.len() && (#[trigger] fs[i]).admits(names, candidate),
            FilterView::All(fs) => fs.len() > 0 && forall|i: int|
                0 <= i < fs.len() ==> (#[trigger] fs[i]).admits(names, candidate),
        }
    }

    /// Whether a bound occurs anywhere in the filter.
    pub open spec fn ordered(self) -> bool
        decreases self, 0nat,
    {
        match self {
            FilterView::Version(_) => false,
            FilterView::AtLeastExcl(_) => true,
            FilterView::AtLeast(_) => true,
            FilterView::AtMostExcl(_) => true,
            FilterView::AtMost(_) => true,
            FilterView::Not(f) => f.ordered(),
            FilterView::Any(fs) => ordered_among(fs, 0),
            FilterView::All(fs) => ordered_among(fs, 0),
        }
    }

    /// The first literal, reading the filter from left to right, by which a
    /// bound names a version that `names` lacks.
    pub open spec fn first_unknown(self, names: Seq<Seq<char>>) -> Option<LiteralView>
        decreases self, 0nat,
    {
        match self {
            FilterView::Version(_) => None,
            FilterView::AtLeastExcl(l) => unknown(l, names),
            FilterView::AtLeast(l) => unknown(l, names),
            FilterView::AtMostExcl(l) => unknown(l, names),
            FilterView::AtMost(l) => unknown(l, names),
            FilterView::Not(f) => f.first_unknown(names),
            FilterView::Any(fs) => first_unknown_among(fs, names, 0),
            FilterView::All(fs) => first_unknown_among(fs, names, 0),
        }
    }

    /// What asking the filter about `candidate` comes to: the first unknown
    /// reference if there is one; else, if a bound occurs and `names` lacks
    /// the candidate, that it is unknown; else whether the filter admits it.
    pub open spec fn verdict(self, names: Seq<Seq<char>>, candidate: Seq<char>) -> Result<
        bool,
        ErrorView,
    > {
        match self.first_unknown(names) {
            Some(l) => Err(ErrorView::UnknownVersionReference { name: l.value, at: l.at }),
            None => if self.ordered() && !names.contains(candidate) {
                Err(ErrorView::UnknownVersion { name: candidate })
            } else {
                Ok(self.admits(names, candidate))
            },
        }
    }
}

/// The literal itself if `names` lacks the version it names.
pub open spec fn unknown(l: LiteralView, names: Seq<Seq<char>>) -> Option<LiteralView> {
    if names.contains(l.value) {
        None
    } else {
        Some(l)
    }
}

/// Whether a bound occurs in one of the filters at `from` and after.
pub open spec fn ordered_among(filters: Seq<FilterView>, from: int) -> bool
    decreases filters, filters.len() - from,
{
    if from < 0 || from >= filters.len() {
        false
    } else {
        filters[from].ordered() || ordered_among(filters, from + 1)
    }
}

/// The first unknown reference in the filters at `from` and after.
pub open spec fn first_unknown_among(
    filters: Seq<FilterView>,
    names: Seq<Seq<char>>,
    from: int,
) -> Option<LiteralView>
    decreases filters, filters.len() - from,
{
    if from < 0 || from >= filters.len() {
        None
    } else {
        match filters[from].first_unknown(names) {
            Some(l) => Some(l),
            None => first_unknown_among(filters, names, from + 1),
        }
    }
}

/// No filter of `filters` holds an unknown reference exactly when the search
/// from the first of them finds none.
pub proof fn lemma_first_unknown_among(filters: Seq<FilterView>, names: Seq<Seq<char>>, from: int)
    requires
        0 <= from <= filters.len(),
    ensures
        first_unknown_among(filters, names, from) is None <==> forall|i: int|
            from <= i < filters.len() ==> (#[trigger] filters[i]).first_unknown(names) is None,
    decreases filters.len() - from,
{
    if from < filters.len() {
        lemma_first_unknown_among(filters, names, from + 1);
    }
}

/// A bound occurs among the filters from `from` on exactly when it occurs
/// in one of them.
pub proof fn lemma_ordered_among(filters: Seq<FilterView>, from: int)
    requires
        0 <= from <= filters.len(),
    ensures
        ordered_among(filters, from) <==> exists|i: int|
            from <= i < filters.len() && (#[trigger] filters[i]).ordered(),
    decreases filters.len() - from,
{
    if from < filters.len() {
        lemma_ordered_among(filters, from + 1);
    }
}

impl Clone for Literal {
    fn clone(&self) -> (res: Literal)
        ensures
            res@ == self@,
    {
        Literal { value: self.value.clone(), at: self.at }
    }
}

impl Clone for VersionFilter {
    fn clone(&self) -> (res: VersionFilter)
        ensures
            res@ == self@,
    {
        copy_filter(self)
    }
}

fn copy_filter(filter: &VersionFilter) -> (res: VersionFilter)
    ensures
        res@ == filter@,
    decreases filter,
{
    match filter {
        VersionFilter::Version(l) => VersionFilter::Version(l.clone()),
        VersionFilter::AtLeastExcl(l) => VersionFilter::AtLeastExcl(l.clone()),
        VersionFilter::AtLeast(l) => VersionFilter::AtLeast(l.clone()),
        VersionFilter::AtMostExcl(l) => VersionFilter::AtMostExcl(l.clone()),
        VersionFilter::AtMost(l) => VersionFilter::AtMost(l.clone()),
        VersionFilter::Not(f) => VersionFilter::Not(Box::new(copy_filter(f))),
        VersionFilter::Any(fs) => {
            let copies = copy_filters(fs);
            VersionFilter::Any(copies)
        },
        VersionFilter::All(fs) => {
            let copies = copy_filters(fs);
            VersionFilter::All(copies)
        },
    }
}

fn copy_filters(filters: &Vec<VersionFilter>) -> (res: Vec<VersionFilter>)
    ensures
        models_of(res@) == models_of(filters@),
    decreases filters,
{
    let mut res: Vec<VersionFilter> = Vec::new();
    let mut i: usize = 0;
    while i < filters.len()
        invariant
            i <= filters@.len(),
            res@.len() == i,
            forall|j: int| 0 <= j < i ==> res@[j]@ == filters@[j]@,
        decreases filters.len() - i,
    {
        res.push(copy_filter(&filters[i]));
        i += 1;
    }
    res
}

/// Something that lets some versions through and holds others back.
pub trait Filter {
    /// Whether the filter can be asked about `version` in `list`.
    spec fn applies(&self, list: &VersionList, version: &Version) -> bool;

    /// Whether the filter lets `version` through.
    spec fn admits(&self, list: &VersionList, version: &Version) -> bool;

    /// Examines whether the filter lets `version` through, with `list`
    /// giving the order of the versions.
    fn matches(&self, list: &VersionList, version: &Version) -> (res: bool)
        requires
            self.applies(list, version),
        ensures
            res == self.admits(list, version),
    ;
}

impl Filter for VersionFilter {
    /// Every bound names a version of the registry, and where there is a
    /// bound the registry holds the candidate too.
    open spec fn applies(&self, list: &VersionList, version: &Version) -> bool {
        &&& self@.first_unknown(list@) is None
        &&& self@.ordered() ==> list@.contains(version@)
    }

    open spec fn admits(&self, list: &VersionList, version: &Version) -> bool {
        self@.admits(list@, version@)
    }

    fn matches(&self, list: &VersionList, version: &Version) -> (res: bool) {
        admits(self, list, version)
    }
}

fn admits(filter: &VersionFilter, list: &VersionList, version: &Version) -> (res: bool)
    requires
        filter@.first_unknown(list@) is None,
        filter@.ordered() ==> list@.contains(version@),
    ensures
        res == filter@.admits(list@, version@),
    decreases filter,
{
    match filter {
        VersionFilter::Version(l) => starts_with(version.0.as_str(), l.value.as_str()),
        VersionFilter::AtLeastExcl(l) => list.rank_of(&version.0) > list.rank_of(&l.value),
        VersionFilter::AtLeast(l) => list.rank_of(&version.0) >= list.rank_of(&l.value),
        VersionFilter::AtMostExcl(l) => list.rank_of(&version.0) < list.rank_of(&l.value),
        VersionFilter::AtMost(l) => list.rank_of(&version.0) <= list.rank_of(&l.value),
        VersionFilter::Not(f) => !admits(f, list, version),
        VersionFilter::Any(fs) => {
            proof {
                lemma_first_unknown_among(models_of(fs@), list@, 0);
                lemma_ordered_among(models_of(fs@), 0);
            }
            any_admits(fs, list, version)
        },
        VersionFilter::All(fs) => {
            proof {
                lemma_first_unknown_among(models_of(fs@), list@, 0);
                lemma_ordered_among(models_of(fs@), 0);
            }
            fs.len() > 0 && all_admit(fs, list, version)
        },
    }
}

fn any_admits(filters: &Vec<VersionFilter>, list: &VersionList, version: &Version) -> (res: bool)
    requires
        forall|j: int|
            0 <= j < filters@.len() ==> (#[trigger] models_of(filters@)[j]).first_unknown(list@)
                is None,
        !list@.contains(version@) ==> forall|j: int|
            0 <= j < filters@.len() ==> !(#[trigger] models_of(filters@)[j]).ordered(),
    ensures
        res == exists|j: int|
            0 <= j < filters@.len() && (#[trigger] models_of(filters@)[j]).admits(
                list@,
                version@,
            ),
    decreases filters,
{
    let mut i: usize = 0;
    while i < filters.len()
        invariant
            i <= filters@.len(),
            forall|j: int|
                0 <= j < filters@.len() ==> (#[trigger] models_of(filters@)[j]).first_unknown(
                    list@,
                ) is None,
            !list@.contains(version@) ==> forall|j: int|
                0 <= j < filters@.len() ==> !(#[trigger] models_of(filters@)[j]).ordered(),
            forall|j: int|
                0 <= j < i ==> !(#[trigger] models_of(filters@)[j]).admits(list@, version@),
        decreases filters.len() - i,
    {
        assert(models_of(filters@)[i as int] == filters@[i as int]@);
        if admits(&filters[i], list, version) {
            return true;
        }
        i += 1;
    }
    false
}

fn all_admit(filters: &Vec<VersionFilter>, list: &VersionList, version: &Version) -> (res: bool)
    requires
        forall|j: int|
            0 <= j < filters@.len() ==> (#[trigger] models_of(filters@)[j]).first_unknown(list@)
                is None,
        !list@.contains(version@) ==> forall|j: int|
            0 <= j < filters@.len() ==> !(#[trigger] models_of(filters@)[j]).ordered(),
    ensures
        res == forall|j: int|
            0 <= j < filters@.len() ==> (#[trigger] models_of(filters@)[j]).admits(
                list@,
                version@,
            ),
    decreases filters,
{
    let mut i: usize = 0;
    while i < filters.len()
        invariant
            i <= filters@.len(),
            forall|j: int|
                0 <= j < filters@.len() ==> (#[trigger] models_of(filters@)[j]).first_unknown(
                    list@,
                ) is None,
            !list@.contains(version@) ==> forall|j: int|
                0 <= j < filters@.len() ==> !(#[trigger] models_of(filters@)[j]).ordered(),
            forall|j: int|
                0 <= j < i ==> (#[trigger] models_of(filters@)[j]).admits(list@, version@),
        decreases filters.len() - i,
    {
        assert(models_of(filters@)[i as int] == filters@[i as int]@);
        if !admits(&filters[i], list, version) {
            return false;
        }
        i += 1;
    }
    true
}

/// The error that reports `l` as an unknown reference, if the registry lacks
/// the version it names.
fn verify_literal(l: &Literal, list: &VersionList) -> (res: Result<(), Error>)
    ensures
        res is Ok <==> unknown(l@, list@) is None,
        res matches Err(e) ==> e@ == (ErrorView::UnknownVersionReference {
            name: l@.value,
            at: l@.at,
        }),
{
    if list.contains(l.value.as_str()) {
        Ok(())
    } else {
        Err(Error::UnknownVersionReference { name: l.value.clone(), at: l.at })
    }
}

fn verify_filter(filter: &VersionFilter, list: &VersionList) -> (res: Result<(), Error>)
    ensures
        res is Ok <==> filter@.first_unknown(list@) is None,
        res matches Err(e) ==> filter@.first_unknown(list@) matches Some(l) && e@
            == (ErrorView::UnknownVersionReference { name: l.value, at: l.at }),
    decreases filter,
{
    match filter {
        VersionFilter::Version(_) => Ok(()),
        VersionFilter::AtLeastExcl(l) => verify_literal(l, list),
        VersionFilter::AtLeast(l) => verify_literal(l, list),
        VersionFilter::AtMostExcl(l) => verify_literal(l, list),
        VersionFilter::AtMost(l) => verify_literal(l, list),
        VersionFilter::Not(f) => verify_filter(f, list),
        VersionFilter::Any(fs) => {
            verify_filters(fs, list)
        },
        VersionFilter::All(fs) => {
            verify_filters(fs, list)
        },
    }
}

fn verify_filters(filters: &Vec<VersionFilter>, list: &VersionList) -> (res: Result<(), Error>)
    ensures
        res is Ok <==> first_unknown_among(models_of(filters@), list@, 0) is None,
        res matches Err(e) ==> first_unknown_among(models_of(filters@), list@, 0) matches Some(l)
            && e@ == (ErrorView::UnknownVersionReference { name: l.value, at: l.at }),
    decreases filters,
{
    let mut i: usize = 0;
    while i < filters.len()
        invariant
            i <= filters@.len(),
            first_unknown_among(models_of(filters@), list@, 0) == first_unknown_among(
                models_of(filters@),
                list@,
                i as int,
            ),
        decreases filters.len() - i,
    {
        match verify_filter(&filters[i], list) {
            Ok(()) => {},
            Err(e) => {
                return Err(e);
            },
        }
        i += 1;
    }
    Ok(())
}

fn is_ordered(filter: &VersionFilter) -> (res: bool)
    ensures
        res == filter@.ordered(),
    decreases filter,
{
    match filter {
        VersionFilter::Version(_) => false,
        VersionFilter::AtLeastExcl(_) => true,
        VersionFilter::AtLeast(_) => true,
        VersionFilter::AtMostExcl(_) => true,
        VersionFilter::AtMost(_) => true,
        VersionFilter::Not(f) => is_ordered(f),
        VersionFilter::Any(fs) => {
            any_ordered(fs)
        },
        VersionFilter::All(fs) => {
            any_ordered(fs)
        },
    }
}

fn any_ordered(filters: &Vec<VersionFilter>) -> (res: bool)
    ensures
        res == ordered_among(models_of(filters@), 0),
    decreases filters,
{
    let mut i: usize = 0;
    while i < filters.len()
        invariant
            i <= filters@.len(),
            ordered_among(models_of(filters@), 0) == ordered_among(models_of(filters@), i as int),
        decreases filters.len() - i,
    {
        if is_ordered(&filters[i]) {
            return true;
        }
        i += 1;
    }
    false
}

impl VersionFilter {
    /// Verifies that every bound of the filter names a version of `list`.
    /// The first that does not, reading from left to right, is reported with
    /// its literal and its place. A literal that stands alone is a pattern
    /// and refers to nothing: it never fails.
    pub fn verify(&self, list: &VersionList) -> (res: Result<(), Error>)
        ensures
            res is Ok <==> self@.first_unknown(list@) is None,
            res matches Err(e) ==> self@.first_unknown(list@) matches Some(l) && e@
                == (ErrorView::UnknownVersionReference { name: l.value, at: l.at }),
    {
        verify_filter(self, list)
    }

    /// Whether a bound occurs anywhere in the filter.
    pub fn ordered(&self) -> (res: bool)
        ensures
            res == self@.ordered(),
    {
        is_ordered(self)
    }

    /// Verifies the filter against `list` and then asks it about `version`.
    ///
    /// Fails with the first unknown reference if there is one, and with
    /// `UnknownVersion` if a bound occurs and `list` lacks `version`.
    pub fn check(&self, list: &VersionList, version: &Version) -> (res: Result<bool, Error>)
        ensures
            res matches Ok(b) ==> self@.verdict(list@, version@) == Ok::<bool, ErrorView>(b),
            res matches Err(e) ==> self@.verdict(list@, version@) == Err::<bool, ErrorView>(e@),
    {
        match self.verify(list) {
            Ok(()) => {},
            Err(e) => {
                return Err(e);
            },
        }
        if self.ordered() && !list.contains(version.0.as_str()) {
            return Err(Error::UnknownVersion { name: version.0.clone() });
        }
        Ok(self.matches(list, version))
    }
}

/// Negation turns the answer of a filter around, for every registry and
/// every version.
pub proof fn law_negation(filter: FilterView, names: Seq<Seq<char>>, candidate: Seq<char>)
    ensures
        FilterView::Not(Box::new(filter)).admits(names, candidate) == !filter.admits(
            names,
            candidate,
        ),
{
}

/// A disjunction of nothing and a conjunction of nothing both admit no
/// version at all.
pub proof fn law_empty_lists(names: Seq<Seq<char>>, candidate: Seq<char>)
    ensures
        !FilterView::Any(Seq::empty()).admits(names, candidate),
        !FilterView::All(Seq::empty()).admits(names, candidate),
{
}

/// The empty pattern admits every version.
pub proof fn law_empty_pattern(at: Location, names: Seq<Seq<char>>, candidate: Seq<char>)
    ensures
        FilterView::Version(LiteralView { value: Seq::empty(), at }).admits(names, candidate),
{
}

/// The conjunction of nothing names no version and holds no bound, so that
/// it can be asked about any version in any registry; and the answer is no.
pub proof fn law_empty_conjunction_verdict(names: Seq<Seq<char>>, candidate: Seq<char>)
    ensures
        FilterView::All(Seq::empty()).verdict(names, candidate) == Ok::<bool, ErrorView>(false),
{
    let nothing = Seq::<FilterView>::empty();
    assert(first_unknown_among(nothing, names, 0) is None);
    assert(!ordered_among(nothing, 0));
}

} // verus!
