//! Versions and the registry that orders them.

use vstd::prelude::*;
use crate::error::Error;
use crate::error::ErrorView;

verus! {

/// A version: a name and nothing else. What comes before what is decided by
/// the registry it stands in, never by the name.
#[derive(Debug, PartialEq, Eq)]
pub struct Version(pub String);

impl Clone for Version {
    fn clone(&self) -> (res: Version)
        ensures
            res@ == self@,
    {
        Version(self.0.clone())
    }
}

impl View for Version {
    type V = Seq<char>;

    open spec fn view(&self) -> Seq<char> {
        self.0@
    }
}

/// The names of `versions`, in order.
pub open spec fn names_of(versions: Seq<Version>) -> Seq<Seq<char>> {
    Seq::new(versions.len(), |i: int| versions[i]@)
}

/// The names of a list that grew by one version grew by its name.
pub proof fn lemma_names_push(versions: Seq<Version>, version: Version)
    ensures
        names_of(versions.push(version)) == names_of(versions).push(version@),
{
}

/// The place of the first `name` in `names` at or after `from`, or the length
/// of `names` if there is none.
pub open spec fn rank_from(names: Seq<Seq<char>>, name: Seq<char>, from: int) -> int
    decreases names.len() - from,
{
    if from < 0 || from >= names.len() {
        names.len() as int
    } else if names[from] == name {
        from
    } else {
        rank_from(names, name, from + 1)
    }
}

/// The place of `name` in `names`: the index of its first occurrence, or the
/// length of `names` if it does not occur.
pub open spec fn rank(names: Seq<Seq<char>>, name: Seq<char>) -> int {
    rank_from(names, name, 0)
}

/// Whether the name at `j` already stands at an earlier place.
pub open spec fn repeated(names: Seq<Seq<char>>, j: int) -> bool {
    exists|i: int| 0 <= i < j && names[i] == names[j]
}

/// The first place at or after `from` whose name already stands at an
/// earlier place.
pub open spec fn first_repeat_from(names: Seq<Seq<char>>, from: int) -> Option<int>
    decreases names.len() - from,
{
    if from < 0 || from >= names.len() {
        None
    } else if repeated(names, from) {
        Some(from)
    } else {
        first_repeat_from(names, from + 1)
    }
}

/// The first place whose name already stands at an earlier place.
pub open spec fn first_repeat(names: Seq<Seq<char>>) -> Option<int> {
    first_repeat_from(names, 0)
}

/// Without a first repeat there is none at all.
pub proof fn lemma_first_repeat_from(names: Seq<Seq<char>>, from: int)
    requires
        0 <= from <= names.len(),
    ensures
        first_repeat_from(names, from) matches Some(j) ==> from <= j < names.len() && repeated(
            names,
            j,
        ),
        first_repeat_from(names, from) is None ==> forall|j: int|
            from <= j < names.len() ==> !repeated(names, j),
    decreases names.len() - from,
{
    if from < names.len() && !repeated(names, from) {
        lemma_first_repeat_from(names, from + 1);
    }
}

/// No name repeats exactly when no two places hold the same name.
pub proof fn lemma_first_repeat(names: Seq<Seq<char>>)
    ensures
        first_repeat(names) is None <==> names.no_duplicates(),
        first_repeat(names) matches Some(j) ==> 0 <= j < names.len(),
{
    lemma_first_repeat_from(names, 0);
    if first_repeat(names) is None {
        assert forall|a: int, b: int|
            0 <= a < names.len() && 0 <= b < names.len() && a != b implies names[a]
            != names[b] by {
            if a < b {
                assert(!repeated(names, b));
            } else {
                assert(!repeated(names, a));
            }
        }
    } else {
        let j = first_repeat(names)->0;
        let i = choose|i: int| 0 <= i < j && names[i] == names[j];
    }
}

/// `rank_from` finds the first occurrence at or after `from`, and only that.
pub proof fn lemma_rank_from(names: Seq<Seq<char>>, name: Seq<char>, from: int)
    requires
        0 <= from <= names.len(),
    ensures
        from <= rank_from(names, name, from) <= names.len(),
        rank_from(names, name, from) < names.len() ==> names[rank_from(names, name, from)] == name,
        forall|j: int| from <= j < rank_from(names, name, from) ==> names[j] != name,
    decreases names.len() - from,
{
    if from < names.len() && names[from] != name {
        lemma_rank_from(names, name, from + 1);
    }
}

/// `rank` is the least index that holds `name`, and is the length exactly
/// when `name` does not occur.
pub proof fn lemma_rank(names: Seq<Seq<char>>, name: Seq<char>)
    ensures
        0 <= rank(names, name) <= names.len(),
        rank(names, name) < names.len() ==> names[rank(names, name)] == name,
        forall|j: int| 0 <= j < rank(names, name) ==> names[j] != name,
        rank(names, name) < names.len() <==> names.contains(name),
{
    lemma_rank_from(names, name, 0);
    if names.contains(name) {
        let i = choose|i: int| 0 <= i < names.len() && names[i] == name;
    }
}

/// The registry: the versions of one invocation, in the order in which they
/// were given. No name stands in it twice, and a version's place in it is
/// all that orders it against another.
#[derive(Debug, PartialEq, Eq)]
pub struct VersionList {
    versions: Vec<Version>,
}

impl View for VersionList {
    type V = Seq<Seq<char>>;

    closed spec fn view(&self) -> Seq<Seq<char>> {
        names_of(self.versions@)
    }
}

impl Clone for VersionList {
    fn clone(&self) -> (res: VersionList)
        ensures
            res@ == self@,
    {
        proof {
            use_type_invariant(self);
        }
        let mut versions: Vec<Version> = Vec::new();
        let mut i: usize = 0;
        while i < self.versions.len()
            invariant
                i <= self.versions@.len(),
                names_of(versions@) == names_of(self.versions@).take(i as int),
            decreases self.versions.len() - i,
        {
            let version = self.versions[i].clone();
            proof {
                lemma_names_push(versions@, version);
            }
            versions.push(version);
            i += 1;
        }
        VersionList { versions }
    }
}

/// The place of `name` among the first `limit` of `versions`, or `limit`.
fn find(versions: &Vec<Version>, name: &String, limit: usize) -> (r: usize)
    requires
        limit <= versions@.len(),
    ensures
        r == rank(names_of(versions@).take(limit as int), name@),
{
    let ghost names = names_of(versions@).take(limit as int);
    let mut i: usize = 0;
    while i < limit
        invariant
            i <= limit <= versions@.len(),
            names == names_of(versions@).take(limit as int),
            rank(names, name@) == rank_from(names, name@, i as int),
        decreases limit - i,
    {
        if versions[i].0 == *name {
            return i;
        }
        i += 1;
    }
    i
}

impl VersionList {
    #[verifier::type_invariant]
    spec fn unique(self) -> bool {
        names_of(self.versions@).no_duplicates()
    }

    /// Makes a registry of `versions`, in their order, unless a name repeats:
    /// then the first name that stands at an earlier place too is reported.
    pub fn new(versions: Vec<Version>) -> (res: Result<VersionList, Error>)
        ensures
            res matches Ok(list) ==> first_repeat(names_of(versions@)) is None && list@ == names_of(
                versions@,
            ),
            res matches Err(e) ==> first_repeat(names_of(versions@)) matches Some(j) && e@
                == (ErrorView::DuplicateVersion { name: names_of(versions@)[j] }),
    {
        let ghost names = names_of(versions@);
        let mut j: usize = 0;
        while j < versions.len()
            invariant
                j <= versions@.len(),
                names == names_of(versions@),
                first_repeat(names) == first_repeat_from(names, j as int),
            decreases versions.len() - j,
        {
            let r = find(&versions, &versions[j].0, j);
            proof {
                lemma_rank(names.take(j as int), names[j as int]);
            }
            if r < j {
                return Err(Error::DuplicateVersion { name: versions[j].0.clone() });
            }
            assert(!repeated(names, j as int)) by {
                if repeated(names, j as int) {
                    let i = choose|i: int| 0 <= i < j && names[i] == names[j as int];
                    assert(names.take(j as int)[i] == names[j as int]);
                }
            }
            j += 1;
        }
        proof {
            lemma_first_repeat(names);
        }
        Ok(VersionList { versions })
    }

    /// How many versions the registry holds.
    pub fn len(&self) -> (n: usize)
        ensures
            n == self@.len(),
            self@.no_duplicates(),
    {
        proof {
            use_type_invariant(self);
        }
        self.versions.len()
    }

    /// The version at place `i`.
    pub fn get(&self, i: usize) -> (v: &Version)
        requires
            i < self@.len(),
        ensures
            v@ == self@[i as int],
    {
        &self.versions[i]
    }

    /// The place of `name`: the index of its first occurrence, or the number
    /// of versions if the registry lacks it.
    pub(crate) fn rank_of(&self, name: &String) -> (r: usize)
        ensures
            r == rank(self@, name@),
    {
        let r = find(&self.versions, name, self.versions.len());
        assert(self@.take(self@.len() as int) =~= self@);
        r
    }

    /// The place of `name`, or `UnknownVersion` if the registry lacks it.
    pub fn index_of(&self, name: &str) -> (res: Result<usize, Error>)
        ensures
            res matches Ok(i) ==> i == rank(self@, name@) && i < self@.len() && self@[i as int]
                == name@,
            res matches Err(e) ==> !self@.contains(name@) && e@ == (ErrorView::UnknownVersion {
                name: name@,
            }),
    {
        let key = String::from_str(name);
        let r = find(&self.versions, &key, self.versions.len());
        proof {
            assert(self@.take(self@.len() as int) =~= self@);
            lemma_rank(self@, name@);
        }
        if r < self.versions.len() {
            Ok(r)
        } else {
            Err(Error::UnknownVersion { name: key })
        }
    }

    /// Whether the registry holds `name`.
    pub fn contains(&self, name: &str) -> (b: bool)
        ensures
            b == self@.contains(name@),
    {
        let key = String::from_str(name);
        let r = find(&self.versions, &key, self.versions.len());
        proof {
            assert(self@.take(self@.len() as int) =~= self@);
            lemma_rank(self@, name@);
        }
        r < self.versions.len()
    }
}

} // verus!
