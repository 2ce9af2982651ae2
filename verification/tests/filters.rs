use versioning::error::Error;
use versioning::error::Location;
use versioning::filter::Filter;
use versioning::filter::Literal;
use versioning::filter::VersionFilter;
use versioning::version::Version;
use versioning::version::VersionList;

fn lit(value: &str) -> Literal {
    Literal { value: value.to_string(), at: Location { origin: 7, offset: 3 } }
}

fn version(name: &str) -> Version {
    Version(name.to_string())
}

fn registry(names: &[&str]) -> VersionList {
    VersionList::new(names.iter().map(|n| version(n)).collect()).unwrap()
}

fn four() -> VersionList {
    registry(&["v1_0_0", "v1_0_1", "v1_1_0", "v2_0_0"])
}

fn answers(filter: &VersionFilter, list: &VersionList) -> Vec<bool> {
    (0..list.len()).map(|i| filter.matches(list, list.get(i))).collect()
}

#[test]
fn registry_keeps_the_given_order() {
    let list = registry(&["b", "a", "c"]);
    assert_eq!(list.len(), 3);
    assert_eq!(list.get(0), &version("b"));
    assert_eq!(list.get(1), &version("a"));
    assert_eq!(list.get(2), &version("c"));
    assert_eq!(list.index_of("b"), Ok(0));
    assert_eq!(list.index_of("a"), Ok(1));
    assert_eq!(list.index_of("c"), Ok(2));
    assert!(list.contains("a"));
    assert!(!list.contains("d"));
}

#[test]
fn registry_refuses_a_repeated_name() {
    let res = VersionList::new(vec![version("v1"), version("v2"), version("v1")]);
    assert_eq!(res, Err(Error::DuplicateVersion { name: "v1".to_string() }));
}

#[test]
fn registry_reports_the_first_repeat() {
    let res = VersionList::new(vec![
        version("a"),
        version("b"),
        version("c"),
        version("b"),
        version("a"),
    ]);
    assert_eq!(res, Err(Error::DuplicateVersion { name: "b".to_string() }));
}

#[test]
fn registry_may_be_empty() {
    let list = registry(&[]);
    assert_eq!(list.len(), 0);
    assert!(!list.contains("v1"));
}

#[test]
fn registry_does_not_know_a_missing_name() {
    let list = registry(&["v1", "v2"]);
    assert_eq!(list.index_of("v3"), Err(Error::UnknownVersion { name: "v3".to_string() }));
    assert_eq!(list.index_of("v"), Err(Error::UnknownVersion { name: "v".to_string() }));
}

#[test]
fn registry_clone_is_equal() {
    let list = four();
    assert_eq!(list.clone(), list);
}

#[test]
fn pattern_matches_by_prefix() {
    let list = four();
    assert_eq!(
        answers(&VersionFilter::Version(lit("v1")), &list),
        vec![true, true, true, false]
    );
    assert_eq!(
        answers(&VersionFilter::Version(lit("v1_0")), &list),
        vec![true, true, false, false]
    );
    assert_eq!(
        answers(&VersionFilter::Version(lit("v2_0_0")), &list),
        vec![false, false, false, true]
    );
    assert_eq!(
        answers(&VersionFilter::Version(lit("v2_0_0_1")), &list),
        vec![false, false, false, false]
    );
    assert_eq!(
        answers(&VersionFilter::Version(lit("1_0")), &list),
        vec![false, false, false, false]
    );
}

#[test]
fn empty_pattern_matches_every_version() {
    let list = four();
    let filter = VersionFilter::Version(lit(""));
    assert_eq!(answers(&filter, &list), vec![true, true, true, true]);
    assert!(filter.matches(&list, &version("not_in_the_registry")));
    assert!(filter.matches(&registry(&[]), &version("")));
}

#[test]
fn bounds_compare_places() {
    let list = four();
    assert_eq!(
        answers(&VersionFilter::AtLeast(lit("v1_0_1")), &list),
        vec![false, true, true, true]
    );
    assert_eq!(
        answers(&VersionFilter::AtLeastExcl(lit("v1_0_1")), &list),
        vec![false, false, true, true]
    );
    assert_eq!(
        answers(&VersionFilter::AtMost(lit("v1_0_1")), &list),
        vec![true, true, false, false]
    );
    assert_eq!(
        answers(&VersionFilter::AtMostExcl(lit("v1_0_1")), &list),
        vec![true, false, false, false]
    );
}

#[test]
fn bounds_go_by_place_and_not_by_name() {
    let list = registry(&["z", "a", "m"]);
    assert_eq!(answers(&VersionFilter::AtLeast(lit("a")), &list), vec![false, true, true]);
    assert_eq!(answers(&VersionFilter::AtMost(lit("a")), &list), vec![true, true, false]);
    assert_eq!(answers(&VersionFilter::AtMostExcl(lit("z")), &list), vec![false, false, false]);
    assert_eq!(answers(&VersionFilter::AtLeastExcl(lit("m")), &list), vec![false, false, false]);
}

#[test]
fn negation_turns_the_answer_around() {
    let list = four();
    let inner = [
        VersionFilter::Version(lit("v1_0")),
        VersionFilter::AtLeast(lit("v1_1_0")),
        VersionFilter::Any(vec![]),
        VersionFilter::All(vec![VersionFilter::Version(lit("v"))]),
    ];
    for f in inner.iter() {
        let plain = answers(f, &list);
        let negated = answers(&VersionFilter::Not(Box::new(f.clone())), &list);
        for i in 0..plain.len() {
            assert_eq!(negated[i], !plain[i]);
        }
    }
    assert_eq!(
        answers(&VersionFilter::Not(Box::new(VersionFilter::Version(lit("v1_0")))), &list),
        vec![false, false, true, true]
    );
}

#[test]
fn empty_any_and_empty_all_match_nothing() {
    let list = four();
    assert_eq!(answers(&VersionFilter::Any(vec![]), &list), vec![false, false, false, false]);
    assert_eq!(answers(&VersionFilter::All(vec![]), &list), vec![false, false, false, false]);
    assert!(!VersionFilter::All(vec![]).matches(&registry(&[]), &version("v9")));
    assert!(!VersionFilter::Any(vec![]).matches(&registry(&[]), &version("v9")));
}

#[test]
fn not_of_empty_all_matches_everything() {
    let list = four();
    let filter = VersionFilter::Not(Box::new(VersionFilter::All(vec![])));
    assert_eq!(answers(&filter, &list), vec![true, true, true, true]);
}

#[test]
fn any_needs_one_and_all_needs_each() {
    let list = four();
    let parts = vec![
        VersionFilter::Version(lit("v1")),
        VersionFilter::AtLeast(lit("v1_1_0")),
    ];
    assert_eq!(answers(&VersionFilter::Any(parts.clone()), &list), vec![true, true, true, true]);
    assert_eq!(answers(&VersionFilter::All(parts), &list), vec![false, false, true, false]);
}

#[test]
fn filters_nest() {
    let list = four();
    let filter = VersionFilter::All(vec![
        VersionFilter::Any(vec![
            VersionFilter::Version(lit("v1_0_0")),
            VersionFilter::Version(lit("v2")),
        ]),
        VersionFilter::Not(Box::new(VersionFilter::AtMostExcl(lit("v1_0_1")))),
    ]);
    assert_eq!(answers(&filter, &list), vec![false, false, false, true]);
}

#[test]
fn verify_accepts_known_references() {
    let list = four();
    let filter = VersionFilter::Any(vec![
        VersionFilter::AtLeast(lit("v1_1_0")),
        VersionFilter::Not(Box::new(VersionFilter::AtMost(lit("v1_0_0")))),
    ]);
    assert_eq!(filter.verify(&list), Ok(()));
}

#[test]
fn verify_never_fails_on_a_pattern() {
    let list = four();
    assert_eq!(VersionFilter::Version(lit("v9_9_9")).verify(&list), Ok(()));
    assert_eq!(VersionFilter::Version(lit("")).verify(&registry(&[])), Ok(()));
    assert_eq!(
        VersionFilter::Not(Box::new(VersionFilter::Version(lit("nothing")))).verify(&list),
        Ok(())
    );
}

#[test]
fn verify_wants_the_whole_name() {
    let list = four();
    let at = Location { origin: 2, offset: 4 };
    let filter = VersionFilter::AtMost(Literal { value: "v1_0".to_string(), at });
    assert_eq!(
        filter.verify(&list),
        Err(Error::UnknownVersionReference { name: "v1_0".to_string(), at })
    );
}

#[test]
fn verify_reports_each_kind_of_bound() {
    let list = registry(&["v1", "v2"]);
    let at = Location { origin: 1, offset: 9 };
    let unknown = || Literal { value: "v9_9_9".to_string(), at };
    let expected = Err(Error::UnknownVersionReference { name: "v9_9_9".to_string(), at });
    assert_eq!(VersionFilter::AtMost(unknown()).verify(&list), expected);
    assert_eq!(VersionFilter::AtMostExcl(unknown()).verify(&list), expected);
    assert_eq!(VersionFilter::AtLeast(unknown()).verify(&list), expected);
    assert_eq!(VersionFilter::AtLeastExcl(unknown()).verify(&list), expected);
}

#[test]
fn verify_reports_the_first_unknown_reference() {
    let list = registry(&["v1", "v2"]);
    let first = Location { origin: 5, offset: 10 };
    let second = Location { origin: 5, offset: 20 };
    let filter = VersionFilter::All(vec![
        VersionFilter::Version(lit("zzz")),
        VersionFilter::AtLeast(lit("v1")),
        VersionFilter::Any(vec![
            VersionFilter::Not(Box::new(VersionFilter::AtMost(Literal {
                value: "v3".to_string(),
                at: first,
            }))),
        ]),
        VersionFilter::AtMost(Literal { value: "v4".to_string(), at: second }),
    ]);
    assert_eq!(
        filter.verify(&list),
        Err(Error::UnknownVersionReference { name: "v3".to_string(), at: first })
    );
}

#[test]
fn ordered_tells_bounds_from_patterns() {
    assert!(!VersionFilter::Version(lit("v1")).ordered());
    assert!(!VersionFilter::All(vec![]).ordered());
    assert!(VersionFilter::AtMost(lit("v1")).ordered());
    assert!(VersionFilter::Any(vec![
        VersionFilter::Version(lit("a")),
        VersionFilter::Not(Box::new(VersionFilter::AtLeastExcl(lit("b")))),
    ])
    .ordered());
    assert!(!VersionFilter::Any(vec![
        VersionFilter::Version(lit("a")),
        VersionFilter::Not(Box::new(VersionFilter::Version(lit("b")))),
    ])
    .ordered());
}

#[test]
fn check_verifies_before_it_answers() {
    let list = registry(&["v1", "v2"]);
    let at = Location { origin: 0, offset: 4 };
    let filter = VersionFilter::AtMost(Literal { value: "v9_9_9".to_string(), at });
    assert_eq!(
        filter.check(&list, &version("v1")),
        Err(Error::UnknownVersionReference { name: "v9_9_9".to_string(), at })
    );
    assert_eq!(VersionFilter::AtMost(lit("v1")).check(&list, &version("v1")), Ok(true));
    assert_eq!(VersionFilter::AtMost(lit("v1")).check(&list, &version("v2")), Ok(false));
}

#[test]
fn check_needs_the_candidate_only_for_bounds() {
    let list = registry(&["v1", "v2"]);
    assert_eq!(
        VersionFilter::AtLeast(lit("v1")).check(&list, &version("v3")),
        Err(Error::UnknownVersion { name: "v3".to_string() })
    );
    assert_eq!(VersionFilter::Version(lit("v")).check(&list, &version("v3")), Ok(true));
    assert_eq!(VersionFilter::All(vec![]).check(&list, &version("v3")), Ok(false));
}

#[test]
fn filter_clone_is_equal() {
    let filter = VersionFilter::All(vec![
        VersionFilter::Any(vec![VersionFilter::Version(lit("a")), VersionFilter::AtMost(lit("b"))]),
        VersionFilter::Not(Box::new(VersionFilter::AtLeastExcl(lit("c")))),
        VersionFilter::AtLeast(lit("d")),
        VersionFilter::AtMostExcl(lit("e")),
    ]);
    assert_eq!(filter.clone(), filter);
}
