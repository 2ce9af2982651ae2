use versioning::error::Error;
use versioning::error::Location;
use versioning::error::Setting;
use versioning::error::Syntax;
use versioning::error::ARGUMENTS;
use versioning::tree::Attribute;
use versioning::tree::BodyItem;
use versioning::tree::Form;
use versioning::tree::Header;
use versioning::tree::Member;
use versioning::tree::Shape;
use versioning::tree::Visibility;
use versioning::version::Version;
use versioning::version::VersionList;
use versioning::versioning::call;
use versioning::versioning::emit;
use versioning::versioning::Options;

fn version(name: &str) -> Version {
    Version(name.to_string())
}

fn registry(names: &[&str]) -> VersionList {
    VersionList::new(names.iter().map(|n| version(n)).collect()).unwrap()
}

fn tag(args: &str) -> Attribute {
    Attribute { path: "version".to_string(), form: Form::List(args.to_string()), origin: 1 }
}

fn other(path: &str) -> Attribute {
    Attribute { path: path.to_string(), form: Form::Path, origin: 2 }
}

fn gate(name: &str) -> Attribute {
    Attribute {
        path: "cfg".to_string(),
        form: Form::List(format!("feature = \"{}\"", name)),
        origin: ARGUMENTS,
    }
}

fn member(attrs: Vec<Attribute>, text: &str) -> Member {
    Member { attrs, text: text.to_string() }
}

fn header(attrs: Vec<Attribute>, vis: Option<Visibility>, text: &str) -> Header {
    Header { attrs, vis, text: text.to_string() }
}

fn record(attrs: Vec<Attribute>, vis: Visibility, fields: Vec<Member>) -> BodyItem {
    BodyItem::Struct {
        header: header(attrs, Some(vis), "struct S"),
        shape: Shape::Named,
        fields,
        tail: String::new(),
    }
}

fn module(attrs: Vec<Attribute>, vis: Visibility, name: &str, items: Vec<BodyItem>) -> BodyItem {
    BodyItem::Module {
        header: header(attrs, Some(vis), "mod"),
        name: name.to_string(),
        content: Some(items),
    }
}

fn plain() -> Options {
    Options { features: false, nest_toplevel_modules: false }
}

#[test]
fn two_fields_two_versions() {
    let root = module(
        vec![],
        Visibility::Public,
        "defs",
        vec![record(
            vec![],
            Visibility::Public,
            vec![member(vec![tag("\"v1\"")], "one: u8"), member(vec![tag("\"v2\"")], "two: u8")],
        )],
    );
    let got = emit(&root, &registry(&["v1", "v2"]), plain()).unwrap();
    assert_eq!(
        got,
        vec![
            (
                version("v1"),
                module(
                    vec![],
                    Visibility::Public,
                    "v1",
                    vec![record(vec![], Visibility::Public, vec![member(vec![], "one: u8")])],
                ),
            ),
            (
                version("v2"),
                module(
                    vec![],
                    Visibility::Public,
                    "v2",
                    vec![record(vec![], Visibility::Public, vec![member(vec![], "two: u8")])],
                ),
            ),
        ]
    );
}

#[test]
fn bounds_split_four_versions_in_two() {
    let root = record(
        vec![],
        Visibility::Inherited,
        vec![
            member(vec![tag("max(\"v1_0_1\")")], "a: u8"),
            member(vec![tag("min(\"v1_1_0\")")], "b: u8"),
        ],
    );
    let got = call("v1_0_0, v1_0_1, v1_1_0, v2_0_0", &root).unwrap();
    let only = |name: &str, field: &str| {
        (
            version(name),
            module(
                vec![],
                Visibility::Inherited,
                name,
                vec![record(vec![], Visibility::Public, vec![member(vec![], field)])],
            ),
        )
    };
    assert_eq!(
        got,
        vec![
            only("v1_0_0", "a: u8"),
            only("v1_0_1", "a: u8"),
            only("v1_1_0", "b: u8"),
            only("v2_0_0", "b: u8"),
        ]
    );
}

#[test]
fn declaration_is_wrapped_and_made_public() {
    let root = record(
        vec![other("derive")],
        Visibility::Restricted("pub(crate)".to_string()),
        vec![member(vec![], "a: u8")],
    );
    let got = emit(&root, &registry(&["v1"]), plain()).unwrap();
    assert_eq!(
        got,
        vec![(
            version("v1"),
            module(
                vec![],
                Visibility::Restricted("pub(crate)".to_string()),
                "v1",
                vec![record(vec![other("derive")], Visibility::Public, vec![member(vec![], "a: u8")])],
            ),
        )]
    );
}

#[test]
fn wrapper_of_what_has_no_visibility_has_the_inherited_one() {
    let root = BodyItem::Leaf { header: header(vec![], None, "macro_rules! m { () => {} }") };
    let got = emit(&root, &registry(&["v1"]), plain()).unwrap();
    assert_eq!(
        got,
        vec![(version("v1"), module(vec![], Visibility::Inherited, "v1", vec![root.clone()]))]
    );
}

#[test]
fn module_is_renamed_in_place() {
    let root = module(
        vec![other("allow")],
        Visibility::Restricted("pub(super)".to_string()),
        "defs",
        vec![],
    );
    let got = emit(&root, &registry(&["a", "b"]), plain()).unwrap();
    assert_eq!(
        got,
        vec![
            (
                version("a"),
                module(
                    vec![other("allow")],
                    Visibility::Restricted("pub(super)".to_string()),
                    "a",
                    vec![],
                ),
            ),
            (
                version("b"),
                module(
                    vec![other("allow")],
                    Visibility::Restricted("pub(super)".to_string()),
                    "b",
                    vec![],
                ),
            ),
        ]
    );
}

#[test]
fn module_is_wrapped_where_asked() {
    let root = module(vec![], Visibility::Inherited, "defs", vec![]);
    let opts = Options { features: false, nest_toplevel_modules: true };
    let got = emit(&root, &registry(&["v1"]), opts).unwrap();
    assert_eq!(
        got,
        vec![(
            version("v1"),
            module(
                vec![],
                Visibility::Inherited,
                "v1",
                vec![module(vec![], Visibility::Public, "defs", vec![])],
            ),
        )]
    );
    let same = call("v1, nestTopLevel = true", &root).unwrap();
    assert_eq!(same, got);
}

#[test]
fn variants_are_gated_where_asked() {
    let root = module(vec![other("allow")], Visibility::Public, "defs", vec![]);
    let opts = Options { features: true, nest_toplevel_modules: false };
    let got = emit(&root, &registry(&["v1", "v2"]), opts).unwrap();
    assert_eq!(
        got,
        vec![
            (
                version("v1"),
                module(vec![gate("v1"), other("allow")], Visibility::Public, "v1", vec![]),
            ),
            (
                version("v2"),
                module(vec![gate("v2"), other("allow")], Visibility::Public, "v2", vec![]),
            ),
        ]
    );
}

#[test]
fn gate_goes_on_the_wrapper() {
    let root = record(vec![other("derive")], Visibility::Public, vec![]);
    let got = call("features = true, v1", &root).unwrap();
    assert_eq!(
        got,
        vec![(
            version("v1"),
            module(
                vec![gate("v1")],
                Visibility::Public,
                "v1",
                vec![record(vec![other("derive")], Visibility::Public, vec![])],
            ),
        )]
    );
}

#[test]
fn version_without_the_declaration_is_left_out() {
    let root = record(vec![tag("any(\"v1\", \"v3\")")], Visibility::Public, vec![]);
    let got = emit(&root, &registry(&["v1", "v2", "v3"]), plain()).unwrap();
    let names: Vec<Version> = got.into_iter().map(|(v, _)| v).collect();
    assert_eq!(names, vec![version("v1"), version("v3")]);
}

#[test]
fn empty_conjunction_at_the_top_leaves_no_variant() {
    let root = module(vec![tag("all()")], Visibility::Public, "defs", vec![]);
    for names in [&["v1"][..], &["v1", "v2", "v3"][..]] {
        for nest in [false, true] {
            for features in [false, true] {
                let opts = Options { features, nest_toplevel_modules: nest };
                assert_eq!(emit(&root, &registry(names), opts), Ok(vec![]));
            }
        }
    }
}

#[test]
fn empty_conjunction_inside_is_in_no_variant() {
    let root = module(
        vec![],
        Visibility::Public,
        "defs",
        vec![
            record(vec![tag("all()")], Visibility::Public, vec![]),
            BodyItem::Leaf { header: header(vec![], None, "fn kept() {}") },
        ],
    );
    let got = emit(&root, &registry(&["v1", "v2"]), plain()).unwrap();
    let kept = |name: &str| {
        (
            version(name),
            module(
                vec![],
                Visibility::Public,
                name,
                vec![BodyItem::Leaf { header: header(vec![], None, "fn kept() {}") }],
            ),
        )
    };
    assert_eq!(got, vec![kept("v1"), kept("v2")]);
}

#[test]
fn unknown_reference_leaves_no_variant() {
    let root = record(
        vec![],
        Visibility::Public,
        vec![member(vec![tag("max(\"v9_9_9\")")], "a: u8")],
    );
    assert_eq!(
        emit(&root, &registry(&["v1", "v2"]), plain()),
        Err(Error::UnknownVersionReference {
            name: "v9_9_9".to_string(),
            at: Location { origin: 1, offset: 4 },
        })
    );
    assert_eq!(
        call("v1, v2", &root),
        Err(Error::UnknownVersionReference {
            name: "v9_9_9".to_string(),
            at: Location { origin: 1, offset: 4 },
        })
    );
}

#[test]
fn unknown_reference_in_a_later_version_still_fails() {
    let root = module(
        vec![],
        Visibility::Public,
        "defs",
        vec![module(
            vec![tag("\"v2\"")],
            Visibility::Public,
            "late",
            vec![record(vec![tag("min(\"v3\")")], Visibility::Public, vec![])],
        )],
    );
    assert!(matches!(
        emit(&root, &registry(&["v1", "v2"]), plain()),
        Err(Error::UnknownVersionReference { .. })
    ));
    assert!(emit(&root, &registry(&["v1"]), plain()).is_ok());
}

#[test]
fn block_at_the_top_cannot_be_wrapped() {
    let blocks = vec![
        BodyItem::Block { header: header(vec![], None, "impl S"), items: vec![] },
        BodyItem::Block { header: header(vec![], Some(Visibility::Public), "trait T"), items: vec![] },
    ];
    for root in blocks {
        for nest in [false, true] {
            let opts = Options { features: false, nest_toplevel_modules: nest };
            assert_eq!(
                emit(&root, &registry(&["v1"]), opts),
                Err(Error::UnsupportedVisibilityOverride)
            );
            assert_eq!(emit(&root, &registry(&[]), opts), Ok(vec![]));
        }
    }
}

#[test]
fn trait_in_a_module_is_emitted_as_declared() {
    let inner = BodyItem::Block {
        header: header(vec![], Some(Visibility::Inherited), "trait T"),
        items: vec![member(vec![tag("\"v2\"")], "fn late(&self);"), member(vec![], "fn f(&self);")],
    };
    let root = module(vec![], Visibility::Public, "defs", vec![inner]);
    let got = emit(&root, &registry(&["v1"]), plain()).unwrap();
    assert_eq!(
        got,
        vec![(
            version("v1"),
            module(
                vec![],
                Visibility::Public,
                "v1",
                vec![BodyItem::Block {
                    header: header(vec![], Some(Visibility::Inherited), "trait T"),
                    items: vec![member(vec![], "fn f(&self);")],
                }],
            ),
        )]
    );
}

#[test]
fn no_versions_no_variants() {
    let root = record(vec![], Visibility::Public, vec![]);
    assert_eq!(emit(&root, &registry(&[]), plain()), Ok(vec![]));
    assert_eq!(call("", &root), Ok(vec![]));
}

#[test]
fn plain_declaration_differs_by_the_name_only() {
    let root = module(
        vec![other("allow")],
        Visibility::Public,
        "defs",
        vec![record(vec![], Visibility::Inherited, vec![member(vec![], "a: u8")])],
    );
    let got = emit(&root, &registry(&["v1", "v2", "v3"]), plain()).unwrap();
    assert_eq!(got.len(), 3);
    for (v, item) in got {
        assert_eq!(
            item,
            module(
                vec![other("allow")],
                Visibility::Public,
                &v.0,
                vec![record(vec![], Visibility::Inherited, vec![member(vec![], "a: u8")])],
            )
        );
    }
}

#[test]
fn call_fails_on_its_arguments_first() {
    let root = record(
        vec![],
        Visibility::Public,
        vec![member(vec![tag("max(\"v9_9_9\")")], "a: u8")],
    );
    assert_eq!(
        call("v1, v1", &root),
        Err(Error::DuplicateVersion { name: "v1".to_string() })
    );
    assert_eq!(
        call("v1, wrap = true", &root),
        Err(Error::Configuration {
            problem: Setting::UnknownKey,
            key: "wrap".to_string(),
            at: Location { origin: ARGUMENTS, offset: 4 },
        })
    );
    assert_eq!(
        call("v1; v2", &root),
        Err(Error::Parse {
            kind: Syntax::UnexpectedCharacter,
            at: Location { origin: ARGUMENTS, offset: 2 },
        })
    );
}
