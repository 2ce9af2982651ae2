use versioning::error::Error;
use versioning::error::Location;
use versioning::error::Syntax;
use versioning::filter::Literal;
use versioning::filter::VersionFilter;
use versioning::tree::Attribute;
use versioning::tree::BodyItem;
use versioning::tree::Form;
use versioning::tree::Header;
use versioning::tree::Member;
use versioning::tree::Shape;
use versioning::tree::Variant;
use versioning::tree::Visibility;
use versioning::version::Version;
use versioning::version::VersionList;
use versioning::versioning::filter_item;
use versioning::versioning::generate_attrs;
use versioning::versioning::generate_filtered_item;
use versioning::versioning::generate_filtered_member;
use versioning::versioning::generate_filtered_variant;
use versioning::versioning::get_version_attr;
use versioning::versioning::item_attrs;
use versioning::versioning::item_vis;

fn version(name: &str) -> Version {
    Version(name.to_string())
}

fn registry(names: &[&str]) -> VersionList {
    VersionList::new(names.iter().map(|n| version(n)).collect()).unwrap()
}

fn four() -> VersionList {
    registry(&["v1_0_0", "v1_0_1", "v1_1_0", "v2_0_0"])
}

fn tag(args: &str) -> Attribute {
    Attribute { path: "version".to_string(), form: Form::List(args.to_string()), origin: 1 }
}

fn other(path: &str) -> Attribute {
    Attribute { path: path.to_string(), form: Form::Path, origin: 2 }
}

fn doc(text: &str) -> Attribute {
    Attribute { path: "doc".to_string(), form: Form::NameValue(text.to_string()), origin: 3 }
}

fn member(attrs: Vec<Attribute>, text: &str) -> Member {
    Member { attrs, text: text.to_string() }
}

fn header(attrs: Vec<Attribute>, vis: Option<Visibility>, text: &str) -> Header {
    Header { attrs, vis, text: text.to_string() }
}

fn record(attrs: Vec<Attribute>, name: &str, fields: Vec<Member>) -> BodyItem {
    BodyItem::Struct {
        header: header(attrs, Some(Visibility::Inherited), name),
        shape: Shape::Named,
        fields,
        tail: String::new(),
    }
}

fn leaf(attrs: Vec<Attribute>, text: &str) -> BodyItem {
    BodyItem::Leaf { header: header(attrs, Some(Visibility::Inherited), text) }
}

fn module(attrs: Vec<Attribute>, name: &str, items: Vec<BodyItem>) -> BodyItem {
    BodyItem::Module {
        header: header(attrs, Some(Visibility::Inherited), "mod"),
        name: name.to_string(),
        content: Some(items),
    }
}

fn inside(item: &BodyItem, list: &VersionList, name: &str) -> Result<Option<BodyItem>, Error> {
    filter_item(item, list, &version(name))
}

#[test]
fn extraction_finds_the_filter() {
    let attrs = vec![other("test"), tag("min(\"v2\")"), doc("\"x\"")];
    assert_eq!(
        get_version_attr(&attrs),
        Ok(Some(VersionFilter::AtLeast(Literal {
            value: "v2".to_string(),
            at: Location { origin: 1, offset: 4 },
        })))
    );
    assert_eq!(generate_attrs(&attrs), vec![other("test"), doc("\"x\"")]);
}

#[test]
fn extraction_finds_nothing_where_nothing_is() {
    assert_eq!(get_version_attr(&[]), Ok(None));
    assert_eq!(get_version_attr(&[other("test"), doc("\"version\"")]), Ok(None));
    assert_eq!(generate_attrs(&[]), vec![]);
}

#[test]
fn extraction_goes_by_the_whole_path() {
    let near = Attribute {
        path: "versions".to_string(),
        form: Form::List("\"v1\"".to_string()),
        origin: 0,
    };
    let deep = Attribute {
        path: "my::version".to_string(),
        form: Form::List("\"v1\"".to_string()),
        origin: 0,
    };
    let attrs = vec![near, deep];
    assert_eq!(get_version_attr(&attrs), Ok(None));
    assert_eq!(generate_attrs(&attrs), attrs);
}

#[test]
fn extraction_honours_the_first_filter_only() {
    let mut second = tag("\"v2\"");
    second.origin = 8;
    let attrs = vec![other("a"), tag("\"v1\""), other("b"), second.clone()];
    assert_eq!(
        get_version_attr(&attrs),
        Ok(Some(VersionFilter::Version(Literal {
            value: "v1".to_string(),
            at: Location { origin: 1, offset: 0 },
        })))
    );
    assert_eq!(generate_attrs(&attrs), vec![other("a"), other("b"), second]);
}

#[test]
fn extraction_takes_the_first_filter_and_leaves_the_rest() {
    let attrs = vec![tag("\"v1\""), other("allow"), tag("\"v2\"")];
    assert_eq!(generate_attrs(&attrs), vec![other("allow"), tag("\"v2\"")]);
    let rest = generate_attrs(&attrs);
    assert_eq!(
        get_version_attr(&rest),
        Ok(Some(VersionFilter::Version(Literal {
            value: "v2".to_string(),
            at: Location { origin: 1, offset: 0 },
        })))
    );
    assert_eq!(generate_attrs(&rest), vec![other("allow")]);
}

#[test]
fn extraction_passes_over_a_bare_version_annotation() {
    let bare = other("version");
    let valued = Attribute {
        path: "version".to_string(),
        form: Form::NameValue("\"v1\"".to_string()),
        origin: 0,
    };
    let attrs = vec![bare, valued, tag("\"v2\"")];
    assert_eq!(
        get_version_attr(&attrs),
        Ok(Some(VersionFilter::Version(Literal {
            value: "v2".to_string(),
            at: Location { origin: 1, offset: 0 },
        })))
    );
    assert_eq!(generate_attrs(&attrs), attrs[..2].to_vec());
    let none = attrs[..2].to_vec();
    assert_eq!(get_version_attr(&none), Ok(None));
    assert_eq!(generate_attrs(&none), none);
}

#[test]
fn extraction_is_final() {
    let lists = vec![
        vec![tag("\"v1\"")],
        vec![other("a"), tag("\"v1\""), other("b")],
        vec![tag("this is no filter"), other("version")],
        vec![other("version"), other("a")],
        vec![],
    ];
    for attrs in lists {
        let rest = generate_attrs(&attrs);
        assert_eq!(get_version_attr(&rest), Ok(None));
        assert_eq!(generate_attrs(&rest), rest);
    }
}

#[test]
fn kept_member_keeps_its_later_filters() {
    let list = registry(&["v1", "v2"]);
    let m = member(vec![tag("\"v1\""), other("inline"), tag("\"v2\"")], "fn f();");
    assert_eq!(
        generate_filtered_member(&m, &list, &version("v1")),
        Ok(Some(member(vec![other("inline"), tag("\"v2\"")], "fn f();")))
    );
    assert_eq!(generate_filtered_member(&m, &list, &version("v2")), Ok(None));
}

#[test]
fn extraction_reports_a_filter_that_does_not_parse() {
    let mut bad = tag("min(v1)");
    bad.origin = 17;
    assert_eq!(
        get_version_attr(&[other("a"), bad]),
        Err(Error::Parse {
            kind: Syntax::ExpectedString,
            at: Location { origin: 17, offset: 4 },
        })
    );
}

#[test]
fn member_is_kept_without_its_filter() {
    let list = four();
    let m = member(vec![doc("\"d\""), tag("max(\"v1_0_1\")")], "pub foo: String");
    assert_eq!(
        generate_filtered_member(&m, &list, &version("v1_0_0")),
        Ok(Some(member(vec![doc("\"d\"")], "pub foo: String")))
    );
    assert_eq!(generate_filtered_member(&m, &list, &version("v1_1_0")), Ok(None));
}

#[test]
fn member_without_a_filter_is_always_kept() {
    let list = four();
    let m = member(vec![other("inline")], "fn f(&self);");
    for name in ["v1_0_0", "v1_0_1", "v1_1_0", "v2_0_0"] {
        assert_eq!(generate_filtered_member(&m, &list, &version(name)), Ok(Some(m.clone())));
    }
}

#[test]
fn variant_is_filtered_with_its_fields() {
    let list = registry(&["v1", "v2"]);
    let v = Variant {
        attrs: vec![tag("any(\"v1\", \"v2\")"), other("default")],
        text: "Point".to_string(),
        shape: Shape::Unnamed,
        fields: vec![
            member(vec![], "i32"),
            member(vec![tag("\"v2\"")], "i64"),
            member(vec![tag("\"v1\"")], "u8"),
        ],
        tail: "= 3".to_string(),
    };
    assert_eq!(
        generate_filtered_variant(&v, &list, &version("v1")),
        Ok(Some(Variant {
            attrs: vec![other("default")],
            text: "Point".to_string(),
            shape: Shape::Unnamed,
            fields: vec![member(vec![], "i32"), member(vec![], "u8")],
            tail: "= 3".to_string(),
        }))
    );
    assert_eq!(
        generate_filtered_variant(&v, &list, &version("v2")),
        Ok(Some(Variant {
            attrs: vec![other("default")],
            text: "Point".to_string(),
            shape: Shape::Unnamed,
            fields: vec![member(vec![], "i32"), member(vec![], "i64")],
            tail: "= 3".to_string(),
        }))
    );
}

#[test]
fn variant_that_is_dropped_is_not_looked_into() {
    let list = registry(&["v1", "v2"]);
    let v = Variant {
        attrs: vec![tag("\"v1\"")],
        text: "Old".to_string(),
        shape: Shape::Named,
        fields: vec![member(vec![tag("max(\"v9\")")], "x: u8")],
        tail: String::new(),
    };
    assert_eq!(generate_filtered_variant(&v, &list, &version("v2")), Ok(None));
    assert!(matches!(
        generate_filtered_variant(&v, &list, &version("v1")),
        Err(Error::UnknownVersionReference { .. })
    ));
}

#[test]
fn struct_keeps_the_fields_of_the_version() {
    let list = registry(&["v1", "v2"]);
    let item = record(
        vec![],
        "struct S",
        vec![
            member(vec![tag("\"v1\"")], "a: u8"),
            member(vec![tag("\"v2\"")], "b: u8"),
        ],
    );
    assert_eq!(
        inside(&item, &list, "v1"),
        Ok(Some(record(vec![], "struct S", vec![member(vec![], "a: u8")])))
    );
    assert_eq!(
        inside(&item, &list, "v2"),
        Ok(Some(record(vec![], "struct S", vec![member(vec![], "b: u8")])))
    );
}

#[test]
fn struct_fields_follow_the_bounds() {
    let list = four();
    let item = record(
        vec![],
        "struct Example",
        vec![
            member(vec![tag("max(\"v1_0_1\")")], "pub foo: String"),
            member(vec![tag("min(\"v1_1_0\")")], "pub bar: u64"),
        ],
    );
    let a = record(vec![], "struct Example", vec![member(vec![], "pub foo: String")]);
    let b = record(vec![], "struct Example", vec![member(vec![], "pub bar: u64")]);
    assert_eq!(inside(&item, &list, "v1_0_0"), Ok(Some(a.clone())));
    assert_eq!(inside(&item, &list, "v1_0_1"), Ok(Some(a)));
    assert_eq!(inside(&item, &list, "v1_1_0"), Ok(Some(b.clone())));
    assert_eq!(inside(&item, &list, "v2_0_0"), Ok(Some(b)));
}

#[test]
fn struct_fields_follow_the_exclusive_bounds() {
    let list = four();
    let item = record(
        vec![],
        "struct Example",
        vec![
            member(vec![tag("max_excl(\"v1_1_0\")")], "pub baz: String"),
            member(vec![tag("min_excl(\"v1_0_1\")")], "pub quz: u64"),
        ],
    );
    let a = record(vec![], "struct Example", vec![member(vec![], "pub baz: String")]);
    let b = record(vec![], "struct Example", vec![member(vec![], "pub quz: u64")]);
    assert_eq!(inside(&item, &list, "v1_0_0"), Ok(Some(a.clone())));
    assert_eq!(inside(&item, &list, "v1_0_1"), Ok(Some(a)));
    assert_eq!(inside(&item, &list, "v1_1_0"), Ok(Some(b.clone())));
    assert_eq!(inside(&item, &list, "v2_0_0"), Ok(Some(b)));
}

#[test]
fn struct_without_fields_left_is_kept() {
    let list = registry(&["v1", "v2"]);
    let item = record(vec![other("derive")], "struct S", vec![member(vec![tag("\"v1\"")], "a: u8")]);
    assert_eq!(
        inside(&item, &list, "v2"),
        Ok(Some(record(vec![other("derive")], "struct S", vec![])))
    );
}

#[test]
fn struct_keeps_shape_and_tail() {
    let list = registry(&["v1"]);
    let item = BodyItem::Struct {
        header: header(vec![], Some(Visibility::Restricted("pub(crate)".to_string())), "struct P"),
        shape: Shape::Unnamed,
        fields: vec![member(vec![], "u8"), member(vec![tag("not(\"v1\")")], "u16")],
        tail: "where T: Copy;".to_string(),
    };
    assert_eq!(
        inside(&item, &list, "v1"),
        Ok(Some(BodyItem::Struct {
            header: header(
                vec![],
                Some(Visibility::Restricted("pub(crate)".to_string())),
                "struct P"
            ),
            shape: Shape::Unnamed,
            fields: vec![member(vec![], "u8")],
            tail: "where T: Copy;".to_string(),
        }))
    );
}

#[test]
fn enum_keeps_the_variants_of_the_version() {
    let list = registry(&["v1", "v2"]);
    let variant = |attrs: Vec<Attribute>, name: &str| Variant {
        attrs,
        text: name.to_string(),
        shape: Shape::Unit,
        fields: vec![],
        tail: String::new(),
    };
    let item = BodyItem::Enum {
        header: header(vec![], Some(Visibility::Public), "enum E"),
        variants: vec![
            variant(vec![], "A"),
            variant(vec![tag("\"v1\"")], "B"),
            variant(vec![tag("\"v2\"")], "C"),
            variant(vec![other("x")], "D"),
        ],
    };
    assert_eq!(
        inside(&item, &list, "v2"),
        Ok(Some(BodyItem::Enum {
            header: header(vec![], Some(Visibility::Public), "enum E"),
            variants: vec![
                variant(vec![], "A"),
                variant(vec![], "C"),
                variant(vec![other("x")], "D"),
            ],
        }))
    );
}

#[test]
fn block_keeps_the_members_of_the_version() {
    let list = registry(&["v1", "v2"]);
    let item = BodyItem::Block {
        header: header(vec![tag("any(\"v1\", \"v2\")")], None, "impl S"),
        items: vec![
            member(vec![tag("\"v1\"")], "fn old(&self) {}"),
            member(vec![], "fn both(&self) {}"),
            member(vec![tag("\"v2\"")], "fn new(&self) {}"),
        ],
    };
    assert_eq!(
        inside(&item, &list, "v1"),
        Ok(Some(BodyItem::Block {
            header: header(vec![], None, "impl S"),
            items: vec![member(vec![], "fn old(&self) {}"), member(vec![], "fn both(&self) {}")],
        }))
    );
}

#[test]
fn block_cannot_be_forced_public() {
    let list = registry(&["v1"]);
    let blocks = vec![
        BodyItem::Block { header: header(vec![], None, "impl S"), items: vec![] },
        BodyItem::Block { header: header(vec![], None, "extern \"C\""), items: vec![] },
        BodyItem::Block {
            header: header(vec![], Some(Visibility::Inherited), "trait T"),
            items: vec![member(vec![], "fn f(&self);")],
        },
        BodyItem::Block { header: header(vec![], Some(Visibility::Public), "trait T"), items: vec![] },
    ];
    for item in blocks {
        assert_eq!(
            generate_filtered_item(&item, &list, &version("v1"), true, true),
            Err(Error::UnsupportedVisibilityOverride)
        );
        assert_eq!(
            generate_filtered_item(&item, &list, &version("v1"), false, true),
            Err(Error::UnsupportedVisibilityOverride)
        );
        assert_eq!(
            generate_filtered_item(&item, &list, &version("v1"), true, false),
            Ok(Some(item.clone()))
        );
    }
}

#[test]
fn block_that_is_dropped_is_not_forced() {
    let list = registry(&["v1", "v2"]);
    let items = vec![
        BodyItem::Block { header: header(vec![tag("\"v2\"")], None, "impl S"), items: vec![] },
        BodyItem::Block {
            header: header(vec![tag("\"v2\"")], Some(Visibility::Public), "trait T"),
            items: vec![],
        },
    ];
    for item in items {
        assert_eq!(generate_filtered_item(&item, &list, &version("v1"), true, true), Ok(None));
        assert_eq!(
            generate_filtered_item(&item, &list, &version("v2"), true, true),
            Err(Error::UnsupportedVisibilityOverride)
        );
    }
}

#[test]
fn trait_inside_a_module_keeps_its_visibility() {
    let list = registry(&["v1"]);
    let inner = |vis: Visibility| BodyItem::Block {
        header: header(vec![], Some(vis), "trait T"),
        items: vec![member(vec![], "fn f(&self);")],
    };
    for vis in [
        Visibility::Inherited,
        Visibility::Public,
        Visibility::Restricted("pub(crate)".to_string()),
    ] {
        let root = module(vec![], "m", vec![inner(vis.clone())]);
        assert_eq!(
            generate_filtered_item(&root, &list, &version("v1"), true, true),
            Ok(Some(BodyItem::Module {
                header: header(vec![], Some(Visibility::Public), "mod"),
                name: "m".to_string(),
                content: Some(vec![inner(vis)]),
            }))
        );
    }
}

#[test]
fn leaf_goes_by_its_own_filter() {
    let list = registry(&["v1", "v2"]);
    let item = leaf(vec![tag("\"v1\""), other("inline")], "fn f() {}");
    assert_eq!(inside(&item, &list, "v1"), Ok(Some(leaf(vec![other("inline")], "fn f() {}"))));
    assert_eq!(inside(&item, &list, "v2"), Ok(None));
}

#[test]
fn leaf_without_visibility_ignores_the_forcing() {
    let list = registry(&["v1"]);
    let item = BodyItem::Leaf { header: header(vec![], None, "macro_rules! m { () => {} }") };
    assert_eq!(
        generate_filtered_item(&item, &list, &version("v1"), true, true),
        Ok(Some(item.clone()))
    );
}

#[test]
fn forcing_overrides_every_visibility() {
    let list = registry(&["v1"]);
    for vis in [
        Visibility::Inherited,
        Visibility::Public,
        Visibility::Restricted("pub(super)".to_string()),
    ] {
        let item = BodyItem::Leaf { header: header(vec![], Some(vis.clone()), "const X: u8 = 1;") };
        assert_eq!(
            generate_filtered_item(&item, &list, &version("v1"), true, true),
            Ok(Some(BodyItem::Leaf {
                header: header(vec![], Some(Visibility::Public), "const X: u8 = 1;")
            }))
        );
        assert_eq!(
            generate_filtered_item(&item, &list, &version("v1"), true, false),
            Ok(Some(BodyItem::Leaf { header: header(vec![], Some(vis), "const X: u8 = 1;") }))
        );
    }
}

#[test]
fn module_filters_its_items_in_order() {
    let list = registry(&["v1_0_0", "v2_0_0", "v3_0_0"]);
    let item = module(
        vec![],
        "defs",
        vec![
            module(
                vec![tag("any(\"v1_0_0\", \"v2_0_0\")")],
                "private",
                vec![leaf(vec![tag("\"v1_0_0\"")], "struct Nested {}")],
            ),
            record(vec![tag("\"v1_0_0\"")], "struct A", vec![member(vec![other("allow")], "n: N")]),
            leaf(vec![], "use std::fmt;"),
            record(vec![tag("\"v2_0_0\"")], "struct B", vec![]),
        ],
    );
    assert_eq!(
        inside(&item, &list, "v1_0_0"),
        Ok(Some(module(
            vec![],
            "defs",
            vec![
                module(vec![], "private", vec![leaf(vec![], "struct Nested {}")]),
                record(vec![], "struct A", vec![member(vec![other("allow")], "n: N")]),
                leaf(vec![], "use std::fmt;"),
            ],
        )))
    );
    assert_eq!(
        inside(&item, &list, "v2_0_0"),
        Ok(Some(module(
            vec![],
            "defs",
            vec![
                module(vec![], "private", vec![]),
                leaf(vec![], "use std::fmt;"),
                record(vec![], "struct B", vec![]),
            ],
        )))
    );
    assert_eq!(
        inside(&item, &list, "v3_0_0"),
        Ok(Some(module(vec![], "defs", vec![leaf(vec![], "use std::fmt;")])))
    );
}

#[test]
fn module_at_the_top_takes_the_name_of_the_version() {
    let list = registry(&["v1"]);
    let item = module(vec![other("allow")], "defs", vec![module(vec![], "inner", vec![])]);
    assert_eq!(
        generate_filtered_item(&item, &list, &version("v1"), true, false),
        Ok(Some(module(vec![other("allow")], "v1", vec![module(vec![], "inner", vec![])])))
    );
    assert_eq!(
        generate_filtered_item(&item, &list, &version("v1"), false, false),
        Ok(Some(item.clone()))
    );
    let forced = BodyItem::Module {
        header: header(vec![other("allow")], Some(Visibility::Public), "mod"),
        name: "defs".to_string(),
        content: Some(vec![module(vec![], "inner", vec![])]),
    };
    assert_eq!(
        generate_filtered_item(&item, &list, &version("v1"), true, true),
        Ok(Some(forced))
    );
}

#[test]
fn module_without_a_body_stays_without() {
    let list = registry(&["v1"]);
    let item = BodyItem::Module {
        header: header(vec![tag("\"v1\"")], Some(Visibility::Public), "mod"),
        name: "elsewhere".to_string(),
        content: None,
    };
    assert_eq!(
        generate_filtered_item(&item, &list, &version("v1"), true, false),
        Ok(Some(BodyItem::Module {
            header: header(vec![], Some(Visibility::Public), "mod"),
            name: "v1".to_string(),
            content: None,
        }))
    );
}

#[test]
fn items_inside_a_module_are_never_forced() {
    let list = registry(&["v1"]);
    let item = module(
        vec![],
        "m",
        vec![
            BodyItem::Block { header: header(vec![], None, "impl S"), items: vec![] },
            leaf(vec![], "fn f() {}"),
        ],
    );
    let got = generate_filtered_item(&item, &list, &version("v1"), true, true).unwrap().unwrap();
    assert_eq!(
        got,
        BodyItem::Module {
            header: header(vec![], Some(Visibility::Public), "mod"),
            name: "m".to_string(),
            content: Some(vec![
                BodyItem::Block { header: header(vec![], None, "impl S"), items: vec![] },
                leaf(vec![], "fn f() {}"),
            ]),
        }
    );
}

#[test]
fn empty_conjunction_drops_whatever_carries_it() {
    let list = four();
    let root = module(
        vec![],
        "m",
        vec![
            leaf(vec![tag("all()")], "fn gone() {}"),
            record(
                vec![],
                "struct S",
                vec![member(vec![tag("all()")], "gone: u8"), member(vec![], "kept: u8")],
            ),
        ],
    );
    let expected = module(
        vec![],
        "m",
        vec![record(vec![], "struct S", vec![member(vec![], "kept: u8")])],
    );
    for name in ["v1_0_0", "v1_0_1", "v1_1_0", "v2_0_0", "unknown"] {
        assert_eq!(inside(&root, &list, name), Ok(Some(expected.clone())));
        assert_eq!(inside(&leaf(vec![tag("all()")], "fn gone() {}"), &list, name), Ok(None));
    }
}

#[test]
fn plain_tree_is_the_same_in_every_version() {
    let list = four();
    let item = module(
        vec![other("allow"), doc("\"docs\"")],
        "m",
        vec![
            record(vec![other("derive")], "struct S", vec![member(vec![doc("\"f\"")], "a: u8")]),
            BodyItem::Enum {
                header: header(vec![], Some(Visibility::Public), "enum E"),
                variants: vec![Variant {
                    attrs: vec![other("default")],
                    text: "A".to_string(),
                    shape: Shape::Named,
                    fields: vec![member(vec![], "x: u8")],
                    tail: String::new(),
                }],
            },
            BodyItem::Block {
                header: header(vec![], None, "impl S"),
                items: vec![member(vec![other("inline")], "fn f(&self) {}")],
            },
            leaf(vec![], "use a::b;"),
            BodyItem::Module {
                header: header(vec![], Some(Visibility::Inherited), "mod"),
                name: "out".to_string(),
                content: None,
            },
        ],
    );
    for name in ["v1_0_0", "v1_0_1", "v1_1_0", "v2_0_0"] {
        assert_eq!(inside(&item, &list, name), Ok(Some(item.clone())));
    }
}

#[test]
fn unknown_reference_stops_the_filtering() {
    let list = registry(&["v1", "v2"]);
    let mut bad = tag("max(\"v9_9_9\")");
    bad.origin = 42;
    let item = module(
        vec![],
        "m",
        vec![leaf(vec![], "fn a() {}"), record(vec![], "struct S", vec![member(vec![bad], "x: u8")])],
    );
    assert_eq!(
        inside(&item, &list, "v1"),
        Err(Error::UnknownVersionReference {
            name: "v9_9_9".to_string(),
            at: Location { origin: 42, offset: 4 },
        })
    );
}

#[test]
fn first_error_in_reading_order_is_reported() {
    let list = registry(&["v1"]);
    let mut first = tag("min(\"nope\")");
    first.origin = 1;
    let mut second = tag("oops");
    second.origin = 2;
    let item = module(
        vec![],
        "m",
        vec![leaf(vec![first], "fn a() {}"), leaf(vec![second], "fn b() {}")],
    );
    assert_eq!(
        inside(&item, &list, "v1"),
        Err(Error::UnknownVersionReference {
            name: "nope".to_string(),
            at: Location { origin: 1, offset: 4 },
        })
    );
}

#[test]
fn candidate_outside_the_registry_fails_only_at_a_bound() {
    let list = registry(&["v1", "v2"]);
    let by_pattern = leaf(vec![tag("\"v\"")], "fn a() {}");
    let by_bound = leaf(vec![tag("min(\"v1\")")], "fn a() {}");
    assert_eq!(inside(&by_pattern, &list, "v3"), Ok(Some(leaf(vec![], "fn a() {}"))));
    assert_eq!(
        inside(&by_bound, &list, "v3"),
        Err(Error::UnknownVersion { name: "v3".to_string() })
    );
}

#[test]
fn tree_clone_is_equal() {
    let item = module(
        vec![tag("\"v1\"")],
        "m",
        vec![record(vec![], "struct S", vec![member(vec![doc("\"f\"")], "a: u8")])],
    );
    assert_eq!(item.clone(), item);
}

#[test]
fn item_attrs_and_vis_read_the_header() {
    let with = record(vec![other("derive"), tag("\"v1\"")], "struct S", vec![]);
    assert_eq!(item_attrs(&with), &vec![other("derive"), tag("\"v1\"")]);
    assert_eq!(item_vis(&with), Some(&Visibility::Inherited));
    let without = BodyItem::Block { header: header(vec![], None, "impl S"), items: vec![] };
    assert_eq!(item_attrs(&without), &vec![]);
    assert_eq!(item_vis(&without), None);
}

#[test]
fn attrs_mut_changes_the_annotations_only() {
    let mut item = module(vec![other("a")], "m", vec![leaf(vec![], "fn f() {}")]);
    item.attrs_mut().push(other("b"));
    assert_eq!(item, module(vec![other("a"), other("b")], "m", vec![leaf(vec![], "fn f() {}")]));
    item.attrs_mut().clear();
    assert_eq!(item, module(vec![], "m", vec![leaf(vec![], "fn f() {}")]));
    let mut e = BodyItem::Enum { header: header(vec![], Some(Visibility::Public), "enum E"), variants: vec![] };
    e.attrs_mut().push(tag("\"v1\""));
    assert_eq!(
        e,
        BodyItem::Enum {
            header: header(vec![tag("\"v1\"")], Some(Visibility::Public), "enum E"),
            variants: vec![],
        }
    );
}

#[test]
fn vis_mut_changes_the_visibility_only() {
    let mut item = record(vec![other("a")], "struct S", vec![member(vec![], "x: u8")]);
    match item.vis_mut() {
        Some(vis) => *vis = Visibility::Public,
        None => panic!("a struct has a visibility"),
    }
    assert_eq!(
        item,
        BodyItem::Struct {
            header: header(vec![other("a")], Some(Visibility::Public), "struct S"),
            shape: Shape::Named,
            fields: vec![member(vec![], "x: u8")],
            tail: String::new(),
        }
    );
    let mut block = BodyItem::Block { header: header(vec![], None, "impl S"), items: vec![] };
    assert!(block.vis_mut().is_none());
    assert_eq!(block, BodyItem::Block { header: header(vec![], None, "impl S"), items: vec![] });
}
