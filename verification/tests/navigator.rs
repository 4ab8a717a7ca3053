use presta_columns::error::ErrorKind;
use presta_columns::nav::Parser;
use presta_columns::pretty::{pretty_print, pretty_print_max_depth};
use presta_columns::query::{render_query_params, CalDate, DateField, QueryParam, Resource};
use presta_columns::query_param;
use presta_columns::schema::{Field, Record, Schema, Type};
use presta_columns::xml::parse_document;

#[test]
fn test_navigator_operations() {
    let doc = parse_document(
        b"<root a=\"1\"><items><item>x</item><item>y</item></items></root>",
    )
    .unwrap();
    let p = Parser::new(&doc);
    assert!(p.has_elements());
    assert_eq!(p.attribute("a").unwrap(), "1");
    let err = p.attribute("b").unwrap_err();
    assert_eq!(err.kind, ErrorKind::Structure);
    // An error at the root element carries the empty breadcrumb.
    assert!(err.path.is_empty());
    let items = p.single_child().unwrap();
    assert_eq!(items.node.name.as_str(), "items");
    assert_eq!(items.path, vec!["items".to_string()]);
    let children = items.only_same_named_children().unwrap();
    assert_eq!(children.len(), 2);
    assert_eq!(children[0].node.text.as_deref(), Some("x"));
    assert_eq!(children[1].context().as_str(), "/items/item");
    // Repeated names fail where uniqueness is required, reporting the
    // breadcrumb of the element whose children clash.
    let err = items.uniquely_named_children().unwrap_err();
    assert_eq!(err.kind, ErrorKind::DuplicateField);
    assert_eq!(err.path, vec!["items".to_string()]);
    // Mixed names fail where one name is required.
    let doc2 = parse_document(b"<r><x/><y/></r>").unwrap();
    let p2 = Parser::new(&doc2);
    assert_eq!(p2.only_same_named_children().unwrap_err().kind, ErrorKind::Structure);
    assert_eq!(p2.uniquely_named_children().unwrap().len(), 2);
    assert_eq!(p2.single_child().unwrap_err().kind, ErrorKind::Structure);
    let names = p2.children_names();
    assert_eq!(names, vec!["x".to_string(), "y".to_string()]);
    // A named check passes through the same position.
    let p3 = Parser::new(&doc2).named("r").unwrap();
    assert!(p3.uniquely_named_child_opt("x").unwrap().is_some());
    assert!(p3.uniquely_named_child_opt("z").unwrap().is_none());
    assert!(Parser::new(&doc2).named("s").is_err());
}

#[test]
fn test_pretty_printing() {
    let schema = Schema {
        record: Record {
            fields: vec![Field {
                name: "products".to_string(),
                ty: Type::Record(Record {
                    fields: vec![
                        Field { name: "id".to_string(), ty: Type::UInt32 },
                        Field { name: "name".to_string(), ty: Type::Utf8 },
                        Field { name: "label".to_string(), ty: Type::Language(2) },
                        Field {
                            name: "tags".to_string(),
                            ty: Type::List(Box::new(Field {
                                name: "tag".to_string(),
                                ty: Type::Utf8,
                            })),
                        },
                    ],
                }),
            }],
        },
    };
    let expected = "{\n    products: {\n        id: UInt32\n        name: Utf8\n        \
                    label: Language(2)\n        tags: [ <tag> : Utf8]\n    }\n}";
    assert_eq!(pretty_print(&schema).as_str(), expected);
    let shallow = "{\n    products: ...\n}";
    assert_eq!(pretty_print_max_depth(&schema, 1).as_str(), shallow);
}

#[test]
fn test_render_query_params() {
    let params = vec![
        QueryParam::Limit(10),
        QueryParam::LimitFromIndex(5, 7),
        QueryParam::Language(2),
        QueryParam::Schema(query_param::Schema::Blank),
        QueryParam::Schema(query_param::Schema::Synopsis),
        QueryParam::Display(query_param::Display::Full),
        QueryParam::Display(query_param::Display::Fields(vec![
            "a".to_string(),
            "b".to_string(),
        ])),
        QueryParam::WsKey("k".to_string()),
        QueryParam::FieldValueIn("f".to_string(), vec!["x".to_string(), "y".to_string()]),
        QueryParam::DateRange(
            DateField::DateAdd,
            CalDate { year: 2020, month: 1, day: 2 },
            CalDate { year: 2021, month: 12, day: 31 },
        ),
    ];
    let rendered = render_query_params(&params);
    let as_strs: Vec<(&str, &str)> =
        rendered.iter().map(|p| (p.0.as_str(), p.1.as_str())).collect();
    assert_eq!(
        as_strs,
        vec![
            ("limit", "10"),
            ("limit", "5,7"),
            ("language", "2"),
            ("schema", "blank"),
            ("schema", "synopsis"),
            ("display", "full"),
            ("display", "[a,b]"),
            ("ws_key", "k"),
            ("filter[f]", "[x|y]"),
            ("filter[date_add]", "[2020-01-02,2021-12-31]"),
            ("date", "1"),
        ]
    );
}

#[test]
fn test_resource_and_date_field() {
    let r = Resource::new("products".to_string());
    assert_eq!(r.identifier(), "products");
    assert_eq!(DateField::DateAdd.identifier(), "date_add");
    assert_eq!(DateField::DateUpd.identifier(), "date_upd");
}
