use presta_columns::columns::{decode_document, parse_response_to_columns, Cell};
use presta_columns::error::ErrorKind;
use presta_columns::flat::{DataType, Field, Schema3};
use presta_columns::json::{parse_data_to_json, parse_data_to_jsonl, parse_xml_node_to_json, JsonValue};
use presta_columns::nav::Parser;
use presta_columns::schema::{Record, Schema, Type};
use presta_columns::xml::parse_document;

fn one_field_schema(name: &str, dt: DataType) -> Schema3 {
    Schema3 {
        fields: vec![Field { name: name.to_string(), data_type: dt }],
        associations: vec![],
    }
}

#[test]
fn test_boolean_law_cells() {
    // 1 is true, 0 is false, absent or blank text is null.
    let schema = one_field_schema("b", DataType::Boolean);
    let data = b"<a><rs><r><b>1</b></r><r><b>0</b></r><r><b/></r><r><b> </b></r><r/></rs></a>";
    let batch = parse_response_to_columns(&schema, data).unwrap();
    assert_eq!(
        batch.columns[0].cells,
        vec![
            Cell::Boolean(true),
            Cell::Boolean(false),
            Cell::Null,
            Cell::Null,
            Cell::Null,
        ]
    );
    // Any other text is a parse error.
    let bad = b"<a><rs><r><b>yes</b></r></rs></a>";
    let err = parse_response_to_columns(&schema, bad).unwrap_err();
    assert_eq!(err.kind, ErrorKind::Parse);
}

#[test]
fn test_empty_list_cells() {
    // A multilingual field with zero language children is an empty list,
    // not null; only a wholly absent field element is null.
    let schema = one_field_schema("name", DataType::MultilingualUtf8);
    let data = b"<a><rs><r><name/></r><r/></rs></a>";
    let batch = parse_response_to_columns(&schema, data).unwrap();
    assert_eq!(batch.columns[0].cells, vec![Cell::LangList(vec![]), Cell::Null]);
}

#[test]
fn test_empty_association_list() {
    // An association element with zero records seals an empty list.
    let sample = parse_document(
        b"<a><associations><tags><tag><id/></tag></tags></associations></a>",
    )
    .unwrap();
    let schema = presta_columns::flat::infer_container(&sample).unwrap();
    let data = b"<a><rs><r><associations><tags/></associations></r></rs></a>";
    let batch = parse_response_to_columns(&schema, data).unwrap();
    assert_eq!(batch.assoc_columns[0].rows, vec![Some(vec![])]);
}

#[test]
fn test_integer_cells_and_overflow() {
    let schema = one_field_schema("v", DataType::UInt32);
    let data = b"<a><rs><r><v>42</v></r><r><v>+7</v></r><r><v> 13 </v></r></rs></a>";
    let batch = parse_response_to_columns(&schema, data).unwrap();
    assert_eq!(
        batch.columns[0].cells,
        vec![Cell::UInt32(42), Cell::UInt32(7), Cell::UInt32(13)]
    );
    let over = b"<a><rs><r><v>4294967296</v></r></rs></a>";
    assert_eq!(parse_response_to_columns(&schema, over).unwrap_err().kind, ErrorKind::Parse);
    let neg = b"<a><rs><r><v>-1</v></r></rs></a>";
    assert_eq!(parse_response_to_columns(&schema, neg).unwrap_err().kind, ErrorKind::Parse);

    let schema = one_field_schema("v", DataType::Int32);
    let data = b"<a><rs><r><v>-2147483648</v></r><r><v>2147483647</v></r></rs></a>";
    let batch = parse_response_to_columns(&schema, data).unwrap();
    assert_eq!(
        batch.columns[0].cells,
        vec![Cell::Int32(-2147483648), Cell::Int32(2147483647)]
    );
    let under = b"<a><rs><r><v>-2147483649</v></r></rs></a>";
    assert_eq!(parse_response_to_columns(&schema, under).unwrap_err().kind, ErrorKind::Parse);
}

#[test]
fn test_float_text_grammar() {
    let schema = one_field_schema("v", DataType::Float64);
    let data = b"<a><rs><r><v>1e5</v></r><r><v>.5</v></r><r><v>3.</v></r><r><v>inf</v></r></rs></a>";
    let batch = parse_response_to_columns(&schema, data).unwrap();
    assert_eq!(
        batch.columns[0].cells,
        vec![
            Cell::Float64("1e5".to_string()),
            Cell::Float64(".5".to_string()),
            Cell::Float64("3.".to_string()),
            Cell::Float64("inf".to_string()),
        ]
    );
    for bad in [".", "1e", "--1", "1.2.3", "e5"] {
        let doc = format!("<a><rs><r><v>{}</v></r></rs></a>", bad);
        assert_eq!(
            parse_response_to_columns(&schema, doc.as_bytes()).unwrap_err().kind,
            ErrorKind::Parse,
            "expected a parse error for {:?}",
            bad
        );
    }
}

#[test]
fn test_date_cells() {
    let schema = one_field_schema("d", DataType::Date);
    let data = b"<a><rs><r><d>2020-01-02 03:04:05</d></r><r><d/></r></rs></a>";
    let batch = parse_response_to_columns(&schema, data).unwrap();
    let expected = chrono::NaiveDateTime::parse_from_str("2020-01-02 03:04:05", "%Y-%m-%d %H:%M:%S")
        .unwrap()
        .and_utc()
        .timestamp_millis();
    assert_eq!(expected, 1577934245000);
    assert_eq!(batch.columns[0].cells, vec![Cell::Date(expected), Cell::Null]);
    let bad = b"<a><rs><r><d>2020-01-02</d></r></rs></a>";
    assert_eq!(parse_response_to_columns(&schema, bad).unwrap_err().kind, ErrorKind::Parse);
}

#[test]
fn test_unknown_field_aborts() {
    let schema = one_field_schema("v", DataType::Utf8);
    let data = b"<a><rs><r><w>1</w></r></rs></a>";
    let err = parse_response_to_columns(&schema, data).unwrap_err();
    assert_eq!(err.kind, ErrorKind::UnknownField);
    // The breadcrumb names the container, the row, and the unknown field.
    assert_eq!(err.path, vec!["rs".to_string(), "r".to_string(), "w".to_string()]);
}

#[test]
fn test_duplicate_field_in_row() {
    let schema = one_field_schema("v", DataType::Utf8);
    let data = b"<a><rs><r><v>1</v><v>2</v></r></rs></a>";
    let err = parse_response_to_columns(&schema, data).unwrap_err();
    assert_eq!(err.kind, ErrorKind::InvariantViolation);
    assert_eq!(err.path, vec!["rs".to_string(), "r".to_string(), "v".to_string()]);
}

#[test]
fn test_malformed_document() {
    let schema = one_field_schema("v", DataType::Utf8);
    assert_eq!(
        parse_response_to_columns(&schema, b"<a><unclosed>").unwrap_err().kind,
        ErrorKind::Structure
    );
    assert_eq!(parse_response_to_columns(&schema, b"<a/>").unwrap_err().kind, ErrorKind::Structure);
}

#[test]
fn test_null_padding_across_columns() {
    // Whatever fields a row includes, every column grows by one per row.
    let schema = Schema3 {
        fields: vec![
            Field { name: "x".to_string(), data_type: DataType::Utf8 },
            Field { name: "y".to_string(), data_type: DataType::UInt32 },
        ],
        associations: vec![],
    };
    let data = b"<a><rs><r><x>p</x></r><r><y>2</y></r><r/></rs></a>";
    let doc = parse_document(data).unwrap();
    let batch = decode_document(&schema, &doc).unwrap();
    assert_eq!(batch.columns[0].cells.len(), 3);
    assert_eq!(batch.columns[1].cells.len(), 3);
    assert_eq!(batch.columns[0].cells[2], Cell::Null);
    assert_eq!(batch.columns[1].cells[0], Cell::Null);
}

fn nested_schema() -> Schema {
    Schema {
        record: Record {
            fields: vec![presta_columns::schema::Field {
                name: "products".to_string(),
                ty: Type::Record(Record {
                    fields: vec![
                        presta_columns::schema::Field { name: "id".to_string(), ty: Type::UInt32 },
                        presta_columns::schema::Field { name: "name".to_string(), ty: Type::Utf8 },
                        presta_columns::schema::Field { name: "ok".to_string(), ty: Type::Bool },
                    ],
                }),
            }],
        },
    }
}

fn obj(entries: Vec<(&str, JsonValue)>) -> JsonValue {
    JsonValue::Object(entries.into_iter().map(|(k, v)| (k.to_string(), v)).collect())
}

#[test]
fn test_nested_rows_decode() {
    let schema = nested_schema();
    let data = b"<r><products>\
                 <product><id>5</id><name>n</name><ok>1</ok></product>\
                 <product><name></name></product>\
                 </products></r>";
    let doc = parse_document(data).unwrap();
    let rows = parse_data_to_jsonl(Parser::new(&doc), &schema).unwrap();
    assert_eq!(
        rows,
        vec![
            obj(vec![(
                "product",
                obj(vec![
                    ("id", JsonValue::UInt(5)),
                    ("name", JsonValue::Str("n".to_string())),
                    ("ok", JsonValue::Bool(true)),
                ])
            )]),
            obj(vec![("product", obj(vec![("name", JsonValue::Null)]))]),
        ]
    );
}

#[test]
fn test_nested_whole_document_value() {
    let schema = nested_schema();
    let data = b"<r><products><products><id>3</id></products></products></r>";
    let doc = parse_document(data).unwrap();
    let v = parse_data_to_json(Parser::new(&doc), &schema).unwrap();
    assert_eq!(
        v,
        JsonValue::Array(vec![obj(vec![(
            "products",
            obj(vec![("id", JsonValue::UInt(3))])
        )])])
    );
}

#[test]
fn test_nested_multilingual_value() {
    let data = b"<name><language id=\"1\">A</language><language id=\"2\">B</language></name>";
    let doc = parse_document(data).unwrap();
    let v = parse_xml_node_to_json(Parser::new(&doc), &Type::Language(1)).unwrap();
    assert_eq!(
        v,
        JsonValue::Array(vec![
            obj(vec![("id", JsonValue::UInt(1)), ("text", JsonValue::Str("A".to_string()))]),
            obj(vec![("id", JsonValue::UInt(2)), ("text", JsonValue::Str("B".to_string()))]),
        ])
    );
}

#[test]
fn test_nested_empty_list_value() {
    // A list element with no children is an empty array, never null.
    let data = b"<items/>";
    let doc = parse_document(data).unwrap();
    let field = presta_columns::schema::Field { name: "item".to_string(), ty: Type::Utf8 };
    let v = parse_xml_node_to_json(Parser::new(&doc), &Type::List(Box::new(field))).unwrap();
    assert_eq!(v, JsonValue::Array(vec![]));
}

#[test]
fn test_nested_rejects_non_finite_floats() {
    // The value-tree pathway cannot carry non-finite numbers.
    let doc = parse_document(b"<p>inf</p>").unwrap();
    let err = parse_xml_node_to_json(Parser::new(&doc), &Type::Float64).unwrap_err();
    assert_eq!(err.kind, ErrorKind::Parse);
    let doc = parse_document(b"<p>2.5</p>").unwrap();
    let v = parse_xml_node_to_json(Parser::new(&doc), &Type::Float64).unwrap();
    assert_eq!(v, JsonValue::Float("2.5".to_string()));
}

#[test]
fn test_nested_rows_require_one_container() {
    let schema = nested_schema();
    let doc = parse_document(b"<r><products/><extra/></r>").unwrap();
    let err = parse_data_to_jsonl(Parser::new(&doc), &schema).unwrap_err();
    assert_eq!(err.kind, ErrorKind::Structure);
    let doc = parse_document(b"<r><products><product/><other/></products></r>").unwrap();
    let err = parse_data_to_jsonl(Parser::new(&doc), &schema).unwrap_err();
    assert_eq!(err.kind, ErrorKind::Structure);
}

#[test]
fn test_nested_duplicate_row_fields_rejected() {
    let schema = nested_schema();
    let doc = parse_document(b"<r><products><product><id>1</id><id>2</id></product></products></r>")
        .unwrap();
    let err = parse_data_to_jsonl(Parser::new(&doc), &schema).unwrap_err();
    assert_eq!(err.kind, ErrorKind::DuplicateField);
    assert_eq!(err.path, vec!["products".to_string(), "product".to_string()]);
}

#[test]
fn test_nested_decode_error_breadcrumb() {
    let schema = nested_schema();
    let doc = parse_document(b"<r><products><product><ok>zz</ok></product></products></r>")
        .unwrap();
    let err = parse_data_to_jsonl(Parser::new(&doc), &schema).unwrap_err();
    assert_eq!(err.kind, ErrorKind::Parse);
    assert_eq!(
        err.path,
        vec!["products".to_string(), "product".to_string(), "ok".to_string()]
    );
}

#[test]
fn test_cross_representation_scalars_agree() {
    // The same document through both pathways: every scalar agrees.
    let flat = Schema3 {
        fields: vec![
            Field { name: "id".to_string(), data_type: DataType::UInt32 },
            Field { name: "name".to_string(), data_type: DataType::Utf8 },
        ],
        associations: vec![],
    };
    let nested = Schema {
        record: Record {
            fields: vec![presta_columns::schema::Field {
                name: "products".to_string(),
                ty: Type::Record(Record {
                    fields: vec![
                        presta_columns::schema::Field { name: "id".to_string(), ty: Type::UInt32 },
                        presta_columns::schema::Field { name: "name".to_string(), ty: Type::Utf8 },
                    ],
                }),
            }],
        },
    };
    let data = b"<r><products><product><id>9</id><name>w</name></product>\
                 <product><id>10</id></product></products></r>";
    let doc = parse_document(data).unwrap();
    let batch = decode_document(&flat, &doc).unwrap();
    let rows = parse_data_to_jsonl(Parser::new(&doc), &nested).unwrap();
    assert_eq!(batch.columns[0].cells, vec![Cell::UInt32(9), Cell::UInt32(10)]);
    assert_eq!(batch.columns[1].cells, vec![Cell::Utf8("w".to_string()), Cell::Null]);
    assert_eq!(
        rows[0],
        obj(vec![(
            "product",
            obj(vec![("id", JsonValue::UInt(9)), ("name", JsonValue::Str("w".to_string()))])
        )])
    );
    // The second row omits the absent field in the value tree, where the
    // columnar batch pads it with a null.
    assert_eq!(
        rows[1],
        obj(vec![("product", obj(vec![("id", JsonValue::UInt(10))]))])
    );
}
