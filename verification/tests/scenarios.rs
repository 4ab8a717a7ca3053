use presta_columns::columns::{parse_response_to_columns, AssocRecord, Cell, LangItem};
use presta_columns::flat::{infer_container, Association, DataType, Field, Schema3};
use presta_columns::xml::parse_document;

fn utf8(s: &str) -> Cell {
    Cell::Utf8(s.to_string())
}

#[test]
fn test_schema_and_nulls_scenario() {
    // One declared text field; a row without it yields a null, and the
    // synthetic id column stays null throughout.
    let sample = parse_document(b"<a><name/></a>").unwrap();
    let schema = infer_container(&sample).unwrap();
    assert_eq!(
        schema,
        Schema3 {
            fields: vec![
                Field { name: "id".to_string(), data_type: DataType::UInt32 },
                Field { name: "name".to_string(), data_type: DataType::Utf8 },
            ],
            associations: vec![],
        }
    );
    let data = b"<a><elements><element><name>x</name></element><element/>\
                 <element><name>z</name></element></elements></a>";
    let batch = parse_response_to_columns(&schema, data).unwrap();
    assert_eq!(batch.columns[0].name.as_str(), "id");
    assert_eq!(batch.columns[0].cells, vec![Cell::Null, Cell::Null, Cell::Null]);
    assert_eq!(batch.columns[1].name.as_str(), "name");
    assert_eq!(batch.columns[1].cells, vec![utf8("x"), Cell::Null, utf8("z")]);
}

#[test]
fn test_price_format_scenario() {
    // A field declared with the price format decodes as a float column:
    // plain text parses, whitespace is null, junk is a parse error.
    let sample = parse_document(b"<a><price format=\"isPrice\"/></a>").unwrap();
    let schema = infer_container(&sample).unwrap();
    assert_eq!(schema.fields[1], Field { name: "price".to_string(), data_type: DataType::Float64 });

    let data = b"<a><rows><row><price>12.50</price></row><row><price> </price></row>\
                 <row><price/></row></rows></a>";
    let batch = parse_response_to_columns(&schema, data).unwrap();
    assert_eq!(
        batch.columns[1].cells,
        vec![Cell::Float64("12.50".to_string()), Cell::Null, Cell::Null]
    );
    assert_eq!("12.50".parse::<f64>().unwrap(), 12.5);

    let bad = b"<a><rows><row><price>N/A</price></row></rows></a>";
    let err = parse_response_to_columns(&schema, bad).unwrap_err();
    assert_eq!(err.kind, presta_columns::error::ErrorKind::Parse);
    assert_eq!(err.path, vec!["rows".to_string(), "row".to_string(), "price".to_string()]);
}

#[test]
fn test_multilingual_scenario() {
    // A multilingual field becomes a list of id/text pairs.
    let sample = parse_document(b"<a><name><language id=\"1\"/></name></a>").unwrap();
    let schema = infer_container(&sample).unwrap();
    assert_eq!(schema.fields[1].data_type, DataType::MultilingualUtf8);

    let data = b"<a><rows><row><name><language id=\"1\">A</language>\
                 <language id=\"2\">B</language></name></row></rows></a>";
    let batch = parse_response_to_columns(&schema, data).unwrap();
    assert_eq!(
        batch.columns[1].cells,
        vec![Cell::LangList(vec![
            LangItem { id: Some(1), text: Some("A".to_string()) },
            LangItem { id: Some(2), text: Some("B".to_string()) },
        ])]
    );
}

#[test]
fn test_association_scenario() {
    // A declared association decodes as a nested list-of-records column.
    let sample = parse_document(
        b"<a><associations><categories><category><id/></category></categories></associations></a>",
    )
    .unwrap();
    let schema = infer_container(&sample).unwrap();
    assert_eq!(schema.fields.len(), 1);
    assert_eq!(
        schema.associations,
        vec![Association {
            name: "categories".to_string(),
            element_name: "category".to_string(),
            fields: vec![Field { name: "id".to_string(), data_type: DataType::UInt32 }],
        }]
    );

    let data = b"<a><rows><row><associations><categories>\
                 <category><id>1</id></category><category><id>2</id></category>\
                 </categories></associations></row></rows></a>";
    let batch = parse_response_to_columns(&schema, data).unwrap();
    assert_eq!(batch.assoc_present, vec![true]);
    assert_eq!(batch.assoc_columns[0].name.as_str(), "categories");
    assert_eq!(
        batch.assoc_columns[0].rows,
        vec![Some(vec![
            AssocRecord { cells: vec![Cell::UInt32(1)] },
            AssocRecord { cells: vec![Cell::UInt32(2)] },
        ])]
    );
}

#[test]
fn test_parse_simple_response() {
    let schema = Schema3 {
        fields: vec![Field { name: "name".to_string(), data_type: DataType::Utf8 }],
        associations: vec![],
    };
    let source = r#"
        <toplevel>
            <elements>
                <element>
                    <name>a</name>
                </element>
                <element>
                </element>
                <element>
                    <name>c</name>
                </element>
            </elements>
        </toplevel>
        "#;
    let result = parse_response_to_columns(&schema, source.as_bytes()).unwrap();
    assert_eq!(result.columns[0].cells, vec![utf8("a"), Cell::Null, utf8("c")]);
}

#[test]
fn test_parse_multilingual_field() {
    let schema = Schema3 {
        fields: vec![Field { name: "name".to_string(), data_type: DataType::MultilingualUtf8 }],
        associations: vec![],
    };
    let source = r#"
        <toplevel>
            <elements>
                <element>
                    <name>
                        <language id="1">a</language>
                        <language id="2">b</language>
                    </name>
                </element>
                <element>
                </element>
                <element>
                    <name>
                        <language id="1">c</language>
                        <language id="2">d</language>
                    </name>
                </element>
            </elements>
        </toplevel>
        "#;
    let _result = parse_response_to_columns(&schema, source.as_bytes()).unwrap();
}

#[test]
fn test_parse_associations() {
    let schema = Schema3 {
        fields: vec![Field { name: "name".to_string(), data_type: DataType::MultilingualUtf8 }],
        associations: vec![Association {
            name: "categories".to_string(),
            element_name: "category".to_string(),
            fields: vec![Field { name: "id".to_string(), data_type: DataType::UInt32 }],
        }],
    };
    let source = r#"
        <toplevel>
            <elements>
                <element>
                    <name>
                        <language id="1">a</language>
                        <language id="2">b</language>
                    </name>
                    <associations>
                        <categories>
                            <category><id>1</id></category>
                            <category><id>2</id></category>
                            <category><id>3</id></category>
                        </categories>
                    </associations>
                </element>
                <element>
                </element>
                <element>
                    <name>
                        <language id="3">c</language>
                        <language id="4">d</language>
                    </name>
                    <associations>
                        <categories>
                            <category><id>1</id></category>
                            <category><id>3</id></category>
                        </categories>
                    </associations>
                </element>
            </elements>
        </toplevel>
        "#;
    let result = parse_response_to_columns(&schema, source.as_bytes()).unwrap();
    assert_eq!(result.assoc_present, vec![true, false, true]);
    assert_eq!(result.assoc_columns[0].rows[1], None);
}
