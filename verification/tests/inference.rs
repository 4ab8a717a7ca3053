use presta_columns::error::ErrorKind;
use presta_columns::flat::{self, DataType};
use presta_columns::format::Format;
use presta_columns::nav::Parser;
use presta_columns::schema::{parse_schema, parse_schema_field_type, Type};
use presta_columns::xml::parse_document;

#[test]
fn test_flat_inference_from_bytes() {
    // The root's first child is the field container.
    let bytes = b"<prestashop><products><id_supplier/><name><language id=\"1\"/></name>\
                  <price format=\"isPrice\"/><active format=\"isBool\"/><date_add/>\
                  <note format=\"isCleanHtml\"/><other/></products></prestashop>";
    let schema = flat::parse_schema(bytes).unwrap();
    let names: Vec<&str> = schema.fields.iter().map(|f| f.name.as_str()).collect();
    assert_eq!(names, vec!["id", "id_supplier", "name", "price", "active", "date_add", "note", "other"]);
    let types: Vec<DataType> = schema.fields.iter().map(|f| f.data_type).collect();
    assert_eq!(
        types,
        vec![
            DataType::UInt32,
            DataType::UInt32,
            DataType::MultilingualUtf8,
            DataType::Float64,
            DataType::Boolean,
            DataType::Date,
            DataType::Utf8,
            DataType::Utf8,
        ]
    );
}

#[test]
fn test_flat_inference_idempotent() {
    let bytes = b"<p><products><id_x/><name><language id=\"1\"/></name>\
                  <associations><tags><tag><id/></tag></tags></associations></products></p>";
    let s1 = flat::parse_schema(bytes).unwrap();
    let s2 = flat::parse_schema(bytes).unwrap();
    assert_eq!(s1, s2);
}

#[test]
fn test_flat_lenient_format_policy() {
    // An unknown identifier and an unsupported known format are both just
    // no hint on the flat pathway.
    let bytes = b"<p><c><x format=\"noSuchFormat\"/><y format=\"isEmail\"/></c></p>";
    let schema = flat::parse_schema(bytes).unwrap();
    assert_eq!(schema.fields[1].data_type, DataType::Utf8);
    assert_eq!(schema.fields[2].data_type, DataType::Utf8);
}

#[test]
fn test_flat_association_without_example_child() {
    let bytes = b"<p><c><associations><tags/></associations></c></p>";
    let err = flat::parse_schema(bytes).unwrap_err();
    assert_eq!(err.kind, ErrorKind::Structure);
    // The breadcrumb runs from the field container to the association.
    assert_eq!(
        err.path,
        vec!["c".to_string(), "associations".to_string(), "tags".to_string()]
    );
}

#[test]
fn test_flat_multilingual_strict_shape() {
    // Exactly one childless language child with a numeric id is required;
    // anything else falls back to the name heuristic or text.
    let schema = flat::parse_schema(
        b"<p><c><name><language id=\"1\">a</language><language id=\"2\">b</language></name></c></p>",
    )
    .unwrap();
    assert_eq!(schema.fields[1].data_type, DataType::Utf8);
    let schema =
        flat::parse_schema(b"<p><c><name><language id=\"x\"/></name></c></p>").unwrap();
    assert_eq!(schema.fields[1].data_type, DataType::Utf8);
    let schema =
        flat::parse_schema(b"<p><c><name><language id=\"1\"><x/></language></name></c></p>").unwrap();
    assert_eq!(schema.fields[1].data_type, DataType::Utf8);
    let schema = flat::parse_schema(b"<p><c><name><language id=\"1\"/></name></c></p>").unwrap();
    assert_eq!(schema.fields[1].data_type, DataType::MultilingualUtf8);
}

#[test]
fn test_nested_inference() {
    let bytes = b"<prestashop><products><id_supplier/><name/>\
                  <price format=\"isPrice\"/></products></prestashop>";
    let doc = parse_document(bytes).unwrap();
    let schema = parse_schema(Parser::new(&doc)).unwrap();
    assert_eq!(schema.record.fields.len(), 1);
    assert_eq!(schema.record.fields[0].name.as_str(), "products");
    match &schema.record.fields[0].ty {
        Type::Record(rec) => {
            let names: Vec<&str> = rec.fields.iter().map(|f| f.name.as_str()).collect();
            assert_eq!(names, vec!["id", "id_supplier", "name", "price"]);
            assert!(matches!(rec.fields[0].ty, Type::UInt32));
            assert!(matches!(rec.fields[1].ty, Type::UInt32));
            assert!(matches!(rec.fields[2].ty, Type::Utf8));
            assert!(matches!(rec.fields[3].ty, Type::Float64));
        }
        other => panic!("expected a record, got {:?}", other),
    }
}

#[test]
fn test_nested_inference_idempotent() {
    let bytes = b"<p><products><id_x/><name/></products></p>";
    let d1 = parse_document(bytes).unwrap();
    let d2 = parse_document(bytes).unwrap();
    let s1 = parse_schema(Parser::new(&d1)).unwrap();
    let s2 = parse_schema(Parser::new(&d2)).unwrap();
    assert_eq!(s1, s2);
}

#[test]
fn test_nested_strict_format_policy() {
    // On the nested pathway an unknown identifier is fatal, and so is a
    // known format without a primitive mapping.
    let doc = parse_document(b"<x format=\"noSuchFormat\"/>").unwrap();
    let err = parse_schema_field_type(None, Parser::new(&doc)).unwrap_err();
    assert_eq!(err.kind, ErrorKind::UnsupportedFormat);
    let doc = parse_document(b"<x format=\"isEmail\"/>").unwrap();
    let err = parse_schema_field_type(None, Parser::new(&doc)).unwrap_err();
    assert_eq!(err.kind, ErrorKind::UnsupportedFormat);
}

#[test]
fn test_nested_multilingual_and_list_shapes() {
    // Exactly one childless language child with a numeric id classifies
    // as multilingual.
    let doc = parse_document(b"<name><language id=\"7\"/></name>").unwrap();
    let ty = parse_schema_field_type(Some("name"), Parser::new(&doc)).unwrap();
    assert!(matches!(ty, Type::Language(7)));

    // A nodeType marker classifies as a list of the single child.
    let doc = parse_document(b"<accessories nodeType=\"product\"><product><id/></product></accessories>")
        .unwrap();
    let ty = parse_schema_field_type(Some("accessories"), Parser::new(&doc)).unwrap();
    match ty {
        Type::List(f) => {
            assert_eq!(f.name.as_str(), "product");
            assert!(matches!(f.ty, Type::Record(_)));
        }
        other => panic!("expected a list, got {:?}", other),
    }

    // Two or more identically named children classify as a list too.
    let doc = parse_document(b"<rows><row><id/></row><row><id/></row></rows>").unwrap();
    let ty = parse_schema_field_type(Some("rows"), Parser::new(&doc)).unwrap();
    assert!(matches!(ty, Type::List(_)));

    // Two language children are not the multilingual shape; they classify
    // as a repeating container instead.
    let doc = parse_document(b"<name><language id=\"1\">x</language><language id=\"2\">y</language></name>")
        .unwrap();
    let ty = parse_schema_field_type(Some("name"), Parser::new(&doc)).unwrap();
    match ty {
        Type::List(f) => assert_eq!(f.name.as_str(), "language"),
        other => panic!("expected a list, got {:?}", other),
    }
}

#[test]
fn test_nested_duplicate_fields_rejected() {
    // Mixed repeated names where uniqueness is required.
    let doc = parse_document(b"<c><x/><y/><x/></c>").unwrap();
    let err = parse_schema_field_type(Some("c"), Parser::new(&doc)).unwrap_err();
    assert_eq!(err.kind, ErrorKind::DuplicateField);
    assert!(err.path.is_empty());
    // Through whole-schema inference the breadcrumb reaches the container.
    let doc = parse_document(b"<p><c><x/><y/><x/></c></p>").unwrap();
    let err = parse_schema(Parser::new(&doc)).unwrap_err();
    assert_eq!(err.kind, ErrorKind::DuplicateField);
    assert_eq!(err.path, vec!["c".to_string()]);
}

#[test]
fn test_format_identifier_table() {
    assert_eq!(Format::from_string("isBool").unwrap(), Format::IsBool);
    assert_eq!(Format::from_string("isUnsignedId").unwrap(), Format::IsUnsignedId);
    assert_eq!(Format::from_string("isGenericName").unwrap(), Format::IsGenericName);
    assert_eq!(Format::from_string("IsGenericName").unwrap(), Format::IsGenericName1);
    assert_eq!(Format::from_string("isDateOrNull").unwrap(), Format::IsDateOrNull);
    let err = Format::from_string("isBOOL").unwrap_err();
    assert_eq!(err.kind, ErrorKind::UnsupportedFormat);
    assert!(Format::from_string("").is_err());
}

#[test]
fn test_flat_type_tables() {
    assert_eq!(flat::type_from_name("id_product"), Some(DataType::UInt32));
    assert_eq!(flat::type_from_name("date_add"), Some(DataType::Date));
    assert_eq!(flat::type_from_name("upload_date"), Some(DataType::Date));
    assert_eq!(flat::type_from_name("name"), None);
    assert_eq!(flat::type_from_format(&Format::IsPrice).unwrap(), DataType::Float64);
    assert_eq!(flat::type_from_format(&Format::IsDate).unwrap(), DataType::Date);
    assert!(flat::type_from_format(&Format::IsEmail).is_err());
}
