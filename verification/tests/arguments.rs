use core::str::FromStr;
use presta_columns::args::{FieldValueIn, Limit, OutputFormat};

#[test]
fn test() {
    let x = <FieldValueIn as FromStr>::from_str("field=ab\\|c|de|f||g").unwrap();
    assert_eq!(x.field_name.as_str(), "field");
    assert_eq!(x.values, vec!["ab|c", "de", "f", "", "g"]);
    let x = <FieldValueIn as FromStr>::from_str("field=a").unwrap();
    assert_eq!(x.field_name.as_str(), "field");
    assert_eq!(x.values, vec!["a"]);
    assert!(<FieldValueIn as FromStr>::from_str("=a").is_err());
    assert!(<FieldValueIn as FromStr>::from_str("a=").is_err());
}

#[test]
fn test_field_value_in_trailing_escape() {
    assert!(<FieldValueIn as FromStr>::from_str("f=a\\").is_err());
    let x = <FieldValueIn as FromStr>::from_str("f=a\\\\").unwrap();
    assert_eq!(x.values, vec!["a\\"]);
}

#[test]
fn test_limit_parsing() {
    assert_eq!(Limit::from_str("all").unwrap(), Limit::All);
    assert_eq!(Limit::from_str("10").unwrap(), Limit::Limit(10));
    assert_eq!(Limit::from_str("10,20").unwrap(), Limit::LimitFromIndex(10, 20));
    assert_eq!(Limit::from_str("+3").unwrap(), Limit::Limit(3));
    assert!(Limit::from_str("x").is_err());
    assert!(Limit::from_str("10,").is_err());
    assert!(Limit::from_str("").is_err());
    assert_eq!(Limit::default(), Limit::All);
}

#[test]
fn test_output_format_default() {
    assert_eq!(OutputFormat::default(), OutputFormat::JSON);
}
