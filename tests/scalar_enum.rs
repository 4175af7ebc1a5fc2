use knuffel_derive_plan::scalar::{
    format_expected, to_decimal, DecodeError, Enum, Literal, VariantDecl,
};

fn unit(ident: &str) -> VariantDecl {
    VariantDecl { ident: ident.to_string(), unit: true }
}

fn enum_of(names: &[&str]) -> Enum {
    let decls: Vec<VariantDecl> = names.iter().map(|n| unit(n)).collect();
    Enum::new("Color".to_string(), &decls).ok().unwrap()
}

#[test]
fn variant_tag_is_kebab_case() {
    let e = enum_of(&["FooBar", "XMLHttpRequest", "A"]);
    assert_eq!(e.variants[0].ident, "FooBar");
    assert_eq!(e.variants[0].name, "foo-bar");
    assert_eq!(e.variants[1].name, "xml-http-request");
    assert_eq!(e.variants[2].name, "a");
}

#[test]
fn two_variants_list_every_tag() {
    let e = enum_of(&["A", "B"]);
    assert_eq!(e.value_error(), "expected one of `a`, `b`");
}

#[test]
fn three_variants_list_every_tag() {
    let e = enum_of(&["Red", "Green", "DarkBlue"]);
    assert_eq!(e.value_error(), "expected one of `red`, `green`, `dark-blue`");
}

#[test]
fn five_variants_name_two_and_count_the_rest() {
    let e = enum_of(&["First", "Second", "Third", "Fourth", "Fifth"]);
    assert_eq!(e.value_error(), "expected `first`, `second`, or 3 others");
}

#[test]
fn message_escapes_tags() {
    let tags = vec!["a\"b".to_string(), "c\\d".to_string()];
    assert_eq!(format_expected(&tags), "expected one of `a\"b`, `c\\d`");
    let mut e = enum_of(&["A"]);
    e.variants[0].name = "x\ny".to_string();
    assert_eq!(e.value_error(), "expected one of `x\\ny`");
}

#[test]
fn format_expected_edges() {
    assert_eq!(format_expected(&Vec::new()), "expected one of ");
    assert_eq!(format_expected(&vec!["x".to_string()]), "expected one of `x`");
    let many: Vec<String> = (0..14).map(|i| format!("t{}", i)).collect();
    assert_eq!(format_expected(&many), "expected `t0`, `t1`, or 12 others");
}

#[test]
fn decimal_digits() {
    assert_eq!(to_decimal(0), "0");
    assert_eq!(to_decimal(7), "7");
    assert_eq!(to_decimal(10), "10");
    assert_eq!(to_decimal(1203), "1203");
    assert_eq!(to_decimal(usize::MAX), usize::MAX.to_string());
}

#[test]
fn variant_with_fields_is_rejected() {
    let decls = vec![unit("A"), VariantDecl { ident: "B".to_string(), unit: false }, unit("C")];
    let err = Enum::new("E".to_string(), &decls).err().unwrap();
    assert_eq!(err.at, 1);
    assert_eq!(err.ident, "B");
    assert_eq!(err.message, "only unit variants are allowed for DecodeScalar");
}

#[test]
fn first_bad_variant_is_reported() {
    let decls = vec![
        VariantDecl { ident: "X".to_string(), unit: false },
        VariantDecl { ident: "Y".to_string(), unit: false },
    ];
    assert_eq!(Enum::new("E".to_string(), &decls).err().unwrap().at, 0);
}

#[test]
fn decode_picks_matching_variant() {
    let e = enum_of(&["FooBar", "Baz"]);
    assert_eq!(e.decode(false, &Literal::String("baz".to_string())).ok(), Some(1));
    assert_eq!(e.decode(false, &Literal::String("foo-bar".to_string())).ok(), Some(0));
}

#[test]
fn decode_first_of_equal_tags_wins() {
    let e = enum_of(&["FooBar", "Foo_Bar"]);
    assert_eq!(e.variants[1].name, "foo-bar");
    assert_eq!(e.decode(false, &Literal::String("foo-bar".to_string())).ok(), Some(0));
}

#[test]
fn type_name_is_rejected_even_for_matching_tag() {
    let e = enum_of(&["FooBar", "Baz"]);
    match e.decode(true, &Literal::String("foo-bar".to_string())) {
        Err(DecodeError::TypeName { message }) => {
            assert_eq!(message, "unexpected type name for Color")
        }
        _ => panic!("type name accepted"),
    }
}

#[test]
fn decode_rejects_non_strings() {
    let e = enum_of(&["FooBar"]);
    for lit in [Literal::Null, Literal::Bool(true), Literal::Int("1".to_string()), Literal::Decimal("1.5".to_string())] {
        match e.decode(false, &lit) {
            Err(DecodeError::Value { message }) => assert_eq!(message, "expected string value"),
            _ => panic!("non-string accepted"),
        }
    }
}

#[test]
fn decode_unknown_tag() {
    let e = enum_of(&["A", "B"]);
    match e.decode(false, &Literal::String("c".to_string())) {
        Err(DecodeError::Value { message }) => assert_eq!(message, "expected one of `a`, `b`"),
        _ => panic!("unknown tag accepted"),
    }
}
