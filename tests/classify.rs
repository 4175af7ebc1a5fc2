use knuffel_derive_plan::definition::{
    is_option, ArgKind, Attr, ExtraKind, FieldAttrs, FieldDecl, FieldMode, Struct, TypeShape,
    UnitStruct,
};

fn plain(name: &str) -> TypeShape {
    TypeShape::Path { qself: false, leading_colon: false, segments: vec![name.to_string()] }
}

fn field(ident: &str, mode: Option<FieldMode>) -> FieldDecl {
    FieldDecl { ident: ident.to_string(), ty: plain("u32"), mode }
}

fn opt_field(ident: &str, mode: Option<FieldMode>) -> FieldDecl {
    FieldDecl { ident: ident.to_string(), ty: plain("Option"), mode }
}

#[test]
fn every_role_lands_in_its_slot() {
    let fields = vec![
        field("name", Some(FieldMode::Argument)),
        opt_field("alias", Some(FieldMode::Argument)),
        field("rest", Some(FieldMode::Arguments)),
        opt_field("color", Some(FieldMode::Property)),
        field("other", Some(FieldMode::Properties)),
        field("nodes", Some(FieldMode::Children)),
        field("cache", None),
    ];
    let s = Struct::new("Node".to_string(), &fields).ok().unwrap();
    assert_eq!(s.ident, "Node");
    assert_eq!(s.arguments.len(), 2);
    assert_eq!(s.arguments[0].field, "name");
    assert_eq!(s.arguments[0].kind, ArgKind::Value { option: false });
    assert_eq!(s.arguments[1].field, "alias");
    assert_eq!(s.arguments[1].kind, ArgKind::Value { option: true });
    assert_eq!(s.var_args.as_ref().unwrap().field, "rest");
    assert_eq!(s.properties.len(), 1);
    assert_eq!(s.properties[0].name(), "color");
    assert!(s.properties[0].option);
    assert_eq!(s.var_props.as_ref().unwrap().field, "other");
    assert_eq!(s.children.as_ref().unwrap().field, "nodes");
    assert_eq!(s.extra_fields.len(), 1);
    assert_eq!(s.extra_fields[0].ident, "cache");
    assert_eq!(s.extra_fields[0].kind, ExtraKind::Default);
    assert!(!s.children_only);
}

#[test]
fn plan_holds_each_field_once() {
    let fields = vec![
        field("extra1", None),
        field("kids", Some(FieldMode::Children)),
        field("p", Some(FieldMode::Property)),
        field("a", Some(FieldMode::Argument)),
        field("props", Some(FieldMode::Properties)),
        field("args", Some(FieldMode::Arguments)),
        field("extra2", None),
    ];
    let s = Struct::new("S".to_string(), &fields).ok().unwrap();
    let mut got = s.all_fields();
    assert_eq!(got, vec!["a", "args", "p", "props", "kids", "extra1", "extra2"]);
    got.sort();
    let mut want: Vec<String> = fields.iter().map(|f| f.ident.clone()).collect();
    want.sort();
    assert_eq!(got, want);
}

#[test]
fn empty_struct_is_children_only() {
    let s = Struct::new("Empty".to_string(), &Vec::new()).ok().unwrap();
    assert!(s.children_only);
    assert!(s.all_fields().is_empty());
}

#[test]
fn children_only_ignores_children_and_extra_fields() {
    let fields = vec![field("kids", Some(FieldMode::Children)), field("x", None)];
    let s = Struct::new("S".to_string(), &fields).ok().unwrap();
    assert!(s.children_only);
    for mode in [FieldMode::Argument, FieldMode::Arguments, FieldMode::Property, FieldMode::Properties] {
        let fields = vec![field("kids", Some(FieldMode::Children)), field("y", Some(mode))];
        let s = Struct::new("S".to_string(), &fields).ok().unwrap();
        assert!(!s.children_only);
    }
}

#[test]
fn two_catch_all_arguments_conflict() {
    let fields = vec![
        field("first", Some(FieldMode::Arguments)),
        field("mid", None),
        field("second", Some(FieldMode::Arguments)),
    ];
    let e = Struct::new("S".to_string(), &fields).err().unwrap();
    assert_eq!(e.primary.at, 2);
    assert_eq!(e.primary.ident, "second");
    assert_eq!(e.primary.message, "only single `arguments` allowed");
    assert_eq!(e.secondary.at, 0);
    assert_eq!(e.secondary.ident, "first");
    assert_eq!(e.secondary.message, "previous `arguments` is defined here");
}

#[test]
fn argument_after_catch_all_arguments_conflicts() {
    let fields = vec![field("all", Some(FieldMode::Arguments)), field("one", Some(FieldMode::Argument))];
    let e = Struct::new("S".to_string(), &fields).err().unwrap();
    assert_eq!(e.primary.at, 1);
    assert_eq!(e.primary.ident, "one");
    assert_eq!(e.primary.message, "extra `argument` after capture all `arguments`");
    assert_eq!(e.secondary.at, 0);
    assert_eq!(e.secondary.ident, "all");
    assert_eq!(e.secondary.message, "capture all `arguments` is defined here");
}

#[test]
fn argument_before_catch_all_arguments_is_fine() {
    let fields = vec![field("one", Some(FieldMode::Argument)), field("all", Some(FieldMode::Arguments))];
    assert!(Struct::new("S".to_string(), &fields).is_ok());
}

#[test]
fn property_conflicts() {
    let fields = vec![field("all", Some(FieldMode::Properties)), field("one", Some(FieldMode::Property))];
    let e = Struct::new("S".to_string(), &fields).err().unwrap();
    assert_eq!(e.primary.message, "extra `property` after capture all `properties`");
    assert_eq!(e.secondary.message, "capture all `properties` is defined here");

    let fields = vec![field("a", Some(FieldMode::Properties)), field("b", Some(FieldMode::Properties))];
    let e = Struct::new("S".to_string(), &fields).err().unwrap();
    assert_eq!((e.primary.at, e.secondary.at), (1, 0));
    assert_eq!(e.primary.message, "only single `properties` is allowed");
    assert_eq!(e.secondary.message, "previous `properties` is defined here");
}

#[test]
fn two_catch_all_children_conflict() {
    let fields = vec![
        field("a", Some(FieldMode::Children)),
        field("b", Some(FieldMode::Argument)),
        field("c", Some(FieldMode::Children)),
    ];
    let e = Struct::new("S".to_string(), &fields).err().unwrap();
    assert_eq!((e.primary.at, e.secondary.at), (2, 0));
    assert_eq!(e.primary.ident, "c");
    assert_eq!(e.secondary.ident, "a");
    assert_eq!(e.primary.message, "only single catch all `children` is allowed");
    assert_eq!(e.secondary.message, "previous `children` is defined here");
}

#[test]
fn first_conflict_is_reported() {
    let fields = vec![
        field("p", Some(FieldMode::Properties)),
        field("a", Some(FieldMode::Arguments)),
        field("p2", Some(FieldMode::Property)),
        field("a2", Some(FieldMode::Arguments)),
    ];
    let e = Struct::new("S".to_string(), &fields).err().unwrap();
    assert_eq!(e.primary.ident, "p2");
    assert_eq!(e.secondary.ident, "p");
}

#[test]
fn option_detection() {
    assert!(is_option(&plain("Option")));
    assert!(!is_option(&plain("Vec")));
    assert!(!is_option(&TypeShape::Other));
    assert!(!is_option(&TypeShape::Path {
        qself: false,
        leading_colon: true,
        segments: vec!["Option".to_string()],
    }));
    assert!(!is_option(&TypeShape::Path {
        qself: true,
        leading_colon: false,
        segments: vec!["Option".to_string()],
    }));
    assert!(!is_option(&TypeShape::Path {
        qself: false,
        leading_colon: false,
        segments: vec!["std".to_string(), "Option".to_string()],
    }));
}

#[test]
fn field_attrs_last_mode_wins() {
    let mut a = FieldAttrs::new();
    assert_eq!(a.mode, None);
    a.update(&Vec::new());
    assert_eq!(a.mode, None);
    a.update(&vec![Attr::FieldMode(FieldMode::Argument), Attr::FieldMode(FieldMode::Children)]);
    assert_eq!(a.mode, Some(FieldMode::Children));
    a.update(&Vec::new());
    assert_eq!(a.mode, Some(FieldMode::Children));
    a.update(&vec![Attr::FieldMode(FieldMode::Property)]);
    assert_eq!(a.mode, Some(FieldMode::Property));
}

#[test]
fn unit_struct_keeps_name() {
    assert_eq!(UnitStruct::new("Unit".to_string()).ident, "Unit");
}
