use knuffel_derive_plan::diagnostic::err_pair;

#[test]
fn err_pair_keeps_both_labels() {
    let e = err_pair(3, &"new".to_string(), 1, &"old".to_string(), "bad here", "set here");
    assert_eq!((e.primary.at, e.primary.ident.as_str(), e.primary.message.as_str()), (3, "new", "bad here"));
    assert_eq!((e.secondary.at, e.secondary.ident.as_str(), e.secondary.message.as_str()), (1, "old", "set here"));
}
