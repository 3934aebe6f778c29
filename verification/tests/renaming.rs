use polarity::renaming::{increment_name, split_trailing_digits, Ctx, VarBind};

#[test]
fn test_split_empty() {
    assert_eq!(split_trailing_digits(""), ("", None))
}

#[test]
fn test_split_no_digits() {
    assert_eq!(split_trailing_digits("foo"), ("foo", None))
}

#[test]
fn test_split_digits() {
    assert_eq!(split_trailing_digits("foo42"), ("foo", Some(42)))
}

#[test]
fn split_only_digits() {
    assert_eq!(split_trailing_digits("007"), ("", Some(7)))
}

#[test]
fn split_digits_not_at_end() {
    assert_eq!(split_trailing_digits("x1y"), ("x1y", None))
}

#[test]
fn split_number_too_large() {
    assert_eq!(split_trailing_digits("a99999999999999999999999"), ("a", None))
}

#[test]
fn split_non_ascii_prefix() {
    assert_eq!(split_trailing_digits("λ12"), ("λ", Some(12)))
}

fn id_of(v: &VarBind) -> String {
    match v {
        VarBind::Var { id, .. } => id.clone(),
        VarBind::Wildcard { .. } => panic!("expected a named binder"),
    }
}

#[test]
fn increment_appends_zero() {
    let v = increment_name(VarBind::from_string("x"));
    assert_eq!(id_of(&v), "x0");
}

#[test]
fn increment_increments_number() {
    assert_eq!(id_of(&increment_name(VarBind::from_string("x9"))), "x10");
    assert_eq!(id_of(&increment_name(VarBind::from_string("foo41"))), "foo42");
}

#[test]
fn increment_adds_prime() {
    assert_eq!(id_of(&increment_name(VarBind::from_string("x'"))), "x''");
}

#[test]
fn increment_keeps_wildcard() {
    let w = increment_name(VarBind::Wildcard { span: None });
    assert!(matches!(w, VarBind::Wildcard { span: None }));
}

#[test]
fn increment_differs_from_original() {
    for name in ["a", "a0", "a09", "''", "z99"] {
        assert_ne!(id_of(&increment_name(VarBind::from_string(name))), name);
    }
}

fn var(id: &str) -> VarBind {
    VarBind::Var { span: None, id: id.to_string() }
}

#[test]
fn ctx_contains_name() {
    let ctx = Ctx { binders: vec![vec![var("x"), VarBind::Wildcard { span: None }], vec![var("y0")]] };
    assert!(ctx.contains_name("x"));
    assert!(ctx.contains_name("y0"));
    assert!(!ctx.contains_name("y"));
    assert!(!ctx.contains_name("_"));
}

#[test]
fn disambiguate_keeps_free_names() {
    let ctx = Ctx { binders: vec![vec![var("x")]] };
    assert_eq!(id_of(&ctx.disambiguate_var_bind(var("y"))), "y");
}

#[test]
fn disambiguate_renames_bound_names() {
    let ctx = Ctx { binders: vec![vec![var("x"), var("x0")], vec![var("x1"), var("n7")]] };
    assert_eq!(id_of(&ctx.disambiguate_var_bind(var("x"))), "x2");
    assert_eq!(id_of(&ctx.disambiguate_var_bind(var("n7"))), "n8");
    assert_eq!(id_of(&ctx.disambiguate_var_bind(VarBind::Wildcard { span: None })), "x2");
}

#[test]
fn disambiguate_primes_and_spans() {
    let span = Some(codespan::Span::new(4, 6));
    let ctx = Ctx { binders: vec![vec![var("a'"), var("a''")]] };
    match ctx.disambiguate_var_bind(VarBind::Var { span, id: "a'".to_string() }) {
        VarBind::Var { span: s, id } => {
            assert_eq!(id, "a'''");
            assert_eq!(s, span);
        }
        VarBind::Wildcard { .. } => panic!("expected a variable"),
    }
    let empty = Ctx { binders: vec![] };
    match empty.disambiguate_var_bind(VarBind::Wildcard { span }) {
        VarBind::Var { span: s, id } => {
            assert_eq!(id, "x");
            assert_eq!(s, span);
        }
        VarBind::Wildcard { .. } => panic!("expected a variable"),
    }
}
