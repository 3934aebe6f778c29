use polarity::de_bruijn::Idx;
use polarity::decl::{Codata, Codef, Ctor, Data, Decl, Def, Dtor, Instantiate, Let, Param, SelfParam, Telescope};
use polarity::decls::{Attribute, DeclKind, DocComment};
use polarity::lookup::{Decls, Item as DeclItem, LookupError, Polarity};
use polarity::equiv::alpha_eq;
use polarity::exp::{Args, Call, Case, Exp, Match, Named, TelescopeInst, TypCtor, TypeUniv, Variable};
use polarity::forget::ForgetTST;
use polarity::lookup_table::{Item, LookupTable};

fn typ_ctor(name: &str, args: Vec<Exp>) -> TypCtor {
    TypCtor { span: None, name: name.to_string(), args: Args { args } }
}

fn annotated_var(fst: usize, snd: usize) -> Exp {
    Exp::Variable(Variable {
        span: None,
        idx: Idx { fst, snd },
        name: "x".to_string(),
        inferred_type: Some(Box::new(Exp::TypeUniv(TypeUniv { span: None }))),
    })
}

fn telescope(names: &[&str]) -> Telescope {
    Telescope {
        params: names
            .iter()
            .map(|n| Param { name: n.to_string(), typ: Box::new(Exp::TypeUniv(TypeUniv { span: None })) })
            .collect(),
    }
}

fn main_let(name: &str, params: Telescope) -> Let {
    Let {
        span: None,
        doc: Some(DocComment { docs: vec!["entry point".to_string()] }),
        name: name.to_string(),
        attr: Attribute::default(),
        params,
        typ: Box::new(Exp::TypCtor(typ_ctor("Nat", vec![]))),
        body: Box::new(annotated_var(0, 0)),
    }
}

// ----- telescopes -----

#[test]
fn telescope_len_and_instantiate() {
    let t = telescope(&["a", "b"]);
    assert_eq!(t.len(), 2);
    assert!(!t.is_empty());
    assert!(telescope(&[]).is_empty());
    let inst = t.instantiate();
    assert_eq!(inst.params.len(), 2);
    assert_eq!(inst.params[0].name, "a");
    assert_eq!(inst.params[1].name, "b");
    assert!(inst.params[0].typ.is_none());
    assert_eq!(t.params[1].name(), "b");
}

#[test]
fn self_param_telescope_and_simplicity() {
    let simple = SelfParam { info: None, name: None, typ: typ_ctor("Nat", vec![]) };
    assert!(simple.is_simple());
    let named = SelfParam { info: None, name: Some("n".to_string()), typ: typ_ctor("Nat", vec![]) };
    assert!(!named.is_simple());
    let applied = SelfParam {
        info: None,
        name: None,
        typ: typ_ctor("List", vec![Exp::TypCtor(typ_ctor("Nat", vec![]))]),
    };
    assert!(!applied.is_simple());
    let t = named.telescope();
    assert_eq!(t.params.len(), 1);
    assert_eq!(t.params[0].name, "n");
    assert!(alpha_eq(&t.params[0].typ, &Exp::TypCtor(typ_ctor("Nat", vec![]))));
    assert_eq!(simple.telescope().params[0].name, "");
}

#[test]
fn typ_ctor_to_exp_and_simplicity() {
    let t = typ_ctor("Nat", vec![]);
    assert!(t.is_simple());
    assert!(alpha_eq(&t.to_exp(), &Exp::TypCtor(typ_ctor("Nat", vec![]))));
}

// ----- declarations -----

#[test]
fn let_is_main() {
    assert!(main_let("main", telescope(&[])).is_main());
    assert!(!main_let("main", telescope(&["a"])).is_main());
    assert!(!main_let("other", telescope(&[])).is_main());
}

#[test]
fn decl_get_main() {
    let d = Decl::Let(main_let("main", telescope(&[])));
    let m = d.get_main().unwrap();
    assert_eq!(m.name, "main");
    assert_eq!(m.doc.unwrap().docs, vec!["entry point".to_string()]);
    assert!(Decl::Let(main_let("helper", telescope(&[]))).get_main().is_none());
    let codef = Decl::Codef(Codef {
        span: None,
        doc: None,
        name: "main".to_string(),
        attr: Attribute::default(),
        params: telescope(&[]),
        typ: typ_ctor("Stream", vec![]),
        body: Match { span: None, cases: vec![], omit_absurd: false },
    });
    assert!(codef.get_main().is_none());
}

#[test]
fn decl_name_and_span() {
    let d = Decl::Let(Let { span: Some(codespan::Span::new(3, 9)), ..main_let("main", telescope(&[])) });
    assert_eq!(d.name(), "main");
    assert_eq!(d.span(), Some(codespan::Span::new(3, 9)));
}

fn sample_def() -> Def {
    Def {
        span: None,
        doc: None,
        name: "pred".to_string(),
        attr: Attribute { attrs: vec!["transparent".to_string()] },
        params: telescope(&["k"]),
        self_param: SelfParam { info: None, name: Some("n".to_string()), typ: typ_ctor("Nat", vec![]) },
        ret_typ: Box::new(Exp::TypCtor(typ_ctor("Nat", vec![]))),
        body: Match {
            span: None,
            cases: vec![Case {
                span: None,
                name: "S".to_string(),
                params: TelescopeInst { params: vec![] },
                body: Some(Box::new(annotated_var(0, 0))),
            }],
            omit_absurd: false,
        },
    }
}

#[test]
fn def_to_dtor_keeps_signature() {
    let d = sample_def();
    let dtor = d.to_dtor();
    assert_eq!(dtor.name, "pred");
    assert_eq!(dtor.params.params.len(), 1);
    assert_eq!(dtor.self_param.name.as_deref(), Some("n"));
    assert!(alpha_eq(&dtor.ret_typ, &d.ret_typ));
}

#[test]
fn codef_to_ctor_keeps_signature() {
    let c = Codef {
        span: None,
        doc: None,
        name: "zeros".to_string(),
        attr: Attribute::default(),
        params: telescope(&[]),
        typ: typ_ctor("Stream", vec![]),
        body: Match { span: None, cases: vec![], omit_absurd: false },
    };
    let ctor = c.to_ctor();
    assert_eq!(ctor.name, "zeros");
    assert_eq!(ctor.typ.name, "Stream");
}

#[test]
fn forget_tst_of_definition() {
    let d = Decl::Def(sample_def());
    match d.forget_tst() {
        Decl::Def(f) => {
            assert_eq!(f.name, "pred");
            assert_eq!(f.attr.attrs, vec!["transparent".to_string()]);
            match &f.body.cases[0].body {
                Some(b) => match &**b {
                    Exp::Variable(v) => assert!(v.inferred_type.is_none()),
                    _ => panic!("expected a variable"),
                },
                None => panic!("expected a body"),
            }
        }
        _ => panic!("expected a definition"),
    }
}

#[test]
fn forget_tst_of_let() {
    let l = main_let("main", telescope(&["a"]));
    let f = l.forget_tst();
    match &*f.body {
        Exp::Variable(v) => assert!(v.inferred_type.is_none()),
        _ => panic!("expected a variable"),
    }
    assert_eq!(f.params.params[0].name, "a");
    let c = Call { span: None, name: "f".to_string(), args: Args { args: vec![] }, inferred_type: None };
    assert!(alpha_eq(&Exp::Call(c), &Exp::Call(Call { span: None, name: "f".to_string(), args: Args { args: vec![] }, inferred_type: None })));
}

// ----- lookup table -----

fn type_names(t: &LookupTable) -> Vec<String> {
    t.items()
        .iter()
        .map(|i| match i {
            Item::Type(t) => format!("type {}", t.name),
            Item::Def(d) => format!("def {}", d.name),
        })
        .collect()
}

#[test]
fn lookup_table_types_and_xtors() {
    let mut t = LookupTable::default();
    t.add_type_decl("Nat".to_string());
    t.add_xtor("Nat", "Z".to_string());
    t.add_xtor("Nat", "S".to_string());
    let decl = t.type_decl("Nat").unwrap();
    assert_eq!(decl.name, "Nat");
    assert_eq!(decl.xtors, vec!["Z".to_string(), "S".to_string()]);
    assert_eq!(t.type_decl_for_xtor("S").unwrap().name, "Nat");
    assert!(t.type_decl_for_xtor("T").is_none());
    assert_eq!(t.xtors_for_type("Nat"), vec!["Z".to_string(), "S".to_string()]);
    assert!(t.xtors_for_type("Bool").is_empty());
    assert_eq!(t.xtors("Nat"), &vec!["Z".to_string(), "S".to_string()]);
    assert!(t.type_decl("Bool").is_none());
}

#[test]
fn lookup_table_get_or_add_keeps_existing() {
    let mut t = LookupTable::default();
    t.get_or_add_type_decl("Nat".to_string());
    t.add_xtor("Nat", "Z".to_string());
    t.get_or_add_type_decl("Nat".to_string());
    assert_eq!(t.items().len(), 1);
    assert_eq!(t.xtors_for_type("Nat"), vec!["Z".to_string()]);
}

#[test]
fn lookup_table_defs() {
    let mut t = LookupTable::default();
    t.add_type_decl("Nat".to_string());
    t.add_type_decl("Bool".to_string());
    t.add_def("Nat".to_string(), "add".to_string());
    t.insert_def("Nat".to_string(), "pred".to_string());
    t.add_def("Nat".to_string(), "add".to_string());
    assert_eq!(type_names(&t), vec!["type Nat", "def pred", "type Bool", "def add", "def add"]);
    assert_eq!(t.type_decl_for_xdef("pred").unwrap().name, "Nat");
    assert!(t.type_decl_for_xdef("sub").is_none());
    assert_eq!(t.xdefs_for_type("Nat"), vec!["add".to_string(), "pred".to_string()]);
    assert!(t.xdefs_for_type("Bool").is_empty());
}

#[test]
fn lookup_table_insert_def_keeps_later_types() {
    let mut lt = LookupTable::default();
    lt.add_type_decl("A".to_owned());
    lt.add_type_decl("B".to_owned());
    lt.insert_def("A".to_owned(), "f".to_owned());
    assert_eq!(type_names(&lt), vec!["type A", "def f", "type B"]);
    assert_eq!(lt.type_decl_for_xdef("f").unwrap().name, "A");
    assert_eq!(lt.type_decl("B").unwrap().name, "B");
    assert_eq!(lt.type_decl("A").unwrap().name, "A");
    lt.add_xtor("B", "b".to_string());
    assert_eq!(lt.xtors_for_type("B"), vec!["b".to_string()]);
}

#[test]
fn lookup_table_clear_and_set_xtors() {
    let mut t = LookupTable::default();
    t.add_type_decl("Stream".to_string());
    t.add_xtor("Stream", "head".to_string());
    t.add_xtor("Stream", "tail".to_string());
    t.clear_xtors("Stream");
    assert!(t.xtors_for_type("Stream").is_empty());
    assert!(t.type_decl_for_xtor("head").is_none());
    t.set_xtors("Stream", vec!["hd".to_string(), "tl".to_string()]);
    assert_eq!(t.xtors_for_type("Stream"), vec!["hd".to_string(), "tl".to_string()]);
    assert_eq!(t.type_decl_for_xtor("tl").unwrap().name, "Stream");
    assert!(t.type_decl_for_xtor("tail").is_none());
}

// ----- declarations by name -----


fn data(name: &str) -> Decl {
    Decl::Data(Data {
        span: None,
        doc: None,
        name: name.to_string(),
        attr: Attribute::default(),
        typ: telescope(&[]),
        ctors: vec!["Z".to_string()],
    })
}

fn codata(name: &str) -> Decl {
    Decl::Codata(Codata {
        span: None,
        doc: None,
        name: name.to_string(),
        attr: Attribute::default(),
        typ: telescope(&["a"]),
        dtors: vec!["head".to_string()],
    })
}

fn ctor(name: &str, typ: &str) -> Decl {
    Decl::Ctor(Ctor { span: None, doc: None, name: name.to_string(), params: telescope(&[]), typ: typ_ctor(typ, vec![]) })
}

fn dtor(name: &str, typ: &str) -> Decl {
    Decl::Dtor(Dtor {
        span: None,
        doc: None,
        name: name.to_string(),
        params: telescope(&[]),
        self_param: SelfParam { info: None, name: None, typ: typ_ctor(typ, vec![]) },
        ret_typ: Box::new(Exp::TypeUniv(TypeUniv { span: None })),
    })
}

fn module() -> Decls {
    let mut d = Decls::empty();
    assert!(d.is_empty());
    d.insert("Nat".to_string(), data("Nat"));
    d.insert("Z".to_string(), ctor("Z", "Nat"));
    d.insert("Stream".to_string(), codata("Stream"));
    d.insert("head".to_string(), dtor("head", "Stream"));
    d.insert("pred".to_string(), Decl::Def(sample_def()));
    d.lookup_table.add_type_decl("Nat".to_string());
    d.lookup_table.add_xtor("Nat", "Z".to_string());
    d.lookup_table.add_type_decl("Stream".to_string());
    d.lookup_table.add_xtor("Stream", "head".to_string());
    d.lookup_table.add_def("Nat".to_string(), "pred".to_string());
    d
}

#[test]
fn decl_kinds() {
    assert_eq!(data("Nat").kind(), DeclKind::Data);
    assert_eq!(codata("S").kind(), DeclKind::Codata);
    assert_eq!(ctor("Z", "Nat").kind(), DeclKind::Ctor);
    assert_eq!(dtor("head", "S").kind(), DeclKind::Dtor);
    assert_eq!(Decl::Def(sample_def()).kind(), DeclKind::Def);
    assert_eq!(Decl::Let(main_let("main", telescope(&[]))).kind(), DeclKind::Let);
}

#[test]
fn decls_typed_lookups() {
    let d = module();
    assert!(!d.is_empty());
    assert_eq!(d.data("Nat", None).unwrap().name, "Nat");
    assert_eq!(d.codata("Stream", None).unwrap().name, "Stream");
    assert_eq!(d.ctor("Z", None).unwrap().name, "Z");
    assert_eq!(d.dtor("head", None).unwrap().name, "head");
    assert_eq!(d.def("pred", None).unwrap().name, "pred");
    match d.typ("Stream", None) {
        Ok(Polarity::Codata(c)) => assert_eq!(c.name, "Stream"),
        other => panic!("unexpected: {:?}", other),
    }
    let p = d.typ("Nat", None).unwrap();
    assert_eq!(p.name(), "Nat");
    assert_eq!(d.typ("Stream", None).unwrap().typ().params.len(), 1);
}

#[test]
fn decls_lookup_errors() {
    let d = module();
    let span = Some(codespan::Span::new(1, 4));
    match d.data("Bool", span) {
        Err(LookupError::UndefinedDeclaration { name, span: s }) => {
            assert_eq!(name, "Bool");
            assert_eq!(s, span);
        }
        other => panic!("unexpected: {:?}", other),
    }
    match d.data("Stream", None) {
        Err(LookupError::ExpectedData { name, actual, .. }) => {
            assert_eq!(name, "Stream");
            assert_eq!(actual, DeclKind::Codata);
        }
        other => panic!("unexpected: {:?}", other),
    }
    assert!(matches!(d.codata("Nat", None), Err(LookupError::ExpectedCodata { actual: DeclKind::Data, .. })));
    assert!(matches!(d.ctor("head", None), Err(LookupError::ExpectedCtor { actual: DeclKind::Dtor, .. })));
    assert!(matches!(d.dtor("Z", None), Err(LookupError::ExpectedDtor { actual: DeclKind::Ctor, .. })));
    assert!(matches!(d.def("Z", None), Err(LookupError::ExpectedDef { actual: DeclKind::Ctor, .. })));
    assert!(matches!(d.codef("pred", None), Err(LookupError::ExpectedCodef { actual: DeclKind::Def, .. })));
    assert!(matches!(d.typ("Z", None), Err(LookupError::ExpectedDataCodata { actual: DeclKind::Ctor, .. })));
    assert!(matches!(d.ctor_or_codef("Nat", None), Err(LookupError::ExpectedCtorCodef { actual: DeclKind::Data, .. })));
    assert!(matches!(d.dtor_or_def("Nat", None), Err(LookupError::ExpectedDtorDef { actual: DeclKind::Data, .. })));
}

#[test]
fn decls_ctor_or_codef_and_dtor_or_def() {
    let d = module();
    assert_eq!(d.ctor_or_codef("Z", None).unwrap().name, "Z");
    let dt = d.dtor_or_def("pred", None).unwrap();
    assert_eq!(dt.name, "pred");
    assert_eq!(dt.params.params.len(), 1);
    assert_eq!(d.dtor_or_def("head", None).unwrap().name, "head");
}

#[test]
fn decls_members_and_their_types() {
    let d = module();
    assert_eq!(d.data_for_ctor("Z", None).unwrap().name, "Nat");
    assert_eq!(d.codata_for_dtor("head", None).unwrap().name, "Stream");
    assert!(matches!(d.data_for_ctor("head", None), Err(LookupError::ExpectedCtor { .. })));
    match d.type_decl_for_member("pred", None) {
        Ok(Polarity::Data(x)) => assert_eq!(x.name, "Nat"),
        other => panic!("unexpected: {:?}", other),
    }
    match d.type_decl_for_member("head", None) {
        Ok(Polarity::Codata(x)) => assert_eq!(x.name, "Stream"),
        other => panic!("unexpected: {:?}", other),
    }
    assert!(matches!(d.type_decl_for_member("nothing", None), Err(LookupError::MissingTypeDeclaration { .. })));
    assert_eq!(d.xtors_for_type("Nat"), vec!["Z".to_string()]);
    assert_eq!(d.xdefs_for_type("Nat"), vec!["pred".to_string()]);
}

#[test]
fn decls_insert_replaces() {
    let mut d = Decls::empty();
    d.insert("X".to_string(), data("X"));
    d.insert("X".to_string(), codata("X"));
    assert!(d.codata("X", None).is_ok());
    assert!(d.data("X", None).is_err());
}

// ----- spans and types of expressions -----

#[test]
fn expression_span_and_type() {
    let v = annotated_var(0, 0);
    assert!(matches!(v.typ(), Some(Exp::TypeUniv(_))));
    assert_eq!(v.span(), None);
    let t = Exp::TypCtor(TypCtor { span: Some(codespan::Span::new(2, 5)), name: "Nat".to_string(), args: Args { args: vec![] } });
    assert_eq!(t.span(), Some(codespan::Span::new(2, 5)));
    assert!(matches!(t.typ(), Some(Exp::TypeUniv(_))));
    let c = Exp::Call(Call { span: None, name: "f".to_string(), args: Args { args: vec![] }, inferred_type: None });
    assert!(c.typ().is_none());
}

#[test]
fn decls_iter_in_source_order() {
    let d = module();
    let items = d.iter();
    assert_eq!(items.len(), 3);
    assert!(matches!(items[0], DeclItem::Data(x) if x.name == "Nat"));
    assert!(matches!(items[1], DeclItem::Codata(x) if x.name == "Stream"));
    assert!(matches!(items[2], DeclItem::Def(x) if x.name == "pred"));
    assert_eq!(items[2].attributes().attrs, vec!["transparent".to_string()]);
    assert!(items[0].attributes().attrs.is_empty());
}

#[test]
fn program_main_and_forget() {
    let mut d = module();
    let p0 = polarity::lookup::Prg { decls: module() };
    assert!(p0.find_main().is_none());
    d.insert("main".to_string(), Decl::Let(main_let("main", telescope(&[]))));
    let p = polarity::lookup::Prg { decls: d };
    let body = p.find_main().unwrap();
    assert!(matches!(body, Exp::Variable(ref v) if v.idx == Idx { fst: 0, snd: 0 }));
    let f = p.forget_tst();
    match f.decls.def("pred", None) {
        Ok(def) => match &def.body.cases[0].body {
            Some(b) => assert!(matches!(**b, Exp::Variable(ref v) if v.inferred_type.is_none())),
            None => panic!("expected a body"),
        },
        Err(e) => panic!("unexpected: {:?}", e),
    }
    assert_eq!(f.decls.xtors_for_type("Nat"), vec!["Z".to_string()]);
    let with_params = polarity::lookup::Prg {
        decls: {
            let mut d2 = Decls::empty();
            d2.insert("main".to_string(), Decl::Let(main_let("main", telescope(&["a"]))));
            d2
        },
    };
    assert!(with_params.find_main().is_none());
}
