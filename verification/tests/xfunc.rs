use polarity::de_bruijn::Idx;
use polarity::decl::{Codata, Codef, Ctor, Data, Decl, Def, Dtor, Param, SelfParam, Telescope};
use polarity::decls::Attribute;
use polarity::exp::{Args, Call, Case, Exp, Match, ParamInst, TelescopeInst, TypCtor, TypeUniv, Variable};
use polarity::xfunc::{as_codata, as_data, as_matrix, Repr, XfuncError};

fn uri() -> url::Url {
    url::Url::parse("inmemory:///scratch.pol").unwrap()
}

fn tc(name: &str) -> TypCtor {
    TypCtor { span: None, name: name.to_string(), args: Args { args: vec![] } }
}

fn call(name: &str) -> Exp {
    Exp::Call(Call { span: None, name: name.to_string(), args: Args { args: vec![] }, inferred_type: None })
}

fn tel(names: &[&str]) -> Telescope {
    Telescope {
        params: names
            .iter()
            .map(|n| Param { name: n.to_string(), typ: Box::new(Exp::TypeUniv(TypeUniv { span: None })) })
            .collect(),
    }
}

fn inst(names: &[&str]) -> TelescopeInst {
    TelescopeInst {
        params: names.iter().map(|n| ParamInst { span: None, info: None, name: n.to_string(), typ: None }).collect(),
    }
}

fn case(name: &str, params: &[&str], body: Exp) -> Case {
    Case { span: None, name: name.to_string(), params: inst(params), body: Some(Box::new(body)) }
}

fn ctor(name: &str, params: &[&str], typ: &str) -> Decl {
    Decl::Ctor(Ctor { span: None, doc: None, name: name.to_string(), params: tel(params), typ: tc(typ) })
}

/// data Bool { T, F }, def Bool.not: Bool { T => F, F => T }
fn bool_module() -> Vec<Decl> {
    vec![
        Decl::Data(Data {
            span: None,
            doc: None,
            name: "Bool".to_string(),
            attr: Attribute { attrs: vec![] },
            typ: tel(&[]),
            ctors: vec!["T".to_string(), "F".to_string()],
        }),
        ctor("T", &[], "Bool"),
        ctor("F", &[], "Bool"),
        Decl::Def(Def {
            span: None,
            doc: None,
            name: "not".to_string(),
            attr: Attribute { attrs: vec![] },
            params: tel(&[]),
            self_param: SelfParam { info: None, name: None, typ: tc("Bool") },
            ret_typ: Box::new(Exp::TypCtor(tc("Bool"))),
            body: Match { span: None, cases: vec![case("T", &[], call("F")), case("F", &[], call("T"))], omit_absurd: false },
        }),
    ]
}

fn call_name(e: &Option<Box<Exp>>) -> String {
    match e.as_deref() {
        Some(Exp::Call(c)) => c.name.clone(),
        _ => panic!("expected a call"),
    }
}

#[test]
fn matrix_of_a_data_type() {
    let p = as_matrix(&bool_module(), uri()).unwrap();
    assert_eq!(p.map.len(), 1);
    let x = &p.map[0].1;
    assert_eq!(x.repr, Repr::Data);
    assert_eq!(x.ctors.len(), 2);
    assert_eq!(x.dtors.len(), 1);
    assert_eq!(x.dtors[0].1.name, "not");
    assert_eq!(x.exprs.len(), 2);
    assert_eq!(x.exprs[0].0.ctor, "T");
    assert_eq!(x.exprs[0].0.dtor, "not");
    assert_eq!(call_name(&x.exprs[0].1), "F");
}

#[test]
fn data_type_back_from_the_matrix() {
    let p = as_matrix(&bool_module(), uri()).unwrap();
    let (data, ctors, defs) = as_data(&p, "Bool").unwrap();
    assert_eq!(data.name, "Bool");
    assert_eq!(data.ctors, vec!["T".to_string(), "F".to_string()]);
    assert_eq!(ctors.len(), 2);
    assert_eq!(defs.len(), 1);
    assert_eq!(defs[0].name, "not");
    let cases = &defs[0].body.cases;
    assert_eq!(cases.len(), 2);
    assert_eq!(cases[0].name, "T");
    assert_eq!(call_name(&cases[0].body), "F");
    assert_eq!(cases[1].name, "F");
    assert_eq!(call_name(&cases[1].body), "T");
}

#[test]
fn data_type_as_codata() {
    let p = as_matrix(&bool_module(), uri()).unwrap();
    let (codata, dtors, codefs) = as_codata(&p, "Bool").unwrap();
    assert_eq!(codata.dtors, vec!["not".to_string()]);
    assert_eq!(dtors.len(), 1);
    assert_eq!(codefs.len(), 2);
    assert_eq!(codefs[0].name, "T");
    assert_eq!(codefs[0].body.cases.len(), 1);
    assert_eq!(codefs[0].body.cases[0].name, "not");
    assert_eq!(call_name(&codefs[0].body.cases[0].body), "F");
    assert_eq!(codefs[1].name, "F");
}

#[test]
fn codefinition_bodies_swap_their_telescopes() {
    // codata Fun { ap(y: Type): Type }, codef Const(x: Type): Fun { ap(y) => x }
    let module = vec![
        Decl::Codata(Codata {
            span: None,
            doc: None,
            name: "Fun".to_string(),
            attr: Attribute { attrs: vec![] },
            typ: tel(&[]),
            dtors: vec!["ap".to_string()],
        }),
        Decl::Dtor(Dtor {
            span: None,
            doc: None,
            name: "ap".to_string(),
            params: tel(&["y"]),
            self_param: SelfParam { info: None, name: None, typ: tc("Fun") },
            ret_typ: Box::new(Exp::TypeUniv(TypeUniv { span: None })),
        }),
        Decl::Codef(Codef {
            span: None,
            doc: None,
            name: "Const".to_string(),
            attr: Attribute { attrs: vec![] },
            params: tel(&["x"]),
            typ: tc("Fun"),
            body: Match {
                span: None,
                cases: vec![case(
                    "ap",
                    &["y"],
                    Exp::Variable(Variable { span: None, idx: Idx { fst: 1, snd: 0 }, name: "x".to_string(), inferred_type: None }),
                )],
                omit_absurd: false,
            },
        }),
    ];
    let p = as_matrix(&module, uri()).unwrap();
    let x = &p.map[0].1;
    assert_eq!(x.repr, Repr::Codata);
    match x.exprs[0].1.as_deref() {
        Some(Exp::Variable(v)) => assert_eq!((v.idx.fst, v.idx.snd), (0, 0)),
        _ => panic!("expected a variable"),
    }
    let (_, _, codefs) = as_codata(&p, "Fun").unwrap();
    assert_eq!(codefs[0].name, "Const");
    match codefs[0].body.cases[0].body.as_deref() {
        Some(Exp::Variable(v)) => assert_eq!((v.idx.fst, v.idx.snd), (1, 0)),
        _ => panic!("expected a variable"),
    }
    let (data, _, defs) = as_data(&p, "Fun").unwrap();
    assert_eq!(data.ctors, vec!["Const".to_string()]);
    assert_eq!(defs[0].name, "ap");
    assert_eq!(defs[0].body.cases[0].name, "Const");
}

#[test]
fn unknown_type_in_the_matrix() {
    let p = as_matrix(&bool_module(), uri()).unwrap();
    match as_data(&p, "Nat") {
        Err(XfuncError::Impossible { message, .. }) => assert_eq!(message, "Could not resolve Nat"),
        _ => panic!("expected an error"),
    }
}
