use polarity::de_bruijn::Idx;
use polarity::equiv::alpha_eq;
use polarity::decl::{Decl, Dtor, Let, Param, SelfParam, Telescope};
use polarity::decls::Attribute;
use polarity::exp::{Args, Call, Case, Exp, Label, LocalComatch, Match, ParamInst, TelescopeInst, TypCtor, TypeUniv, Variable};
use polarity::rename::{rename_exp, Rename};
use polarity::renaming::{Ctx, VarBind};

fn var(fst: usize, snd: usize, name: &str) -> Exp {
    Exp::Variable(Variable { span: None, idx: Idx { fst, snd }, name: name.to_string(), inferred_type: None })
}

fn param(name: &str) -> ParamInst {
    ParamInst { span: None, info: None, name: name.to_string(), typ: None }
}

fn lambda(id: usize, params: Vec<&str>, body: Exp) -> Exp {
    Exp::LocalComatch(LocalComatch {
        span: None,
        name: Label { id, user_name: None },
        is_lambda_sugar: true,
        body: Match {
            span: None,
            cases: vec![Case {
                span: None,
                name: "ap".to_string(),
                params: TelescopeInst { params: params.into_iter().map(param).collect() },
                body: Some(Box::new(body)),
            }],
            omit_absurd: false,
        },
        inferred_type: None,
    })
}

fn case_of(e: &Exp) -> &Case {
    match e {
        Exp::LocalComatch(m) => &m.body.cases[0],
        _ => panic!("expected a comatch"),
    }
}

fn var_name(e: &Exp) -> String {
    match e {
        Exp::Variable(v) => v.name.clone(),
        _ => panic!("expected a variable"),
    }
}

#[test]
fn rename_keeps_unbound_names_and_names_variables() {
    let mut e = lambda(1, vec!["x"], var(0, 0, "_"));
    e.rename();
    let c = case_of(&e);
    assert_eq!(c.params.params[0].name, "x");
    assert_eq!(var_name(c.body.as_ref().unwrap()), "x");
}

#[test]
fn rename_shadowed_binder() {
    // A function of `x` returning a function of `x` that uses both.
    let inner_body = Exp::Call(Call {
        span: None,
        name: "f".to_string(),
        args: Args { args: vec![var(1, 0, "x"), var(0, 0, "x")] },
        inferred_type: None,
    });
    let original = lambda(1, vec!["x"], lambda(2, vec!["x"], inner_body));
    let mut e = original.clone();
    e.rename();
    let outer = case_of(&e);
    assert_eq!(outer.params.params[0].name, "x");
    let inner = case_of(outer.body.as_ref().unwrap());
    assert_eq!(inner.params.params[0].name, "x0");
    match inner.body.as_deref() {
        Some(Exp::Call(c)) => {
            assert_eq!(var_name(&c.args.args[0]), "x");
            assert_eq!(var_name(&c.args.args[1]), "x0");
        }
        _ => panic!("expected a call"),
    }
    assert!(alpha_eq(&e, &original));
}

#[test]
fn rename_within_telescope() {
    // Two parameters with the same name in one telescope.
    let mut e = lambda(1, vec!["a", "a"], var(0, 1, "?"));
    e.rename();
    let c = case_of(&e);
    assert_eq!(c.params.params[0].name, "a");
    assert_eq!(c.params.params[1].name, "a0");
    assert_eq!(var_name(c.body.as_ref().unwrap()), "a");
}

#[test]
fn rename_in_context() {
    let mut ctx = Ctx { binders: vec![vec![VarBind::Var { span: None, id: "y".to_string() }]] };
    let e = lambda(1, vec!["y"], var(1, 0, "?"));
    let r = rename_exp(&e, &mut ctx);
    let c = case_of(&r);
    assert_eq!(c.params.params[0].name, "y0");
    assert_eq!(var_name(c.body.as_ref().unwrap()), "y");
    assert_eq!(ctx.binders.len(), 1);
    let mut v = var(0, 0, "?");
    v.rename_in_ctx(&mut ctx);
    assert_eq!(var_name(&v), "y");
}

fn univ() -> Exp {
    Exp::TypeUniv(TypeUniv { span: None })
}

fn tel(names: &[&str]) -> Telescope {
    Telescope { params: names.iter().map(|n| Param { name: n.to_string(), typ: Box::new(univ()) }).collect() }
}

#[test]
fn rename_let_parameters_and_body() {
    // let f(x: Type, x: Type): x { x }, the type naming the first and the body the second.
    let mut d = Decl::Let(Let {
        span: None,
        doc: None,
        name: "f".to_string(),
        attr: Attribute::default(),
        params: tel(&["x", "x"]),
        typ: Box::new(var(0, 1, "_")),
        body: Box::new(var(0, 0, "_")),
    });
    d.rename();
    match &d {
        Decl::Let(l) => {
            assert_eq!(l.name, "f");
            assert_eq!(l.params.params[0].name, "x");
            assert_eq!(l.params.params[1].name, "x0");
            assert_eq!(var_name(&l.typ), "x");
            assert_eq!(var_name(&l.body), "x0");
        }
        _ => panic!("expected a let"),
    }
}

#[test]
fn rename_destructor_self_parameter() {
    // A destructor with a parameter `x` and an unnamed self parameter; its
    // return type mentions the self parameter and the parameter.
    let ret = Exp::Call(Call {
        span: None,
        name: "Eq".to_string(),
        args: Args { args: vec![var(0, 0, "_"), var(1, 0, "_")] },
        inferred_type: None,
    });
    let mut d = Decl::Dtor(Dtor {
        span: None,
        doc: None,
        name: "d".to_string(),
        params: tel(&["x"]),
        self_param: SelfParam {
            info: None,
            name: None,
            typ: TypCtor { span: None, name: "T".to_string(), args: Args { args: vec![var(0, 0, "_")] } },
        },
        ret_typ: Box::new(ret),
    });
    let mut ctx = Ctx::empty();
    d.rename_in_ctx(&mut ctx);
    match &d {
        Decl::Dtor(x) => {
            assert_eq!(x.params.params[0].name, "x");
            assert_eq!(x.self_param.name.as_deref(), Some("x0"));
            assert_eq!(var_name(&x.self_param.typ.args.args[0]), "x");
            match x.ret_typ.as_ref() {
                Exp::Call(c) => {
                    assert_eq!(var_name(&c.args.args[0]), "x0");
                    assert_eq!(var_name(&c.args.args[1]), "x");
                }
                _ => panic!("expected a call"),
            }
        }
        _ => panic!("expected a destructor"),
    }
}
