use polarity::de_bruijn::{Idx, LevelCtx, Lvl};
use polarity::exp::{Case, Exp, Label, LocalComatch, Match, ParamInst, TelescopeInst, TypeUniv, Variable};
use polarity::free_vars::{free_vars_closure, FreeVars, TypeCtx, TypedVar, FV};
use polarity::lifting::FreeVar;

fn var(fst: usize, snd: usize, name: &str) -> Exp {
    Exp::Variable(Variable { span: None, idx: Idx { fst, snd }, name: name.to_string(), inferred_type: None })
}

fn univ() -> Exp {
    Exp::TypeUniv(TypeUniv { span: None })
}

/// One telescope `(a: Type, x: a)`.
fn ctx() -> TypeCtx {
    TypeCtx {
        bound: vec![vec![
            TypedVar { name: "a".to_string(), typ: univ() },
            TypedVar { name: "x".to_string(), typ: var(0, 1, "a") },
        ]],
    }
}

fn lambda(body: Exp) -> Exp {
    Exp::LocalComatch(LocalComatch {
        span: None,
        name: Label { id: 1, user_name: None },
        is_lambda_sugar: true,
        body: Match {
            span: None,
            cases: vec![Case {
                span: None,
                name: "ap".to_string(),
                params: TelescopeInst {
                    params: vec![ParamInst { span: None, info: None, name: "y".to_string(), typ: None }],
                },
                body: Some(Box::new(body)),
            }],
            omit_absurd: false,
        },
        inferred_type: None,
    })
}

fn lvl(f: &FreeVar) -> (usize, usize) {
    (f.lvl.fst, f.lvl.snd)
}

#[test]
fn closure_adds_the_variables_of_types() {
    let c = ctx();
    let r = free_vars_closure(&var(0, 0, "x"), &c);
    assert_eq!(r.fvs().len(), 2);
    assert_eq!(r.fvs()[0].name, "x");
    assert_eq!(lvl(&r.fvs()[0]), (0, 1));
    match r.fvs()[0].typ.as_ref() {
        Exp::Variable(v) => assert_eq!((v.idx.fst, v.idx.snd), (0, 1)),
        _ => panic!("expected a variable"),
    }
    assert_eq!(r.fvs()[1].name, "a");
    assert_eq!(lvl(&r.fvs()[1]), (0, 0));
    assert!(matches!(r.fvs()[1].typ.as_ref(), Exp::TypeUniv(_)));
}

#[test]
fn closure_under_a_binder_shifts_types() {
    let c = ctx();
    // \y => x, where `y` is bound by the clause and not in the type context.
    let e = lambda(Exp::Variable(Variable {
        span: None,
        idx: Idx { fst: 1, snd: 0 },
        name: "x".to_string(),
        inferred_type: None,
    }));
    let r = free_vars_closure(&e, &c);
    assert_eq!(r.fvs().len(), 2);
    assert_eq!(lvl(&r.fvs()[0]), (0, 1));
    assert_eq!(r.fvs()[0].ctx.bound, vec![2, 1]);
    match r.fvs()[0].typ.as_ref() {
        Exp::Variable(v) => assert_eq!((v.idx.fst, v.idx.snd), (1, 1)),
        _ => panic!("expected a variable"),
    }
    assert_eq!(lvl(&r.fvs()[1]), (0, 0));
}

#[test]
fn variables_outside_the_type_context_are_not_collected() {
    let c = ctx();
    let e = lambda(var(0, 0, "y"));
    let r = free_vars_closure(&e, &c);
    assert_eq!(r.fvs().len(), 0);
    let closed = free_vars_closure(&univ(), &c);
    assert_eq!(closed.fvs().len(), 0);
}

#[test]
fn method_form_takes_a_level_context() {
    let c = ctx();
    let lc = LevelCtx::from_sizes(vec![2, 3]);
    let r = var(1, 1, "a").free_vars_closure(lc, &c);
    assert_eq!(r.fvs().len(), 1);
    assert_eq!(r.fvs()[0].name, "a");
    assert_eq!(lvl(&r.fvs()[0]), (0, 0));
}

fn fv(name: &str, fst: usize, snd: usize) -> FreeVar {
    FreeVar { name: name.to_string(), lvl: Lvl { fst, snd }, typ: Box::new(univ()), ctx: LevelCtx::empty() }
}

#[test]
fn insert_and_union_keep_the_first_variable_of_a_level() {
    let mut a = FreeVars::default();
    assert!(a.insert(fv("p", 0, 0)));
    assert!(!a.insert(fv("q", 0, 0)));
    assert_eq!(a.fvs().len(), 1);
    let mut b = FreeVars::new();
    b.insert(fv("r", 0, 0));
    b.insert(fv("s", 0, 1));
    let u = a.union(b);
    assert_eq!(u.fvs().len(), 2);
    assert_eq!(u.fvs()[0].name, "p");
    assert_eq!(u.fvs()[1].name, "s");
}

#[test]
fn union_with_the_empty_set_and_in_both_orders() {
    let mut a = FreeVars::new();
    a.insert(fv("p", 0, 0));
    let mut b = FreeVars::new();
    b.insert(fv("r", 0, 0));
    b.insert(fv("s", 1, 0));
    let u = a.union(FreeVars::new());
    assert_eq!(u.fvs().len(), 1);
    assert_eq!(u.fvs()[0].name, "p");
    let mut b2 = FreeVars::new();
    b2.insert(fv("r", 0, 0));
    b2.insert(fv("s", 1, 0));
    let v = FreeVars::new().union(b2);
    assert_eq!(v.fvs().len(), 2);
    let mut a2 = FreeVars::new();
    a2.insert(fv("p", 0, 0));
    let ab = u.union(b);
    let ba = v.union(a2);
    let mut l1: Vec<(usize, usize)> = ab.fvs().iter().map(lvl).collect();
    let mut l2: Vec<(usize, usize)> = ba.fvs().iter().map(lvl).collect();
    l1.sort();
    l2.sort();
    assert_eq!(l1, l2);
    assert_eq!(ab.fvs()[0].name, "p");
    assert_eq!(ba.fvs()[0].name, "r");
}
