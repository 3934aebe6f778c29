use polarity::de_bruijn::{Idx, LevelCtx, Lvl};
use polarity::equiv::alpha_eq;
use polarity::exp::{
    Anno, Args, Call, Case, DotCall, Exp, Hole, Label, LocalComatch, Match, TelescopeInst, TypCtor,
    TypeUniv, Variable,
};
use polarity::unify::{unify, Dec, Eqn, UnifyError, Unificator};

fn var(fst: usize, snd: usize) -> Exp {
    Exp::Variable(Variable { span: None, idx: Idx { fst, snd }, name: "x".to_string(), inferred_type: None })
}

fn typ_ctor(name: &str, args: Vec<Exp>) -> Exp {
    Exp::TypCtor(TypCtor { span: None, name: name.to_string(), args: Args { args } })
}

fn call(name: &str, args: Vec<Exp>) -> Exp {
    Exp::Call(Call { span: None, name: name.to_string(), args: Args { args }, inferred_type: None })
}

fn dot_call(exp: Exp, name: &str) -> Exp {
    Exp::DotCall(DotCall {
        span: None,
        exp: Box::new(exp),
        name: name.to_string(),
        args: Args { args: vec![] },
        inferred_type: None,
    })
}

fn comatch(id: usize) -> Exp {
    Exp::LocalComatch(LocalComatch {
        span: None,
        name: Label { id, user_name: None },
        is_lambda_sugar: false,
        body: Match {
            span: None,
            cases: vec![Case {
                span: None,
                name: "ap".to_string(),
                params: TelescopeInst { params: vec![] },
                body: Some(Box::new(Exp::TypeUniv(TypeUniv { span: None }))),
            }],
            omit_absurd: false,
        },
        inferred_type: None,
    })
}

fn eqn(lhs: Exp, rhs: Exp) -> Eqn {
    Eqn { lhs, rhs }
}

fn solved(r: Result<Dec<Unificator>, UnifyError>) -> Unificator {
    match r {
        Ok(Dec::Yes(u)) => u,
        Ok(Dec::No) => panic!("not unifiable"),
        Err(e) => panic!("error: {:?}", e),
    }
}

#[test]
fn unificator_empty_has_no_assignment() {
    let u = Unificator::empty();
    assert_eq!(u.len(), 0);
    assert!(u.get_subst(&LevelCtx::empty(), Lvl { fst: 0, snd: 0 }).is_none());
}

#[test]
fn unify_without_equations() {
    let u = solved(unify(LevelCtx::from_sizes(vec![1]), vec![]));
    assert_eq!(u.len(), 0);
}

#[test]
fn unify_alpha_equivalent_sides() {
    let u = solved(unify(LevelCtx::from_sizes(vec![1]), vec![eqn(var(0, 0), var(0, 0))]));
    assert_eq!(u.len(), 0);
}

#[test]
fn unify_assigns_variable() {
    // Context of one telescope with two variables; index (0,0) is level (0,1).
    let ctx = LevelCtx::from_sizes(vec![2]);
    let u = solved(unify(ctx, vec![eqn(var(0, 0), typ_ctor("Nat", vec![]))]));
    assert_eq!(u.len(), 1);
    let e = u.get_subst(&LevelCtx::empty(), Lvl { fst: 0, snd: 1 }).unwrap();
    assert!(alpha_eq(&e, &typ_ctor("Nat", vec![])));
    assert!(u.get_subst(&LevelCtx::empty(), Lvl { fst: 0, snd: 0 }).is_none());
}

#[test]
fn unify_assigns_variable_on_the_right() {
    let ctx = LevelCtx::from_sizes(vec![1]);
    let u = solved(unify(ctx, vec![eqn(typ_ctor("Bool", vec![]), var(0, 0))]));
    let e = u.get_subst(&LevelCtx::empty(), Lvl { fst: 0, snd: 0 }).unwrap();
    assert!(alpha_eq(&e, &typ_ctor("Bool", vec![])));
}

#[test]
fn unify_decomposes_type_constructors() {
    let ctx = LevelCtx::from_sizes(vec![2]);
    let lhs = typ_ctor("Pair", vec![var(0, 1), typ_ctor("Nat", vec![])]);
    let rhs = typ_ctor("Pair", vec![typ_ctor("Bool", vec![]), var(0, 0)]);
    let u = solved(unify(ctx, vec![eqn(lhs, rhs)]));
    assert_eq!(u.len(), 2);
    assert!(alpha_eq(&u.get_subst(&LevelCtx::empty(), Lvl { fst: 0, snd: 0 }).unwrap(), &typ_ctor("Bool", vec![])));
    assert!(alpha_eq(&u.get_subst(&LevelCtx::empty(), Lvl { fst: 0, snd: 1 }).unwrap(), &typ_ctor("Nat", vec![])));
}

#[test]
fn unify_applies_earlier_assignments() {
    // x := S(y), then y := Z: the assignment of x is updated to S(Z).
    let ctx = LevelCtx::from_sizes(vec![2]);
    // x is index (0,1) = level (0,0); y is index (0,0) = level (0,1).
    let eqns = vec![eqn(var(0, 0), call("Z", vec![])), eqn(var(0, 1), call("S", vec![var(0, 0)]))];
    let u = solved(unify(ctx, eqns));
    assert_eq!(u.len(), 2);
    let x = u.get_subst(&LevelCtx::empty(), Lvl { fst: 0, snd: 0 }).unwrap();
    assert!(alpha_eq(&x, &call("S", vec![call("Z", vec![])])));
    let y = u.get_subst(&LevelCtx::empty(), Lvl { fst: 0, snd: 1 }).unwrap();
    assert!(alpha_eq(&y, &call("Z", vec![])));
}

#[test]
fn unify_distinct_type_constructors_is_no() {
    let r = unify(LevelCtx::from_sizes(vec![]), vec![eqn(typ_ctor("Nat", vec![]), typ_ctor("Bool", vec![]))]);
    assert!(matches!(r, Ok(Dec::No)));
}

#[test]
fn unify_distinct_constructors_is_no() {
    let r = unify(LevelCtx::from_sizes(vec![1]), vec![eqn(call("Z", vec![]), call("S", vec![var(0, 0)]))]);
    assert!(matches!(r, Ok(Dec::No)));
}

#[test]
fn unify_occurs_check() {
    let r = unify(LevelCtx::from_sizes(vec![1]), vec![eqn(var(0, 0), call("S", vec![var(0, 0)]))]);
    match r {
        Err(UnifyError::OccursCheckFailed { idx, exp }) => {
            assert_eq!(idx, Idx { fst: 0, snd: 0 });
            assert!(alpha_eq(&exp, &call("S", vec![var(0, 0)])));
        }
        other => panic!("unexpected result: {:?}", other),
    }
}

#[test]
fn unify_annotation_is_unsupported() {
    let anno = Exp::Anno(Anno {
        span: None,
        exp: Box::new(call("Z", vec![])),
        typ: Box::new(typ_ctor("Nat", vec![])),
        normalized_type: None,
    });
    let r = unify(LevelCtx::from_sizes(vec![]), vec![eqn(anno, call("Z", vec![]))]);
    assert!(matches!(r, Err(UnifyError::UnsupportedAnnotation { .. })));
}

#[test]
fn unify_distinct_comatches_cannot_be_decided() {
    let r = unify(LevelCtx::from_sizes(vec![]), vec![eqn(comatch(1), comatch(2))]);
    match r {
        Err(UnifyError::CannotDecide { lhs, rhs }) => {
            assert!(alpha_eq(&lhs, &comatch(1)));
            assert!(alpha_eq(&rhs, &comatch(2)));
        }
        other => panic!("unexpected result: {:?}", other),
    }
}

#[test]
fn unify_equal_comatches_holds() {
    let u = solved(unify(LevelCtx::from_sizes(vec![]), vec![eqn(comatch(1), comatch(1))]));
    assert_eq!(u.len(), 0);
}

#[test]
fn unify_dot_calls() {
    let ctx = LevelCtx::from_sizes(vec![1]);
    let same = unify(ctx.clone(), vec![eqn(dot_call(var(0, 0), "pred"), dot_call(call("Z", vec![]), "pred"))]);
    let u = solved(same);
    assert!(alpha_eq(&u.get_subst(&LevelCtx::empty(), Lvl { fst: 0, snd: 0 }).unwrap(), &call("Z", vec![])));
    let different = unify(ctx, vec![eqn(dot_call(var(0, 0), "pred"), dot_call(var(0, 0), "succ"))]);
    assert!(matches!(different, Err(UnifyError::CannotDecide { .. })));
}

#[test]
fn unify_type_universe() {
    let u = solved(unify(
        LevelCtx::from_sizes(vec![]),
        vec![eqn(Exp::TypeUniv(TypeUniv { span: None }), Exp::TypeUniv(TypeUniv { span: None }))],
    ));
    assert_eq!(u.len(), 0);
}

#[test]
fn unify_processes_last_equation_first() {
    // The last equation fails first, before the first one would be found not unifiable.
    let eqns = vec![
        eqn(typ_ctor("Nat", vec![]), typ_ctor("Bool", vec![])),
        eqn(var(0, 0), call("S", vec![var(0, 0)])),
    ];
    let r = unify(LevelCtx::from_sizes(vec![1]), eqns);
    assert!(matches!(r, Err(UnifyError::OccursCheckFailed { .. })));
}

#[test]
fn equations_clone() {
    let e = eqn(var(0, 0), call("Z", vec![]));
    let c = e.clone();
    assert!(alpha_eq(&c.lhs, &e.lhs));
    assert!(alpha_eq(&c.rhs, &e.rhs));
}

#[test]
fn unify_error_constructors() {
    let e = UnifyError::occurs_check_failed(Idx { fst: 0, snd: 1 }, Exp::TypeUniv(TypeUniv { span: None }));
    assert!(matches!(e, UnifyError::OccursCheckFailed { idx: Idx { fst: 0, snd: 1 }, exp: Exp::TypeUniv(_) }));
    let e = UnifyError::unsupported_annotation(Exp::TypeUniv(TypeUniv { span: None }));
    assert!(matches!(e, UnifyError::UnsupportedAnnotation { exp: Exp::TypeUniv(_) }));
    let e = UnifyError::cannot_decide(Exp::TypeUniv(TypeUniv { span: None }), Exp::Hole(Hole { span: None, inferred_type: None, inferred_ctx: None }));
    assert!(matches!(e, UnifyError::CannotDecide { lhs: Exp::TypeUniv(_), rhs: Exp::Hole(_) }));
}

#[test]
fn empty_unifier_changes_nothing() {
    let u = Unificator::empty();
    let mut ctx = LevelCtx::from_sizes(vec![2]);
    assert!(u.get_subst(&ctx, Lvl { fst: 0, snd: 1 }).is_none());
    let e = call("f", vec![var(0, 0), var(0, 1)]);
    let r = e.subst(&mut ctx, &u.as_subst());
    assert!(alpha_eq(&r, &e));
}
