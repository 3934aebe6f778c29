use polarity::de_bruijn::{Idx, LevelCtx, Lvl};
use polarity::equiv::alpha_eq;
use polarity::exp::{
    Anno, Args, Call, Case, DotCall, Exp, Hole, Label, LocalComatch, LocalMatch, Match, ParamInst,
    TelescopeInst, TypCtor, TypeUniv, Variable,
};
use polarity::forget::ForgetTST;
use polarity::free_vars::{TypeCtx, TypedVar};
use polarity::occurs::{occurs_in, Occurs};
use polarity::shift::ShiftRange;
use polarity::subst::Substitution;

fn var(fst: usize, snd: usize) -> Exp {
    Exp::Variable(Variable { span: None, idx: Idx { fst, snd }, name: "x".to_string(), inferred_type: None })
}

fn named_var(fst: usize, snd: usize, name: &str) -> Exp {
    Exp::Variable(Variable { span: None, idx: Idx { fst, snd }, name: name.to_string(), inferred_type: None })
}

fn typ_ctor(name: &str, args: Vec<Exp>) -> Exp {
    Exp::TypCtor(TypCtor { span: None, name: name.to_string(), args: Args { args } })
}

fn call(name: &str, args: Vec<Exp>) -> Exp {
    Exp::Call(Call { span: None, name: name.to_string(), args: Args { args }, inferred_type: None })
}

fn dot_call(exp: Exp, name: &str, args: Vec<Exp>) -> Exp {
    Exp::DotCall(DotCall {
        span: None,
        exp: Box::new(exp),
        name: name.to_string(),
        args: Args { args },
        inferred_type: None,
    })
}

fn type_univ() -> Exp {
    Exp::TypeUniv(TypeUniv { span: None })
}

fn param(name: &str) -> ParamInst {
    ParamInst { span: None, info: None, name: name.to_string(), typ: None }
}

fn case(name: &str, n_params: usize, body: Option<Exp>) -> Case {
    let params = (0..n_params).map(|i| param(&format!("p{}", i))).collect();
    Case { span: None, name: name.to_string(), params: TelescopeInst { params }, body: body.map(Box::new) }
}

fn comatch(id: usize, cases: Vec<Case>) -> Exp {
    Exp::LocalComatch(LocalComatch {
        span: None,
        name: Label { id, user_name: None },
        is_lambda_sugar: false,
        body: Match { span: None, cases, omit_absurd: false },
        inferred_type: None,
    })
}

fn local_match(id: usize, on_exp: Exp, cases: Vec<Case>) -> Exp {
    Exp::LocalMatch(LocalMatch {
        span: None,
        name: Label { id, user_name: None },
        on_exp: Box::new(on_exp),
        motive: None,
        ret_typ: None,
        body: Match { span: None, cases, omit_absurd: false },
        inferred_type: None,
    })
}

fn idx_of(e: &Exp) -> Idx {
    match e {
        Exp::Variable(v) => v.idx,
        _ => panic!("not a variable: {:?}", e),
    }
}

// ----- alpha-equivalence -----

#[test]
fn alpha_eq_ignores_variable_names() {
    assert!(alpha_eq(&named_var(0, 1, "a"), &named_var(0, 1, "b")));
    assert!(!alpha_eq(&named_var(0, 1, "a"), &named_var(0, 0, "a")));
}

#[test]
fn alpha_eq_compares_names_and_arguments() {
    let a = typ_ctor("List", vec![typ_ctor("Nat", vec![])]);
    let b = typ_ctor("List", vec![typ_ctor("Nat", vec![])]);
    let c = typ_ctor("List", vec![typ_ctor("Bool", vec![])]);
    let d = typ_ctor("Vec", vec![typ_ctor("Nat", vec![])]);
    assert!(alpha_eq(&a, &b));
    assert!(!alpha_eq(&a, &c));
    assert!(!alpha_eq(&a, &d));
    assert!(!alpha_eq(&typ_ctor("T", vec![]), &call("T", vec![])));
    assert!(!alpha_eq(&call("f", vec![var(0, 0)]), &call("f", vec![var(0, 0), var(0, 0)])));
}

#[test]
fn alpha_eq_ignores_annotations() {
    let plain = var(0, 0);
    let annotated = Exp::Variable(Variable {
        span: None,
        idx: Idx { fst: 0, snd: 0 },
        name: "y".to_string(),
        inferred_type: Some(Box::new(type_univ())),
    });
    assert!(alpha_eq(&plain, &annotated));
}

#[test]
fn alpha_eq_distinguishes_match_labels() {
    let a = comatch(1, vec![case("ap", 1, Some(var(0, 0)))]);
    let b = comatch(1, vec![case("ap", 1, Some(var(0, 0)))]);
    let c = comatch(2, vec![case("ap", 1, Some(var(0, 0)))]);
    assert!(alpha_eq(&a, &b));
    assert!(!alpha_eq(&a, &c));
}

#[test]
fn alpha_eq_compares_hole_spans() {
    let h1 = Exp::Hole(Hole { span: Some(codespan::Span::new(0, 1)), inferred_type: None, inferred_ctx: None });
    let h2 = Exp::Hole(Hole { span: Some(codespan::Span::new(0, 1)), inferred_type: None, inferred_ctx: None });
    let h3 = Exp::Hole(Hole { span: Some(codespan::Span::new(2, 3)), inferred_type: None, inferred_ctx: None });
    let h4 = Exp::Hole(Hole { span: None, inferred_type: None, inferred_ctx: None });
    assert!(alpha_eq(&h1, &h2));
    assert!(!alpha_eq(&h1, &h3));
    assert!(!alpha_eq(&h1, &h4));
}

// ----- shifting -----

#[test]
fn shift_moves_variables_in_range() {
    let e = call("f", vec![var(0, 0), var(2, 1)]);
    let shifted = e.shift((1, 0));
    match &shifted {
        Exp::Call(c) => {
            assert_eq!(idx_of(&c.args.args[0]), Idx { fst: 1, snd: 0 });
            assert_eq!(idx_of(&c.args.args[1]), Idx { fst: 3, snd: 1 });
        }
        _ => panic!("expected a call"),
    }
}

#[test]
fn shift_under_binder_skips_bound_variables() {
    // In the clause body, the telescope of the clause is innermost (fst 0):
    // those variables are bound and stay, free ones (fst >= 1) move.
    let e = comatch(7, vec![case("ap", 1, Some(call("g", vec![var(0, 0), var(1, 0)])))]);
    let shifted = e.shift((2, 0));
    match &shifted {
        Exp::LocalComatch(m) => match &m.body.cases[0].body {
            Some(b) => match &**b {
                Exp::Call(c) => {
                    assert_eq!(idx_of(&c.args.args[0]), Idx { fst: 0, snd: 0 });
                    assert_eq!(idx_of(&c.args.args[1]), Idx { fst: 3, snd: 0 });
                }
                _ => panic!("expected a call"),
            },
            None => panic!("expected a body"),
        },
        _ => panic!("expected a comatch"),
    }
}

#[test]
fn shift_in_range_respects_bounds() {
    let e = call("f", vec![var(0, 0), var(1, 0), var(2, 0)]);
    let shifted = e.shift_in_range(&ShiftRange::between(1, 2), (5, 0));
    match &shifted {
        Exp::Call(c) => {
            assert_eq!(idx_of(&c.args.args[0]), Idx { fst: 0, snd: 0 });
            assert_eq!(idx_of(&c.args.args[1]), Idx { fst: 6, snd: 0 });
            assert_eq!(idx_of(&c.args.args[2]), Idx { fst: 2, snd: 0 });
        }
        _ => panic!("expected a call"),
    }
}

#[test]
fn shift_range_contains() {
    assert!(ShiftRange::full().contains(0));
    assert!(ShiftRange::from(2).contains(2));
    assert!(!ShiftRange::from(2).contains(1));
    assert!(ShiftRange::between(1, 3).contains(2));
    assert!(!ShiftRange::between(1, 3).contains(3));
    let r = ShiftRange::between(1, 3).shift(2);
    assert!(r.contains(3) && r.contains(4) && !r.contains(5) && !r.contains(2));
}

#[test]
fn shift_there_and_back() {
    let e = dot_call(var(1, 2), "ap", vec![comatch(3, vec![case("c", 2, Some(var(2, 1)))])]);
    let back = e.shift((4, 0)).shift((-4, 0));
    assert!(alpha_eq(&e, &back));
}

#[test]
fn shift_by_zero_is_identity() {
    let e = dot_call(var(1, 2), "ap", vec![var(0, 0)]);
    assert!(alpha_eq(&e, &e.shift((0, 0))));
}

#[test]
fn idx_shift_in_range_second_component() {
    let i = Idx { fst: 1, snd: 2 };
    assert_eq!(i.shift_in_range(&ShiftRange::full(), (0, 3)), Idx { fst: 1, snd: 5 });
    assert_eq!(i.shift_in_range(&ShiftRange::from(2), (0, 3)), Idx { fst: 1, snd: 2 });
}

// ----- occurrence check -----

#[test]
fn occurs_finds_variable_by_level() {
    // Context: telescopes of sizes [2, 1]; index (0,0) is level (1,0); index (1,1) is level (0,0).
    let mut ctx = LevelCtx::from_sizes(vec![2, 1]);
    let e = call("f", vec![var(0, 0)]);
    assert!(e.occurs(&mut ctx, Lvl { fst: 1, snd: 0 }));
    assert!(!e.occurs(&mut ctx, Lvl { fst: 0, snd: 0 }));
    assert_eq!(ctx.bound, vec![2, 1]);
    let e2 = dot_call(var(1, 1), "d", vec![]);
    assert!(e2.occurs(&mut ctx, Lvl { fst: 0, snd: 0 }));
}

#[test]
fn occurs_inspects_clause_bodies_under_their_telescope() {
    let mut ctx = LevelCtx::from_sizes(vec![1]);
    // In the body, index (1,0) refers to the outer variable at level (0,0).
    let e = comatch(1, vec![case("ap", 2, Some(var(1, 0)))]);
    assert!(e.occurs(&mut ctx, Lvl { fst: 0, snd: 0 }));
    // Index (0,0) in the body is bound by the clause.
    let e2 = comatch(1, vec![case("ap", 2, Some(var(0, 0)))]);
    assert!(!e2.occurs(&mut ctx, Lvl { fst: 0, snd: 0 }));
    assert_eq!(ctx.bound, vec![1]);
    // Absurd clauses have no body.
    let e3 = comatch(1, vec![case("ap", 2, None)]);
    assert!(!e3.occurs(&mut ctx, Lvl { fst: 0, snd: 0 }));
}

#[test]
fn occurs_in_by_index() {
    let mut ctx = LevelCtx::from_sizes(vec![1, 1]);
    let e = local_match(4, var(0, 0), vec![case("C", 0, Some(type_univ()))]);
    assert!(occurs_in(&mut ctx, Idx { fst: 0, snd: 0 }, &e));
    assert!(!occurs_in(&mut ctx, Idx { fst: 1, snd: 0 }, &e));
}

#[test]
fn occurs_in_args_and_anno() {
    let mut ctx = LevelCtx::from_sizes(vec![3]);
    let args = Args { args: vec![type_univ(), var(0, 2)] };
    assert!(args.occurs(&mut ctx, Lvl { fst: 0, snd: 0 }));
    assert!(!args.occurs(&mut ctx, Lvl { fst: 0, snd: 1 }));
    let anno = Exp::Anno(Anno {
        span: None,
        exp: Box::new(type_univ()),
        typ: Box::new(var(0, 1)),
        normalized_type: None,
    });
    assert!(anno.occurs(&mut ctx, Lvl { fst: 0, snd: 1 }));
}

// ----- substitution -----

#[test]
fn subst_replaces_assigned_level() {
    let mut ctx = LevelCtx::from_sizes(vec![2]);
    // Index (0,1) is level (0,0).
    let e = call("f", vec![var(0, 1), var(0, 0)]);
    let s = Substitution::assign(Lvl { fst: 0, snd: 0 }, typ_ctor("Nat", vec![]));
    let r = e.subst(&mut ctx, &s);
    let expected = call("f", vec![typ_ctor("Nat", vec![]), var(0, 0)]);
    assert!(alpha_eq(&r, &expected));
    assert_eq!(ctx.bound, vec![2]);
}

#[test]
fn subst_shifts_under_binders() {
    let mut ctx = LevelCtx::from_sizes(vec![1]);
    // The body refers to the outer variable (level (0,0)) as index (1,0).
    let e = comatch(1, vec![case("ap", 1, Some(var(1, 0)))]);
    // Substitute a variable of the outer context: index (0,0).
    let s = Substitution::assign(Lvl { fst: 0, snd: 0 }, call("g", vec![var(0, 0)]));
    let r = e.subst(&mut ctx, &s);
    let expected = comatch(1, vec![case("ap", 1, Some(call("g", vec![var(1, 0)])))]);
    assert!(alpha_eq(&r, &expected));
}

#[test]
fn subst_get_subst_entries_first_wins() {
    let ctx = LevelCtx::from_sizes(vec![1]);
    let s = Substitution::Entries(vec![
        (Lvl { fst: 0, snd: 0 }, typ_ctor("A", vec![])),
        (Lvl { fst: 0, snd: 0 }, typ_ctor("B", vec![])),
    ]);
    let r = s.get_subst(&ctx, Lvl { fst: 0, snd: 0 }).unwrap();
    assert!(alpha_eq(&r, &typ_ctor("A", vec![])));
    assert!(s.get_subst(&ctx, Lvl { fst: 0, snd: 1 }).is_none());
}

#[test]
fn subst_swap_exchanges_telescopes() {
    let ctx = LevelCtx::from_sizes(vec![1, 2]);
    let s = Substitution::Swap { fst1: 0, fst2: 1 };
    // Level (0,0) becomes level (1,0) in the swapped context [2, 1]: index (0,0).
    let r = s.get_subst(&ctx, Lvl { fst: 0, snd: 0 }).unwrap();
    assert_eq!(idx_of(&r), Idx { fst: 0, snd: 0 });
    // Level (1,1) becomes level (0,1) in [2, 1]: index (1,0).
    let r2 = s.get_subst(&ctx, Lvl { fst: 1, snd: 1 }).unwrap();
    assert_eq!(idx_of(&r2), Idx { fst: 1, snd: 0 });
}

#[test]
fn subst_shift_moves_entries() {
    let s = Substitution::assign(Lvl { fst: 0, snd: 0 }, var(0, 0));
    match s.shift() {
        Substitution::Entries(m) => assert_eq!(idx_of(&m[0].1), Idx { fst: 1, snd: 0 }),
        _ => panic!("expected entries"),
    }
}

// ----- forgetting annotations -----

#[test]
fn forget_tst_drops_annotations() {
    let e = Exp::Call(Call {
        span: None,
        name: "f".to_string(),
        args: Args { args: vec![var(0, 0)] },
        inferred_type: Some(Box::new(type_univ())),
    });
    match e.forget_tst() {
        Exp::Call(c) => {
            assert!(c.inferred_type.is_none());
            assert_eq!(c.name, "f");
            assert_eq!(c.args.args.len(), 1);
        }
        _ => panic!("expected a call"),
    }
}

#[test]
fn forget_tst_keeps_structure() {
    let e = local_match(9, var(0, 0), vec![case("C", 1, Some(var(0, 0)))]);
    let f = e.forget_tst();
    assert!(alpha_eq(&e, &f));
    assert!(alpha_eq(&f, &f.forget_tst()));
}

#[test]
fn occurs_stops_at_the_first_occurrence() {
    // f(x, y) where `y` is not bound: the check finds `x` first and never reaches `y`.
    let mut ctx = LevelCtx::from_sizes(vec![1]);
    let e = Exp::Call(Call { span: None, name: "f".to_string(), args: Args { args: vec![var(0, 0), var(5, 0)] }, inferred_type: None });
    assert!(occurs_in(&mut ctx, Idx { fst: 0, snd: 0 }, &e));
    assert_eq!(ctx.bound, vec![1]);
}

#[test]
fn holes_do_not_contain_variables() {
    let mut ctx = LevelCtx::from_sizes(vec![1]);
    let e = Exp::Hole(Hole { span: None, inferred_type: None, inferred_ctx: None });
    assert!(!occurs_in(&mut ctx, Idx { fst: 0, snd: 0 }, &e));
}

#[test]
fn swap_with_ctx_twice_restores() {
    // Telescopes of sizes 1 and 2; a call of the variables at (0,0) and (1,1).
    let ctx = LevelCtx::from_sizes(vec![1, 2]);
    let e = Exp::Call(Call { span: None, name: "f".to_string(), args: Args { args: vec![var(1, 0), var(0, 0)] }, inferred_type: None });
    let mut c1 = LevelCtx::from_sizes(vec![1, 2]);
    let e1 = e.swap_with_ctx(&mut c1, 0, 1);
    let mut c2 = ctx.swap(0, 1);
    let e2 = e1.swap_with_ctx(&mut c2, 0, 1);
    assert!(alpha_eq(&e2, &e));
    assert!(!alpha_eq(&e1, &e));
    assert_eq!(c2.bound, vec![2, 1]);
}

#[test]
fn shift_up_and_back_with_two_ranges() {
    let e = Exp::Call(Call { span: None, name: "f".to_string(), args: Args { args: vec![var(0, 0), var(2, 1)] }, inferred_type: None });
    let up = e.shift_in_range(&ShiftRange::from(0), (3, 0));
    let back = up.shift_in_range(&ShiftRange::from(3), (-3, 0));
    assert!(alpha_eq(&back, &e));
}

#[test]
fn hole_context_is_copied_and_cleared() {
    let ctx = TypeCtx {
        bound: vec![vec![TypedVar { name: "a".to_string(), typ: Exp::TypeUniv(TypeUniv { span: None }) }]],
    };
    let h = Exp::Hole(Hole { span: None, inferred_type: None, inferred_ctx: Some(ctx) });
    match h.clone() {
        Exp::Hole(c) => {
            let c = c.inferred_ctx.unwrap();
            assert_eq!(c.bound.len(), 1);
            assert_eq!(c.bound[0][0].name, "a");
        }
        _ => panic!("expected a hole"),
    }
    match h.shift((1, 0)) {
        Exp::Hole(c) => assert!(c.inferred_ctx.is_none()),
        _ => panic!("expected a hole"),
    }
    match h.forget_tst() {
        Exp::Hole(c) => assert!(c.inferred_ctx.is_none()),
        _ => panic!("expected a hole"),
    }
}
