use polarity::decl::Telescope;
use polarity::convert::{type_hole, type_univ, Convert, TypeError};
use polarity::de_bruijn::{Idx, LevelCtx, Lvl, Var};
use polarity::decls::{Attribute, DeclKind, DeclMeta, DocComment};
use polarity::equiv::alpha_eq;
use polarity::erasure::ErasureError;
use polarity::exp::{Args, Call, Exp, Label, MetaVar, Named, ParamInst, TelescopeInst, TypCtor, Variable};
use polarity::lifting::{free_var_less, lifted_signature, sort_free_vars, FreeVar, FreeVarsMap};
use polarity::nf::{ForgetNF, Neu, Nf, NfCase, NfMatch};
use polarity::shift::ShiftRange;
use polarity::subst::Substitution;
use polarity::xfunc::{repr, Key, Prg, Repr, XData, XfuncError};

fn var(fst: usize, snd: usize) -> Exp {
    Exp::Variable(Variable { span: None, idx: Idx { fst, snd }, name: "x".to_string(), inferred_type: None })
}

fn idx_of(e: &Exp) -> Idx {
    match e {
        Exp::Variable(v) => v.idx,
        _ => panic!("not a variable: {:?}", e),
    }
}

fn name_of(e: &Exp) -> String {
    match e {
        Exp::Variable(v) => v.name.clone(),
        _ => panic!("not a variable: {:?}", e),
    }
}

// ----- de Bruijn indices and levels -----

#[test]
fn level_ctx_conversions() {
    let ctx = LevelCtx::from_sizes(vec![2, 3]);
    assert_eq!(ctx.len(), 2);
    assert!(!ctx.is_empty());
    assert!(LevelCtx::empty().is_empty());
    // The innermost telescope has three variables; index (0,0) is its last one.
    assert_eq!(ctx.idx_to_lvl(Idx { fst: 0, snd: 0 }), Lvl { fst: 1, snd: 2 });
    assert_eq!(ctx.idx_to_lvl(Idx { fst: 1, snd: 1 }), Lvl { fst: 0, snd: 0 });
    assert_eq!(ctx.lvl_to_idx(Lvl { fst: 1, snd: 2 }), Idx { fst: 0, snd: 0 });
    assert_eq!(ctx.lvl_to_idx(Lvl { fst: 0, snd: 1 }), Idx { fst: 1, snd: 0 });
}

#[test]
fn level_ctx_roundtrip_on_all_variables() {
    let ctx = LevelCtx::from_sizes(vec![1, 4, 2]);
    for fst in 0..3 {
        for snd in 0..ctx.bound[fst] {
            let lvl = Lvl { fst, snd };
            assert_eq!(ctx.idx_to_lvl(ctx.lvl_to_idx(lvl)), lvl);
        }
    }
}

#[test]
fn level_ctx_bind_unbind() {
    let mut ctx = LevelCtx::from_sizes(vec![1]);
    ctx.bind(3);
    assert_eq!(ctx.bound, vec![1, 3]);
    ctx.unbind();
    assert_eq!(ctx.bound, vec![1]);
}

#[test]
fn level_ctx_tail_append_swap() {
    let ctx = LevelCtx::from_sizes(vec![1, 2, 3]);
    assert_eq!(ctx.tail(1).bound, vec![2, 3]);
    assert_eq!(ctx.tail(5).bound, Vec::<usize>::new());
    let other = LevelCtx::from_sizes(vec![4]);
    assert_eq!(ctx.append(&other).bound, vec![1, 2, 3, 4]);
    assert_eq!(ctx.swap(0, 2).bound, vec![3, 2, 1]);
}

#[test]
fn var_kinds() {
    let b = Var::Bound(Idx { fst: 0, snd: 1 });
    let f = Var::Free("x".to_string());
    assert!(matches!(b, Var::Bound(Idx { fst: 0, snd: 1 })));
    assert!(matches!(f, Var::Free(ref n) if n == "x"));
}

// ----- declarations -----

#[test]
fn decl_meta_kind() {
    assert_eq!(DeclMeta::Data { arity: 2 }.kind(), DeclKind::Data);
    assert_eq!(DeclMeta::Codata { arity: 0 }.kind(), DeclKind::Codata);
    assert_eq!(DeclMeta::Def.kind(), DeclKind::Def);
    assert_eq!(DeclMeta::Codef.kind(), DeclKind::Codef);
    assert_eq!(DeclMeta::Ctor { ret_typ: "Nat".to_string() }.kind(), DeclKind::Ctor);
    assert_eq!(DeclMeta::Dtor { self_typ: "Stream".to_string() }.kind(), DeclKind::Dtor);
}

#[test]
fn decl_kind_description() {
    assert_eq!(DeclKind::Data.description(), "data type");
    assert_eq!(DeclKind::Codata.description(), "codata type");
    assert_eq!(DeclKind::Def.description(), "definition");
    assert_eq!(DeclKind::Codef.description(), "codefinition");
    assert_eq!(DeclKind::Ctor.description(), "constructor");
    assert_eq!(DeclKind::Dtor.description(), "destructor");
}

#[test]
fn doc_comments_and_attributes() {
    let d = DocComment { docs: vec!["A list.".to_string()] };
    let a = Attribute::default();
    assert_eq!(d.clone().docs, vec!["A list.".to_string()]);
    assert!(a.attrs.is_empty());
}

// ----- names -----

#[test]
fn named_items() {
    let s = "foo".to_string();
    assert_eq!(s.name(), "foo");
    let p = ParamInst { span: None, info: None, name: "x".to_string(), typ: None };
    assert_eq!(p.name(), "x");
    let m = MetaVar { id: 3 };
    assert_eq!(m, MetaVar { id: 3 });
    assert_ne!(m, MetaVar { id: 4 });
}

// ----- matrix representation -----

fn prg() -> Prg {
    let entry = |name: &str, repr: Repr| {
        (
            name.to_string(),
            XData {
                repr,
                span: None,
                doc: None,
                name: name.to_string(),
                typ: Telescope { params: vec![] },
                ctors: vec![],
                dtors: vec![],
                exprs: vec![],
            },
        )
    };
    Prg {
        map: vec![entry("Nat", Repr::Data), entry("Stream", Repr::Codata)],
        uri: url::Url::parse("inmemory:///scratch.pol").unwrap(),
    }
}

#[test]
fn repr_of_known_types() {
    let p = prg();
    assert_eq!(repr(&p, "Nat").unwrap(), Repr::Data);
    assert_eq!(repr(&p, "Stream").unwrap(), Repr::Codata);
}

#[test]
fn repr_of_unknown_type() {
    match repr(&prg(), "Bool") {
        Err(XfuncError::Impossible { message, span }) => {
            assert_eq!(message, "Could not resolve Bool");
            assert!(span.is_none());
        }
        other => panic!("unexpected: {:?}", other),
    }
}

#[test]
fn matrix_keys() {
    let k = Key { ctor: "Z".to_string(), dtor: "pred".to_string() };
    assert_eq!(k.clone(), k);
}

// ----- lifting -----

#[test]
fn free_vars_map_param_subst() {
    let mut m = FreeVarsMap::new(1);
    assert_eq!(m.len(), 0);
    m.add("a".to_string(), Lvl { fst: 0, snd: 1 });
    m.add("b".to_string(), Lvl { fst: 1, snd: 0 });
    assert_eq!(m.len(), 2);
    match m.to_param_subst() {
        Substitution::Entries(entries) => {
            assert_eq!(entries.len(), 2);
            // Within the new telescope of two variables, the first one is index (0,1).
            assert_eq!(entries[0].0, Lvl { fst: 0, snd: 1 });
            assert_eq!(idx_of(&entries[0].1), Idx { fst: 0, snd: 1 });
            assert_eq!(name_of(&entries[0].1), "a");
            assert_eq!(entries[1].0, Lvl { fst: 1, snd: 0 });
            assert_eq!(idx_of(&entries[1].1), Idx { fst: 0, snd: 0 });
            assert_eq!(name_of(&entries[1].1), "b");
        }
        _ => panic!("expected entries"),
    }
}

#[test]
fn free_vars_map_add_twice_replaces() {
    let mut m = FreeVarsMap::new(0);
    m.add("a".to_string(), Lvl { fst: 0, snd: 0 });
    m.add("a2".to_string(), Lvl { fst: 0, snd: 0 });
    assert_eq!(m.len(), 1);
}

#[test]
fn free_vars_map_body_subst() {
    // The lifted expression stood under the telescopes [2, 1, 3]; one telescope is cut off.
    let ctx = LevelCtx::from_sizes(vec![2, 1, 3]);
    let mut m = FreeVarsMap::new(1);
    m.add("u".to_string(), Lvl { fst: 0, snd: 1 });
    m.add("v".to_string(), Lvl { fst: 0, snd: 0 });
    match m.into_body_subst(&ctx) {
        Substitution::Entries(entries) => {
            // The new context is [2, 1, 3]: the new telescope of two, then the tail [1, 3].
            assert_eq!(idx_of(&entries[0].1), Idx { fst: 2, snd: 1 });
            assert_eq!(idx_of(&entries[1].1), Idx { fst: 2, snd: 0 });
        }
        _ => panic!("expected entries"),
    }
}

// ----- normal forms and conversion -----

fn nf_typ(name: &str, args: Vec<Nf>) -> Nf {
    Nf::TypCtor { info: None, name: name.to_string(), args }
}

fn nf_var(fst: usize, snd: usize, name: &str) -> Nf {
    Nf::Neu { exp: Neu::Var { info: None, name: name.to_string(), idx: Idx { fst, snd } } }
}

#[test]
fn forget_nf_gives_expressions() {
    let n = nf_typ("List", vec![nf_var(0, 0, "a")]);
    let e = n.forget_nf();
    let expected = Exp::TypCtor(TypCtor { span: None, name: "List".to_string(), args: Args { args: vec![var(0, 0)] } });
    assert!(alpha_eq(&e, &expected));
    let c = Nf::Ctor { info: None, name: "Z".to_string(), args: vec![] };
    let expected_call = Exp::Call(Call { span: None, name: "Z".to_string(), args: Args { args: vec![] }, inferred_type: None });
    assert!(alpha_eq(&c.forget_nf(), &expected_call));
}

#[test]
fn forget_nf_of_neutral_dtor() {
    let n = Neu::Dtor { info: None, exp: Box::new(Neu::Var { info: None, name: "s".to_string(), idx: Idx { fst: 0, snd: 0 } }), name: "head".to_string(), args: vec![] };
    match n.forget_nf() {
        Exp::DotCall(d) => {
            assert_eq!(d.name, "head");
            assert_eq!(idx_of(&d.exp), Idx { fst: 0, snd: 0 });
        }
        other => panic!("unexpected: {:?}", other),
    }
}

#[test]
fn nf_equality_ignores_names_and_spans() {
    assert!(nf_var(0, 1, "a").alpha_eq(&nf_var(0, 1, "b")));
    assert!(!nf_var(0, 1, "a").alpha_eq(&nf_var(0, 0, "a")));
    let h1 = Nf::Neu { exp: Neu::Hole { info: Some(codespan::Span::new(0, 1)) } };
    let h2 = Nf::Neu { exp: Neu::Hole { info: None } };
    assert!(h1.alpha_eq(&h2));
}

#[test]
fn nf_equality_of_comatches() {
    let cm = |id: usize, case_name: &str| Nf::Comatch {
        info: None,
        name: Label { id, user_name: None },
        is_lambda_sugar: false,
        body: NfMatch {
            info: None,
            cases: vec![NfCase {
                info: None,
                name: case_name.to_string(),
                args: TelescopeInst { params: vec![] },
                body: Some(Box::new(Nf::Type { info: None })),
            }],
            omit_absurd: false,
        },
    };
    assert!(cm(1, "ap").alpha_eq(&cm(1, "ap")));
    assert!(!cm(1, "ap").alpha_eq(&cm(2, "ap")));
    assert!(!cm(1, "ap").alpha_eq(&cm(1, "head")));
}

#[test]
fn convert_equal_types() {
    let a = nf_typ("Vec", vec![nf_typ("Nat", vec![]), nf_var(0, 0, "n")]);
    let b = nf_typ("Vec", vec![nf_typ("Nat", vec![]), nf_var(0, 0, "m")]);
    assert!(a.convert(&b).is_ok());
    assert!(a.convert(&a).is_ok());
}

#[test]
fn convert_unequal_types_reports_both() {
    let a = nf_typ("Nat", vec![]);
    let b = Nf::Type { info: None };
    match a.convert(&b) {
        Err(TypeError::NotEq { lhs, rhs }) => {
            assert!(matches!(lhs, Exp::TypCtor(ref t) if t.name == "Nat"));
            assert!(matches!(rhs, Exp::TypeUniv(_)));
        }
        Ok(()) => panic!("expected an error"),
    }
}

// ----- errors -----

#[test]
fn erasure_error_message() {
    let e = ErasureError::Impossible("unbound variable".to_string());
    assert_eq!(e.message(), "Impossible: unbound variable");
}

// ----- lifting signatures -----


fn fv(name: &str, lvl: Lvl, typ: Exp, ctx: Vec<usize>) -> FreeVar {
    FreeVar { name: name.to_string(), lvl, typ: Box::new(typ), ctx: LevelCtx::from_sizes(ctx) }
}

fn tc(name: &str, args: Vec<Exp>) -> Exp {
    Exp::TypCtor(TypCtor { span: None, name: name.to_string(), args: Args { args } })
}

fn sample_free_vars() -> Vec<FreeVar> {
    let a = fv("a", Lvl { fst: 0, snd: 0 }, Exp::TypeUniv(polarity::exp::TypeUniv { span: None }), vec![]);
    // The type of `b` mentions `a`: in the context [2], index (0,1) is level (0,0).
    let b = fv("b", Lvl { fst: 0, snd: 1 }, tc("Vec", vec![var(0, 1)]), vec![2]);
    let c = fv("c", Lvl { fst: 1, snd: 0 }, tc("Nat", vec![]), vec![2, 1]);
    vec![c, b, a]
}

#[test]
fn free_var_order() {
    let fvs = sample_free_vars();
    let (c, b, a) = (&fvs[0], &fvs[1], &fvs[2]);
    assert!(free_var_less(a, b));
    assert!(!free_var_less(b, a));
    // Without dependencies, the levels decide.
    assert!(free_var_less(b, c));
    assert!(!free_var_less(c, b));
    assert!(free_var_less(a, c));
}

#[test]
fn sort_free_vars_by_dependencies_and_levels() {
    let sorted = sort_free_vars(sample_free_vars());
    let names: Vec<String> = sorted.iter().map(|f| f.name.clone()).collect();
    assert_eq!(names, vec!["a", "b", "c"]);
}

#[test]
fn sort_puts_dependency_first_despite_levels() {
    // `x` has the higher level, but `y`'s type mentions it.
    let x = fv("x", Lvl { fst: 1, snd: 0 }, tc("Nat", vec![]), vec![1, 1]);
    // In the context [1, 1], index (0,0) is level (1,0).
    let y = fv("y", Lvl { fst: 0, snd: 0 }, tc("Vec", vec![var(0, 0)]), vec![1, 1]);
    let sorted = sort_free_vars(vec![y, x]);
    let names: Vec<String> = sorted.iter().map(|f| f.name.clone()).collect();
    assert_eq!(names, vec!["x", "y"]);
}

#[test]
fn lifted_signature_of_sample() {
    let base = LevelCtx::from_sizes(vec![2, 1]);
    let sig = lifted_signature(sample_free_vars(), &base);
    let names: Vec<String> = sig.telescope.params.iter().map(|p| p.name.clone()).collect();
    assert_eq!(names, vec!["a", "b", "c"]);
    // In the type of `b`, `a` is replaced by the first parameter: index (0,0) in a telescope of one.
    assert!(alpha_eq(&sig.telescope.params[1].typ, &tc("Vec", vec![var(0, 0)])));
    assert!(alpha_eq(&sig.telescope.params[2].typ, &tc("Nat", vec![])));
    // The arguments are the free variables, indexed in the base context.
    assert_eq!(idx_of(&sig.args.args[0]), Idx { fst: 1, snd: 1 });
    assert_eq!(idx_of(&sig.args.args[1]), Idx { fst: 1, snd: 0 });
    assert_eq!(idx_of(&sig.args.args[2]), Idx { fst: 0, snd: 0 });
    match sig.subst {
        Substitution::Entries(entries) => {
            assert_eq!(entries[0].0, Lvl { fst: 0, snd: 0 });
            assert_eq!(idx_of(&entries[0].1), Idx { fst: 0, snd: 2 });
            assert_eq!(idx_of(&entries[1].1), Idx { fst: 0, snd: 1 });
            assert_eq!(idx_of(&entries[2].1), Idx { fst: 0, snd: 0 });
        }
        _ => panic!("expected entries"),
    }
}

#[test]
fn universe_and_hole_types() {
    assert!(matches!(type_univ(), Nf::Type { info: None }));
    assert!(matches!(type_hole(), Nf::Neu { exp: Neu::Hole { info: None } }));
    assert!(type_univ().convert(&Nf::Type { info: Some(codespan::Span::new(0, 4)) }).is_ok());
    assert!(type_hole().convert(&type_univ()).is_err());
}

#[test]
fn shift_normal_forms() {
    let n = nf_typ("Vec", vec![nf_var(0, 0, "a"), nf_var(2, 1, "b")]);
    let shifted = n.shift_in_range(&ShiftRange::from(1), (3, 0));
    match &shifted {
        Nf::TypCtor { args, .. } => {
            assert!(matches!(args[0], Nf::Neu { exp: Neu::Var { idx: Idx { fst: 0, snd: 0 }, .. } }));
            assert!(matches!(args[1], Nf::Neu { exp: Neu::Var { idx: Idx { fst: 5, snd: 1 }, .. } }));
        }
        _ => panic!("expected a type constructor"),
    }
    // Shifting a normal form and forgetting it agrees with shifting the expression.
    let e = n.forget_nf().shift_in_range(&ShiftRange::from(1), (3, 0));
    assert!(alpha_eq(&shifted.forget_nf(), &e));
}
