use mockable_engine::decl::{Decl, Function, Identity, Marker, Prologue, Qualifiers, Segment, Signature, Stmt};
use mockable_engine::expand::{mockable, not_mockable, Expansion};
use mockable_engine::walk::{rewrite, synthesize, walk};

fn plain() -> Qualifiers {
    Qualifiers { compile_time: false, memory_unsafe: false, generated: false }
}

fn func(name: &str, qualifiers: Qualifiers, marker: Marker) -> Function {
    Function {
        name: name.to_string(),
        signature: Signature { text: format!("fn {}(x: u32) -> u32", name), args: vec!["x".to_string()] },
        qualifiers,
        marker,
        body: vec![Stmt::Source("x + 1".to_string())],
    }
}

fn module(name: &str, marker: Marker, children: Vec<Decl>) -> Decl {
    Decl::Module { head: String::new(), name: name.to_string(), marker, children }
}

fn intercept(scope: Vec<Segment>, name: &str) -> Stmt {
    Stmt::Intercept(Prologue {
        identity: Identity { scope, name: name.to_string() },
        args: vec!["x".to_string()],
    })
}

fn rewritten_copy(f: &Function, scope: Vec<Segment>) -> Function {
    let mut g = f.clone();
    g.body.insert(0, intercept(scope, &f.name));
    g
}

#[test]
fn suppressed_module_inside_instrumented_module() {
    let f = func("f", plain(), Marker::Unmarked);
    let g = func("g", plain(), Marker::Unmarked);
    let n = || module("n", Marker::Suppress, vec![Decl::Function(f.clone())]);
    let m = module("m", Marker::Instrument, vec![n(), Decl::Function(g.clone())]);
    let out = walk(m, false);
    let expected_g = rewritten_copy(&g, vec![Segment::Module("m".to_string())]);
    assert_eq!(out, module("m", Marker::Instrument, vec![n(), Decl::Function(expected_g)]));
}

#[test]
fn impl_block_skips_unsafe_method() {
    let a = func("a", plain(), Marker::Unmarked);
    let b = func("b", Qualifiers { memory_unsafe: true, ..plain() }, Marker::Unmarked);
    let block = Decl::Impl {
        head: String::new(),
        target: "S".to_string(),
        of_trait: None,
        marker: Marker::Instrument,
        members: vec![Decl::Function(a.clone()), Decl::Function(b.clone())],
    };
    let out = walk(block, false);
    let seg = Segment::Impl { target: "S".to_string(), of_trait: None };
    match out {
        Decl::Impl { members, .. } => {
            assert_eq!(members[0], Decl::Function(rewritten_copy(&a, vec![seg])));
            assert_eq!(members[1], Decl::Function(b));
        }
        other => panic!("unexpected {:?}", other),
    }
}

#[test]
fn generated_default_method_kept() {
    let d = func("d", Qualifiers { generated: true, ..plain() }, Marker::Unmarked);
    let t = || Decl::Trait {
        head: String::new(),
        name: "T".to_string(),
        marker: Marker::Instrument,
        members: vec![Decl::Function(d.clone())],
    };
    assert_eq!(walk(t(), false), t());
}

#[test]
fn standalone_function_without_context() {
    let f = func("f", plain(), Marker::Unmarked);
    assert_eq!(walk(Decl::Function(f.clone()), false), Decl::Function(f));
}

#[test]
fn standalone_marked_function_is_rewritten() {
    let f = func("f", plain(), Marker::Instrument);
    assert_eq!(walk(Decl::Function(f.clone()), false), Decl::Function(rewritten_copy(&f, vec![])));
}

#[test]
fn instrument_reaches_nested_modules() {
    let h = func("h", plain(), Marker::Unmarked);
    let inner = module("inner", Marker::Unmarked, vec![Decl::Function(h.clone())]);
    let outer = module("outer", Marker::Instrument, vec![inner]);
    let scope = vec![Segment::Module("outer".to_string()), Segment::Module("inner".to_string())];
    let expected = module(
        "outer",
        Marker::Instrument,
        vec![module("inner", Marker::Unmarked, vec![Decl::Function(rewritten_copy(&h, scope))])],
    );
    assert_eq!(walk(outer, false), expected);
}

#[test]
fn suppress_wins_over_inherited_flag() {
    let n = || module("n", Marker::Suppress, vec![Decl::Function(func("f", plain(), Marker::Instrument))]);
    assert_eq!(walk(n(), true), n());
}

#[test]
fn suppressed_method_in_instrumented_impl_kept() {
    let block = || Decl::Impl {
        head: String::new(),
        target: "S".to_string(),
        of_trait: Some("Tr".to_string()),
        marker: Marker::Instrument,
        members: vec![Decl::Function(func("a", plain(), Marker::Suppress))],
    };
    assert_eq!(walk(block(), false), block());
}

#[test]
fn instrument_marker_on_method_is_inert() {
    let block = || Decl::Impl {
        head: String::new(),
        target: "S".to_string(),
        of_trait: None,
        marker: Marker::Unmarked,
        members: vec![Decl::Function(func("a", plain(), Marker::Instrument))],
    };
    assert_eq!(walk(block(), false), block());
}

#[test]
fn const_function_is_never_rewritten() {
    let f = func("f", Qualifiers { compile_time: true, ..plain() }, Marker::Instrument);
    assert_eq!(walk(Decl::Function(f.clone()), true), Decl::Function(f));
}

#[test]
fn other_items_pass_through() {
    let m = || module("m", Marker::Instrument, vec![Decl::Other("struct S;".to_string())]);
    assert_eq!(walk(m(), false), m());
}

#[test]
fn trait_methods_identified_by_trait_path() {
    let d = func("d", plain(), Marker::Unmarked);
    let t = Decl::Trait {
        head: String::new(),
        name: "T".to_string(),
        marker: Marker::Unmarked,
        members: vec![Decl::Function(d.clone()), Decl::Other("fn req(&self);".to_string())],
    };
    let m = module("m", Marker::Instrument, vec![t]);
    let scope = vec![Segment::Module("m".to_string()), Segment::Trait("T".to_string())];
    match walk(m, false) {
        Decl::Module { children, .. } => match &children[0] {
            Decl::Trait { members, .. } => {
                assert_eq!(members[0], Decl::Function(rewritten_copy(&d, scope)));
                assert_eq!(members[1], Decl::Other("fn req(&self);".to_string()));
            }
            other => panic!("unexpected {:?}", other),
        },
        other => panic!("unexpected {:?}", other),
    }
}

#[test]
fn eligibility_classifier() {
    assert!(plain().is_eligible());
    assert!(!Qualifiers { compile_time: true, ..plain() }.is_eligible());
    assert!(!Qualifiers { memory_unsafe: true, ..plain() }.is_eligible());
    assert!(!Qualifiers { generated: true, ..plain() }.is_eligible());
}

#[test]
fn marker_is_read_from_the_node_itself() {
    assert_eq!(module("m", Marker::Suppress, vec![]).marker(), Marker::Suppress);
    assert_eq!(Decl::Other("use x;".to_string()).marker(), Marker::Unmarked);
}

#[test]
fn synthesized_prologue_names_function_and_arguments() {
    let scope = vec![Segment::Module("m".to_string())];
    let sig = Signature { text: "fn f(a: u8, b: u8)".to_string(), args: vec!["a".to_string(), "b".to_string()] };
    let p = synthesize(&scope, &"f".to_string(), &sig);
    assert_eq!(p.identity.scope, scope);
    assert_eq!(p.identity.name, "f");
    assert_eq!(p.args, vec!["a".to_string(), "b".to_string()]);
}

#[test]
fn rewrite_keeps_body_statements_after_prologue() {
    let f = func("f", plain(), Marker::Unmarked);
    let g = rewrite(f.clone(), &vec![]);
    assert_eq!(g.body.len(), 2);
    assert_eq!(g.body[0], intercept(vec![], "f"));
    assert_eq!(g.body[1], f.body[0]);
    assert_eq!(g.signature, f.signature);
}

#[test]
fn mockable_rewrites_parsed_item() {
    let f = func("f", plain(), Marker::Unmarked);
    let r = mockable("fn f() {}".to_string(), Ok(Decl::Function(f.clone())));
    assert_eq!(r, Expansion::Rewritten(Decl::Function(rewritten_copy(&f, vec![]))));
}

#[test]
fn mockable_fails_open_on_unreadable_input() {
    let r = mockable("fn (".to_string(), Err("expected identifier".to_string()));
    assert_eq!(
        r,
        Expansion::Unchanged { source: "fn (".to_string(), diagnostic: "expected identifier".to_string() }
    );
}

#[test]
fn not_mockable_returns_item() {
    assert_eq!(not_mockable("fn f() {}".to_string()), "fn f() {}");
}

#[test]
fn same_method_name_in_two_impls_gets_distinct_identities() {
    let block = |target: &str, of_trait: Option<&str>| Decl::Impl {
        head: String::new(),
        target: target.to_string(),
        of_trait: of_trait.map(|t| t.to_string()),
        marker: Marker::Unmarked,
        members: vec![Decl::Function(func("run", plain(), Marker::Unmarked))],
    };
    let m = module("m", Marker::Instrument, vec![block("S", None), block("S", Some("Tr"))]);
    let first_intercept = |d: &Decl| -> Identity {
        match d {
            Decl::Impl { members, .. } => match &members[0] {
                Decl::Function(f) => match &f.body[0] {
                    Stmt::Intercept(p) => p.identity.clone(),
                    other => panic!("unexpected {:?}", other),
                },
                other => panic!("unexpected {:?}", other),
            },
            other => panic!("unexpected {:?}", other),
        }
    };
    match walk(m, false) {
        Decl::Module { children, .. } => {
            let a = first_intercept(&children[0]);
            let b = first_intercept(&children[1]);
            assert_ne!(a, b);
            assert_eq!(a.name, "run");
            assert_eq!(
                b.scope,
                vec![
                    Segment::Module("m".to_string()),
                    Segment::Impl { target: "S".to_string(), of_trait: Some("Tr".to_string()) }
                ]
            );
        }
        other => panic!("unexpected {:?}", other),
    }
}
