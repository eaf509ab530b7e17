use hyperon::atom::{Atom, AtomView, ExecuteFn, HostValue, MatchFn, VariableAtom};
use hyperon::grounded::Dictionary;
use hyperon::interpreter::{cons, decons, interpret, interpret_atom};
use hyperon::matcher::{
    apply_bindings_to_atom, atoms_are_equivalent, chain, match_atoms, occurs_in, product,
    var_before, Bindings,
};
use hyperon::space::{refresh_atom, GroundingSpace};
use hyperon::types::get_meta_type;

fn s(name: &str) -> Atom {
    Atom::sym(name)
}

fn v(name: &str) -> Atom {
    Atom::var(name)
}

fn e(children: &[Atom]) -> Atom {
    Atom::expr(children)
}

fn var(name: &str) -> VariableAtom {
    VariableAtom::new(name.to_string())
}

fn dict(entries: &[(Atom, Atom)]) -> Atom {
    let mut d = Dictionary::new();
    for (k, v) in entries {
        d.put(k.clone(), v.clone());
    }
    d.into()
}

fn samples() -> Vec<Atom> {
    vec![
        s("A"),
        s("B"),
        v("x"),
        v("y"),
        e(&[]),
        e(&[s("A"), v("x")]),
        e(&[v("y"), s("B")]),
        e(&[v("x"), v("x")]),
        e(&[s("A"), e(&[v("x"), s("C")])]),
        e(&[v("x"), e(&[s("S"), v("x")])]),
        Atom::value(1),
        Atom::value(2),
        Atom::value("text"),
        dict(&[(s("k"), Atom::value(1)), (s("l"), Atom::value(2))]),
        dict(&[(s("k"), v("v"))]),
        dict(&[(v("a"), Atom::value(2))]),
    ]
}

#[test]
fn matching_is_symmetric_on_samples() {
    let atoms = samples();
    for a in &atoms {
        for b in &atoms {
            let forth = a.do_match(b);
            let back = b.do_match(a);
            assert_eq!(forth.is_empty(), back.is_empty(), "{} against {}", a.to_string(), b.to_string());
        }
    }
}

#[test]
fn matching_without_hooks_swaps_the_sides() {
    let a = e(&[s("A"), v("x")]);
    let b = e(&[v("y"), s("B")]);
    let forth = a.do_match(&b);
    let back = b.do_match(&a);
    assert_eq!(forth.len(), 1);
    assert_eq!(back.len(), 1);
    assert_eq!(forth[0].candidate_bindings, back[0].pattern_bindings);
    assert_eq!(forth[0].pattern_bindings, back[0].candidate_bindings);
    assert_eq!(forth[0].candidate_bindings, Bindings::new().with(var("x"), s("B")));
    assert_eq!(forth[0].pattern_bindings, Bindings::new().with(var("y"), s("A")));
}

#[test]
fn every_sample_matches_itself_with_an_empty_binding() {
    for a in samples() {
        let found = match_atoms(&a, &a);
        assert!(found.iter().any(|b| b.is_empty()), "{}", a.to_string());
        let sides = a.do_match(&a);
        assert!(sides
            .iter()
            .any(|m| m.candidate_bindings.is_empty() && m.pattern_bindings.is_empty()));
    }
}

#[test]
fn dictionary_hook_on_other_data_matches_nothing() {
    let odd = Atom::gnd(HostValue::I32(1), MatchFn::Dictionary, ExecuteFn::NotImplemented);
    assert!(match_atoms(&odd, &odd).is_empty());
}

#[test]
fn equivalence_is_reflexive_and_symmetric_on_samples() {
    let atoms = samples();
    for a in &atoms {
        assert!(atoms_are_equivalent(a, a));
        for b in &atoms {
            assert_eq!(atoms_are_equivalent(a, b), atoms_are_equivalent(b, a));
        }
    }
}

#[test]
fn equivalence_renames_variables_one_to_one() {
    assert!(atoms_are_equivalent(&e(&[v("x"), v("y")]), &e(&[v("a"), v("b")])));
    assert!(!atoms_are_equivalent(&e(&[v("x"), v("x")]), &e(&[v("a"), v("b")])));
    assert!(!atoms_are_equivalent(&e(&[v("x"), v("y")]), &e(&[v("a"), v("a")])));
    assert!(!atoms_are_equivalent(&v("x"), &s("x")));
    assert!(atoms_are_equivalent(&e(&[]), &e(&[])));
}

#[test]
fn cons_puts_the_head_before_the_tail() {
    let tail = vec![s("x1"), s("x2"), s("x3")];
    assert_eq!(cons(&s("head"), &tail), e(&[s("head"), s("x1"), s("x2"), s("x3")]));
    assert_eq!(cons(&s("head"), &vec![]), e(&[s("head")]));
}

#[test]
fn decons_splits_head_and_tail() {
    let atoms = vec![s("x1"), s("x2"), s("x3")];
    assert_eq!(decons(&atoms), e(&[s("x1"), e(&[s("x2"), s("x3")])]));
    assert_eq!(decons(&vec![s("x1")]), e(&[s("x1"), e(&[])]));
}

#[test]
fn cons_and_decons_as_instructions() {
    let space = GroundingSpace::new();
    let r = interpret(&space, &e(&[s("cons"), s("a"), e(&[s("b"), s("c")])]), 10);
    assert_eq!(r, Ok(vec![e(&[s("a"), s("b"), s("c")])]));
    let r = interpret(&space, &e(&[s("decons"), e(&[s("a"), s("b"), s("c")])]), 10);
    assert_eq!(r, Ok(vec![e(&[s("a"), e(&[s("b"), s("c")])])]));
    let r = interpret(&space, &e(&[s("cons"), s("a"), s("b")]), 10);
    assert_eq!(
        r,
        Ok(vec![e(&[
            s("Error"),
            e(&[s("cons"), s("a"), s("b")]),
            s("expected: (cons <head> (: <tail> Expression)), found: (cons a b)")
        ])])
    );
    let r = interpret(&space, &e(&[s("decons"), e(&[])]), 10);
    assert_eq!(
        r,
        Ok(vec![e(&[
            s("Error"),
            e(&[s("decons"), e(&[])]),
            s("expected: (decons (: <expr> Expression)), found: (decons ())")
        ])])
    );
}

fn variables(atom: &Atom, out: &mut Vec<VariableAtom>) {
    match atom {
        Atom::Variable(v) => out.push(v.clone()),
        Atom::Expression(x) => {
            for c in x.children() {
                variables(c, out);
            }
        }
        _ => {}
    }
}

#[test]
fn refreshed_copies_share_no_variable() {
    let rule = e(&[s("="), e(&[s("plus"), e(&[s("S"), v("k")]), v("y")]), e(&[s("S"), v("k")])]);
    let one = refresh_atom(&rule, 7);
    let two = refresh_atom(&rule, 9);
    let mut first = Vec::new();
    let mut second = Vec::new();
    variables(&one, &mut first);
    variables(&two, &mut second);
    assert_eq!(first.len(), 3);
    assert!(first.iter().all(|v| v.id() == 7));
    assert!(second.iter().all(|v| v.id() == 9));
    assert!(first.iter().all(|v| !second.contains(v)));
    assert_eq!(one.to_string(), "(= (plus (S $k#7) $y#7) (S $k#7))");
}

#[test]
fn querying_twice_gives_variables_apart() {
    let mut space = GroundingSpace::new();
    space.add(e(&[s("="), e(&[s("f"), v("a")]), v("b")]));
    let pattern = e(&[s("="), e(&[s("f"), s("A")]), v("r")]);
    let first = space.query(&pattern, 3);
    let second = space.query(&pattern, 5);
    assert_eq!(first.len(), 1);
    assert_eq!(second.len(), 1);
    // The result variable is the older one, so the rule's variable is bound to it.
    assert_eq!(first[0], Bindings::new());
    assert_eq!(second[0], Bindings::new());
    let pattern = e(&[s("="), e(&[s("f"), v("q")]), s("R")]);
    let first = space.query(&pattern, 3);
    assert_eq!(first.len(), 1);
    assert_eq!(first[0].to_string(), "{}");
}

#[test]
fn metatype_is_one_of_four_symbols() {
    assert_eq!(get_meta_type(&s("A")), s("Symbol"));
    assert_eq!(get_meta_type(&v("x")), s("Variable"));
    assert_eq!(get_meta_type(&e(&[])), s("Expression"));
    assert_eq!(get_meta_type(&e(&[s("A")])), s("Expression"));
    assert_eq!(get_meta_type(&Atom::value(1)), s("Grounded"));
    let four = [s("Symbol"), s("Variable"), s("Expression"), s("Grounded")];
    for a in samples() {
        assert!(four.contains(&get_meta_type(&a)));
    }
}

#[test]
fn match_binds_the_later_variable_to_the_earlier() {
    let x = var("x");
    let y = var("y");
    assert!(var_before(&x, &y));
    assert!(!var_before(&y, &x));
    assert!(!var_before(&x, &x));
    assert!(var_before(&y, &x.with_id(1)));
    let found = match_atoms(&v("y"), &v("x"));
    assert_eq!(found, vec![Bindings::new().with(y.clone(), v("x"))]);
    let found = match_atoms(&v("x"), &v("y"));
    assert_eq!(found, vec![Bindings::new().with(y, v("x"))]);
}

#[test]
fn match_refuses_a_variable_inside_its_own_value() {
    let a = e(&[v("x"), v("x")]);
    let b = e(&[v("n"), e(&[s("S"), v("n")])]);
    assert!(match_atoms(&a, &b).is_empty());
    assert!(occurs_in(&var("n"), &e(&[s("S"), v("n")])));
    assert!(!occurs_in(&var("n"), &e(&[s("S"), v("m")])));
}

#[test]
fn match_replaces_bound_variables_in_earlier_values() {
    // $x is bound to ($y), then $y to A: the value of $x follows.
    let a = e(&[v("x"), v("y")]);
    let b = e(&[e(&[v("y")]), s("A")]);
    let found = match_atoms(&a, &b);
    assert_eq!(found.len(), 1);
    assert_eq!(found[0].len(), 2);
    assert_eq!(found[0].resolve(&var("x")), Some(&e(&[s("A")])));
    assert_eq!(found[0].resolve(&var("y")), Some(&s("A")));
    assert_eq!(found[0].to_string(), "{$x: (A), $y: A}");
    assert_eq!(apply_bindings_to_atom(&e(&[v("x"), v("z")]), &found[0]), e(&[e(&[s("A")]), v("z")]));
}

#[test]
fn match_of_different_lengths_and_symbols_fails() {
    assert!(match_atoms(&e(&[s("A")]), &e(&[s("A"), s("B")])).is_empty());
    assert!(match_atoms(&s("A"), &s("B")).is_empty());
    assert!(match_atoms(&s("A"), &e(&[s("A")])).is_empty());
    assert!(match_atoms(&Atom::value(1), &Atom::value(2)).is_empty());
    assert!(match_atoms(&Atom::value(1), &s("1")).is_empty());
    assert_eq!(match_atoms(&Atom::value(1), &Atom::value(1)), vec![Bindings::new()]);
}

#[test]
fn grounded_atoms_with_different_hooks_are_not_equal_but_match() {
    let plain = Atom::gnd(HostValue::I32(1), MatchFn::Equality, ExecuteFn::NotImplemented);
    let op = Atom::gnd(HostValue::I32(1), MatchFn::Equality, ExecuteFn::Sum);
    assert_ne!(plain, op);
    assert_eq!(match_atoms(&plain, &op), vec![Bindings::new()]);
}

#[test]
fn merge_agrees_or_fails() {
    let a = Bindings::new().with(var("x"), s("A"));
    let b = Bindings::new().with(var("y"), s("B"));
    let both = a.merge(&b).unwrap();
    assert_eq!(both, Bindings::new().with(var("y"), s("B")).with(var("x"), s("A")));
    let c = Bindings::new().with(var("x"), s("C"));
    assert!(a.merge(&c).is_none());
    assert_eq!(a.merge(&a), Some(a.clone()));
    // Values that can be unified agree.
    let d = Bindings::new().with(var("x"), e(&[v("z")]));
    let f = Bindings::new().with(var("x"), e(&[s("A")]));
    let merged = d.merge(&f).unwrap();
    assert_eq!(merged.resolve(&var("z")), Some(&s("A")));
    assert_eq!(merged.resolve(&var("x")), Some(&e(&[s("A")])));
}

#[test]
fn product_is_ordered_by_first_then_second() {
    let a = vec![
        Bindings::new().with(var("x"), s("A")),
        Bindings::new().with(var("x"), s("B")),
    ];
    let b = vec![
        Bindings::new().with(var("y"), s("1")),
        Bindings::new().with(var("x"), s("B")),
        Bindings::new().with(var("y"), s("2")),
    ];
    let p = product(&a, &b);
    let shown: Vec<String> = p.iter().map(|b| b.to_string()).collect();
    assert_eq!(
        shown,
        vec!["{$x: A, $y: 1}", "{$x: A, $y: 2}", "{$x: B, $y: 1}", "{$x: B}", "{$x: B, $y: 2}"]
    );
    assert!(product(&a, &vec![]).is_empty());
    assert!(product(&vec![], &b).is_empty());
}

#[test]
fn chain_concatenates_in_order() {
    let seq = vec![
        Bindings::new().with(var("x"), s("A")),
        Bindings::new().with(var("x"), s("B")),
    ];
    let out = chain(&seq, |b: &Bindings| vec![b.clone(), b.clone().with(var("k"), s("K"))]);
    let shown: Vec<String> = out.iter().map(|b| b.to_string()).collect();
    assert_eq!(shown, vec!["{$x: A}", "{$k: K, $x: A}", "{$x: B}", "{$k: K, $x: B}"]);
    let none = chain(&seq, |_b: &Bindings| Vec::new());
    assert!(none.is_empty());
}

#[test]
fn bindings_are_equal_as_maps() {
    let a = Bindings::new().with(var("x"), s("A")).with(var("y"), s("B"));
    let b = Bindings::new().with(var("y"), s("B")).with(var("x"), s("A"));
    assert_eq!(a, b);
    assert_ne!(a, Bindings::new().with(var("x"), s("A")));
    assert_ne!(a, Bindings::new().with(var("x"), s("A")).with(var("y"), s("C")));
    assert_eq!(a.to_string(), "{$x: A, $y: B}");
    assert_eq!(b.to_string(), "{$x: A, $y: B}");
    assert_eq!(Bindings::new().to_string(), "{}");
}

#[test]
fn view_types_are_nameable() {
    // The mathematical values are ghost: a program can only name their types.
    fn takes(_: Option<AtomView>) {}
    takes(None);
}

#[test]
fn step_of_an_atom_that_is_no_instruction_is_the_atom() {
    let space = GroundingSpace::new();
    let r = interpret_atom(&space, &s("A"), 1);
    assert_eq!(r.len(), 1);
    assert_eq!(r[0].0, s("A"));
    assert!(r[0].1.is_empty());
    let r = interpret_atom(&space, &e(&[s("foo"), s("A")]), 1);
    assert_eq!(r[0].0, e(&[s("foo"), s("A")]));
    let r = interpret_atom(&space, &e(&[]), 1);
    assert_eq!(r[0].0, e(&[]));
}
