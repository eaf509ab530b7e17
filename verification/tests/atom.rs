use hyperon::atom::{Atom, ExecuteFn, GroundedAtom, HostValue, MatchFn, VariableAtom};
use hyperon::grounded::{
    Bool, Dictionary, ExplicitToGroundedAtom, GroundedValue, GroundedValueToGroundedAtom,
    HostMap, Number, Wrap,
};
use std::collections::HashMap;
use hyperon::matcher::{Bindings, MatchResult};

fn s(name: &str) -> Atom {
    Atom::sym(name)
}

fn e(children: &[Atom]) -> Atom {
    Atom::expr(children)
}

fn v(name: &str) -> Atom {
    Atom::var(name)
}

fn map_of<K: GroundedValue, V: GroundedValue>(map: HashMap<K, V>) -> HostMap<K, V> {
    let mut out = HostMap::new();
    for (key, value) in map {
        out.insert(key, value);
    }
    out
}

#[test]
fn test_expr_symbol() {
    assert_eq!(Atom::sym("="), s("="));
    assert_eq!(Atom::sym("1"), s("1"));
    assert_eq!(Atom::sym("*"), s("*"));
    assert_eq!(Atom::sym("foo"), s("foo"));
}

#[test]
fn test_expr_variable() {
    assert_eq!(Atom::var("n"), v("n"));
    assert_eq!(Atom::var("self"), v("self"));
}

#[test]
fn test_expr_expression() {
    assert_eq!(
        Atom::expr(&[
            Atom::sym("="),
            Atom::expr(&[Atom::sym("fact"), Atom::var("n")]),
            Atom::expr(&[
                Atom::sym("*"),
                Atom::var("n"),
                Atom::expr(&[Atom::sym("-"), Atom::var("n"), Atom::sym("1")])
            ])
        ]),
        e(&[
            s("="),
            e(&[s("fact"), v("n")]),
            e(&[s("*"), v("n"), e(&[s("-"), v("n"), s("1")])])
        ])
    );
    assert_eq!(
        Atom::expr(&[Atom::sym("="), Atom::var("n"), Atom::value([1, 2, 3])]),
        e(&[s("="), v("n"), Atom::value([1, 2, 3])])
    );
    assert_eq!(
        Atom::expr(&[
            Atom::sym("="),
            Atom::value(6),
            Atom::expr(&[Atom::sym("fact"), Atom::var("n")])
        ]),
        e(&[s("="), Atom::value(6), e(&[s("fact"), v("n")])])
    );
}

#[test]
fn test_grounded() {
    assert_eq!(Atom::value(3), Atom::Grounded(GroundedAtom::new_value(3)));
    assert_eq!(Atom::value(42).as_gnd::<i32>().unwrap(), 42);
    assert_eq!(
        Atom::value("Data string"),
        Atom::Grounded(GroundedAtom::new_value("Data string"))
    );
    assert_eq!(
        Atom::value(vec![1, 2, 3]),
        Atom::Grounded(GroundedAtom::new_value(vec![1, 2, 3]))
    );
    assert_eq!(Atom::value([42, -42]).as_gnd::<[i32; 2]>().unwrap(), [42, -42]);
    assert_eq!(Atom::value((-42, "42")).as_gnd::<(i32, &str)>().unwrap(), (-42, "42"));
    assert_eq!(
        Atom::value(map_of(HashMap::from([("q", 0), ("a", 42),]))),
        Atom::Grounded(GroundedAtom::new_value(map_of(HashMap::from([("q", 0), ("a", 42),]))))
    );
}

#[test]
fn test_display_symbol() {
    assert_eq!(Atom::sym("test").to_string(), "test");
}

#[test]
fn test_display_variable() {
    assert_eq!(Atom::var("x").to_string(), "$x");
}

#[test]
fn test_display_expression() {
    assert_eq!(
        e(&[
            s("="),
            e(&[s("fact"), v("n")]),
            e(&[s("*"), v("n"), e(&[s("-"), v("n"), s("1")])])
        ])
        .to_string(),
        "(= (fact $n) (* $n (- $n 1)))"
    );
    assert_eq!(e(&[]).to_string(), "()");
}

#[test]
fn test_display_grounded() {
    assert_eq!(Atom::value(42).to_string(), "42");
    assert_eq!(Atom::value([1, 2, 3]).to_string(), "[1, 2, 3]");
    assert_eq!(
        Atom::value(map_of(HashMap::from([("hello", "world")]))).to_string(),
        "{\"hello\": \"world\"}"
    );
}

#[test]
fn test_custom_matching() {
    let mut dict = Dictionary::new();
    dict.put(s("x"), e(&[Atom::value(2), Atom::value(5)]));
    dict.put(s("y"), Atom::value(5));
    let dict = (&&Wrap(dict)).to_atom();

    let mut query = Dictionary::new();
    query.put(v("b"), v("y"));
    query.put(v("a"), e(&[Atom::value(2), v("y")]));
    let query = (&&Wrap(query)).to_atom();

    let result: Vec<MatchResult> = dict.do_match(&query);
    let expected = Bindings::new()
        .with(VariableAtom::new("y".to_string()), Atom::value(5))
        .with(VariableAtom::new("b".to_string()), s("y"))
        .with(VariableAtom::new("a".to_string()), s("x"));
    assert_eq!(
        result,
        vec![MatchResult { candidate_bindings: Bindings::new(), pattern_bindings: expected }]
    );
}

#[test]
fn wrapped_plain_value_turns_into_plain_grounded_atom() {
    assert_eq!((&&Wrap(6)).to_atom(), Atom::value(6));
    assert_eq!(Wrap(6).to_atom(), Atom::value(6));
}

#[test]
fn expression_children_can_be_read_and_changed() {
    let mut atom = e(&[s("a"), v("b")]);
    if let Atom::Expression(x) = &mut atom {
        assert!(x.is_plain());
        assert_eq!(x.children(), &vec![s("a"), v("b")]);
        x.children_mut().push(e(&[]));
        assert!(!x.is_plain());
        assert_eq!(x.children().len(), 3);
    }
    assert_eq!(atom, e(&[s("a"), v("b"), e(&[])]));
    assert!(hyperon::atom::ExpressionAtom::new(vec![]).is_plain());
}

#[test]
fn names_of_symbols_and_variables() {
    if let Atom::Symbol(x) = s("foo") {
        assert_eq!(x.name(), "foo");
        assert_eq!(x.to_string(), "foo");
    }
    if let Atom::Variable(x) = v("bar") {
        assert_eq!(x.name(), "bar");
        assert_eq!(x.id(), 0);
        assert_eq!(x.with_id(3).to_string(), "$bar#3");
        assert_ne!(x.with_id(3), x);
    }
    let sym: hyperon::atom::SymbolAtom = "s".to_string().into();
    assert_eq!(Atom::Symbol(sym), s("s"));
    let var: VariableAtom = "v".to_string().into();
    assert_eq!(Atom::Variable(var), v("v"));
    let expr: hyperon::atom::ExpressionAtom = vec![s("s")].into();
    assert_eq!(Atom::Expression(expr), e(&[s("s")]));
}

#[test]
fn grounded_atoms_carry_values_and_hooks() {
    let plain = GroundedAtom::new_value(7);
    let matchable = GroundedAtom::new_matchable(7, MatchFn::Dictionary);
    let function = GroundedAtom::new_function(7, ExecuteFn::Sum);
    assert_eq!(plain.match_fn(), MatchFn::Equality);
    assert_eq!(plain.execute_fn(), ExecuteFn::NotImplemented);
    assert_eq!(matchable.match_fn(), MatchFn::Dictionary);
    assert_eq!(function.execute_fn(), ExecuteFn::Sum);
    assert_ne!(plain, matchable);
    assert_ne!(plain, function);
    assert_eq!(plain.clone(), plain);
    assert_eq!(plain.downcast_ref::<i32>(), Some(7));
    assert_eq!(plain.downcast_ref::<i64>(), None);
    assert_eq!(plain.downcast_ref::<String>(), None);
    assert_eq!(plain.do_match(&Atom::value(7)).len(), 1);
    assert_eq!(plain.do_match(&Atom::value(8)).len(), 0);
    assert_eq!(plain.do_match(&s("7")).len(), 0);

    let mut atom = Atom::value(7);
    assert!(atom.as_gnd_mut::<i64>().is_none());
    if let Some(value) = atom.as_gnd_mut::<i32>() {
        *value = HostValue::I32(8);
    }
    assert_eq!(atom, Atom::value(8));
    assert!(s("7").as_gnd::<i32>().is_none());
    assert!(s("7").as_gnd_mut::<i32>().is_none());
    let mut g = GroundedAtom::new_value(true);
    assert!(g.downcast_mut::<i32>().is_none());
    *g.downcast_mut::<bool>().unwrap() = HostValue::Bool(false);
    assert_eq!(g.downcast_ref::<bool>(), Some(false));
}

#[test]
fn host_values_are_written_as_text() {
    assert_eq!(Atom::value(true).to_string(), "true");
    assert_eq!(Atom::value(-5i64).to_string(), "-5");
    assert_eq!(Atom::value(5u64).to_string(), "5");
    assert_eq!(Atom::value("Data string").to_string(), "\"Data string\"");
    assert_eq!(Atom::value("a \"b\" \\ \n\t\r".to_string()).to_string(), "\"a \\\"b\\\" \\\\ \\n\\t\\r\"");
    assert_eq!(Atom::value(vec![1, 2, 3]).to_string(), "[1, 2, 3]");
    assert_eq!(Atom::value(Vec::<i32>::new()).to_string(), "[]");
    assert_eq!(Atom::value((-42, "42")).to_string(), "(-42, \"42\")");
    assert_eq!(Atom::value(vec![(1, true)]).to_string(), "[(1, true)]");
    assert_eq!(Atom::value(Number::Integer(3)).to_string(), "3");
    assert_eq!(Atom::value(Bool(true)).to_string(), "True");
    assert_eq!(Atom::value(Bool(false)).to_string(), "False");
    assert_eq!(Number::from_int_str("42"), Number::Integer(42));
    assert_eq!(Bool::from_str("True"), Bool(true));
    assert_eq!(Bool::from_str("False"), Bool(false));
    let mut d = Dictionary::new();
    d.put(s("k"), v("x"));
    d.put(s("l"), Atom::value(2));
    let atom: Atom = d.into();
    assert_eq!(atom.to_string(), "{k: $x, l: 2}");
    assert_eq!(Atom::from(Dictionary::new()).to_string(), "{}");
    assert_eq!(Atom::value(1), Atom::value(1));
    assert_ne!(Atom::value(1), Atom::value(1i64));
    assert_ne!(Atom::value(vec![1]), Atom::value([1]));
    assert_eq!(Atom::value(vec![1, 2]).as_gnd::<Vec<i32>>(), Some(vec![1, 2]));
    assert_eq!(Atom::value(vec![1, 2]).as_gnd::<Vec<i64>>(), None);
    assert_eq!(Atom::value("x".to_string()).as_gnd::<String>(), Some("x".to_string()));
    assert_eq!(Atom::value("x").as_gnd::<&str>(), Some("x"));
    assert_eq!(Atom::value("x").as_gnd::<String>(), None);
    assert_eq!(Atom::value("x".to_string()).as_gnd::<&str>(), None);
    assert_ne!(Atom::value("x"), Atom::value("x".to_string()));
    assert_eq!(Atom::value([0i32; 0]).as_gnd::<[i32; 0]>(), Some([]));
    assert_eq!(Atom::value([7, 8]).as_gnd::<[i32; 2]>(), Some([7, 8]));
    assert_eq!(Atom::value([7, 8]).as_gnd::<[i32; 3]>(), None);
    for text in ["", "plain", "\u{0}\u{7}\u{1b}\u{7f}", "tab\tquote\"back\\", "\u{e9}\u{301}\u{200b}\u{1f600}"] {
        assert_eq!(Atom::value(text.to_string()).to_string(), format!("{:?}", text));
        assert_eq!(Atom::value(text).to_string(), format!("{:?}", text));
    }
    assert_eq!(Atom::value(Number::Integer(1)).as_gnd::<Number>(), Some(Number::Integer(1)));
    assert_eq!(Atom::value(1).as_gnd::<Number>(), None);
}

#[test]
fn dictionaries_hold_one_value_for_a_key() {
    let mut d = Dictionary::new();
    assert_eq!(d.put(s("k"), s("1")), None);
    assert_eq!(d.put(s("l"), s("2")), None);
    assert_eq!(d.put(s("k"), s("3")), Some(s("1")));
    assert_eq!(d.len(), 2);
    assert_eq!(d.get(&s("k")), Some(&s("3")));
    assert_eq!(d.get(&s("m")), None);
    assert_eq!(d.remove(&s("l")), Some(s("2")));
    assert_eq!(d.remove(&s("l")), None);
    assert_eq!(d.len(), 1);
    let atom: Atom = d.clone().into();
    assert_eq!(atom.as_gnd::<Dictionary>().unwrap().get(&s("k")), Some(&s("3")));
    assert_eq!(atom.to_string(), "{k: 3}");
}

#[test]
fn dictionary_matching_ignores_the_order_of_entries() {
    fn dict(entries: &[(Atom, Atom)]) -> Atom {
        let mut d = Dictionary::new();
        for (k, v) in entries {
            d.put(k.clone(), v.clone());
        }
        d.into()
    }
    let data = dict(&[(s("a"), s("1")), (s("b"), s("2")), (s("c"), s("3"))]);
    let query = dict(&[(s("c"), v("z")), (s("a"), v("x"))]);
    let found = hyperon::matcher::match_atoms(&data, &query);
    assert_eq!(found.len(), 1);
    assert_eq!(found[0].to_string(), "{$x: 1, $z: 3}");
    // A pattern that asks for more than the dictionary holds matches the
    // other way round.
    let found = hyperon::matcher::match_atoms(&query, &data);
    assert_eq!(found.len(), 1);
    // Every way to match is found, in the order of the dictionary.
    let query = dict(&[(v("k"), v("v"))]);
    let found = hyperon::matcher::match_atoms(&data, &query);
    let shown: Vec<String> = found.iter().map(|b| b.to_string()).collect();
    assert_eq!(shown, vec!["{$k: a, $v: 1}", "{$k: b, $v: 2}", "{$k: c, $v: 3}"]);
    let none = dict(&[(s("d"), v("v"))]);
    assert!(hyperon::matcher::match_atoms(&data, &none).is_empty());
    let empty = dict(&[]);
    assert_eq!(hyperon::matcher::match_atoms(&data, &empty).len(), 1);
    assert!(hyperon::matcher::match_atoms(&data, &s("a")).is_empty());
    assert_eq!(hyperon::matcher::match_atoms(&data, &v("d")).len(), 1);
}

#[test]
fn what_was_put_into_a_matchable_atom_comes_out() {
    let g = GroundedAtom::new_matchable("x", MatchFn::Dictionary);
    assert_eq!(g.downcast_ref::<&str>(), Some("x"));
    assert_eq!(g.execute(&vec![], &hyperon::space::GroundingSpace::new(), 1).unwrap_err(), "Execute is not implemented");
    assert_eq!(g, GroundedAtom::new_matchable("x", MatchFn::Dictionary));
    assert_ne!(g, GroundedAtom::new_matchable("x", MatchFn::Equality));
    let g = GroundedAtom::new_matchable(vec![(1, "a")], MatchFn::Equality);
    assert_eq!(g.downcast_ref::<Vec<(i32, &str)>>(), Some(vec![(1, "a")]));
}

#[test]
fn maps_of_host_values_keep_their_entries_by_key() {
    let mut m: HostMap<&str, i32> = HostMap::new();
    m.insert("q", 0);
    m.insert("a", 42);
    m.insert("k", 7);
    m.insert("a", 43);
    assert_eq!(m.len(), 3);
    assert_eq!(m.entries(), &vec![("a", 43), ("k", 7), ("q", 0)]);
    let atom = Atom::value(m);
    assert_eq!(atom.to_string(), "{\"a\": 43, \"k\": 7, \"q\": 0}");
    let mut other: HostMap<&str, i32> = HostMap::new();
    other.insert("k", 7);
    other.insert("q", 0);
    other.insert("a", 43);
    assert_eq!(atom, Atom::value(other));
    let back = atom.as_gnd::<HostMap<&str, i32>>().unwrap();
    assert_eq!(back.entries(), &vec![("a", 43), ("k", 7), ("q", 0)]);
    assert!(atom.as_gnd::<HostMap<&str, i64>>().is_none());
    assert!(atom.as_gnd::<Vec<(&str, i32)>>().is_none());
    assert_eq!(Atom::value(HostMap::<i32, bool>::new()).to_string(), "{}");
}
