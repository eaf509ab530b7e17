use hyperon::atom::{Atom, ExecuteFn, GroundedAtom, HostValue, MatchFn};
use hyperon::grounded::{Bool, Number};
use hyperon::interpreter::{eval, interpret, interpret_init, interpret_step, is_embedded};
use hyperon::runner::{metta_space, new_metta_rust, Metta};
use hyperon::space::GroundingSpace;
use hyperon::stdlib::{default_execute, execute_arithmetic, GetMetaTypeOp, GetTypeOp, IfEqualOp};
use hyperon::text::{parse_program, SExprParser, TokenConstructor, TokenPattern, Tokenizer};
use hyperon::types::get_atom_types;

fn s(name: &str) -> Atom {
    Atom::sym(name)
}

fn v(name: &str) -> Atom {
    Atom::var(name)
}

fn e(children: &[Atom]) -> Atom {
    Atom::expr(children)
}

fn n(i: i64) -> Atom {
    Atom::value(Number::Integer(i))
}

fn space_atom() -> Atom {
    Atom::gnd(HostValue::Space, MatchFn::Equality, ExecuteFn::NotImplemented)
}

fn op(f: ExecuteFn) -> Atom {
    Atom::gnd(HostValue::Op(f), MatchFn::Equality, f)
}

fn run(program: &str) -> Result<Vec<Vec<String>>, String> {
    let mut metta = new_metta_rust();
    metta
        .run(program)
        .map(|groups| groups.iter().map(|g| g.iter().map(|a| a.to_string()).collect()).collect())
}

#[test]
fn eval_rewrites_by_every_matching_equality_in_order() {
    let space = metta_space("(= (color) blue) (= (shape) round) (= (color) red)");
    let r = eval(&space, &e(&[s("color")]), 1);
    let atoms: Vec<Atom> = r.iter().map(|x| x.0.clone()).collect();
    assert_eq!(atoms, vec![s("blue"), s("red")]);
}

#[test]
fn eval_without_a_match_gives_empty() {
    let space = GroundingSpace::new();
    let r = eval(&space, &e(&[s("foo"), s("A")]), 1);
    assert_eq!(r.len(), 1);
    assert_eq!(r[0].0, s("Empty"));
    let r = eval(&space, &e(&[n(1), n(2)]), 1);
    assert_eq!(r[0].0, s("Empty"));
}

#[test]
fn eval_binds_the_variables_of_the_query() {
    let space = metta_space("(= (is Fritz frog) True)");
    let r = eval(&space, &e(&[s("is"), v("who"), s("frog")]), 1);
    assert_eq!(r.len(), 1);
    assert_eq!(r[0].0, s("True"));
    // The bindings also say what the result variable of the query stands for.
    assert_eq!(r[0].1.to_string(), "{$who: Fritz, $X#1: True}");
}

#[test]
fn eval_runs_grounded_operations() {
    let space = GroundingSpace::new();
    let r = eval(&space, &e(&[op(ExecuteFn::Sum), n(2), n(3)]), 1);
    assert_eq!(r[0].0, n(5));
    let r = eval(&space, &e(&[op(ExecuteFn::Sum), n(2), s("x")]), 1);
    assert_eq!(
        r[0].0,
        e(&[s("Error"), e(&[op(ExecuteFn::Sum), n(2), s("x")]), s("+ expects two number arguments")])
    );
}

#[test]
fn arithmetic_on_numbers() {
    assert_eq!(run("!(eval (+ 2 3)) !(eval (- 2 3)) !(eval (* 4 5)) !(eval (/ 7 2)) !(eval (% 7 2))"),
        Ok(vec![vec!["5".to_string()], vec!["-1".to_string()], vec!["20".to_string()], vec!["3".to_string()], vec!["1".to_string()]]));
    let args = vec![n(-7), n(2)];
    assert_eq!(execute_arithmetic(ExecuteFn::Div, &args), Ok(vec![n(-3)]));
    assert_eq!(execute_arithmetic(ExecuteFn::Mod, &args), Ok(vec![n(-1)]));
    let args = vec![n(7), n(0)];
    assert_eq!(
        execute_arithmetic(ExecuteFn::Div, &args),
        Err("/ is not defined on these numbers".to_string())
    );
    assert_eq!(
        execute_arithmetic(ExecuteFn::Mod, &args),
        Err("% is not defined on these numbers".to_string())
    );
    let args = vec![n(i64::MAX), n(1)];
    assert_eq!(
        execute_arithmetic(ExecuteFn::Sum, &args),
        Err("+ is not defined on these numbers".to_string())
    );
    let args = vec![n(i64::MIN), n(-1)];
    assert_eq!(
        execute_arithmetic(ExecuteFn::Div, &args),
        Err("/ is not defined on these numbers".to_string())
    );
    assert_eq!(
        execute_arithmetic(ExecuteFn::Mul, &vec![n(1)]),
        Err("* expects two number arguments".to_string())
    );
}

#[test]
fn instructions_written_wrongly_give_errors() {
    assert_eq!(
        run("!(eval)"),
        Ok(vec![vec!["(Error (eval) expected: (eval <atom>), found: (eval))".to_string()]])
    );
    assert_eq!(
        run("!(chain A B C)"),
        Ok(vec![vec![
            "(Error (chain A B C) expected: (chain <nested> (: <var> Variable) <templ>), found: (chain A B C))"
                .to_string()
        ]])
    );
    assert_eq!(
        run("!(match A B)"),
        Ok(vec![vec![
            "(Error (match A B) expected: (match <atom> <pattern> <then> <else>), found: (match A B))"
                .to_string()
        ]])
    );
}

#[test]
fn chain_feeds_each_result_into_the_template() {
    assert_eq!(
        run("(= (color) blue) (= (color) red) !(chain (eval (color)) $c (paint $c))"),
        Ok(vec![vec!["(paint blue)".to_string(), "(paint red)".to_string()]])
    );
    assert_eq!(run("!(chain A $x (got $x))"), Ok(vec![vec!["(got A)".to_string()]]));
}

#[test]
fn match_instruction_branches() {
    assert_eq!(run("!(match (A B) ($x B) (yes $x) no)"), Ok(vec![vec!["(yes A)".to_string()]]));
    assert_eq!(run("!(match (A B) ($x C) (yes $x) no)"), Ok(vec![vec!["no".to_string()]]));
}

#[test]
fn empty_results_are_dropped_and_plain_atoms_are_results() {
    assert_eq!(run("!(eval (foo))"), Ok(vec![vec![]]));
    assert_eq!(run("!(foo bar)"), Ok(vec![vec!["(foo bar)".to_string()]]));
    assert_eq!(run("! A"), Ok(vec![vec!["A".to_string()]]));
    // Without a delimiter the mark is part of the symbol.
    assert_eq!(run("!A"), Ok(vec![]));
    assert_eq!(run(""), Ok(vec![]));
    assert_eq!(run("(= (a) b)"), Ok(vec![]));
}

#[test]
fn a_reduction_that_does_not_end_stops_at_the_step_limit() {
    let space = metta_space("(= (a) b)");
    let atom = e(&[s("chain"), e(&[s("eval"), e(&[s("a")])]), v("x"), v("x")]);
    let looping = e(&[s("eval"), e(&[s("forever")])]);
    let forever = metta_space("(= (forever) (eval (forever)))");
    assert_eq!(
        interpret(&forever, &looping, 50),
        Err("evaluation did not finish within the step limit".to_string())
    );
    assert_eq!(interpret(&space, &atom, 2), Ok(vec![s("b")]));
    assert_eq!(
        interpret(&space, &atom, 1),
        Err("evaluation did not finish within the step limit".to_string())
    );
    assert_eq!(interpret(&space, &s("A"), 0), Ok(vec![s("A")]));
}

#[test]
fn the_state_machine_steps_until_the_plan_is_empty() {
    let space = metta_space("(= (a) b)");
    let atom = e(&[s("eval"), e(&[s("a")])]);
    assert!(is_embedded(&atom));
    assert!(!is_embedded(&s("eval")));
    let state = interpret_init(&atom);
    assert!(state.has_next());
    assert!(state.has_tags());
    let state = interpret_step(&space, state);
    assert!(!state.has_next());
    assert_eq!(state.into_result(), vec![s("b")]);
    let state = interpret_init(&s("A"));
    assert!(!state.has_next());
    assert_eq!(state.into_result(), vec![s("A")]);
}

#[test]
fn operations_report_missing_arguments() {
    let space = GroundingSpace::new();
    assert_eq!(
        (GetTypeOp {}).execute(&vec![s("A")], &space, 1),
        Err("get-type expects single atom as an argument".to_string())
    );
    assert_eq!(
        (GetTypeOp {}).execute(&vec![s("A"), s("B")], &space, 1),
        Err("match expects a space as the first argument".to_string())
    );
    assert_eq!(
        (GetMetaTypeOp {}).execute(&vec![]),
        Err("get-metatype expects single atom as an argument".to_string())
    );
    assert_eq!(
        (IfEqualOp {}).execute(&vec![s("A"), s("A"), s("then")]),
        Err("if-equal expects <atom> <pattern> <then> <else> as an argument".to_string())
    );
    assert_eq!(default_execute(&mut vec![s("A")]), Err("Execute is not implemented".to_string()));
    assert_eq!(
        GroundedAtom::new_value(1).execute(&vec![], &space, 1),
        Err("Execute is not implemented".to_string())
    );
}

#[test]
fn operations_compute() {
    let space = metta_space("(: a A)");
    assert_eq!((GetTypeOp {}).execute(&vec![s("a"), space_atom()], &space, 1), Ok(vec![s("A")]));
    assert_eq!((GetMetaTypeOp {}).execute(&vec![v("x")]), Ok(vec![s("Variable")]));
    let args = vec![e(&[v("x"), s("A")]), e(&[v("y"), s("A")]), s("then"), s("else")];
    assert_eq!((IfEqualOp {}).execute(&args), Ok(vec![s("then")]));
    let args = vec![e(&[v("x"), s("A")]), e(&[v("y"), s("B")]), s("then"), s("else")];
    assert_eq!((IfEqualOp {}).execute(&args), Ok(vec![s("else")]));
    assert_eq!((GetTypeOp {}).type_().to_string(), "(-> Atom Atom Atom)");
    assert_eq!((GetMetaTypeOp {}).type_().to_string(), "(-> Atom Atom)");
    assert_eq!((IfEqualOp {}).type_().to_string(), "(-> Atom Atom Atom Atom Atom)");
    assert_eq!((GetTypeOp {}).match_(&op(ExecuteFn::GetType)).len(), 1);
    assert_eq!((GetTypeOp {}).match_(&op(ExecuteFn::IfEqual)).len(), 0);
    assert_eq!((IfEqualOp {}).match_(&s("if-equal")).len(), 0);
    assert_eq!((GetMetaTypeOp {}).match_(&Atom::Grounded((GetMetaTypeOp {}).to_grounded())).len(), 1);
}

#[test]
fn types_of_atoms() {
    let space = metta_space("(: f (-> A B)) (: a A) (: (g) G) (: h (-> $t $t))");
    let show = |atom: &Atom| -> Vec<String> {
        get_atom_types(&space, atom, 1).iter().map(|a| a.to_string()).collect()
    };
    assert_eq!(show(&v("x")), vec!["%Undefined%"]);
    assert_eq!(show(&s("b")), vec!["%Undefined%"]);
    assert_eq!(show(&s("a")), vec!["A"]);
    assert_eq!(show(&n(1)), vec!["Number"]);
    assert_eq!(show(&Atom::value(Bool(true))), vec!["Bool"]);
    assert_eq!(show(&Atom::value(1)), vec!["%Undefined%"]);
    assert_eq!(show(&op(ExecuteFn::Sum)), vec!["(-> Number Number Number)"]);
    assert_eq!(show(&e(&[])), vec!["%Undefined%"]);
    assert_eq!(show(&e(&[s("f"), s("a")])), vec!["B"]);
    assert_eq!(show(&e(&[s("f"), s("b")])), vec!["B"]);
    assert_eq!(show(&e(&[s("f"), n(1)])), Vec::<String>::new());
    assert_eq!(show(&e(&[s("f"), s("a"), s("a")])), Vec::<String>::new());
    assert_eq!(show(&e(&[s("g")])), vec!["G"]);
    assert_eq!(show(&e(&[s("k"), s("a")])), vec!["%Undefined%"]);
    assert_eq!(show(&e(&[s("h"), s("a")])), vec!["$t#2"]);
}

#[test]
fn tokens_registered_later_come_first() {
    let mut t = Tokenizer::new();
    t.register_token(TokenPattern::Exact("x".to_string()), TokenConstructor::Constant(s("first")));
    t.register_token(TokenPattern::Exact("x".to_string()), TokenConstructor::Constant(s("second")));
    assert_eq!(t.find_token("x"), Some(s("second")));
    assert_eq!(t.find_token("y"), None);
    let mut front = Tokenizer::new();
    front.register_token(TokenPattern::Exact("x".to_string()), TokenConstructor::Constant(s("front")));
    front.register_token(TokenPattern::Digits, TokenConstructor::Integer);
    t.move_front(&mut front);
    assert_eq!(front.len(), 0);
    assert_eq!(t.len(), 4);
    assert_eq!(t.find_token("x"), Some(s("second")));
    assert_eq!(t.find_token("42"), Some(n(42)));
    assert_eq!(t.find_token("9223372036854775807"), Some(n(i64::MAX)));
    assert_eq!(t.find_token("9223372036854775808"), Some(s("9223372036854775808")));
    assert_eq!(t.find_token("99999999999999999999999"), Some(s("99999999999999999999999")));
    assert_eq!(t.find_token("4x"), None);
    assert_eq!(t.token_to_atom("$x"), v("x"));
    assert_eq!(t.token_to_atom("$"), v(""));
    assert_eq!(t.token_to_atom("4x"), s("4x"));
}

#[test]
fn parser_reads_atoms_one_by_one() {
    let t = Tokenizer::new();
    let mut p = SExprParser::new(" ; a comment ( \n (a $b (c)) \"a (string)\" x ; more\n ()");
    assert_eq!(p.parse(&t), Ok(Some(e(&[s("a"), v("b"), e(&[s("c")])]))));
    assert_eq!(p.parse(&t), Ok(Some(s("\"a (string)\""))));
    assert_eq!(p.parse(&t), Ok(Some(s("x"))));
    assert_eq!(p.parse(&t), Ok(Some(e(&[]))));
    assert_eq!(p.parse(&t), Ok(None));
    assert_eq!(p.parse(&t), Ok(None));
}

#[test]
fn parser_reports_unbalanced_brackets() {
    let t = Tokenizer::new();
    assert_eq!(parse_program("(a (b)", &t), Err("Unexpected end of expression".to_string()));
    assert_eq!(parse_program("a )", &t), Err("Unexpected right bracket".to_string()));
    assert_eq!(parse_program("(a ; (b))", &t), Err("Unexpected end of expression".to_string()));
    let mut p = SExprParser::new("a ) b");
    assert_eq!(p.parse(&t), Ok(Some(s("a"))));
    assert_eq!(p.parse(&t), Err("Unexpected right bracket".to_string()));
    assert_eq!(p.parse(&t), Err("Unexpected right bracket".to_string()));
    let mut metta = Metta::new();
    assert_eq!(metta.run("(= a b) )"), Err("Unexpected right bracket".to_string()));
    assert_eq!(metta.space.len(), 0);
}

#[test]
fn parser_keeps_escaped_quotes_in_strings() {
    let t = Tokenizer::new();
    assert_eq!(
        parse_program("(say \"a \\\" b\" c)", &t),
        Ok(vec![e(&[s("say"), s("\"a \\\" b\""), s("c")])])
    );
    assert_eq!(parse_program("\"open", &t), Ok(vec![s("\"open")]));
    assert_eq!(parse_program("a\"b\" c", &t), Ok(vec![s("a\"b\""), s("c")]));
}

#[test]
fn the_runner_reads_numbers_truth_values_and_operations() {
    let metta = new_metta_rust();
    let atoms = parse_program("42 True False + &self get-type foo -> %Undefined% 4.2", &metta.tokenizer).unwrap();
    assert_eq!(atoms[0], n(42));
    assert_eq!(atoms[1], Atom::value(Bool(true)));
    assert_eq!(atoms[2], Atom::value(Bool(false)));
    assert_eq!(atoms[3], op(ExecuteFn::Sum));
    assert_eq!(atoms[4], space_atom());
    assert_eq!(atoms[5], op(ExecuteFn::GetType));
    assert_eq!(atoms[6], s("foo"));
    assert_eq!(atoms[7], s("->"));
    assert_eq!(atoms[8], s("%Undefined%"));
    assert_eq!(atoms[9], s("4.2"));
    assert_eq!(metta.tokenizer.len(), 12);
    assert!(metta.space.len() > 20);
}

#[test]
fn the_runner_adds_atoms_and_evaluates_marked_ones() {
    let mut metta = Metta::new();
    let r = metta.run("(= (a) b) !(eval (a)) (= (a) c) !(eval (a))");
    assert_eq!(r, Ok(vec![vec![s("b")], vec![s("b"), s("c")]]));
    assert_eq!(metta.space.len(), 2);
    assert_eq!(metta.space.get(1), &e(&[s("="), e(&[s("a")]), s("c")]));
}

#[test]
fn space_removes_the_first_equal_atom() {
    let mut space = GroundingSpace::new();
    space.add(s("a"));
    space.add(s("b"));
    space.add(s("a"));
    assert!(space.remove(&s("a")));
    assert_eq!(space.len(), 2);
    assert_eq!(space.get(0), &s("b"));
    assert_eq!(space.get(1), &s("a"));
    assert!(!space.remove(&s("c")));
    assert_eq!(space.len(), 2);
    assert!(space.remove(&s("a")));
    assert!(!space.remove(&s("a")));
}

#[test]
fn space_answers_in_the_order_of_insertion() {
    let mut space = GroundingSpace::new();
    space.add(e(&[s("p"), s("1")]));
    space.add(e(&[s("q"), s("x")]));
    space.add(e(&[s("p"), s("2")]));
    space.add(e(&[s("p"), v("any")]));
    let found = space.query(&e(&[s("p"), v("n")]), 1);
    let shown: Vec<String> = found.iter().map(|b| b.to_string()).collect();
    assert_eq!(shown, vec!["{$n: 1}", "{$n: 2}", "{}"]);
}
