use hyperon::atom::{Atom, ExecuteFn, GroundedAtom, HostValue, MatchFn};
use hyperon::grounded::{Bool, Number};
use hyperon::matcher::atoms_are_equivalent;
use hyperon::runner::{metta_space, new_metta_rust};
use hyperon::stdlib::GetTypeOp;

fn s(name: &str) -> Atom {
    Atom::sym(name)
}

fn v(name: &str) -> Atom {
    Atom::var(name)
}

fn e(children: &[Atom]) -> Atom {
    Atom::expr(children)
}

fn space_atom() -> Atom {
    Atom::gnd(HostValue::Space, MatchFn::Equality, ExecuteFn::NotImplemented)
}

fn run_program(program: &str) -> Result<Vec<Vec<Atom>>, String> {
    let mut metta = new_metta_rust();
    metta.run(program)
}

fn eq_no_order(left: &[Atom], right: &[Atom]) -> bool {
    if left.len() != right.len() {
        return false;
    }
    let mut used = vec![false; right.len()];
    for a in left {
        let mut found = false;
        for (i, b) in right.iter().enumerate() {
            if !used[i] && a == b {
                used[i] = true;
                found = true;
                break;
            }
        }
        if !found {
            return false;
        }
    }
    true
}

fn metta_results_eq(
    left: &Result<Vec<Vec<Atom>>, String>,
    right: &Result<Vec<Vec<Atom>>, String>,
) -> bool {
    match (left, right) {
        (Ok(left), Ok(right)) if left.len() == right.len() => {
            left.iter().zip(right.iter()).all(|(l, r)| eq_no_order(l, r))
        }
        _ => false,
    }
}

#[test]
fn get_type_op() {
    let space = metta_space(
        "
            (: B Type)
            (: C Type)
            (: A B)
            (: A C)
        ",
    );

    let get_type_op = GetTypeOp {};
    let result = get_type_op.execute(&vec![s("A"), space_atom()], &space, 1).unwrap();
    assert!(eq_no_order(&result, &[s("B"), s("C")]));
}

#[test]
fn get_type_op_non_valid_atom() {
    let space = metta_space(
        "
            (: f (-> Number String))
            (: 42 Number)
            (: \"test\" String)
        ",
    );

    let get_type_op = GetTypeOp {};
    let result = get_type_op
        .execute(&vec![e(&[s("f"), s("42")]), space_atom()], &space, 1)
        .unwrap();
    assert!(eq_no_order(&result, &[s("String")]));
    let result = get_type_op
        .execute(&vec![e(&[s("f"), s("\"test\"")]), space_atom()], &space, 1)
        .unwrap();
    assert!(eq_no_order(&result, &[]));
}

#[test]
fn metta_car() {
    let result = run_program("!(eval (car (A $b)))");
    assert_eq!(result, Ok(vec![vec![s("A")]]));
    let result = run_program("!(eval (car ($a B)))");
    assert!(result.is_ok_and(|res| res.len() == 1
        && res[0].len() == 1
        && atoms_are_equivalent(&res[0][0], &v("a"))));
    let result = run_program("!(eval (car ()))");
    assert_eq!(
        result,
        Ok(vec![vec![e(&[
            s("Error"),
            e(&[s("car"), e(&[])]),
            s("\"car expects a non-empty expression as an argument\"")
        ])]])
    );
    let result = run_program("!(eval (car A))");
    assert_eq!(
        result,
        Ok(vec![vec![e(&[
            s("Error"),
            e(&[s("car"), s("A")]),
            s("\"car expects a non-empty expression as an argument\"")
        ])]])
    );
}

#[test]
fn metta_switch() {
    let result = run_program("!(eval (switch (A $b) ( (($a B) ($b $a)) ((B C) (C B)) )))");
    assert_eq!(result, Ok(vec![vec![e(&[s("B"), s("A")])]]));
    let result = run_program("!(eval (switch (A $b) ( ((B C) (C B)) (($a B) ($b $a)) )))");
    assert_eq!(result, Ok(vec![vec![e(&[s("B"), s("A")])]]));
    let result = run_program("!(eval (switch (A $b) ( ((B C) (C B)) ((D E) (E B)) )))");
    assert_eq!(result, Ok(vec![vec![]]));
}

#[test]
fn metta_is_function() {
    let result = run_program("!(eval (is-function (-> $t)))");
    assert_eq!(result, Ok(vec![vec![Atom::value(Bool(true))]]));
    let result = run_program("!(eval (is-function (A $t)))");
    assert_eq!(result, Ok(vec![vec![Atom::value(Bool(false))]]));
    let result = run_program("!(eval (is-function %Undefined%))");
    assert_eq!(result, Ok(vec![vec![Atom::value(Bool(false))]]));
}

#[test]
fn metta_reduce_chain() {
    assert_eq!(
        run_program(
            "
            (= (foo $x) (bar $x))
            (= (bar $x) (baz $x))
            (= (baz $x) $x)
            !(eval (reduce (foo A) $x (reduced $x)))
        "
        ),
        Ok(vec![vec![e(&[s("reduced"), s("A")])]])
    );
    assert_eq!(
        run_program(
            "
            !(eval (reduce (foo A) $x (reduced $x)))
        "
        ),
        Ok(vec![vec![e(&[s("reduced"), e(&[s("foo"), s("A")])])]])
    );
    assert_eq!(
        run_program(
            "
            (= (foo A) (Error (foo A) \"Test error\"))
            !(eval (reduce (foo A) $x (reduced $x)))
        "
        ),
        Ok(vec![vec![e(&[s("Error"), e(&[s("foo"), s("A")]), s("\"Test error\"")])]])
    );
}

#[test]
fn metta_reduce_reduce() {
    assert_eq!(
        run_program(
            "
            (= (foo $x) (reduce (bar $x) $t $t))
            (= (bar $x) $x)
            !(eval (reduce (foo A) $x $x))
        "
        ),
        Ok(vec![vec![s("A")]])
    );
}

#[test]
fn metta_type_cast() {
    assert_eq!(run_program("(: a A) !(eval (type-cast a A &self))"), Ok(vec![vec![s("a")]]));
    assert_eq!(
        run_program("(: a A) !(eval (type-cast a B &self))"),
        Ok(vec![vec![e(&[s("Error"), s("a"), s("BadType")])]])
    );
    assert_eq!(
        run_program("(: a A) !(eval (type-cast a %Undefined% &self))"),
        Ok(vec![vec![s("a")]])
    );
    assert_eq!(run_program("!(eval (type-cast a B &self))"), Ok(vec![vec![s("a")]]));
    assert_eq!(
        run_program("!(eval (type-cast 42 Number &self))"),
        Ok(vec![vec![Atom::value(Number::Integer(42))]])
    );
    assert_eq!(
        run_program("!(eval (type-cast 42 %Undefined% &self))"),
        Ok(vec![vec![Atom::value(Number::Integer(42))]])
    );
}

#[test]
fn metta_interpret_single_atom_as_atom() {
    let result = run_program("!(eval (interpret A Atom &self))");
    assert_eq!(result, Ok(vec![vec![s("A")]]));
}

#[test]
fn metta_interpret_single_atom_as_meta_type() {
    assert_eq!(run_program("!(eval (interpret A Symbol &self))"), Ok(vec![vec![s("A")]]));
    assert_eq!(run_program("!(eval (interpret $x Variable &self))"), Ok(vec![vec![v("x")]]));
    assert_eq!(
        run_program("!(eval (interpret (A B) Expression &self))"),
        Ok(vec![vec![e(&[s("A"), s("B")])]])
    );
    assert_eq!(
        run_program("!(eval (interpret 42 Grounded &self))"),
        Ok(vec![vec![Atom::value(Number::Integer(42))]])
    );
}

#[test]
fn metta_interpret_symbol_or_grounded_value_as_type() {
    assert_eq!(run_program("(: a A) !(eval (interpret a A &self))"), Ok(vec![vec![s("a")]]));
    assert_eq!(
        run_program("(: a A) !(eval (interpret a B &self))"),
        Ok(vec![vec![e(&[s("Error"), s("a"), s("BadType")])]])
    );
    assert_eq!(
        run_program("!(eval (interpret 42 Number &self))"),
        Ok(vec![vec![Atom::value(Number::Integer(42))]])
    );
}

#[test]
fn metta_interpret_variable_as_type() {
    assert_eq!(run_program("!(eval (interpret $x %Undefined% &self))"), Ok(vec![vec![v("x")]]));
    assert_eq!(run_program("!(eval (interpret $x SomeType &self))"), Ok(vec![vec![v("x")]]));
}

#[test]
fn metta_interpret_empty_expression_as_type() {
    assert_eq!(run_program("!(eval (interpret () %Undefined% &self))"), Ok(vec![vec![e(&[])]]));
    assert_eq!(run_program("!(eval (interpret () SomeType &self))"), Ok(vec![vec![e(&[])]]));
}

#[test]
fn metta_interpret_children() {
    assert_eq!(run_program("!(eval (interpret-tuple () &self))"), Ok(vec![vec![e(&[])]]));
    assert_eq!(run_program("!(eval (interpret-tuple (a) &self))"), Ok(vec![vec![e(&[s("a")])]]));
    assert_eq!(
        run_program("!(eval (interpret-tuple (a b) &self))"),
        Ok(vec![vec![e(&[s("a"), s("b")])]])
    );
    assert_eq!(
        run_program(
            "
            (= (foo $x) (bar $x))
            (= (bar $x) (baz $x))
            (= (baz $x) $x)
            !(eval (interpret-tuple ((foo A) (foo B)) &self))
        "
        ),
        Ok(vec![vec![e(&[s("A"), s("B")])]])
    );
}

#[test]
fn metta_interpret_expression_as_type() {
    assert_eq!(
        run_program("(= (foo $x) $x) !(eval (interpret (foo a) %Undefined% &self))"),
        Ok(vec![vec![s("a")]])
    );
    assert_eq!(
        run_program("!(eval (interpret (foo a) %Undefined% &self))"),
        Ok(vec![vec![e(&[s("foo"), s("a")])]])
    );
    assert_eq!(run_program("!(eval (interpret () SomeType &self))"), Ok(vec![vec![e(&[])]]));
}

#[test]
fn test_frog_reasoning() {
    let program = "
            (= (and True True) True)

            (= (is Fritz croaks) True)
            (= (is Fritz eats-flies) True)

            (= (is Tweety chirps) True)
            (= (is Tweety yellow) True)
            (= (is Tweety eats-flies) True)

            !(eval (interpret (if (and (is $x croaks) (is $x eats-flies)) (= (is $x frog) True) Empty) %Undefined% &self))
        ";

    assert_eq!(
        run_program(program),
        Ok(vec![vec![e(&[
            s("="),
            e(&[s("is"), s("Fritz"), s("frog")]),
            Atom::value(Bool(true))
        ])]])
    );
}

#[test]
fn test_match_all() {
    let program = "
            (= (color) blue)
            (= (color) red)
            (= (color) green)

            !(eval (interpret (color) %Undefined% &self))
        ";

    assert!(metta_results_eq(
        &run_program(program),
        &Ok(vec![vec![s("blue"), s("red"), s("green")]])
    ));
}

#[test]
fn test_variable_keeps_value_in_different_sub_expressions() {
    let program = "
            (= (eq $x $x) True)
            (= (plus Z $y) $y)
            (= (plus (S $k) $y) (S (plus $k $y)))

            !(eval (interpret (eq (plus Z $n) $n) %Undefined% &self))
            !(eval (interpret (eq (plus (S Z) $n) $n) %Undefined% &self))
        ";

    assert!(metta_results_eq(
        &run_program(program),
        &Ok(vec![
            vec![Atom::value(Bool(true))],
            vec![e(&[s("eq"), e(&[s("S"), v("n")]), v("n")])]
        ])
    ));
}

#[test]
fn test_variable_defined_via_variabe() {
    let program = "
            (= (myif T $y) $y)
            (= (not F) T)
            (= (a $z) (not (b $z)))
            (= (b d) F)

            !(eval (interpret (myif (a $x) $x) %Undefined% &self))
        ";

    assert!(metta_results_eq(&run_program(program), &Ok(vec![vec![s("d")]])));
}

#[test]
fn test_variable_name_conflict() {
    let program = "
            (= (a ($W)) True)

            !(eval (interpret (a $W) %Undefined% &self))
        ";

    assert!(metta_results_eq(&run_program(program), &Ok(vec![vec![Atom::value(Bool(true))]])));
}

#[test]
fn test_variable_name_conflict_renaming() {
    let program = "
            (= (b ($x $y)) (c $x $y))

            !(eval (interpret (a (b $a) $x $y) %Undefined% &self))
        ";

    let result = run_program(program);
    assert!(result.is_ok_and(|res| res.len() == 1
        && res[0].len() == 1
        && atoms_are_equivalent(
            &res[0][0],
            &e(&[s("a"), e(&[s("c"), v("a"), v("b")]), v("c"), v("d")])
        )));
}

#[test]
fn test_operation_is_expression() {
    let program = "
            (: foo (-> (-> A A)))
            (: a A)
            (= (foo) bar)
            (= (bar $x) $x)

            !(eval (interpret ((foo) a) %Undefined% &self))
        ";

    assert!(metta_results_eq(&run_program(program), &Ok(vec![vec![s("a")]])));
}

#[test]
fn test_return_bad_type_error() {
    let program = "
            (: myAtom myType)
            (: id_a (-> A A))
            (= (id_a $a) $a)

            !(eval (interpret (id_a myAtom) %Undefined% &self))
            ;!(id_num myatom)
        ";

    assert_eq!(
        run_program(program),
        Ok(vec![vec![e(&[s("Error"), s("myAtom"), s("BadType")])]])
    );
}

#[test]
fn grounded_new_value_is_plain_data() {
    assert_eq!(Atom::value(3), Atom::Grounded(GroundedAtom::new_value(3)));
}
