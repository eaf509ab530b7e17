//! The runner: a space and a table of tokens, loaded with the rules of the
//! reducer, that runs programs given as text.

use crate::atom::{atoms_view, Atom, AtomView, ExecuteFn, GroundedView, HostValue, HostView, MatchFn};
use crate::interpreter::{interpret, interpret_spec};
use crate::space::GroundingSpace;
use crate::text::{
    parse_all, parse_program, ConstructorView, PatternView, TokenConstructor, TokenPattern,
    Tokenizer,
};
use crate::strings::str_to_string;
use crate::types::is_symbol;
use vstd::prelude::*;

verus! {

/// The rules of the reducer, written in the language they interpret.
pub const METTA_CODE: &'static str = "

(: if (-> Bool Atom Atom $t))
(= (if True $then $else) $then)
(= (if False $then $else) $else)

(: Error (-> Atom Atom ErrorType))

(= (if-non-empty-expression $atom $then $else)
  (chain (eval (get-metatype $atom)) $type
    (eval (if-equal $type Expression
      (eval (if-equal $atom () $else $then))
      $else ))))

(= (if-decons $atom $head $tail $then $else)
  (eval (if-non-empty-expression $atom
    (chain (decons $atom) $list
      (match $list ($head $tail) $then $else) )
    $else )))

(= (if-empty $atom $then $else)
  (eval (if-equal $atom Empty $then $else)))

(= (if-error $atom $then $else)
  (eval (if-decons $atom $head $_
    (eval (if-equal $head Error $then $else))
    $else )))

(= (return-on-error $atom $then)
  (eval (if-empty $atom Empty
    (eval (if-error $atom $atom
      $then )))))

(= (car $atom)
  (eval (if-decons $atom $head $_
    $head
    (Error (car $atom) \"car expects a non-empty expression as an argument\") )))

(= (switch $atom $cases)
  (chain (decons $cases) $list (eval (switch-internal $atom $list))))
(= (switch-internal $atom (($pattern $template) $tail))
  (match $atom $pattern $template (eval (switch $atom $tail))))

(= (subst $atom $var $templ)
  (match $atom $var $templ
    (Error (subst $atom $var $templ)
      \"subst expects a variable as a second argument\") ))

(= (reduce $atom $var $templ)
  (chain (eval $atom) $res
    (eval (if-error $res $res
      (eval (if-empty $res
        (eval (subst $atom $var $templ))
        (eval (reduce $res $var $templ)) ))))))

(= (type-cast $atom $type $space)
  (chain (eval (get-type $atom $space)) $actual-type
    (eval (switch ($actual-type $type)
      (
        ((%Undefined% $_) $atom)
        (($_ %Undefined%) $atom)
        (($type $_) $atom)
        ($_ (Error $atom BadType)) )))))

(= (is-function $type)
  (chain (eval (get-metatype $type)) $meta
    (eval (switch ($type $meta)
      (
        (($_ Expression)
          (chain (eval (car $type)) $head
            (match $head -> True False) ))
        ($_ False) )))))

(= (interpret $atom $type $space)
  (chain (eval (get-metatype $atom)) $meta
    (eval (switch ($type $meta)
      (
        ((Atom $_meta) $atom)
        (($meta $meta) $atom)
        (($_type Variable) $atom)

        (($_type Symbol) (eval (type-cast $atom $type $space)))
        (($_type Grounded) (eval (type-cast $atom $type $space)))
        (($_type Expression) (eval (interpret-expression $atom $type $space))) )))))

(= (interpret-expression $atom $type $space)
  (eval (if-decons $atom $op $args
    (chain (eval (get-type $op $space)) $op-type
      (chain (eval (is-function $op-type)) $is-func
        (match $is-func True
          (chain (eval (interpret-func $atom $op-type $space)) $reduced-atom
            (eval (call $reduced-atom $type $space)) )
          (chain (eval (interpret-tuple $atom $space)) $reduced-atom
            (eval (call $reduced-atom $type $space)) ))))
    (eval (type-cast $atom $type $space)) )))

(= (interpret-func $expr $type $space)
  (eval (if-decons $expr $op $args
    (chain (eval (interpret $op $type $space)) $reduced-op
      (eval (return-on-error $reduced-op
        (eval (if-decons $type $arrow $arg-types
          (chain (eval (interpret-args $expr $args $arg-types $space)) $reduced-args
            (eval (return-on-error $reduced-args
              (cons $reduced-op $reduced-args) )))
          (Error $type \"Function type expected\") )))))
    (Error $expr \"Non-empty expression atom is expected\") )))

(= (interpret-args $atom $args $arg-types $space)
  (match $args ()
    (match $arg-types ($ret) () (Error $atom BadType))
    (eval (if-decons $args $head $tail
      (eval (if-decons $arg-types $head-type $tail-types
        (chain (eval (interpret $head $head-type $space)) $reduced-head
          (eval (if-equal $reduced-head $head
            (eval (interpret-args-tail $atom $reduced-head $tail $tail-types $space))
            (eval (return-on-error $reduced-head
              (eval (interpret-args-tail $atom $reduced-head $tail $tail-types $space)) )))))
        (Error $atom BadType) ))
      (Error (interpret-atom $atom $args $arg-types $space)
        \"Non-empty expression atom is expected\") ))))

(= (interpret-args-tail $atom $head $args-tail $args-tail-types $space)
  (chain (eval (interpret-args $atom $args-tail $args-tail-types $space)) $reduced-tail
    (eval (return-on-error $reduced-tail
      (cons $head $reduced-tail) ))))

(= (interpret-tuple $atom $space)
  (match $atom ()
    $atom
    (eval (if-decons $atom $head $tail
      (chain (eval (interpret $head %Undefined% $space)) $rhead
        (chain (eval (interpret-tuple $tail $space)) $rtail
          (cons $rhead $rtail) ))
      (Error (interpret-tuple $atom $space) \"Non-empty expression atom is expected as an argument\") ))))

(= (call $atom $type $space)
  (chain (eval $atom) $result
    (eval (if-empty $result $atom
      (eval (if-error $result $result
        (eval (interpret $result $type $space)) ))))))

";

/// How many steps the runner gives the reduction of one atom.
pub const MAX_STEPS: u64 = 1000000000000;

/// A grounded atom that is plain data or an operation, matched by equality.
pub open spec fn grounded(value: HostView, do_execute: ExecuteFn) -> AtomView {
    AtomView::Grounded(GroundedView { value, do_match: MatchFn::Equality, do_execute })
}

/// The rule that makes the operation of the hook `f` of the token `name`.
pub open spec fn operation_rule(name: Seq<char>, f: ExecuteFn) -> (PatternView, ConstructorView) {
    (PatternView::Exact(name), ConstructorView::Constant(grounded(HostView::Op(f), f)))
}

/// The rules for the operations on types and on equivalence.
pub open spec fn common_tokens() -> Seq<(PatternView, ConstructorView)> {
    seq![
        operation_rule("get-type"@, ExecuteFn::GetType),
        operation_rule("get-metatype"@, ExecuteFn::GetMetaType),
        operation_rule("if-equal"@, ExecuteFn::IfEqual),
    ]
}

/// The rule for the handle to the space of the runner.
pub open spec fn runner_tokens() -> Seq<(PatternView, ConstructorView)> {
    seq![
        (
            PatternView::Exact("&self"@),
            ConstructorView::Constant(grounded(HostView::Space, ExecuteFn::NotImplemented)),
        ),
    ]
}

/// The rules for integers, truth values and arithmetic.
pub open spec fn rust_tokens() -> Seq<(PatternView, ConstructorView)> {
    seq![
        (PatternView::Digits, ConstructorView::Integer),
        (
            PatternView::Exact("True"@),
            ConstructorView::Constant(grounded(HostView::Truth(true), ExecuteFn::NotImplemented)),
        ),
        (
            PatternView::Exact("False"@),
            ConstructorView::Constant(grounded(HostView::Truth(false), ExecuteFn::NotImplemented)),
        ),
        operation_rule("+"@, ExecuteFn::Sum),
        operation_rule("-"@, ExecuteFn::Sub),
        operation_rule("*"@, ExecuteFn::Mul),
        operation_rule("/"@, ExecuteFn::Div),
        operation_rule("%"@, ExecuteFn::Mod),
    ]
}

/// A space together with the table of tokens by which programs are read.
#[derive(Debug)]
pub struct Metta {
    pub space: GroundingSpace,
    pub tokenizer: Tokenizer,
}

fn register_operation(tokenizer: &mut Tokenizer, name: &str, f: ExecuteFn)
    ensures
        final(tokenizer)@ == old(tokenizer)@.push(operation_rule(name@, f)),
{
    tokenizer.register_token(
        TokenPattern::Exact(str_to_string(name)),
        TokenConstructor::Constant(Atom::gnd(HostValue::Op(f), MatchFn::Equality, f)),
    );
}

/// Registers the operations on types and on equivalence: `get-type`,
/// `get-metatype` and `if-equal`.
pub fn register_common_tokens(metta: &mut Metta)
    ensures
        final(metta).tokenizer@ == old(metta).tokenizer@ + common_tokens(),
        final(metta).space@ == old(metta).space@,
{
    register_operation(&mut metta.tokenizer, "get-type", ExecuteFn::GetType);
    register_operation(&mut metta.tokenizer, "get-metatype", ExecuteFn::GetMetaType);
    register_operation(&mut metta.tokenizer, "if-equal", ExecuteFn::IfEqual);
    assert(metta.tokenizer@ =~= old(metta).tokenizer@ + common_tokens());
}

/// Registers `&self`, the handle to the space of the runner.
pub fn register_runner_tokens(metta: &mut Metta)
    ensures
        final(metta).tokenizer@ == old(metta).tokenizer@ + runner_tokens(),
        final(metta).space@ == old(metta).space@,
{
    metta.tokenizer.register_token(
        TokenPattern::Exact(str_to_string("&self")),
        TokenConstructor::Constant(
            Atom::gnd(HostValue::Space, MatchFn::Equality, ExecuteFn::NotImplemented),
        ),
    );
    assert(metta.tokenizer@ =~= old(metta).tokenizer@ + runner_tokens());
}

/// Registers integers, `True` and `False`, and the arithmetic operations
/// `+ - * / %`, below the rules that are already there.
pub fn register_rust_tokens(metta: &mut Metta)
    ensures
        final(metta).tokenizer@ == rust_tokens() + old(metta).tokenizer@,
        final(metta).space@ == old(metta).space@,
{
    let mut tokens = Tokenizer::new();
    tokens.register_token(TokenPattern::Digits, TokenConstructor::Integer);
    tokens.register_token(
        TokenPattern::Exact(str_to_string("True")),
        TokenConstructor::Constant(
            Atom::gnd(HostValue::Truth(true), MatchFn::Equality, ExecuteFn::NotImplemented),
        ),
    );
    tokens.register_token(
        TokenPattern::Exact(str_to_string("False")),
        TokenConstructor::Constant(
            Atom::gnd(HostValue::Truth(false), MatchFn::Equality, ExecuteFn::NotImplemented),
        ),
    );
    register_operation(&mut tokens, "+", ExecuteFn::Sum);
    register_operation(&mut tokens, "-", ExecuteFn::Sub);
    register_operation(&mut tokens, "*", ExecuteFn::Mul);
    register_operation(&mut tokens, "/", ExecuteFn::Div);
    register_operation(&mut tokens, "%", ExecuteFn::Mod);
    assert(tokens@ =~= rust_tokens());
    metta.tokenizer.move_front(&mut tokens);
}

/// The table of tokens of a runner made by `new_metta_rust`.
pub open spec fn standard_tokens() -> Seq<(PatternView, ConstructorView)> {
    rust_tokens() + common_tokens() + runner_tokens()
}

/// The atoms of a text read with the given tokens, or none where the text
/// cannot be read.
pub open spec fn atoms_of(text: Seq<char>, tokens: Seq<(PatternView, ConstructorView)>) -> Seq<
    AtomView,
> {
    match parse_all(text, tokens, 0, Seq::empty()) {
        Ok(atoms) => atoms,
        Err(_) => Seq::empty(),
    }
}

/// The space that holds the atoms of a text, read without any token rule:
/// every token is a symbol or a variable.
pub fn metta_space(text: &str) -> (r: GroundingSpace)
    ensures
        r@ == atoms_of(text@, Seq::empty()),
{
    let tokenizer = Tokenizer::new();
    let mut space = GroundingSpace::new();
    match parse_program(text, &tokenizer) {
        Ok(atoms) => {
            add_all(&mut space, atoms);
            assert(space@ =~= atoms_of(text@, Seq::empty()));
        },
        Err(_) => {},
    }
    space
}

fn add_all(space: &mut GroundingSpace, atoms: Vec<Atom>)
    ensures
        final(space)@ == old(space)@ + atoms_view(atoms@),
{
    let mut i: usize = 0;
    assert(space@ =~= old(space)@ + atoms_view(atoms@).take(0));
    while i < atoms.len()
        invariant
            0 <= i <= atoms.len(),
            space@ == old(space)@ + atoms_view(atoms@).take(i as int),
        decreases atoms.len() - i,
    {
        let ghost before = space@;
        space.add(atoms[i].clone());
        assert(space@ =~= old(space)@ + atoms_view(atoms@).take(i + 1));
        i += 1;
    }
    assert(atoms_view(atoms@).take(atoms.len() as int) =~= atoms_view(atoms@));
}

/// A runner with the standard tokens, whose space holds the rules of the
/// reducer.
pub fn new_metta_rust() -> (r: Metta)
    ensures
        r.tokenizer@ == standard_tokens(),
        r.space@ == atoms_of(METTA_CODE@, standard_tokens()),
{
    let mut metta = Metta { space: GroundingSpace::new(), tokenizer: Tokenizer::new() };
    register_common_tokens(&mut metta);
    register_runner_tokens(&mut metta);
    register_rust_tokens(&mut metta);
    assert(metta.tokenizer@ =~= standard_tokens());
    match parse_program(METTA_CODE, &metta.tokenizer) {
        Ok(atoms) => {
            add_all(&mut metta.space, atoms);
            assert(metta.space@ =~= atoms_of(METTA_CODE@, standard_tokens()));
        },
        Err(_) => {},
    }
    metta
}

/// Mathematical value of the outcome of a run: the space after it, and the
/// results of the atoms that were to be evaluated, one sequence for each,
/// or the error that ended the run.
pub struct RunView {
    pub space: Seq<AtomView>,
    pub outcome: Result<Seq<Seq<AtomView>>, Seq<char>>,
}

/// Runs the atoms from position `i` on. The symbol `!` marks the atom after
/// it as one to evaluate; every other atom is added to the space.
pub open spec fn run_from(
    space: Seq<AtomView>,
    atoms: Seq<AtomView>,
    i: int,
    evaluate: bool,
    results: Seq<Seq<AtomView>>,
) -> RunView
    decreases atoms.len() - i,
{
    if i < 0 || i >= atoms.len() {
        RunView { space, outcome: Ok(results) }
    } else if atoms[i] == AtomView::Symbol("!"@) {
        run_from(space, atoms, i + 1, true, results)
    } else if evaluate {
        match interpret_spec(space, atoms[i], MAX_STEPS as nat) {
            Err(e) => RunView { space, outcome: Err(e) },
            Ok(r) => run_from(space, atoms, i + 1, false, results.push(r)),
        }
    } else {
        run_from(space.push(atoms[i]), atoms, i + 1, false, results)
    }
}

/// What running a program text gives in a space with a table of tokens.
pub open spec fn run_spec(
    space: Seq<AtomView>,
    tokens: Seq<(PatternView, ConstructorView)>,
    program: Seq<char>,
) -> RunView {
    match parse_all(program, tokens, 0, Seq::empty()) {
        Err(e) => RunView { space, outcome: Err(e) },
        Ok(atoms) => run_from(space, atoms, 0, false, Seq::empty()),
    }
}

/// Views of a sequence of groups of atoms.
pub open spec fn groups_view(s: Seq<Vec<Atom>>) -> Seq<Seq<AtomView>> {
    Seq::new(s.len(), |i: int| atoms_view(s[i]@))
}

/// The view of the outcome of a run.
pub open spec fn run_outcome_view(r: Result<Vec<Vec<Atom>>, String>) -> Result<
    Seq<Seq<AtomView>>,
    Seq<char>,
> {
    match r {
        Ok(v) => Ok(groups_view(v@)),
        Err(e) => Err(e@),
    }
}

impl Metta {
    /// A runner with an empty space and no token rules.
    pub fn new() -> (r: Self)
        ensures
            r.space@ == Seq::<AtomView>::empty(),
            r.tokenizer@ == Seq::<(PatternView, ConstructorView)>::empty(),
    {
        Metta { space: GroundingSpace::new(), tokenizer: Tokenizer::new() }
    }

    /// Runs a program: reads its atoms, adds each to the space, and
    /// evaluates each atom that follows a `!`. Gives the results of the
    /// evaluations in order.
    pub fn run(&mut self, program: &str) -> (r: Result<Vec<Vec<Atom>>, String>)
        ensures
            final(self).tokenizer@ == old(self).tokenizer@,
            final(self).space@ == run_spec(old(self).space@, old(self).tokenizer@, program@).space,
            run_outcome_view(r) == run_spec(
                old(self).space@,
                old(self).tokenizer@,
                program@,
            ).outcome,
    {
        let atoms = match parse_program(program, &self.tokenizer) {
            Err(e) => {
                return Err(e);
            },
            Ok(atoms) => atoms,
        };
        let ghost av = atoms_view(atoms@);
        let mut results: Vec<Vec<Atom>> = Vec::new();
        let mut evaluate = false;
        let mut i: usize = 0;
        assert(groups_view(results@) =~= Seq::empty());
        while i < atoms.len()
            invariant
                0 <= i <= atoms.len(),
                av == atoms_view(atoms@),
                self.tokenizer@ == old(self).tokenizer@,
                parse_all(program@, old(self).tokenizer@, 0, Seq::empty()) == Ok::<
                    Seq<AtomView>,
                    Seq<char>,
                >(av),
                run_from(self.space@, av, i as int, evaluate, groups_view(results@)) == run_from(
                    old(self).space@,
                    av,
                    0,
                    false,
                    Seq::empty(),
                ),
            decreases atoms.len() - i,
        {
            assert(av[i as int] == atoms@[i as int]@);
            let ghost before = groups_view(results@);
            if is_symbol(&atoms[i], "!") {
                evaluate = true;
            } else if evaluate {
                match interpret(&self.space, &atoms[i], MAX_STEPS) {
                    Err(e) => {
                        return Err(e);
                    },
                    Ok(r) => {
                        results.push(r);
                        assert(groups_view(results@) =~= before.push(atoms_view(r@)));
                    },
                }
                evaluate = false;
            } else {
                self.space.add(atoms[i].clone());
            }
            i += 1;
        }
        Ok(results)
    }
}

} // verus!
