//! The reducer. An atom is reduced step by step: `eval` rewrites by the
//! equalities of the space or runs a grounded operation, `chain` feeds a
//! result into a template, `match` branches on a match, `cons` and
//! `decons` build and split expressions. Everything else is defined by
//! equalities in the space itself.

use crate::atom::{
    atoms_view, lemma_atom_view, lemma_children_decrease, Atom, AtomView, ExecuteFn, VarView,
    VariableAtom,
};
use crate::display::display;
use crate::matcher::{
    apply, apply_bindings_to_atom, bindings_view, match_atoms, match_atoms_spec, Bindings,
};
use crate::space::{query_from, GroundingSpace};
use crate::stdlib::{execute_spec, outcome_view};
use crate::strings::str_to_string;
use crate::types::is_symbol;
use vstd::prelude::*;

verus! {

/// The atom that stands for the absence of a result.
pub open spec fn empty_atom() -> AtomView {
    AtomView::Symbol("Empty"@)
}

/// The error atom `(Error subject message)`.
pub open spec fn error_atom(subject: AtomView, message: Seq<char>) -> AtomView {
    AtomView::Expression(seq![AtomView::Symbol("Error"@), subject, AtomView::Symbol(message)])
}

/// Whether the atom is an expression headed by one of the five
/// instructions of the reducer.
pub open spec fn is_embedded_op(a: AtomView) -> bool {
    a matches AtomView::Expression(c) && c.len() > 0 && (c[0] == AtomView::Symbol("eval"@) || c[0]
        == AtomView::Symbol("chain"@) || c[0] == AtomView::Symbol("match"@) || c[0]
        == AtomView::Symbol("cons"@) || c[0] == AtomView::Symbol("decons"@))
}

/// The bindings that bind nothing.
pub open spec fn no_bindings() -> Seq<(VarView, AtomView)> {
    Seq::empty()
}

/// The variable that stands for the result in the query that `eval` makes.
pub open spec fn result_var(tag: nat) -> AtomView {
    AtomView::Variable(VarView { name: "X"@, id: tag })
}

/// The results of `eval` on `x`. Where equalities `(= lhs rhs)` of the
/// space match `x` by their left side, each gives its right side under the
/// match. Where none does and `x` applies an executable grounded atom,
/// the atom is executed: its results, or the error atom with its message.
/// Where that gives nothing either, the result is `Empty`.
pub open spec fn eval_spec(space: Seq<AtomView>, x: AtomView, tag: nat) -> Seq<
    (AtomView, Seq<(VarView, AtomView)>),
> {
    let found = query_from(
        space,
        AtomView::Expression(seq![AtomView::Symbol("="@), x, result_var(tag)]),
        tag + 1,
        0,
    );
    if found.len() > 0 {
        Seq::new(found.len(), |k: int| (apply(found[k], result_var(tag)), found[k]))
    } else {
        match grounded_call(x) {
            Some(f) => match execute_spec(space, f, x->Expression_0.skip(1), tag) {
                Err(message) => seq![(error_atom(x, message), no_bindings())],
                Ok(results) => if results.len() > 0 {
                    Seq::new(results.len(), |k: int| (results[k], no_bindings()))
                } else {
                    seq![(empty_atom(), no_bindings())]
                },
            },
            None => seq![(empty_atom(), no_bindings())],
        }
    }
}

/// The execute hook of the head of the expression, where the head is a
/// grounded atom that can be executed.
pub open spec fn grounded_call(x: AtomView) -> Option<ExecuteFn> {
    match x {
        AtomView::Expression(c) => if c.len() > 0 {
            match c[0] {
                AtomView::Grounded(g) => if g.do_execute != ExecuteFn::NotImplemented {
                    Some(g.do_execute)
                } else {
                    None
                },
                _ => None,
            }
        } else {
            None
        },
        _ => None,
    }
}

/// The results of `(match atom pattern then else)`: `then` under each match
/// of the atom with the pattern, or `else` where there is none.
pub open spec fn match_spec(a: AtomView, p: AtomView, then: AtomView, otherwise: AtomView) -> Seq<
    (AtomView, Seq<(VarView, AtomView)>),
> {
    let found = match_atoms_spec(a, p);
    if found.len() == 0 {
        seq![(otherwise, no_bindings())]
    } else {
        Seq::new(found.len(), |k: int| (apply(found[k], then), found[k]))
    }
}

/// The expression `(head x1 ... xn)` for the tail `(x1 ... xn)`.
pub open spec fn cons_spec(head: AtomView, tail: Seq<AtomView>) -> AtomView {
    AtomView::Expression(seq![head] + tail)
}

/// The expression `(x1 (x2 ... xn))` for the non-empty `(x1 ... xn)`.
pub open spec fn decons_spec(c: Seq<AtomView>) -> AtomView {
    AtomView::Expression(seq![c[0], AtomView::Expression(c.skip(1))])
}

/// Splitting undoes building: `decons` of `(head x1 ... xn)` gives the head
/// and the tail `(x1 ... xn)` that `cons` put together.
pub proof fn law_decons_of_cons(head: AtomView, tail: Seq<AtomView>)
    ensures
        cons_spec(head, tail) matches AtomView::Expression(c) && c.len() == tail.len() + 1
            && decons_spec(c) == AtomView::Expression(seq![head, AtomView::Expression(tail)]),
{
    let c = cons_spec(head, tail)->Expression_0;
    assert(c.skip(1) =~= tail);
}

/// The chain instruction around a reduced nested atom.
pub open spec fn rechain(c: Seq<AtomView>, r: (AtomView, Seq<(VarView, AtomView)>)) -> (
    AtomView,
    Seq<(VarView, AtomView)>,
) {
    (AtomView::Expression(seq![c[0], r.0, c[2], apply(r.1, c[3])]), r.1)
}

/// One step of reduction of an atom: its results, each with the bindings
/// the step gave to the variables of the atom. An atom that is no
/// instruction is its own single result. An instruction that is not
/// written as it has to be gives an error atom.
pub open spec fn step(space: Seq<AtomView>, atom: AtomView, tag: nat) -> Seq<
    (AtomView, Seq<(VarView, AtomView)>),
>
    decreases atom,
{
    match atom {
        AtomView::Expression(c) => if c.len() == 0 {
            seq![(atom, no_bindings())]
        } else if c[0] == AtomView::Symbol("eval"@) {
            if c.len() == 2 {
                eval_spec(space, c[1], tag)
            } else {
                seq![
                    (
                        error_atom(atom, "expected: (eval <atom>), found: "@ + display(atom)),
                        no_bindings(),
                    ),
                ]
            }
        } else if c[0] == AtomView::Symbol("chain"@) {
            if c.len() == 4 && c[2] is Variable {
                if is_embedded_op(c[1]) {
                    let inner = step(space, c[1], tag);
                    Seq::new(inner.len(), |k: int| rechain(c, inner[k]))
                } else {
                    seq![(apply(seq![(c[2]->Variable_0, c[1])], c[3]), no_bindings())]
                }
            } else {
                seq![
                    (
                        error_atom(
                            atom,
                            "expected: (chain <nested> (: <var> Variable) <templ>), found: "@
                                + display(atom),
                        ),
                        no_bindings(),
                    ),
                ]
            }
        } else if c[0] == AtomView::Symbol("match"@) {
            if c.len() == 5 {
                match_spec(c[1], c[2], c[3], c[4])
            } else {
                seq![
                    (
                        error_atom(
                            atom,
                            "expected: (match <atom> <pattern> <then> <else>), found: "@ + display(
                                atom,
                            ),
                        ),
                        no_bindings(),
                    ),
                ]
            }
        } else if c[0] == AtomView::Symbol("decons"@) {
            if c.len() == 2 && c[1] is Expression && c[1]->Expression_0.len() > 0 {
                seq![(decons_spec(c[1]->Expression_0), no_bindings())]
            } else {
                seq![
                    (
                        error_atom(
                            atom,
                            "expected: (decons (: <expr> Expression)), found: "@ + display(atom),
                        ),
                        no_bindings(),
                    ),
                ]
            }
        } else if c[0] == AtomView::Symbol("cons"@) {
            if c.len() == 3 && c[2] is Expression {
                seq![(cons_spec(c[1], c[2]->Expression_0), no_bindings())]
            } else {
                seq![
                    (
                        error_atom(
                            atom,
                            "expected: (cons <head> (: <tail> Expression)), found: "@ + display(
                                atom,
                            ),
                        ),
                        no_bindings(),
                    ),
                ]
            }
        } else {
            seq![(atom, no_bindings())]
        },
        _ => seq![(atom, no_bindings())],
    }
}

/// Views of a sequence of results of a step.
pub open spec fn steps_view(s: Seq<(Atom, Bindings)>) -> Seq<(AtomView, Seq<(VarView, AtomView)>)> {
    Seq::new(s.len(), |i: int| (s[i].0@, s[i].1@))
}

/// Whether the atom is an expression headed by an instruction.
pub fn is_embedded(atom: &Atom) -> (r: bool)
    ensures
        r == is_embedded_op(atom@),
{
    proof {
        lemma_atom_view(*atom);
    }
    match atom {
        Atom::Expression(e) => {
            let c = e.children();
            if c.len() == 0 {
                return false;
            }
            assert(atoms_view(c@)[0] == c@[0]@);
            is_symbol(&c[0], "eval") || is_symbol(&c[0], "chain") || is_symbol(&c[0], "match")
                || is_symbol(&c[0], "cons") || is_symbol(&c[0], "decons")
        },
        _ => false,
    }
}

/// The error atom `(Error subject message)`.
pub fn make_error(subject: Atom, message: String) -> (r: Atom)
    ensures
        r@ == error_atom(subject@, message@),
{
    let mut parts: Vec<Atom> = Vec::new();
    parts.push(Atom::sym("Error"));
    parts.push(subject);
    parts.push(Atom::sym(message.as_str()));
    let r = Atom::expr_vec(parts);
    assert(r@->Expression_0 =~= error_atom(subject@, message@)->Expression_0);
    r
}

fn single(atom: Atom) -> (r: Vec<(Atom, Bindings)>)
    ensures
        steps_view(r@) == seq![(atom@, no_bindings())],
{
    let mut out: Vec<(Atom, Bindings)> = Vec::new();
    out.push((atom, Bindings::new()));
    assert(steps_view(out@) =~= seq![(atom@, no_bindings())]);
    out
}

fn misuse(atom: &Atom, expected: &str) -> (r: Vec<(Atom, Bindings)>)
    ensures
        steps_view(r@) == seq![(error_atom(atom@, expected@ + display(atom@)), no_bindings())],
{
    let mut message = str_to_string(expected);
    let text = atom.to_string();
    message.append(text.as_str());
    single(make_error(atom.clone(), message))
}

/// The results of `eval` on `x` in the space. The query uses the tags
/// `tag` and `tag + 1` for its own variables.
pub fn eval(space: &GroundingSpace, x: &Atom, tag: u64) -> (r: Vec<(Atom, Bindings)>)
    requires
        tag < u64::MAX,
    ensures
        steps_view(r@) == eval_spec(space@, x@, tag as nat),
{
    let xv = Atom::Variable(VariableAtom::new_id(str_to_string("X"), tag));
    proof {
        lemma_atom_view(xv);
        lemma_atom_view(*x);
    }
    let mut parts: Vec<Atom> = Vec::new();
    parts.push(Atom::sym("="));
    parts.push(x.clone());
    parts.push(xv.clone());
    let pattern = Atom::expr_vec(parts);
    assert(pattern@->Expression_0 =~= seq![AtomView::Symbol("="@), x@, result_var(tag as nat)]);
    let mut found = space.query(&pattern, tag + 1);
    let ghost fv = bindings_view(found@);
    if found.len() > 0 {
        let mut out: Vec<(Atom, Bindings)> = Vec::new();
        let n = found.len();
        let mut k: usize = 0;
        // The results are taken from the back, so the output is built in
        // reverse and turned round at the end.
        while k < n
            invariant
                0 <= k <= n,
                n == fv.len(),
                found.len() == n - k,
                xv@ == result_var(tag as nat),
                bindings_view(found@) == fv.take(n - k),
                out.len() == k,
                forall|j: int|
                    0 <= j < k ==> (#[trigger] out@[j]).0@ == apply(fv[n - 1 - j], xv@)
                        && out@[j].1@ == fv[n - 1 - j],
            decreases n - k,
        {
            let ghost before = bindings_view(found@);
            let s = found.pop().unwrap();
            assert(s@ == before[n - k - 1]);
            assert(bindings_view(found@) =~= fv.take(n - k - 1));
            let value = apply_bindings_to_atom(&xv, &s);
            out.push((value, s));
            k += 1;
        }
        let mut result: Vec<(Atom, Bindings)> = Vec::new();
        let mut j: usize = 0;
        while j < n
            invariant
                0 <= j <= n,
                out.len() == n - j,
                result.len() == j,
                n == fv.len(),
                forall|i: int|
                    0 <= i < n - j ==> (#[trigger] out@[i]).0@ == apply(
                        fv[n - 1 - i],
                        result_var(tag as nat),
                    ) && out@[i].1@ == fv[n - 1 - i],
                forall|i: int|
                    0 <= i < j ==> (#[trigger] result@[i]).0@ == apply(
                        fv[i],
                        result_var(tag as nat),
                    ) && result@[i].1@ == fv[i],
            decreases n - j,
        {
            let ghost last = out@[n - j - 1];
            let item = out.pop().unwrap();
            assert(item == last);
            result.push(item);
            j += 1;
        }
        assert(steps_view(result@) =~= eval_spec(space@, x@, tag as nat));
        return result;
    }
    if let Atom::Expression(e) = x {
        let c = e.children();
        if c.len() > 0 {
            assert(atoms_view(c@)[0] == c@[0]@);
            proof {
                lemma_atom_view(c@[0]);
            }
            if let Atom::Grounded(g) = &c[0] {
                if g.execute_fn() != ExecuteFn::NotImplemented {
                    let mut args: Vec<Atom> = Vec::new();
                    let mut i: usize = 1;
                    while i < c.len()
                        invariant
                            1 <= i <= c.len(),
                            args.len() == i - 1,
                            forall|j: int| 0 <= j < i - 1 ==> args@[j]@ == c@[j + 1]@,
                        decreases c.len() - i,
                    {
                        args.push(c[i].clone());
                        i += 1;
                    }
                    assert(atoms_view(args@) =~= x@->Expression_0.skip(1));
                    let outcome = g.execute(&args, space, tag);
                    match outcome {
                        Err(message) => {
                            return single(make_error(x.clone(), message));
                        },
                        Ok(mut results) => {
                            if results.len() > 0 {
                                let ghost rv = atoms_view(results@);
                                let n = results.len();
                                let mut rev: Vec<Atom> = Vec::new();
                                let mut k: usize = 0;
                                while k < n
                                    invariant
                                        0 <= k <= n,
                                        n == rv.len(),
                                        results.len() == n - k,
                                        rev.len() == k,
                                        atoms_view(results@) == rv.take(n - k),
                                        forall|j: int| 0 <= j < k ==> rev@[j]@ == rv[n - 1 - j],
                                    decreases n - k,
                                {
                                    let ghost before = atoms_view(results@);
                                    let a = results.pop().unwrap();
                                    assert(a@ == before[n - k - 1]);
                                    assert(atoms_view(results@) =~= rv.take(n - k - 1));
                                    rev.push(a);
                                    k += 1;
                                }
                                let mut out: Vec<(Atom, Bindings)> = Vec::new();
                                let mut j: usize = 0;
                                while j < n
                                    invariant
                                        0 <= j <= n,
                                        n == rv.len(),
                                        rev.len() == n - j,
                                        out.len() == j,
                                        forall|i: int| 0 <= i < n - j ==> rev@[i]@ == rv[n - 1 - i],
                                        forall|i: int|
                                            0 <= i < j ==> (#[trigger] out@[i]).0@ == rv[i]
                                                && out@[i].1@ == no_bindings(),
                                    decreases n - j,
                                {
                                    let ghost last = rev@[n - j - 1];
                                    let a = rev.pop().unwrap();
                                    assert(a == last);
                                    out.push((a, Bindings::new()));
                                    j += 1;
                                }
                                assert(steps_view(out@) =~= eval_spec(space@, x@, tag as nat));
                                return out;
                            }
                        },
                    }
                }
            }
        }
    }
    single(Atom::sym("Empty"))
}

/// The expression `(x1 (x2 ... xn))` for the non-empty `(x1 ... xn)`.
pub fn decons(c: &Vec<Atom>) -> (r: Atom)
    requires
        c.len() > 0,
    ensures
        r@ == decons_spec(atoms_view(c@)),
{
    let mut tail: Vec<Atom> = Vec::new();
    let mut i: usize = 1;
    while i < c.len()
        invariant
            1 <= i <= c.len(),
            tail.len() == i - 1,
            forall|j: int| 0 <= j < i - 1 ==> tail@[j]@ == c@[j + 1]@,
        decreases c.len() - i,
    {
        tail.push(c[i].clone());
        i += 1;
    }
    assert(atoms_view(tail@) =~= atoms_view(c@).skip(1));
    let mut parts: Vec<Atom> = Vec::new();
    parts.push(c[0].clone());
    parts.push(Atom::expr_vec(tail));
    let r = Atom::expr_vec(parts);
    assert(r@->Expression_0 =~= decons_spec(atoms_view(c@))->Expression_0);
    r
}

/// The expression `(head x1 ... xn)` for the tail `(x1 ... xn)`.
pub fn cons(head: &Atom, tail: &Vec<Atom>) -> (r: Atom)
    ensures
        r@ == cons_spec(head@, atoms_view(tail@)),
{
    let mut parts: Vec<Atom> = Vec::new();
    parts.push(head.clone());
    let mut i: usize = 0;
    while i < tail.len()
        invariant
            0 <= i <= tail.len(),
            parts.len() == i + 1,
            parts@[0]@ == head@,
            forall|j: int| 0 <= j < i ==> parts@[j + 1]@ == tail@[j]@,
        decreases tail.len() - i,
    {
        parts.push(tail[i].clone());
        i += 1;
    }
    let r = Atom::expr_vec(parts);
    assert(r@->Expression_0 =~= cons_spec(head@, atoms_view(tail@))->Expression_0);
    r
}

fn do_match_step(a: &Atom, p: &Atom, then: &Atom, otherwise: &Atom) -> (r: Vec<(Atom, Bindings)>)
    ensures
        steps_view(r@) == match_spec(a@, p@, then@, otherwise@),
{
    let found = match_atoms(a, p);
    if found.len() == 0 {
        return single(otherwise.clone());
    }
    let mut out: Vec<(Atom, Bindings)> = Vec::new();
    let mut k: usize = 0;
    while k < found.len()
        invariant
            0 <= k <= found.len(),
            out.len() == k,
            forall|j: int|
                0 <= j < k ==> (#[trigger] out@[j]).0@ == apply(found@[j]@, then@) && out@[j].1@
                    == found@[j]@,
        decreases found.len() - k,
    {
        let value = apply_bindings_to_atom(then, &found[k]);
        out.push((value, found[k].clone()));
        k += 1;
    }
    assert(steps_view(out@) =~= match_spec(a@, p@, then@, otherwise@)) by {
        assert(forall|j: int| 0 <= j < found.len() ==> bindings_view(found@)[j] == found@[j]@);
    }
    out
}

/// One step of reduction of an atom in the space. Queries use the tags
/// `tag` and `tag + 1` for their own variables.
pub fn interpret_atom(space: &GroundingSpace, atom: &Atom, tag: u64) -> (r: Vec<(Atom, Bindings)>)
    requires
        tag < u64::MAX,
    ensures
        steps_view(r@) == step(space@, atom@, tag as nat),
    decreases atom,
{
    proof {
        lemma_atom_view(*atom);
        lemma_children_decrease(*atom);
    }
    match atom {
        Atom::Expression(e) => {
            let c = e.children();
            if c.len() == 0 {
                return single(atom.clone());
            }
            assert(forall|j: int| 0 <= j < c.len() ==> atoms_view(c@)[j] == c@[j]@);
            if is_symbol(&c[0], "eval") {
                if c.len() == 2 {
                    eval(space, &c[1], tag)
                } else {
                    misuse(atom, "expected: (eval <atom>), found: ")
                }
            } else if is_symbol(&c[0], "chain") {
                proof {
                    if c.len() == 4 {
                        lemma_atom_view(c@[2]);
                    }
                }
                if c.len() == 4 {
                    if let Atom::Variable(var) = &c[2] {
                        if is_embedded(&c[1]) {
                            let mut inner = interpret_atom(space, &c[1], tag);
                            let ghost iv = steps_view(inner@);
                            let n = inner.len();
                            let mut rev: Vec<(Atom, Bindings)> = Vec::new();
                            let mut k: usize = 0;
                            while k < n
                                invariant
                                    0 <= k <= n,
                                    n == iv.len(),
                                    c.len() == 4,
                                    inner.len() == n - k,
                                    rev.len() == k,
                                    steps_view(inner@) == iv.take(n - k),
                                    forall|j: int| 0 <= j < 4 ==> atoms_view(c@)[j] == c@[j]@,
                                    forall|j: int|
                                        0 <= j < k ==> ((#[trigger] rev@[j]).0@, rev@[j].1@)
                                            == rechain(atoms_view(c@), iv[n - 1 - j]),
                                decreases n - k,
                            {
                                let ghost before = steps_view(inner@);
                                let (r, s) = inner.pop().unwrap();
                                assert((r@, s@) == before[n - k - 1]);
                                assert(steps_view(inner@) =~= iv.take(n - k - 1));
                                let templ = apply_bindings_to_atom(&c[3], &s);
                                let mut parts: Vec<Atom> = Vec::new();
                                parts.push(c[0].clone());
                                parts.push(r);
                                parts.push(c[2].clone());
                                parts.push(templ);
                                let wrapped = Atom::expr_vec(parts);
                                assert(wrapped@->Expression_0 =~= rechain(
                                    atoms_view(c@),
                                    iv[n - 1 - k],
                                ).0->Expression_0);
                                rev.push((wrapped, s));
                                k += 1;
                            }
                            let mut out: Vec<(Atom, Bindings)> = Vec::new();
                            let mut j: usize = 0;
                            while j < n
                                invariant
                                    0 <= j <= n,
                                    n == iv.len(),
                                    rev.len() == n - j,
                                    out.len() == j,
                                    forall|i: int|
                                        0 <= i < n - j ==> ((#[trigger] rev@[i]).0@, rev@[i].1@)
                                            == rechain(atoms_view(c@), iv[n - 1 - i]),
                                    forall|i: int|
                                        0 <= i < j ==> ((#[trigger] out@[i]).0@, out@[i].1@)
                                            == rechain(atoms_view(c@), iv[i]),
                                decreases n - j,
                            {
                                let ghost last = rev@[n - j - 1];
                                let item = rev.pop().unwrap();
                                assert(item == last);
                                out.push(item);
                                j += 1;
                            }
                            assert(steps_view(out@) =~= step(space@, atom@, tag as nat));
                            return out;
                        } else {
                            let one = Bindings::new().with(var.clone(), c[1].clone());
                            return single(apply_bindings_to_atom(&c[3], &one));
                        }
                    }
                }
                misuse(atom, "expected: (chain <nested> (: <var> Variable) <templ>), found: ")
            } else if is_symbol(&c[0], "match") {
                if c.len() == 5 {
                    do_match_step(&c[1], &c[2], &c[3], &c[4])
                } else {
                    misuse(atom, "expected: (match <atom> <pattern> <then> <else>), found: ")
                }
            } else if is_symbol(&c[0], "decons") {
                proof {
                    if c.len() == 2 {
                        lemma_atom_view(c@[1]);
                    }
                }
                if c.len() == 2 {
                    if let Atom::Expression(inner) = &c[1] {
                        let ic = inner.children();
                        if ic.len() > 0 {
                            return single(decons(ic));
                        }
                    }
                }
                misuse(atom, "expected: (decons (: <expr> Expression)), found: ")
            } else if is_symbol(&c[0], "cons") {
                proof {
                    if c.len() == 3 {
                        lemma_atom_view(c@[2]);
                    }
                }
                if c.len() == 3 {
                    if let Atom::Expression(tail) = &c[2] {
                        return single(cons(&c[1], tail.children()));
                    }
                }
                misuse(atom, "expected: (cons <head> (: <tail> Expression)), found: ")
            } else {
                single(atom.clone())
            }
        },
        _ => single(atom.clone()),
    }
}


/// Mathematical value of the state of a reduction: the atoms still to be
/// reduced, the last of them next; the results so far; the next free tag.
pub struct StateView {
    pub plan: Seq<AtomView>,
    pub finished: Seq<AtomView>,
    pub next_tag: nat,
}

/// The state of a reduction.
#[derive(Debug)]
pub struct InterpreterState {
    plan: Vec<Atom>,
    finished: Vec<Atom>,
    next_tag: u64,
}

impl View for InterpreterState {
    type V = StateView;

    closed spec fn view(&self) -> StateView {
        StateView {
            plan: atoms_view(self.plan@),
            finished: atoms_view(self.finished@),
            next_tag: self.next_tag as nat,
        }
    }
}

/// The results from position `i` on that are instructions, the first of
/// them last, so that it is the next to be reduced.
pub open spec fn planned_from(results: Seq<(AtomView, Seq<(VarView, AtomView)>)>, i: int) -> Seq<
    AtomView,
>
    decreases results.len() - i,
{
    if i < 0 || i >= results.len() {
        Seq::empty()
    } else if is_embedded_op(results[i].0) {
        planned_from(results, i + 1).push(results[i].0)
    } else {
        planned_from(results, i + 1)
    }
}

/// The results from position `i` on that are final: neither instructions
/// nor `Empty`.
pub open spec fn finished_from(results: Seq<(AtomView, Seq<(VarView, AtomView)>)>, i: int) -> Seq<
    AtomView,
>
    decreases results.len() - i,
{
    if i < 0 || i >= results.len() {
        Seq::empty()
    } else if !is_embedded_op(results[i].0) && results[i].0 != empty_atom() {
        seq![results[i].0] + finished_from(results, i + 1)
    } else {
        finished_from(results, i + 1)
    }
}

/// The state before the first step: the atom is to be reduced where it is
/// an instruction, and is the result where it is not.
pub open spec fn initial_state(atom: AtomView) -> StateView {
    if is_embedded_op(atom) {
        StateView { plan: seq![atom], finished: Seq::empty(), next_tag: 1 }
    } else {
        StateView { plan: Seq::empty(), finished: seq![atom], next_tag: 1 }
    }
}

/// The state after one step: the last atom of the plan is reduced, the
/// instructions among its results join the plan, the final ones among them
/// join the results, and two tags are used up.
pub open spec fn step_state(space: Seq<AtomView>, st: StateView) -> StateView {
    let results = step(space, st.plan.last(), st.next_tag);
    StateView {
        plan: st.plan.drop_last() + planned_from(results, 0),
        finished: st.finished + finished_from(results, 0),
        next_tag: st.next_tag + 2,
    }
}

/// The state after as many steps as it takes to empty the plan, or after
/// `fuel` steps, or when the tags run out, whichever comes first.
pub open spec fn run(space: Seq<AtomView>, st: StateView, fuel: nat) -> StateView
    decreases fuel,
{
    if st.plan.len() == 0 || fuel == 0 || st.next_tag + 2 > u64::MAX {
        st
    } else {
        run(space, step_state(space, st), (fuel - 1) as nat)
    }
}

/// The outcome of reducing an atom in a space within `fuel` steps: the
/// results, or an error where the reduction did not come to an end.
pub open spec fn interpret_spec(space: Seq<AtomView>, atom: AtomView, fuel: nat) -> Result<
    Seq<AtomView>,
    Seq<char>,
> {
    let end = run(space, initial_state(atom), fuel);
    if end.plan.len() == 0 {
        Ok(end.finished)
    } else {
        Err("evaluation did not finish within the step limit"@)
    }
}

impl InterpreterState {
    /// Whether there is an atom left to reduce.
    pub fn has_next(&self) -> (r: bool)
        ensures
            r == (self@.plan.len() > 0),
    {
        self.plan.len() > 0
    }

    /// Whether a further step has the two tags it needs.
    pub fn has_tags(&self) -> (r: bool)
        ensures
            r == (self@.next_tag + 2 <= u64::MAX),
    {
        self.next_tag <= u64::MAX - 2
    }

    /// The results reached so far.
    pub fn into_result(self) -> (r: Vec<Atom>)
        ensures
            atoms_view(r@) == self@.finished,
    {
        self.finished
    }
}

/// The state in which the reduction of an atom begins.
pub fn interpret_init(atom: &Atom) -> (r: InterpreterState)
    ensures
        r@ == initial_state(atom@),
{
    let mut plan: Vec<Atom> = Vec::new();
    let mut finished: Vec<Atom> = Vec::new();
    if is_embedded(atom) {
        plan.push(atom.clone());
    } else {
        finished.push(atom.clone());
    }
    let r = InterpreterState { plan, finished, next_tag: 1 };
    assert(r@.plan =~= initial_state(atom@).plan);
    assert(r@.finished =~= initial_state(atom@).finished);
    r
}

/// One step of the reduction.
pub fn interpret_step(space: &GroundingSpace, state: InterpreterState) -> (r: InterpreterState)
    requires
        state@.plan.len() > 0,
        state@.next_tag + 2 <= u64::MAX,
    ensures
        r@ == step_state(space@, state@),
{
    let InterpreterState { mut plan, mut finished, next_tag } = state;
    let ghost plan0 = atoms_view(plan@);
    let ghost finished0 = atoms_view(finished@);
    let atom = plan.pop().unwrap();
    assert(atom@ == plan0.last());
    assert(atoms_view(plan@) =~= plan0.drop_last());
    let results = interpret_atom(space, &atom, next_tag);
    let ghost rv = steps_view(results@);
    let mut i: usize = 0;
    while i < results.len()
        invariant
            0 <= i <= results.len(),
            rv == steps_view(results@),
            atoms_view(finished@) + finished_from(rv, i as int) == finished0 + finished_from(rv, 0),
        decreases results.len() - i,
    {
        let ghost before = atoms_view(finished@);
        assert(rv[i as int].0 == results@[i as int].0@);
        let a = &results[i].0;
        if !is_embedded(a) && !is_symbol(a, "Empty") {
            finished.push(a.clone());
            assert(atoms_view(finished@) =~= before.push(a@));
        }
        assert(atoms_view(finished@) + finished_from(rv, i + 1) =~= before + finished_from(
            rv,
            i as int,
        ));
        i += 1;
    }
    assert(atoms_view(finished@) =~= finished0 + finished_from(rv, 0));
    let mut k: usize = results.len();
    while k > 0
        invariant
            0 <= k <= results.len(),
            rv == steps_view(results@),
            atoms_view(plan@) == plan0.drop_last() + planned_from(rv, k as int),
        decreases k,
    {
        let ghost before = atoms_view(plan@);
        k -= 1;
        assert(rv[k as int].0 == results@[k as int].0@);
        let a = &results[k].0;
        if is_embedded(a) {
            plan.push(a.clone());
            assert(atoms_view(plan@) =~= before.push(a@));
        }
        assert(atoms_view(plan@) =~= plan0.drop_last() + planned_from(rv, k as int));
    }
    InterpreterState { plan, finished, next_tag: next_tag + 2 }
}

/// Reduces an atom in a space: steps until nothing is left to reduce, and
/// gives the results in the order in which they were reached. Stops with
/// an error after `max_steps` steps.
pub fn interpret(space: &GroundingSpace, atom: &Atom, max_steps: u64) -> (r: Result<
    Vec<Atom>,
    String,
>)
    ensures
        outcome_view(r) == interpret_spec(space@, atom@, max_steps as nat),
{
    let mut state = interpret_init(atom);
    let mut steps: u64 = 0;
    while state.has_next() && steps < max_steps && state.has_tags()
        invariant
            0 <= steps <= max_steps,
            run(space@, state@, (max_steps - steps) as nat) == run(
                space@,
                initial_state(atom@),
                max_steps as nat,
            ),
        decreases max_steps - steps,
    {
        state = interpret_step(space, state);
        steps += 1;
    }
    if state.has_next() {
        Err(str_to_string("evaluation did not finish within the step limit"))
    } else {
        Ok(state.into_result())
    }
}

} // verus!
