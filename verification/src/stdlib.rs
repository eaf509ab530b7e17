//! The built-in operations: what each hook of a grounded atom computes when
//! the atom is applied to arguments.

use crate::atom::{
    atoms_view, lemma_atom_view, Atom, AtomView, ExecuteFn, GroundedAtom, HostValue, HostView,
    MatchFn,
};
use crate::display::{hook_name, hook_name_str};
use crate::matcher::{
    atoms_are_equivalent, default_match, default_match_spec, equivalent, results_view,
    MatchResult,
};
use crate::space::GroundingSpace;
use crate::strings::str_to_string;
use crate::types::{
    get_atom_types, get_grounded_type, get_meta_type, hook_type, meta_type, types_of,
};
use vstd::prelude::*;

verus! {

/// The view of the outcome of an execution.
pub open spec fn outcome_view(r: Result<Vec<Atom>, String>) -> Result<Seq<AtomView>, Seq<char>> {
    match r {
        Ok(v) => Ok(atoms_view(v@)),
        Err(e) => Err(e@),
    }
}

/// Whether the atom is the handle to the space of the evaluation.
pub open spec fn is_space(a: AtomView) -> bool {
    a matches AtomView::Grounded(g) && g.value == HostView::Space
}

/// The integer of the language as an atom.
pub open spec fn number(n: int) -> AtomView {
    AtomView::Grounded(
        crate::atom::GroundedView {
            value: HostView::Number(n),
            do_match: MatchFn::Equality,
            do_execute: ExecuteFn::NotImplemented,
        },
    )
}

/// The quotient of `x` by `d`, rounded towards zero.
pub open spec fn quotient(x: int, d: int) -> int {
    if x == 0 {
        0
    } else if x > 0 && d > 0 {
        x / d
    } else if x < 0 && d < 0 {
        (x * -1) / (d * -1)
    } else if x < 0 {
        ((x * -1) / d) * -1
    } else {
        (x / (d * -1)) * -1
    }
}

/// The remainder of `x` by `d`, with the sign of `x`.
pub open spec fn remainder(x: int, d: int) -> int {
    if x == 0 {
        0
    } else if x > 0 && d > 0 {
        x % d
    } else if x < 0 && d < 0 {
        ((x * -1) % (d * -1)) * -1
    } else if x < 0 {
        ((x * -1) % d) * -1
    } else {
        x % (d * -1)
    }
}

/// The result of an arithmetic hook on two integers, where it is defined
/// and fits in 64 bits.
pub open spec fn arithmetic(f: ExecuteFn, x: int, y: int) -> Option<int> {
    let r: Option<int> = match f {
        ExecuteFn::Sum => Some(x + y),
        ExecuteFn::Sub => Some(x - y),
        ExecuteFn::Mul => Some(x * y),
        ExecuteFn::Div => if y == 0 {
            None
        } else {
            Some(quotient(x, y))
        },
        ExecuteFn::Mod => if y == 0 || (x == i64::MIN && y == -1) {
            None
        } else {
            Some(remainder(x, y))
        },
        _ => None,
    };
    match r {
        Some(v) => if i64::MIN <= v <= i64::MAX {
            r
        } else {
            None
        },
        None => None,
    }
}

/// The integer that the atom holds, where it is a number of the language.
pub open spec fn number_of(a: AtomView) -> Option<int> {
    match a {
        AtomView::Grounded(g) => match g.value {
            HostView::Number(n) => Some(n),
            _ => None,
        },
        _ => None,
    }
}

/// What the arithmetic hook `f` gives on the arguments.
pub open spec fn arithmetic_spec(f: ExecuteFn, args: Seq<AtomView>) -> Result<
    Seq<AtomView>,
    Seq<char>,
> {
    if args.len() == 2 && number_of(args[0]) is Some && number_of(args[1]) is Some {
        match arithmetic(f, number_of(args[0])->Some_0, number_of(args[1])->Some_0) {
            Some(v) => Ok(seq![number(v)]),
            None => Err(hook_name(f) + " is not defined on these numbers"@),
        }
    } else {
        Err(hook_name(f) + " expects two number arguments"@)
    }
}

/// What `get-type` gives: the types of its first argument in the space.
pub open spec fn get_type_spec(space: Seq<AtomView>, args: Seq<AtomView>, tag: nat) -> Result<
    Seq<AtomView>,
    Seq<char>,
> {
    if args.len() < 2 {
        Err("get-type expects single atom as an argument"@)
    } else if !is_space(args[1]) {
        Err("match expects a space as the first argument"@)
    } else {
        Ok(types_of(space, args[0], tag))
    }
}

/// What `get-metatype` gives: the metatype of its argument.
pub open spec fn get_meta_type_spec(args: Seq<AtomView>) -> Result<Seq<AtomView>, Seq<char>> {
    if args.len() < 1 {
        Err("get-metatype expects single atom as an argument"@)
    } else {
        Ok(seq![meta_type(args[0])])
    }
}

/// What `if-equal` gives: its third argument where the first two are
/// equivalent, its fourth where they are not.
pub open spec fn if_equal_spec(args: Seq<AtomView>) -> Result<Seq<AtomView>, Seq<char>> {
    if args.len() < 4 {
        Err("if-equal expects <atom> <pattern> <then> <else> as an argument"@)
    } else if equivalent(args[0], args[1]) {
        Ok(seq![args[2]])
    } else {
        Ok(seq![args[3]])
    }
}

/// What the hook `f` gives on the arguments, in the space.
pub open spec fn execute_spec(space: Seq<AtomView>, f: ExecuteFn, args: Seq<AtomView>, tag: nat)
    -> Result<Seq<AtomView>, Seq<char>> {
    match f {
        ExecuteFn::NotImplemented => Err("Execute is not implemented"@),
        ExecuteFn::GetType => get_type_spec(space, args, tag),
        ExecuteFn::GetMetaType => get_meta_type_spec(args),
        ExecuteFn::IfEqual => if_equal_spec(args),
        _ => arithmetic_spec(f, args),
    }
}

/// The hook of atoms that are plain data: it refuses every call.
pub fn default_execute(_args: &mut Vec<Atom>) -> (r: Result<Vec<Atom>, String>)
    ensures
        outcome_view(r) == Err::<Seq<AtomView>, Seq<char>>("Execute is not implemented"@),
        *final(_args) == *old(_args),
{
    Err(str_to_string("Execute is not implemented"))
}

/// The integer of the language as an atom.
pub fn number_atom(n: i64) -> (r: Atom)
    ensures
        r@ == number(n as int),
{
    Atom::gnd(HostValue::Number(n), MatchFn::Equality, ExecuteFn::NotImplemented)
}

/// The integer that the atom holds, where it is a number of the language.
pub fn as_number(atom: &Atom) -> (r: Option<i64>)
    ensures
        match r {
            Some(n) => number_of(atom@) == Some(n as int),
            None => number_of(atom@) is None,
        },
{
    proof {
        lemma_atom_view(*atom);
    }
    match atom {
        Atom::Grounded(g) => match g.value() {
            HostValue::Number(n) => Some(*n),
            _ => None,
        },
        _ => None,
    }
}

/// Whether the atom is the handle to the space of the evaluation.
pub fn is_space_atom(atom: &Atom) -> (r: bool)
    ensures
        r == is_space(atom@),
{
    proof {
        lemma_atom_view(*atom);
    }
    match atom {
        Atom::Grounded(g) => match g.value() {
            HostValue::Space => true,
            _ => false,
        },
        _ => false,
    }
}

/// Runs an arithmetic hook on the arguments.
pub fn execute_arithmetic(f: ExecuteFn, args: &Vec<Atom>) -> (r: Result<Vec<Atom>, String>)
    requires
        f == ExecuteFn::Sum || f == ExecuteFn::Sub || f == ExecuteFn::Mul || f == ExecuteFn::Div
            || f == ExecuteFn::Mod,
    ensures
        outcome_view(r) == arithmetic_spec(f, atoms_view(args@)),
{
    if args.len() == 2 {
        assert(atoms_view(args@)[0] == args@[0]@);
        assert(atoms_view(args@)[1] == args@[1]@);
        match (as_number(&args[0]), as_number(&args[1])) {
            (Some(x), Some(y)) => {
                let v = match f {
                    ExecuteFn::Sum => x.checked_add(y),
                    ExecuteFn::Sub => x.checked_sub(y),
                    ExecuteFn::Mul => x.checked_mul(y),
                    ExecuteFn::Div => x.checked_div(y),
                    _ => x.checked_rem(y),
                };
                match v {
                    Some(n) => {
                        let mut out: Vec<Atom> = Vec::new();
                        out.push(number_atom(n));
                        assert(atoms_view(out@) =~= seq![number(n as int)]);
                        return Ok(out);
                    },
                    None => {
                        let mut msg = str_to_string(hook_name_str(f));
                        msg.append(" is not defined on these numbers");
                        return Err(msg);
                    },
                }
            },
            _ => {},
        }
    }
    let mut msg = str_to_string(hook_name_str(f));
    msg.append(" expects two number arguments");
    Err(msg)
}

/// The operation `get-type`.
#[derive(Clone, Copy, Debug, PartialEq, Eq, Structural)]
pub struct GetTypeOp {}

impl GetTypeOp {
    /// The type of the operation.
    pub fn type_(&self) -> (r: Atom)
        ensures
            r@ == hook_type(ExecuteFn::GetType),
    {
        get_grounded_type(&self.to_grounded())
    }

    /// The operation as a grounded atom.
    pub fn to_grounded(&self) -> (r: GroundedAtom)
        ensures
            r@ == (crate::atom::GroundedView {
                value: HostView::Op(ExecuteFn::GetType),
                do_match: MatchFn::Equality,
                do_execute: ExecuteFn::GetType,
            }),
    {
        GroundedAtom::new(
            HostValue::Op(ExecuteFn::GetType),
            MatchFn::Equality,
            ExecuteFn::GetType,
        )
    }

    /// The types that the space gives the first argument; the second
    /// argument is the handle to the space.
    pub fn execute(&self, args: &Vec<Atom>, space: &GroundingSpace, tag: u64) -> (r: Result<
        Vec<Atom>,
        String,
    >)
        requires
            tag < u64::MAX,
        ensures
            outcome_view(r) == get_type_spec(space@, atoms_view(args@), tag as nat),
    {
        if args.len() < 2 {
            return Err(str_to_string("get-type expects single atom as an argument"));
        }
        assert(atoms_view(args@)[0] == args@[0]@);
        assert(atoms_view(args@)[1] == args@[1]@);
        if !is_space_atom(&args[1]) {
            return Err(str_to_string("match expects a space as the first argument"));
        }
        Ok(get_atom_types(space, &args[0], tag))
    }

    /// The matches of the operation against an atom: one that binds
    /// nothing where the atom is this operation, none otherwise.
    pub fn match_(&self, other: &Atom) -> (r: Vec<MatchResult>)
        ensures
            results_view(r@) == default_match_spec(HostView::Op(ExecuteFn::GetType), other@),
    {
        default_match(&HostValue::Op(ExecuteFn::GetType), other)
    }
}

/// The operation `get-metatype`.
#[derive(Clone, Copy, Debug, PartialEq, Eq, Structural)]
pub struct GetMetaTypeOp {}

impl GetMetaTypeOp {
    /// The type of the operation.
    pub fn type_(&self) -> (r: Atom)
        ensures
            r@ == hook_type(ExecuteFn::GetMetaType),
    {
        get_grounded_type(&self.to_grounded())
    }

    /// The operation as a grounded atom.
    pub fn to_grounded(&self) -> (r: GroundedAtom)
        ensures
            r@ == (crate::atom::GroundedView {
                value: HostView::Op(ExecuteFn::GetMetaType),
                do_match: MatchFn::Equality,
                do_execute: ExecuteFn::GetMetaType,
            }),
    {
        GroundedAtom::new(
            HostValue::Op(ExecuteFn::GetMetaType),
            MatchFn::Equality,
            ExecuteFn::GetMetaType,
        )
    }

    /// The metatype of the first argument.
    pub fn execute(&self, args: &Vec<Atom>) -> (r: Result<Vec<Atom>, String>)
        ensures
            outcome_view(r) == get_meta_type_spec(atoms_view(args@)),
    {
        if args.len() < 1 {
            return Err(str_to_string("get-metatype expects single atom as an argument"));
        }
        assert(atoms_view(args@)[0] == args@[0]@);
        let mut out: Vec<Atom> = Vec::new();
        out.push(get_meta_type(&args[0]));
        assert(atoms_view(out@) =~= seq![meta_type(args@[0]@)]);
        Ok(out)
    }

    /// The matches of the operation against an atom.
    pub fn match_(&self, other: &Atom) -> (r: Vec<MatchResult>)
        ensures
            results_view(r@) == default_match_spec(HostView::Op(ExecuteFn::GetMetaType), other@),
    {
        default_match(&HostValue::Op(ExecuteFn::GetMetaType), other)
    }
}

/// The operation `if-equal`.
#[derive(Clone, Copy, Debug, PartialEq, Eq, Structural)]
pub struct IfEqualOp {}

impl IfEqualOp {
    /// The type of the operation.
    pub fn type_(&self) -> (r: Atom)
        ensures
            r@ == hook_type(ExecuteFn::IfEqual),
    {
        get_grounded_type(&self.to_grounded())
    }

    /// The operation as a grounded atom.
    pub fn to_grounded(&self) -> (r: GroundedAtom)
        ensures
            r@ == (crate::atom::GroundedView {
                value: HostView::Op(ExecuteFn::IfEqual),
                do_match: MatchFn::Equality,
                do_execute: ExecuteFn::IfEqual,
            }),
    {
        GroundedAtom::new(
            HostValue::Op(ExecuteFn::IfEqual),
            MatchFn::Equality,
            ExecuteFn::IfEqual,
        )
    }

    /// The third argument where the first two are equivalent, the fourth
    /// where they are not.
    pub fn execute(&self, args: &Vec<Atom>) -> (r: Result<Vec<Atom>, String>)
        ensures
            outcome_view(r) == if_equal_spec(atoms_view(args@)),
    {
        if args.len() < 4 {
            return Err(
                str_to_string("if-equal expects <atom> <pattern> <then> <else> as an argument"),
            );
        }
        assert(atoms_view(args@)[0] == args@[0]@);
        assert(atoms_view(args@)[1] == args@[1]@);
        assert(atoms_view(args@)[2] == args@[2]@);
        assert(atoms_view(args@)[3] == args@[3]@);
        let mut out: Vec<Atom> = Vec::new();
        if atoms_are_equivalent(&args[0], &args[1]) {
            out.push(args[2].clone());
            assert(atoms_view(out@) =~= seq![args@[2]@]);
        } else {
            out.push(args[3].clone());
            assert(atoms_view(out@) =~= seq![args@[3]@]);
        }
        Ok(out)
    }

    /// The matches of the operation against an atom.
    pub fn match_(&self, other: &Atom) -> (r: Vec<MatchResult>)
        ensures
            results_view(r@) == default_match_spec(HostView::Op(ExecuteFn::IfEqual), other@),
    {
        default_match(&HostValue::Op(ExecuteFn::IfEqual), other)
    }
}

impl GroundedAtom {
    /// Applies the atom to the arguments by its execute hook. Operations on
    /// the space read `space`; queries use the tags `tag` and `tag + 1`.
    pub fn execute(&self, args: &Vec<Atom>, space: &GroundingSpace, tag: u64) -> (r: Result<
        Vec<Atom>,
        String,
    >)
        requires
            tag < u64::MAX,
        ensures
            outcome_view(r) == execute_spec(
                space@,
                self@.do_execute,
                atoms_view(args@),
                tag as nat,
            ),
    {
        match self.execute_fn() {
            ExecuteFn::NotImplemented => Err(str_to_string("Execute is not implemented")),
            ExecuteFn::GetType => (GetTypeOp {  }).execute(args, space, tag),
            ExecuteFn::GetMetaType => (GetMetaTypeOp {  }).execute(args),
            ExecuteFn::IfEqual => (IfEqualOp {  }).execute(args),
            ExecuteFn::Sum => execute_arithmetic(ExecuteFn::Sum, args),
            ExecuteFn::Sub => execute_arithmetic(ExecuteFn::Sub, args),
            ExecuteFn::Mul => execute_arithmetic(ExecuteFn::Mul, args),
            ExecuteFn::Div => execute_arithmetic(ExecuteFn::Div, args),
            ExecuteFn::Mod => execute_arithmetic(ExecuteFn::Mod, args),
        }
    }
}

} // verus!
