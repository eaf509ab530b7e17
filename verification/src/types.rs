//! Types of atoms: what a space declares of an atom by `(: atom type)`, and
//! what follows for the application of a function to arguments.

use crate::atom::{
    atoms_view, lemma_atom_view, lemma_children_decrease, Atom, AtomView, ExecuteFn,
    GroundedAtom, GroundedView, HostValue, HostView, VarView, VariableAtom,
};
use crate::matcher::{apply, apply_bindings_to_atom, bindings_view};
use crate::space::{query_from, GroundingSpace};
use crate::strings::{str_eq, str_to_string};
use vstd::prelude::*;

verus! {

/// The type of atoms of which nothing is declared.
pub open spec fn undefined_type() -> AtomView {
    AtomView::Symbol("%Undefined%"@)
}

/// The type that every atom has as it stands, unreduced.
pub open spec fn atom_type() -> AtomView {
    AtomView::Symbol("Atom"@)
}

/// The symbol that heads a function type.
pub open spec fn arrow() -> AtomView {
    AtomView::Symbol("->"@)
}

/// The metatype of an atom: the name of its variant.
pub open spec fn meta_type(a: AtomView) -> AtomView {
    match a {
        AtomView::Symbol(_) => AtomView::Symbol("Symbol"@),
        AtomView::Variable(_) => AtomView::Symbol("Variable"@),
        AtomView::Expression(_) => AtomView::Symbol("Expression"@),
        AtomView::Grounded(_) => AtomView::Symbol("Grounded"@),
    }
}

/// The function type with the given argument types and result type, all
/// the same symbol, `n` of them in all.
pub open spec fn uniform_arrow(name: Seq<char>, n: nat) -> AtomView {
    AtomView::Expression(
        Seq::new(
            n + 1,
            |i: int|
                if i == 0 {
                    arrow()
                } else {
                    AtomView::Symbol(name)
                },
        ),
    )
}

/// The type of the operation that a hook runs.
pub open spec fn hook_type(f: ExecuteFn) -> AtomView {
    match f {
        ExecuteFn::NotImplemented => undefined_type(),
        ExecuteFn::GetType => uniform_arrow("Atom"@, 3),
        ExecuteFn::GetMetaType => uniform_arrow("Atom"@, 2),
        ExecuteFn::IfEqual => uniform_arrow("Atom"@, 5),
        _ => uniform_arrow("Number"@, 3),
    }
}

/// The type of a grounded atom: `Number` and `Bool` for the values of the
/// language, the type of its operation for an atom that can be executed.
pub open spec fn grounded_type(g: GroundedView) -> AtomView {
    match g.value {
        HostView::Number(_) => AtomView::Symbol("Number"@),
        HostView::Truth(_) => AtomView::Symbol("Bool"@),
        _ => hook_type(g.do_execute),
    }
}

/// The variable that stands for the type in a query for declarations.
pub open spec fn type_var(tag: nat) -> AtomView {
    AtomView::Variable(VarView { name: "X"@, id: tag })
}

/// The types that the space declares of the atom, in the order of the
/// declarations.
pub open spec fn declared_types(space: Seq<AtomView>, a: AtomView, tag: nat) -> Seq<AtomView> {
    let found = query_from(
        space,
        AtomView::Expression(seq![AtomView::Symbol(":"@), a, type_var(tag)]),
        tag + 1,
        0,
    );
    Seq::new(found.len(), |k: int| apply(found[k], type_var(tag)))
}

/// Whether a type is a function type: an expression headed by the arrow.
pub open spec fn is_function_type(t: AtomView) -> bool {
    t matches AtomView::Expression(f) && f.len() > 0 && f[0] == arrow()
}

/// Whether an argument of the type `actual` can stand where the type
/// `expected` is asked for.
pub open spec fn type_matches(expected: AtomView, actual: AtomView) -> bool {
    expected == undefined_type() || actual == undefined_type() || expected == atom_type()
        || expected is Variable || actual is Variable || expected == actual
}

/// Whether one of the types from position `j` on matches `expected`.
pub open spec fn any_match_from(expected: AtomView, types: Seq<AtomView>, j: int) -> bool
    decreases types.len() - j,
{
    if j < 0 || j >= types.len() {
        false
    } else {
        type_matches(expected, types[j]) || any_match_from(expected, types, j + 1)
    }
}

/// Whether one of the types from position `k` on is a function type.
pub open spec fn has_function_from(types: Seq<AtomView>, k: int) -> bool
    decreases types.len() - k,
{
    if k < 0 || k >= types.len() {
        false
    } else {
        is_function_type(types[k]) || has_function_from(types, k + 1)
    }
}

/// The types of an atom in a space. A variable has the undefined type, a
/// grounded atom its own type, a symbol its declared types or else the
/// undefined type. An expression has its declared types and, for each
/// function type of its head that its arguments fit, the result type; it
/// has the undefined type where that leaves nothing and its head is no
/// function.
pub open spec fn types_of(space: Seq<AtomView>, a: AtomView, tag: nat) -> Seq<AtomView>
    decreases a, 0nat, 0nat,
{
    match a {
        AtomView::Variable(_) => seq![undefined_type()],
        AtomView::Grounded(g) => seq![grounded_type(g)],
        AtomView::Symbol(_) => {
            let declared = declared_types(space, a, tag);
            if declared.len() == 0 {
                seq![undefined_type()]
            } else {
                declared
            }
        },
        AtomView::Expression(ch) => {
            let declared = declared_types(space, a, tag);
            if ch.len() == 0 {
                if declared.len() == 0 {
                    seq![undefined_type()]
                } else {
                    declared
                }
            } else {
                let op_types = types_of(space, ch[0], tag);
                let all = declared + application_types_from(space, ch, op_types, 0, tag);
                if all.len() == 0 && !has_function_from(op_types, 0) {
                    seq![undefined_type()]
                } else {
                    all
                }
            }
        },
    }
}

/// The result types of the function types from position `k` on that the
/// arguments of the expression fit.
pub open spec fn application_types_from(
    space: Seq<AtomView>,
    ch: Seq<AtomView>,
    op_types: Seq<AtomView>,
    k: int,
    tag: nat,
) -> Seq<AtomView>
    decreases ch, 3nat, op_types.len() - k,
{
    if k < 0 || k >= op_types.len() {
        Seq::empty()
    } else {
        application_type(space, ch, op_types[k], tag) + application_types_from(
            space,
            ch,
            op_types,
            k + 1,
            tag,
        )
    }
}

/// The result type of one function type, where the arguments fit it.
pub open spec fn application_type(
    space: Seq<AtomView>,
    ch: Seq<AtomView>,
    op_type: AtomView,
    tag: nat,
) -> Seq<AtomView>
    decreases ch, 2nat, 0nat,
{
    match op_type {
        AtomView::Expression(f) => if f.len() > 0 && f[0] == arrow() && f.len() == ch.len() + 1
            && arguments_fit_from(space, ch, f, 1, tag) {
            seq![f[f.len() - 1]]
        } else {
            Seq::empty()
        },
        _ => Seq::empty(),
    }
}

/// Whether each argument from position `i` on has a type that matches the
/// type the function asks for at that position.
pub open spec fn arguments_fit_from(
    space: Seq<AtomView>,
    ch: Seq<AtomView>,
    f: Seq<AtomView>,
    i: int,
    tag: nat,
) -> bool
    decreases ch, 1nat, ch.len() - i + 1,
{
    if i < 0 || i >= ch.len() || i >= f.len() {
        true
    } else {
        any_match_from(f[i], types_of(space, ch[i], tag), 0) && arguments_fit_from(
            space,
            ch,
            f,
            i + 1,
            tag,
        )
    }
}

/// Whether the atom is the symbol of the given name.
pub fn is_symbol(atom: &Atom, name: &str) -> (r: bool)
    ensures
        r == (atom@ == AtomView::Symbol(name@)),
{
    proof {
        lemma_atom_view(*atom);
    }
    match atom {
        Atom::Symbol(s) => str_eq(s.name(), name),
        _ => false,
    }
}

/// The metatype of an atom: one of the four symbols `Symbol`, `Variable`,
/// `Expression` and `Grounded`.
pub fn get_meta_type(atom: &Atom) -> (r: Atom)
    ensures
        r@ == meta_type(atom@),
        r@ == AtomView::Symbol("Symbol"@) || r@ == AtomView::Symbol("Variable"@) || r@
            == AtomView::Symbol("Expression"@) || r@ == AtomView::Symbol("Grounded"@),
{
    proof {
        lemma_atom_view(*atom);
    }
    match atom {
        Atom::Symbol(_) => Atom::sym("Symbol"),
        Atom::Variable(_) => Atom::sym("Variable"),
        Atom::Expression(_) => Atom::sym("Expression"),
        Atom::Grounded(_) => Atom::sym("Grounded"),
    }
}

fn uniform_arrow_atom(name: &str, n: usize) -> (r: Atom)
    ensures
        r@ == uniform_arrow(name@, n as nat),
{
    let mut out: Vec<Atom> = Vec::new();
    out.push(Atom::sym("->"));
    let mut i: usize = 0;
    while i < n
        invariant
            0 <= i <= n,
            out.len() == i + 1,
            out@[0]@ == arrow(),
            forall|j: int| 1 <= j <= i ==> out@[j]@ == AtomView::Symbol(name@),
        decreases n - i,
    {
        out.push(Atom::sym(name));
        i += 1;
    }
    let r = Atom::expr_vec(out);
    assert(r@->Expression_0 =~= uniform_arrow(name@, n as nat)->Expression_0);
    r
}

/// The type of a grounded atom.
pub fn get_grounded_type(g: &GroundedAtom) -> (r: Atom)
    ensures
        r@ == grounded_type(g@),
{
    match g.value() {
        HostValue::Number(_) => Atom::sym("Number"),
        HostValue::Truth(_) => Atom::sym("Bool"),
        _ => match g.execute_fn() {
            ExecuteFn::NotImplemented => Atom::sym("%Undefined%"),
            ExecuteFn::GetType => uniform_arrow_atom("Atom", 3),
            ExecuteFn::GetMetaType => uniform_arrow_atom("Atom", 2),
            ExecuteFn::IfEqual => uniform_arrow_atom("Atom", 5),
            _ => uniform_arrow_atom("Number", 3),
        },
    }
}

fn get_declared_types(space: &GroundingSpace, atom: &Atom, tag: u64) -> (r: Vec<Atom>)
    requires
        tag < u64::MAX,
    ensures
        atoms_view(r@) == declared_types(space@, atom@, tag as nat),
{
    let x = Atom::Variable(VariableAtom::new_id(str_to_string("X"), tag));
    proof {
        lemma_atom_view(x);
    }
    let mut parts: Vec<Atom> = Vec::new();
    parts.push(Atom::sym(":"));
    parts.push(atom.clone());
    parts.push(x.clone());
    let pattern = Atom::expr_vec(parts);
    assert(pattern@->Expression_0 =~= seq![AtomView::Symbol(":"@), atom@, type_var(tag as nat)]);
    let found = space.query(&pattern, tag + 1);
    let mut out: Vec<Atom> = Vec::new();
    let mut k: usize = 0;
    while k < found.len()
        invariant
            0 <= k <= found.len(),
            out.len() == k,
            x@ == type_var(tag as nat),
            forall|j: int| 0 <= j < k ==> out@[j]@ == apply(found@[j]@, x@),
        decreases found.len() - k,
    {
        out.push(apply_bindings_to_atom(&x, &found[k]));
        k += 1;
    }
    assert(atoms_view(out@) =~= declared_types(space@, atom@, tag as nat)) by {
        assert(forall|j: int| 0 <= j < found.len() ==> bindings_view(found@)[j] == found@[j]@);
    }
    out
}

fn type_fits(expected: &Atom, actual: &Atom) -> (r: bool)
    ensures
        r == type_matches(expected@, actual@),
{
    proof {
        lemma_atom_view(*expected);
        lemma_atom_view(*actual);
    }
    if is_symbol(expected, "%Undefined%") || is_symbol(actual, "%Undefined%") || is_symbol(
        expected,
        "Atom",
    ) {
        return true;
    }
    if let Atom::Variable(_) = expected {
        return true;
    }
    if let Atom::Variable(_) = actual {
        return true;
    }
    crate::atom::atom_eq(expected, actual)
}

fn any_type_fits(expected: &Atom, types: &Vec<Atom>) -> (r: bool)
    ensures
        r == any_match_from(expected@, atoms_view(types@), 0),
{
    let mut j: usize = 0;
    while j < types.len()
        invariant
            0 <= j <= types.len(),
            any_match_from(expected@, atoms_view(types@), j as int) == any_match_from(
                expected@,
                atoms_view(types@),
                0,
            ),
        decreases types.len() - j,
    {
        assert(atoms_view(types@)[j as int] == types@[j as int]@);
        if type_fits(expected, &types[j]) {
            return true;
        }
        j += 1;
    }
    false
}

fn is_function(t: &Atom) -> (r: bool)
    ensures
        r == is_function_type(t@),
{
    proof {
        lemma_atom_view(*t);
    }
    match t {
        Atom::Expression(e) => {
            let f = e.children();
            if f.len() == 0 {
                return false;
            }
            assert(atoms_view(f@)[0] == f@[0]@);
            is_symbol(&f[0], "->")
        },
        _ => false,
    }
}

fn has_function(types: &Vec<Atom>) -> (r: bool)
    ensures
        r == has_function_from(atoms_view(types@), 0),
{
    let mut k: usize = 0;
    while k < types.len()
        invariant
            0 <= k <= types.len(),
            has_function_from(atoms_view(types@), k as int) == has_function_from(
                atoms_view(types@),
                0,
            ),
        decreases types.len() - k,
    {
        assert(atoms_view(types@)[k as int] == types@[k as int]@);
        if is_function(&types[k]) {
            return true;
        }
        k += 1;
    }
    false
}

fn arguments_fit(space: &GroundingSpace, ch: &Vec<Atom>, f: &Vec<Atom>, tag: u64) -> (r: bool)
    requires
        tag < u64::MAX,
    ensures
        r == arguments_fit_from(space@, atoms_view(ch@), atoms_view(f@), 1, tag as nat),
    decreases ch, 1nat,
{
    let mut i: usize = 1;
    while i < ch.len() && i < f.len()
        invariant
            1 <= i,
            tag < u64::MAX,
            arguments_fit_from(space@, atoms_view(ch@), atoms_view(f@), i as int, tag as nat)
                == arguments_fit_from(space@, atoms_view(ch@), atoms_view(f@), 1, tag as nat),
        decreases ch.len() - i,
    {
        assert(atoms_view(ch@)[i as int] == ch@[i as int]@);
        assert(atoms_view(f@)[i as int] == f@[i as int]@);
        let types = get_atom_types(space, &ch[i], tag);
        if !any_type_fits(&f[i], &types) {
            return false;
        }
        i += 1;
    }
    true
}

fn get_application_types(space: &GroundingSpace, ch: &Vec<Atom>, op_types: &Vec<Atom>, tag: u64)
    -> (r: Vec<Atom>)
    requires
        tag < u64::MAX,
    ensures
        atoms_view(r@) == application_types_from(
            space@,
            atoms_view(ch@),
            atoms_view(op_types@),
            0,
            tag as nat,
        ),
    decreases ch, 2nat,
{
    let ghost chv = atoms_view(ch@);
    let ghost opv = atoms_view(op_types@);
    let mut out: Vec<Atom> = Vec::new();
    let mut k: usize = 0;
    assert(atoms_view(out@) =~= Seq::empty());
    while k < op_types.len()
        invariant
            0 <= k <= op_types.len(),
            tag < u64::MAX,
            chv == atoms_view(ch@),
            opv == atoms_view(op_types@),
            atoms_view(out@) + application_types_from(space@, chv, opv, k as int, tag as nat)
                == application_types_from(space@, chv, opv, 0, tag as nat),
        decreases op_types.len() - k,
    {
        let ghost before = atoms_view(out@);
        assert(opv[k as int] == op_types@[k as int]@);
        proof {
            lemma_atom_view(op_types@[k as int]);
        }
        match &op_types[k] {
            Atom::Expression(e) => {
                let f = e.children();
                if f.len() > 0 && ch.len() < usize::MAX && f.len() == ch.len() + 1 {
                    assert(atoms_view(f@)[0] == f@[0]@);
                    if is_symbol(&f[0], "->") && arguments_fit(space, ch, f, tag) {
                        let last = f[f.len() - 1].clone();
                        assert(atoms_view(f@)[f.len() - 1] == f@[f.len() - 1]@);
                        out.push(last);
                        assert(atoms_view(out@) =~= before + application_type(
                            space@,
                            chv,
                            opv[k as int],
                            tag as nat,
                        ));
                    }
                }
            },
            _ => {},
        }
        assert(atoms_view(out@) =~= before + application_type(
            space@,
            chv,
            opv[k as int],
            tag as nat,
        ));
        assert(atoms_view(out@) + application_types_from(space@, chv, opv, k + 1, tag as nat)
            =~= before + application_types_from(space@, chv, opv, k as int, tag as nat));
        k += 1;
    }
    assert(atoms_view(out@) + Seq::<AtomView>::empty() =~= atoms_view(out@));
    out
}

/// The types of an atom in a space. The query for declarations uses the
/// tags `tag` and `tag + 1` for its own variables.
pub fn get_atom_types(space: &GroundingSpace, atom: &Atom, tag: u64) -> (r: Vec<Atom>)
    requires
        tag < u64::MAX,
    ensures
        atoms_view(r@) == types_of(space@, atom@, tag as nat),
    decreases atom, 0nat,
{
    proof {
        lemma_atom_view(*atom);
        lemma_children_decrease(*atom);
    }
    let mut out: Vec<Atom> = Vec::new();
    match atom {
        Atom::Variable(_) => {
            out.push(Atom::sym("%Undefined%"));
            assert(atoms_view(out@) =~= seq![undefined_type()]);
            out
        },
        Atom::Grounded(g) => {
            out.push(get_grounded_type(g));
            assert(atoms_view(out@) =~= seq![grounded_type(g@)]);
            out
        },
        Atom::Symbol(_) => {
            let declared = get_declared_types(space, atom, tag);
            if declared.len() == 0 {
                out.push(Atom::sym("%Undefined%"));
                assert(atoms_view(out@) =~= seq![undefined_type()]);
                out
            } else {
                declared
            }
        },
        Atom::Expression(e) => {
            let mut declared = get_declared_types(space, atom, tag);
            let ch = e.children();
            if ch.len() == 0 {
                if declared.len() == 0 {
                    out.push(Atom::sym("%Undefined%"));
                    assert(atoms_view(out@) =~= seq![undefined_type()]);
                    out
                } else {
                    declared
                }
            } else {
                assert(atoms_view(ch@)[0] == ch@[0]@);
                let op_types = get_atom_types(space, &ch[0], tag);
                let mut apps = get_application_types(space, ch, &op_types, tag);
                let ghost dv = atoms_view(declared@);
                let ghost av = atoms_view(apps@);
                declared.append(&mut apps);
                assert(atoms_view(declared@) =~= dv + av);
                if declared.len() == 0 && !has_function(&op_types) {
                    out.push(Atom::sym("%Undefined%"));
                    assert(atoms_view(out@) =~= seq![undefined_type()]);
                    out
                } else {
                    declared
                }
            }
        },
    }
}

} // verus!
