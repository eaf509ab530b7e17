//! Matching of atoms by unification. A match of two atoms is a set of
//! bindings under which both become the same atom, but for the hooks of
//! grounded atoms: grounded atoms match where they carry the same data.
//! A grounded atom with a match hook of its own is matched by that hook
//! where it is itself one of the two atoms; inside an expression it is
//! matched by its data like any other.

use crate::atom::{
    atom_eq, atoms_view, dict_view, host_eq, lemma_atom_view, lemma_children_decrease,
    lemma_dict_view, lemma_grounded_decrease, Atom, AtomView, GroundedAtom, GroundedView,
    HostValue, HostView, MatchFn, VarView, VariableAtom,
};
use crate::strings::{lemma_seq_lt_total, seq_lt, str_lt};
use vstd::prelude::*;

verus! {

/// How deep matching descends into nested atoms and bound values before it
/// gives up and reports no match.
pub const MATCH_DEPTH: usize = 4294967295;

/// The first value bound to `v` at or after position `i`.
pub open spec fn lookup_from(s: Seq<(VarView, AtomView)>, v: VarView, i: int) -> Option<AtomView>
    decreases s.len() - i,
{
    if i < 0 || i >= s.len() {
        None
    } else if s[i].0 == v {
        Some(s[i].1)
    } else {
        lookup_from(s, v, i + 1)
    }
}

/// The value bound to `v`, if any.
pub open spec fn lookup(s: Seq<(VarView, AtomView)>, v: VarView) -> Option<AtomView> {
    lookup_from(s, v, 0)
}

/// The atom with every bound variable replaced by its value, in one pass.
pub open spec fn apply(s: Seq<(VarView, AtomView)>, a: AtomView) -> AtomView
    decreases a,
{
    match a {
        AtomView::Variable(v) => match lookup(s, v) {
            Some(t) => t,
            None => a,
        },
        AtomView::Expression(c) => AtomView::Expression(
            Seq::new(
                c.len(),
                |i: int|
                    if 0 <= i < c.len() {
                        apply(s, c[i])
                    } else {
                        a
                    },
            ),
        ),
        _ => a,
    }
}

/// Whether the variable occurs in the atom.
pub open spec fn occurs(v: VarView, a: AtomView) -> bool
    decreases a, 0nat,
{
    match a {
        AtomView::Variable(x) => x == v,
        AtomView::Expression(c) => occurs_from(v, c, 0),
        _ => false,
    }
}

/// Whether the variable occurs in one of the atoms at or after position `i`.
pub open spec fn occurs_from(v: VarView, c: Seq<AtomView>, i: int) -> bool
    decreases c, c.len() - i,
{
    if i < 0 || i >= c.len() {
        false
    } else {
        occurs(v, c[i]) || occurs_from(v, c, i + 1)
    }
}

/// The bindings extended by `v` bound to `t`, with `v` replaced by `t` in
/// every value bound before.
pub open spec fn bind(s: Seq<(VarView, AtomView)>, v: VarView, t: AtomView) -> Seq<
    (VarView, AtomView),
> {
    Seq::new(s.len(), |i: int| (s[i].0, apply(seq![(v, t)], s[i].1))).push((v, t))
}

/// The order in which variables are bound to one another: by tag, then by
/// name. Of two unbound variables the later one is bound to the earlier.
pub open spec fn var_lt(x: VarView, y: VarView) -> bool {
    x.id < y.id || (x.id == y.id && seq_lt(x.name, y.name))
}

/// Unification of `a` and `b` under the bindings `s`: the extension of `s`
/// under which both become the same atom, where one exists within `fuel`
/// levels of descent. Grounded atoms are the same to it where they carry
/// the same data.
pub open spec fn unify(a: AtomView, b: AtomView, s: Seq<(VarView, AtomView)>, fuel: nat) -> Option<
    Seq<(VarView, AtomView)>,
>
    decreases fuel, 0nat,
{
    if fuel == 0 {
        None
    } else if a is Variable || b is Variable {
        unify_resolved(apply(s, a), apply(s, b), s, (fuel - 1) as nat)
    } else {
        match a {
            AtomView::Symbol(x) => if b == a {
                Some(s)
            } else {
                None
            },
            AtomView::Grounded(x) => match b {
                AtomView::Grounded(y) => if x.value == y.value {
                    Some(s)
                } else {
                    None
                },
                _ => None,
            },
            AtomView::Expression(xs) => match b {
                AtomView::Expression(ys) => if xs.len() == ys.len() {
                    unify_children(xs, ys, 0, s, (fuel - 1) as nat)
                } else {
                    None
                },
                _ => None,
            },
            AtomView::Variable(_) => None,
        }
    }
}

/// Unification of two atoms in which no bound variable is left.
pub open spec fn unify_resolved(
    a: AtomView,
    b: AtomView,
    s: Seq<(VarView, AtomView)>,
    fuel: nat,
) -> Option<Seq<(VarView, AtomView)>>
    decreases fuel, 1nat,
{
    if a == b {
        Some(s)
    } else {
        match a {
            AtomView::Variable(x) => match b {
                AtomView::Variable(y) => if var_lt(x, y) {
                    Some(bind(s, y, a))
                } else {
                    Some(bind(s, x, b))
                },
                _ => if occurs(x, b) {
                    None
                } else {
                    Some(bind(s, x, b))
                },
            },
            _ => match b {
                AtomView::Variable(y) => if occurs(y, a) {
                    None
                } else {
                    Some(bind(s, y, a))
                },
                _ => unify(a, b, s, fuel),
            },
        }
    }
}

/// Unification of the children from position `i` on, one pair after the
/// other, each under the bindings the pairs before it gave.
pub open spec fn unify_children(
    xs: Seq<AtomView>,
    ys: Seq<AtomView>,
    i: int,
    s: Seq<(VarView, AtomView)>,
    fuel: nat,
) -> Option<Seq<(VarView, AtomView)>>
    decreases fuel, xs.len() - i + 1,
{
    if i < 0 || i >= xs.len() || i >= ys.len() {
        Some(s)
    } else {
        match unify(xs[i], ys[i], s, fuel) {
            None => None,
            Some(s2) => unify_children(xs, ys, i + 1, s2, fuel),
        }
    }
}

/// The bindings `s` extended so that the key and the value of an entry of
/// a dictionary match the key and the value of an entry of a pattern.
pub open spec fn unify_entry(
    data: (AtomView, AtomView),
    query: (AtomView, AtomView),
    s: Seq<(VarView, AtomView)>,
) -> Option<Seq<(VarView, AtomView)>> {
    match unify(data.0, query.0, s, MATCH_DEPTH as nat) {
        None => None,
        Some(s1) => unify(data.1, query.1, s1, MATCH_DEPTH as nat),
    }
}

/// The ways in which an entry of a pattern matches one of the entries of
/// a dictionary from position `d` on, under the bindings `s`.
pub open spec fn dict_alternatives(
    data: Seq<(AtomView, AtomView)>,
    entry: (AtomView, AtomView),
    s: Seq<(VarView, AtomView)>,
    d: int,
) -> Seq<Seq<(VarView, AtomView)>>
    decreases data.len() - d,
{
    if d < 0 || d >= data.len() {
        Seq::empty()
    } else {
        match unify_entry(data[d], entry, s) {
            Some(s2) => seq![s2] + dict_alternatives(data, entry, s, d + 1),
            None => dict_alternatives(data, entry, s, d + 1),
        }
    }
}

/// The ways in which an entry of a pattern matches an entry of a
/// dictionary, under each of the bindings from position `k` on.
pub open spec fn dict_step(
    data: Seq<(AtomView, AtomView)>,
    entry: (AtomView, AtomView),
    states: Seq<Seq<(VarView, AtomView)>>,
    k: int,
) -> Seq<Seq<(VarView, AtomView)>>
    decreases states.len() - k,
{
    if k < 0 || k >= states.len() {
        Seq::empty()
    } else {
        dict_alternatives(data, entry, states[k], 0) + dict_step(data, entry, states, k + 1)
    }
}

/// The ways in which the entries of a pattern from position `q` on match
/// entries of a dictionary, one entry after the other, starting from the
/// given bindings.
pub open spec fn dict_fold(
    data: Seq<(AtomView, AtomView)>,
    query: Seq<(AtomView, AtomView)>,
    q: int,
    states: Seq<Seq<(VarView, AtomView)>>,
) -> Seq<Seq<(VarView, AtomView)>>
    decreases query.len() - q,
{
    if q < 0 || q >= query.len() {
        states
    } else {
        dict_fold(data, query, q + 1, dict_step(data, query[q], states, 0))
    }
}

/// The matches of a dictionary against a dictionary of patterns: every way
/// to match each entry of the pattern, key with key and value with value,
/// with some entry of the dictionary, such that all agree on the
/// variables. The order of the entries does not decide whether there is a
/// match.
pub open spec fn dict_match(data: Seq<(AtomView, AtomView)>, query: Seq<(AtomView, AtomView)>)
    -> Seq<Seq<(VarView, AtomView)>> {
    dict_fold(data, query, 0, seq![Seq::empty()])
}

/// Whether the atom is grounded and matched by the dictionary hook.
pub open spec fn is_dictionary(a: AtomView) -> bool {
    match a {
        AtomView::Grounded(g) => g.do_match == MatchFn::Dictionary,
        _ => false,
    }
}

/// The matches of a grounded atom against another atom by the atom's own
/// match hook. The hook of equality matches the grounded atoms of equal
/// data and binds nothing. The hook of dictionaries matches a dictionary
/// against a dictionary of patterns.
pub open spec fn hook_match(g: GroundedView, other: AtomView) -> Seq<Seq<(VarView, AtomView)>> {
    match other {
        AtomView::Grounded(h) => match g.do_match {
            MatchFn::Equality => if h.value == g.value {
                seq![Seq::empty()]
            } else {
                Seq::empty()
            },
            MatchFn::Dictionary => match g.value {
                HostView::Dict(data) => match h.value {
                    HostView::Dict(query) => dict_match(data, query),
                    _ => Seq::empty(),
                },
                _ => Seq::empty(),
            },
        },
        _ => Seq::empty(),
    }
}

/// Whether two atoms are matched by a hook of their own: both are
/// grounded, and one of them is matched as a dictionary.
pub open spec fn matched_by_hook(a: AtomView, b: AtomView) -> bool {
    a is Grounded && b is Grounded && (is_dictionary(a) || is_dictionary(b))
}

/// The matches of two atoms: the bindings under which they are the same
/// atom. Two grounded atoms of which one has a match hook of its own are
/// matched by the hook of the first, and by the hook of the second where
/// the first finds nothing. All other atoms are unified, which gives one
/// match or none.
pub open spec fn match_atoms_spec(a: AtomView, b: AtomView) -> Seq<Seq<(VarView, AtomView)>> {
    if matched_by_hook(a, b) {
        let first = hook_match(a->Grounded_0, b);
        if first.len() > 0 {
            first
        } else {
            hook_match(b->Grounded_0, a)
        }
    } else {
        match unify(a, b, Seq::empty(), MATCH_DEPTH as nat) {
            Some(s) => seq![s],
            None => Seq::empty(),
        }
    }
}

/// Variable bindings: which atom stands for which variable.
#[derive(Debug)]
pub struct Bindings {
    entries: Vec<(VariableAtom, Atom)>,
}

/// Views of the entries of a list of bindings.
pub open spec fn entries_view(s: Seq<(VariableAtom, Atom)>) -> Seq<(VarView, AtomView)> {
    Seq::new(s.len(), |i: int| (s[i].0@, s[i].1@))
}

/// Views of the elements of a sequence of bindings.
pub open spec fn bindings_view(s: Seq<Bindings>) -> Seq<Seq<(VarView, AtomView)>> {
    Seq::new(s.len(), |i: int| s[i]@)
}

/// The view of bindings that may be absent.
pub open spec fn bindings_opt_view(o: Option<Bindings>) -> Option<Seq<(VarView, AtomView)>> {
    match o {
        Some(b) => Some(b@),
        None => None,
    }
}

impl View for Bindings {
    type V = Seq<(VarView, AtomView)>;

    closed spec fn view(&self) -> Seq<(VarView, AtomView)> {
        entries_view(self.entries@)
    }
}

impl Clone for Bindings {
    fn clone(&self) -> (r: Self)
        ensures
            r@ == self@,
    {
        let mut out: Vec<(VariableAtom, Atom)> = Vec::new();
        let mut i: usize = 0;
        while i < self.entries.len()
            invariant
                0 <= i <= self.entries.len(),
                out.len() == i,
                forall|j: int|
                    0 <= j < i ==> out@[j].0@ == self.entries@[j].0@ && out@[j].1@
                        == self.entries@[j].1@,
            decreases self.entries.len() - i,
        {
            out.push((self.entries[i].0.clone(), self.entries[i].1.clone()));
            i += 1;
        }
        assert(entries_view(out@) =~= entries_view(self.entries@));
        Bindings { entries: out }
    }
}

impl Bindings {
    /// The empty bindings.
    pub fn new() -> (r: Self)
        ensures
            r@ == Seq::<(VarView, AtomView)>::empty(),
    {
        let r = Bindings { entries: Vec::new() };
        assert(r@ =~= Seq::<(VarView, AtomView)>::empty());
        r
    }

    /// The number of bound variables.
    pub fn len(&self) -> (r: usize)
        ensures
            r == self@.len(),
    {
        self.entries.len()
    }

    /// Whether no variable is bound.
    pub fn is_empty(&self) -> (r: bool)
        ensures
            r == (self@.len() == 0),
    {
        self.entries.len() == 0
    }

    /// The variable bound at position `i`.
    pub fn var_at(&self, i: usize) -> (r: &VariableAtom)
        requires
            i < self@.len(),
        ensures
            r@ == self@[i as int].0,
    {
        &self.entries[i].0
    }

    /// The value bound at position `i`.
    pub fn value_at(&self, i: usize) -> (r: &Atom)
        requires
            i < self@.len(),
        ensures
            r@ == self@[i as int].1,
    {
        &self.entries[i].1
    }

    /// The value bound to the variable, if any.
    pub fn resolve(&self, var: &VariableAtom) -> (r: Option<&Atom>)
        ensures
            match r {
                Some(a) => lookup(self@, var@) == Some(a@),
                None => lookup(self@, var@) is None,
            },
    {
        let mut i: usize = 0;
        while i < self.entries.len()
            invariant
                0 <= i <= self.entries.len(),
                lookup(self@, var@) == lookup_from(self@, var@, i as int),
            decreases self.entries.len() - i,
        {
            if self.entries[i].0 == *var {
                return Some(&self.entries[i].1);
            }
            i += 1;
        }
        None
    }

    /// The bindings with one more entry, put after the others as it is.
    pub fn with(self, var: VariableAtom, value: Atom) -> (r: Self)
        ensures
            r@ == self@.push((var@, value@)),
    {
        let mut entries = self.entries;
        entries.push((var, value));
        let r = Bindings { entries };
        assert(r@ =~= self@.push((var@, value@)));
        r
    }

    /// Binds a variable that the bindings leave free to a value in which no
    /// bound variable is left, and replaces it in the values bound before.
    fn bind(self, var: VariableAtom, value: Atom) -> (r: Self)
        ensures
            r@ == bind(self@, var@, value@),
    {
        let one = Bindings::new().with(var.clone(), value.clone());
        assert(one@ =~= seq![(var@, value@)]);
        let mut out: Vec<(VariableAtom, Atom)> = Vec::new();
        let mut i: usize = 0;
        while i < self.entries.len()
            invariant
                0 <= i <= self.entries.len(),
                out.len() == i,
                one@ == seq![(var@, value@)],
                forall|j: int|
                    0 <= j < i ==> out@[j].0@ == self.entries@[j].0@ && out@[j].1@ == apply(
                        one@,
                        self.entries@[j].1@,
                    ),
            decreases self.entries.len() - i,
        {
            let t = apply_bindings_to_atom(&self.entries[i].1, &one);
            out.push((self.entries[i].0.clone(), t));
            i += 1;
        }
        out.push((var, value));
        let r = Bindings { entries: out };
        assert(r@ =~= bind(self@, var@, value@));
        r
    }
}

/// The atom with every bound variable replaced by the value bound to it.
pub fn apply_bindings_to_atom(atom: &Atom, bindings: &Bindings) -> (r: Atom)
    ensures
        r@ == apply(bindings@, atom@),
    decreases atom,
{
    proof {
        lemma_atom_view(*atom);
        lemma_children_decrease(*atom);
    }
    match atom {
        Atom::Variable(v) => match bindings.resolve(v) {
            Some(t) => t.clone(),
            None => atom.clone(),
        },
        Atom::Expression(e) => {
            let ch = e.children();
            let mut out: Vec<Atom> = Vec::new();
            let mut i: usize = 0;
            while i < ch.len()
                invariant
                    0 <= i <= ch.len(),
                    out.len() == i,
                    forall|j: int| 0 <= j < ch.len() ==> decreases_to!(atom => #[trigger] ch@[j]),
                    forall|j: int| 0 <= j < i ==> out@[j]@ == apply(bindings@, ch@[j]@),
                decreases ch.len() - i,
            {
                out.push(apply_bindings_to_atom(&ch[i], bindings));
                i += 1;
            }
            let r = Atom::expr_vec(out);
            assert(r@->Expression_0 =~= apply(bindings@, atom@)->Expression_0);
            r
        },
        _ => atom.clone(),
    }
}

/// Whether the variable occurs in the atom.
pub fn occurs_in(var: &VariableAtom, atom: &Atom) -> (r: bool)
    ensures
        r == occurs(var@, atom@),
    decreases atom,
{
    proof {
        lemma_atom_view(*atom);
        lemma_children_decrease(*atom);
    }
    match atom {
        Atom::Variable(v) => *v == *var,
        Atom::Expression(e) => {
            let ch = e.children();
            let mut i: usize = 0;
            while i < ch.len()
                invariant
                    0 <= i <= ch.len(),
                    atom@ == AtomView::Expression(atoms_view(ch@)),
                    forall|j: int| 0 <= j < ch.len() ==> decreases_to!(atom => #[trigger] ch@[j]),
                    occurs(var@, atom@) == occurs_from(var@, atoms_view(ch@), i as int),
                decreases ch.len() - i,
            {
                assert(atoms_view(ch@)[i as int] == ch@[i as int]@);
                if occurs_in(var, &ch[i]) {
                    return true;
                }
                i += 1;
            }
            false
        },
        _ => false,
    }
}

/// Whether `x` comes before `y` in the order by which variables are bound
/// to one another.
pub fn var_before(x: &VariableAtom, y: &VariableAtom) -> (r: bool)
    ensures
        r == var_lt(x@, y@),
{
    if x.id() < y.id() {
        true
    } else if x.id() == y.id() {
        str_lt(x.name(), y.name())
    } else {
        false
    }
}

/// Unifies two atoms under the given bindings, descending at most `fuel`
/// levels.
pub fn unify_atoms(a: &Atom, b: &Atom, s: Bindings, fuel: usize) -> (r: Option<Bindings>)
    ensures
        bindings_opt_view(r) == unify(a@, b@, s@, fuel as nat),
    decreases fuel, 0nat,
{
    proof {
        lemma_atom_view(*a);
        lemma_atom_view(*b);
    }
    if fuel == 0 {
        return None;
    }
    match a {
        Atom::Variable(_) => {
            let x = apply_bindings_to_atom(a, &s);
            let y = apply_bindings_to_atom(b, &s);
            unify_resolved_atoms(x, y, s, fuel - 1)
        },
        Atom::Symbol(_) => match b {
            Atom::Variable(_) => {
                let x = apply_bindings_to_atom(a, &s);
                let y = apply_bindings_to_atom(b, &s);
                unify_resolved_atoms(x, y, s, fuel - 1)
            },
            _ => if atom_eq(a, b) {
                Some(s)
            } else {
                None
            },
        },
        Atom::Grounded(g) => match b {
            Atom::Variable(_) => {
                let x = apply_bindings_to_atom(a, &s);
                let y = apply_bindings_to_atom(b, &s);
                unify_resolved_atoms(x, y, s, fuel - 1)
            },
            Atom::Grounded(h) => if host_eq(g.value(), h.value()) {
                Some(s)
            } else {
                None
            },
            _ => None,
        },
        Atom::Expression(e) => match b {
            Atom::Variable(_) => {
                let x = apply_bindings_to_atom(a, &s);
                let y = apply_bindings_to_atom(b, &s);
                unify_resolved_atoms(x, y, s, fuel - 1)
            },
            Atom::Expression(f) => {
                let xs = e.children();
                let ys = f.children();
                if xs.len() != ys.len() {
                    return None;
                }
                let mut cur = s;
                let mut i: usize = 0;
                while i < xs.len()
                    invariant
                        0 <= i <= xs.len(),
                        xs.len() == ys.len(),
                        fuel > 0,
                        a@ == AtomView::Expression(atoms_view(xs@)),
                        b@ == AtomView::Expression(atoms_view(ys@)),
                        unify_children(
                            atoms_view(xs@),
                            atoms_view(ys@),
                            i as int,
                            cur@,
                            (fuel - 1) as nat,
                        ) == unify_children(
                            atoms_view(xs@),
                            atoms_view(ys@),
                            0,
                            s@,
                            (fuel - 1) as nat,
                        ),
                    decreases xs.len() - i,
                {
                    let ghost before = cur@;
                    assert(atoms_view(xs@)[i as int] == xs@[i as int]@);
                    assert(atoms_view(ys@)[i as int] == ys@[i as int]@);
                    match unify_atoms(&xs[i], &ys[i], cur, fuel - 1) {
                        None => {
                            assert(unify_children(
                                atoms_view(xs@),
                                atoms_view(ys@),
                                i as int,
                                before,
                                (fuel - 1) as nat,
                            ) is None);
                            return None;
                        },
                        Some(next) => {
                            cur = next;
                        },
                    }
                    i += 1;
                }
                Some(cur)
            },
            _ => None,
        },
    }
}

/// Unifies two atoms in which no bound variable is left.
fn unify_resolved_atoms(a: Atom, b: Atom, s: Bindings, fuel: usize) -> (r: Option<Bindings>)
    ensures
        bindings_opt_view(r) == unify_resolved(a@, b@, s@, fuel as nat),
    decreases fuel, 1nat,
{
    proof {
        lemma_atom_view(a);
        lemma_atom_view(b);
    }
    if atom_eq(&a, &b) {
        return Some(s);
    }
    match a {
        Atom::Variable(x) => match b {
            Atom::Variable(y) => {
                if var_before(&x, &y) {
                    Some(s.bind(y, Atom::Variable(x)))
                } else {
                    Some(s.bind(x, Atom::Variable(y)))
                }
            },
            _ => {
                if occurs_in(&x, &b) {
                    None
                } else {
                    Some(s.bind(x, b))
                }
            },
        },
        _ => match b {
            Atom::Variable(y) => {
                if occurs_in(&y, &a) {
                    None
                } else {
                    Some(s.bind(y, a))
                }
            },
            _ => unify_atoms(&a, &b, s, fuel),
        },
    }
}

/// The bindings under which an entry of a dictionary matches an entry of a
/// pattern, key with key and value with value.
fn unify_entries(data: &(Atom, Atom), query: &(Atom, Atom), s: Bindings) -> (r: Option<Bindings>)
    ensures
        bindings_opt_view(r) == unify_entry((data.0@, data.1@), (query.0@, query.1@), s@),
{
    match unify_atoms(&data.0, &query.0, s, MATCH_DEPTH) {
        None => None,
        Some(s1) => unify_atoms(&data.1, &query.1, s1, MATCH_DEPTH),
    }
}

/// All matches of a dictionary against a dictionary of patterns.
pub fn dictionary_match(data: &Vec<(Atom, Atom)>, query: &Vec<(Atom, Atom)>) -> (r: Vec<Bindings>)
    ensures
        bindings_view(r@) == dict_match(dict_view(data@), dict_view(query@)),
{
    let ghost dv = dict_view(data@);
    let ghost qv = dict_view(query@);
    let mut states: Vec<Bindings> = Vec::new();
    states.push(Bindings::new());
    assert(bindings_view(states@) =~= seq![Seq::empty()]);
    let mut q: usize = 0;
    while q < query.len()
        invariant
            0 <= q <= query.len(),
            dv == dict_view(data@),
            qv == dict_view(query@),
            dict_fold(dv, qv, q as int, bindings_view(states@)) == dict_match(dv, qv),
        decreases query.len() - q,
    {
        let ghost sv = bindings_view(states@);
        assert(qv[q as int] == (query@[q as int].0@, query@[q as int].1@));
        let mut next: Vec<Bindings> = Vec::new();
        assert(bindings_view(next@) =~= Seq::empty());
        let mut k: usize = 0;
        while k < states.len()
            invariant
                0 <= k <= states.len(),
                0 <= q < query.len(),
                dv == dict_view(data@),
                qv == dict_view(query@),
                sv == bindings_view(states@),
                qv[q as int] == (query@[q as int].0@, query@[q as int].1@),
                bindings_view(next@) + dict_step(dv, qv[q as int], sv, k as int) == dict_step(
                    dv,
                    qv[q as int],
                    sv,
                    0,
                ),
            decreases states.len() - k,
        {
            let ghost start = bindings_view(next@);
            assert(sv[k as int] == states@[k as int]@);
            let mut d: usize = 0;
            while d < data.len()
                invariant
                    0 <= d <= data.len(),
                    0 <= q < query.len(),
                    0 <= k < states.len(),
                    dv == dict_view(data@),
                    qv == dict_view(query@),
                    sv == bindings_view(states@),
                    sv[k as int] == states@[k as int]@,
                    qv[q as int] == (query@[q as int].0@, query@[q as int].1@),
                    bindings_view(next@) + dict_alternatives(
                        dv,
                        qv[q as int],
                        sv[k as int],
                        d as int,
                    ) == start + dict_alternatives(dv, qv[q as int], sv[k as int], 0),
                decreases data.len() - d,
            {
                let ghost before = bindings_view(next@);
                assert(dv[d as int] == (data@[d as int].0@, data@[d as int].1@));
                match unify_entries(&data[d], &query[q], states[k].clone()) {
                    Some(s2) => {
                        next.push(s2);
                        assert(bindings_view(next@) =~= before.push(s2@));
                        assert(bindings_view(next@) + dict_alternatives(
                            dv,
                            qv[q as int],
                            sv[k as int],
                            d + 1,
                        ) =~= before + dict_alternatives(dv, qv[q as int], sv[k as int], d as int));
                    },
                    None => {},
                }
                d += 1;
            }
            assert(bindings_view(next@) =~= start + dict_alternatives(
                dv,
                qv[q as int],
                sv[k as int],
                0,
            ));
            assert(bindings_view(next@) + dict_step(dv, qv[q as int], sv, k + 1) =~= start
                + dict_step(dv, qv[q as int], sv, k as int));
            k += 1;
        }
        assert(bindings_view(next@) =~= dict_step(dv, qv[q as int], sv, 0));
        states = next;
        q += 1;
    }
    states
}

/// The unifiers that the match hook of a grounded atom finds for the atom
/// and another atom.
pub fn hook_matches(g: &GroundedAtom, other: &Atom) -> (r: Vec<Bindings>)
    ensures
        bindings_view(r@) == hook_match(g@, other@),
{
    proof {
        lemma_atom_view(*other);
    }
    let mut out: Vec<Bindings> = Vec::new();
    assert(bindings_view(out@) =~= Seq::empty());
    match other {
        Atom::Grounded(h) => match g.match_fn() {
            MatchFn::Equality => {
                if host_eq(h.value(), g.value()) {
                    out.push(Bindings::new());
                    assert(bindings_view(out@) =~= seq![Seq::empty()]);
                }
                out
            },
            MatchFn::Dictionary => match g.value() {
                HostValue::Dict(data) => match h.value() {
                    HostValue::Dict(query) => {
                        proof {
                            lemma_dict_view(*data);
                            lemma_dict_view(*query);
                        }
                        dictionary_match(data, query)
                    },
                    _ => out,
                },
                _ => out,
            },
        },
        _ => out,
    }
}

/// Whether the atom is grounded and matched by the dictionary hook.
pub fn is_dictionary_atom(a: &Atom) -> (r: bool)
    ensures
        r == is_dictionary(a@),
{
    proof {
        lemma_atom_view(*a);
    }
    match a {
        Atom::Grounded(g) => match g.match_fn() {
            MatchFn::Dictionary => true,
            MatchFn::Equality => false,
        },
        _ => false,
    }
}

/// All matches of two atoms: the bindings under which they are the same atom.
pub fn match_atoms(a: &Atom, b: &Atom) -> (r: Vec<Bindings>)
    ensures
        bindings_view(r@) == match_atoms_spec(a@, b@),
{
    proof {
        lemma_atom_view(*a);
        lemma_atom_view(*b);
    }
    if let Atom::Grounded(g) = a {
        if let Atom::Grounded(h) = b {
            if is_dictionary_atom(a) || is_dictionary_atom(b) {
                let first = hook_matches(g, b);
                if first.len() > 0 {
                    return first;
                }
                return hook_matches(h, a);
            }
        }
    }
    let mut out: Vec<Bindings> = Vec::new();
    match unify_atoms(a, b, Bindings::new(), MATCH_DEPTH) {
        Some(s) => {
            out.push(s);
        },
        None => {},
    }
    assert(bindings_view(out@) =~= match_atoms_spec(a@, b@));
    out
}

/// Whether the variable is mentioned in the atom: it occurs in it, or in
/// the key or the value of an entry of a dictionary within it.
pub open spec fn mentions(v: VarView, a: AtomView) -> bool
    decreases a, 0nat,
{
    match a {
        AtomView::Variable(x) => x == v,
        AtomView::Expression(c) => mentions_from(v, c, 0),
        AtomView::Grounded(g) => match g.value {
            HostView::Dict(e) => mentions_in(v, e, 0),
            _ => false,
        },
        _ => false,
    }
}

/// Whether the variable is mentioned in one of the atoms at or after
/// position `i`.
pub open spec fn mentions_from(v: VarView, c: Seq<AtomView>, i: int) -> bool
    decreases c, c.len() - i,
{
    if i < 0 || i >= c.len() {
        false
    } else {
        mentions(v, c[i]) || mentions_from(v, c, i + 1)
    }
}

/// Whether the variable is mentioned in one of the entries at or after
/// position `i`.
pub open spec fn mentions_in(v: VarView, e: Seq<(AtomView, AtomView)>, i: int) -> bool
    decreases e, e.len() - i,
{
    if i < 0 || i >= e.len() {
        false
    } else {
        mentions(v, e[i].0) || mentions(v, e[i].1) || mentions_in(v, e, i + 1)
    }
}

fn mentioned_in_entries(var: &VariableAtom, e: &Vec<(Atom, Atom)>) -> (r: bool)
    ensures
        r == mentions_in(var@, dict_view(e@), 0),
    decreases e, 1nat,
{
    let mut i: usize = 0;
    while i < e.len()
        invariant
            0 <= i <= e.len(),
            mentions_in(var@, dict_view(e@), i as int) == mentions_in(var@, dict_view(e@), 0),
        decreases e.len() - i,
    {
        assert(dict_view(e@)[i as int] == (e@[i as int].0@, e@[i as int].1@));
        if is_mentioned(var, &e[i].0) || is_mentioned(var, &e[i].1) {
            return true;
        }
        i += 1;
    }
    false
}

/// Whether the variable is mentioned in the atom.
pub fn is_mentioned(var: &VariableAtom, atom: &Atom) -> (r: bool)
    ensures
        r == mentions(var@, atom@),
    decreases atom, 0nat,
{
    proof {
        lemma_atom_view(*atom);
        lemma_children_decrease(*atom);
        lemma_grounded_decrease(*atom);
    }
    match atom {
        Atom::Variable(v) => *v == *var,
        Atom::Expression(e) => {
            let ch = e.children();
            let mut i: usize = 0;
            while i < ch.len()
                invariant
                    0 <= i <= ch.len(),
                    atom@ == AtomView::Expression(atoms_view(ch@)),
                    forall|j: int| 0 <= j < ch.len() ==> decreases_to!(atom => #[trigger] ch@[j]),
                    mentions(var@, atom@) == mentions_from(var@, atoms_view(ch@), i as int),
                decreases ch.len() - i,
            {
                assert(atoms_view(ch@)[i as int] == ch@[i as int]@);
                if is_mentioned(var, &ch[i]) {
                    return true;
                }
                i += 1;
            }
            false
        },
        Atom::Grounded(g) => match g.value() {
            HostValue::Dict(e) => {
                proof {
                    lemma_dict_view(*e);
                }
                mentioned_in_entries(var, e)
            },
            _ => false,
        },
        _ => false,
    }
}

/// The entries at or after position `i` whose variable is mentioned in the
/// atom.
pub open spec fn restrict_from(s: Seq<(VarView, AtomView)>, a: AtomView, i: int) -> Seq<
    (VarView, AtomView),
>
    decreases s.len() - i,
{
    if i < 0 || i >= s.len() {
        Seq::empty()
    } else if mentions(s[i].0, a) {
        seq![s[i]] + restrict_from(s, a, i + 1)
    } else {
        restrict_from(s, a, i + 1)
    }
}

/// The bindings of the variables that are mentioned in the atom.
pub open spec fn restrict(s: Seq<(VarView, AtomView)>, a: AtomView) -> Seq<(VarView, AtomView)> {
    restrict_from(s, a, 0)
}

/// The matches of `a` against the pattern `b`, each given as the bindings
/// of the variables of `a` and the bindings of the variables of `b`.
pub open spec fn do_match_spec(a: AtomView, b: AtomView) -> Seq<
    (Seq<(VarView, AtomView)>, Seq<(VarView, AtomView)>),
> {
    split_sides(match_atoms_spec(a, b), a, b)
}

/// Each of the unifiers split into the bindings of the variables of `a`
/// and the bindings of the variables of `b`.
pub open spec fn split_sides(found: Seq<Seq<(VarView, AtomView)>>, a: AtomView, b: AtomView) -> Seq<
    (Seq<(VarView, AtomView)>, Seq<(VarView, AtomView)>),
> {
    Seq::new(found.len(), |k: int| (restrict(found[k], a), restrict(found[k], b)))
}

/// One match of an atom against a pattern: the bindings of the atom's
/// variables and the bindings of the pattern's variables.
#[derive(Debug)]
pub struct MatchResult {
    pub candidate_bindings: Bindings,
    pub pattern_bindings: Bindings,
}

impl View for MatchResult {
    type V = (Seq<(VarView, AtomView)>, Seq<(VarView, AtomView)>);

    open spec fn view(&self) -> (Seq<(VarView, AtomView)>, Seq<(VarView, AtomView)>) {
        (self.candidate_bindings@, self.pattern_bindings@)
    }
}

/// Views of the elements of a sequence of match results.
pub open spec fn results_view(s: Seq<MatchResult>) -> Seq<
    (Seq<(VarView, AtomView)>, Seq<(VarView, AtomView)>),
> {
    Seq::new(s.len(), |i: int| s[i]@)
}

impl MatchResult {
    /// The match that binds nothing.
    pub fn new() -> (r: Self)
        ensures
            r@ == (Seq::<(VarView, AtomView)>::empty(), Seq::<(VarView, AtomView)>::empty()),
    {
        MatchResult { candidate_bindings: Bindings::new(), pattern_bindings: Bindings::new() }
    }
}

impl Bindings {
    /// The bindings of the variables that are mentioned in the atom, in
    /// order.
    pub fn narrow(&self, atom: &Atom) -> (r: Bindings)
        ensures
            r@ == restrict(self@, atom@),
    {
        let mut out = Bindings::new();
        let mut i: usize = 0;
        while i < self.entries.len()
            invariant
                0 <= i <= self.entries.len(),
                out@ + restrict_from(self@, atom@, i as int) == restrict(self@, atom@),
            decreases self.entries.len() - i,
        {
            let ghost before = out@;
            if is_mentioned(&self.entries[i].0, atom) {
                out = out.with(self.entries[i].0.clone(), self.entries[i].1.clone());
                assert(out@ + restrict_from(self@, atom@, i + 1) =~= before + restrict_from(
                    self@,
                    atom@,
                    i as int,
                ));
            }
            i += 1;
        }
        assert(out@ + Seq::<(VarView, AtomView)>::empty() =~= out@);
        out
    }

    /// The bindings that hold what both `self` and `other` bind, where the
    /// two agree: each entry of `other` is unified into `self` in turn.
    pub fn merge(&self, other: &Bindings) -> (r: Option<Bindings>)
        ensures
            bindings_opt_view(r) == merge(self@, other@),
    {
        let mut cur = self.clone();
        let mut i: usize = 0;
        while i < other.entries.len()
            invariant
                0 <= i <= other.entries.len(),
                merge_from(cur@, other@, i as int) == merge(self@, other@),
            decreases other.entries.len() - i,
        {
            let var = Atom::Variable(other.entries[i].0.clone());
            proof {
                lemma_atom_view(var);
            }
            match unify_atoms(&var, &other.entries[i].1, cur, MATCH_DEPTH) {
                None => {
                    return None;
                },
                Some(next) => {
                    cur = next;
                },
            }
            i += 1;
        }
        Some(cur)
    }
}

/// The bindings `s` with the entries of `t` from position `i` on unified
/// into them, one after the other.
pub open spec fn merge_from(s: Seq<(VarView, AtomView)>, t: Seq<(VarView, AtomView)>, i: int)
    -> Option<Seq<(VarView, AtomView)>>
    decreases t.len() - i,
{
    if i < 0 || i >= t.len() {
        Some(s)
    } else {
        match unify(AtomView::Variable(t[i].0), t[i].1, s, MATCH_DEPTH as nat) {
            None => None,
            Some(s2) => merge_from(s2, t, i + 1),
        }
    }
}

/// The bindings that agree with both `s` and `t`, if the two can agree.
pub open spec fn merge(s: Seq<(VarView, AtomView)>, t: Seq<(VarView, AtomView)>) -> Option<
    Seq<(VarView, AtomView)>,
> {
    merge_from(s, t, 0)
}

/// The merges of `x` with the elements of `b` from position `j` on that
/// succeed, in order.
pub open spec fn product_row(
    x: Seq<(VarView, AtomView)>,
    b: Seq<Seq<(VarView, AtomView)>>,
    j: int,
) -> Seq<Seq<(VarView, AtomView)>>
    decreases b.len() - j,
{
    if j < 0 || j >= b.len() {
        Seq::empty()
    } else {
        match merge(x, b[j]) {
            Some(m) => seq![m] + product_row(x, b, j + 1),
            None => product_row(x, b, j + 1),
        }
    }
}

/// The successful merges of the elements of `a` from position `i` on with
/// the elements of `b`, ordered by the position in `a`, then in `b`.
pub open spec fn product_from(
    a: Seq<Seq<(VarView, AtomView)>>,
    b: Seq<Seq<(VarView, AtomView)>>,
    i: int,
) -> Seq<Seq<(VarView, AtomView)>>
    decreases a.len() - i,
{
    if i < 0 || i >= a.len() {
        Seq::empty()
    } else {
        product_row(a[i], b, 0) + product_from(a, b, i + 1)
    }
}

/// The cartesian product of two sequences of bindings: every merge of an
/// element of the first with an element of the second that succeeds.
pub fn product(a: &Vec<Bindings>, b: &Vec<Bindings>) -> (r: Vec<Bindings>)
    ensures
        bindings_view(r@) == product_from(bindings_view(a@), bindings_view(b@), 0),
{
    let ghost av = bindings_view(a@);
    let ghost bv = bindings_view(b@);
    let mut out: Vec<Bindings> = Vec::new();
    let mut i: usize = 0;
    assert(bindings_view(out@) =~= Seq::empty());
    while i < a.len()
        invariant
            0 <= i <= a.len(),
            av == bindings_view(a@),
            bv == bindings_view(b@),
            bindings_view(out@) + product_from(av, bv, i as int) == product_from(av, bv, 0),
        decreases a.len() - i,
    {
        let ghost start = bindings_view(out@);
        let mut j: usize = 0;
        while j < b.len()
            invariant
                0 <= j <= b.len(),
                0 <= i < a.len(),
                av == bindings_view(a@),
                bv == bindings_view(b@),
                bindings_view(out@) + product_row(av[i as int], bv, j as int) == start
                    + product_row(av[i as int], bv, 0),
            decreases b.len() - j,
        {
            let ghost before = bindings_view(out@);
            match a[i].merge(&b[j]) {
                Some(m) => {
                    out.push(m);
                    assert(bindings_view(out@) =~= before.push(m@));
                    assert(bindings_view(out@) + product_row(av[i as int], bv, j + 1) =~= before
                        + product_row(av[i as int], bv, j as int));
                },
                None => {},
            }
            j += 1;
        }
        assert(bindings_view(out@) =~= start + product_row(av[i as int], bv, 0));
        assert(bindings_view(out@) + product_from(av, bv, i + 1) =~= start + product_from(
            av,
            bv,
            i as int,
        ));
        i += 1;
    }
    assert(bindings_view(out@) + Seq::<Seq<(VarView, AtomView)>>::empty() =~= bindings_view(out@));
    out
}

/// The concatenation of the views of the parts from position `i` on.
pub open spec fn concat_from(parts: Seq<Vec<Bindings>>, i: int) -> Seq<Seq<(VarView, AtomView)>>
    decreases parts.len() - i,
{
    if i < 0 || i >= parts.len() {
        Seq::empty()
    } else {
        bindings_view(parts[i]@) + concat_from(parts, i + 1)
    }
}

/// Maps every element of `seq` to a sequence by `f` and concatenates the
/// results in the order of `seq`.
pub fn chain<F: Fn(&Bindings) -> Vec<Bindings>>(seq: &Vec<Bindings>, f: F) -> (r: Vec<Bindings>)
    requires
        forall|i: int| 0 <= i < seq@.len() ==> call_requires(f, (&#[trigger] seq@[i],)),
    ensures
        exists|parts: Seq<Vec<Bindings>>|
            parts.len() == seq@.len() && (forall|i: int|
                0 <= i < seq@.len() ==> call_ensures(f, (&seq@[i],), #[trigger] parts[i]))
                && bindings_view(r@) == concat_from(parts, 0),
{
    let mut out: Vec<Bindings> = Vec::new();
    let ghost mut parts: Seq<Vec<Bindings>> = Seq::empty();
    let mut i: usize = 0;
    assert(bindings_view(out@) =~= Seq::empty());
    while i < seq.len()
        invariant
            0 <= i <= seq.len(),
            parts.len() == i,
            forall|k: int| 0 <= k < seq@.len() ==> call_requires(f, (&#[trigger] seq@[k],)),
            forall|k: int| 0 <= k < i ==> call_ensures(f, (&seq@[k],), #[trigger] parts[k]),
            bindings_view(out@) == concat_from(parts, 0),
        decreases seq.len() - i,
    {
        let mut part = f(&seq[i]);
        let ghost old_parts = parts;
        let ghost old_out = bindings_view(out@);
        let ghost part_view = bindings_view(part@);
        proof {
            parts = parts.push(part);
            lemma_concat_push(old_parts, part, 0);
        }
        out.append(&mut part);
        assert(bindings_view(out@) =~= old_out + part_view);
        i += 1;
    }
    proof {
        assert(bindings_view(out@) == concat_from(parts, 0));
    }
    out
}

/// Appending a part appends its view to the concatenation.
proof fn lemma_concat_push(parts: Seq<Vec<Bindings>>, part: Vec<Bindings>, i: int)
    requires
        0 <= i <= parts.len(),
    ensures
        concat_from(parts.push(part), i) == concat_from(parts, i) + bindings_view(part@),
    decreases parts.len() - i,
{
    let ext = parts.push(part);
    if i < parts.len() {
        lemma_concat_push(parts, part, i + 1);
        assert(ext[i] == parts[i]);
        assert(concat_from(ext, i) =~= concat_from(parts, i) + bindings_view(part@));
    } else {
        assert(ext[i] == part);
        assert(concat_from(ext, i + 1) =~= Seq::empty());
        assert(concat_from(parts, i) =~= Seq::empty());
        assert(concat_from(ext, i) =~= concat_from(parts, i) + bindings_view(part@));
    }
}

fn split_matches(found: &Vec<Bindings>, a: &Atom, b: &Atom) -> (r: Vec<MatchResult>)
    ensures
        results_view(r@) == split_sides(bindings_view(found@), a@, b@),
{
    let mut out: Vec<MatchResult> = Vec::new();
    let mut k: usize = 0;
    while k < found.len()
        invariant
            0 <= k <= found.len(),
            out.len() == k,
            forall|j: int|
                0 <= j < k ==> (#[trigger] out@[j])@ == (
                    restrict(found@[j]@, a@),
                    restrict(found@[j]@, b@),
                ),
        decreases found.len() - k,
    {
        let candidate_bindings = found[k].narrow(a);
        let pattern_bindings = found[k].narrow(b);
        out.push(MatchResult { candidate_bindings, pattern_bindings });
        k += 1;
    }
    assert(results_view(out@) =~= split_sides(bindings_view(found@), a@, b@));
    out
}

impl Atom {
    /// All matches of this atom against the pattern `other`.
    pub fn do_match(&self, other: &Atom) -> (r: Vec<MatchResult>)
        ensures
            results_view(r@) == do_match_spec(self@, other@),
    {
        let found = match_atoms(self, other);
        split_matches(&found, self, other)
    }
}

/// Looks for the first pair at or after position `i` that mentions `x` on
/// the left or `y` on the right, and says whether it pairs exactly the two.
pub open spec fn find_pair(p: Seq<(VarView, VarView)>, x: VarView, y: VarView, i: int) -> Option<
    bool,
>
    decreases p.len() - i,
{
    if i < 0 || i >= p.len() {
        None
    } else if p[i].0 == x || p[i].1 == y {
        Some(p[i].0 == x && p[i].1 == y)
    } else {
        find_pair(p, x, y, i + 1)
    }
}

/// Extends the one-to-one pairing `p` of variables so that it turns `a`
/// into `b`, if that can be done.
pub open spec fn rename_step(a: AtomView, b: AtomView, p: Seq<(VarView, VarView)>) -> Option<
    Seq<(VarView, VarView)>,
>
    decreases a, 0nat,
{
    match a {
        AtomView::Variable(x) => match b {
            AtomView::Variable(y) => match find_pair(p, x, y, 0) {
                Some(ok) => if ok {
                    Some(p)
                } else {
                    None
                },
                None => Some(p.push((x, y))),
            },
            _ => None,
        },
        AtomView::Expression(xs) => match b {
            AtomView::Expression(ys) => if xs.len() == ys.len() {
                rename_children(xs, ys, 0, p)
            } else {
                None
            },
            _ => None,
        },
        _ => if a == b {
            Some(p)
        } else {
            None
        },
    }
}

/// Extends the pairing over the children from position `i` on.
pub open spec fn rename_children(
    xs: Seq<AtomView>,
    ys: Seq<AtomView>,
    i: int,
    p: Seq<(VarView, VarView)>,
) -> Option<Seq<(VarView, VarView)>>
    decreases xs, xs.len() - i,
{
    if i < 0 || i >= xs.len() || i >= ys.len() {
        Some(p)
    } else {
        match rename_step(xs[i], ys[i], p) {
            None => None,
            Some(next) => rename_children(xs, ys, i + 1, next),
        }
    }
}

/// Whether two atoms are the same up to a one-to-one renaming of variables.
pub open spec fn equivalent(a: AtomView, b: AtomView) -> bool {
    rename_step(a, b, Seq::empty()) is Some
}

/// Views of a list of paired variables.
pub open spec fn pairs_view(s: Seq<(VariableAtom, VariableAtom)>) -> Seq<(VarView, VarView)> {
    Seq::new(s.len(), |i: int| (s[i].0@, s[i].1@))
}

/// The view of a pairing that may be absent.
pub open spec fn pairs_opt_view(o: Option<Vec<(VariableAtom, VariableAtom)>>) -> Option<
    Seq<(VarView, VarView)>,
> {
    match o {
        Some(p) => Some(pairs_view(p@)),
        None => None,
    }
}

fn find_pair_in(p: &Vec<(VariableAtom, VariableAtom)>, x: &VariableAtom, y: &VariableAtom) -> (r:
    Option<bool>)
    ensures
        r == find_pair(pairs_view(p@), x@, y@, 0),
{
    let mut i: usize = 0;
    while i < p.len()
        invariant
            0 <= i <= p.len(),
            find_pair(pairs_view(p@), x@, y@, i as int) == find_pair(pairs_view(p@), x@, y@, 0),
        decreases p.len() - i,
    {
        let left = p[i].0 == *x;
        let right = p[i].1 == *y;
        if left || right {
            return Some(left && right);
        }
        i += 1;
    }
    None
}

fn rename_atoms(a: &Atom, b: &Atom, p: Vec<(VariableAtom, VariableAtom)>) -> (r: Option<
    Vec<(VariableAtom, VariableAtom)>,
>)
    ensures
        pairs_opt_view(r) == rename_step(a@, b@, pairs_view(p@)),
    decreases a,
{
    proof {
        lemma_atom_view(*a);
        lemma_atom_view(*b);
        lemma_children_decrease(*a);
    }
    match a {
        Atom::Variable(x) => match b {
            Atom::Variable(y) => match find_pair_in(&p, x, y) {
                Some(ok) => if ok {
                    Some(p)
                } else {
                    None
                },
                None => {
                    let mut q = p;
                    q.push((x.clone(), y.clone()));
                    assert(pairs_view(q@) =~= pairs_view(p@).push((x@, y@)));
                    Some(q)
                },
            },
            _ => None,
        },
        Atom::Expression(e) => match b {
            Atom::Expression(f) => {
                let xs = e.children();
                let ys = f.children();
                if xs.len() != ys.len() {
                    return None;
                }
                let mut cur = p;
                let mut i: usize = 0;
                while i < xs.len()
                    invariant
                        0 <= i <= xs.len(),
                        xs.len() == ys.len(),
                        a@ == AtomView::Expression(atoms_view(xs@)),
                        b@ == AtomView::Expression(atoms_view(ys@)),
                        forall|j: int|
                            0 <= j < xs.len() ==> decreases_to!(a => #[trigger] xs@[j]),
                        rename_children(atoms_view(xs@), atoms_view(ys@), i as int, pairs_view(cur@))
                            == rename_children(
                            atoms_view(xs@),
                            atoms_view(ys@),
                            0,
                            pairs_view(p@),
                        ),
                    decreases xs.len() - i,
                {
                    let ghost before = pairs_view(cur@);
                    assert(atoms_view(xs@)[i as int] == xs@[i as int]@);
                    assert(atoms_view(ys@)[i as int] == ys@[i as int]@);
                    match rename_atoms(&xs[i], &ys[i], cur) {
                        None => {
                            assert(rename_children(
                                atoms_view(xs@),
                                atoms_view(ys@),
                                i as int,
                                before,
                            ) is None);
                            return None;
                        },
                        Some(next) => {
                            cur = next;
                        },
                    }
                    i += 1;
                }
                Some(cur)
            },
            _ => None,
        },
        _ => if atom_eq(a, b) {
            Some(p)
        } else {
            None
        },
    }
}

/// Whether two atoms are the same up to a one-to-one renaming of variables.
pub fn atoms_are_equivalent(a: &Atom, b: &Atom) -> (r: bool)
    ensures
        r == equivalent(a@, b@),
{
    let p: Vec<(VariableAtom, VariableAtom)> = Vec::new();
    assert(pairs_view(p@) =~= Seq::empty());
    rename_atoms(a, b, p).is_some()
}

/// Of two different variables exactly one comes before the other.
pub proof fn lemma_var_lt_total(x: VarView, y: VarView)
    ensures
        x == y ==> !var_lt(x, y) && !var_lt(y, x),
        x != y ==> (var_lt(x, y) <==> !var_lt(y, x)),
{
    lemma_seq_lt_total(x.name, y.name);
}

proof fn lemma_unify_symmetric(a: AtomView, b: AtomView, s: Seq<(VarView, AtomView)>, fuel: nat)
    ensures
        unify(a, b, s, fuel) == unify(b, a, s, fuel),
    decreases fuel, 0nat,
{
    if fuel == 0 {
    } else if a is Variable || b is Variable {
        lemma_unify_resolved_symmetric(apply(s, a), apply(s, b), s, (fuel - 1) as nat);
    } else {
        match a {
            AtomView::Expression(xs) => match b {
                AtomView::Expression(ys) => {
                    if xs.len() == ys.len() {
                        lemma_unify_children_symmetric(xs, ys, 0, s, (fuel - 1) as nat);
                    }
                },
                _ => {},
            },
            _ => {},
        }
    }
}

proof fn lemma_unify_resolved_symmetric(
    a: AtomView,
    b: AtomView,
    s: Seq<(VarView, AtomView)>,
    fuel: nat,
)
    ensures
        unify_resolved(a, b, s, fuel) == unify_resolved(b, a, s, fuel),
    decreases fuel, 1nat,
{
    if a == b {
    } else {
        match a {
            AtomView::Variable(x) => match b {
                AtomView::Variable(y) => {
                    lemma_var_lt_total(x, y);
                },
                _ => {},
            },
            _ => match b {
                AtomView::Variable(y) => {},
                _ => {
                    lemma_unify_symmetric(a, b, s, fuel);
                },
            },
        }
    }
}

proof fn lemma_unify_children_symmetric(
    xs: Seq<AtomView>,
    ys: Seq<AtomView>,
    i: int,
    s: Seq<(VarView, AtomView)>,
    fuel: nat,
)
    requires
        xs.len() == ys.len(),
    ensures
        unify_children(xs, ys, i, s, fuel) == unify_children(ys, xs, i, s, fuel),
    decreases fuel, xs.len() - i + 1,
{
    if i < 0 || i >= xs.len() {
    } else {
        lemma_unify_symmetric(xs[i], ys[i], s, fuel);
        match unify(xs[i], ys[i], s, fuel) {
            None => {},
            Some(s2) => {
                lemma_unify_children_symmetric(xs, ys, i + 1, s2, fuel);
            },
        }
    }
}

/// A match with its two sides exchanged.
pub open spec fn swap_sides(
    r: Seq<(Seq<(VarView, AtomView)>, Seq<(VarView, AtomView)>)>,
) -> Seq<(Seq<(VarView, AtomView)>, Seq<(VarView, AtomView)>)> {
    Seq::new(r.len(), |i: int| (r[i].1, r[i].0))
}

/// Matching is symmetric: `a` matches `b` exactly when `b` matches `a`.
/// Where no match hook is at work, the bindings are the same as well, and
/// seen from the other side the bindings of the atom and those of the
/// pattern change places.
pub proof fn law_match_symmetric(a: AtomView, b: AtomView)
    ensures
        match_atoms_spec(a, b).len() > 0 <==> match_atoms_spec(b, a).len() > 0,
        do_match_spec(a, b).len() > 0 <==> do_match_spec(b, a).len() > 0,
        !matched_by_hook(a, b) ==> match_atoms_spec(a, b) == match_atoms_spec(b, a),
        !matched_by_hook(a, b) ==> do_match_spec(b, a) == swap_sides(do_match_spec(a, b)),
{
    lemma_unify_symmetric(a, b, Seq::empty(), MATCH_DEPTH as nat);
    if !matched_by_hook(a, b) {
        assert(do_match_spec(b, a) =~= swap_sides(do_match_spec(a, b)));
    }
}

/// The nesting depth of an atom: 1 for an atom without children.
pub open spec fn atom_depth(a: AtomView) -> nat
    decreases a, 0nat,
{
    match a {
        AtomView::Expression(c) => 1 + depth_from(c, 0),
        _ => 1,
    }
}

/// The greatest depth among the atoms at or after position `i`.
pub open spec fn depth_from(c: Seq<AtomView>, i: int) -> nat
    decreases c, c.len() - i,
{
    if i < 0 || i >= c.len() {
        0
    } else if atom_depth(c[i]) >= depth_from(c, i + 1) {
        atom_depth(c[i])
    } else {
        depth_from(c, i + 1)
    }
}

proof fn lemma_unify_reflexive(a: AtomView, s: Seq<(VarView, AtomView)>, fuel: nat)
    requires
        atom_depth(a) <= fuel,
    ensures
        unify(a, a, s, fuel) == Some(s),
    decreases a, 0nat,
{
    match a {
        AtomView::Expression(c) => {
            lemma_unify_children_reflexive(c, 0, s, (fuel - 1) as nat);
        },
        _ => {},
    }
}

proof fn lemma_unify_children_reflexive(
    c: Seq<AtomView>,
    i: int,
    s: Seq<(VarView, AtomView)>,
    fuel: nat,
)
    requires
        0 <= i,
        depth_from(c, i) <= fuel,
    ensures
        unify_children(c, c, i, s, fuel) == Some(s),
    decreases c, c.len() - i,
{
    if i < c.len() {
        lemma_unify_reflexive(c[i], s, fuel);
        lemma_unify_children_reflexive(c, i + 1, s, fuel);
    }
}

/// Whether the keys and values of the entries from position `i` on are
/// nested no deeper than matching descends.
pub open spec fn entries_fit_from(e: Seq<(AtomView, AtomView)>, i: int) -> bool
    decreases e.len() - i,
{
    if i < 0 || i >= e.len() {
        true
    } else {
        atom_depth(e[i].0) <= MATCH_DEPTH && atom_depth(e[i].1) <= MATCH_DEPTH && entries_fit_from(
            e,
            i + 1,
        )
    }
}

/// Whether matching can descend to the bottom of the atom: the atom is
/// nested no deeper than matching descends; and where it is matched as a
/// dictionary, it carries a dictionary, whose keys and values are nested
/// no deeper either.
pub open spec fn fits_matching(a: AtomView) -> bool {
    atom_depth(a) <= MATCH_DEPTH && match a {
        AtomView::Grounded(g) => g.do_match == MatchFn::Dictionary ==> match g.value {
            HostView::Dict(e) => entries_fit_from(e, 0),
            _ => false,
        },
        _ => true,
    }
}

proof fn lemma_alternatives_contain(
    data: Seq<(AtomView, AtomView)>,
    j: int,
    d: int,
)
    requires
        0 <= d <= j < data.len(),
        atom_depth(data[j].0) <= MATCH_DEPTH,
        atom_depth(data[j].1) <= MATCH_DEPTH,
    ensures
        dict_alternatives(data, data[j], Seq::empty(), d).contains(Seq::empty()),
    decreases j - d,
{
    let rest = dict_alternatives(data, data[j], Seq::empty(), d + 1);
    let all = dict_alternatives(data, data[j], Seq::empty(), d);
    if d == j {
        lemma_unify_reflexive(data[j].0, Seq::empty(), MATCH_DEPTH as nat);
        lemma_unify_reflexive(data[j].1, Seq::empty(), MATCH_DEPTH as nat);
        assert(all == seq![Seq::<(VarView, AtomView)>::empty()] + rest);
        assert(all[0] == Seq::<(VarView, AtomView)>::empty());
    } else {
        lemma_alternatives_contain(data, j, d + 1);
        let w = choose|w: int| 0 <= w < rest.len() && rest[w] == Seq::<(VarView, AtomView)>::empty();
        match unify_entry(data[d], data[j], Seq::empty()) {
            Some(s2) => {
                assert(all == seq![s2] + rest);
                assert(all[w + 1] == rest[w]);
            },
            None => {},
        }
    }
}

proof fn lemma_step_contains(
    data: Seq<(AtomView, AtomView)>,
    j: int,
    states: Seq<Seq<(VarView, AtomView)>>,
    k: int,
)
    requires
        0 <= j < data.len(),
        atom_depth(data[j].0) <= MATCH_DEPTH,
        atom_depth(data[j].1) <= MATCH_DEPTH,
        0 <= k,
        exists|w: int| k <= w < states.len() && states[w] == Seq::<(VarView, AtomView)>::empty(),
    ensures
        dict_step(data, data[j], states, k).contains(Seq::empty()),
    decreases states.len() - k,
{
    let first = dict_alternatives(data, data[j], states[k], 0);
    let rest = dict_step(data, data[j], states, k + 1);
    let all = dict_step(data, data[j], states, k);
    assert(all == first + rest);
    if states[k] == Seq::<(VarView, AtomView)>::empty() {
        lemma_alternatives_contain(data, j, 0);
        let w = choose|w: int|
            0 <= w < first.len() && first[w] == Seq::<(VarView, AtomView)>::empty();
        assert(all[w] == first[w]);
    } else {
        lemma_step_contains(data, j, states, k + 1);
        let w = choose|w: int| 0 <= w < rest.len() && rest[w] == Seq::<(VarView, AtomView)>::empty();
        assert(all[first.len() + w] == rest[w]);
    }
}

proof fn lemma_fold_contains(
    data: Seq<(AtomView, AtomView)>,
    q: int,
    states: Seq<Seq<(VarView, AtomView)>>,
)
    requires
        0 <= q,
        entries_fit_from(data, q),
        states.contains(Seq::empty()),
    ensures
        dict_fold(data, data, q, states).contains(Seq::empty()),
    decreases data.len() - q,
{
    if q < data.len() {
        let w = choose|w: int|
            0 <= w < states.len() && states[w] == Seq::<(VarView, AtomView)>::empty();
        lemma_step_contains(data, q, states, 0);
        lemma_fold_contains(data, q + 1, dict_step(data, data[q], states, 0));
    }
}

/// Every atom matches itself, and one of the matches binds nothing. Where
/// no match hook is at work, that match is the only one. This holds of
/// atoms that are nested no deeper than matching descends, and not of an
/// atom that is matched as a dictionary without carrying one.
pub proof fn law_match_reflexive(a: AtomView)
    requires
        fits_matching(a),
    ensures
        match_atoms_spec(a, a).contains(Seq::empty()),
        do_match_spec(a, a).contains(
            (Seq::<(VarView, AtomView)>::empty(), Seq::<(VarView, AtomView)>::empty()),
        ),
        !is_dictionary(a) ==> match_atoms_spec(a, a) == seq![Seq::<(VarView, AtomView)>::empty()],
{
    lemma_unify_reflexive(a, Seq::empty(), MATCH_DEPTH as nat);
    let found = match_atoms_spec(a, a);
    if is_dictionary(a) {
        let g = a->Grounded_0;
        match g.value {
            HostView::Dict(e) => {
                let start = seq![Seq::<(VarView, AtomView)>::empty()];
                assert(start[0] == Seq::<(VarView, AtomView)>::empty());
                lemma_fold_contains(e, 0, start);
                assert(hook_match(g, a) == dict_match(e, e));
                assert(found.contains(Seq::empty()));
            },
            _ => {},
        }
    } else {
        assert(found[0] == Seq::<(VarView, AtomView)>::empty());
    }
    let w = choose|w: int| 0 <= w < found.len() && found[w] == Seq::<(VarView, AtomView)>::empty();
    let sides = do_match_spec(a, a);
    assert(restrict(Seq::empty(), a) =~= Seq::<(VarView, AtomView)>::empty());
    assert(sides[w] == (
        Seq::<(VarView, AtomView)>::empty(),
        Seq::<(VarView, AtomView)>::empty(),
    ));
}

/// Whether the pairing pairs every variable with itself.
pub open spec fn is_diagonal(p: Seq<(VarView, VarView)>) -> bool {
    forall|i: int| 0 <= i < p.len() ==> (#[trigger] p[i]).0 == p[i].1
}

proof fn lemma_find_pair_diagonal(p: Seq<(VarView, VarView)>, x: VarView, i: int)
    requires
        is_diagonal(p),
        0 <= i,
    ensures
        find_pair(p, x, x, i) != Some(false),
    decreases p.len() - i,
{
    if i < p.len() {
        if p[i].0 == x || p[i].1 == x {
        } else {
            lemma_find_pair_diagonal(p, x, i + 1);
        }
    }
}

proof fn lemma_rename_reflexive(a: AtomView, p: Seq<(VarView, VarView)>)
    requires
        is_diagonal(p),
    ensures
        rename_step(a, a, p) matches Some(q) && is_diagonal(q),
    decreases a, 0nat,
{
    match a {
        AtomView::Variable(x) => {
            lemma_find_pair_diagonal(p, x, 0);
        },
        AtomView::Expression(c) => {
            lemma_rename_children_reflexive(c, 0, p);
        },
        _ => {},
    }
}

proof fn lemma_rename_children_reflexive(c: Seq<AtomView>, i: int, p: Seq<(VarView, VarView)>)
    requires
        is_diagonal(p),
        0 <= i,
    ensures
        rename_children(c, c, i, p) matches Some(q) && is_diagonal(q),
    decreases c, c.len() - i,
{
    if i < c.len() {
        lemma_rename_reflexive(c[i], p);
        lemma_rename_children_reflexive(c, i + 1, rename_step(c[i], c[i], p)->Some_0);
    }
}

/// A pairing read from right to left.
pub open spec fn swap_pairs(p: Seq<(VarView, VarView)>) -> Seq<(VarView, VarView)> {
    Seq::new(p.len(), |i: int| (p[i].1, p[i].0))
}

/// A pairing that may be absent, read from right to left.
pub open spec fn swap_pairs_opt(o: Option<Seq<(VarView, VarView)>>) -> Option<
    Seq<(VarView, VarView)>,
> {
    match o {
        Some(p) => Some(swap_pairs(p)),
        None => None,
    }
}

proof fn lemma_find_pair_swap(p: Seq<(VarView, VarView)>, x: VarView, y: VarView, i: int)
    requires
        0 <= i,
    ensures
        find_pair(swap_pairs(p), y, x, i) == find_pair(p, x, y, i),
    decreases p.len() - i,
{
    if i < p.len() {
        if p[i].0 == x || p[i].1 == y {
        } else {
            lemma_find_pair_swap(p, x, y, i + 1);
        }
    }
}

proof fn lemma_rename_swap(a: AtomView, b: AtomView, p: Seq<(VarView, VarView)>)
    ensures
        rename_step(b, a, swap_pairs(p)) == swap_pairs_opt(rename_step(a, b, p)),
    decreases a, 0nat,
{
    match a {
        AtomView::Variable(x) => match b {
            AtomView::Variable(y) => {
                lemma_find_pair_swap(p, x, y, 0);
                assert(swap_pairs(p.push((x, y))) =~= swap_pairs(p).push((y, x)));
            },
            _ => {},
        },
        AtomView::Expression(xs) => match b {
            AtomView::Expression(ys) => {
                if xs.len() == ys.len() {
                    lemma_rename_children_swap(xs, ys, 0, p);
                }
            },
            _ => {},
        },
        _ => {},
    }
}

proof fn lemma_rename_children_swap(
    xs: Seq<AtomView>,
    ys: Seq<AtomView>,
    i: int,
    p: Seq<(VarView, VarView)>,
)
    requires
        xs.len() == ys.len(),
        0 <= i,
    ensures
        rename_children(ys, xs, i, swap_pairs(p)) == swap_pairs_opt(rename_children(xs, ys, i, p)),
    decreases xs, xs.len() - i,
{
    if i < xs.len() {
        lemma_rename_swap(xs[i], ys[i], p);
        match rename_step(xs[i], ys[i], p) {
            None => {},
            Some(next) => {
                lemma_rename_children_swap(xs, ys, i + 1, next);
            },
        }
    }
}

/// Every atom is equivalent to itself.
pub proof fn law_equivalence_reflexive(a: AtomView)
    ensures
        equivalent(a, a),
{
    lemma_rename_reflexive(a, Seq::empty());
}

/// Equivalence is symmetric.
pub proof fn law_equivalence_symmetric(a: AtomView, b: AtomView)
    ensures
        equivalent(a, b) == equivalent(b, a),
{
    lemma_rename_swap(a, b, Seq::empty());
    assert(swap_pairs(Seq::empty()) =~= Seq::<(VarView, VarView)>::empty());
}


/// The matches of host data against an atom by equality: one match that
/// binds nothing where the atom is grounded and carries equal data, none
/// otherwise.
pub open spec fn default_match_spec(this: HostView, other: AtomView) -> Seq<
    (Seq<(VarView, AtomView)>, Seq<(VarView, AtomView)>),
> {
    if other matches AtomView::Grounded(g) && g.value == this {
        seq![(Seq::<(VarView, AtomView)>::empty(), Seq::<(VarView, AtomView)>::empty())]
    } else {
        Seq::empty()
    }
}

/// The match hook of atoms without one of their own: matching by equality
/// of the host data.
pub fn default_match(this: &HostValue, other: &Atom) -> (r: Vec<MatchResult>)
    ensures
        results_view(r@) == default_match_spec(this@, other@),
{
    proof {
        lemma_atom_view(*other);
    }
    let mut out: Vec<MatchResult> = Vec::new();
    match other {
        Atom::Grounded(g) => {
            if host_eq(g.value(), this) {
                out.push(MatchResult::new());
            }
        },
        _ => {},
    }
    assert(results_view(out@) =~= default_match_spec(this@, other@));
    out
}

impl GroundedAtom {
    /// The matches of this atom against another, by its match hook.
    pub fn do_match(&self, other: &Atom) -> (r: Vec<MatchResult>)
        ensures
            results_view(r@) == split_sides(
                hook_match(self@, other@),
                AtomView::Grounded(self@),
                other@,
            ),
    {
        let found = hook_matches(self, other);
        let this = Atom::Grounded(self.clone());
        proof {
            lemma_atom_view(this);
        }
        split_matches(&found, &this, other)
    }
}

} // verus!
