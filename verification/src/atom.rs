//! The atom algebra: symbols, variables, expressions and grounded values.

use crate::strings::str_eq;
use vstd::prelude::*;
use vstd::std_specs::cmp::PartialEqSpecImpl;
use vstd::std_specs::convert::FromSpec;
use vstd::std_specs::convert::FromSpecImpl;

verus! {

/// Mathematical value of a variable: its name and its freshness tag.
pub struct VarView {
    pub name: Seq<char>,
    pub id: nat,
}

/// Identity of the hook a grounded atom uses when it is matched.
#[derive(Clone, Copy, Debug, PartialEq, Eq, Structural)]
pub enum MatchFn {
    /// Matches exactly the grounded atoms that carry an equal value.
    Equality,
    /// Matches a dictionary against a dictionary of patterns: each entry
    /// of the pattern has to match an entry of the dictionary.
    Dictionary,
}

/// Identity of the hook a grounded atom uses when it is applied to arguments.
#[derive(Clone, Copy, Debug, PartialEq, Eq, Structural)]
pub enum ExecuteFn {
    /// The atom is plain data and cannot be executed.
    NotImplemented,
    GetType,
    GetMetaType,
    IfEqual,
    Sum,
    Sub,
    Mul,
    Div,
    Mod,
}

/// Mathematical value of the host data carried by a grounded atom.
pub enum HostView {
    Bool(bool),
    I32(int),
    I64(int),
    U64(int),
    Str(Seq<char>),
    StaticStr(Seq<char>),
    List(Seq<HostView>),
    Array(Seq<HostView>),
    Tuple(Seq<HostView>),
    Table(Seq<HostView>),
    Number(int),
    Truth(bool),
    Op(ExecuteFn),
    Space,
    Dict(Seq<(AtomView, AtomView)>),
}

/// Mathematical value of a grounded atom: the host data and the identity of
/// its two hooks.
pub struct GroundedView {
    pub value: HostView,
    pub do_match: MatchFn,
    pub do_execute: ExecuteFn,
}

/// Mathematical value of an atom.
pub enum AtomView {
    Symbol(Seq<char>),
    Variable(VarView),
    Expression(Seq<AtomView>),
    Grounded(GroundedView),
}

/// Host data in the plain form the engine can compare, copy and print.
#[derive(Debug)]
pub enum HostValue {
    Bool(bool),
    I32(i32),
    I64(i64),
    U64(u64),
    /// An owned string.
    Str(String),
    /// A string slice that lives as long as the program.
    StaticStr(&'static str),
    List(Vec<HostValue>),
    Array(Vec<HostValue>),
    Tuple(Vec<HostValue>),
    /// A map: its entries, each a tuple of a key and a value.
    Table(Vec<HostValue>),
    /// An integer of the interpreted language.
    Number(i64),
    /// A truth value of the interpreted language.
    Truth(bool),
    /// A built-in operation, named by the hook that runs it.
    Op(ExecuteFn),
    /// A handle to the space in which the atom is being evaluated.
    Space,
    /// A dictionary: keys and values that are atoms, in the order in which
    /// they were entered.
    Dict(Vec<(Atom, Atom)>),
}

/// Views of the entries of a dictionary.
pub open spec fn dict_view(s: Seq<(Atom, Atom)>) -> Seq<(AtomView, AtomView)> {
    Seq::new(s.len(), |i: int| (s[i].0@, s[i].1@))
}

/// Views of the elements of a sequence of host values.
pub open spec fn hosts_view(s: Seq<HostValue>) -> Seq<HostView> {
    Seq::new(s.len(), |i: int| s[i]@)
}

impl View for HostValue {
    type V = HostView;

    open spec fn view(&self) -> HostView
        decreases self,
    {
        match self {
            HostValue::Bool(b) => HostView::Bool(*b),
            HostValue::I32(n) => HostView::I32(*n as int),
            HostValue::I64(n) => HostView::I64(*n as int),
            HostValue::U64(n) => HostView::U64(*n as int),
            HostValue::Str(s) => HostView::Str(s@),
            HostValue::StaticStr(s) => HostView::StaticStr(s@),
            HostValue::Table(v) => HostView::Table(
                Seq::new(
                    v@.len(),
                    |i: int|
                        if 0 <= i < v@.len() {
                            v@[i].view()
                        } else {
                            HostView::Space
                        },
                ),
            ),
            HostValue::List(v) => HostView::List(
                Seq::new(
                    v@.len(),
                    |i: int|
                        if 0 <= i < v@.len() {
                            v@[i].view()
                        } else {
                            HostView::Space
                        },
                ),
            ),
            HostValue::Array(v) => HostView::Array(
                Seq::new(
                    v@.len(),
                    |i: int|
                        if 0 <= i < v@.len() {
                            v@[i].view()
                        } else {
                            HostView::Space
                        },
                ),
            ),
            HostValue::Tuple(v) => HostView::Tuple(
                Seq::new(
                    v@.len(),
                    |i: int|
                        if 0 <= i < v@.len() {
                            v@[i].view()
                        } else {
                            HostView::Space
                        },
                ),
            ),
            HostValue::Number(n) => HostView::Number(*n as int),
            HostValue::Truth(b) => HostView::Truth(*b),
            HostValue::Op(f) => HostView::Op(*f),
            HostValue::Space => HostView::Space,
            HostValue::Dict(v) => HostView::Dict(entries_view(*v)),
        }
    }
}

/// Views of the entries of a dictionary, as the view of a host value is
/// defined by.
pub closed spec fn entries_view(v: Vec<(Atom, Atom)>) -> Seq<(AtomView, AtomView)>
    decreases v,
{
    Seq::new(
        v@.len(),
        |i: int|
            if 0 <= i < v@.len() {
                (v@[i].0.view(), v@[i].1.view())
            } else {
                (AtomView::Expression(Seq::empty()), AtomView::Expression(Seq::empty()))
            },
    )
}

/// The view of a dictionary is the sequence of the views of its entries,
/// and its entries are smaller than the dictionary.
pub proof fn lemma_dict_view(v: Vec<(Atom, Atom)>)
    ensures
        HostValue::Dict(v)@ == HostView::Dict(dict_view(v@)),
        forall|i: int|
            0 <= i < v@.len() ==> decreases_to!(HostValue::Dict(v) => (#[trigger] v@[i]).0),
        forall|i: int|
            0 <= i < v@.len() ==> decreases_to!(HostValue::Dict(v) => (#[trigger] v@[i]).1),
{
    let h = HostValue::Dict(v);
    assert forall|i: int| 0 <= i < v@.len() implies decreases_to!(h => (#[trigger] v@[i]).0)
        && decreases_to!(h => v@[i].1) by {
        assert(decreases_to!(h => v));
        assert(decreases_to!(v => v[i]));
        assert(decreases_to!(v[i] => v[i].0));
        assert(decreases_to!(v[i] => v[i].1));
    }
    assert(entries_view(v) =~= dict_view(v@));
}

/// The view of a list-like host value is the sequence of its elements' views.
pub proof fn lemma_hosts_view(v: Vec<HostValue>)
    ensures
        HostValue::List(v)@ == HostView::List(hosts_view(v@)),
        HostValue::Array(v)@ == HostView::Array(hosts_view(v@)),
        HostValue::Tuple(v)@ == HostView::Tuple(hosts_view(v@)),
        HostValue::Table(v)@ == HostView::Table(hosts_view(v@)),
        forall|i: int| 0 <= i < v@.len() ==> decreases_to!(HostValue::Table(v) => #[trigger] v@[i]),
        forall|i: int| 0 <= i < v@.len() ==> decreases_to!(HostValue::List(v) => #[trigger] v@[i]),
        forall|i: int| 0 <= i < v@.len() ==> decreases_to!(HostValue::Array(v) => #[trigger] v@[i]),
        forall|i: int| 0 <= i < v@.len() ==> decreases_to!(HostValue::Tuple(v) => #[trigger] v@[i]),
{
    assert(HostValue::List(v)@->List_0 =~= hosts_view(v@));
    assert(HostValue::Array(v)@->Array_0 =~= hosts_view(v@));
    assert(HostValue::Tuple(v)@->Tuple_0 =~= hosts_view(v@));
    assert(HostValue::Table(v)@->Table_0 =~= hosts_view(v@));
}


/// Whether two sequences of host values hold equal values, position by position.
fn hosts_eq(a: &Vec<HostValue>, b: &Vec<HostValue>) -> (r: bool)
    ensures
        r == (hosts_view(a@) == hosts_view(b@)),
    decreases a,
{
    if a.len() != b.len() {
        assert(hosts_view(a@).len() != hosts_view(b@).len());
        return false;
    }
    let mut i: usize = 0;
    while i < a.len()
        invariant
            0 <= i <= a.len(),
            a.len() == b.len(),
            forall|j: int| 0 <= j < i ==> a@[j]@ == b@[j]@,
        decreases a.len() - i,
    {
        if !host_eq(&a[i], &b[i]) {
            assert(hosts_view(a@)[i as int] != hosts_view(b@)[i as int]);
            return false;
        }
        i += 1;
    }
    assert(hosts_view(a@) =~= hosts_view(b@));
    true
}

/// Whether two host values are the same data of the same type.
pub fn host_eq(a: &HostValue, b: &HostValue) -> (r: bool)
    ensures
        r == (a@ == b@),
    decreases a,
{
    match a {
        HostValue::Bool(x) => match b {
            HostValue::Bool(y) => *x == *y,
            _ => false,
        },
        HostValue::I32(x) => match b {
            HostValue::I32(y) => *x == *y,
            _ => false,
        },
        HostValue::I64(x) => match b {
            HostValue::I64(y) => *x == *y,
            _ => false,
        },
        HostValue::U64(x) => match b {
            HostValue::U64(y) => *x == *y,
            _ => false,
        },
        HostValue::Str(x) => match b {
            HostValue::Str(y) => *x == *y,
            _ => false,
        },
        HostValue::StaticStr(x) => match b {
            HostValue::StaticStr(y) => str_eq(x, y),
            _ => false,
        },
        HostValue::Table(x) => match b {
            HostValue::Table(y) => {
                proof {
                    lemma_hosts_view(*x);
                    lemma_hosts_view(*y);
                }
                hosts_eq(x, y)
            },
            _ => false,
        },
        HostValue::List(x) => match b {
            HostValue::List(y) => {
                proof {
                    lemma_hosts_view(*x);
                    lemma_hosts_view(*y);
                }
                hosts_eq(x, y)
            },
            _ => false,
        },
        HostValue::Array(x) => match b {
            HostValue::Array(y) => {
                proof {
                    lemma_hosts_view(*x);
                    lemma_hosts_view(*y);
                }
                hosts_eq(x, y)
            },
            _ => false,
        },
        HostValue::Tuple(x) => match b {
            HostValue::Tuple(y) => {
                proof {
                    lemma_hosts_view(*x);
                    lemma_hosts_view(*y);
                }
                hosts_eq(x, y)
            },
            _ => false,
        },
        HostValue::Number(x) => match b {
            HostValue::Number(y) => *x == *y,
            _ => false,
        },
        HostValue::Truth(x) => match b {
            HostValue::Truth(y) => *x == *y,
            _ => false,
        },
        HostValue::Op(x) => match b {
            HostValue::Op(y) => *x == *y,
            _ => false,
        },
        HostValue::Space => match b {
            HostValue::Space => true,
            _ => false,
        },
        HostValue::Dict(x) => match b {
            HostValue::Dict(y) => {
                proof {
                    lemma_dict_view(*x);
                    lemma_dict_view(*y);
                }
                dicts_eq(x, y)
            },
            _ => false,
        },
    }
}

fn dicts_eq(a: &Vec<(Atom, Atom)>, b: &Vec<(Atom, Atom)>) -> (r: bool)
    ensures
        r == (dict_view(a@) == dict_view(b@)),
    decreases a,
{
    if a.len() != b.len() {
        assert(dict_view(a@).len() != dict_view(b@).len());
        return false;
    }
    let mut i: usize = 0;
    while i < a.len()
        invariant
            0 <= i <= a.len(),
            a.len() == b.len(),
            forall|j: int| 0 <= j < i ==> a@[j].0@ == b@[j].0@ && a@[j].1@ == b@[j].1@,
        decreases a.len() - i,
    {
        if !atom_eq(&a[i].0, &b[i].0) || !atom_eq(&a[i].1, &b[i].1) {
            assert(dict_view(a@)[i as int] != dict_view(b@)[i as int]);
            return false;
        }
        i += 1;
    }
    assert(dict_view(a@) =~= dict_view(b@));
    true
}

fn dict_clone(a: &Vec<(Atom, Atom)>) -> (r: Vec<(Atom, Atom)>)
    ensures
        dict_view(r@) == dict_view(a@),
    decreases a,
{
    let mut out: Vec<(Atom, Atom)> = Vec::new();
    let mut i: usize = 0;
    while i < a.len()
        invariant
            0 <= i <= a.len(),
            out.len() == i,
            forall|j: int| 0 <= j < i ==> out@[j].0@ == a@[j].0@ && out@[j].1@ == a@[j].1@,
        decreases a.len() - i,
    {
        out.push((a[i].0.clone(), a[i].1.clone()));
        i += 1;
    }
    assert(dict_view(out@) =~= dict_view(a@));
    out
}

/// Copies of the elements of a sequence of host values.
fn hosts_clone(a: &Vec<HostValue>) -> (r: Vec<HostValue>)
    ensures
        hosts_view(r@) == hosts_view(a@),
    decreases a,
{
    let mut out: Vec<HostValue> = Vec::new();
    let mut i: usize = 0;
    while i < a.len()
        invariant
            0 <= i <= a.len(),
            out.len() == i,
            forall|j: int| 0 <= j < i ==> out@[j]@ == a@[j]@,
        decreases a.len() - i,
    {
        out.push(a[i].clone());
        i += 1;
    }
    assert(hosts_view(out@) =~= hosts_view(a@));
    out
}

impl Clone for HostValue {
    fn clone(&self) -> (r: Self)
        ensures
            r@ == self@,
        decreases self,
    {
        match self {
            HostValue::Bool(x) => HostValue::Bool(*x),
            HostValue::I32(x) => HostValue::I32(*x),
            HostValue::I64(x) => HostValue::I64(*x),
            HostValue::U64(x) => HostValue::U64(*x),
            HostValue::Str(x) => HostValue::Str(x.clone()),
            HostValue::StaticStr(x) => HostValue::StaticStr(*x),
            HostValue::Table(x) => {
                let v = hosts_clone(x);
                proof {
                    lemma_hosts_view(*x);
                    lemma_hosts_view(v);
                }
                HostValue::Table(v)
            },
            HostValue::List(x) => {
                let v = hosts_clone(x);
                proof {
                    lemma_hosts_view(*x);
                    lemma_hosts_view(v);
                }
                HostValue::List(v)
            },
            HostValue::Array(x) => {
                let v = hosts_clone(x);
                proof {
                    lemma_hosts_view(*x);
                    lemma_hosts_view(v);
                }
                HostValue::Array(v)
            },
            HostValue::Tuple(x) => {
                let v = hosts_clone(x);
                proof {
                    lemma_hosts_view(*x);
                    lemma_hosts_view(v);
                }
                HostValue::Tuple(v)
            },
            HostValue::Number(x) => HostValue::Number(*x),
            HostValue::Truth(x) => HostValue::Truth(*x),
            HostValue::Op(x) => HostValue::Op(*x),
            HostValue::Space => HostValue::Space,
            HostValue::Dict(x) => {
                let v = dict_clone(x);
                proof {
                    lemma_dict_view(*x);
                    lemma_dict_view(v);
                }
                HostValue::Dict(v)
            },
        }
    }
}

impl PartialEq for HostValue {
    fn eq(&self, other: &Self) -> (r: bool) {
        host_eq(self, other)
    }
}

impl PartialEqSpecImpl for HostValue {
    open spec fn obeys_eq_spec() -> bool {
        true
    }

    open spec fn eq_spec(&self, other: &Self) -> bool {
        self@ == other@
    }
}

impl Eq for HostValue {

}


/// A symbol: a name that stands for itself.
#[derive(Debug, Hash)]
pub struct SymbolAtom {
    name: String,
}

impl View for SymbolAtom {
    type V = Seq<char>;

    closed spec fn view(&self) -> Seq<char> {
        self.name@
    }
}

impl SymbolAtom {
    pub fn new(name: String) -> (r: Self)
        ensures
            r@ == name@,
    {
        SymbolAtom { name }
    }

    pub fn name(&self) -> (r: &str)
        ensures
            r@ == self@,
    {
        self.name.as_str()
    }

    /// The name as it is written in source text.
    pub fn to_string(&self) -> (r: String)
        ensures
            r@ == self@,
    {
        self.name.clone()
    }
}

impl Clone for SymbolAtom {
    fn clone(&self) -> (r: Self)
        ensures
            r@ == self@,
    {
        SymbolAtom { name: self.name.clone() }
    }
}

impl PartialEq for SymbolAtom {
    fn eq(&self, other: &Self) -> (r: bool) {
        self.name == other.name
    }
}

impl PartialEqSpecImpl for SymbolAtom {
    open spec fn obeys_eq_spec() -> bool {
        true
    }

    open spec fn eq_spec(&self, other: &Self) -> bool {
        self@ == other@
    }
}

impl Eq for SymbolAtom {

}

/// A variable: a name and a freshness tag. Tag 0 is the tag of variables as
/// they are written; renaming gives a variable another tag.
#[derive(Debug, Hash)]
pub struct VariableAtom {
    name: String,
    id: u64,
}

impl View for VariableAtom {
    type V = VarView;

    closed spec fn view(&self) -> VarView {
        VarView { name: self.name@, id: self.id as nat }
    }
}

impl VariableAtom {
    pub fn new(name: String) -> (r: Self)
        ensures
            r@ == (VarView { name: name@, id: 0 }),
    {
        VariableAtom { name, id: 0 }
    }

    /// The variable of this name that carries the tag `id`.
    pub fn new_id(name: String, id: u64) -> (r: Self)
        ensures
            r@ == (VarView { name: name@, id: id as nat }),
    {
        VariableAtom { name, id }
    }

    pub fn name(&self) -> (r: &str)
        ensures
            r@ == self@.name,
    {
        self.name.as_str()
    }

    pub fn id(&self) -> (r: u64)
        ensures
            r == self@.id,
    {
        self.id
    }

    /// The same name under the tag `id`.
    pub fn with_id(&self, id: u64) -> (r: Self)
        ensures
            r@ == (VarView { name: self@.name, id: id as nat }),
    {
        VariableAtom { name: self.name.clone(), id }
    }
}

impl Clone for VariableAtom {
    fn clone(&self) -> (r: Self)
        ensures
            r@ == self@,
    {
        VariableAtom { name: self.name.clone(), id: self.id }
    }
}

impl PartialEq for VariableAtom {
    fn eq(&self, other: &Self) -> (r: bool) {
        self.id == other.id && self.name == other.name
    }
}

impl PartialEqSpecImpl for VariableAtom {
    open spec fn obeys_eq_spec() -> bool {
        true
    }

    open spec fn eq_spec(&self, other: &Self) -> bool {
        self@ == other@
    }
}

impl Eq for VariableAtom {

}

/// A grounded atom: host data and the identity of the two hooks that say
/// how it is matched and how it is executed.
#[derive(Debug)]
pub struct GroundedAtom {
    value: HostValue,
    do_match: MatchFn,
    do_execute: ExecuteFn,
}

impl View for GroundedAtom {
    type V = GroundedView;

    closed spec fn view(&self) -> GroundedView
        decreases self,
    {
        GroundedView {
            value: self.value.view(),
            do_match: self.do_match,
            do_execute: self.do_execute,
        }
    }
}

impl Clone for GroundedAtom {
    fn clone(&self) -> (r: Self)
        ensures
            r@ == self@,
        decreases self,
    {
        GroundedAtom {
            value: self.value.clone(),
            do_match: self.do_match,
            do_execute: self.do_execute,
        }
    }
}

impl PartialEq for GroundedAtom {
    fn eq(&self, other: &Self) -> (r: bool) {
        host_eq(&self.value, &other.value) && self.do_match == other.do_match && self.do_execute
            == other.do_execute
    }
}

impl PartialEqSpecImpl for GroundedAtom {
    open spec fn obeys_eq_spec() -> bool {
        true
    }

    open spec fn eq_spec(&self, other: &Self) -> bool {
        self@ == other@
    }
}

impl Eq for GroundedAtom {

}

/// An expression: an ordered sequence of atoms, possibly empty.
#[derive(Debug)]
pub struct ExpressionAtom {
    children: Vec<Atom>,
}

/// An atom: the unit of data of the engine.
#[derive(Debug)]
pub enum Atom {
    Symbol(SymbolAtom),
    Expression(ExpressionAtom),
    Variable(VariableAtom),
    Grounded(GroundedAtom),
}

/// Views of the elements of a sequence of atoms.
pub open spec fn atoms_view(s: Seq<Atom>) -> Seq<AtomView> {
    Seq::new(s.len(), |i: int| s[i]@)
}

impl View for Atom {
    type V = AtomView;

    closed spec fn view(&self) -> AtomView
        decreases self,
    {
        match self {
            Atom::Symbol(s) => AtomView::Symbol(s@),
            Atom::Variable(v) => AtomView::Variable(v@),
            Atom::Grounded(g) => AtomView::Grounded(g.view()),
            Atom::Expression(e) => AtomView::Expression(e.view()),
        }
    }
}

impl View for ExpressionAtom {
    type V = Seq<AtomView>;

    closed spec fn view(&self) -> Seq<AtomView>
        decreases self,
    {
        Seq::new(
            self.children@.len(),
            |i: int|
                if 0 <= i < self.children@.len() {
                    self.children@[i].view()
                } else {
                    AtomView::Expression(Seq::empty())
                },
        )
    }
}

/// What the view of an atom is, variant by variant, and that the children
/// of an expression are smaller than the expression.
pub proof fn lemma_atom_view(a: Atom)
    ensures
        a matches Atom::Symbol(s) ==> a@ == AtomView::Symbol(s@),
        a matches Atom::Variable(v) ==> a@ == AtomView::Variable(v@),
        a matches Atom::Grounded(g) ==> a@ == AtomView::Grounded(g@),
        a matches Atom::Expression(e) ==> a@ == AtomView::Expression(e@) && e@ == atoms_view(
            e.children_spec()@,
        ),
{
    match a {
        Atom::Expression(e) => {
            lemma_expression_view(e);
        },
        _ => {},
    }
}

proof fn lemma_expression_view(e: ExpressionAtom)
    ensures
        Atom::Expression(e)@ == AtomView::Expression(e@),
        e@ == atoms_view(e.children@),
{
    assert(e@ =~= atoms_view(e.children@));
}

/// The host data of a grounded atom is smaller than the atom.
pub proof fn lemma_grounded_decrease(a: Atom)
    ensures
        a matches Atom::Grounded(g) ==> decreases_to!(a => g.value_spec()),
{
}

/// The children of an expression are smaller than the expression, which
/// is what recursion over atoms descends by.
pub proof fn lemma_children_decrease(a: Atom)
    ensures
        a matches Atom::Expression(e) ==> forall|i: int|
            0 <= i < e.children_spec()@.len() ==> decreases_to!(a => #[trigger] e.children_spec()@[i]),
        a matches Atom::Expression(e) ==> decreases_to!(a => e.children_spec()),
{
}

fn atoms_eq(a: &Vec<Atom>, b: &Vec<Atom>) -> (r: bool)
    ensures
        r == (atoms_view(a@) == atoms_view(b@)),
    decreases a,
{
    if a.len() != b.len() {
        assert(atoms_view(a@).len() != atoms_view(b@).len());
        return false;
    }
    let mut i: usize = 0;
    while i < a.len()
        invariant
            0 <= i <= a.len(),
            a.len() == b.len(),
            forall|j: int| 0 <= j < i ==> a@[j]@ == b@[j]@,
        decreases a.len() - i,
    {
        if !atom_eq(&a[i], &b[i]) {
            assert(atoms_view(a@)[i as int] != atoms_view(b@)[i as int]);
            return false;
        }
        i += 1;
    }
    assert(atoms_view(a@) =~= atoms_view(b@));
    true
}

/// Structural equality of atoms: the same variant with equal contents.
pub fn atom_eq(a: &Atom, b: &Atom) -> (r: bool)
    ensures
        r == (a@ == b@),
    decreases a,
{
    proof {
        lemma_atom_view(*a);
        lemma_atom_view(*b);
    }
    match a {
        Atom::Symbol(x) => match b {
            Atom::Symbol(y) => x.name == y.name,
            _ => false,
        },
        Atom::Variable(x) => match b {
            Atom::Variable(y) => x.id == y.id && x.name == y.name,
            _ => false,
        },
        Atom::Grounded(x) => match b {
            Atom::Grounded(y) => host_eq(&x.value, &y.value) && x.do_match == y.do_match
                && x.do_execute == y.do_execute,
            _ => false,
        },
        Atom::Expression(x) => match b {
            Atom::Expression(y) => atoms_eq(&x.children, &y.children),
            _ => false,
        },
    }
}

/// Copies of the atoms of a sequence, in order.
pub fn atoms_clone(a: &Vec<Atom>) -> (r: Vec<Atom>)
    ensures
        atoms_view(r@) == atoms_view(a@),
    decreases a,
{
    let mut out: Vec<Atom> = Vec::new();
    let mut i: usize = 0;
    while i < a.len()
        invariant
            0 <= i <= a.len(),
            out.len() == i,
            forall|j: int| 0 <= j < i ==> out@[j]@ == a@[j]@,
        decreases a.len() - i,
    {
        out.push(a[i].clone());
        i += 1;
    }
    assert(atoms_view(out@) =~= atoms_view(a@));
    out
}

impl Clone for Atom {
    fn clone(&self) -> (r: Self)
        ensures
            r@ == self@,
        decreases self,
    {
        proof {
            lemma_atom_view(*self);
        }
        let r = match self {
            Atom::Symbol(x) => Atom::Symbol(x.clone()),
            Atom::Variable(x) => Atom::Variable(x.clone()),
            Atom::Grounded(x) => Atom::Grounded(x.clone()),
            Atom::Expression(x) => Atom::Expression(
                ExpressionAtom { children: atoms_clone(&x.children) },
            ),
        };
        proof {
            lemma_atom_view(r);
        }
        r
    }
}

impl PartialEq for Atom {
    fn eq(&self, other: &Self) -> (r: bool) {
        atom_eq(self, other)
    }
}

impl PartialEqSpecImpl for Atom {
    open spec fn obeys_eq_spec() -> bool {
        true
    }

    open spec fn eq_spec(&self, other: &Self) -> bool {
        self@ == other@
    }
}

impl Eq for Atom {

}

impl Clone for ExpressionAtom {
    fn clone(&self) -> (r: Self)
        ensures
            r@ == self@,
    {
        let r = ExpressionAtom { children: atoms_clone(&self.children) };
        proof {
            lemma_expression_view(*self);
            lemma_expression_view(r);
        }
        r
    }
}

impl PartialEq for ExpressionAtom {
    fn eq(&self, other: &Self) -> (r: bool) {
        proof {
            lemma_expression_view(*self);
            lemma_expression_view(*other);
        }
        atoms_eq(&self.children, &other.children)
    }
}

impl PartialEqSpecImpl for ExpressionAtom {
    open spec fn obeys_eq_spec() -> bool {
        true
    }

    open spec fn eq_spec(&self, other: &Self) -> bool {
        self@ == other@
    }
}

impl Eq for ExpressionAtom {

}

impl ExpressionAtom {
    pub fn new(children: Vec<Atom>) -> (r: Self)
        ensures
            r@ == atoms_view(children@),
            r.children_spec() == children,
    {
        let r = ExpressionAtom { children };
        proof {
            lemma_expression_view(r);
        }
        r
    }

    /// The children as executable values.
    pub closed spec fn children_spec(&self) -> Vec<Atom> {
        self.children
    }

    /// Whether no child is itself an expression.
    pub fn is_plain(&self) -> (r: bool)
        ensures
            r == forall|i: int| 0 <= i < self@.len() ==> !(#[trigger] self@[i] is Expression),
    {
        let mut i: usize = 0;
        proof {
            lemma_expression_view(*self);
        }
        while i < self.children.len()
            invariant
                0 <= i <= self.children.len(),
                self@ == atoms_view(self.children@),
                forall|j: int| 0 <= j < i ==> !(#[trigger] self@[j] is Expression),
            decreases self.children.len() - i,
        {
            proof {
                lemma_atom_view(self.children@[i as int]);
            }
            if let Atom::Expression(_) = &self.children[i] {
                assert(self@[i as int] is Expression);
                return false;
            }
            i += 1;
        }
        true
    }

    pub fn children(&self) -> (r: &Vec<Atom>)
        ensures
            *r == self.children_spec(),
            atoms_view(r@) == self@,
    {
        proof {
            lemma_expression_view(*self);
        }
        &self.children
    }

    pub fn children_mut(&mut self) -> (r: &mut Vec<Atom>)
        ensures
            *r == old(self).children_spec(),
            final(self).children_spec() == *final(r),
    {
        &mut self.children
    }
}


impl GroundedAtom {
    /// A grounded atom with the given host data and hooks.
    pub fn new(value: HostValue, do_match: MatchFn, do_execute: ExecuteFn) -> (r: Self)
        ensures
            r@ == (GroundedView { value: value@, do_match, do_execute }),
    {
        GroundedAtom { value, do_match, do_execute }
    }

    /// The host data.
    pub fn value(&self) -> (r: &HostValue)
        ensures
            r@ == self@.value,
            *r == self.value_spec(),
    {
        &self.value
    }

    /// The host data as an executable value.
    pub closed spec fn value_spec(&self) -> HostValue {
        self.value
    }

    /// The host data is what the view shows.
    pub proof fn lemma_value(&self)
        ensures
            self@.value == self.value_spec()@,
    {
    }

    /// The host data, to be changed in place.
    pub fn value_mut(&mut self) -> (r: &mut HostValue)
        ensures
            *r == old(self).value_spec(),
            final(self).value_spec() == *final(r),
            final(self)@.do_match == old(self)@.do_match,
            final(self)@.do_execute == old(self)@.do_execute,
    {
        &mut self.value
    }

    /// The identity of the match hook.
    pub fn match_fn(&self) -> (r: MatchFn)
        ensures
            r == self@.do_match,
    {
        self.do_match
    }

    /// The identity of the execute hook.
    pub fn execute_fn(&self) -> (r: ExecuteFn)
        ensures
            r == self@.do_execute,
    {
        self.do_execute
    }
}

impl Atom {
    /// The symbol of the given name.
    pub fn sym(name: &str) -> (r: Self)
        ensures
            r@ == AtomView::Symbol(name@),
    {
        let r = Atom::Symbol(SymbolAtom { name: String::from_str(name) });
        proof {
            lemma_atom_view(r);
        }
        r
    }

    /// The variable of the given name, as written (tag 0).
    pub fn var(name: &str) -> (r: Self)
        ensures
            r@ == AtomView::Variable(VarView { name: name@, id: 0 }),
    {
        let r = Atom::Variable(VariableAtom { name: String::from_str(name), id: 0 });
        proof {
            lemma_atom_view(r);
        }
        r
    }

    /// The expression whose children are copies of the given atoms.
    pub fn expr(children: &[Atom]) -> (r: Self)
        ensures
            r@ == AtomView::Expression(atoms_view(children@)),
    {
        let mut out: Vec<Atom> = Vec::new();
        let mut i: usize = 0;
        while i < children.len()
            invariant
                0 <= i <= children.len(),
                out.len() == i,
                forall|j: int| 0 <= j < i ==> out@[j]@ == children@[j]@,
            decreases children.len() - i,
        {
            out.push(children[i].clone());
            i += 1;
        }
        assert(atoms_view(out@) =~= atoms_view(children@));
        Atom::expr_vec(out)
    }

    /// The expression that owns the given children.
    pub fn expr_vec(children: Vec<Atom>) -> (r: Self)
        ensures
            r@ == AtomView::Expression(atoms_view(children@)),
            r matches Atom::Expression(e) && e.children_spec() == children,
    {
        let r = Atom::Expression(ExpressionAtom { children });
        proof {
            lemma_atom_view(r);
        }
        r
    }

    /// The grounded atom with the given host data and hooks, as a value.
    pub closed spec fn gnd_spec(value: HostValue, do_match: MatchFn, do_execute: ExecuteFn) -> Atom {
        Atom::Grounded(GroundedAtom { value, do_match, do_execute })
    }

    /// The view of the grounded atom with the given host data and hooks.
    pub proof fn lemma_gnd_spec(value: HostValue, do_match: MatchFn, do_execute: ExecuteFn)
        ensures
            Atom::gnd_spec(value, do_match, do_execute)@ == AtomView::Grounded(
                GroundedView { value: value@, do_match, do_execute },
            ),
    {
        lemma_atom_view(Atom::gnd_spec(value, do_match, do_execute));
    }

    /// The grounded atom with the given host data and hooks.
    pub fn gnd(value: HostValue, do_match: MatchFn, do_execute: ExecuteFn) -> (r: Self)
        ensures
            r@ == AtomView::Grounded(GroundedView { value: value@, do_match, do_execute }),
            r == Atom::gnd_spec(value, do_match, do_execute),
    {
        let r = Atom::Grounded(GroundedAtom { value, do_match, do_execute });
        proof {
            lemma_atom_view(r);
        }
        r
    }
}


impl From<String> for SymbolAtom {
    fn from(name: String) -> (r: Self) {
        SymbolAtom { name }
    }
}

impl FromSpecImpl<String> for SymbolAtom {
    open spec fn obeys_from_spec() -> bool {
        true
    }

    closed spec fn from_spec(name: String) -> Self {
        SymbolAtom { name }
    }
}

impl From<String> for VariableAtom {
    fn from(name: String) -> (r: Self) {
        VariableAtom { name, id: 0 }
    }
}

impl FromSpecImpl<String> for VariableAtom {
    open spec fn obeys_from_spec() -> bool {
        true
    }

    closed spec fn from_spec(name: String) -> Self {
        VariableAtom { name, id: 0 }
    }
}

impl From<Vec<Atom>> for ExpressionAtom {
    fn from(children: Vec<Atom>) -> (r: Self) {
        ExpressionAtom { children }
    }
}

impl FromSpecImpl<Vec<Atom>> for ExpressionAtom {
    open spec fn obeys_from_spec() -> bool {
        true
    }

    closed spec fn from_spec(children: Vec<Atom>) -> Self {
        ExpressionAtom { children }
    }
}

/// What the conversions from plain values make: the symbol and the
/// variable of the name, with the tag 0, and the expression of the
/// children.
pub proof fn lemma_from_views(name: String, children: Vec<Atom>)
    ensures
        <SymbolAtom as FromSpec<String>>::from_spec(name)@ == name@,
        <VariableAtom as FromSpec<String>>::from_spec(name)@ == (VarView { name: name@, id: 0 }),
        <ExpressionAtom as FromSpec<Vec<Atom>>>::from_spec(children)@ == atoms_view(children@),
{
    lemma_expression_view(ExpressionAtom { children });
}

} // verus!
