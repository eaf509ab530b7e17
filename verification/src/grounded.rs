//! Host values as grounded atoms: which values of the host language can be
//! carried by an atom, and how they are put in and taken out.

use crate::atom::{
    atom_eq, dict_view, hosts_view, lemma_atom_view, lemma_dict_view, lemma_hosts_view, Atom,
    AtomView, ExecuteFn, GroundedAtom, GroundedView, HostValue, HostView, MatchFn,
};
use vstd::std_specs::convert::FromSpec;
use vstd::std_specs::convert::FromSpecImpl;
use crate::atom::host_eq;
use crate::display::host_display;
use crate::strings::{
    chars_to_u64, parse_numeral, seq_lt, str_chars, str_eq, str_lt, str_to_string,
};
use vstd::array::array_fill_for_copy_types;
use vstd::prelude::*;

verus! {

/// A type of the host language whose values a grounded atom can carry.
pub trait GroundedValue: Sized {
    /// The host data that stands for the value.
    spec fn host_view(&self) -> HostView;

    /// Whether host data stands for a value of this type that can be taken
    /// out of an atom again.
    spec fn holds(value: HostView) -> bool;

    /// The host data that stands for the value.
    fn to_host(&self) -> (r: HostValue)
        ensures
            r@ == self.host_view(),
    ;

    /// The value that the host data stands for, where it stands for one of
    /// this type.
    fn from_host(value: &HostValue) -> (r: Option<Self>)
        ensures
            r is Some == Self::holds(value@),
            r matches Some(x) ==> x.host_view() == value@,
    ;

    /// What was put in comes out: the host data that stands for a value is
    /// host data from which a value of the type can be taken.
    proof fn law_holds(&self)
        ensures
            Self::holds(self.host_view()),
    ;
}

impl GroundedValue for bool {
    open spec fn host_view(&self) -> HostView {
        HostView::Bool(*self)
    }

    open spec fn holds(value: HostView) -> bool {
        value is Bool
    }

    proof fn law_holds(&self) {
    }

    fn to_host(&self) -> (r: HostValue) {
        HostValue::Bool(*self)
    }

    fn from_host(value: &HostValue) -> (r: Option<Self>) {
        match value {
            HostValue::Bool(b) => Some(*b),
            _ => None,
        }
    }
}

impl GroundedValue for i32 {
    open spec fn host_view(&self) -> HostView {
        HostView::I32(*self as int)
    }

    open spec fn holds(value: HostView) -> bool {
        value is I32
    }

    proof fn law_holds(&self) {
    }

    fn to_host(&self) -> (r: HostValue) {
        HostValue::I32(*self)
    }

    fn from_host(value: &HostValue) -> (r: Option<Self>) {
        match value {
            HostValue::I32(n) => Some(*n),
            _ => None,
        }
    }
}

impl GroundedValue for i64 {
    open spec fn host_view(&self) -> HostView {
        HostView::I64(*self as int)
    }

    open spec fn holds(value: HostView) -> bool {
        value is I64
    }

    proof fn law_holds(&self) {
    }

    fn to_host(&self) -> (r: HostValue) {
        HostValue::I64(*self)
    }

    fn from_host(value: &HostValue) -> (r: Option<Self>) {
        match value {
            HostValue::I64(n) => Some(*n),
            _ => None,
        }
    }
}

impl GroundedValue for u64 {
    open spec fn host_view(&self) -> HostView {
        HostView::U64(*self as int)
    }

    open spec fn holds(value: HostView) -> bool {
        value is U64
    }

    proof fn law_holds(&self) {
    }

    fn to_host(&self) -> (r: HostValue) {
        HostValue::U64(*self)
    }

    fn from_host(value: &HostValue) -> (r: Option<Self>) {
        match value {
            HostValue::U64(n) => Some(*n),
            _ => None,
        }
    }
}

impl GroundedValue for String {
    open spec fn host_view(&self) -> HostView {
        HostView::Str(self@)
    }

    open spec fn holds(value: HostView) -> bool {
        value is Str
    }

    proof fn law_holds(&self) {
    }

    fn to_host(&self) -> (r: HostValue) {
        HostValue::Str(self.clone())
    }

    fn from_host(value: &HostValue) -> (r: Option<Self>) {
        match value {
            HostValue::Str(s) => Some(s.clone()),
            _ => None,
        }
    }
}

/// A string slice that lives as long as the program is carried as it is,
/// and kept apart from an owned string of the same text.
impl GroundedValue for &'static str {
    open spec fn host_view(&self) -> HostView {
        HostView::StaticStr(self@)
    }

    open spec fn holds(value: HostView) -> bool {
        value is StaticStr
    }

    proof fn law_holds(&self) {
    }

    fn to_host(&self) -> (r: HostValue) {
        HostValue::StaticStr(*self)
    }

    fn from_host(value: &HostValue) -> (r: Option<Self>) {
        match value {
            HostValue::StaticStr(s) => Some(*s),
            _ => None,
        }
    }
}

/// The host data of the elements of a sequence of values.
pub open spec fn values_view<T: GroundedValue>(s: Seq<T>) -> Seq<HostView> {
    Seq::new(s.len(), |i: int| s[i].host_view())
}

/// Whether each of the host data stands for a value of the type.
pub open spec fn all_hold<T: GroundedValue>(s: Seq<HostView>) -> bool {
    forall|i: int| 0 <= i < s.len() ==> T::holds(#[trigger] s[i])
}

fn values_to_host<T: GroundedValue>(values: &[T]) -> (r: Vec<HostValue>)
    ensures
        hosts_view(r@) == values_view(values@),
{
    let mut out: Vec<HostValue> = Vec::new();
    let mut i: usize = 0;
    while i < values.len()
        invariant
            0 <= i <= values.len(),
            out.len() == i,
            forall|j: int| 0 <= j < i ==> out@[j]@ == values@[j].host_view(),
        decreases values.len() - i,
    {
        out.push(values[i].to_host());
        i += 1;
    }
    assert(hosts_view(out@) =~= values_view(values@));
    out
}

fn values_from_host<T: GroundedValue>(data: &Vec<HostValue>) -> (r: Option<Vec<T>>)
    ensures
        r is Some == all_hold::<T>(hosts_view(data@)),
        r matches Some(v) ==> values_view(v@) == hosts_view(data@),
{
    let mut out: Vec<T> = Vec::new();
    let mut i: usize = 0;
    while i < data.len()
        invariant
            0 <= i <= data.len(),
            out.len() == i,
            forall|j: int| 0 <= j < i ==> T::holds(#[trigger] hosts_view(data@)[j]),
            forall|j: int| 0 <= j < i ==> out@[j].host_view() == data@[j]@,
        decreases data.len() - i,
    {
        assert(hosts_view(data@)[i as int] == data@[i as int]@);
        match T::from_host(&data[i]) {
            Some(x) => {
                out.push(x);
            },
            None => {
                return None;
            },
        }
        i += 1;
    }
    assert(values_view(out@) =~= hosts_view(data@));
    Some(out)
}

impl<T: GroundedValue> GroundedValue for Vec<T> {
    open spec fn host_view(&self) -> HostView {
        HostView::List(values_view(self@))
    }

    open spec fn holds(value: HostView) -> bool {
        value matches HostView::List(s) && all_hold::<T>(s)
    }

    proof fn law_holds(&self) {
        assert forall|i: int| 0 <= i < self@.len() implies T::holds(
            #[trigger] values_view(self@)[i],
        ) by {
            self@[i].law_holds();
        }
    }

    fn to_host(&self) -> (r: HostValue) {
        let data = values_to_host(self.as_slice());
        proof {
            lemma_hosts_view(data);
        }
        HostValue::List(data)
    }

    fn from_host(value: &HostValue) -> (r: Option<Self>) {
        match value {
            HostValue::List(data) => {
                proof {
                    lemma_hosts_view(*data);
                }
                values_from_host(data)
            },
            _ => None,
        }
    }
}

/// An array is carried as the sequence of its elements.
impl<T: GroundedValue + Copy + Default, const N: usize> GroundedValue for [T; N] {
    open spec fn host_view(&self) -> HostView {
        HostView::Array(values_view(self@))
    }

    open spec fn holds(value: HostView) -> bool {
        value matches HostView::Array(s) && s.len() == N && all_hold::<T>(s)
    }

    proof fn law_holds(&self) {
        assert forall|i: int| 0 <= i < self@.len() implies T::holds(
            #[trigger] values_view(self@)[i],
        ) by {
            self@[i].law_holds();
        }
    }

    fn to_host(&self) -> (r: HostValue) {
        let data = values_to_host(self.as_slice());
        proof {
            lemma_hosts_view(data);
        }
        HostValue::Array(data)
    }

    fn from_host(value: &HostValue) -> (r: Option<Self>) {
        match value {
            HostValue::Array(data) => {
                proof {
                    lemma_hosts_view(*data);
                }
                if data.len() != N {
                    return None;
                }
                let mut out: [T; N] = array_fill_for_copy_types(T::default());
                let mut i: usize = 0;
                while i < N
                    invariant
                        0 <= i <= N,
                        data.len() == N,
                        value@ == HostView::Array(hosts_view(data@)),
                        forall|j: int| 0 <= j < i ==> T::holds(#[trigger] hosts_view(data@)[j]),
                        forall|j: int| 0 <= j < i ==> out@[j].host_view() == data@[j]@,
                    decreases N - i,
                {
                    assert(hosts_view(data@)[i as int] == data@[i as int]@);
                    match T::from_host(&data[i]) {
                        Some(x) => {
                            out[i] = x;
                        },
                        None => {
                            assert(!T::holds(hosts_view(data@)[i as int]));
                            return None;
                        },
                    }
                    i += 1;
                }
                assert(values_view(out@) =~= hosts_view(data@));
                Some(out)
            },
            _ => None,
        }
    }
}

impl<A: GroundedValue, B: GroundedValue> GroundedValue for (A, B) {
    open spec fn host_view(&self) -> HostView {
        HostView::Tuple(seq![self.0.host_view(), self.1.host_view()])
    }

    open spec fn holds(value: HostView) -> bool {
        value matches HostView::Tuple(s) && s.len() == 2 && A::holds(s[0]) && B::holds(s[1])
    }

    proof fn law_holds(&self) {
        self.0.law_holds();
        self.1.law_holds();
    }

    fn to_host(&self) -> (r: HostValue) {
        let mut data: Vec<HostValue> = Vec::new();
        data.push(self.0.to_host());
        data.push(self.1.to_host());
        proof {
            lemma_hosts_view(data);
        }
        assert(hosts_view(data@) =~= seq![self.0.host_view(), self.1.host_view()]);
        HostValue::Tuple(data)
    }

    fn from_host(value: &HostValue) -> (r: Option<Self>) {
        match value {
            HostValue::Tuple(data) => {
                proof {
                    lemma_hosts_view(*data);
                }
                if data.len() != 2 {
                    return None;
                }
                assert(hosts_view(data@)[0] == data@[0]@);
                assert(hosts_view(data@)[1] == data@[1]@);
                match (A::from_host(&data[0]), B::from_host(&data[1])) {
                    (Some(a), Some(b)) => {
                        assert(hosts_view(data@) =~= seq![a.host_view(), b.host_view()]);
                        Some((a, b))
                    },
                    _ => None,
                }
            },
            _ => None,
        }
    }
}

/// The key of an entry of a map.
pub open spec fn entry_key(e: HostView) -> HostView {
    match e {
        HostView::Tuple(p) => if p.len() > 0 {
            p[0]
        } else {
            e
        },
        _ => e,
    }
}

/// The entries of a map with one more entry, looked at from position `i`
/// on: the entry takes the place of the entry that has its key; where
/// there is none, it comes before the first entry whose key is written
/// with a text after that of its own key, or after all entries.
pub open spec fn map_insert_from(s: Seq<HostView>, e: HostView, i: int) -> Seq<HostView>
    decreases s.len() - i,
{
    if i < 0 || i >= s.len() {
        s.push(e)
    } else if entry_key(s[i]) == entry_key(e) {
        s.update(i, e)
    } else if seq_lt(host_display(entry_key(e)), host_display(entry_key(s[i]))) {
        s.insert(i, e)
    } else {
        map_insert_from(s, e, i + 1)
    }
}

/// A map from host values to host values. An entry that is put in takes
/// its place by the text of its key, not by the time at which it was
/// put in.
#[derive(Debug)]
pub struct HostMap<K, W> {
    entries: Vec<(K, W)>,
}

impl<K: GroundedValue, W: GroundedValue> View for HostMap<K, W> {
    type V = Seq<HostView>;

    closed spec fn view(&self) -> Seq<HostView> {
        values_view::<(K, W)>(self.entries@)
    }
}

impl<K: GroundedValue, W: GroundedValue> HostMap<K, W> {
    /// The empty map.
    pub fn new() -> (r: Self)
        ensures
            r@ == Seq::<HostView>::empty(),
    {
        let r = HostMap { entries: Vec::new() };
        assert(r@ =~= Seq::<HostView>::empty());
        r
    }

    /// The number of entries.
    pub fn len(&self) -> (r: usize)
        ensures
            r == self@.len(),
    {
        self.entries.len()
    }

    /// The entries, in the order in which they are kept.
    pub fn entries(&self) -> (r: &Vec<(K, W)>)
        ensures
            values_view::<(K, W)>(r@) == self@,
    {
        &self.entries
    }

    /// Puts an entry into the map, in place of the entry of the same key
    /// where there is one.
    pub fn insert(&mut self, key: K, value: W)
        ensures
            final(self)@ == map_insert_from(old(self)@, (key, value).host_view(), 0),
    {
        let key_host = key.to_host();
        let key_text = key_host.to_string();
        let ghost e = (key, value).host_view();
        let ghost before = self@;
        assert(entry_key(e) == key.host_view());
        let mut i: usize = 0;
        while i < self.entries.len()
            invariant
                0 <= i <= self.entries.len(),
                self.entries == old(self).entries,
                before == self@,
                e == (key, value).host_view(),
                entry_key(e) == key_host@,
                key_text@ == host_display(key_host@),
                map_insert_from(before, e, i as int) == map_insert_from(before, e, 0),
            decreases self.entries.len() - i,
        {
            let entry_host = self.entries[i].0.to_host();
            assert(before[i as int] == self.entries@[i as int].host_view());
            assert(entry_key(before[i as int]) == entry_host@);
            if host_eq(&entry_host, &key_host) {
                self.entries.remove(i);
                self.entries.insert(i, (key, value));
                assert(self@ =~= before.update(i as int, e));
                return ;
            }
            let entry_text = entry_host.to_string();
            if str_lt(key_text.as_str(), entry_text.as_str()) {
                self.entries.insert(i, (key, value));
                assert(self@ =~= before.insert(i as int, e));
                return ;
            }
            i += 1;
        }
        self.entries.push((key, value));
        assert(self@ =~= before.push(e));
    }
}

impl<K: GroundedValue, W: GroundedValue> GroundedValue for HostMap<K, W> {
    open spec fn host_view(&self) -> HostView {
        HostView::Table(self@)
    }

    open spec fn holds(value: HostView) -> bool {
        value matches HostView::Table(s) && all_hold::<(K, W)>(s)
    }

    proof fn law_holds(&self) {
        assert forall|i: int| 0 <= i < self@.len() implies <(K, W) as GroundedValue>::holds(
            #[trigger] self@[i],
        ) by {
            self.entries@[i].law_holds();
        }
    }

    fn to_host(&self) -> (r: HostValue) {
        let data = values_to_host(self.entries.as_slice());
        proof {
            lemma_hosts_view(data);
        }
        HostValue::Table(data)
    }

    fn from_host(value: &HostValue) -> (r: Option<Self>) {
        match value {
            HostValue::Table(data) => {
                proof {
                    lemma_hosts_view(*data);
                }
                match values_from_host::<(K, W)>(data) {
                    Some(entries) => Some(HostMap { entries }),
                    None => None,
                }
            },
            _ => None,
        }
    }
}

/// A number of the interpreted language.
#[derive(Clone, Copy, Debug, PartialEq, Eq, Structural)]
pub enum Number {
    Integer(i64),
}

impl Number {
    /// The integer that a run of decimal digits denotes.
    pub fn from_int_str(num: &str) -> (r: Number)
        requires
            parse_numeral(num@, 10) matches Some(n) && n <= i64::MAX,
        ensures
            r == Number::Integer(parse_numeral(num@, 10)->Some_0 as i64),
    {
        let chars = str_chars(num);
        let n = chars_to_u64(&chars, 10).unwrap();
        Number::Integer(n as i64)
    }
}

impl GroundedValue for Number {
    open spec fn host_view(&self) -> HostView {
        match self {
            Number::Integer(n) => HostView::Number(*n as int),
        }
    }

    open spec fn holds(value: HostView) -> bool {
        value is Number
    }

    proof fn law_holds(&self) {
    }

    fn to_host(&self) -> (r: HostValue) {
        match self {
            Number::Integer(n) => HostValue::Number(*n),
        }
    }

    fn from_host(value: &HostValue) -> (r: Option<Self>) {
        match value {
            HostValue::Number(n) => Some(Number::Integer(*n)),
            _ => None,
        }
    }
}

/// A truth value of the interpreted language.
#[derive(Clone, Copy, Debug, PartialEq, Eq, Structural)]
pub struct Bool(pub bool);

impl Bool {
    /// The truth value that `True` or `False` denotes.
    pub fn from_str(b: &str) -> (r: Bool)
        requires
            b@ == "True"@ || b@ == "False"@,
        ensures
            r.0 == (b@ == "True"@),
    {
        Bool(str_eq(b, "True"))
    }
}

impl GroundedValue for Bool {
    open spec fn host_view(&self) -> HostView {
        HostView::Truth(self.0)
    }

    open spec fn holds(value: HostView) -> bool {
        value is Truth
    }

    proof fn law_holds(&self) {
    }

    fn to_host(&self) -> (r: HostValue) {
        HostValue::Truth(self.0)
    }

    fn from_host(value: &HostValue) -> (r: Option<Self>) {
        match value {
            HostValue::Truth(b) => Some(Bool(*b)),
            _ => None,
        }
    }
}

/// The grounded atom that carries host data as plain data: matched by
/// equality, not executable.
pub open spec fn plain(value: HostView) -> GroundedView {
    GroundedView { value, do_match: MatchFn::Equality, do_execute: ExecuteFn::NotImplemented }
}

impl GroundedAtom {
    /// The atom that carries the value as plain data.
    pub fn new_value<T: GroundedValue>(value: T) -> (r: Self)
        ensures
            r@ == plain(value.host_view()),
            T::holds(r@.value),
    {
        proof {
            value.law_holds();
        }
        GroundedAtom::new(value.to_host(), MatchFn::Equality, ExecuteFn::NotImplemented)
    }

    /// The atom that carries the value and is matched by the given hook.
    pub fn new_matchable<T: GroundedValue>(value: T, do_match: MatchFn) -> (r: Self)
        ensures
            r@ == (GroundedView {
                value: value.host_view(),
                do_match,
                do_execute: ExecuteFn::NotImplemented,
            }),
            T::holds(r@.value),
    {
        proof {
            value.law_holds();
        }
        GroundedAtom::new(value.to_host(), do_match, ExecuteFn::NotImplemented)
    }

    /// The atom that carries the value and is executed by the given hook.
    pub fn new_function<T: GroundedValue>(value: T, do_execute: ExecuteFn) -> (r: Self)
        ensures
            r@ == (GroundedView {
                value: value.host_view(),
                do_match: MatchFn::Equality,
                do_execute,
            }),
            T::holds(r@.value),
    {
        proof {
            value.law_holds();
        }
        GroundedAtom::new(value.to_host(), MatchFn::Equality, do_execute)
    }

    /// The value that the atom carries, where it carries one of the type
    /// `T`.
    pub fn downcast_ref<T: GroundedValue>(&self) -> (r: Option<T>)
        ensures
            r is Some == T::holds(self@.value),
            r matches Some(x) ==> x.host_view() == self@.value,
    {
        T::from_host(self.value())
    }
}

impl GroundedAtom {
    /// The host data of the atom, to be changed in place, where the atom
    /// carries a value of the type `T`.
    pub fn downcast_mut<T: GroundedValue>(&mut self) -> (r: Option<&mut HostValue>)
        ensures
            r is Some == T::holds(old(self)@.value),
            match r {
                Some(v) => *v == old(self).value_spec() && final(self).value_spec() == *final(v)
                    && final(self)@.do_match == old(self)@.do_match && final(self)@.do_execute
                    == old(self)@.do_execute,
                None => *final(self) == *old(self),
            },
    {
        let held = T::from_host(self.value()).is_some();
        if held {
            Some(self.value_mut())
        } else {
            None
        }
    }
}

impl Atom {
    /// The grounded atom that carries the value as plain data.
    pub fn value<T: GroundedValue>(value: T) -> (r: Atom)
        ensures
            r@ == AtomView::Grounded(plain(value.host_view())),
            T::holds(value.host_view()),
    {
        proof {
            value.law_holds();
        }
        let r = Atom::Grounded(GroundedAtom::new_value(value));
        proof {
            lemma_atom_view(r);
        }
        r
    }

    /// The value that the atom carries, where it is grounded and carries
    /// one of the type `T`.
    pub fn as_gnd<T: GroundedValue>(&self) -> (r: Option<T>)
        ensures
            r is Some == (self@ matches AtomView::Grounded(g) && T::holds(g.value)),
            r matches Some(x) ==> self@ matches AtomView::Grounded(g) && x.host_view() == g.value,
    {
        proof {
            lemma_atom_view(*self);
        }
        match self {
            Atom::Grounded(g) => g.downcast_ref::<T>(),
            _ => None,
        }
    }
}

impl Atom {
    /// The host data of the atom, to be changed in place, where the atom is
    /// grounded and carries a value of the type `T`.
    pub fn as_gnd_mut<T: GroundedValue>(&mut self) -> (r: Option<&mut HostValue>)
        ensures
            r is Some == (old(self)@ matches AtomView::Grounded(g) && T::holds(g.value)),
            r is None ==> *final(self) == *old(self),
            r matches Some(v) ==> old(self)@ matches AtomView::Grounded(g) && v@ == g.value,
    {
        proof {
            lemma_atom_view(*self);
        }
        match self {
            Atom::Grounded(g) => {
                proof {
                    g.lemma_value();
                }
                g.downcast_mut::<T>()
            },
            _ => None,
        }
    }
}

/// A wrapper that marks a host value as one to be turned into an atom.
pub struct Wrap<T>(pub T);

/// Turns a wrapped host value into the grounded atom that carries it.
pub trait GroundedValueToGroundedAtom {
    /// The host data that the atom will carry.
    spec fn carried(&self) -> HostView;

    fn to_atom(&self) -> (r: Atom)
        ensures
            r@ == AtomView::Grounded(plain(self.carried())),
    ;
}

impl<T: GroundedValue> GroundedValueToGroundedAtom for Wrap<T> {
    open spec fn carried(&self) -> HostView {
        self.0.host_view()
    }

    fn to_atom(&self) -> (r: Atom) {
        let r = Atom::gnd(self.0.to_host(), MatchFn::Equality, ExecuteFn::NotImplemented);
        r
    }
}


/// Turns a wrapped value that says itself which atom it is into that atom.
pub trait ExplicitToGroundedAtom {
    /// Whether `r` is an atom that the value may turn into.
    spec fn turns_into(&self, r: Atom) -> bool;

    fn to_atom(&self) -> (r: Atom)
        ensures
            self.turns_into(r),
    ;
}

impl<T: Clone + Into<Atom>> ExplicitToGroundedAtom for &Wrap<T> {
    /// The atom is what the value's own conversion makes of a clone of it.
    open spec fn turns_into(&self, r: Atom) -> bool {
        exists|c: T| cloned::<T>(self.0, c) && call_ensures(<T as Into<Atom>>::into, (c,), r)
    }

    fn to_atom(&self) -> (r: Atom) {
        let c = self.0.clone();
        let r: Atom = c.into();
        assert(cloned::<T>(self.0, c) && call_ensures(<T as Into<Atom>>::into, (c,), r));
        r
    }
}


/// The value of the first entry at or after position `i` whose key is
/// `key`.
pub open spec fn dict_get_from(e: Seq<(AtomView, AtomView)>, key: AtomView, i: int) -> Option<
    AtomView,
>
    decreases e.len() - i,
{
    if i < 0 || i >= e.len() {
        None
    } else if e[i].0 == key {
        Some(e[i].1)
    } else {
        dict_get_from(e, key, i + 1)
    }
}

/// The entries at or after position `i` whose key is not `key`.
pub open spec fn dict_without_from(e: Seq<(AtomView, AtomView)>, key: AtomView, i: int) -> Seq<
    (AtomView, AtomView),
>
    decreases e.len() - i,
{
    if i < 0 || i >= e.len() {
        Seq::empty()
    } else if e[i].0 == key {
        dict_without_from(e, key, i + 1)
    } else {
        seq![e[i]] + dict_without_from(e, key, i + 1)
    }
}

/// A dictionary whose keys and values are atoms. As a grounded atom it is
/// matched by the dictionary hook: a dictionary of patterns matches it
/// where each entry of the pattern matches one of its entries, whatever
/// the order.
#[derive(Debug)]
pub struct Dictionary {
    entries: Vec<(Atom, Atom)>,
}

impl View for Dictionary {
    type V = Seq<(AtomView, AtomView)>;

    closed spec fn view(&self) -> Seq<(AtomView, AtomView)> {
        dict_view(self.entries@)
    }
}

fn entries_clone(e: &Vec<(Atom, Atom)>) -> (r: Vec<(Atom, Atom)>)
    ensures
        dict_view(r@) == dict_view(e@),
{
    let mut out: Vec<(Atom, Atom)> = Vec::new();
    let mut i: usize = 0;
    while i < e.len()
        invariant
            0 <= i <= e.len(),
            out.len() == i,
            forall|j: int| 0 <= j < i ==> out@[j].0@ == e@[j].0@ && out@[j].1@ == e@[j].1@,
        decreases e.len() - i,
    {
        out.push((e[i].0.clone(), e[i].1.clone()));
        i += 1;
    }
    assert(dict_view(out@) =~= dict_view(e@));
    out
}

impl Clone for Dictionary {
    fn clone(&self) -> (r: Self)
        ensures
            r@ == self@,
    {
        Dictionary { entries: entries_clone(&self.entries) }
    }
}

impl Dictionary {
    /// The empty dictionary.
    pub fn new() -> (r: Self)
        ensures
            r@ == Seq::<(AtomView, AtomView)>::empty(),
    {
        let r = Dictionary { entries: Vec::new() };
        assert(r@ =~= Seq::<(AtomView, AtomView)>::empty());
        r
    }

    /// The number of entries.
    pub fn len(&self) -> (r: usize)
        ensures
            r == self@.len(),
    {
        self.entries.len()
    }

    /// The value entered under the key.
    pub fn get(&self, key: &Atom) -> (r: Option<&Atom>)
        ensures
            match r {
                Some(a) => dict_get_from(self@, key@, 0) == Some(a@),
                None => dict_get_from(self@, key@, 0) is None,
            },
    {
        let mut i: usize = 0;
        while i < self.entries.len()
            invariant
                0 <= i <= self.entries.len(),
                dict_get_from(self@, key@, i as int) == dict_get_from(self@, key@, 0),
            decreases self.entries.len() - i,
        {
            if atom_eq(&self.entries[i].0, key) {
                return Some(&self.entries[i].1);
            }
            i += 1;
        }
        None
    }

    /// Removes the entries under the key, and gives the value that was
    /// entered under it.
    pub fn remove(&mut self, key: &Atom) -> (r: Option<Atom>)
        ensures
            final(self)@ == dict_without_from(old(self)@, key@, 0),
            match r {
                Some(a) => dict_get_from(old(self)@, key@, 0) == Some(a@),
                None => dict_get_from(old(self)@, key@, 0) is None,
            },
    {
        let found = match self.get(key) {
            Some(a) => Some(a.clone()),
            None => None,
        };
        let mut kept: Vec<(Atom, Atom)> = Vec::new();
        let mut i: usize = 0;
        assert(dict_view(kept@) =~= Seq::empty());
        while i < self.entries.len()
            invariant
                0 <= i <= self.entries.len(),
                *self == *old(self),
                dict_view(kept@) + dict_without_from(self@, key@, i as int) == dict_without_from(
                    self@,
                    key@,
                    0,
                ),
            decreases self.entries.len() - i,
        {
            let ghost before = dict_view(kept@);
            assert(self@[i as int] == (self.entries@[i as int].0@, self.entries@[i as int].1@));
            if !atom_eq(&self.entries[i].0, key) {
                let entry = (self.entries[i].0.clone(), self.entries[i].1.clone());
                kept.push(entry);
                assert(dict_view(kept@) =~= before.push(self@[i as int]));
            }
            assert(dict_view(kept@) + dict_without_from(self@, key@, i + 1) =~= before
                + dict_without_from(self@, key@, i as int));
            i += 1;
        }
        assert(dict_view(kept@) + Seq::<(AtomView, AtomView)>::empty() =~= dict_view(kept@));
        self.entries = kept;
        found
    }

    /// Enters a value under a key, in place of what was entered under it,
    /// and gives the value that was entered before.
    pub fn put(&mut self, key: Atom, value: Atom) -> (r: Option<Atom>)
        ensures
            final(self)@ == dict_without_from(old(self)@, key@, 0).push((key@, value@)),
            match r {
                Some(a) => dict_get_from(old(self)@, key@, 0) == Some(a@),
                None => dict_get_from(old(self)@, key@, 0) is None,
            },
    {
        let found = self.remove(&key);
        let ghost before = self@;
        self.entries.push((key, value));
        assert(self@ =~= before.push((key@, value@)));
        found
    }
}

impl GroundedValue for Dictionary {
    open spec fn host_view(&self) -> HostView {
        HostView::Dict(self@)
    }

    open spec fn holds(value: HostView) -> bool {
        value is Dict
    }

    proof fn law_holds(&self) {
    }

    fn to_host(&self) -> (r: HostValue) {
        let entries = entries_clone(&self.entries);
        proof {
            lemma_dict_view(entries);
        }
        HostValue::Dict(entries)
    }

    fn from_host(value: &HostValue) -> (r: Option<Self>) {
        match value {
            HostValue::Dict(e) => {
                proof {
                    lemma_dict_view(*e);
                }
                Some(Dictionary { entries: entries_clone(e) })
            },
            _ => None,
        }
    }
}

impl From<Dictionary> for Atom {
    fn from(dict: Dictionary) -> (r: Self) {
        Atom::gnd(HostValue::Dict(dict.entries), MatchFn::Dictionary, ExecuteFn::NotImplemented)
    }
}

impl FromSpecImpl<Dictionary> for Atom {
    open spec fn obeys_from_spec() -> bool {
        true
    }

    closed spec fn from_spec(dict: Dictionary) -> Self {
        Atom::gnd_spec(HostValue::Dict(dict.entries), MatchFn::Dictionary, ExecuteFn::NotImplemented)
    }
}

/// The atom that a dictionary turns into carries the dictionary and is
/// matched by the dictionary hook.
pub proof fn lemma_dictionary_atom(dict: Dictionary)
    ensures
        <Atom as FromSpec<Dictionary>>::from_spec(dict)@ == AtomView::Grounded(
            GroundedView {
                value: HostView::Dict(dict@),
                do_match: MatchFn::Dictionary,
                do_execute: ExecuteFn::NotImplemented,
            },
        ),
{
    lemma_dict_view(dict.entries);
    Atom::lemma_gnd_spec(
        HostValue::Dict(dict.entries),
        MatchFn::Dictionary,
        ExecuteFn::NotImplemented,
    );
}

} // verus!
