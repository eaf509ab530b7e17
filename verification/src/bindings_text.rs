//! Bindings compared as maps and written as text.

use crate::atom::{atom_eq, Atom, AtomView, VarView, VariableAtom};
use crate::display::{display, var_display};
use crate::matcher::{lookup, var_before, var_lt, Bindings, MatchResult};
use vstd::prelude::*;
use vstd::std_specs::cmp::PartialEqSpecImpl;

verus! {

/// Whether every entry of `a` from position `i` on is bound to the same
/// value in `b`.
pub open spec fn included_from(a: Seq<(VarView, AtomView)>, b: Seq<(VarView, AtomView)>, i: int)
    -> bool
    decreases a.len() - i,
{
    if i < 0 || i >= a.len() {
        true
    } else {
        lookup(b, a[i].0) == Some(a[i].1) && included_from(a, b, i + 1)
    }
}

/// Whether two bindings are the same map: they bind equally many
/// variables, and each variable of the first is bound to the same value in
/// the second. The order of the entries does not count.
pub open spec fn same_bindings(a: Seq<(VarView, AtomView)>, b: Seq<(VarView, AtomView)>) -> bool {
    a.len() == b.len() && included_from(a, b, 0)
}

impl PartialEq for Bindings {
    fn eq(&self, other: &Self) -> (r: bool) {
        if self.len() != other.len() {
            return false;
        }
        let mut i: usize = 0;
        while i < self.len()
            invariant
                0 <= i <= self@.len(),
                included_from(self@, other@, i as int) == included_from(self@, other@, 0),
            decreases self@.len() - i,
        {
            match other.resolve(self.var_at(i)) {
                Some(value) => {
                    if !atom_eq(value, self.value_at(i)) {
                        return false;
                    }
                },
                None => {
                    return false;
                },
            }
            i += 1;
        }
        true
    }
}

impl PartialEqSpecImpl for Bindings {
    open spec fn obeys_eq_spec() -> bool {
        true
    }

    open spec fn eq_spec(&self, other: &Self) -> bool {
        same_bindings(self@, other@)
    }
}

impl PartialEq for MatchResult {
    fn eq(&self, other: &Self) -> (r: bool) {
        self.candidate_bindings == other.candidate_bindings && self.pattern_bindings
            == other.pattern_bindings
    }
}

impl PartialEqSpecImpl for MatchResult {
    open spec fn obeys_eq_spec() -> bool {
        true
    }

    open spec fn eq_spec(&self, other: &Self) -> bool {
        same_bindings(self@.0, other@.0) && same_bindings(self@.1, other@.1)
    }
}

/// The sorted sequence `acc` with the entry put before the first entry at
/// or after position `i` whose variable comes after its own.
pub open spec fn insert_from(acc: Seq<(VarView, AtomView)>, e: (VarView, AtomView), i: int) -> Seq<
    (VarView, AtomView),
>
    decreases acc.len() - i,
{
    if i < 0 || i >= acc.len() {
        acc.push(e)
    } else if var_lt(e.0, acc[i].0) {
        acc.insert(i, e)
    } else {
        insert_from(acc, e, i + 1)
    }
}

/// The entries from position `i` on inserted one after the other into the
/// sorted sequence `acc`.
pub open spec fn sort_from(s: Seq<(VarView, AtomView)>, i: int, acc: Seq<(VarView, AtomView)>)
    -> Seq<(VarView, AtomView)>
    decreases s.len() - i,
{
    if i < 0 || i >= s.len() {
        acc
    } else {
        sort_from(s, i + 1, insert_from(acc, s[i], 0))
    }
}

/// The entries in the order of their variables: by tag, then by name.
pub open spec fn sorted_entries(s: Seq<(VarView, AtomView)>) -> Seq<(VarView, AtomView)> {
    sort_from(s, 0, Seq::empty())
}

/// The text of the entries from position `i` on: each as the variable, a
/// colon and the value, separated by a comma and a space.
pub open spec fn entries_display_from(s: Seq<(VarView, AtomView)>, i: int) -> Seq<char>
    decreases s.len() - i,
{
    if i < 0 || i >= s.len() {
        Seq::empty()
    } else if i == s.len() - 1 {
        var_display(s[i].0) + ": "@ + display(s[i].1)
    } else {
        var_display(s[i].0) + ": "@ + display(s[i].1) + ", "@ + entries_display_from(s, i + 1)
    }
}

/// The text of bindings: the entries between braces, in the order of
/// their variables.
pub open spec fn bindings_display(s: Seq<(VarView, AtomView)>) -> Seq<char> {
    "{"@ + entries_display_from(sorted_entries(s), 0) + "}"@
}

/// Views of a list of references to entries.
pub open spec fn refs_view(s: Seq<(&VariableAtom, &Atom)>) -> Seq<(VarView, AtomView)> {
    Seq::new(s.len(), |i: int| (s[i].0@, s[i].1@))
}

impl Bindings {
    /// The text of the bindings.
    pub fn to_string(&self) -> (r: String)
        ensures
            r@ == bindings_display(self@),
    {
        let mut sorted: Vec<(&VariableAtom, &Atom)> = Vec::new();
        let mut i: usize = 0;
        assert(refs_view(sorted@) =~= Seq::empty());
        while i < self.len()
            invariant
                0 <= i <= self@.len(),
                sort_from(self@, i as int, refs_view(sorted@)) == sorted_entries(self@),
            decreases self@.len() - i,
        {
            let var = self.var_at(i);
            let value = self.value_at(i);
            let ghost acc = refs_view(sorted@);
            let mut k: usize = 0;
            while k < sorted.len() && !var_before(var, sorted[k].0)
                invariant
                    0 <= k <= sorted.len(),
                    acc == refs_view(sorted@),
                    insert_from(acc, (var@, value@), k as int) == insert_from(
                        acc,
                        (var@, value@),
                        0,
                    ),
                decreases sorted.len() - k,
            {
                assert(acc[k as int].0 == sorted@[k as int].0@);
                k += 1;
            }
            if k < sorted.len() {
                assert(acc[k as int].0 == sorted@[k as int].0@);
            }
            sorted.insert(k, (var, value));
            assert(refs_view(sorted@) =~= insert_from(acc, (var@, value@), 0)) by {
                if k < acc.len() {
                    assert(refs_view(sorted@) =~= acc.insert(k as int, (var@, value@)));
                } else {
                    assert(refs_view(sorted@) =~= acc.push((var@, value@)));
                }
            }
            i += 1;
        }
        let ghost sv = refs_view(sorted@);
        let mut inner = String::new();
        let mut j: usize = 0;
        while j < sorted.len()
            invariant
                0 <= j <= sorted.len(),
                sv == refs_view(sorted@),
                inner@ + entries_display_from(sv, j as int) == entries_display_from(sv, 0),
            decreases sorted.len() - j,
        {
            let ghost before = inner@;
            assert(sv[j as int] == (sorted@[j as int].0@, sorted@[j as int].1@));
            let name = sorted[j].0.to_string();
            inner.append(name.as_str());
            inner.append(": ");
            let value = sorted[j].1.to_string();
            inner.append(value.as_str());
            if j + 1 < sorted.len() {
                inner.append(", ");
            }
            assert(inner@ + entries_display_from(sv, j + 1) =~= before + entries_display_from(
                sv,
                j as int,
            ));
            j += 1;
        }
        assert(inner@ + Seq::<char>::empty() =~= inner@);
        let mut out = String::from_str("{");
        out.append(inner.as_str());
        out.append("}");
        out
    }
}

} // verus!
