//! The atomspace: an ordered collection of atoms that can be asked which of
//! them match a pattern.

use crate::atom::{
    atom_eq, atoms_view, lemma_atom_view, lemma_children_decrease, Atom, AtomView, VarView,
};
use crate::matcher::{
    bindings_view, match_atoms, match_atoms_spec, occurs, occurs_from, restrict, Bindings,
};
use vstd::prelude::*;

verus! {

/// The atom with the tag of every variable replaced by `tag`.
pub open spec fn refresh(a: AtomView, tag: nat) -> AtomView
    decreases a,
{
    match a {
        AtomView::Variable(v) => AtomView::Variable(VarView { name: v.name, id: tag }),
        AtomView::Expression(c) => AtomView::Expression(
            Seq::new(
                c.len(),
                |i: int|
                    if 0 <= i < c.len() {
                        refresh(c[i], tag)
                    } else {
                        a
                    },
            ),
        ),
        _ => a,
    }
}

/// A copy of the atom in which every variable carries the tag `tag`.
pub fn refresh_atom(atom: &Atom, tag: u64) -> (r: Atom)
    ensures
        r@ == refresh(atom@, tag as nat),
    decreases atom,
{
    proof {
        lemma_atom_view(*atom);
        lemma_children_decrease(*atom);
    }
    match atom {
        Atom::Variable(v) => {
            let r = Atom::Variable(v.with_id(tag));
            proof {
                lemma_atom_view(r);
            }
            r
        },
        Atom::Expression(e) => {
            let ch = e.children();
            let mut out: Vec<Atom> = Vec::new();
            let mut i: usize = 0;
            while i < ch.len()
                invariant
                    0 <= i <= ch.len(),
                    out.len() == i,
                    forall|j: int| 0 <= j < ch.len() ==> decreases_to!(atom => #[trigger] ch@[j]),
                    forall|j: int| 0 <= j < i ==> out@[j]@ == refresh(ch@[j]@, tag as nat),
                decreases ch.len() - i,
            {
                out.push(refresh_atom(&ch[i], tag));
                i += 1;
            }
            let r = Atom::expr_vec(out);
            assert(r@->Expression_0 =~= refresh(atom@, tag as nat)->Expression_0);
            r
        },
        _ => atom.clone(),
    }
}

proof fn lemma_refresh_tag(a: AtomView, tag: nat, v: VarView)
    requires
        occurs(v, refresh(a, tag)),
    ensures
        v.id == tag,
    decreases a, 0nat,
{
    match a {
        AtomView::Expression(c) => {
            lemma_refresh_tag_from(c, tag, v, 0);
        },
        _ => {},
    }
}

proof fn lemma_refresh_tag_from(c: Seq<AtomView>, tag: nat, v: VarView, i: int)
    requires
        0 <= i,
        occurs_from(v, refresh(AtomView::Expression(c), tag)->Expression_0, i),
    ensures
        v.id == tag,
    decreases c, c.len() - i,
{
    let r = refresh(AtomView::Expression(c), tag)->Expression_0;
    if i < c.len() {
        assert(r[i] == refresh(c[i], tag));
        if occurs(v, r[i]) {
            lemma_refresh_tag(c[i], tag, v);
        } else {
            lemma_refresh_tag_from(c, tag, v, i + 1);
        }
    }
}

/// Renaming apart is stable: every variable of a refreshed atom carries the
/// tag it was refreshed with, so two copies of a rule made under different
/// tags share no variable.
pub proof fn law_refresh_apart(a: AtomView, b: AtomView, tag1: nat, tag2: nat, v: VarView)
    requires
        tag1 != tag2,
    ensures
        occurs(v, refresh(a, tag1)) ==> v.id == tag1,
        !(occurs(v, refresh(a, tag1)) && occurs(v, refresh(b, tag2))),
{
    if occurs(v, refresh(a, tag1)) {
        lemma_refresh_tag(a, tag1, v);
    }
    if occurs(v, refresh(b, tag2)) {
        lemma_refresh_tag(b, tag2, v);
    }
}

/// The matches of the pattern against the stored atoms from position `i`
/// on, each atom refreshed with `tag` before it is matched, each match kept
/// as the bindings of the pattern's variables.
pub open spec fn query_from(space: Seq<AtomView>, pattern: AtomView, tag: nat, i: int) -> Seq<
    Seq<(VarView, AtomView)>,
>
    decreases space.len() - i,
{
    if i < 0 || i >= space.len() {
        Seq::empty()
    } else {
        query_one(space[i], pattern, tag) + query_from(space, pattern, tag, i + 1)
    }
}

/// The matches of the pattern against one stored atom.
pub open spec fn query_one(stored: AtomView, pattern: AtomView, tag: nat) -> Seq<
    Seq<(VarView, AtomView)>,
> {
    let found = match_atoms_spec(pattern, refresh(stored, tag));
    Seq::new(found.len(), |k: int| restrict(found[k], pattern))
}

/// The position of the first atom at or after `i` that equals `atom`.
pub open spec fn position_from(space: Seq<AtomView>, atom: AtomView, i: int) -> Option<int>
    decreases space.len() - i,
{
    if i < 0 || i >= space.len() {
        None
    } else if space[i] == atom {
        Some(i)
    } else {
        position_from(space, atom, i + 1)
    }
}

/// An ordered collection of atoms: the facts and rules of a program.
#[derive(Debug)]
pub struct GroundingSpace {
    atoms: Vec<Atom>,
}

impl View for GroundingSpace {
    type V = Seq<AtomView>;

    closed spec fn view(&self) -> Seq<AtomView> {
        atoms_view(self.atoms@)
    }
}

impl Clone for GroundingSpace {
    fn clone(&self) -> (r: Self)
        ensures
            r@ == self@,
    {
        GroundingSpace { atoms: crate::atom::atoms_clone(&self.atoms) }
    }
}

impl GroundingSpace {
    /// The empty space.
    pub fn new() -> (r: Self)
        ensures
            r@ == Seq::<AtomView>::empty(),
    {
        let r = GroundingSpace { atoms: Vec::new() };
        assert(r@ =~= Seq::<AtomView>::empty());
        r
    }

    /// The number of atoms stored.
    pub fn len(&self) -> (r: usize)
        ensures
            r == self@.len(),
    {
        self.atoms.len()
    }

    /// The atom stored at position `i`.
    pub fn get(&self, i: usize) -> (r: &Atom)
        requires
            i < self@.len(),
        ensures
            r@ == self@[i as int],
    {
        &self.atoms[i]
    }

    /// Stores the atom after all those stored before.
    pub fn add(&mut self, atom: Atom)
        ensures
            final(self)@ == old(self)@.push(atom@),
    {
        self.atoms.push(atom);
        assert(self@ =~= old(self)@.push(atom@));
    }

    /// Removes the first stored atom that equals `atom`, and says whether
    /// there was one.
    pub fn remove(&mut self, atom: &Atom) -> (r: bool)
        ensures
            match position_from(old(self)@, atom@, 0) {
                Some(k) => r && final(self)@ == old(self)@.remove(k),
                None => !r && final(self)@ == old(self)@,
            },
    {
        let mut i: usize = 0;
        while i < self.atoms.len()
            invariant
                0 <= i <= self.atoms.len(),
                self.atoms == old(self).atoms,
                position_from(self@, atom@, i as int) == position_from(self@, atom@, 0),
            decreases self.atoms.len() - i,
        {
            if atom_eq(&self.atoms[i], atom) {
                self.atoms.remove(i);
                assert(self@ =~= old(self)@.remove(i as int));
                return true;
            }
            i += 1;
        }
        false
    }

    /// All matches of the pattern against the stored atoms, in the order in
    /// which the atoms were stored. Each stored atom has its variables
    /// refreshed with `tag` before it is matched; each match is given as
    /// the bindings of the pattern's variables.
    pub fn query(&self, pattern: &Atom, tag: u64) -> (r: Vec<Bindings>)
        ensures
            bindings_view(r@) == query_from(self@, pattern@, tag as nat, 0),
    {
        let mut out: Vec<Bindings> = Vec::new();
        let mut i: usize = 0;
        assert(bindings_view(out@) =~= Seq::empty());
        while i < self.atoms.len()
            invariant
                0 <= i <= self.atoms.len(),
                bindings_view(out@) + query_from(self@, pattern@, tag as nat, i as int)
                    == query_from(self@, pattern@, tag as nat, 0),
            decreases self.atoms.len() - i,
        {
            let ghost before = bindings_view(out@);
            let stored = refresh_atom(&self.atoms[i], tag);
            let found = match_atoms(pattern, &stored);
            let ghost one = query_one(self@[i as int], pattern@, tag as nat);
            let mut k: usize = 0;
            while k < found.len()
                invariant
                    0 <= k <= found.len(),
                    0 <= i < self@.len(),
                    bindings_view(found@) == match_atoms_spec(pattern@, stored@),
                    stored@ == refresh(self@[i as int], tag as nat),
                    one == query_one(self@[i as int], pattern@, tag as nat),
                    bindings_view(out@) == before + one.take(k as int),
                decreases found.len() - k,
            {
                let ghost prev = bindings_view(out@);
                let narrowed = found[k].narrow(pattern);
                assert(bindings_view(found@)[k as int] == found@[k as int]@);
                assert(one.len() == found.len());
                assert(one[k as int] == restrict(found@[k as int]@, pattern@));
                out.push(narrowed);
                assert(bindings_view(out@) =~= prev.push(narrowed@));
                assert(bindings_view(out@) =~= before + one.take(k + 1));
                k += 1;
            }
            assert(one.take(found.len() as int) =~= one);
            assert(bindings_view(out@) + query_from(self@, pattern@, tag as nat, i + 1) =~= before
                + query_from(self@, pattern@, tag as nat, i as int));
            i += 1;
        }
        assert(bindings_view(out@) + Seq::<Seq<(VarView, AtomView)>>::empty() =~= bindings_view(
            out@,
        ));
        out
    }
}

} // verus!
