//! Why matching can be relied on: the bindings that unification gives
//! make the two atoms alike.

use crate::atom::{AtomView, VarView};
use crate::matcher::{
    apply, bind, dict_alternatives, dict_fold, dict_match, dict_step, lookup, lookup_from,
    match_atoms_spec, matched_by_hook, occurs, occurs_from, unify, unify_children, unify_entry,
    unify_resolved, var_lt, MATCH_DEPTH,
};
use vstd::prelude::*;

verus! {

/// Whether two atoms are the same but for the hooks of grounded atoms:
/// grounded atoms are alike where they carry the same data.
pub open spec fn alike(a: AtomView, b: AtomView) -> bool
    decreases a, 0nat,
{
    match a {
        AtomView::Grounded(g) => match b {
            AtomView::Grounded(h) => g.value == h.value,
            _ => false,
        },
        AtomView::Expression(xs) => match b {
            AtomView::Expression(ys) => xs.len() == ys.len() && alike_from(xs, ys, 0),
            _ => false,
        },
        _ => a == b,
    }
}

/// Whether the atoms of two sequences are alike from position `i` on.
pub open spec fn alike_from(xs: Seq<AtomView>, ys: Seq<AtomView>, i: int) -> bool
    decreases xs, xs.len() - i,
{
    if i < 0 || i >= xs.len() || i >= ys.len() {
        true
    } else {
        alike(xs[i], ys[i]) && alike_from(xs, ys, i + 1)
    }
}

/// Whether the bindings bind the variable.
pub open spec fn binds(s: Seq<(VarView, AtomView)>, v: VarView) -> bool {
    lookup(s, v) is Some
}

/// Whether no variable that the bindings bind occurs in the atom.
pub open spec fn is_resolved(s: Seq<(VarView, AtomView)>, t: AtomView) -> bool {
    forall|v: VarView| binds(s, v) ==> !#[trigger] occurs(v, t)
}

/// Whether the bindings are in solved form: no variable that they bind
/// occurs in a value that they bind a variable to.
pub open spec fn solved(s: Seq<(VarView, AtomView)>) -> bool {
    forall|i: int| 0 <= i < s.len() ==> is_resolved(s, (#[trigger] s[i]).1)
}

proof fn lemma_lookup_entry(s: Seq<(VarView, AtomView)>, v: VarView, i: int)
    requires
        0 <= i,
        lookup_from(s, v, i) is Some,
    ensures
        exists|k: int| i <= k < s.len() && s[k].0 == v && lookup_from(s, v, i) == Some(s[k].1),
    decreases s.len() - i,
{
    if s[i].0 == v {
        assert(i <= i < s.len() && s[i].0 == v && lookup_from(s, v, i) == Some(s[i].1));
    } else {
        lemma_lookup_entry(s, v, i + 1);
        let k = choose|k: int|
            i + 1 <= k < s.len() && s[k].0 == v && lookup_from(s, v, i + 1) == Some(s[k].1);
        assert(i <= k < s.len() && s[k].0 == v && lookup_from(s, v, i) == Some(s[k].1));
    }
}

proof fn lemma_occurs_from_child(v: VarView, c: Seq<AtomView>, i: int)
    requires
        0 <= i,
        occurs_from(v, c, i),
    ensures
        exists|j: int| i <= j < c.len() && occurs(v, c[j]),
    decreases c.len() - i,
{
    if occurs(v, c[i]) {
        assert(i <= i < c.len() && occurs(v, c[i]));
    } else {
        lemma_occurs_from_child(v, c, i + 1);
        let j = choose|j: int| i + 1 <= j < c.len() && occurs(v, c[j]);
        assert(i <= j < c.len() && occurs(v, c[j]));
    }
}

proof fn lemma_child_occurs_from(v: VarView, c: Seq<AtomView>, i: int, j: int)
    requires
        0 <= i <= j < c.len(),
        occurs(v, c[j]),
    ensures
        occurs_from(v, c, i),
    decreases j - i,
{
    if i < j {
        lemma_child_occurs_from(v, c, i + 1, j);
    }
}

/// The children of the atom that a substitution makes of an expression.
proof fn lemma_apply_children(s: Seq<(VarView, AtomView)>, c: Seq<AtomView>)
    ensures
        apply(s, AtomView::Expression(c)) is Expression,
        apply(s, AtomView::Expression(c))->Expression_0.len() == c.len(),
        forall|j: int|
            0 <= j < c.len() ==> (#[trigger] apply(s, AtomView::Expression(c))->Expression_0[j])
                == apply(s, c[j]),
{
}

/// In the atom that solved bindings make of an atom, no bound variable is
/// left.
proof fn lemma_apply_resolves(s: Seq<(VarView, AtomView)>, y: AtomView)
    requires
        solved(s),
    ensures
        is_resolved(s, apply(s, y)),
    decreases y,
{
    match y {
        AtomView::Variable(v) => {
            if lookup(s, v) is Some {
                lemma_lookup_entry(s, v, 0);
                let k = choose|k: int|
                    0 <= k < s.len() && s[k].0 == v && lookup_from(s, v, 0) == Some(s[k].1);
                assert(is_resolved(s, s[k].1));
            }
        },
        AtomView::Expression(c) => {
            lemma_apply_children(s, c);
            let r = apply(s, y)->Expression_0;
            assert forall|w: VarView| binds(s, w) implies !#[trigger] occurs(w, apply(s, y)) by {
                if occurs(w, apply(s, y)) {
                    lemma_occurs_from_child(w, r, 0);
                    let j = choose|j: int| 0 <= j < r.len() && occurs(w, r[j]);
                    lemma_apply_resolves(s, c[j]);
                    assert(r[j] == apply(s, c[j]));
                }
            }
        },
        _ => {},
    }
}

/// Bindings leave an atom as it is where none of their variables occurs
/// in it.
proof fn lemma_apply_identity(s: Seq<(VarView, AtomView)>, t: AtomView)
    requires
        is_resolved(s, t),
    ensures
        apply(s, t) == t,
    decreases t,
{
    match t {
        AtomView::Variable(v) => {
            assert(occurs(v, t));
        },
        AtomView::Expression(c) => {
            lemma_apply_children(s, c);
            let r = apply(s, t)->Expression_0;
            assert forall|j: int| 0 <= j < c.len() implies r[j] == c[j] by {
                assert forall|w: VarView| binds(s, w) implies !#[trigger] occurs(w, c[j]) by {
                    if occurs(w, c[j]) {
                        lemma_child_occurs_from(w, c, 0, j);
                        assert(occurs(w, t));
                    }
                }
                lemma_apply_identity(s, c[j]);
            }
            assert(r =~= c);
        },
        _ => {},
    }
}

/// Solved bindings applied twice give what they give applied once.
proof fn lemma_apply_idempotent(s: Seq<(VarView, AtomView)>, y: AtomView)
    requires
        solved(s),
    ensures
        apply(s, apply(s, y)) == apply(s, y),
{
    lemma_apply_resolves(s, y);
    lemma_apply_identity(s, apply(s, y));
}


/// Every atom is alike itself.
proof fn lemma_alike_reflexive(a: AtomView)
    ensures
        alike(a, a),
    decreases a, 0nat,
{
    match a {
        AtomView::Expression(c) => {
            lemma_alike_from_reflexive(c, 0);
        },
        _ => {},
    }
}

proof fn lemma_alike_from_reflexive(c: Seq<AtomView>, i: int)
    requires
        0 <= i,
    ensures
        alike_from(c, c, i),
    decreases c, c.len() - i,
{
    if i < c.len() {
        lemma_alike_reflexive(c[i]);
        lemma_alike_from_reflexive(c, i + 1);
    }
}

proof fn lemma_alike_from_index(xs: Seq<AtomView>, ys: Seq<AtomView>, i: int, j: int)
    requires
        0 <= i <= j < xs.len(),
        xs.len() == ys.len(),
        alike_from(xs, ys, i),
    ensures
        alike(xs[j], ys[j]),
    decreases j - i,
{
    if i < j {
        lemma_alike_from_index(xs, ys, i + 1, j);
    }
}

proof fn lemma_alike_from_all(xs: Seq<AtomView>, ys: Seq<AtomView>, i: int)
    requires
        0 <= i,
        xs.len() == ys.len(),
        forall|j: int| i <= j < xs.len() ==> alike(#[trigger] xs[j], ys[j]),
    ensures
        alike_from(xs, ys, i),
    decreases xs.len() - i,
{
    if i < xs.len() {
        assert(alike(xs[i], ys[i]));
        lemma_alike_from_all(xs, ys, i + 1);
    }
}

/// Atoms that are alike stay alike under the same bindings.
proof fn lemma_alike_apply(s: Seq<(VarView, AtomView)>, a: AtomView, b: AtomView)
    requires
        alike(a, b),
    ensures
        alike(apply(s, a), apply(s, b)),
    decreases a,
{
    match a {
        AtomView::Variable(v) => {
            lemma_alike_reflexive(apply(s, a));
        },
        AtomView::Expression(xs) => {
            let ys = b->Expression_0;
            lemma_apply_children(s, xs);
            lemma_apply_children(s, ys);
            let rx = apply(s, a)->Expression_0;
            let ry = apply(s, b)->Expression_0;
            assert forall|j: int| 0 <= j < rx.len() implies alike(#[trigger] rx[j], ry[j]) by {
                lemma_alike_from_index(xs, ys, 0, j);
                lemma_alike_apply(s, xs[j], ys[j]);
                assert(rx[j] == apply(s, xs[j]));
                assert(ry[j] == apply(s, ys[j]));
            }
            lemma_alike_from_all(rx, ry, 0);
        },
        _ => {},
    }
}

/// The bindings that bind just `x` to `t`.
pub open spec fn single(x: VarView, t: AtomView) -> Seq<(VarView, AtomView)> {
    seq![(x, t)]
}

/// What binding `x` to `t` does to an atom in which a variable occurs
/// afterwards: the variable occurred before and is not `x`, or it occurs
/// in `t`.
proof fn lemma_occurs_after_single(x: VarView, t: AtomView, u: AtomView, w: VarView)
    requires
        occurs(w, apply(single(x, t), u)),
    ensures
        (occurs(w, u) && w != x) || occurs(w, t),
    decreases u,
{
    let one = single(x, t);
    match u {
        AtomView::Variable(v) => {
            if v == x {
                assert(lookup(one, v) == Some(t));
            } else {
                assert(lookup_from(one, v, 1) is None);
                assert(lookup(one, v) is None);
            }
        },
        AtomView::Expression(c) => {
            lemma_apply_children(one, c);
            let r = apply(one, u)->Expression_0;
            lemma_occurs_from_child(w, r, 0);
            let j = choose|j: int| 0 <= j < r.len() && occurs(w, r[j]);
            assert(r[j] == apply(one, c[j]));
            lemma_occurs_after_single(x, t, c[j], w);
            if occurs(w, c[j]) {
                lemma_child_occurs_from(w, c, 0, j);
            }
        },
        _ => {},
    }
}

/// What the bindings extended by `x` bound to `t` bind a variable to.
proof fn lemma_bind_lookup(s: Seq<(VarView, AtomView)>, x: VarView, t: AtomView, v: VarView, i: int)
    requires
        0 <= i <= s.len(),
    ensures
        lookup_from(bind(s, x, t), v, i) == match lookup_from(s, v, i) {
            Some(u) => Some(apply(single(x, t), u)),
            None => if v == x {
                Some(t)
            } else {
                None
            },
        },
    decreases s.len() - i,
{
    let b = bind(s, x, t);
    assert(b.len() == s.len() + 1);
    if i < s.len() {
        assert(b[i] == (s[i].0, apply(single(x, t), s[i].1)));
        if s[i].0 != v {
            lemma_bind_lookup(s, x, t, v, i + 1);
        }
    } else {
        assert(b[i] == (x, t));
        assert(lookup_from(b, v, i + 1) is None);
    }
}

/// The bindings extended by `x` bound to `t` do to an atom what the
/// bindings do, followed by replacing `x` by `t`.
proof fn lemma_bind_apply(s: Seq<(VarView, AtomView)>, x: VarView, t: AtomView, y: AtomView)
    requires
        !binds(s, x),
    ensures
        apply(bind(s, x, t), y) == apply(single(x, t), apply(s, y)),
    decreases y,
{
    let b = bind(s, x, t);
    let one = single(x, t);
    match y {
        AtomView::Variable(v) => {
            lemma_bind_lookup(s, x, t, v, 0);
            if lookup(s, v) is None {
                if v == x {
                    assert(lookup(one, v) == Some(t));
                } else {
                    assert(lookup_from(one, v, 1) is None);
                    assert(lookup(one, v) is None);
                }
            }
        },
        AtomView::Expression(c) => {
            lemma_apply_children(b, c);
            lemma_apply_children(s, c);
            let mid = apply(s, y)->Expression_0;
            lemma_apply_children(one, mid);
            let left = apply(b, y)->Expression_0;
            let right = apply(one, apply(s, y))->Expression_0;
            assert forall|j: int| 0 <= j < c.len() implies left[j] == right[j] by {
                lemma_bind_apply(s, x, t, c[j]);
                assert(left[j] == apply(b, c[j]));
                assert(mid[j] == apply(s, c[j]));
                assert(right[j] == apply(one, mid[j]));
            }
            assert(left =~= right);
        },
        _ => {},
    }
}

/// Binding a free variable to a resolved atom in which it does not occur
/// keeps bindings solved.
proof fn lemma_bind_solved(s: Seq<(VarView, AtomView)>, x: VarView, t: AtomView)
    requires
        solved(s),
        !binds(s, x),
        is_resolved(s, t),
        !occurs(x, t),
    ensures
        solved(bind(s, x, t)),
{
    let b = bind(s, x, t);
    assert forall|i: int| 0 <= i < b.len() implies is_resolved(b, (#[trigger] b[i]).1) by {
        assert forall|w: VarView| binds(b, w) implies !#[trigger] occurs(w, b[i].1) by {
            lemma_bind_lookup(s, x, t, w, 0);
            // `w` is bound by `s`, or it is `x`.
            if i < s.len() {
                assert(b[i].1 == apply(single(x, t), s[i].1));
                if occurs(w, b[i].1) {
                    lemma_occurs_after_single(x, t, s[i].1, w);
                    assert(is_resolved(s, s[i].1));
                    if binds(s, w) {
                        assert(!occurs(w, s[i].1));
                        assert(!occurs(w, t));
                    }
                }
            } else {
                assert(b[i].1 == t);
                if binds(s, w) {
                    assert(!occurs(w, t));
                }
            }
        }
    }
}


/// Whether the bindings `s2` take on what the bindings `s` say: doing `s`
/// first makes no difference to what `s2` makes of an atom.
pub open spec fn extends(s2: Seq<(VarView, AtomView)>, s: Seq<(VarView, AtomView)>) -> bool {
    forall|y: AtomView| #[trigger] apply(s2, apply(s, y)) == apply(s2, y)
}

proof fn lemma_extends_self(s: Seq<(VarView, AtomView)>)
    requires
        solved(s),
    ensures
        extends(s, s),
{
    assert forall|y: AtomView| #[trigger] apply(s, apply(s, y)) == apply(s, y) by {
        lemma_apply_idempotent(s, y);
    }
}

proof fn lemma_extends_transitive(
    s3: Seq<(VarView, AtomView)>,
    s2: Seq<(VarView, AtomView)>,
    s1: Seq<(VarView, AtomView)>,
)
    requires
        extends(s3, s2),
        extends(s2, s1),
    ensures
        extends(s3, s1),
{
    assert forall|y: AtomView| #[trigger] apply(s3, apply(s1, y)) == apply(s3, y) by {
        let w = apply(s1, y);
        assert(apply(s3, apply(s2, w)) == apply(s3, w));
        assert(apply(s2, apply(s1, y)) == apply(s2, y));
        assert(apply(s3, apply(s2, y)) == apply(s3, y));
    }
}

/// A variable that is left in a resolved atom is free.
proof fn lemma_resolved_variable_free(s: Seq<(VarView, AtomView)>, x: VarView)
    requires
        is_resolved(s, AtomView::Variable(x)),
    ensures
        !binds(s, x),
{
    assert(occurs(x, AtomView::Variable(x)));
}

/// Binding the free variable `x` to the resolved atom `t`, in which it
/// does not occur, gives solved bindings that take on the old ones and
/// make `x` and `t` the same atom.
proof fn lemma_bind_sound(s: Seq<(VarView, AtomView)>, x: VarView, t: AtomView)
    requires
        solved(s),
        is_resolved(s, AtomView::Variable(x)),
        is_resolved(s, t),
        !occurs(x, t),
    ensures
        solved(bind(s, x, t)),
        extends(bind(s, x, t), s),
        apply(bind(s, x, t), AtomView::Variable(x)) == t,
        apply(bind(s, x, t), t) == t,
{
    let b = bind(s, x, t);
    let one = single(x, t);
    lemma_resolved_variable_free(s, x);
    lemma_bind_solved(s, x, t);
    assert forall|y: AtomView| #[trigger] apply(b, apply(s, y)) == apply(b, y) by {
        lemma_bind_apply(s, x, t, apply(s, y));
        lemma_bind_apply(s, x, t, y);
        lemma_apply_idempotent(s, y);
    }
    // What `b` makes of `t`.
    lemma_bind_apply(s, x, t, t);
    lemma_apply_identity(s, t);
    assert forall|v: VarView| binds(one, v) implies !#[trigger] occurs(v, t) by {
        if v != x {
            assert(lookup_from(one, v, 1) is None);
        }
    }
    lemma_apply_identity(one, t);
    // What `b` makes of `x`.
    lemma_bind_apply(s, x, t, AtomView::Variable(x));
    lemma_apply_identity(s, AtomView::Variable(x));
    assert(lookup(one, x) == Some(t));
}

proof fn lemma_unify_sound(a: AtomView, b: AtomView, s: Seq<(VarView, AtomView)>, fuel: nat)
    requires
        solved(s),
        unify(a, b, s, fuel) is Some,
    ensures
        solved(unify(a, b, s, fuel)->Some_0),
        extends(unify(a, b, s, fuel)->Some_0, s),
        alike(
            apply(unify(a, b, s, fuel)->Some_0, a),
            apply(unify(a, b, s, fuel)->Some_0, b),
        ),
    decreases fuel, 0nat,
{
    let s2 = unify(a, b, s, fuel)->Some_0;
    if a is Variable || b is Variable {
        let ra = apply(s, a);
        let rb = apply(s, b);
        lemma_apply_resolves(s, a);
        lemma_apply_resolves(s, b);
        lemma_unify_resolved_sound(ra, rb, s, (fuel - 1) as nat);
        assert(apply(s2, apply(s, a)) == apply(s2, a));
        assert(apply(s2, apply(s, b)) == apply(s2, b));
    } else {
        match a {
            AtomView::Expression(xs) => {
                let ys = b->Expression_0;
                lemma_unify_children_sound(xs, ys, 0, s, (fuel - 1) as nat);
                lemma_apply_children(s2, xs);
                lemma_apply_children(s2, ys);
                let rx = apply(s2, a)->Expression_0;
                let ry = apply(s2, b)->Expression_0;
                assert forall|j: int| 0 <= j < rx.len() implies alike(#[trigger] rx[j], ry[j]) by {
                    assert(rx[j] == apply(s2, xs[j]));
                    assert(ry[j] == apply(s2, ys[j]));
                }
                lemma_alike_from_all(rx, ry, 0);
            },
            _ => {
                lemma_extends_self(s);
                lemma_alike_reflexive(a);
            },
        }
    }
}

proof fn lemma_unify_resolved_sound(
    a: AtomView,
    b: AtomView,
    s: Seq<(VarView, AtomView)>,
    fuel: nat,
)
    requires
        solved(s),
        is_resolved(s, a),
        is_resolved(s, b),
        unify_resolved(a, b, s, fuel) is Some,
    ensures
        solved(unify_resolved(a, b, s, fuel)->Some_0),
        extends(unify_resolved(a, b, s, fuel)->Some_0, s),
        alike(
            apply(unify_resolved(a, b, s, fuel)->Some_0, a),
            apply(unify_resolved(a, b, s, fuel)->Some_0, b),
        ),
    decreases fuel, 1nat,
{
    let s2 = unify_resolved(a, b, s, fuel)->Some_0;
    if a == b {
        lemma_extends_self(s);
        lemma_alike_reflexive(apply(s, a));
    } else {
        match a {
            AtomView::Variable(x) => match b {
                AtomView::Variable(y) => {
                    if var_lt(x, y) {
                        lemma_bind_sound(s, y, a);
                    } else {
                        lemma_bind_sound(s, x, b);
                    }
                    lemma_alike_reflexive(apply(s2, a));
                },
                _ => {
                    lemma_bind_sound(s, x, b);
                    lemma_alike_reflexive(b);
                },
            },
            _ => match b {
                AtomView::Variable(y) => {
                    lemma_bind_sound(s, y, a);
                    lemma_alike_reflexive(a);
                },
                _ => {
                    lemma_unify_sound(a, b, s, fuel);
                },
            },
        }
    }
}

proof fn lemma_unify_children_sound(
    xs: Seq<AtomView>,
    ys: Seq<AtomView>,
    i: int,
    s: Seq<(VarView, AtomView)>,
    fuel: nat,
)
    requires
        solved(s),
        0 <= i,
        xs.len() == ys.len(),
        unify_children(xs, ys, i, s, fuel) is Some,
    ensures
        solved(unify_children(xs, ys, i, s, fuel)->Some_0),
        extends(unify_children(xs, ys, i, s, fuel)->Some_0, s),
        forall|j: int|
            i <= j < xs.len() ==> alike(
                #[trigger] apply(unify_children(xs, ys, i, s, fuel)->Some_0, xs[j]),
                apply(unify_children(xs, ys, i, s, fuel)->Some_0, ys[j]),
            ),
    decreases fuel, xs.len() - i + 1,
{
    let s2 = unify_children(xs, ys, i, s, fuel)->Some_0;
    if i >= xs.len() {
        lemma_extends_self(s);
    } else {
        let s1 = unify(xs[i], ys[i], s, fuel)->Some_0;
        lemma_unify_sound(xs[i], ys[i], s, fuel);
        lemma_unify_children_sound(xs, ys, i + 1, s1, fuel);
        lemma_extends_transitive(s2, s1, s);
        lemma_alike_apply(s2, apply(s1, xs[i]), apply(s1, ys[i]));
        assert(apply(s2, apply(s1, xs[i])) == apply(s2, xs[i]));
        assert(apply(s2, apply(s1, ys[i])) == apply(s2, ys[i]));
    }
}

/// Matching is sound: the bindings that unification gives for two atoms
/// make the two alike, that is the same atom but for the hooks of grounded
/// atoms, which matching does not look at. The bindings are in solved
/// form: no variable that they bind is left in their values.
pub proof fn law_match_sound(a: AtomView, b: AtomView, s: Seq<(VarView, AtomView)>)
    requires
        !matched_by_hook(a, b),
        match_atoms_spec(a, b).contains(s),
    ensures
        alike(apply(s, a), apply(s, b)),
        solved(s),
{
    let empty = Seq::<(VarView, AtomView)>::empty();
    assert(solved(empty));
    let found = match_atoms_spec(a, b);
    let k = choose|k: int| 0 <= k < found.len() && found[k] == s;
    assert(found[k] == s);
    lemma_unify_sound(a, b, empty, MATCH_DEPTH as nat);
}


/// Whether the bindings make some entry of the dictionary alike the entry
/// of the pattern, key with key and value with value.
pub open spec fn entry_matched(
    data: Seq<(AtomView, AtomView)>,
    entry: (AtomView, AtomView),
    s: Seq<(VarView, AtomView)>,
) -> bool {
    exists|d: int|
        0 <= d < data.len() && alike(apply(s, (#[trigger] data[d]).0), apply(s, entry.0)) && alike(
            apply(s, data[d].1),
            apply(s, entry.1),
        )
}

/// Whether the bindings make each of the first `q` entries of the pattern
/// alike some entry of the dictionary.
pub open spec fn matched_upto(
    data: Seq<(AtomView, AtomView)>,
    query: Seq<(AtomView, AtomView)>,
    q: int,
    s: Seq<(VarView, AtomView)>,
) -> bool {
    forall|j: int| 0 <= j < q && j < query.len() ==> entry_matched(data, #[trigger] query[j], s)
}

/// Whether all of the bindings are solved and match the first `q` entries
/// of the pattern.
pub open spec fn all_matched_upto(
    data: Seq<(AtomView, AtomView)>,
    query: Seq<(AtomView, AtomView)>,
    q: int,
    states: Seq<Seq<(VarView, AtomView)>>,
) -> bool {
    forall|k: int|
        0 <= k < states.len() ==> solved(#[trigger] states[k]) && matched_upto(
            data,
            query,
            q,
            states[k],
        )
}

proof fn lemma_unify_entry_sound(
    dat: (AtomView, AtomView),
    entry: (AtomView, AtomView),
    st: Seq<(VarView, AtomView)>,
)
    requires
        solved(st),
        unify_entry(dat, entry, st) is Some,
    ensures
        solved(unify_entry(dat, entry, st)->Some_0),
        extends(unify_entry(dat, entry, st)->Some_0, st),
        alike(
            apply(unify_entry(dat, entry, st)->Some_0, dat.0),
            apply(unify_entry(dat, entry, st)->Some_0, entry.0),
        ),
        alike(
            apply(unify_entry(dat, entry, st)->Some_0, dat.1),
            apply(unify_entry(dat, entry, st)->Some_0, entry.1),
        ),
{
    let s1 = unify(dat.0, entry.0, st, MATCH_DEPTH as nat)->Some_0;
    let s2 = unify_entry(dat, entry, st)->Some_0;
    lemma_unify_sound(dat.0, entry.0, st, MATCH_DEPTH as nat);
    lemma_unify_sound(dat.1, entry.1, s1, MATCH_DEPTH as nat);
    lemma_extends_transitive(s2, s1, st);
    lemma_alike_apply(s2, apply(s1, dat.0), apply(s1, entry.0));
    assert(apply(s2, apply(s1, dat.0)) == apply(s2, dat.0));
    assert(apply(s2, apply(s1, entry.0)) == apply(s2, entry.0));
}

proof fn lemma_entry_matched_extends(
    data: Seq<(AtomView, AtomView)>,
    entry: (AtomView, AtomView),
    st: Seq<(VarView, AtomView)>,
    s: Seq<(VarView, AtomView)>,
)
    requires
        extends(s, st),
        entry_matched(data, entry, st),
    ensures
        entry_matched(data, entry, s),
{
    let d = choose|d: int|
        0 <= d < data.len() && alike(apply(st, (#[trigger] data[d]).0), apply(st, entry.0))
            && alike(apply(st, data[d].1), apply(st, entry.1));
    lemma_alike_apply(s, apply(st, data[d].0), apply(st, entry.0));
    lemma_alike_apply(s, apply(st, data[d].1), apply(st, entry.1));
    assert(apply(s, apply(st, data[d].0)) == apply(s, data[d].0));
    assert(apply(s, apply(st, entry.0)) == apply(s, entry.0));
    assert(apply(s, apply(st, data[d].1)) == apply(s, data[d].1));
    assert(apply(s, apply(st, entry.1)) == apply(s, entry.1));
}

proof fn lemma_concat_contains<T>(a: Seq<T>, b: Seq<T>, x: T)
    requires
        (a + b).contains(x),
    ensures
        a.contains(x) || b.contains(x),
{
    let i = choose|i: int| 0 <= i < (a + b).len() && (a + b)[i] == x;
    if i < a.len() {
        assert(a[i] == x);
    } else {
        assert(b[i - a.len()] == x);
    }
}

proof fn lemma_alternative_source(
    data: Seq<(AtomView, AtomView)>,
    entry: (AtomView, AtomView),
    st: Seq<(VarView, AtomView)>,
    d0: int,
    s: Seq<(VarView, AtomView)>,
)
    requires
        0 <= d0,
        dict_alternatives(data, entry, st, d0).contains(s),
    ensures
        exists|d: int|
            d0 <= d < data.len() && unify_entry(#[trigger] data[d], entry, st) == Some(s),
    decreases data.len() - d0,
{
    if d0 >= data.len() {
        assert(dict_alternatives(data, entry, st, d0) =~= Seq::empty());
        assert(false);
    } else {
        let rest = dict_alternatives(data, entry, st, d0 + 1);
        match unify_entry(data[d0], entry, st) {
            Some(s2) => {
                lemma_concat_contains(seq![s2], rest, s);
                if seq![s2].contains(s) {
                    assert(s2 == s);
                    assert(unify_entry(data[d0], entry, st) == Some(s));
                } else {
                    lemma_alternative_source(data, entry, st, d0 + 1, s);
                }
            },
            None => {
                lemma_alternative_source(data, entry, st, d0 + 1, s);
            },
        }
    }
}

proof fn lemma_step_matched(
    data: Seq<(AtomView, AtomView)>,
    query: Seq<(AtomView, AtomView)>,
    q: int,
    states: Seq<Seq<(VarView, AtomView)>>,
    k: int,
    s: Seq<(VarView, AtomView)>,
)
    requires
        0 <= q < query.len(),
        0 <= k,
        all_matched_upto(data, query, q, states),
        dict_step(data, query[q], states, k).contains(s),
    ensures
        solved(s),
        matched_upto(data, query, q + 1, s),
    decreases states.len() - k,
{
    if k >= states.len() {
        assert(dict_step(data, query[q], states, k) =~= Seq::empty());
        assert(false);
    } else {
        let first = dict_alternatives(data, query[q], states[k], 0);
        let rest = dict_step(data, query[q], states, k + 1);
        lemma_concat_contains(first, rest, s);
        if first.contains(s) {
            let st = states[k];
            assert(solved(st) && matched_upto(data, query, q, st));
            lemma_alternative_source(data, query[q], st, 0, s);
            let d = choose|d: int|
                0 <= d < data.len() && unify_entry(#[trigger] data[d], query[q], st) == Some(s);
            lemma_unify_entry_sound(data[d], query[q], st);
            assert forall|j: int| 0 <= j < q + 1 && j < query.len() implies entry_matched(
                data,
                #[trigger] query[j],
                s,
            ) by {
                if j < q {
                    assert(entry_matched(data, query[j], st));
                    lemma_entry_matched_extends(data, query[j], st, s);
                } else {
                    assert(0 <= d < data.len() && alike(apply(s, data[d].0), apply(s, query[q].0))
                        && alike(apply(s, data[d].1), apply(s, query[q].1)));
                }
            }
        } else {
            lemma_step_matched(data, query, q, states, k + 1, s);
        }
    }
}

proof fn lemma_fold_matched(
    data: Seq<(AtomView, AtomView)>,
    query: Seq<(AtomView, AtomView)>,
    q: int,
    states: Seq<Seq<(VarView, AtomView)>>,
    s: Seq<(VarView, AtomView)>,
)
    requires
        0 <= q,
        all_matched_upto(data, query, q, states),
        dict_fold(data, query, q, states).contains(s),
    ensures
        solved(s),
        matched_upto(data, query, query.len() as int, s),
    decreases query.len() - q,
{
    if q >= query.len() {
        let k = choose|k: int| 0 <= k < states.len() && states[k] == s;
        assert(solved(states[k]) && matched_upto(data, query, q, states[k]));
    } else {
        let next = dict_step(data, query[q], states, 0);
        assert forall|k: int| 0 <= k < next.len() implies solved(#[trigger] next[k])
            && matched_upto(data, query, q + 1, next[k]) by {
            assert(next.contains(next[k]));
            lemma_step_matched(data, query, q, states, 0, next[k]);
        }
        lemma_fold_matched(data, query, q + 1, next, s);
    }
}

/// Matching of dictionaries is sound: under each of the bindings that it
/// gives, every entry of the pattern is alike some entry of the
/// dictionary, key with key and value with value. The bindings are in
/// solved form.
pub proof fn law_dictionary_match_sound(
    data: Seq<(AtomView, AtomView)>,
    query: Seq<(AtomView, AtomView)>,
    s: Seq<(VarView, AtomView)>,
)
    requires
        dict_match(data, query).contains(s),
    ensures
        solved(s),
        forall|j: int| 0 <= j < query.len() ==> entry_matched(data, #[trigger] query[j], s),
{
    let empty = Seq::<(VarView, AtomView)>::empty();
    let start = seq![empty];
    assert(solved(empty));
    assert forall|k: int| 0 <= k < start.len() implies solved(#[trigger] start[k]) && matched_upto(
        data,
        query,
        0,
        start[k],
    ) by {}
    lemma_fold_matched(data, query, 0, start, s);
}

} // verus!
