//! The text form of atoms and of host values.

use crate::atom::{
    atoms_view, dict_view, hosts_view, lemma_atom_view, lemma_children_decrease, lemma_dict_view,
    lemma_grounded_decrease, lemma_hosts_view, Atom, AtomView, ExecuteFn, GroundedAtom,
    HostValue, HostView, VarView, VariableAtom,
};
use crate::strings::{decimal, i64_to_decimal, numeral, u64_to_numeral};
use vstd::prelude::*;

verus! {

/// The name under which a hook is written in programs.
pub open spec fn hook_name(f: ExecuteFn) -> Seq<char> {
    match f {
        ExecuteFn::NotImplemented => "not-implemented"@,
        ExecuteFn::GetType => "get-type"@,
        ExecuteFn::GetMetaType => "get-metatype"@,
        ExecuteFn::IfEqual => "if-equal"@,
        ExecuteFn::Sum => "+"@,
        ExecuteFn::Sub => "-"@,
        ExecuteFn::Mul => "*"@,
        ExecuteFn::Div => "/"@,
        ExecuteFn::Mod => "%"@,
    }
}

/// What the `Debug` formatting of `str` makes of a text: the text between
/// double quotes, with the characters escaped that Rust escapes.
pub uninterp spec fn str_debug(text: Seq<char>) -> Seq<char>;

/// The text of a host value.
pub open spec fn host_display(v: HostView) -> Seq<char>
    decreases v, 0nat,
{
    match v {
        HostView::Bool(b) => if b {
            "true"@
        } else {
            "false"@
        },
        HostView::I32(n) => decimal(n),
        HostView::I64(n) => decimal(n),
        HostView::U64(n) => numeral(n as nat, 10),
        HostView::Str(s) => str_debug(s),
        HostView::StaticStr(s) => str_debug(s),
        HostView::Table(c) => "{"@ + map_display_from(c, 0) + "}"@,
        HostView::List(c) => "["@ + hosts_display_from(c, 0) + "]"@,
        HostView::Array(c) => "["@ + hosts_display_from(c, 0) + "]"@,
        HostView::Tuple(c) => if c.len() == 1 {
            "("@ + host_display(c[0]) + ",)"@
        } else {
            "("@ + hosts_display_from(c, 0) + ")"@
        },
        HostView::Number(n) => decimal(n),
        HostView::Truth(b) => if b {
            "True"@
        } else {
            "False"@
        },
        HostView::Op(f) => hook_name(f),
        HostView::Space => "&self"@,
        HostView::Dict(e) => "{"@ + dict_display_from(e, 0) + "}"@,
    }
}

/// The texts of the entries of a dictionary from position `i` on: each as
/// the key, a colon and the value, separated by a comma and a space.
pub open spec fn dict_display_from(e: Seq<(AtomView, AtomView)>, i: int) -> Seq<char>
    decreases e, e.len() - i,
{
    if i < 0 || i >= e.len() {
        Seq::empty()
    } else if i == e.len() - 1 {
        display(e[i].0) + ": "@ + display(e[i].1)
    } else {
        display(e[i].0) + ": "@ + display(e[i].1) + ", "@ + dict_display_from(e, i + 1)
    }
}

/// The text of an entry of a map: the key, a colon and the value.
pub open spec fn entry_display(e: HostView) -> Seq<char>
    decreases e, 1nat,
{
    match e {
        HostView::Tuple(p) => if p.len() == 2 {
            host_display(p[0]) + ": "@ + host_display(p[1])
        } else {
            host_display(e)
        },
        _ => host_display(e),
    }
}

/// The texts of the entries of a map from position `i` on, separated by a
/// comma and a space.
pub open spec fn map_display_from(c: Seq<HostView>, i: int) -> Seq<char>
    decreases c, c.len() - i,
{
    if i < 0 || i >= c.len() {
        Seq::empty()
    } else if i == c.len() - 1 {
        entry_display(c[i])
    } else {
        entry_display(c[i]) + ", "@ + map_display_from(c, i + 1)
    }
}

/// The texts of the host values from position `i` on, separated by a comma
/// and a space.
pub open spec fn hosts_display_from(c: Seq<HostView>, i: int) -> Seq<char>
    decreases c, c.len() - i,
{
    if i < 0 || i >= c.len() {
        Seq::empty()
    } else if i == c.len() - 1 {
        host_display(c[i])
    } else {
        host_display(c[i]) + ", "@ + hosts_display_from(c, i + 1)
    }
}

/// The text of a variable: `$` and the name, then `#` and the tag where the
/// tag is not 0.
pub open spec fn var_display(v: VarView) -> Seq<char> {
    if v.id == 0 {
        "$"@ + v.name
    } else {
        "$"@ + v.name + "#"@ + numeral(v.id, 10)
    }
}

/// The text of an atom.
pub open spec fn display(a: AtomView) -> Seq<char>
    decreases a, 0nat,
{
    match a {
        AtomView::Symbol(n) => n,
        AtomView::Variable(v) => var_display(v),
        AtomView::Expression(c) => "("@ + display_from(c, 0) + ")"@,
        AtomView::Grounded(g) => host_display(g.value),
    }
}

/// The texts of the atoms from position `i` on, separated by one space.
pub open spec fn display_from(c: Seq<AtomView>, i: int) -> Seq<char>
    decreases c, c.len() - i,
{
    if i < 0 || i >= c.len() {
        Seq::empty()
    } else if i == c.len() - 1 {
        display(c[i])
    } else {
        display(c[i]) + " "@ + display_from(c, i + 1)
    }
}

/// The name under which a hook is written in programs.
pub fn hook_name_str(f: ExecuteFn) -> (r: &'static str)
    ensures
        r@ == hook_name(f),
{
    match f {
        ExecuteFn::NotImplemented => "not-implemented",
        ExecuteFn::GetType => "get-type",
        ExecuteFn::GetMetaType => "get-metatype",
        ExecuteFn::IfEqual => "if-equal",
        ExecuteFn::Sum => "+",
        ExecuteFn::Sub => "-",
        ExecuteFn::Mul => "*",
        ExecuteFn::Div => "/",
        ExecuteFn::Mod => "%",
    }
}

/// Calls the `Debug` formatting of `str`, which writes a string as a
/// literal. Its answer is taken as it comes; no more is claimed than that
/// the same text always gets the same answer.
#[verifier::external_body]
fn debug_str(s: &str) -> (r: String)
    ensures
        r@ == str_debug(s@),
{
    format!("{:?}", s)
}

fn entry_to_string(e: &HostValue) -> (r: String)
    ensures
        r@ == entry_display(e@),
    decreases e, 1nat,
{
    match e {
        HostValue::Tuple(p) => {
            proof {
                lemma_hosts_view(*p);
            }
            if p.len() == 2 {
                assert(hosts_view(p@)[0] == p@[0]@);
                assert(hosts_view(p@)[1] == p@[1]@);
                let mut out = p[0].to_string();
                out.append(": ");
                let value = p[1].to_string();
                out.append(value.as_str());
                out
            } else {
                e.to_string()
            }
        },
        _ => e.to_string(),
    }
}

fn map_to_string(c: &Vec<HostValue>) -> (r: String)
    ensures
        r@ == map_display_from(hosts_view(c@), 0),
    decreases c, 2nat,
{
    let mut out = String::new();
    let mut i: usize = 0;
    let ghost cv = hosts_view(c@);
    while i < c.len()
        invariant
            0 <= i <= c.len(),
            cv == hosts_view(c@),
            out@ + map_display_from(cv, i as int) == map_display_from(cv, 0),
        decreases c.len() - i,
    {
        let ghost before = out@;
        let piece = entry_to_string(&c[i]);
        assert(cv[i as int] == c@[i as int]@);
        out.append(piece.as_str());
        if i + 1 < c.len() {
            out.append(", ");
        }
        assert(out@ + map_display_from(cv, i + 1) =~= before + map_display_from(cv, i as int));
        i += 1;
    }
    assert(out@ + Seq::<char>::empty() =~= out@);
    out
}

fn hosts_to_string(c: &Vec<HostValue>) -> (r: String)
    ensures
        r@ == hosts_display_from(hosts_view(c@), 0),
    decreases c, 1nat,
{
    let mut out = String::new();
    let mut i: usize = 0;
    let ghost cv = hosts_view(c@);
    while i < c.len()
        invariant
            0 <= i <= c.len(),
            cv == hosts_view(c@),
            out@ + hosts_display_from(cv, i as int) == hosts_display_from(cv, 0),
        decreases c.len() - i,
    {
        let ghost before = out@;
        let piece = c[i].to_string();
        assert(cv[i as int] == c@[i as int]@);
        out.append(piece.as_str());
        if i + 1 < c.len() {
            out.append(", ");
        }
        assert(out@ + hosts_display_from(cv, i + 1) =~= before + hosts_display_from(cv, i as int));
        i += 1;
    }
    assert(out@ + Seq::<char>::empty() =~= out@);
    out
}

impl HostValue {
    /// The text of the value.
    pub fn to_string(&self) -> (r: String)
        ensures
            r@ == host_display(self@),
        decreases self, 0nat,
    {
        match self {
            HostValue::Bool(b) => {
                let r = if *b {
                    String::from_str("true")
                } else {
                    String::from_str("false")
                };
                r
            },
            HostValue::I32(n) => {
                let r = i64_to_decimal(*n as i64);
                r
            },
            HostValue::I64(n) => {
                let r = i64_to_decimal(*n);
                r
            },
            HostValue::U64(n) => {
                let r = u64_to_numeral(*n, 10);
                r
            },
            HostValue::StaticStr(s) => debug_str(s),
            HostValue::Table(c) => {
                proof {
                    lemma_hosts_view(*c);
                }
                let mut out = String::from_str("{");
                let inner = map_to_string(c);
                out.append(inner.as_str());
                out.append("}");
                out
            },
            HostValue::Str(s) => {
                let r = debug_str(s.as_str());
                r
            },
            HostValue::List(c) => {
                proof {
                    lemma_hosts_view(*c);
                }
                let mut out = String::from_str("[");
                let inner = hosts_to_string(c);
                out.append(inner.as_str());
                out.append("]");
                out
            },
            HostValue::Array(c) => {
                proof {
                    lemma_hosts_view(*c);
                }
                let mut out = String::from_str("[");
                let inner = hosts_to_string(c);
                out.append(inner.as_str());
                out.append("]");
                out
            },
            HostValue::Tuple(c) => {
                proof {
                    lemma_hosts_view(*c);
                }
                let mut out = String::from_str("(");
                if c.len() == 1 {
                    let inner = c[0].to_string();
                    assert(hosts_view(c@)[0] == c@[0]@);
                    out.append(inner.as_str());
                    out.append(",)");
                    } else {
                    let inner = hosts_to_string(c);
                    out.append(inner.as_str());
                    out.append(")");
                    }
                out
            },
            HostValue::Number(n) => i64_to_decimal(*n),
            HostValue::Truth(b) => if *b {
                String::from_str("True")
            } else {
                String::from_str("False")
            },
            HostValue::Op(f) => String::from_str(hook_name_str(*f)),
            HostValue::Space => String::from_str("&self"),
            HostValue::Dict(e) => {
                proof {
                    lemma_dict_view(*e);
                }
                let mut out = String::from_str("{");
                let inner = dict_to_string(e);
                out.append(inner.as_str());
                out.append("}");
                out
            },
        }
    }
}

fn dict_to_string(e: &Vec<(Atom, Atom)>) -> (r: String)
    ensures
        r@ == dict_display_from(dict_view(e@), 0),
    decreases e, 1nat,
{
    let mut out = String::new();
    let mut i: usize = 0;
    let ghost ev = dict_view(e@);
    while i < e.len()
        invariant
            0 <= i <= e.len(),
            ev == dict_view(e@),
            out@ + dict_display_from(ev, i as int) == dict_display_from(ev, 0),
        decreases e.len() - i,
    {
        let ghost before = out@;
        assert(ev[i as int] == (e@[i as int].0@, e@[i as int].1@));
        let key = e[i].0.to_string();
        out.append(key.as_str());
        out.append(": ");
        let value = e[i].1.to_string();
        out.append(value.as_str());
        if i + 1 < e.len() {
            out.append(", ");
        }
        assert(out@ + dict_display_from(ev, i + 1) =~= before + dict_display_from(ev, i as int));
        i += 1;
    }
    assert(out@ + Seq::<char>::empty() =~= out@);
    out
}

impl VariableAtom {
    /// The text of the variable.
    pub fn to_string(&self) -> (r: String)
        ensures
            r@ == var_display(self@),
    {
        let mut out = String::from_str("$");
        out.append(self.name());
        if self.id() != 0 {
            out.append("#");
            let tag = u64_to_numeral(self.id(), 10);
            out.append(tag.as_str());
        }
        out
    }
}

impl GroundedAtom {
    /// The text of the atom: that of its host value.
    pub fn to_string(&self) -> (r: String)
        ensures
            r@ == host_display(self@.value),
        decreases self.value_spec(), 1nat,
    {
        self.value().to_string()
    }
}

fn atoms_to_string(c: &Vec<Atom>) -> (r: String)
    ensures
        r@ == display_from(atoms_view(c@), 0),
    decreases c, 1nat,
{
    let mut out = String::new();
    let mut i: usize = 0;
    let ghost cv = atoms_view(c@);
    while i < c.len()
        invariant
            0 <= i <= c.len(),
            cv == atoms_view(c@),
            out@ + display_from(cv, i as int) == display_from(cv, 0),
        decreases c.len() - i,
    {
        let ghost before = out@;
        let piece = c[i].to_string();
        assert(cv[i as int] == c@[i as int]@);
        out.append(piece.as_str());
        if i + 1 < c.len() {
            out.append(" ");
        }
        assert(out@ + display_from(cv, i + 1) =~= before + display_from(cv, i as int));
        i += 1;
    }
    assert(out@ + Seq::<char>::empty() =~= out@);
    out
}

impl Atom {
    /// The text of the atom: a symbol as its name, a variable as `$name`, an
    /// expression as its children between brackets, a grounded atom as its
    /// host value.
    pub fn to_string(&self) -> (r: String)
        ensures
            r@ == display(self@),
        decreases self, 0nat,
    {
        proof {
            lemma_atom_view(*self);
            lemma_children_decrease(*self);
            lemma_grounded_decrease(*self);
        }
        match self {
            Atom::Symbol(s) => s.to_string(),
            Atom::Variable(v) => v.to_string(),
            Atom::Grounded(g) => g.to_string(),
            Atom::Expression(e) => {
                let mut out = String::from_str("(");
                let inner = atoms_to_string(e.children());
                out.append(inner.as_str());
                out.append(")");
                out
            },
        }
    }
}

} // verus!
