//! The surface syntax: a table of tokens and a reader of S-expressions.

use crate::atom::{atoms_view, Atom, AtomView, VarView, VariableAtom};
use crate::stdlib::{number, number_atom};
use crate::strings::{
    chars_are_numeral, chars_to_u64, is_numeral, parse_numeral, str_chars, str_eq, str_to_string,
};
use vstd::prelude::*;

verus! {

/// Mathematical value of the pattern of a token rule.
pub enum PatternView {
    Exact(Seq<char>),
    Digits,
}

/// Mathematical value of the constructor of a token rule.
pub enum ConstructorView {
    Constant(AtomView),
    Integer,
}

/// Which tokens a rule applies to.
#[derive(Debug)]
pub enum TokenPattern {
    /// The token that is exactly this text.
    Exact(String),
    /// Every non-empty run of decimal digits.
    Digits,
}

/// What atom a rule makes of a token.
#[derive(Debug)]
pub enum TokenConstructor {
    /// Always a copy of this atom.
    Constant(Atom),
    /// The integer that the digits denote, where it fits in 64 bits with
    /// a sign; the token as a symbol where it does not.
    Integer,
}

impl View for TokenPattern {
    type V = PatternView;

    open spec fn view(&self) -> PatternView {
        match self {
            TokenPattern::Exact(s) => PatternView::Exact(s@),
            TokenPattern::Digits => PatternView::Digits,
        }
    }
}

impl View for TokenConstructor {
    type V = ConstructorView;

    open spec fn view(&self) -> ConstructorView {
        match self {
            TokenConstructor::Constant(a) => ConstructorView::Constant(a@),
            TokenConstructor::Integer => ConstructorView::Integer,
        }
    }
}

/// Whether the pattern applies to the token.
pub open spec fn pattern_matches(p: PatternView, token: Seq<char>) -> bool {
    match p {
        PatternView::Exact(s) => token == s,
        PatternView::Digits => token.len() > 0 && is_numeral(token, 10),
    }
}

/// The atom that the constructor makes of the token.
pub open spec fn construct(c: ConstructorView, token: Seq<char>) -> AtomView {
    match c {
        ConstructorView::Constant(a) => a,
        ConstructorView::Integer => match parse_numeral(token, 10) {
            Some(n) => if n <= i64::MAX {
                number(n as int)
            } else {
                AtomView::Symbol(token)
            },
            None => AtomView::Symbol(token),
        },
    }
}

/// The position of the last of the first `n` rules that applies to the
/// token.
pub open spec fn find_rule(rules: Seq<(PatternView, ConstructorView)>, token: Seq<char>, n: int)
    -> Option<int>
    decreases n,
{
    if n <= 0 || n > rules.len() {
        None
    } else if pattern_matches(rules[n - 1].0, token) {
        Some(n - 1)
    } else {
        find_rule(rules, token, n - 1)
    }
}

/// The atom that a token stands for. A token that begins with `$` is the
/// variable of the name that follows. Another token is what the rule
/// registered last among those that apply makes of it, and a symbol where
/// no rule applies.
pub open spec fn token_atom(token: Seq<char>, rules: Seq<(PatternView, ConstructorView)>)
    -> AtomView {
    if token.len() > 0 && token[0] == '$' {
        AtomView::Variable(VarView { name: token.skip(1), id: 0 })
    } else {
        match find_rule(rules, token, rules.len() as int) {
            Some(k) => construct(rules[k].1, token),
            None => AtomView::Symbol(token),
        }
    }
}

/// Views of a list of token rules.
pub open spec fn rules_view(s: Seq<(TokenPattern, TokenConstructor)>) -> Seq<
    (PatternView, ConstructorView),
> {
    Seq::new(s.len(), |i: int| (s[i].0@, s[i].1@))
}

/// The table of tokens: rules that say which tokens are more than symbols.
/// A rule registered later has precedence over those before it.
#[derive(Debug)]
pub struct Tokenizer {
    rules: Vec<(TokenPattern, TokenConstructor)>,
}

impl View for Tokenizer {
    type V = Seq<(PatternView, ConstructorView)>;

    closed spec fn view(&self) -> Seq<(PatternView, ConstructorView)> {
        rules_view(self.rules@)
    }
}

impl Tokenizer {
    /// The table without rules: every token is a symbol or a variable.
    pub fn new() -> (r: Self)
        ensures
            r@ == Seq::<(PatternView, ConstructorView)>::empty(),
    {
        let r = Tokenizer { rules: Vec::new() };
        assert(r@ =~= Seq::<(PatternView, ConstructorView)>::empty());
        r
    }

    /// The number of rules.
    pub fn len(&self) -> (r: usize)
        ensures
            r == self@.len(),
    {
        self.rules.len()
    }

    /// Adds a rule, with precedence over the rules already there.
    pub fn register_token(&mut self, pattern: TokenPattern, constructor: TokenConstructor)
        ensures
            final(self)@ == old(self)@.push((pattern@, constructor@)),
    {
        self.rules.push((pattern, constructor));
        assert(self@ =~= old(self)@.push((pattern@, constructor@)));
    }

    /// Moves the rules of `from` to the front of this table, where the
    /// rules already here have precedence over them, and leaves `from`
    /// empty.
    pub fn move_front(&mut self, from: &mut Tokenizer)
        ensures
            final(self)@ == old(from)@ + old(self)@,
            final(from)@ == Seq::<(PatternView, ConstructorView)>::empty(),
    {
        let ghost mine = self@;
        let ghost theirs = from@;
        from.rules.append(&mut self.rules);
        assert(rules_view(from.rules@) =~= theirs + mine);
        self.rules.append(&mut from.rules);
        assert(self@ =~= theirs + mine);
        assert(from@ =~= Seq::<(PatternView, ConstructorView)>::empty());
    }

    /// The atom that the rules make of the token, if a rule applies to it.
    pub fn find_token(&self, token: &str) -> (r: Option<Atom>)
        ensures
            match r {
                Some(a) => find_rule(self@, token@, self@.len() as int) matches Some(k) && a@
                    == construct(self@[k].1, token@),
                None => find_rule(self@, token@, self@.len() as int) is None,
            },
    {
        let chars = str_chars(token);
        let mut n: usize = self.rules.len();
        while n > 0
            invariant
                0 <= n <= self.rules.len(),
                chars@ == token@,
                find_rule(self@, token@, n as int) == find_rule(self@, token@, self@.len() as int),
            decreases n,
        {
            let applies = match &self.rules[n - 1].0 {
                TokenPattern::Exact(s) => str_eq(s.as_str(), token),
                TokenPattern::Digits => chars.len() > 0 && chars_are_numeral(&chars, 10),
            };
            assert(applies == pattern_matches(self@[n - 1].0, token@));
            if applies {
                let atom = match &self.rules[n - 1].1 {
                    TokenConstructor::Constant(a) => a.clone(),
                    TokenConstructor::Integer => match chars_to_u64(&chars, 10) {
                        Some(v) => if v <= 9223372036854775807u64 {
                            number_atom(v as i64)
                        } else {
                            Atom::sym(token)
                        },
                        None => Atom::sym(token),
                    },
                };
                return Some(atom);
            }
            n -= 1;
        }
        None
    }

    /// The atom that a token stands for.
    pub fn token_to_atom(&self, token: &str) -> (r: Atom)
        ensures
            r@ == token_atom(token@, self@),
    {
        let n = token.unicode_len();
        if n > 0 && token.get_char(0) == '$' {
            let name = token.substring_char(1, n);
            assert(name@ =~= token@.skip(1));
            return Atom::var(name);
        }
        match self.find_token(token) {
            Some(a) => a,
            None => Atom::sym(token),
        }
    }
}

/// Whether the character separates tokens without being one.
pub open spec fn is_blank(c: char) -> bool {
    c == ' ' || c == '\t' || c == '\n' || c == '\r'
}

/// Whether the character ends a token that is not a string.
pub open spec fn is_delimiter(c: char) -> bool {
    is_blank(c) || c == '(' || c == ')'
}

/// The first position at or after `i` that is neither blank nor inside a
/// comment. A comment runs from `;` to the end of the line.
pub open spec fn skip_blank(text: Seq<char>, i: int, in_comment: bool) -> int
    decreases text.len() - i,
{
    if i < 0 || i >= text.len() {
        text.len() as int
    } else if in_comment {
        skip_blank(text, i + 1, text[i] != '\n')
    } else if is_blank(text[i]) {
        skip_blank(text, i + 1, false)
    } else if text[i] == ';' {
        skip_blank(text, i + 1, true)
    } else {
        i
    }
}

/// The end of the token that begins at `i`: the first delimiter at or
/// after `i`, or the end of the text.
pub open spec fn token_end(text: Seq<char>, i: int) -> int
    decreases text.len() - i,
{
    if i < 0 || i >= text.len() {
        text.len() as int
    } else if is_delimiter(text[i]) {
        i
    } else {
        token_end(text, i + 1)
    }
}

/// The end of a string whose opening quote lies before `i`: the position
/// after the closing quote, or the end of the text. A character after a
/// backslash does not close the string.
pub open spec fn string_end(text: Seq<char>, i: int, escaped: bool) -> int
    decreases text.len() - i,
{
    if i < 0 || i >= text.len() {
        text.len() as int
    } else if escaped {
        string_end(text, i + 1, false)
    } else if text[i] == '\\' {
        string_end(text, i + 1, true)
    } else if text[i] == '"' {
        i + 1
    } else {
        string_end(text, i + 1, false)
    }
}

/// The atom that begins at position `i`, which is not blank, and the
/// position after it.
pub open spec fn parse_atom(text: Seq<char>, rules: Seq<(PatternView, ConstructorView)>, i: int)
    -> Result<(AtomView, int), Seq<char>>
    decreases text.len() - i, 0nat,
{
    if i < 0 || i >= text.len() {
        Err("Unexpected end of expression"@)
    } else if text[i] == '(' {
        parse_list(text, rules, i + 1, Seq::empty())
    } else if text[i] == ')' {
        Err("Unexpected right bracket"@)
    } else {
        let end = if text[i] == '"' {
            string_end(text, i + 1, false)
        } else {
            token_end(text, i)
        };
        Ok((token_atom(text.subrange(i, end), rules), end))
    }
}

/// The expression whose first children are `acc` and whose other children
/// and closing bracket follow from position `i` on, and the position after
/// it.
pub open spec fn parse_list(
    text: Seq<char>,
    rules: Seq<(PatternView, ConstructorView)>,
    i: int,
    acc: Seq<AtomView>,
) -> Result<(AtomView, int), Seq<char>>
    decreases text.len() - i, 1nat,
{
    let j = skip_blank(text, i, false);
    if j < i || j >= text.len() {
        Err("Unexpected end of expression"@)
    } else if text[j] == ')' {
        Ok((AtomView::Expression(acc), j + 1))
    } else {
        match parse_atom(text, rules, j) {
            Err(e) => Err(e),
            Ok((a, k)) => if k <= j || k > text.len() {
                Err("Unexpected end of expression"@)
            } else {
                parse_list(text, rules, k, acc.push(a))
            },
        }
    }
}

/// The next atom at or after position `i` and the position after it, or
/// nothing where only blanks and comments are left.
pub open spec fn parse_next(text: Seq<char>, rules: Seq<(PatternView, ConstructorView)>, i: int)
    -> Result<Option<(AtomView, int)>, Seq<char>> {
    let j = skip_blank(text, i, false);
    if j >= text.len() {
        Ok(None)
    } else {
        match parse_atom(text, rules, j) {
            Err(e) => Err(e),
            Ok(found) => Ok(Some(found)),
        }
    }
}

/// All atoms from position `i` on, after those of `acc`.
pub open spec fn parse_all(
    text: Seq<char>,
    rules: Seq<(PatternView, ConstructorView)>,
    i: int,
    acc: Seq<AtomView>,
) -> Result<Seq<AtomView>, Seq<char>>
    decreases text.len() - i,
{
    match parse_next(text, rules, i) {
        Err(e) => Err(e),
        Ok(None) => Ok(acc),
        Ok(Some((a, k))) => if k <= i || k > text.len() {
            Err("Unexpected end of expression"@)
        } else {
            parse_all(text, rules, k, acc.push(a))
        },
    }
}

proof fn lemma_skip_blank_bounds(text: Seq<char>, i: int, in_comment: bool)
    requires
        0 <= i <= text.len(),
    ensures
        i <= skip_blank(text, i, in_comment) <= text.len(),
        skip_blank(text, i, in_comment) < text.len() ==> !is_blank(
            text[skip_blank(text, i, in_comment)],
        ),
    decreases text.len() - i,
{
    if i < text.len() {
        if in_comment {
            lemma_skip_blank_bounds(text, i + 1, text[i] != '\n');
        } else if is_blank(text[i]) {
            lemma_skip_blank_bounds(text, i + 1, false);
        } else if text[i] == ';' {
            lemma_skip_blank_bounds(text, i + 1, true);
        }
    }
}

fn skip_blank_in(chars: &Vec<char>, start: usize) -> (r: usize)
    requires
        start <= chars.len(),
    ensures
        r == skip_blank(chars@, start as int, false),
        start <= r <= chars.len(),
        r < chars.len() ==> !is_blank(chars@[r as int]),
{
    let mut i = start;
    let mut in_comment = false;
    proof {
        lemma_skip_blank_bounds(chars@, start as int, false);
    }
    while i < chars.len()
        invariant
            start <= i <= chars.len(),
            skip_blank(chars@, i as int, in_comment) == skip_blank(chars@, start as int, false),
        decreases chars.len() - i,
    {
        let c = chars[i];
        if in_comment {
            in_comment = c != '\n';
        } else if c == ' ' || c == '\t' || c == '\n' || c == '\r' {
        } else if c == ';' {
            in_comment = true;
        } else {
            return i;
        }
        i += 1;
    }
    i
}

fn token_end_in(chars: &Vec<char>, start: usize) -> (r: usize)
    requires
        start <= chars.len(),
    ensures
        r == token_end(chars@, start as int),
        start <= r <= chars.len(),
        start < chars.len() && !is_delimiter(chars@[start as int]) ==> start < r,
{
    let mut i = start;
    while i < chars.len()
        invariant
            start <= i <= chars.len(),
            token_end(chars@, i as int) == token_end(chars@, start as int),
            start < chars.len() && !is_delimiter(chars@[start as int]) && i == start ==> i
                < chars.len(),
            i > start || i == start,
        decreases chars.len() - i,
    {
        let c = chars[i];
        if c == ' ' || c == '\t' || c == '\n' || c == '\r' || c == '(' || c == ')' {
            return i;
        }
        i += 1;
    }
    i
}

fn string_end_in(chars: &Vec<char>, start: usize) -> (r: usize)
    requires
        start <= chars.len(),
    ensures
        r == string_end(chars@, start as int, false),
        start <= r <= chars.len(),
{
    let mut i = start;
    let mut escaped = false;
    while i < chars.len()
        invariant
            start <= i <= chars.len(),
            string_end(chars@, i as int, escaped) == string_end(chars@, start as int, false),
        decreases chars.len() - i,
    {
        let c = chars[i];
        if escaped {
            escaped = false;
        } else if c == '\\' {
            escaped = true;
        } else if c == '"' {
            return i + 1;
        }
        i += 1;
    }
    i
}

/// The view of what parsing one atom gave.
pub open spec fn parsed_view(r: Result<(Atom, usize), String>) -> Result<
    (AtomView, int),
    Seq<char>,
> {
    match r {
        Ok((a, k)) => Ok((a@, k as int)),
        Err(e) => Err(e@),
    }
}

fn parse_atom_in(source: &str, chars: &Vec<char>, tokenizer: &Tokenizer, i: usize) -> (r: Result<
    (Atom, usize),
    String,
>)
    requires
        chars@ == source@,
        i < chars.len(),
        !is_blank(chars@[i as int]),
    ensures
        parsed_view(r) == parse_atom(source@, tokenizer@, i as int),
        r matches Ok((_, k)) ==> i < k <= chars.len(),
    decreases chars.len() - i,
{
    let c = chars[i];
    if c == '(' {
        let mut acc: Vec<Atom> = Vec::new();
        let mut pos: usize = i + 1;
        assert(atoms_view(acc@) =~= Seq::empty());
        loop
            invariant
                chars@ == source@,
                i < pos <= chars.len(),
                chars@[i as int] == '(',
                parse_list(source@, tokenizer@, pos as int, atoms_view(acc@)) == parse_list(
                    source@,
                    tokenizer@,
                    i + 1,
                    Seq::empty(),
                ),
            decreases chars.len() - pos,
        {
            let j = skip_blank_in(chars, pos);
            if j >= chars.len() {
                return Err(str_to_string("Unexpected end of expression"));
            }
            if chars[j] == ')' {
                return Ok((Atom::expr_vec(acc), j + 1));
            }
            let ghost before = atoms_view(acc@);
            match parse_atom_in(source, chars, tokenizer, j) {
                Err(e) => {
                    return Err(e);
                },
                Ok((a, k)) => {
                    if k <= j {
                        return Err(str_to_string("Unexpected end of expression"));
                    }
                    acc.push(a);
                    assert(atoms_view(acc@) =~= before.push(a@));
                    pos = k;
                },
            }
        }
    } else if c == ')' {
        Err(str_to_string("Unexpected right bracket"))
    } else {
        let end = if c == '"' {
            let e = string_end_in(chars, i + 1);
            e
        } else {
            token_end_in(chars, i)
        };
        let token = source.substring_char(i, end);
        Ok((tokenizer.token_to_atom(token), end))
    }
}

/// A reader of S-expressions over a text: each call of `parse` gives the
/// next atom.
pub struct SExprParser {
    source: String,
    chars: Vec<char>,
    pos: usize,
}

impl SExprParser {
    #[verifier::type_invariant]
    spec fn inv(self) -> bool {
        self.chars@ == self.source@ && self.pos <= self.chars.len()
    }

    /// The text that is read.
    pub closed spec fn text(&self) -> Seq<char> {
        self.source@
    }

    /// The position up to which the text has been read.
    pub closed spec fn position(&self) -> int {
        self.pos as int
    }

    /// A reader at the beginning of the text.
    pub fn new(text: &str) -> (r: Self)
        ensures
            r.text() == text@,
            r.position() == 0,
    {
        let source = str_to_string(text);
        let chars = str_chars(text);
        SExprParser { source, chars, pos: 0 }
    }

    /// Reads the next atom: the atom, or nothing at the end of the text, or
    /// an error where brackets do not balance. After an error the reader
    /// stays where it was.
    pub fn parse(&mut self, tokenizer: &Tokenizer) -> (r: Result<Option<Atom>, String>)
        ensures
            final(self).text() == old(self).text(),
            match parse_next(old(self).text(), tokenizer@, old(self).position()) {
                Err(e) => r matches Err(m) && m@ == e && final(self).position() == old(
                    self,
                ).position(),
                Ok(None) => r matches Ok(None) && final(self).position() == old(self).text().len(),
                Ok(Some((a, k))) => r matches Ok(Some(b)) && b@ == a && final(self).position()
                    == k,
            },
    {
        proof {
            use_type_invariant(&*self);
        }
        let j = skip_blank_in(&self.chars, self.pos);
        if j >= self.chars.len() {
            self.pos = j;
            return Ok(None);
        }
        match parse_atom_in(self.source.as_str(), &self.chars, tokenizer, j) {
            Err(e) => Err(e),
            Ok((a, k)) => {
                self.pos = k;
                Ok(Some(a))
            },
        }
    }
}

/// The view of what parsing a whole text gave.
pub open spec fn program_view(r: Result<Vec<Atom>, String>) -> Result<Seq<AtomView>, Seq<char>> {
    match r {
        Ok(v) => Ok(atoms_view(v@)),
        Err(e) => Err(e@),
    }
}

/// Reads all atoms of a text, in order.
pub fn parse_program(text: &str, tokenizer: &Tokenizer) -> (r: Result<Vec<Atom>, String>)
    ensures
        program_view(r) == parse_all(text@, tokenizer@, 0, Seq::empty()),
{
    let chars = str_chars(text);
    let mut acc: Vec<Atom> = Vec::new();
    let mut pos: usize = 0;
    assert(atoms_view(acc@) =~= Seq::empty());
    loop
        invariant
            chars@ == text@,
            0 <= pos <= chars.len(),
            parse_all(text@, tokenizer@, pos as int, atoms_view(acc@)) == parse_all(
                text@,
                tokenizer@,
                0,
                Seq::empty(),
            ),
        decreases chars.len() - pos,
    {
        let j = skip_blank_in(&chars, pos);
        if j >= chars.len() {
            return Ok(acc);
        }
        let ghost before = atoms_view(acc@);
        match parse_atom_in(text, &chars, tokenizer, j) {
            Err(e) => {
                return Err(e);
            },
            Ok((a, k)) => {
                acc.push(a);
                assert(atoms_view(acc@) =~= before.push(a@));
                pos = k;
            },
        }
    }
}

} // verus!
