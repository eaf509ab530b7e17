//! Text helpers: characters of a string, decimal and hexadecimal numerals,
//! and the lexicographic order on names.

use vstd::prelude::*;

verus! {

/// The characters of a string, in order.
pub fn str_chars(s: &str) -> (r: Vec<char>)
    ensures
        r@ == s@,
{
    let mut v: Vec<char> = Vec::new();
    for c in it: s.chars()
        invariant
            it.seq() == s@,
            v@ == it.seq().take(it.index() as int),
    {
        v.push(c);
        assert(v@ =~= it.seq().take(it.index() + 1));
    }
    assert(v@ =~= s@);
    v
}


/// The text of a string slice as an owned string.
pub fn str_to_string(s: &str) -> (r: String)
    ensures
        r@ == s@,
{
    String::from_str(s)
}

/// Whether two string slices hold the same text.
pub fn str_eq(a: &str, b: &str) -> (r: bool)
    ensures
        r == (a@ == b@),
{
    let x = String::from_str(a);
    let y = String::from_str(b);
    x == y
}

/// The numeral character of a digit below 16, in lower case.
pub open spec fn digit_char(d: int) -> char {
    if d == 0 {
        '0'
    } else if d == 1 {
        '1'
    } else if d == 2 {
        '2'
    } else if d == 3 {
        '3'
    } else if d == 4 {
        '4'
    } else if d == 5 {
        '5'
    } else if d == 6 {
        '6'
    } else if d == 7 {
        '7'
    } else if d == 8 {
        '8'
    } else if d == 9 {
        '9'
    } else if d == 10 {
        'a'
    } else if d == 11 {
        'b'
    } else if d == 12 {
        'c'
    } else if d == 13 {
        'd'
    } else if d == 14 {
        'e'
    } else {
        'f'
    }
}

/// The one-character text of a digit below 16.
pub fn digit_str(d: u64) -> (r: &'static str)
    requires
        d < 16,
    ensures
        r@ == seq![digit_char(d as int)],
{
    proof {
        reveal_strlit("0");
        reveal_strlit("1");
        reveal_strlit("2");
        reveal_strlit("3");
        reveal_strlit("4");
        reveal_strlit("5");
        reveal_strlit("6");
        reveal_strlit("7");
        reveal_strlit("8");
        reveal_strlit("9");
        reveal_strlit("a");
        reveal_strlit("b");
        reveal_strlit("c");
        reveal_strlit("d");
        reveal_strlit("e");
        reveal_strlit("f");
    }
    let r = if d == 0 {
        "0"
    } else if d == 1 {
        "1"
    } else if d == 2 {
        "2"
    } else if d == 3 {
        "3"
    } else if d == 4 {
        "4"
    } else if d == 5 {
        "5"
    } else if d == 6 {
        "6"
    } else if d == 7 {
        "7"
    } else if d == 8 {
        "8"
    } else if d == 9 {
        "9"
    } else if d == 10 {
        "a"
    } else if d == 11 {
        "b"
    } else if d == 12 {
        "c"
    } else if d == 13 {
        "d"
    } else if d == 14 {
        "e"
    } else {
        "f"
    };
    assert(r@ =~= seq![digit_char(d as int)]);
    r
}

/// The numeral of `n` in the given base, without leading zeros.
pub open spec fn numeral(n: nat, base: nat) -> Seq<char>
    recommends
        2 <= base <= 16,
    decreases n,
{
    if n < base || base < 2 {
        seq![digit_char(n as int)]
    } else {
        proof {
            assert(n / base < n) by (nonlinear_arith)
                requires
                    n >= base,
                    base >= 2,
            ;
        }
        numeral(n / base, base).push(digit_char((n % base) as int))
    }
}

/// The numeral of `n` in the given base, padded with zeros to `width` digits;
/// digits above that width are dropped.
pub open spec fn numeral_fixed(n: nat, base: nat, width: nat) -> Seq<char>
    decreases width,
{
    if width == 0 || base < 2 {
        Seq::empty()
    } else {
        numeral_fixed(n / base, base, (width - 1) as nat).push(digit_char((n % base) as int))
    }
}

/// The decimal text of a signed integer.
pub open spec fn decimal(n: int) -> Seq<char> {
    if n < 0 {
        seq!['-'] + numeral((-n) as nat, 10)
    } else {
        numeral(n as nat, 10)
    }
}

/// Writes `n` in the given base without leading zeros.
pub fn u64_to_numeral(n: u64, base: u64) -> (r: String)
    requires
        2 <= base <= 16,
    ensures
        r@ == numeral(n as nat, base as nat),
    decreases n,
{
    if n < base {
        String::from_str(digit_str(n))
    } else {
        assert(n / base < n) by (nonlinear_arith)
            requires
                n >= base,
                base >= 2,
        ;
        let mut s = u64_to_numeral(n / base, base);
        s.append(digit_str(n % base));
        s
    }
}

/// Writes `n` in the given base with exactly `width` digits.
pub fn u64_to_numeral_fixed(n: u64, base: u64, width: usize) -> (r: String)
    requires
        2 <= base <= 16,
    ensures
        r@ == numeral_fixed(n as nat, base as nat, width as nat),
    decreases width,
{
    if width == 0 {
        String::new()
    } else {
        let mut s = u64_to_numeral_fixed(n / base, base, width - 1);
        s.append(digit_str(n % base));
        s
    }
}

/// Writes a signed integer in decimal.
pub fn i64_to_decimal(n: i64) -> (r: String)
    ensures
        r@ == decimal(n as int),
{
    if n >= 0 {
        u64_to_numeral(n as u64, 10)
    } else {
        let m: u64 = if n == i64::MIN {
            9223372036854775808u64
        } else {
            (-n) as u64
        };
        proof {
            reveal_strlit("-");
        }
        let mut s = String::from_str("-");
        let t = u64_to_numeral(m, 10);
        s.append(t.as_str());
        assert(s@ =~= seq!['-'] + numeral((-n) as nat, 10));
        s
    }
}

/// The value of a numeral character in the given base, where it has one.
/// Letters count in either case.
pub open spec fn digit_value(c: char, base: nat) -> Option<nat> {
    let v: int = if '0' <= c <= '9' {
        c as int - '0' as int
    } else if 'a' <= c <= 'f' {
        c as int - 'a' as int + 10
    } else if 'A' <= c <= 'F' {
        c as int - 'A' as int + 10
    } else {
        16
    };
    if v < base {
        Some(v as nat)
    } else {
        None
    }
}

/// Whether every character of `s` is a digit of the given base.
pub open spec fn is_numeral(s: Seq<char>, base: nat) -> bool {
    forall|i: int| 0 <= i < s.len() ==> (#[trigger] digit_value(s[i], base)) is Some
}

/// The number that a sequence of digits of the given base denotes.
pub open spec fn numeral_value(s: Seq<char>, base: nat) -> nat
    decreases s.len(),
{
    if s.len() == 0 {
        0
    } else {
        numeral_value(s.drop_last(), base) * base + match digit_value(s.last(), base) {
            Some(d) => d,
            None => 0,
        }
    }
}

/// What parsing a sequence of characters as an unsigned 64-bit numeral gives:
/// the number, where the text is a non-empty run of digits that fits.
pub open spec fn parse_numeral(s: Seq<char>, base: nat) -> Option<u64> {
    if s.len() > 0 && is_numeral(s, base) && numeral_value(s, base) <= u64::MAX {
        Some(numeral_value(s, base) as u64)
    } else {
        None
    }
}

/// A longer run of digits denotes at least as much as its prefix.
proof fn lemma_numeral_value_monotonic(s: Seq<char>, k: int, base: nat)
    requires
        0 <= k <= s.len(),
        base >= 2,
    ensures
        numeral_value(s.take(k), base) <= numeral_value(s, base),
    decreases s.len(),
{
    if k < s.len() {
        lemma_numeral_value_monotonic(s.drop_last(), k, base);
        assert(s.drop_last().take(k) =~= s.take(k));
        let p = numeral_value(s.drop_last(), base);
        assert(p * base >= p) by (nonlinear_arith)
            requires
                base >= 2,
                p >= 0,
        ;
    } else {
        assert(s.take(k) =~= s);
    }
}

/// The value of one numeral character in the given base.
pub fn char_digit(c: char, base: u64) -> (r: Option<u64>)
    requires
        2 <= base <= 16,
    ensures
        r matches Some(d) ==> digit_value(c, base as nat) == Some(d as nat),
        r is None ==> digit_value(c, base as nat) is None,
{
    let v: u64 = if '0' <= c && c <= '9' {
        (c as u64) - ('0' as u64)
    } else if 'a' <= c && c <= 'f' {
        (c as u64) - ('a' as u64) + 10
    } else if 'A' <= c && c <= 'F' {
        (c as u64) - ('A' as u64) + 10
    } else {
        16
    };
    if v < base {
        Some(v)
    } else {
        None
    }
}

/// Whether every character is a digit of the given base.
pub fn chars_are_numeral(s: &Vec<char>, base: u64) -> (r: bool)
    requires
        2 <= base <= 16,
    ensures
        r == is_numeral(s@, base as nat),
{
    let mut i: usize = 0;
    while i < s.len()
        invariant
            0 <= i <= s.len(),
            2 <= base <= 16,
            forall|j: int| 0 <= j < i ==> (#[trigger] digit_value(s@[j], base as nat)) is Some,
        decreases s.len() - i,
    {
        if char_digit(s[i], base).is_none() {
            return false;
        }
        i += 1;
    }
    true
}

/// Reads a non-empty run of digits of the given base as a number that fits
/// in 64 bits.
pub fn chars_to_u64(s: &Vec<char>, base: u64) -> (r: Option<u64>)
    requires
        2 <= base <= 16,
    ensures
        r == parse_numeral(s@, base as nat),
{
    if s.len() == 0 {
        return None;
    }
    let mut acc: u64 = 0;
    let mut i: usize = 0;
    while i < s.len()
        invariant
            0 <= i <= s.len(),
            2 <= base <= 16,
            is_numeral(s@.take(i as int), base as nat),
            acc == numeral_value(s@.take(i as int), base as nat),
        decreases s.len() - i,
    {
        let ghost prefix = s@.take(i as int);
        let ghost next = s@.take(i + 1);
        assert(next.drop_last() =~= prefix);
        assert(next.last() == s@[i as int]);
        match char_digit(s[i], base) {
            None => {
                assert(!is_numeral(s@, base as nat));
                return None;
            },
            Some(d) => {
                proof {
                    lemma_numeral_value_monotonic(s@, i + 1, base as nat);
                }
                if acc > (u64::MAX - d) / base {
                    assert(acc * base + d > u64::MAX) by (nonlinear_arith)
                        requires
                            acc > (u64::MAX - d) / (base as int),
                            base >= 2,
                            d <= u64::MAX,
                    ;
                    return None;
                }
                assert(acc * base + d <= u64::MAX) by (nonlinear_arith)
                    requires
                        acc <= (u64::MAX - d) / (base as int),
                        base >= 2,
                        0 <= d <= u64::MAX,
                        0 <= acc,
                ;
                acc = acc * base + d;
                assert forall|j: int| 0 <= j < next.len() implies (#[trigger] digit_value(
                    next[j],
                    base as nat,
                )) is Some by {
                    if j < i {
                        assert(next[j] == prefix[j]);
                    }
                }
            },
        }
        i += 1;
    }
    assert(s@.take(s.len() as int) =~= s@);
    Some(acc)
}

/// The lexicographic order on sequences of characters, strict.
pub open spec fn seq_lt(a: Seq<char>, b: Seq<char>) -> bool
    decreases a.len(),
{
    if b.len() == 0 {
        false
    } else if a.len() == 0 {
        true
    } else if a[0] != b[0] {
        a[0] < b[0]
    } else {
        seq_lt(a.drop_first(), b.drop_first())
    }
}

/// Of two different sequences exactly one is below the other.
pub proof fn lemma_seq_lt_total(a: Seq<char>, b: Seq<char>)
    ensures
        a == b ==> !seq_lt(a, b) && !seq_lt(b, a),
        a != b ==> (seq_lt(a, b) <==> !seq_lt(b, a)),
    decreases a.len(),
{
    if a.len() == 0 || b.len() == 0 {
        if a.len() == 0 && b.len() == 0 {
            assert(a =~= b);
        }
    } else if a[0] != b[0] {
    } else {
        lemma_seq_lt_total(a.drop_first(), b.drop_first());
        if a.drop_first() == b.drop_first() {
            assert(a =~= seq![a[0]] + a.drop_first());
            assert(b =~= seq![b[0]] + b.drop_first());
        }
    }
}

/// Whether `a` comes strictly before `b` in lexicographic order.
pub fn chars_lt(a: &Vec<char>, b: &Vec<char>) -> (r: bool)
    ensures
        r == seq_lt(a@, b@),
{
    let mut i: usize = 0;
    assert(a@.skip(0) =~= a@ && b@.skip(0) =~= b@);
    while i < a.len() && i < b.len()
        invariant
            0 <= i <= a.len(),
            i <= b.len(),
            seq_lt(a@, b@) == seq_lt(a@.skip(i as int), b@.skip(i as int)),
        decreases a.len() - i,
    {
        let ghost x = a@.skip(i as int);
        let ghost y = b@.skip(i as int);
        assert(x[0] == a@[i as int] && y[0] == b@[i as int]);
        assert(x.drop_first() =~= a@.skip(i + 1));
        assert(y.drop_first() =~= b@.skip(i + 1));
        if a[i] != b[i] {
            return a[i] < b[i];
        }
        i += 1;
    }
    assert(a@.skip(i as int).len() == a.len() - i);
    assert(b@.skip(i as int).len() == b.len() - i);
    i < b.len()
}

/// Whether the text `a` comes strictly before the text `b`.
pub fn str_lt(a: &str, b: &str) -> (r: bool)
    ensures
        r == seq_lt(a@, b@),
{
    let x = str_chars(a);
    let y = str_chars(b);
    chars_lt(&x, &y)
}


/// The numeral character of a digit is read back as the digit.
pub proof fn lemma_digit_roundtrip(d: nat, base: nat)
    requires
        d < base <= 16,
    ensures
        digit_value(digit_char(d as int), base) == Some(d),
{
}

/// Reading inverts writing: the numeral of a number denotes the number,
/// and is made of digits only.
pub proof fn law_numeral_roundtrip(n: nat, base: nat)
    requires
        2 <= base <= 16,
    ensures
        is_numeral(numeral(n, base), base),
        numeral(n, base).len() > 0,
        numeral_value(numeral(n, base), base) == n,
    decreases n,
{
    let s = numeral(n, base);
    if n < base {
        lemma_digit_roundtrip(n, base);
        assert(s.drop_last() =~= Seq::<char>::empty());
        assert(numeral_value(s.drop_last(), base) == 0);
        assert(0 * base == 0) by (nonlinear_arith);
    } else {
        assert(n / base < n) by (nonlinear_arith)
            requires
                n >= base,
                base >= 2,
        ;
        let rest = numeral(n / base, base);
        law_numeral_roundtrip(n / base, base);
        lemma_digit_roundtrip(n % base, base);
        assert(s == rest.push(digit_char((n % base) as int)));
        assert(s.drop_last() =~= rest);
        assert(s.last() == digit_char((n % base) as int));
        assert forall|i: int| 0 <= i < s.len() implies (#[trigger] digit_value(s[i], base)) is Some by {
            if i < rest.len() {
                assert(s[i] == rest[i]);
            }
        }
        assert((n / base) * base + n % base == n) by (nonlinear_arith)
            requires
                base >= 2,
        ;
    }
}

/// Reading inverts writing at a fixed width: the numeral of `width` digits
/// denotes the number modulo the base to the power of the width, which is
/// the number itself where it has no more digits than that.
pub proof fn law_numeral_fixed_roundtrip(n: nat, base: nat, width: nat)
    requires
        2 <= base <= 16,
    ensures
        is_numeral(numeral_fixed(n, base, width), base),
        numeral_fixed(n, base, width).len() == width,
        numeral_value(numeral_fixed(n, base, width), base) == n % vstd::arithmetic::power::pow(
            base as int,
            width,
        ) as nat,
    decreases width,
{
    let s = numeral_fixed(n, base, width);
    let p = vstd::arithmetic::power::pow(base as int, width);
    vstd::arithmetic::power::lemma_pow_positive(base as int, width);
    if width == 0 {
        vstd::arithmetic::power::lemma_pow0(base as int);
        assert(n % 1 == 0);
    } else {
        let rest = numeral_fixed(n / base, base, (width - 1) as nat);
        let q = vstd::arithmetic::power::pow(base as int, (width - 1) as nat);
        vstd::arithmetic::power::lemma_pow_positive(base as int, (width - 1) as nat);
        law_numeral_fixed_roundtrip(n / base, base, (width - 1) as nat);
        lemma_digit_roundtrip(n % base, base);
        assert(s == rest.push(digit_char((n % base) as int)));
        assert(s.drop_last() =~= rest);
        assert(s.last() == digit_char((n % base) as int));
        assert forall|i: int| 0 <= i < s.len() implies (#[trigger] digit_value(s[i], base)) is Some by {
            if i < rest.len() {
                assert(s[i] == rest[i]);
            }
        }
        vstd::arithmetic::power::lemma_pow1(base as int);
        vstd::arithmetic::power::lemma_pow_adds(base as int, 1, (width - 1) as nat);
        assert(p == base * q);
        // n % (base * q) == base * ((n / base) % q) + n % base
        vstd::arithmetic::div_mod::lemma_breakdown(n as int, base as int, q);
        assert(n as int % (base as int * q) == base as int * ((n as int / base as int) % q) + n as int
            % base as int);
        assert(((n / base) as int % q) * base + (n % base) as int == n as int % p) by (nonlinear_arith)
            requires
                n as int % (base as int * q) == base as int * ((n as int / base as int) % q) + n as int
                    % base as int,
                p == base * q,
        ;
    }
}

} // verus!
