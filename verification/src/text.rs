//! Building of texts: concatenation and the rendering of numbers.

use vstd::prelude::*;

verus! {

/// The digit character that stands for `d` in bases up to sixteen, in lower
/// case.
pub open spec fn digit_char(d: nat) -> char {
    if d == 0 {
        '0'
    } else if d == 1 {
        '1'
    } else if d == 2 {
        '2'
    } else if d == 3 {
        '3'
    } else if d == 4 {
        '4'
    } else if d == 5 {
        '5'
    } else if d == 6 {
        '6'
    } else if d == 7 {
        '7'
    } else if d == 8 {
        '8'
    } else if d == 9 {
        '9'
    } else if d == 10 {
        'a'
    } else if d == 11 {
        'b'
    } else if d == 12 {
        'c'
    } else if d == 13 {
        'd'
    } else if d == 14 {
        'e'
    } else {
        'f'
    }
}

/// The digits of `n` in base `base`, most significant first, without leading
/// zeros; zero is the single digit `0`.
pub open spec fn digits(n: nat, base: nat) -> Seq<char>
    recommends
        2 <= base <= 16,
    decreases n,
    via digits_decreases
{
    if n < base || base < 2 {
        seq![digit_char(n)]
    } else {
        digits(n / base, base).push(digit_char(n % base))
    }
}

#[via_fn]
proof fn digits_decreases(n: nat, base: nat) {
    if !(n < base || base < 2) {
        assert(n / base < n) by (nonlinear_arith)
            requires
                2 <= base <= n,
        ;
    }
}

/// The decimal rendering of `n`.
pub open spec fn decimal(n: nat) -> Seq<char> {
    digits(n, 10)
}

/// The lower-case hexadecimal rendering of `n`.
pub open spec fn hexadecimal(n: nat) -> Seq<char> {
    digits(n, 16)
}

/// The one-character text of a digit.
fn digit_str(d: usize) -> (s: &'static str)
    requires
        d < 16,
    ensures
        s@ == seq![digit_char(d as nat)],
{
    proof {
        reveal_strlit("0");
        reveal_strlit("1");
        reveal_strlit("2");
        reveal_strlit("3");
        reveal_strlit("4");
        reveal_strlit("5");
        reveal_strlit("6");
        reveal_strlit("7");
        reveal_strlit("8");
        reveal_strlit("9");
        reveal_strlit("a");
        reveal_strlit("b");
        reveal_strlit("c");
        reveal_strlit("d");
        reveal_strlit("e");
        reveal_strlit("f");
    }
    let s = if d == 0 {
        "0"
    } else if d == 1 {
        "1"
    } else if d == 2 {
        "2"
    } else if d == 3 {
        "3"
    } else if d == 4 {
        "4"
    } else if d == 5 {
        "5"
    } else if d == 6 {
        "6"
    } else if d == 7 {
        "7"
    } else if d == 8 {
        "8"
    } else if d == 9 {
        "9"
    } else if d == 10 {
        "a"
    } else if d == 11 {
        "b"
    } else if d == 12 {
        "c"
    } else if d == 13 {
        "d"
    } else if d == 14 {
        "e"
    } else {
        "f"
    };
    assert(s@ =~= seq![digit_char(d as nat)]);
    s
}

/// Renders `n` in base `base`.
fn render_digits(n: usize, base: usize) -> (s: String)
    requires
        2 <= base <= 16,
    ensures
        s@ == digits(n as nat, base as nat),
    decreases n,
{
    if n < base {
        String::from_str(digit_str(n))
    } else {
        assert(n / base < n) by (nonlinear_arith)
            requires
                2 <= base <= n,
        ;
        let mut s = render_digits(n / base, base);
        s.append(digit_str(n % base));
        s
    }
}

/// Renders `n` in decimal.
pub fn decimal_string(n: usize) -> (s: String)
    ensures
        s@ == decimal(n as nat),
{
    render_digits(n, 10)
}

/// Renders `n` in lower-case hexadecimal.
pub fn hexadecimal_string(n: u16) -> (s: String)
    ensures
        s@ == hexadecimal(n as nat),
{
    render_digits(n as usize, 16)
}

/// Distinct digits have distinct characters.
pub proof fn digit_char_injective(a: nat, b: nat)
    requires
        a < 16,
        b < 16,
        digit_char(a) == digit_char(b),
    ensures
        a == b,
{
}

/// Equal renderings in one base come from equal numbers.
pub proof fn digits_injective(a: nat, b: nat, base: nat)
    requires
        2 <= base <= 16,
        digits(a, base) == digits(b, base),
    ensures
        a == b,
    decreases a,
{
    if a < base {
        if b >= base {
            digits_len(b / base, base);
            assert(digits(b, base).len() >= 2);
        } else {
            assert(digits(a, base)[0] == digit_char(a));
            assert(digits(b, base)[0] == digit_char(b));
            digit_char_injective(a, b);
        }
    } else {
        if b < base {
            digits_len(a / base, base);
            assert(digits(a, base).len() >= 2);
        } else {
            let da = digits(a / base, base);
            let db = digits(b / base, base);
            assert(da =~= digits(a, base).drop_last());
            assert(db =~= digits(b, base).drop_last());
            assert(digits(a, base).last() == digit_char(a % base));
            assert(digits(b, base).last() == digit_char(b % base));
            assert(a / base < a) by (nonlinear_arith)
                requires
                    2 <= base <= a,
            ;
            digits_injective(a / base, b / base, base);
            digit_char_injective(a % base, b % base);
            assert(a == base * (a / base) + a % base) by (nonlinear_arith)
                requires
                    base > 0,
            ;
            assert(b == base * (b / base) + b % base) by (nonlinear_arith)
                requires
                    base > 0,
            ;
        }
    }
}

/// A rendering has at least one digit.
pub proof fn digits_len(n: nat, base: nat)
    ensures
        digits(n, base).len() >= 1,
    decreases n,
{
    if n < base || base < 2 {
    } else {
        assert(n / base < n) by (nonlinear_arith)
            requires
                2 <= base <= n,
        ;
        digits_len(n / base, base);
    }
}

/// The text `a` followed by `b`.
pub fn join2(a: &str, b: &str) -> (s: String)
    ensures
        s@ == a@ + b@,
{
    let mut s = String::from_str(a);
    s.append(b);
    s
}

/// The text `a` followed by `b` and `c`.
pub fn join3(a: &str, b: &str, c: &str) -> (s: String)
    ensures
        s@ == a@ + b@ + c@,
{
    let mut s = String::from_str(a);
    s.append(b);
    s.append(c);
    s
}

/// Whether the text `s` ends with the text `suffix`.
pub open spec fn is_suffix(suffix: Seq<char>, s: Seq<char>) -> bool {
    suffix.len() <= s.len() && s.skip(s.len() - suffix.len()) == suffix
}

/// Whether the text `s` ends with the text `suffix`.
pub fn ends_with(s: &str, suffix: &str) -> (b: bool)
    ensures
        b == is_suffix(suffix@, s@),
{
    let n = s.unicode_len();
    let m = suffix.unicode_len();
    if m > n {
        false
    } else {
        let tail = String::from_str(s.substring_char(n - m, n));
        let wanted = String::from_str(suffix);
        assert(s@.subrange(n - m, n as int) =~= s@.skip(n - m));
        tail == wanted
    }
}

/// What a result that is a text or an error message holds.
pub open spec fn text_view(r: Result<String, String>) -> Result<Seq<char>, Seq<char>> {
    match r {
        Ok(text) => Ok(text@),
        Err(e) => Err(e@),
    }
}

} // verus!
