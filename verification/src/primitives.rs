//! Primitive parsers over a line of characters.
//!
//! Each parser works on a "remaining input" view: it takes the whole line
//! together with the current position, and returns a decoded value plus the
//! new position, or a typed error. Each exec parser is proved equal to a
//! spec-level model (`number_spec`, `separator_spec`, ...), so that the
//! higher-level decoders can be specified purely over sequences.
use vstd::prelude::*;

use crate::ParsedLineError;

verus! {

/// Decimal digit, `'0'` through `'9'`.
pub open spec fn is_digit(c: char) -> bool {
    48 <= c as int && c as int <= 57
}

/// Numeric value of a digit character; 0 for anything else.
pub open spec fn digit_val(c: char) -> nat {
    if is_digit(c) {
        (c as int - 48) as nat
    } else {
        0
    }
}

/// Whitespace as the token scanner understands it.
pub open spec fn is_wspace(c: char) -> bool {
    c == ' ' || c == '\t' || c == '\n' || c == '\r'
}

/// Value of a digit sequence read most-significant-first.
pub open spec fn digits_val(s: Seq<char>) -> nat
    decreases s.len(),
{
    if s.len() == 0 {
        0
    } else {
        digits_val(s.drop_last()) * 10 + digit_val(s.last())
    }
}

/// End of the maximal run of characters satisfying `p`, starting at `i`.
pub open spec fn run_end(s: Seq<char>, i: int, p: spec_fn(char) -> bool) -> int
    decreases s.len() - i,
{
    if i < s.len() && p(s[i]) {
        run_end(s, i + 1, p)
    } else {
        i
    }
}

/// End of the maximal leading run of decimal digits.
pub open spec fn digit_run_end(s: Seq<char>, i: int) -> int {
    run_end(s, i, |c: char| is_digit(c))
}

/// End of the maximal leading run of non-whitespace characters.
pub open spec fn token_end(s: Seq<char>, i: int) -> int {
    run_end(s, i, |c: char| !is_wspace(c))
}

/// End of the maximal leading run of characters other than `c`.
pub open spec fn until_end(s: Seq<char>, i: int, c: char) -> int {
    run_end(s, i, |x: char| x != c)
}

/// What `parse_number` returns: the value of the maximal leading digit run,
/// provided the run is non-empty and the value fits in `max`.
pub open spec fn number_spec(s: Seq<char>, i: int, max: nat) -> Result<(nat, int), ParsedLineError> {
    let j = digit_run_end(s, i);
    if j == i {
        Err(ParsedLineError::BadNumber)
    } else if digits_val(s.subrange(i, j)) > max {
        Err(ParsedLineError::BadNumber)
    } else {
        Ok((digits_val(s.subrange(i, j)), j))
    }
}

/// What `pop_separator` returns: one past `i` when exactly one `sep` stands
/// at position `i` (that is, the following character, if any, differs).
pub open spec fn separator_spec(s: Seq<char>, i: int, sep: char) -> Result<int, ParsedLineError> {
    if i < s.len() && s[i] == sep && (i + 1 == s.len() || s[i + 1] != sep) {
        Ok(i + 1)
    } else {
        Err(ParsedLineError::BadSeparator)
    }
}

/// The run end lies between `i` and the end of the line, every character of
/// the run satisfies `p`, and the character after the run (if any) does not.
pub proof fn lemma_run_end(s: Seq<char>, i: int, p: spec_fn(char) -> bool)
    requires
        0 <= i <= s.len(),
    ensures
        i <= run_end(s, i, p) <= s.len(),
        forall|m: int| i <= m < run_end(s, i, p) ==> p(s[m]),
        run_end(s, i, p) < s.len() ==> !p(s[run_end(s, i, p)]),
    decreases s.len() - i,
{
    if i < s.len() && p(s[i]) {
        lemma_run_end(s, i + 1, p);
    }
}

/// The run end is the unique position `j` such that everything before it
/// satisfies `p` and the character at it (if any) does not.
pub proof fn lemma_run_end_unique(s: Seq<char>, i: int, j: int, p: spec_fn(char) -> bool)
    requires
        0 <= i <= j <= s.len(),
        forall|m: int| i <= m < j ==> p(s[m]),
        j < s.len() ==> !p(s[j]),
    ensures
        run_end(s, i, p) == j,
    decreases j - i,
{
    if i < j {
        assert(p(s[i]));
        lemma_run_end_unique(s, i + 1, j, p);
    }
}

/// Appending one character multiplies the value by ten and adds the digit.
pub proof fn lemma_digits_val_push(s: Seq<char>, c: char)
    ensures
        digits_val(s.push(c)) == digits_val(s) * 10 + digit_val(c),
{
    assert(s.push(c).drop_last() =~= s);
    assert(s.push(c).last() == c);
}

fn is_digit_char(c: char) -> (r: bool)
    ensures
        r == is_digit(c),
{
    let u = c as u32;
    48 <= u && u <= 57
}

fn is_wspace_char(c: char) -> (r: bool)
    ensures
        r == is_wspace(c),
{
    c == ' ' || c == '\t' || c == '\n' || c == '\r'
}

/// Consumes the maximal leading run of decimal digits and returns its value,
/// or `BadNumber` when the run is empty or the value overflows `u64`.
pub fn parse_number(s: &Vec<char>, i: usize) -> (r: Result<(u64, usize), ParsedLineError>)
    requires
        i <= s@.len(),
    ensures
        match r {
            Ok(p) => {
                &&& number_spec(s@, i as int, u64::MAX as nat) == Ok::<(nat, int), ParsedLineError>(
                    (p.0 as nat, p.1 as int),
                )
                &&& i <= p.1 <= s@.len()
            },
            Err(e) => number_spec(s@, i as int, u64::MAX as nat) == Err::<
                (nat, int),
                ParsedLineError,
            >(e),
        },
{
    let mut j: usize = i;
    let mut acc: u64 = 0;
    let mut over: bool = false;
    proof {
        lemma_run_end(s@, i as int, |c: char| is_digit(c));
    }
    while j < s.len() && is_digit_char(s[j])
        invariant
            i <= j <= s@.len(),
            digit_run_end(s@, i as int) == digit_run_end(s@, j as int),
            !over ==> acc as nat == digits_val(s@.subrange(i as int, j as int)),
            over ==> digits_val(s@.subrange(i as int, j as int)) > u64::MAX,
        decreases s@.len() - j,
    {
        let d: u64 = (s[j] as u32 - 48) as u64;
        let ghost prefix = s@.subrange(i as int, j as int);
        proof {
            assert(is_digit(s@[j as int]));
            assert(d as nat == digit_val(s@[j as int]));
            assert(s@.subrange(i as int, j + 1 as int) =~= prefix.push(s@[j as int]));
            lemma_digits_val_push(prefix, s@[j as int]);
        }
        if !over {
            if acc > u64::MAX / 10 || (acc == u64::MAX / 10 && d > u64::MAX % 10) {
                over = true;
                proof {
                    assert(digits_val(prefix) * 10 + digit_val(s@[j as int]) > u64::MAX);
                }
            } else {
                proof {
                    assert(acc * 10 + d <= u64::MAX);
                }
                acc = acc * 10 + d;
            }
        } else {
            proof {
                assert(digits_val(prefix) * 10 >= digits_val(prefix));
            }
        }
        j += 1;
    }
    proof {
        assert(run_end(s@, j as int, |c: char| is_digit(c)) == j as int);
        assert(digit_run_end(s@, i as int) == j as int);
    }
    if j == i {
        Err(ParsedLineError::BadNumber)
    } else if over {
        Err(ParsedLineError::BadNumber)
    } else {
        Ok((acc, j))
    }
}

/// `parse_number` restricted to values that fit in `i32`.
pub fn parse_number_i32(s: &Vec<char>, i: usize) -> (r: Result<(i32, usize), ParsedLineError>)
    requires
        i <= s@.len(),
    ensures
        match r {
            Ok(p) => {
                &&& number_spec(s@, i as int, i32::MAX as nat) == Ok::<(nat, int), ParsedLineError>(
                    (p.0 as nat, p.1 as int),
                )
                &&& 0 <= p.0
                &&& i <= p.1 <= s@.len()
            },
            Err(e) => number_spec(s@, i as int, i32::MAX as nat) == Err::<
                (nat, int),
                ParsedLineError,
            >(e),
        },
{
    match parse_number(s, i) {
        Ok((v, j)) => {
            if v > i32::MAX as u64 {
                Err(ParsedLineError::BadNumber)
            } else {
                Ok((v as i32, j))
            }
        },
        Err(e) => Err(e),
    }
}

/// `parse_number` restricted to values that fit in `usize`.
pub fn parse_number_usize(s: &Vec<char>, i: usize) -> (r: Result<(usize, usize), ParsedLineError>)
    requires
        i <= s@.len(),
    ensures
        match r {
            Ok(p) => {
                &&& number_spec(s@, i as int, usize::MAX as nat) == Ok::<
                    (nat, int),
                    ParsedLineError,
                >((p.0 as nat, p.1 as int))
                &&& i <= p.1 <= s@.len()
            },
            Err(e) => number_spec(s@, i as int, usize::MAX as nat) == Err::<
                (nat, int),
                ParsedLineError,
            >(e),
        },
{
    match parse_number(s, i) {
        Ok((v, j)) => {
            if v > usize::MAX as u64 {
                Err(ParsedLineError::BadNumber)
            } else {
                Ok((v as usize, j))
            }
        },
        Err(e) => Err(e),
    }
}

/// Requires exactly one occurrence of `separator` at the current position
/// and consumes it; fails with `BadSeparator` otherwise.
pub fn pop_separator(s: &Vec<char>, i: usize, separator: char) -> (r: Result<
    usize,
    ParsedLineError,
>)
    requires
        i <= s@.len(),
    ensures
        match r {
            Ok(j) => separator_spec(s@, i as int, separator) == Ok::<int, ParsedLineError>(
                j as int,
            ) && i < j <= s@.len(),
            Err(e) => separator_spec(s@, i as int, separator) == Err::<int, ParsedLineError>(e),
        },
{
    if i < s.len() && s[i] == separator && (i + 1 == s.len() || s[i + 1] != separator) {
        Ok(i + 1)
    } else {
        Err(ParsedLineError::BadSeparator)
    }
}

/// Consumes the maximal leading run of non-whitespace characters; never
/// fails, and may consume nothing.
pub fn take_until_whitespace(s: &Vec<char>, i: usize) -> (j: usize)
    requires
        i <= s@.len(),
    ensures
        j as int == token_end(s@, i as int),
        i <= j <= s@.len(),
{
    let mut j: usize = i;
    while j < s.len() && !is_wspace_char(s[j])
        invariant
            i <= j <= s@.len(),
            token_end(s@, i as int) == token_end(s@, j as int),
        decreases s@.len() - j,
    {
        j += 1;
    }
    proof {
        assert(run_end(s@, j as int, |c: char| !is_wspace(c)) == j as int);
    }
    j
}

/// Consumes the maximal leading run of characters other than `character`;
/// never fails, and may consume nothing.
pub fn take_until(s: &Vec<char>, i: usize, character: char) -> (j: usize)
    requires
        i <= s@.len(),
    ensures
        j as int == until_end(s@, i as int, character),
        i <= j <= s@.len(),
{
    let mut j: usize = i;
    while j < s.len() && s[j] != character
        invariant
            i <= j <= s@.len(),
            until_end(s@, i as int, character) == until_end(s@, j as int, character),
        decreases s@.len() - j,
    {
        j += 1;
    }
    proof {
        assert(run_end(s@, j as int, |x: char| x != character) == j as int);
    }
    j
}

/// Consumes exactly `n` characters; fails with `NotEnoughCharacters` when
/// fewer than `n` remain.
pub fn take_n_characters(s: &Vec<char>, i: usize, n: usize) -> (r: Result<usize, ParsedLineError>)
    requires
        i <= s@.len(),
    ensures
        match r {
            Ok(j) => s@.len() - i >= n && j == i + n,
            Err(e) => e == ParsedLineError::NotEnoughCharacters && s@.len() - i < n,
        },
{
    if s.len() - i < n {
        Err(ParsedLineError::NotEnoughCharacters)
    } else {
        Ok(i + n)
    }
}

/// Copies the characters of `s` between positions `i` and `j`.
pub fn copy_range(s: &Vec<char>, i: usize, j: usize) -> (r: Vec<char>)
    requires
        i <= j <= s@.len(),
    ensures
        r@ == s@.subrange(i as int, j as int),
{
    let mut out: Vec<char> = Vec::new();
    let mut k: usize = i;
    while k < j
        invariant
            i <= k <= j <= s@.len(),
            out@ == s@.subrange(i as int, k as int),
        decreases j - k,
    {
        out.push(s[k]);
        k += 1;
        proof {
            assert(s@.subrange(i as int, k as int) =~= s@.subrange(i as int, k - 1).push(
                s@[k - 1],
            ));
        }
    }
    out
}

/// The decimal digit characters, least position last.
pub open spec fn digit_char_sp(d: nat) -> char {
    if d == 0 {
        '0'
    } else if d == 1 {
        '1'
    } else if d == 2 {
        '2'
    } else if d == 3 {
        '3'
    } else if d == 4 {
        '4'
    } else if d == 5 {
        '5'
    } else if d == 6 {
        '6'
    } else if d == 7 {
        '7'
    } else if d == 8 {
        '8'
    } else {
        '9'
    }
}

/// Decimal rendering of a natural number, most significant digit first.
pub open spec fn dec_digits(n: nat) -> Seq<char>
    decreases n,
{
    if n < 10 {
        seq![digit_char_sp(n)]
    } else {
        dec_digits(n / 10).push(digit_char_sp(n % 10))
    }
}

/// Decimal rendering of an integer, with a leading minus when negative.
pub open spec fn dec_int(n: int) -> Seq<char> {
    if n < 0 {
        seq!['-'] + dec_digits((-n) as nat)
    } else {
        dec_digits(n as nat)
    }
}

/// A decimal rendering is non-empty, consists of digits, and reads back to
/// the number it renders.
pub proof fn lemma_dec_digits(n: nat)
    ensures
        dec_digits(n).len() >= 1,
        forall|m: int| 0 <= m < dec_digits(n).len() ==> is_digit(#[trigger] dec_digits(n)[m]),
        digits_val(dec_digits(n)) == n,
    decreases n,
{
    if n < 10 {
        assert(is_digit(digit_char_sp(n)));
        assert(digit_val(digit_char_sp(n)) == n);
        let s1 = seq![digit_char_sp(n)];
        assert(dec_digits(n) == s1);
        assert(s1.last() == digit_char_sp(n));
        assert(s1.drop_last() =~= Seq::<char>::empty());
        assert(digits_val(Seq::<char>::empty()) == 0);
        assert(digits_val(s1) == digits_val(s1.drop_last()) * 10 + digit_val(s1.last()));
    } else {
        lemma_dec_digits(n / 10);
        assert(is_digit(digit_char_sp(n % 10)));
        assert(digit_val(digit_char_sp(n % 10)) == n % 10);
        lemma_digits_val_push(dec_digits(n / 10), digit_char_sp(n % 10));
        vstd::arithmetic::div_mod::lemma_fundamental_div_mod(n as int, 10);
    }
}

/// Appends the characters of `s` to `out`.
pub fn push_chars(out: &mut Vec<char>, s: &Vec<char>)
    ensures
        final(out)@ == old(out)@ + s@,
{
    let mut k: usize = 0;
    while k < s.len()
        invariant
            k <= s@.len(),
            out@ == old(out)@ + s@.subrange(0, k as int),
        decreases s@.len() - k,
    {
        out.push(s[k]);
        k += 1;
        proof {
            assert(s@.subrange(0, k as int) =~= s@.subrange(0, k - 1).push(s@[k - 1]));
            assert(old(out)@ + s@.subrange(0, k - 1) + seq![s@[k - 1]] =~= old(out)@ + s@.subrange(
                0,
                k as int,
            ));
        }
    }
    proof {
        assert(s@.subrange(0, s@.len() as int) =~= s@);
    }
}

pub fn digit_char(d: u64) -> (r: char)
    requires
        d < 10,
    ensures
        r == digit_char_sp(d as nat),
{
    if d == 0 {
        '0'
    } else if d == 1 {
        '1'
    } else if d == 2 {
        '2'
    } else if d == 3 {
        '3'
    } else if d == 4 {
        '4'
    } else if d == 5 {
        '5'
    } else if d == 6 {
        '6'
    } else if d == 7 {
        '7'
    } else if d == 8 {
        '8'
    } else {
        '9'
    }
}

/// Appends the decimal rendering of `n` to `out`.
pub fn push_dec(out: &mut Vec<char>, n: u64)
    ensures
        final(out)@ == old(out)@ + dec_digits(n as nat),
    decreases n,
{
    if n < 10 {
        out.push(digit_char(n));
        proof {
            assert(old(out)@ + dec_digits(n as nat) =~= old(out)@.push(digit_char_sp(n as nat)));
        }
    } else {
        push_dec(out, n / 10);
        out.push(digit_char(n % 10));
        proof {
            assert(old(out)@ + dec_digits((n / 10) as nat) + seq![digit_char_sp((n % 10) as nat)]
                =~= old(out)@ + dec_digits(n as nat));
        }
    }
}

/// Appends the decimal rendering of `n` to `out`.
pub fn push_i32(out: &mut Vec<char>, n: i32)
    ensures
        final(out)@ == old(out)@ + dec_int(n as int),
{
    let wide: i64 = n as i64;
    if wide < 0 {
        out.push('-');
        push_dec(out, (-wide) as u64);
        proof {
            assert(old(out)@.push('-') + dec_digits((-wide) as nat) =~= old(out)@ + dec_int(
                n as int,
            ));
        }
    } else {
        push_dec(out, wide as u64);
    }
}


} // verus!
