//! Text primitives: decimal rendering of integers, JSON string escaping,
//! and their exact parsers.  Renderers are specified by spec functions over
//! `Seq<char>`; each parser is specified against the same spec functions, and
//! round-trip lemmas tie the two together.

use vstd::prelude::*;

verus! {

/// Appends one character to a string.
///
/// Relies on `String::push`: it appends exactly the given character.
#[verifier::external_body]
pub fn push_char(s: &mut String, c: char)
    ensures
        final(s)@ == old(s)@.push(c),
{
    s.push(c);
}

/// Character-for-character string equality, decided without trusting
/// any outside comparison.
pub fn str_eq(a: &str, b: &str) -> (r: bool)
    ensures
        r == (a@ == b@),
{
    let n = a.unicode_len();
    if n != b.unicode_len() {
        return false;
    }
    let mut i: usize = 0;
    while i < n
        invariant
            0 <= i <= n,
            n == a@.len() && n == b@.len(),
            forall|j: int| 0 <= j < i ==> a@[j] == b@[j],
        decreases n - i,
    {
        if a.get_char(i) != b.get_char(i) {
            return false;
        }
        i += 1;
    }
    proof {
        assert(a@ =~= b@);
    }
    true
}

/// The decimal digit character for a value below ten.
pub open spec fn digit_char(d: int) -> char {
    if d == 0 {
        '0'
    } else if d == 1 {
        '1'
    } else if d == 2 {
        '2'
    } else if d == 3 {
        '3'
    } else if d == 4 {
        '4'
    } else if d == 5 {
        '5'
    } else if d == 6 {
        '6'
    } else if d == 7 {
        '7'
    } else if d == 8 {
        '8'
    } else {
        '9'
    }
}

/// Whether `c` is a decimal digit character.
pub open spec fn is_digit(c: char) -> bool {
    c == '0' || c == '1' || c == '2' || c == '3' || c == '4' || c == '5' || c == '6' || c == '7'
        || c == '8' || c == '9'
}

/// The value of a decimal digit character.
pub open spec fn digit_val(c: char) -> int {
    if c == '0' {
        0
    } else if c == '1' {
        1
    } else if c == '2' {
        2
    } else if c == '3' {
        3
    } else if c == '4' {
        4
    } else if c == '5' {
        5
    } else if c == '6' {
        6
    } else if c == '7' {
        7
    } else if c == '8' {
        8
    } else {
        9
    }
}

/// The decimal digits of `n`, most significant first, no leading zeros
/// (a single `'0'` for zero).
pub open spec fn dec_digits(n: nat) -> Seq<char>
    decreases n,
{
    if n < 10 {
        seq![digit_char(n as int)]
    } else {
        dec_digits(n / 10) + seq![digit_char((n % 10) as int)]
    }
}

/// The decimal rendering of an `i32`: a minus sign for negative values,
/// then the digits of the magnitude.
pub open spec fn render_i32(x: int) -> Seq<char> {
    if x < 0 {
        seq!['-'] + dec_digits((-x) as nat)
    } else {
        dec_digits(x as nat)
    }
}

/// The value of a digit string, most significant digit first.
pub open spec fn digits_val(ds: Seq<char>) -> nat
    decreases ds.len(),
{
    if ds.len() == 0 {
        0
    } else {
        digits_val(ds.drop_last()) * 10 + digit_val(ds.last()) as nat
    }
}

/// Every character `dec_digits` produces is a digit, and at least one
/// is produced.
pub proof fn lemma_dec_digits_are_digits(n: nat)
    ensures
        dec_digits(n).len() >= 1,
        forall|k: int| 0 <= k < dec_digits(n).len() ==> is_digit(#[trigger] dec_digits(n)[k]),
    decreases n,
{
    if n >= 10 {
        lemma_dec_digits_are_digits(n / 10);
    }
}

/// Reading the digits of `n` back yields `n`.
pub proof fn lemma_digits_val_of_dec(n: nat)
    ensures
        digits_val(dec_digits(n)) == n,
    decreases n,
{
    if n < 10 {
        let ds = seq![digit_char(n as int)];
        assert(ds.drop_last() =~= Seq::<char>::empty());
        assert(digits_val(ds.drop_last()) == 0);
        assert(digit_val(digit_char(n as int)) == n);
        assert(digits_val(ds) == n);
    } else {
        lemma_digits_val_of_dec(n / 10);
        let ds = dec_digits(n / 10) + seq![digit_char((n % 10) as int)];
        assert(ds.drop_last() =~= dec_digits(n / 10));
        assert(ds.last() == digit_char((n % 10) as int));
        assert(digit_val(digit_char((n % 10) as int)) == n % 10);
        assert(digits_val(ds) == (n / 10) * 10 + n % 10);
        assert((n / 10) * 10 + n % 10 == n);
    }
}

/// Ten to the `k`.
pub open spec fn pow10(k: nat) -> nat
    decreases k,
{
    if k == 0 {
        1
    } else {
        10 * pow10((k - 1) as nat)
    }
}

/// A value below `pow10(k)` renders to at most `k` digits.
pub proof fn lemma_dec_digits_len(n: nat, k: nat)
    requires
        k >= 1,
        n < pow10(k),
    ensures
        dec_digits(n).len() <= k,
    decreases n,
{
    if n >= 10 {
        assert(pow10(k) == 10 * pow10((k - 1) as nat));
        lemma_dec_digits_len(n / 10, (k - 1) as nat);
    }
}

/// Any `u32` renders to at most ten digits.
pub proof fn lemma_dec_digits_len_u32(n: nat)
    requires
        n <= u32::MAX,
    ensures
        1 <= dec_digits(n).len() <= 10,
    decreases n,
{
    lemma_dec_digits_are_digits(n);
    assert(pow10(10) == 10000000000) by {
        reveal_with_fuel(pow10, 11);
    }
    lemma_dec_digits_len(n, 10);
}

/// The digit character for a value below ten, executable form.
pub fn digit_char_exec(d: u32) -> (c: char)
    requires
        d < 10,
    ensures
        c == digit_char(d as int),
{
    if d == 0 {
        '0'
    } else if d == 1 {
        '1'
    } else if d == 2 {
        '2'
    } else if d == 3 {
        '3'
    } else if d == 4 {
        '4'
    } else if d == 5 {
        '5'
    } else if d == 6 {
        '6'
    } else if d == 7 {
        '7'
    } else if d == 8 {
        '8'
    } else {
        '9'
    }
}

/// Appends the decimal digits of `n` to `out`.
pub fn render_u32_into(out: &mut String, n: u32)
    ensures
        final(out)@ == old(out)@ + dec_digits(n as nat),
    decreases n,
{
    if n < 10 {
        push_char(out, digit_char_exec(n));
        proof {
            assert(old(out)@.push(digit_char(n as int)) =~= old(out)@ + dec_digits(n as nat));
        }
    } else {
        let ghost pre = out@;
        render_u32_into(out, n / 10);
        push_char(out, digit_char_exec(n % 10));
        proof {
            assert((pre + dec_digits((n / 10) as nat)).push(digit_char((n % 10) as int)) =~= pre
                + dec_digits(n as nat));
        }
    }
}

/// Ten to the power grows with the exponent.
pub proof fn lemma_pow10_mono(a: nat, b: nat)
    requires
        a <= b,
    ensures
        pow10(a) <= pow10(b),
    decreases b,
{
    if a < b {
        lemma_pow10_mono(a, (b - 1) as nat);
    }
}

/// Appends the decimal rendering of `x` to `out`.
pub fn render_i32_into(out: &mut String, x: i32)
    ensures
        final(out)@ == old(out)@ + render_i32(x as int),
{
    let ghost pre = out@;
    if x < 0 {
        push_char(out, '-');
        let m: u32 = (-(x as i64)) as u32;
        proof {
            assert(m as nat == (-(x as int)) as nat);
        }
        render_u32_into(out, m);
        proof {
            assert((pre.push('-')) + dec_digits(m as nat) =~= pre + render_i32(x as int));
        }
    } else {
        render_u32_into(out, x as u32);
    }
}

/// Whether `c` is a decimal digit, executable form.
pub fn is_digit_exec(c: char) -> (b: bool)
    ensures
        b == is_digit(c),
{
    c == '0' || c == '1' || c == '2' || c == '3' || c == '4' || c == '5' || c == '6' || c == '7'
        || c == '8' || c == '9'
}

/// The value of a digit character, executable form.
pub fn digit_val_exec(c: char) -> (d: u64)
    requires
        is_digit(c),
    ensures
        d == digit_val(c),
{
    if c == '0' {
        0
    } else if c == '1' {
        1
    } else if c == '2' {
        2
    } else if c == '3' {
        3
    } else if c == '4' {
        4
    } else if c == '5' {
        5
    } else if c == '6' {
        6
    } else if c == '7' {
        7
    } else if c == '8' {
        8
    } else {
        9
    }
}

/// The first position at or after `i` that does not hold a digit.
pub open spec fn digit_run_end(s: Seq<char>, i: int) -> int
    decreases s.len() - i when 0 <= i <= s.len()
{
    if i < s.len() && is_digit(s[i]) {
        digit_run_end(s, i + 1)
    } else {
        i
    }
}

/// `digit_run_end` stays in bounds, sees digits only, and stops at the
/// first non-digit (or the end).
pub proof fn lemma_digit_run_end(s: Seq<char>, i: int)
    requires
        0 <= i <= s.len(),
    ensures
        i <= digit_run_end(s, i) <= s.len(),
        forall|k: int| i <= k < digit_run_end(s, i) ==> is_digit(#[trigger] s[k]),
        digit_run_end(s, i) < s.len() ==> !is_digit(s[digit_run_end(s, i)]),
    decreases s.len() - i,
{
    if i < s.len() && is_digit(s[i]) {
        lemma_digit_run_end(s, i + 1);
    }
}

/// A digit run bounded on both sides pins `digit_run_end` exactly.
pub proof fn lemma_digit_run_end_is(s: Seq<char>, i: int, j: int)
    requires
        0 <= i <= j <= s.len(),
        forall|k: int| i <= k < j ==> is_digit(#[trigger] s[k]),
        j < s.len() ==> !is_digit(s[j]),
    ensures
        digit_run_end(s, i) == j,
    decreases j - i,
{
    if i < j {
        lemma_digit_run_end_is(s, i + 1, j);
    }
}

/// The exact decimal-number parser: a non-empty digit run of at most ten
/// digits whose value fits a `u32`.
pub open spec fn spec_parse_u32(s: Seq<char>, i: int) -> Option<(u32, int)> {
    let j = digit_run_end(s, i);
    if i < j && j - i <= 10 && digits_val(s.subrange(i, j)) <= u32::MAX {
        Some((digits_val(s.subrange(i, j)) as u32, j))
    } else {
        None
    }
}

/// The exact signed decimal parser: an optional minus sign, then a digit
/// run whose value fits an `i32`.
pub open spec fn spec_parse_i32(s: Seq<char>, i: int) -> Option<(i32, int)> {
    if 0 <= i < s.len() && s[i] == '-' {
        let j = digit_run_end(s, i + 1);
        if i + 1 < j && j - (i + 1) <= 10 && digits_val(s.subrange(i + 1, j)) <= 0x8000_0000 {
            Some(((0 - digits_val(s.subrange(i + 1, j)) as int) as i32, j))
        } else {
            None
        }
    } else {
        let j = digit_run_end(s, i);
        if i < j && j - i <= 10 && digits_val(s.subrange(i, j)) <= 0x7fff_ffff {
            Some((digits_val(s.subrange(i, j)) as i32, j))
        } else {
            None
        }
    }
}

/// Scans the digit run starting at `i` and accumulates its value, failing
/// exactly where `spec_parse_u32` fails.
fn parse_digit_run(s: &str, i: usize) -> (r: Option<(u64, usize)>)
    requires
        i <= s@.len(),
    ensures
        match r {
            Some((v, j)) => {
                &&& i < j <= s@.len()
                &&& j == digit_run_end(s@, i as int)
                &&& j - i <= 10
                &&& v == digits_val(s@.subrange(i as int, j as int))
            },
            None => {
                let j = digit_run_end(s@, i as int);
                !(i < j && j - i <= 10)
            },
        },
{
    let n = s.unicode_len();
    let mut j: usize = i;
    let mut acc: u64 = 0;
    proof {
        assert(s@.subrange(i as int, i as int) =~= Seq::<char>::empty());
        lemma_digit_run_end(s@, i as int);
    }
    while j < n && is_digit_exec(s.get_char(j))
        invariant
            i <= j <= n,
            n == s@.len(),
            forall|k: int| i <= k < j ==> is_digit(#[trigger] s@[k]),
            j - i <= 10,
            acc == digits_val(s@.subrange(i as int, j as int)),
            acc < pow10((j - i) as nat),
        decreases n - j,
    {
        if j - i == 10 {
            // an eleventh digit: the run is longer than any rendered number
            proof {
                lemma_digit_run_end(s@, i as int);
                if digit_run_end(s@, i as int) <= j {
                    assert(is_digit(s@[digit_run_end(s@, i as int)]));
                }
            }
            return None;
        }
        let d = digit_val_exec(s.get_char(j));
        proof {
            let pre = s@.subrange(i as int, j as int);
            let post = s@.subrange(i as int, j + 1 as int);
            assert(post.drop_last() =~= pre);
            assert(post.last() == s@[j as int]);
            lemma_pow10_mono(((j - i) as nat), 9);
            assert(pow10(9) == 1000000000) by {
                reveal_with_fuel(pow10, 10);
            }
            assert(pow10(((j + 1 - i)) as nat) == 10 * pow10((j - i) as nat));
        }
        acc = acc * 10 + d;
        j += 1;
    }
    proof {
        lemma_digit_run_end_is(s@, i as int, j as int);
    }
    if j == i {
        None
    } else {
        Some((acc, j))
    }
}

/// Parses an unsigned decimal number as `spec_parse_u32` describes.
pub fn parse_u32(s: &str, i: usize) -> (r: Option<(u32, usize)>)
    requires
        i <= s@.len(),
    ensures
        match r {
            Some((v, j)) => i < j <= s@.len() && spec_parse_u32(s@, i as int) == Some((
                v,
                j as int,
            )),
            None => spec_parse_u32(s@, i as int) is None,
        },
{
    match parse_digit_run(s, i) {
        Some((v, j)) => {
            if v <= 0xffff_ffffu64 {
                Some((v as u32, j))
            } else {
                None
            }
        },
        None => None,
    }
}

/// Parses a signed decimal number as `spec_parse_i32` describes.
pub fn parse_i32(s: &str, i: usize) -> (r: Option<(i32, usize)>)
    requires
        i <= s@.len(),
    ensures
        match r {
            Some((v, j)) => i < j <= s@.len() && spec_parse_i32(s@, i as int) == Some((
                v,
                j as int,
            )),
            None => spec_parse_i32(s@, i as int) is None,
        },
{
    if i < s.unicode_len() && s.get_char(i) == '-' {
        match parse_digit_run(s, i + 1) {
            Some((v, j)) => {
                if v <= 0x8000_0000u64 {
                    let m: i64 = -(v as i64);
                    Some((m as i32, j))
                } else {
                    None
                }
            },
            None => None,
        }
    } else {
        match parse_digit_run(s, i) {
            Some((v, j)) => {
                if v <= 0x7fff_ffffu64 {
                    Some((v as i32, j))
                } else {
                    None
                }
            },
            None => None,
        }
    }
}

/// Reading back the digits of a `u32` yields it and stops at the boundary.
pub proof fn lemma_parse_u32_round_trip(s: Seq<char>, i: int, n: u32)
    requires
        0 <= i,
        i + dec_digits(n as nat).len() < s.len(),
        s.subrange(i, i + dec_digits(n as nat).len()) == dec_digits(n as nat),
        !is_digit(s[i + dec_digits(n as nat).len()]),
    ensures
        spec_parse_u32(s, i) == Some((n, i + dec_digits(n as nat).len())),
{
    let ds = dec_digits(n as nat);
    let j = i + ds.len();
    lemma_dec_digits_are_digits(n as nat);
    lemma_dec_digits_len_u32(n as nat);
    assert(forall|k: int| i <= k < j ==> is_digit(#[trigger] s[k])) by {
        assert(forall|k: int| i <= k < j ==> s[k] == ds[k - i]);
    }
    lemma_digit_run_end_is(s, i, j);
    lemma_digits_val_of_dec(n as nat);
    assert(s.subrange(i, j) == ds);
}

/// Reading back the rendering of an `i32` yields it and stops at the
/// boundary.
pub proof fn lemma_parse_i32_round_trip(s: Seq<char>, i: int, x: i32)
    requires
        0 <= i,
        i + render_i32(x as int).len() < s.len(),
        s.subrange(i, i + render_i32(x as int).len()) == render_i32(x as int),
        !is_digit(s[i + render_i32(x as int).len()]),
    ensures
        spec_parse_i32(s, i) == Some((x, i + render_i32(x as int).len())),
{
    let r = render_i32(x as int);
    let j = i + r.len();
    if x < 0 {
        let m = (-(x as int)) as nat;
        let ds = dec_digits(m);
        assert(r == seq!['-'] + ds);
        assert(s.subrange(i, j)[0] == s[i]);
        assert(r[0] == '-');
        assert(s[i] == '-');
        assert(!is_digit('-'));
        lemma_dec_digits_are_digits(m);
        lemma_dec_digits_len_u32(m);
        assert forall|k: int| i + 1 <= k < j implies is_digit(#[trigger] s[k]) by {
            assert(s.subrange(i, j)[k - i] == s[k]);
            assert(s[k] == ds[k - (i + 1)]);
        }
        lemma_digit_run_end_is(s, i + 1, j);
        lemma_digits_val_of_dec(m);
        assert forall|k: int| i + 1 <= k < j implies #[trigger] s[k] == ds[k - (i + 1)] by {
            assert(s.subrange(i, j)[k - i] == s[k]);
        }
        assert forall|k: int| 0 <= k < ds.len() implies s.subrange(i + 1, j)[k] == ds[k] by {
            assert(s.subrange(i + 1, j)[k] == s[k + i + 1]);
        }
        assert(s.subrange(i + 1, j) =~= ds);
        assert(m <= 0x8000_0000);
        assert((0 - digits_val(s.subrange(i + 1, j)) as int) as i32 == x);
    } else {
        let m = x as nat;
        let ds = dec_digits(m);
        assert(r == ds);
        lemma_dec_digits_are_digits(m);
        lemma_dec_digits_len_u32(m);
        assert(s.subrange(i, j)[0] == s[i]);
        assert(s[i] == ds[0]);
        assert(is_digit(s[i]));
        assert(s[i] != '-');
        assert(forall|k: int| i <= k < j ==> is_digit(#[trigger] s[k])) by {
            assert(forall|k: int| i <= k < j ==> s[k] == ds[k - i]);
        }
        lemma_digit_run_end_is(s, i, j);
        lemma_digits_val_of_dec(m);
        assert(s.subrange(i, j) == ds);
        assert(m <= 0x7fff_ffff);
    }
}

/// The escape sequence a character is written as inside a JSON string:
/// quote, backslash and the common control characters get a two-character
/// escape; everything else stands for itself.
pub open spec fn esc_char(c: char) -> Seq<char> {
    if c == '"' {
        seq!['\\', '"']
    } else if c == '\\' {
        seq!['\\', '\\']
    } else if c == '\n' {
        seq!['\\', 'n']
    } else if c == '\r' {
        seq!['\\', 'r']
    } else if c == '\t' {
        seq!['\\', 't']
    } else {
        seq![c]
    }
}

/// A whole string body, escaped character by character.
pub open spec fn esc_str(t: Seq<char>) -> Seq<char>
    decreases t.len(),
{
    if t.len() == 0 {
        Seq::empty()
    } else {
        esc_str(t.drop_last()) + esc_char(t.last())
    }
}

/// A JSON string: quote, escaped body, quote.
pub open spec fn render_string(t: Seq<char>) -> Seq<char> {
    seq!['"'] + esc_str(t) + seq!['"']
}

/// The character an escape letter stands for, if it is a valid escape.
pub open spec fn unesc_char(c: char) -> Option<char> {
    if c == '"' {
        Some('"')
    } else if c == '\\' {
        Some('\\')
    } else if c == 'n' {
        Some('\n')
    } else if c == 'r' {
        Some('\r')
    } else if c == 't' {
        Some('\t')
    } else {
        None
    }
}

/// `unesc_char`, executable form.
pub fn unesc_char_exec(c: char) -> (r: Option<char>)
    ensures
        r == unesc_char(c),
{
    if c == '"' {
        Some('"')
    } else if c == '\\' {
        Some('\\')
    } else if c == 'n' {
        Some('\n')
    } else if c == 'r' {
        Some('\r')
    } else if c == 't' {
        Some('\t')
    } else {
        None
    }
}

/// The string-body parser: reads up to (not over) the closing quote,
/// undoing escapes; fails on unterminated input or an unknown escape.
pub open spec fn spec_parse_str_body(s: Seq<char>, i: int) -> Option<(Seq<char>, int)>
    decreases s.len() - i when 0 <= i <= s.len()
{
    if i == s.len() {
        None
    } else if s[i] == '"' {
        Some((Seq::empty(), i))
    } else if s[i] == '\\' {
        if i + 1 == s.len() {
            None
        } else {
            match unesc_char(s[i + 1]) {
                Some(c) => match spec_parse_str_body(s, i + 2) {
                    Some((t, j)) => Some((seq![c] + t, j)),
                    None => None,
                },
                None => None,
            }
        }
    } else {
        match spec_parse_str_body(s, i + 1) {
            Some((t, j)) => Some((seq![s[i]] + t, j)),
            None => None,
        }
    }
}

/// The JSON string parser: an opening quote, a body, a closing quote.
pub open spec fn spec_parse_string(s: Seq<char>, i: int) -> Option<(Seq<char>, int)> {
    if 0 <= i < s.len() && s[i] == '"' {
        match spec_parse_str_body(s, i + 1) {
            Some((t, j)) => Some((t, j + 1)),
            None => None,
        }
    } else {
        None
    }
}

/// An expected literal: succeeds exactly where the input carries it.
pub open spec fn spec_parse_lit(s: Seq<char>, i: int, lit: Seq<char>) -> Option<int> {
    if 0 <= i && i + lit.len() <= s.len() && s.subrange(i, i + lit.len()) == lit {
        Some(i + lit.len())
    } else {
        None
    }
}

/// `true` or `false`.
pub open spec fn render_bool(b: bool) -> Seq<char> {
    if b {
        "true"@
    } else {
        "false"@
    }
}

/// The boolean parser.
pub open spec fn spec_parse_bool(s: Seq<char>, i: int) -> Option<(bool, int)> {
    match spec_parse_lit(s, i, "true"@) {
        Some(j) => Some((true, j)),
        None => match spec_parse_lit(s, i, "false"@) {
            Some(j) => Some((false, j)),
            None => None,
        },
    }
}

/// An optional string: `null`, or a JSON string.
pub open spec fn render_opt_string(o: Option<Seq<char>>) -> Seq<char> {
    match o {
        None => "null"@,
        Some(t) => render_string(t),
    }
}

/// The optional-string parser: a quote starts a string, anything else must
/// be the literal `null`.
pub open spec fn spec_parse_opt_string(s: Seq<char>, i: int) -> Option<(Option<Seq<char>>, int)> {
    if 0 <= i < s.len() && s[i] == '"' {
        match spec_parse_string(s, i) {
            Some((t, j)) => Some((Some(t), j)),
            None => None,
        }
    } else {
        match spec_parse_lit(s, i, "null"@) {
            Some(j) => Some((None, j)),
            None => None,
        }
    }
}

/// Appends the escaped body of `s` to `out`.
pub fn escape_into(out: &mut String, s: &str)
    ensures
        final(out)@ == old(out)@ + esc_str(s@),
{
    let n = s.unicode_len();
    let mut i: usize = 0;
    proof {
        assert(s@.subrange(0, 0) =~= Seq::<char>::empty());
        assert(old(out)@ + esc_str(s@.subrange(0, 0)) =~= old(out)@);
    }
    while i < n
        invariant
            0 <= i <= n,
            n == s@.len(),
            out@ == old(out)@ + esc_str(s@.subrange(0, i as int)),
        decreases n - i,
    {
        let c = s.get_char(i);
        let ghost pre = out@;
        if c == '"' {
            push_char(out, '\\');
            push_char(out, '"');
        } else if c == '\\' {
            push_char(out, '\\');
            push_char(out, '\\');
        } else if c == '\n' {
            push_char(out, '\\');
            push_char(out, 'n');
        } else if c == '\r' {
            push_char(out, '\\');
            push_char(out, 'r');
        } else if c == '\t' {
            push_char(out, '\\');
            push_char(out, 't');
        } else {
            push_char(out, c);
        }
        proof {
            let prefix = s@.subrange(0, i as int);
            let prefix1 = s@.subrange(0, i + 1 as int);
            assert(prefix1.drop_last() =~= prefix);
            assert(prefix1.last() == s@[i as int]);
            assert(esc_str(prefix1) == esc_str(prefix) + esc_char(s@[i as int]));
            assert(out@ =~= pre + esc_char(s@[i as int]));
            assert(out@ =~= old(out)@ + esc_str(prefix1));
        }
        i += 1;
    }
    proof {
        assert(s@.subrange(0, n as int) =~= s@);
    }
}

/// Appends the JSON string form of `s` to `out`.
pub fn render_string_into(out: &mut String, s: &str)
    ensures
        final(out)@ == old(out)@ + render_string(s@),
{
    push_char(out, '"');
    escape_into(out, s);
    push_char(out, '"');
    proof {
        assert(out@ =~= old(out)@ + render_string(s@));
    }
}

/// Appends `null` or the JSON string form of the value to `out`.
pub fn render_opt_string_into(out: &mut String, o: &Option<String>)
    ensures
        final(out)@ == old(out)@ + render_opt_string(crate::model::opt_string_view(o)),
{
    match o {
        None => {
            out.append("null");
        },
        Some(t) => {
            render_string_into(out, t.as_str());
        },
    }
}

/// Appends `true` or `false` to `out`.
pub fn render_bool_into(out: &mut String, b: bool)
    ensures
        final(out)@ == old(out)@ + render_bool(b),
{
    if b {
        out.append("true");
    } else {
        out.append("false");
    }
}

/// Glues an already-parsed prefix onto a body-parser result.
pub open spec fn prepend_body(acc: Seq<char>, r: Option<(Seq<char>, int)>) -> Option<
    (Seq<char>, int),
> {
    match r {
        Some((t, j)) => Some((acc + t, j)),
        None => None,
    }
}

/// Parses a JSON string as `spec_parse_string` describes.
pub fn parse_string(s: &str, i: usize) -> (r: Option<(String, usize)>)
    requires
        i <= s@.len(),
    ensures
        match r {
            Some((t, j)) => i < j <= s@.len() && spec_parse_string(s@, i as int) == Some((
                t@,
                j as int,
            )),
            None => spec_parse_string(s@, i as int) is None,
        },
{
    let n = s.unicode_len();
    if i == n || s.get_char(i) != '"' {
        return None;
    }
    let mut k: usize = i + 1;
    let mut acc = String::new();
    proof {
        assert(prepend_body(acc@, spec_parse_str_body(s@, k as int)) == spec_parse_str_body(
            s@,
            i as int + 1,
        ));
    }
    loop
        invariant
            i + 1 <= k <= n,
            n == s@.len(),
            i < n,
            s@[i as int] == '"',
            spec_parse_str_body(s@, i as int + 1) == prepend_body(
                acc@,
                spec_parse_str_body(s@, k as int),
            ),
        decreases n - k,
    {
        if k == n {
            return None;
        }
        let c = s.get_char(k);
        if c == '"' {
            proof {
                assert(spec_parse_str_body(s@, k as int) == Some((Seq::<char>::empty(), k as int)));
                assert(acc@ + Seq::<char>::empty() =~= acc@);
            }
            return Some((acc, k + 1));
        } else if c == '\\' {
            if k + 1 == n {
                return None;
            }
            match unesc_char_exec(s.get_char(k + 1)) {
                Some(c2) => {
                    let ghost acc0 = acc@;
                    push_char(&mut acc, c2);
                    proof {
                        let rest = spec_parse_str_body(s@, k + 2 as int);
                        if rest is Some {
                            let (t, j) = rest->Some_0;
                            assert(acc0 + (seq![c2] + t) =~= acc0.push(c2) + t);
                        }
                    }
                    k += 2;
                },
                None => {
                    return None;
                },
            }
        } else {
            let ghost acc0 = acc@;
            push_char(&mut acc, c);
            proof {
                let rest = spec_parse_str_body(s@, k + 1 as int);
                if rest is Some {
                    let (t, j) = rest->Some_0;
                    assert(acc0 + (seq![s@[k as int]] + t) =~= acc0.push(c) + t);
                }
            }
            k += 1;
        }
    }
}

/// Parses an expected literal as `spec_parse_lit` describes.
pub fn parse_lit(s: &str, i: usize, lit: &str) -> (r: Option<usize>)
    requires
        i <= s@.len(),
    ensures
        match r {
            Some(j) => i <= j <= s@.len() && j - i == lit@.len() && spec_parse_lit(
                s@,
                i as int,
                lit@,
            ) == Some(j as int),
            None => spec_parse_lit(s@, i as int, lit@) is None,
        },
{
    let m = lit.unicode_len();
    let n = s.unicode_len();
    if m > n - i {
        return None;
    }
    let mut k: usize = 0;
    while k < m
        invariant
            0 <= k <= m,
            m == lit@.len(),
            n == s@.len(),
            i + m <= n,
            forall|q: int| 0 <= q < k ==> s@[i + q] == lit@[q],
        decreases m - k,
    {
        if s.get_char(i + k) != lit.get_char(k) {
            proof {
                let sub = s@.subrange(i as int, i as int + lit@.len());
                assert(sub[k as int] == s@[i + k]);
                assert(sub != lit@);
            }
            return None;
        }
        k += 1;
    }
    proof {
        let sub = s@.subrange(i as int, i as int + lit@.len());
        assert forall|q: int| 0 <= q < m implies sub[q] == lit@[q] by {
            assert(sub[q] == s@[i + q]);
        }
        assert(sub =~= lit@);
    }
    Some(i + m)
}

/// Parses a boolean as `spec_parse_bool` describes.
pub fn parse_bool(s: &str, i: usize) -> (r: Option<(bool, usize)>)
    requires
        i <= s@.len(),
    ensures
        match r {
            Some((b, j)) => i < j <= s@.len() && spec_parse_bool(s@, i as int) == Some((
                b,
                j as int,
            )),
            None => spec_parse_bool(s@, i as int) is None,
        },
{
    proof {
        reveal_strlit("true");
        reveal_strlit("false");
    }
    match parse_lit(s, i, "true") {
        Some(j) => Some((true, j)),
        None => match parse_lit(s, i, "false") {
            Some(j) => Some((false, j)),
            None => None,
        },
    }
}

/// Parses an optional string as `spec_parse_opt_string` describes.
pub fn parse_opt_string(s: &str, i: usize) -> (r: Option<(Option<String>, usize)>)
    requires
        i <= s@.len(),
    ensures
        match r {
            Some((o, j)) => i < j <= s@.len() && spec_parse_opt_string(s@, i as int) == Some((
                crate::model::opt_string_view(&o),
                j as int,
            )),
            None => spec_parse_opt_string(s@, i as int) is None,
        },
{
    let n = s.unicode_len();
    if i < n && s.get_char(i) == '"' {
        match parse_string(s, i) {
            Some((t, j)) => Some((Some(t), j)),
            None => None,
        }
    } else {
        proof {
            reveal_strlit("null");
        }
        match parse_lit(s, i, "null") {
            Some(j) => Some((None, j)),
            None => None,
        }
    }
}

/// The escaped body decomposes from the front as well.
pub proof fn lemma_esc_str_first(t: Seq<char>)
    requires
        t.len() > 0,
    ensures
        esc_str(t) == esc_char(t[0]) + esc_str(t.subrange(1, t.len() as int)),
    decreases t.len(),
{
    let t2 = t.subrange(1, t.len() as int);
    if t.len() == 1 {
        assert(t.drop_last() =~= Seq::<char>::empty());
        assert(t2 =~= Seq::<char>::empty());
        assert(esc_char(t[0]) + esc_str(t2) =~= esc_char(t.last()));
        assert(esc_str(t) == esc_str(t.drop_last()) + esc_char(t.last()));
        assert(esc_str(t.drop_last()) + esc_char(t.last()) =~= esc_char(t.last()));
    } else {
        let dl = t.drop_last();
        lemma_esc_str_first(dl);
        assert(dl[0] == t[0]);
        assert(dl.subrange(1, dl.len() as int) =~= t2.drop_last());
        assert(t2.last() == t.last());
        assert(esc_str(t2) == esc_str(t2.drop_last()) + esc_char(t.last()));
        assert(esc_str(t) == (esc_char(t[0]) + esc_str(t2.drop_last())) + esc_char(t.last()));
        assert((esc_char(t[0]) + esc_str(t2.drop_last())) + esc_char(t.last()) =~= esc_char(t[0])
            + (esc_str(t2.drop_last()) + esc_char(t.last())));
    }
}

/// Reading back an escaped body yields the original string and stops at
/// the closing quote.
pub proof fn lemma_parse_str_body_round_trip(s: Seq<char>, i: int, t: Seq<char>)
    requires
        0 <= i,
        i + esc_str(t).len() < s.len(),
        s.subrange(i, i + esc_str(t).len()) == esc_str(t),
        s[i + esc_str(t).len()] == '"',
    ensures
        spec_parse_str_body(s, i) == Some((t, i + esc_str(t).len())),
    decreases t.len(),
{
    let e_all = esc_str(t);
    if t.len() == 0 {
        assert(s[i] == '"');
    } else {
        lemma_esc_str_first(t);
        let c0 = t[0];
        let e = esc_char(c0);
        let t2 = t.subrange(1, t.len() as int);
        let rest = esc_str(t2);
        assert(e_all == e + rest);
        assert(s.subrange(i, i + e_all.len())[0] == s[i]);
        assert(e_all[0] == e[0]);
        assert(s[i] == e[0]);
        assert forall|q: int| 0 <= q < rest.len() implies s.subrange(
            i + e.len(),
            i + e.len() + rest.len(),
        )[q] == rest[q] by {
            assert(s.subrange(i, i + e_all.len())[q + e.len()] == s[i + e.len() + q]);
            assert(e_all[q + e.len()] == rest[q]);
            assert(s.subrange(i + e.len(), i + e.len() + rest.len())[q] == s[i + e.len() + q]);
        }
        assert(s.subrange(i + e.len(), i + e.len() + rest.len()) =~= rest);
        assert(i + e.len() + rest.len() == i + e_all.len());
        lemma_parse_str_body_round_trip(s, i + e.len(), t2);
        if c0 == '"' || c0 == '\\' || c0 == '\n' || c0 == '\r' || c0 == '\t' {
            assert(e.len() == 2);
            assert(e[0] == '\\');
            assert(s.subrange(i, i + e_all.len())[1] == s[i + 1]);
            assert(e_all[1] == e[1]);
            assert(s[i + 1] == e[1]);
            assert(unesc_char(e[1]) == Some(c0));
            assert(seq![c0] + t2 =~= t);
        } else {
            assert(e.len() == 1);
            assert(s[i] == c0);
            assert(seq![c0] + t2 =~= t);
        }
    }
}

/// Reading back a rendered JSON string yields the original.
pub proof fn lemma_parse_string_round_trip(s: Seq<char>, i: int, j: int, t: Seq<char>)
    requires
        0 <= i <= j <= s.len(),
        s.subrange(i, j) == render_string(t),
    ensures
        spec_parse_string(s, i) == Some((t, j)),
{
    let e = esc_str(t);
    let r = render_string(t);
    assert(r.len() == e.len() + 2);
    assert(j - i == r.len());
    assert(s.subrange(i, j)[0] == s[i]);
    assert(r[0] == '"');
    assert(s[i] == '"');
    assert(s.subrange(i, j)[j - i - 1] == s[j - 1]);
    assert(r[j - i - 1] == '"');
    assert(s[j - 1] == '"');
    assert forall|q: int| 0 <= q < e.len() implies s.subrange(i + 1, i + 1 + e.len())[q] == e[q] by {
        assert(s.subrange(i, j)[q + 1] == s[i + 1 + q]);
        assert(r[q + 1] == e[q]);
        assert(s.subrange(i + 1, i + 1 + e.len())[q] == s[i + 1 + q]);
    }
    assert(s.subrange(i + 1, i + 1 + e.len()) =~= e);
    assert(i + 1 + e.len() == j - 1);
    lemma_parse_str_body_round_trip(s, i + 1, t);
}

/// Reading back a rendered boolean yields it.
pub proof fn lemma_parse_bool_round_trip(s: Seq<char>, i: int, j: int, b: bool)
    requires
        0 <= i <= j <= s.len(),
        s.subrange(i, j) == render_bool(b),
    ensures
        spec_parse_bool(s, i) == Some((b, j)),
{
    reveal_strlit("true");
    reveal_strlit("false");
    if b {
        assert(j == i + 4);
        assert(s.subrange(i, i + 4) == "true"@);
    } else {
        assert(j == i + 5);
        assert(s.subrange(i, j)[0] == s[i]);
        assert(s[i] == 'f');
        if i + 4 <= s.len() {
            let sub = s.subrange(i, i + 4);
            assert(sub[0] == s[i]);
            assert(sub != "true"@);
        }
        assert(spec_parse_lit(s, i, "true"@) is None);
        assert(s.subrange(i, i + 5) == "false"@);
    }
}

/// Reading back a rendered optional string yields it.
pub proof fn lemma_parse_opt_string_round_trip(s: Seq<char>, i: int, j: int, o: Option<Seq<char>>)
    requires
        0 <= i <= j <= s.len(),
        s.subrange(i, j) == render_opt_string(o),
    ensures
        spec_parse_opt_string(s, i) == Some((o, j)),
{
    reveal_strlit("null");
    match o {
        None => {
            assert(j == i + 4);
            assert(s.subrange(i, j)[0] == s[i]);
            assert(s[i] == 'n');
            assert(s[i] != '"');
            assert(s.subrange(i, i + 4) == "null"@);
        },
        Some(t) => {
            assert(s.subrange(i, j) == render_string(t));
            assert(render_string(t).len() == 2 + esc_str(t).len());
            assert(j - i >= 2);
            assert(s.subrange(i, j)[0] == s[i]);
            assert(render_string(t)[0] == '"');
            assert(s[i] == '"');
            lemma_parse_string_round_trip(s, i, j, t);
        },
    }
}

} // verus!
