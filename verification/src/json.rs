//! Character-level parsing for the line-delimited JSON wire format.
//!
//! The grammar accepted here is the subset of JSON the protocol uses:
//! objects, arrays, strings (with the single-character escapes
//! `\" \\ \/ \n \t \r \b \f` and `\uXXXX` for any scalar value up to
//! `FFFF`; other characters stand for themselves), unsigned decimal
//! integers that fit in a `u64`, `true`, `false` and `null`. Object fields
//! may come in any order; unknown fields are skipped; of repeated fields
//! the last one wins.
//!
//! Every executable parser mirrors a specification function exactly, so a
//! caller's contract can say precisely what a line decodes to.

use vstd::prelude::*;

verus! {

// ---------------------------------------------------------------------
// Trusted text conversions
// ---------------------------------------------------------------------

/// Relies on str::chars: iterating a string slice yields exactly the
/// characters of its view, in order.
#[verifier::external_body]
pub(crate) fn str_chars(s: &str) -> (r: Vec<char>)
    ensures
        r@ == s@,
{
    s.chars().collect()
}

/// Relies on String's FromIterator over chars: collecting characters
/// yields the string whose characters are exactly those collected.
#[verifier::external_body]
pub(crate) fn chars_to_string(v: &Vec<char>) -> (r: String)
    ensures
        r@ == v@,
{
    v.iter().collect()
}

/// Relies on char::from_u32: defined exactly for the Unicode scalar values
/// (everything below the last plane's end except the surrogate range), and
/// the character it yields carries that code.
#[verifier::external_body]
pub(crate) fn char_from_code(v: u32) -> (r: Option<char>)
    ensures
        (r is Some) <==> (v < 0xD800 || (0xE000 <= v && v < 0x11_0000)),
        r is Some ==> r->Some_0 as u32 == v,
{
    char::from_u32(v)
}

// ---------------------------------------------------------------------
// Character classes
// ---------------------------------------------------------------------

/// JSON insignificant whitespace.
pub open spec fn is_ws_char(c: char) -> bool {
    c == ' ' || c == '\t' || c == '\n' || c == '\r'
}

/// A decimal digit.
pub open spec fn is_digit_char(c: char) -> bool {
    48 <= c as u32 <= 57
}

/// The numeric value of a decimal digit.
pub open spec fn digit_val(c: char) -> int {
    c as u32 - 48
}

/// A hexadecimal digit, either case.
pub open spec fn is_hex_digit(c: char) -> bool {
    is_digit_char(c) || (97 <= c as u32 <= 102) || (65 <= c as u32 <= 70)
}

/// The numeric value of a hexadecimal digit.
pub open spec fn hex_val(c: char) -> int {
    if is_digit_char(c) {
        c as u32 - 48
    } else if 97 <= c as u32 <= 102 {
        c as u32 - 87
    } else {
        c as u32 - 55
    }
}

/// The character holding a scalar value: the inverse of `c as u32` on the
/// scalar range.
pub open spec fn char_with_code(v: int) -> char {
    (v as u32) as char
}

/// The lower-case character of one hexadecimal digit value.
pub open spec fn sp_hex_char(d: int) -> char {
    if d == 0 {
        '0'
    } else if d == 1 {
        '1'
    } else if d == 2 {
        '2'
    } else if d == 3 {
        '3'
    } else if d == 4 {
        '4'
    } else if d == 5 {
        '5'
    } else if d == 6 {
        '6'
    } else if d == 7 {
        '7'
    } else if d == 8 {
        '8'
    } else if d == 9 {
        '9'
    } else if d == 10 {
        'a'
    } else if d == 11 {
        'b'
    } else if d == 12 {
        'c'
    } else if d == 13 {
        'd'
    } else if d == 14 {
        'e'
    } else {
        'f'
    }
}

/// The hexadecimal digit characters carry their values (and none is the
/// line terminator).
pub proof fn lemma_hex_char_val(d: int)
    requires
        0 <= d <= 15,
    ensures
        is_hex_digit(sp_hex_char(d)),
        hex_val(sp_hex_char(d)) == d,
        sp_hex_char(d) != '\n',
{
}

// ---------------------------------------------------------------------
// Specification-level printing
// ---------------------------------------------------------------------

/// How one character is written inside a string literal: `"` and `\` are
/// escaped, the common control characters by their short names, every
/// other control character as `\u00XX`; everything else stands for
/// itself.
pub open spec fn sp_escape_char(c: char) -> Seq<char> {
    if c == '"' {
        seq!['\\', '"']
    } else if c == '\\' {
        seq!['\\', '\\']
    } else if c == '\n' {
        seq!['\\', 'n']
    } else if c == '\t' {
        seq!['\\', 't']
    } else if c == '\r' {
        seq!['\\', 'r']
    } else if (c as u32) < 32 {
        let hi = sp_hex_char(((c as u32) / 16) as int);
        let lo = sp_hex_char(((c as u32) % 16) as int);
        seq!['\\', 'u', '0', '0', hi, lo]
    } else {
        seq![c]
    }
}

/// The escaped form of a whole string content.
pub open spec fn sp_escape(s: Seq<char>) -> Seq<char>
    decreases s.len(),
{
    if s.len() == 0 {
        Seq::empty()
    } else {
        sp_escape_char(s[0]) + sp_escape(s.skip(1))
    }
}

/// A quoted, escaped string literal.
pub open spec fn sp_quote(s: Seq<char>) -> Seq<char> {
    seq!['"'] + sp_escape(s) + seq!['"']
}

/// Escaping distributes over appending one character at the end.
pub proof fn lemma_sp_escape_push(s: Seq<char>, c: char)
    ensures
        sp_escape(s.push(c)) == sp_escape(s) + sp_escape_char(c),
    decreases s.len(),
{
    if s.len() == 0 {
        assert(s.push(c).skip(1) =~= Seq::<char>::empty());
        assert(s.push(c)[0] == c);
        assert(sp_escape(s.push(c)) == sp_escape_char(c) + sp_escape(Seq::<char>::empty()));
        assert(sp_escape(Seq::<char>::empty()) == Seq::<char>::empty());
        assert(sp_escape_char(c) + Seq::<char>::empty() =~= sp_escape_char(c));
        assert(sp_escape(s) == Seq::<char>::empty());
        assert(Seq::<char>::empty() + sp_escape_char(c) =~= sp_escape_char(c));
        assert(sp_escape(s.push(c)) =~= sp_escape(s) + sp_escape_char(c));
    } else {
        assert(s.push(c).skip(1) =~= s.skip(1).push(c));
        lemma_sp_escape_push(s.skip(1), c);
        assert(sp_escape(s.push(c)) =~= sp_escape(s) + sp_escape_char(c));
    }
}

/// When a stretch of the input equals `a + b`, its first part equals `a`
/// and the remainder equals `b`.
pub(crate) proof fn lemma_subrange_split(s: Seq<char>, i: int, a: Seq<char>, b: Seq<char>)
    requires
        0 <= i,
        i + a.len() + b.len() <= s.len(),
        s.subrange(i, i + a.len() + b.len()) == a + b,
    ensures
        s.subrange(i, i + a.len()) == a,
        s.subrange(i + a.len(), i + a.len() + b.len()) == b,
{
    assert forall|m: int| 0 <= m < a.len() implies s.subrange(i, i + a.len())[m] == a[m] by {
        assert(s.subrange(i, i + a.len() + b.len())[m] == (a + b)[m]);
    }
    assert(s.subrange(i, i + a.len()) =~= a);
    assert forall|m: int|
        0 <= m < b.len() implies s.subrange(i + a.len(), i + a.len() + b.len())[m] == b[m] by {
        assert(s.subrange(i, i + a.len() + b.len())[m + a.len()] == s[i + a.len() + m]);
        assert((a + b)[m + a.len()] == b[m]);
        assert(s.subrange(i + a.len(), i + a.len() + b.len())[m] == s[i + a.len() + m]);
    }
    assert(s.subrange(i + a.len(), i + a.len() + b.len()) =~= b);
}

/// The character `m` places into a stretch of the input known to equal `a`.
pub(crate) proof fn lemma_char_at(s: Seq<char>, i: int, a: Seq<char>, m: int)
    requires
        0 <= i,
        i + a.len() <= s.len(),
        s.subrange(i, i + a.len()) == a,
        0 <= m < a.len(),
    ensures
        s[i + m] == a[m],
{
    assert(s.subrange(i, i + a.len())[m] == s[i + m]);
}

/// Parsing the remainder of a string literal whose escaped content and
/// closing quote stand at `i` recovers exactly the original content,
/// appended to the accumulator: unescaping undoes escaping.
pub proof fn lemma_string_tail_round_trip(s: Seq<char>, i: int, c: Seq<char>, acc: Seq<char>)
    requires
        0 <= i,
        i + sp_escape(c).len() + 1 <= s.len(),
        s.subrange(i, i + sp_escape(c).len() + 1) == sp_escape(c) + seq!['"'],
    ensures
        sp_string_tail(s, i, acc) == Some((acc + c, i + sp_escape(c).len() + 1)),
    decreases c.len(),
{
    if c.len() == 0 {
        assert(sp_escape(c) == Seq::<char>::empty());
        assert(Seq::<char>::empty() + seq!['"'] =~= seq!['"']);
        lemma_char_at(s, i, seq!['"'], 0);
        assert(s[i] == '"');
        assert(acc + c =~= acc);
    } else {
        let e = sp_escape_char(c[0]);
        let rest = sp_escape(c.skip(1));
        assert(sp_escape(c) == e + rest);
        assert((e + rest) + seq!['"'] =~= e + (rest + seq!['"']));
        lemma_subrange_split(s, i, e, rest + seq!['"']);
        lemma_char_at(s, i, e, 0);
        if c[0] == '"' || c[0] == '\\' || c[0] == '\n' || c[0] == '\t' || c[0] == '\r' {
            assert(e.len() == 2);
            lemma_char_at(s, i, e, 1);
            assert(s[i] == '\\');
            assert(s[i + 1] == e[1]);
            lemma_string_tail_round_trip(s, i + 2, c.skip(1), acc.push(c[0]));
            assert(acc.push(c[0]) + c.skip(1) =~= acc + c);
        } else if (c[0] as u32) < 32 {
            let cu = c[0] as u32;
            assert(e.len() == 6);
            lemma_char_at(s, i, e, 1);
            lemma_char_at(s, i, e, 2);
            lemma_char_at(s, i, e, 3);
            lemma_char_at(s, i, e, 4);
            lemma_char_at(s, i, e, 5);
            assert(s[i] == '\\' && s[i + 1] == 'u' && s[i + 2] == '0' && s[i + 3] == '0');
            assert(s[i + 4] == sp_hex_char(cu as int / 16));
            assert(s[i + 5] == sp_hex_char(cu as int % 16));
            lemma_hex_char_val(cu as int / 16);
            lemma_hex_char_val(cu as int % 16);
            assert(is_hex_digit('0') && hex_val('0') == 0);
            let v = hex_val(s[i + 2]) * 4096 + hex_val(s[i + 3]) * 256 + hex_val(s[i + 4]) * 16
                + hex_val(s[i + 5]);
            assert(v == (cu / 16) * 16 + cu % 16);
            assert(v == cu);
            vstd::utf8::char_u32_cast(c[0], cu);
            assert(char_with_code(v as int) == c[0]);
            lemma_string_tail_round_trip(s, i + 6, c.skip(1), acc.push(c[0]));
            assert(acc.push(c[0]) + c.skip(1) =~= acc + c);
        } else {
            assert(e =~= seq![c[0]]);
            assert(s[i] == c[0]);
            lemma_string_tail_round_trip(s, i + 1, c.skip(1), acc.push(c[0]));
            assert(acc.push(c[0]) + c.skip(1) =~= acc + c);
        }
    }
}

/// A quoted, escaped string literal standing at `i` parses back to exactly
/// its content, ending just past its closing quote.
pub proof fn lemma_quote_round_trip(s: Seq<char>, i: int, c: Seq<char>)
    requires
        0 <= i,
        i + sp_quote(c).len() <= s.len(),
        s.subrange(i, i + sp_quote(c).len()) == sp_quote(c),
    ensures
        sp_string(s, i) == Some((c, i + sp_quote(c).len())),
{
    assert((seq!['"'] + sp_escape(c)) + seq!['"'] =~= seq!['"'] + (sp_escape(c) + seq!['"']));
    lemma_subrange_split(s, i, seq!['"'], sp_escape(c) + seq!['"']);
    lemma_char_at(s, i, seq!['"'], 0);
    assert(s[i] == '"');
    lemma_string_tail_round_trip(s, i + 1, c, Seq::empty());
    assert(Seq::empty() + c =~= c);
}

/// The character of one decimal digit.
pub open spec fn sp_digit_char(d: int) -> char {
    if d == 0 {
        '0'
    } else if d == 1 {
        '1'
    } else if d == 2 {
        '2'
    } else if d == 3 {
        '3'
    } else if d == 4 {
        '4'
    } else if d == 5 {
        '5'
    } else if d == 6 {
        '6'
    } else if d == 7 {
        '7'
    } else if d == 8 {
        '8'
    } else {
        '9'
    }
}

/// The decimal digits of a non-negative number, most significant first.
pub open spec fn sp_num(n: int) -> Seq<char>
    decreases n,
{
    if n < 0 {
        Seq::empty()
    } else if n < 10 {
        seq![sp_digit_char(n)]
    } else {
        sp_num(n / 10) + seq![sp_digit_char(n % 10)]
    }
}

/// No character of `s` is the line terminator, so `s` fits on one line.
pub open spec fn newline_free(s: Seq<char>) -> bool {
    forall|k: int| 0 <= k < s.len() ==> s[k] != '\n'
}

/// Text assembled from newline-free pieces stays newline-free.
pub proof fn lemma_newline_free_concat(a: Seq<char>, b: Seq<char>)
    requires
        newline_free(a),
        newline_free(b),
    ensures
        newline_free(a + b),
{
    assert forall|k: int| 0 <= k < (a + b).len() implies (a + b)[k] != '\n' by {
        if k < a.len() {
            assert((a + b)[k] == a[k]);
        } else {
            assert((a + b)[k] == b[k - a.len()]);
        }
    }
}

/// Escaping never emits the line terminator: a raw newline becomes `\n`,
/// and every other character kept raw is not a newline.
pub proof fn lemma_escape_newline_free(c: Seq<char>)
    ensures
        newline_free(sp_escape(c)),
    decreases c.len(),
{
    if c.len() == 0 {
    } else {
        lemma_escape_newline_free(c.skip(1));
        if c[0] != '"' && c[0] != '\\' && c[0] != '\n' && c[0] != '\t' && c[0] != '\r' && (c[0]
            as u32) < 32 {
            lemma_hex_char_val(((c[0] as u32) / 16) as int);
            lemma_hex_char_val(((c[0] as u32) % 16) as int);
        }
        assert(newline_free(sp_escape_char(c[0])));
        lemma_newline_free_concat(sp_escape_char(c[0]), sp_escape(c.skip(1)));
    }
}

/// Text in which no character needs an escape is written as itself.
pub proof fn lemma_escape_plain(c: Seq<char>)
    requires
        forall|k: int|
            0 <= k < c.len() ==> (c[k] != '"' && c[k] != '\\' && c[k] as u32 >= 32),
    ensures
        sp_escape(c) == c,
    decreases c.len(),
{
    if c.len() == 0 {
        assert(sp_escape(c) =~= c);
    } else {
        lemma_escape_plain(c.skip(1));
        assert(sp_escape_char(c[0]) =~= seq![c[0]]);
        assert(seq![c[0]] + c.skip(1) =~= c);
    }
}

/// A quoted string literal is newline-free.
pub proof fn lemma_quote_newline_free(c: Seq<char>)
    ensures
        newline_free(sp_quote(c)),
{
    lemma_escape_newline_free(c);
    assert(newline_free(seq!['"']));
    lemma_newline_free_concat(seq!['"'], sp_escape(c));
    lemma_newline_free_concat(seq!['"'] + sp_escape(c), seq!['"']);
}

/// Printed decimal digits are newline-free.
pub proof fn lemma_num_newline_free(n: int)
    ensures
        newline_free(sp_num(n)),
    decreases n,
{
    if n < 0 {
    } else if n < 10 {
        assert(sp_digit_char(n) != '\n');
    } else {
        lemma_num_newline_free(n / 10);
        assert(newline_free(seq![sp_digit_char(n % 10)]));
        lemma_newline_free_concat(sp_num(n / 10), seq![sp_digit_char(n % 10)]);
    }
}

/// Powers of ten.
pub open spec fn pow10(k: nat) -> nat
    decreases k,
{
    if k == 0 {
        1
    } else {
        10 * pow10((k - 1) as nat)
    }
}

/// Every power of ten is positive.
proof fn lemma_pow10_pos(k: nat)
    ensures
        pow10(k) >= 1,
    decreases k,
{
    if k > 0 {
        lemma_pow10_pos((k - 1) as nat);
    }
}

/// The numeric value of a digit sequence, most significant first.
pub open spec fn digits_val(d: Seq<char>) -> nat
    decreases d.len(),
{
    if d.len() == 0 {
        0nat
    } else {
        (digit_val(d[0]) * pow10((d.len() - 1) as nat) + digits_val(d.skip(1))) as nat
    }
}

/// The digit characters carry their digit values.
proof fn lemma_digit_char_val(d: int)
    requires
        0 <= d <= 9,
    ensures
        is_digit_char(sp_digit_char(d)),
        digit_val(sp_digit_char(d)) == d,
{
}

/// The digits of `sp_num(n)`: at least one, all decimal digits, and they
/// denote exactly `n`.
pub(crate) proof fn lemma_sp_num_digits(n: int)
    requires
        n >= 0,
    ensures
        sp_num(n).len() >= 1,
        forall|m: int| 0 <= m < sp_num(n).len() ==> is_digit_char(#[trigger] sp_num(n)[m]),
        digits_val(sp_num(n)) == n,
    decreases n,
{
    if n < 10 {
        lemma_digit_char_val(n);
        assert(sp_num(n) == seq![sp_digit_char(n)]);
        assert(sp_num(n).skip(1) =~= Seq::<char>::empty());
        assert(pow10(0) == 1);
        assert(digits_val(Seq::<char>::empty()) == 0);
        assert(digits_val(sp_num(n)) == digit_val(sp_digit_char(n)) * pow10(0) + 0);
    } else {
        lemma_sp_num_digits(n / 10);
        lemma_digit_char_val(n % 10);
        let head = sp_num(n / 10);
        let x = sp_digit_char(n % 10);
        assert(sp_num(n) == head + seq![x]);
        assert(head + seq![x] =~= head.push(x));
        lemma_digits_val_snoc(head, x);
        assert(digits_val(sp_num(n)) == digits_val(head) * 10 + digit_val(x));
        assert(n == 10 * (n / 10) + n % 10);
    }
}

/// Appending one digit multiplies a digit sequence's value by ten and adds
/// the digit.
proof fn lemma_digits_val_snoc(d: Seq<char>, x: char)
    requires
        forall|m: int| 0 <= m < d.len() ==> is_digit_char(#[trigger] d[m]),
        is_digit_char(x),
    ensures
        digits_val(d.push(x)) == digits_val(d) * 10 + digit_val(x),
    decreases d.len(),
{
    if d.len() == 0 {
        assert(d.push(x)[0] == x);
        assert(d.push(x).skip(1) =~= Seq::<char>::empty());
        assert(pow10(0) == 1);
        assert(digits_val(Seq::<char>::empty()) == 0);
        assert(digits_val(d.push(x)) == digit_val(x) * pow10(0) + 0);
    } else {
        assert(d.push(x).skip(1) =~= d.skip(1).push(x));
        lemma_digits_val_snoc(d.skip(1), x);
        let p1 = pow10((d.len() - 1) as nat);
        let dv0 = digit_val(d[0]);
        assert(d.push(x)[0] == d[0]);
        assert(pow10(d.len() as nat) == 10 * p1);
        assert(digits_val(d.push(x)) == dv0 * pow10(d.len() as nat) + digits_val(d.skip(1).push(
            x,
        )));
        assert(dv0 * (10 * p1) == (dv0 * p1) * 10) by (nonlinear_arith);
        assert(digits_val(d.push(x)) == (dv0 * p1) * 10 + digits_val(d.skip(1)) * 10 + digit_val(
            x,
        ));
        assert((dv0 * p1) * 10 + digits_val(d.skip(1)) * 10 == (dv0 * p1 + digits_val(d.skip(1)))
            * 10) by (nonlinear_arith);
    }
}

/// Parsing a run of digit characters accumulates their value onto `a` in
/// decimal, stopping exactly at the first non-digit.
proof fn lemma_number_tail_round_trip(s: Seq<char>, i: int, a: nat, d: Seq<char>)
    requires
        0 <= i,
        i + d.len() <= s.len(),
        s.subrange(i, i + d.len()) == d,
        forall|m: int| 0 <= m < d.len() ==> is_digit_char(#[trigger] d[m]),
        i + d.len() == s.len() || !is_digit_char(s[i + d.len()]),
        a * pow10(d.len() as nat) + digits_val(d) <= u64::MAX,
    ensures
        sp_number_tail(s, i, a) == Some(
            ((a * pow10(d.len() as nat) + digits_val(d)) as u64, i + d.len()),
        ),
    decreases d.len(),
{
    if d.len() == 0 {
        assert(i + d.len() == i);
        assert(pow10(d.len() as nat) == 1);
        assert(digits_val(d) == 0);
        assert(a * pow10(d.len() as nat) + digits_val(d) == a * 1 + 0);
    } else {
        lemma_char_at(s, i, d, 0);
        let dv0 = digit_val(d[0]);
        let x = a * 10 + dv0;
        let p1 = pow10((d.len() - 1) as nat);
        lemma_pow10_pos((d.len() - 1) as nat);
        assert(pow10(d.len() as nat) == 10 * p1);
        assert(digits_val(d) == dv0 * p1 + digits_val(d.skip(1)));
        assert(a * (10 * p1) == (a * 10) * p1) by (nonlinear_arith);
        assert((a * 10) * p1 + dv0 * p1 == (a * 10 + dv0) * p1) by (nonlinear_arith);
        assert(x * p1 + digits_val(d.skip(1)) == a * pow10(d.len() as nat) + digits_val(d));
        assert(x <= x * p1) by (nonlinear_arith)
            requires
                p1 >= 1,
                x >= 0,
        ;
        assert(x <= u64::MAX);
        assert(d =~= seq![d[0]] + d.skip(1));
        lemma_subrange_split(s, i, seq![d[0]], d.skip(1));
        lemma_number_tail_round_trip(s, i + 1, x as nat, d.skip(1));
    }
}

/// The canonical decimal digits of `n` standing at `i`, followed by a
/// non-digit (or the end of input), parse back to exactly `n`.
pub proof fn lemma_num_round_trip(s: Seq<char>, i: int, n: u64)
    requires
        0 <= i,
        i + sp_num(n as int).len() <= s.len(),
        s.subrange(i, i + sp_num(n as int).len()) == sp_num(n as int),
        i + sp_num(n as int).len() == s.len() || !is_digit_char(s[i + sp_num(n as int).len()]),
    ensures
        sp_number(s, i) == Some((n, i + sp_num(n as int).len())),
{
    lemma_sp_num_digits(n as int);
    lemma_char_at(s, i, sp_num(n as int), 0);
    lemma_number_tail_round_trip(s, i, 0, sp_num(n as int));
}

// ---------------------------------------------------------------------
// Specification-level parsers
// ---------------------------------------------------------------------

/// The first position at or after `i` holding a non-whitespace character
/// (or the end of input).
pub open spec fn sp_ws(s: Seq<char>, i: int) -> int
    decreases s.len() - i,
{
    if 0 <= i < s.len() && is_ws_char(s[i]) {
        sp_ws(s, i + 1)
    } else {
        i
    }
}

/// Parses the remainder of a string literal whose opening quote stands
/// just before `i`, accumulating the unescaped characters onto `acc`:
/// yields the content and the position after the closing quote.
pub open spec fn sp_string_tail(s: Seq<char>, i: int, acc: Seq<char>) -> Option<(Seq<char>, int)>
    decreases s.len() - i,
{
    if i < 0 || i >= s.len() {
        None
    } else if s[i] == '"' {
        Some((acc, i + 1))
    } else if s[i] == '\\' {
        if i + 1 >= s.len() {
            None
        } else {
            let e = s[i + 1];
            if e == '"' {
                sp_string_tail(s, i + 2, acc.push('"'))
            } else if e == '\\' {
                sp_string_tail(s, i + 2, acc.push('\\'))
            } else if e == '/' {
                sp_string_tail(s, i + 2, acc.push('/'))
            } else if e == 'n' {
                sp_string_tail(s, i + 2, acc.push('\n'))
            } else if e == 't' {
                sp_string_tail(s, i + 2, acc.push('\t'))
            } else if e == 'r' {
                sp_string_tail(s, i + 2, acc.push('\r'))
            } else if e == 'b' {
                sp_string_tail(s, i + 2, acc.push('\u{0008}'))
            } else if e == 'f' {
                sp_string_tail(s, i + 2, acc.push('\u{000C}'))
            } else if e == 'u' {
                if i + 6 > s.len() {
                    None
                } else if is_hex_digit(s[i + 2]) && is_hex_digit(s[i + 3]) && is_hex_digit(
                    s[i + 4],
                ) && is_hex_digit(s[i + 5]) {
                    let v = hex_val(s[i + 2]) * 4096 + hex_val(s[i + 3]) * 256 + hex_val(
                        s[i + 4],
                    ) * 16 + hex_val(s[i + 5]);
                    if 0xD800 <= v < 0xE000 {
                        None
                    } else {
                        sp_string_tail(s, i + 6, acc.push(char_with_code(v)))
                    }
                } else {
                    None
                }
            } else {
                None
            }
        }
    } else {
        sp_string_tail(s, i + 1, acc.push(s[i]))
    }
}

/// Parses a string literal starting at `i` (which must hold `"`).
pub open spec fn sp_string(s: Seq<char>, i: int) -> Option<(Seq<char>, int)> {
    if 0 <= i < s.len() && s[i] == '"' {
        sp_string_tail(s, i + 1, Seq::empty())
    } else {
        None
    }
}

/// Parses the remaining digits of an unsigned decimal number, `acc` being
/// the value read so far; fails on `u64` overflow.
pub open spec fn sp_number_tail(s: Seq<char>, i: int, acc: nat) -> Option<(u64, int)>
    decreases s.len() - i,
{
    if 0 <= i < s.len() && is_digit_char(s[i]) {
        let x = acc * 10 + digit_val(s[i]);
        if x > u64::MAX {
            None
        } else {
            sp_number_tail(s, i + 1, x as nat)
        }
    } else {
        Some((acc as u64, i))
    }
}

/// Parses an unsigned decimal number starting at `i` (at least one digit).
pub open spec fn sp_number(s: Seq<char>, i: int) -> Option<(u64, int)> {
    if 0 <= i < s.len() && is_digit_char(s[i]) {
        sp_number_tail(s, i, 0)
    } else {
        None
    }
}

/// Scans to the end of a bracketed value whose opener has been consumed:
/// `depth` open brackets are pending; `in_str`/`esc` say whether the scan
/// stands inside a string literal or right after a backslash. Yields the
/// position after the bracket that closes the value.
pub open spec fn sp_scan(s: Seq<char>, i: int, depth: nat, in_str: bool, esc: bool) -> Option<int>
    decreases s.len() - i,
{
    if i < 0 || i >= s.len() {
        None
    } else {
        let c = s[i];
        if esc {
            sp_scan(s, i + 1, depth, in_str, false)
        } else if in_str {
            if c == '\\' {
                sp_scan(s, i + 1, depth, true, true)
            } else if c == '"' {
                sp_scan(s, i + 1, depth, false, false)
            } else {
                sp_scan(s, i + 1, depth, true, false)
            }
        } else if c == '"' {
            sp_scan(s, i + 1, depth, true, false)
        } else if c == '{' || c == '[' {
            sp_scan(s, i + 1, depth + 1, false, false)
        } else if c == '}' || c == ']' {
            if depth <= 1 {
                Some(i + 1)
            } else {
                sp_scan(s, i + 1, (depth - 1) as nat, false, false)
            }
        } else {
            sp_scan(s, i + 1, depth, false, false)
        }
    }
}

/// True when the four characters of `lit` stand at `i` in `s`.
pub open spec fn sp_lit_at(s: Seq<char>, i: int, lit: Seq<char>) -> bool {
    0 <= i && i + lit.len() <= s.len() && s.subrange(i, i + lit.len()) == lit
}

/// Skips exactly one value (of any supported shape) starting at or after
/// `i`: yields the position just past it.
pub open spec fn sp_skip_value(s: Seq<char>, i: int) -> Option<int> {
    let j = sp_ws(s, i);
    if j >= s.len() {
        None
    } else {
        let c = s[j];
        if c == '"' {
            match sp_string(s, j) {
                Some((_content, e)) => Some(e),
                None => None,
            }
        } else if is_digit_char(c) {
            match sp_number(s, j) {
                Some((_n, e)) => Some(e),
                None => None,
            }
        } else if c == 't' {
            if sp_lit_at(s, j, "true"@) {
                Some(j + 4)
            } else {
                None
            }
        } else if c == 'f' {
            if sp_lit_at(s, j, "false"@) {
                Some(j + 5)
            } else {
                None
            }
        } else if c == 'n' {
            if sp_lit_at(s, j, "null"@) {
                Some(j + 4)
            } else {
                None
            }
        } else if c == '{' || c == '[' {
            sp_scan(s, j + 1, 1, false, false)
        } else {
            None
        }
    }
}

/// Parses the items of a non-empty array of strings, the first item
/// starting at `i`; yields the contents and the position after `]`.
pub open spec fn sp_str_items(s: Seq<char>, i: int, acc: Seq<Seq<char>>, fuel: nat) -> Option<
    (Seq<Seq<char>>, int),
>
    decreases fuel,
{
    if fuel == 0 {
        None
    } else {
        match sp_string(s, i) {
            None => None,
            Some((item, e)) => {
                let j = sp_ws(s, e);
                if j < s.len() && s[j] == ',' {
                    sp_str_items(s, sp_ws(s, j + 1), acc.push(item), (fuel - 1) as nat)
                } else if j < s.len() && s[j] == ']' {
                    Some((acc.push(item), j + 1))
                } else {
                    None
                }
            },
        }
    }
}

/// Parses an array of strings starting at or after `i`.
pub open spec fn sp_str_array(s: Seq<char>, i: int) -> Option<(Seq<Seq<char>>, int)> {
    let j = sp_ws(s, i);
    if j < s.len() && s[j] == '[' {
        let k = sp_ws(s, j + 1);
        if k < s.len() && s[k] == ']' {
            Some((Seq::empty(), k + 1))
        } else {
            sp_str_items(s, k, Seq::empty(), s.len() as nat)
        }
    } else {
        None
    }
}

// ---------------------------------------------------------------------
// Executable mirrors
// ---------------------------------------------------------------------

/// Skips insignificant whitespace.
pub(crate) fn ws(s: &Vec<char>, i: usize) -> (r: usize)
    requires
        i <= s@.len(),
    ensures
        r as int == sp_ws(s@, i as int),
        i <= r <= s@.len(),
    decreases s@.len() - i,
{
    if i < s.len() {
        let c = s[i];
        if c == ' ' || c == '\t' || c == '\n' || c == '\r' {
            return ws(s, i + 1);
        }
    }
    i
}

/// The value of one hexadecimal digit, if the character is one.
pub(crate) fn hex_digit_val(c: char) -> (r: Option<u32>)
    ensures
        r is Some <==> is_hex_digit(c),
        r is Some ==> r->Some_0 == hex_val(c) && r->Some_0 <= 15,
{
    let cu = c as u32;
    if 48 <= cu && cu <= 57 {
        Some(cu - 48)
    } else if 97 <= cu && cu <= 102 {
        Some(cu - 87)
    } else if 65 <= cu && cu <= 70 {
        Some(cu - 55)
    } else {
        None
    }
}

/// Parses the remainder of a string literal; `acc` holds the content read
/// so far.
pub(crate) fn string_tail(s: &Vec<char>, i: usize, acc: Vec<char>) -> (r: Option<(Vec<char>, usize)>)
    requires
        i <= s@.len(),
    ensures
        ({
            let sp = sp_string_tail(s@, i as int, acc@);
            match r {
                Some((cs, j)) => sp == Some((cs@, j as int)) && i <= j <= s@.len(),
                None => sp is None,
            }
        }),
    decreases s@.len() - i,
{
    if i >= s.len() {
        return None;
    }
    let c = s[i];
    if c == '"' {
        Some((acc, i + 1))
    } else if c == '\\' {
        if i + 1 >= s.len() {
            return None;
        }
        let e = s[i + 1];
        let mut acc = acc;
        if e == '"' {
            acc.push('"');
        } else if e == '\\' {
            acc.push('\\');
        } else if e == '/' {
            acc.push('/');
        } else if e == 'n' {
            acc.push('\n');
        } else if e == 't' {
            acc.push('\t');
        } else if e == 'r' {
            acc.push('\r');
        } else if e == 'b' {
            acc.push('\u{0008}');
        } else if e == 'f' {
            acc.push('\u{000C}');
        } else if e == 'u' {
            if s.len() - i < 6 {
                return None;
            }
            let v1 = match hex_digit_val(s[i + 2]) {
                Some(v) => v,
                None => {
                    return None;
                },
            };
            let v2 = match hex_digit_val(s[i + 3]) {
                Some(v) => v,
                None => {
                    return None;
                },
            };
            let v3 = match hex_digit_val(s[i + 4]) {
                Some(v) => v,
                None => {
                    return None;
                },
            };
            let v4 = match hex_digit_val(s[i + 5]) {
                Some(v) => v,
                None => {
                    return None;
                },
            };
            let v: u32 = v1 * 4096 + v2 * 256 + v3 * 16 + v4;
            if 0xD800 <= v && v < 0xE000 {
                return None;
            }
            let ch = char_from_code(v).unwrap();
            proof {
                assert(ch as u32 == v);
                vstd::utf8::char_u32_cast(ch, v);
                assert(char_with_code(v as int) == ch);
            }
            acc.push(ch);
            return string_tail(s, i + 6, acc);
        } else {
            return None;
        }
        string_tail(s, i + 2, acc)
    } else {
        let mut acc = acc;
        acc.push(c);
        string_tail(s, i + 1, acc)
    }
}

/// Parses a string literal starting at `i`.
pub(crate) fn string_at(s: &Vec<char>, i: usize) -> (r: Option<(Vec<char>, usize)>)
    requires
        i <= s@.len(),
    ensures
        ({
            let sp = sp_string(s@, i as int);
            match r {
                Some((cs, j)) => sp == Some((cs@, j as int)) && i <= j <= s@.len(),
                None => sp is None,
            }
        }),
{
    if i < s.len() && s[i] == '"' {
        string_tail(s, i + 1, Vec::new())
    } else {
        None
    }
}

/// Parses the remaining digits of a number; `acc` is the value read so far.
pub(crate) fn number_tail(s: &Vec<char>, i: usize, acc: u64) -> (r: Option<(u64, usize)>)
    requires
        i <= s@.len(),
    ensures
        ({
            let sp = sp_number_tail(s@, i as int, acc as nat);
            match r {
                Some((n, j)) => sp == Some((n, j as int)) && i <= j <= s@.len(),
                None => sp is None,
            }
        }),
    decreases s@.len() - i,
{
    if i < s.len() {
        let c = s[i];
        let cu = c as u32;
        if 48 <= cu && cu <= 57 {
            let d = (cu - 48) as u64;
            return match acc.checked_mul(10) {
                None => None,
                Some(m) => match m.checked_add(d) {
                    None => None,
                    Some(x) => number_tail(s, i + 1, x),
                },
            };
        }
    }
    Some((acc, i))
}

/// Parses an unsigned decimal number starting at `i`.
pub(crate) fn number_at(s: &Vec<char>, i: usize) -> (r: Option<(u64, usize)>)
    requires
        i <= s@.len(),
    ensures
        ({
            let sp = sp_number(s@, i as int);
            match r {
                Some((n, j)) => sp == Some((n, j as int)) && i <= j <= s@.len(),
                None => sp is None,
            }
        }),
{
    if i < s.len() {
        let cu = s[i] as u32;
        if 48 <= cu && cu <= 57 {
            return number_tail(s, i, 0);
        }
    }
    None
}

/// Appends the characters of a literal piece of text.
pub(crate) fn append_lit(out: &mut Vec<char>, lit: &str)
    ensures
        final(out)@ == old(out)@ + lit@,
{
    let mut v = str_chars(lit);
    out.append(&mut v);
}

/// The quoted, escaped form of a string.
pub(crate) fn quote_chars(s: &str) -> (r: Vec<char>)
    ensures
        r@ == sp_quote(s@),
{
    let cs = str_chars(s);
    let mut out: Vec<char> = Vec::new();
    out.push('"');
    proof {
        assert(sp_escape(cs@.subrange(0, 0)) =~= Seq::<char>::empty());
        assert(out@ =~= seq!['"'] + sp_escape(cs@.subrange(0, 0)));
    }
    let mut i: usize = 0;
    while i < cs.len()
        invariant
            i <= cs@.len(),
            out@ == seq!['"'] + sp_escape(cs@.subrange(0, i as int)),
        decreases cs@.len() - i,
    {
        let c = cs[i];
        let ghost prefix = cs@.subrange(0, i as int);
        if c == '"' {
            out.push('\\');
            out.push('"');
        } else if c == '\\' {
            out.push('\\');
            out.push('\\');
        } else if c == '\n' {
            out.push('\\');
            out.push('n');
        } else if c == '\t' {
            out.push('\\');
            out.push('t');
        } else if c == '\r' {
            out.push('\\');
            out.push('r');
        } else {
            let cu = c as u32;
            if cu < 32 {
                out.push('\\');
                out.push('u');
                out.push('0');
                out.push('0');
                out.push(hex_char(cu / 16));
                out.push(hex_char(cu % 16));
            } else {
                out.push(c);
            }
        }
        proof {
            lemma_sp_escape_push(prefix, c);
            assert(prefix.push(c) =~= cs@.subrange(0, i + 1));
            assert(out@ =~= seq!['"'] + sp_escape(cs@.subrange(0, i + 1)));
        }
        i = i + 1;
    }
    out.push('"');
    proof {
        assert(cs@.subrange(0, cs@.len() as int) =~= cs@);
        assert(out@ =~= sp_quote(s@));
    }
    out
}

/// The character of one decimal digit value.
pub(crate) fn digit_char(d: u64) -> (r: char)
    requires
        d < 10,
    ensures
        r == sp_digit_char(d as int),
{
    if d == 0 {
        '0'
    } else if d == 1 {
        '1'
    } else if d == 2 {
        '2'
    } else if d == 3 {
        '3'
    } else if d == 4 {
        '4'
    } else if d == 5 {
        '5'
    } else if d == 6 {
        '6'
    } else if d == 7 {
        '7'
    } else if d == 8 {
        '8'
    } else {
        '9'
    }
}

/// The decimal digits of a number, most significant first.
pub(crate) fn num_chars(n: u64) -> (r: Vec<char>)
    ensures
        r@ == sp_num(n as int),
    decreases n,
{
    let d = digit_char(n % 10);
    if n < 10 {
        let mut out: Vec<char> = Vec::new();
        out.push(d);
        proof {
            assert(out@ =~= seq![sp_digit_char(n as int)]);
        }
        out
    } else {
        let mut out = num_chars(n / 10);
        out.push(d);
        proof {
            assert(out@ =~= sp_num(n as int / 10) + seq![sp_digit_char(n as int % 10)]);
        }
        out
    }
}

/// The lower-case character of one hexadecimal digit value.
pub(crate) fn hex_char(d: u32) -> (r: char)
    requires
        d < 16,
    ensures
        r == sp_hex_char(d as int),
{
    if d == 0 {
        '0'
    } else if d == 1 {
        '1'
    } else if d == 2 {
        '2'
    } else if d == 3 {
        '3'
    } else if d == 4 {
        '4'
    } else if d == 5 {
        '5'
    } else if d == 6 {
        '6'
    } else if d == 7 {
        '7'
    } else if d == 8 {
        '8'
    } else if d == 9 {
        '9'
    } else if d == 10 {
        'a'
    } else if d == 11 {
        'b'
    } else if d == 12 {
        'c'
    } else if d == 13 {
        'd'
    } else if d == 14 {
        'e'
    } else {
        'f'
    }
}

/// True when the characters of `lit` stand at `i` in `s`.
pub(crate) fn lit_at(s: &Vec<char>, i: usize, lit: &str) -> (r: bool)
    requires
        i <= s@.len(),
    ensures
        r == sp_lit_at(s@, i as int, lit@),
{
    let n = lit.unicode_len();
    if s.len() - i < n {
        return false;
    }
    let mut k: usize = 0;
    while k < n
        invariant
            i + n <= s@.len(),
            s@.len() <= usize::MAX,
            n == lit@.len(),
            k <= n,
            i <= s@.len(),
            forall|m: int| 0 <= m < k ==> s@[i + m] == lit@[m],
        decreases n - k,
    {
        if s[i + k] != lit.get_char(k) {
            proof {
                assert(sp_lit_at(s@, i as int, lit@) ==> s@.subrange(
                    i as int,
                    i + lit@.len(),
                )[k as int] == lit@[k as int]);
            }
            return false;
        }
        k = k + 1;
    }
    proof {
        assert(s@.subrange(i as int, i + lit@.len()) =~= lit@);
    }
    true
}

/// True when the parsed key `key` is the field name `lit`.
pub(crate) fn key_is(key: &Vec<char>, lit: &str) -> (r: bool)
    ensures
        r == (key@ == lit@),
{
    let n = lit.unicode_len();
    if key.len() != n {
        return false;
    }
    let mut k: usize = 0;
    while k < n
        invariant
            n == lit@.len(),
            n == key@.len(),
            k <= n,
            forall|m: int| 0 <= m < k ==> key@[m] == lit@[m],
        decreases n - k,
    {
        if key[k] != lit.get_char(k) {
            return false;
        }
        k = k + 1;
    }
    proof {
        assert(key@ =~= lit@);
    }
    true
}

/// Scans to the end of a bracketed value whose opener has been consumed.
pub(crate) fn scan(s: &Vec<char>, i: usize, depth: usize, in_str: bool, esc: bool) -> (r: Option<
    usize,
>)
    requires
        i <= s@.len(),
    ensures
        ({
            let sp = sp_scan(s@, i as int, depth as nat, in_str, esc);
            match r {
                Some(j) => sp == Some(j as int) && i <= j <= s@.len(),
                None => sp is None,
            }
        }),
    decreases s@.len() - i,
{
    if i >= s.len() {
        return None;
    }
    let c = s[i];
    if esc {
        scan(s, i + 1, depth, in_str, false)
    } else if in_str {
        if c == '\\' {
            scan(s, i + 1, depth, true, true)
        } else if c == '"' {
            scan(s, i + 1, depth, false, false)
        } else {
            scan(s, i + 1, depth, true, false)
        }
    } else if c == '"' {
        scan(s, i + 1, depth, true, false)
    } else if c == '{' || c == '[' {
        if depth == usize::MAX {
            // A nesting this deep cannot occur: it would need more open
            // brackets than the input holds characters.
            proof {
                lemma_sp_scan_depth_bound(s@, i + 1, depth as nat + 1, false, false);
            }
            return None;
        }
        scan(s, i + 1, depth + 1, false, false)
    } else if c == '}' || c == ']' {
        if depth <= 1 {
            Some(i + 1)
        } else {
            scan(s, i + 1, depth - 1, false, false)
        }
    } else {
        scan(s, i + 1, depth, false, false)
    }
}

/// A scan that still has more pending brackets than remaining characters
/// can never succeed.
proof fn lemma_sp_scan_depth_bound(s: Seq<char>, i: int, depth: nat, in_str: bool, esc: bool)
    requires
        depth > s.len() - i,
    ensures
        sp_scan(s, i, depth, in_str, esc) is None,
    decreases s.len() - i,
{
    if 0 <= i < s.len() {
        let c = s[i];
        if esc {
            lemma_sp_scan_depth_bound(s, i + 1, depth, in_str, false);
        } else if in_str {
            if c == '\\' {
                lemma_sp_scan_depth_bound(s, i + 1, depth, true, true);
            } else if c == '"' {
                lemma_sp_scan_depth_bound(s, i + 1, depth, false, false);
            } else {
                lemma_sp_scan_depth_bound(s, i + 1, depth, true, false);
            }
        } else if c == '"' {
            lemma_sp_scan_depth_bound(s, i + 1, depth, true, false);
        } else if c == '{' || c == '[' {
            lemma_sp_scan_depth_bound(s, i + 1, depth + 1, false, false);
        } else if c == '}' || c == ']' {
            if depth <= 1 {
            } else {
                lemma_sp_scan_depth_bound(s, i + 1, (depth - 1) as nat, false, false);
            }
        } else {
            lemma_sp_scan_depth_bound(s, i + 1, depth, false, false);
        }
    }
}

/// Skips exactly one value starting at or after `i`.
pub(crate) fn skip_value(s: &Vec<char>, i: usize) -> (r: Option<usize>)
    requires
        i <= s@.len(),
    ensures
        ({
            let sp = sp_skip_value(s@, i as int);
            match r {
                Some(j) => sp == Some(j as int) && i <= j <= s@.len(),
                None => sp is None,
            }
        }),
{
    let j = ws(s, i);
    if j >= s.len() {
        return None;
    }
    let c = s[j];
    let cu = c as u32;
    if c == '"' {
        match string_at(s, j) {
            Some((_content, e)) => Some(e),
            None => None,
        }
    } else if 48 <= cu && cu <= 57 {
        match number_at(s, j) {
            Some((_n, e)) => Some(e),
            None => None,
        }
    } else if c == 't' {
        if lit_at(s, j, "true") {
            proof {
                reveal_strlit("true");
            }
            Some(j + 4)
        } else {
            None
        }
    } else if c == 'f' {
        if lit_at(s, j, "false") {
            proof {
                reveal_strlit("false");
            }
            Some(j + 5)
        } else {
            None
        }
    } else if c == 'n' {
        if lit_at(s, j, "null") {
            proof {
                reveal_strlit("null");
            }
            Some(j + 4)
        } else {
            None
        }
    } else if c == '{' || c == '[' {
        scan(s, j + 1, 1, false, false)
    } else {
        None
    }
}

/// Parses the items of a non-empty array of strings.
pub(crate) fn str_items(s: &Vec<char>, i: usize, acc: Vec<Vec<char>>, fuel: usize) -> (r: Option<
    (Vec<Vec<char>>, usize),
>)
    requires
        i <= s@.len(),
    ensures
        ({
            let sp = sp_str_items(s@, i as int, acc.deep_view(), fuel as nat);
            match r {
                Some((items, j)) => sp == Some((items.deep_view(), j as int)) && i <= j
                    <= s@.len(),
                None => sp is None,
            }
        }),
    decreases fuel,
{
    if fuel == 0 {
        return None;
    }
    match string_at(s, i) {
        None => None,
        Some((item, e)) => {
            let j = ws(s, e);
            if j < s.len() && s[j] == ',' {
                let mut acc = acc;
                let ghost old_acc = acc.deep_view();
                acc.push(item);
                proof {
                    assert(acc.deep_view() =~~= old_acc.push(
                        sp_string(s@, i as int)->Some_0.0,
                    ));
                }
                let k = ws(s, j + 1);
                str_items(s, k, acc, fuel - 1)
            } else if j < s.len() && s[j] == ']' {
                let mut acc = acc;
                let ghost old_acc = acc.deep_view();
                acc.push(item);
                proof {
                    assert(acc.deep_view() =~~= old_acc.push(
                        sp_string(s@, i as int)->Some_0.0,
                    ));
                }
                Some((acc, j + 1))
            } else {
                None
            }
        },
    }
}

/// Parses an array of strings starting at or after `i`.
pub(crate) fn str_array(s: &Vec<char>, i: usize) -> (r: Option<(Vec<Vec<char>>, usize)>)
    requires
        i <= s@.len(),
    ensures
        ({
            let sp = sp_str_array(s@, i as int);
            match r {
                Some((items, j)) => sp == Some((items.deep_view(), j as int)) && i <= j
                    <= s@.len(),
                None => sp is None,
            }
        }),
{
    let j = ws(s, i);
    if j < s.len() && s[j] == '[' {
        let k = ws(s, j + 1);
        let empty: Vec<Vec<char>> = Vec::new();
        proof {
            assert(empty.deep_view() =~~= Seq::<Seq<char>>::empty());
        }
        if k < s.len() && s[k] == ']' {
            Some((empty, k + 1))
        } else {
            str_items(s, k, empty, s.len())
        }
    } else {
        None
    }
}

} // verus!
