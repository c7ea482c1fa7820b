//! The JSON text layer: a printer and a parser for the artifact's wire
//! format, as mathematical functions on character sequences.
//!
//! The printer emits one canonical text for a value; the parser reads that
//! text back, and is more permissive: it skips whitespace between tokens and
//! accepts the common string escapes. Parsed values are generic: every JSON
//! object comes back as a dictionary, and the schema layer decides which
//! dictionaries stand for classifiers.

use vstd::prelude::*;
use crate::values::SpecVal;

verus! {

/// JSON whitespace.
pub open spec fn is_ws(c: char) -> bool {
    c == ' ' || c == '\t' || c == '\n' || c == '\r'
}

/// The value of a decimal digit character; -1 for any other character.
pub open spec fn digit_val(c: char) -> int {
    if c == '0' {
        0
    } else if c == '1' {
        1
    } else if c == '2' {
        2
    } else if c == '3' {
        3
    } else if c == '4' {
        4
    } else if c == '5' {
        5
    } else if c == '6' {
        6
    } else if c == '7' {
        7
    } else if c == '8' {
        8
    } else if c == '9' {
        9
    } else {
        -1
    }
}

pub open spec fn is_digit(c: char) -> bool {
    digit_val(c) >= 0
}

/// The character of a decimal digit value.
pub open spec fn digit_char(d: int) -> char {
    if d == 0 {
        '0'
    } else if d == 1 {
        '1'
    } else if d == 2 {
        '2'
    } else if d == 3 {
        '3'
    } else if d == 4 {
        '4'
    } else if d == 5 {
        '5'
    } else if d == 6 {
        '6'
    } else if d == 7 {
        '7'
    } else if d == 8 {
        '8'
    } else {
        '9'
    }
}

/// The value of a hexadecimal digit character; -1 for any other character.
pub open spec fn hex_val(c: char) -> int {
    if is_digit(c) {
        digit_val(c)
    } else if c == 'a' || c == 'A' {
        10
    } else if c == 'b' || c == 'B' {
        11
    } else if c == 'c' || c == 'C' {
        12
    } else if c == 'd' || c == 'D' {
        13
    } else if c == 'e' || c == 'E' {
        14
    } else if c == 'f' || c == 'F' {
        15
    } else {
        -1
    }
}

/// A character the printer may emit raw inside a string: every code point
/// from space upward. Control characters are excluded.
pub open spec fn char_printable(c: char) -> bool {
    c as u32 >= 0x20
}

/// A string of printable characters only.
pub open spec fn str_printable(s: Seq<char>) -> bool {
    forall|i: int| 0 <= i < s.len() ==> char_printable(#[trigger] s[i])
}

/// Ten to the `k`.
pub open spec fn pow10(k: nat) -> nat
    decreases k,
{
    if k == 0 {
        1
    } else {
        10 * pow10((k - 1) as nat)
    }
}

/// The width of `u` in decimal digits.
pub open spec fn ndigits(u: nat) -> nat
    decreases u,
{
    if u < 10 {
        1
    } else {
        1 + ndigits(u / 10)
    }
}

/// The `k` low decimal digits of `u`, zero padded to width `k`.
pub open spec fn digits_w(u: nat, k: nat) -> Seq<char>
    decreases k,
{
    if k == 0 {
        Seq::empty()
    } else {
        digits_w(u / 10, (k - 1) as nat).push(digit_char((u % 10) as int))
    }
}

/// The canonical text of an unsigned quantity: its digits, no leading zero.
pub open spec fn print_uint(u: nat) -> Seq<char> {
    digits_w(u, ndigits(u))
}

/// The canonical text of an unsigned count of millionths: whole units, then
/// a point and exactly six fraction digits when the fraction is not zero.
pub open spec fn print_mag(m: nat) -> Seq<char> {
    if m % 1000000 == 0 {
        print_uint(m / 1000000)
    } else {
        print_uint(m / 1000000) + seq!['.'] + digits_w(m % 1000000, 6)
    }
}

/// The canonical text of a number held as millionths.
pub open spec fn print_number(n: int) -> Seq<char> {
    if n < 0 {
        seq!['-'] + print_mag((-n) as nat)
    } else {
        print_mag(n as nat)
    }
}

/// The escape of one string character: quote and backslash are escaped,
/// anything else is emitted raw.
pub open spec fn esc_char(c: char) -> Seq<char> {
    if c == '"' {
        seq!['\\', '"']
    } else if c == '\\' {
        seq!['\\', '\\']
    } else {
        seq![c]
    }
}

/// The body of a string literal, character by character.
pub open spec fn print_str_body(s: Seq<char>) -> Seq<char>
    decreases s.len(),
{
    if s.len() == 0 {
        Seq::empty()
    } else {
        esc_char(s[0]) + print_str_body(s.drop_first())
    }
}

/// A quoted, escaped string literal.
pub open spec fn print_string(s: Seq<char>) -> Seq<char> {
    seq!['"'] + print_str_body(s) + seq!['"']
}

/// The canonical text of a generic value. A nested classifier has no
/// canonical text here: the schema layer prints its dictionary form first.
pub open spec fn print_json(v: SpecVal) -> Seq<char>
    decreases v,
{
    match v {
        SpecVal::Str(s) => print_string(s),
        SpecVal::Num(n) => print_number(n),
        SpecVal::Bool(b) => if b {
            seq!['t', 'r', 'u', 'e']
        } else {
            seq!['f', 'a', 'l', 's', 'e']
        },
        SpecVal::Null => seq!['n', 'u', 'l', 'l'],
        SpecVal::Arr(items) => seq!['['] + print_items(items) + seq![']'],
        SpecVal::Dict(entries) => seq!['{'] + print_members(entries) + seq!['}'],
        SpecVal::Expr(_) => Seq::empty(),
    }
}

/// Array elements, comma separated.
pub open spec fn print_items(items: Seq<SpecVal>) -> Seq<char>
    decreases items,
{
    if items.len() == 0 {
        Seq::empty()
    } else if items.len() == 1 {
        print_json(items[0])
    } else {
        print_json(items[0]) + seq![','] + print_items(items.drop_first())
    }
}

/// Object members, comma separated, each a quoted key, a colon and a value.
pub open spec fn print_members(entries: Seq<(Seq<char>, SpecVal)>) -> Seq<char>
    decreases entries,
{
    if entries.len() == 0 {
        Seq::empty()
    } else if entries.len() == 1 {
        print_string(entries[0].0) + seq![':'] + print_json(entries[0].1)
    } else {
        print_string(entries[0].0) + seq![':'] + print_json(entries[0].1) + seq![',']
            + print_members(entries.drop_first())
    }
}

/// A value the printer can emit and the parser will read back: it is
/// generic (no nested classifier), its strings hold printable characters
/// only, and its numbers lie in the machine range.
pub open spec fn printable(v: SpecVal) -> bool
    decreases v,
{
    match v {
        SpecVal::Str(s) => str_printable(s),
        SpecVal::Num(n) => -0x8000_0000_0000_0000 <= n <= 0x7fff_ffff_ffff_ffff,
        SpecVal::Bool(_) => true,
        SpecVal::Null => true,
        SpecVal::Arr(items) => forall|i: int|
            0 <= i < items.len() ==> printable(#[trigger] items[i]),
        SpecVal::Dict(entries) => forall|i: int|
            0 <= i < entries.len() ==> str_printable(#[trigger] entries[i].0) && printable(
                entries[i].1,
            ),
        SpecVal::Expr(_) => false,
    }
}

/// The first position at or after `i` that does not hold whitespace.
pub open spec fn spec_skip_ws(s: Seq<char>, i: int) -> int
    decreases s.len() - i,
{
    if 0 <= i < s.len() && is_ws(s[i]) {
        spec_skip_ws(s, i + 1)
    } else {
        i
    }
}

/// A maximal run of decimal digits, folded left into `acc`.
pub open spec fn run_digits(s: Seq<char>, i: int, acc: nat) -> (nat, int)
    decreases s.len() - i,
{
    if 0 <= i < s.len() && is_digit(s[i]) {
        run_digits(s, i + 1, (acc * 10 + digit_val(s[i])) as nat)
    } else {
        (acc, i)
    }
}

/// Packs a parsed magnitude into a machine-range number, or fails.
pub open spec fn num_result(neg: bool, mag: int, end: int) -> Option<(int, int)> {
    let n: int = if neg {
        -mag
    } else {
        mag
    };
    if -0x8000_0000_0000_0000 <= n <= 0x7fff_ffff_ffff_ffff {
        Option::Some((n, end))
    } else {
        Option::None
    }
}

/// Parses a number at `i`: an optional minus, whole digits, and at most six
/// fraction digits; fails on an empty digit run, a seventh fraction digit,
/// or a value outside the machine range.
pub open spec fn spec_parse_number(s: Seq<char>, i: int) -> Option<(int, int)> {
    let neg = 0 <= i < s.len() && s[i] == '-';
    let i1 = if neg {
        i + 1
    } else {
        i
    };
    if !(0 <= i1 < s.len() && is_digit(s[i1])) {
        Option::None
    } else {
        let (units, i2) = run_digits(s, i1, 0);
        if i2 < s.len() && s[i2] == '.' {
            if i2 + 1 < s.len() && is_digit(s[i2 + 1]) {
                let (fv, i3) = run_digits(s, i2 + 1, 0);
                let k = i3 - (i2 + 1);
                if 1 <= k <= 6 {
                    num_result(neg, (units * 1000000 + fv * pow10((6 - k) as nat)) as int, i3)
                } else {
                    Option::None
                }
            } else {
                Option::None
            }
        } else {
            num_result(neg, (units * 1000000) as int, i2)
        }
    }
}

/// Scans a string body from `i` to its closing quote, decoding escapes.
/// Raw control characters and unknown escapes fail; of the `\u` form, the
/// two-byte `\u00XX` codes are understood.
pub open spec fn scan_string(s: Seq<char>, i: int, acc: Seq<char>) -> Option<(Seq<char>, int)>
    decreases s.len() - i,
{
    if !(0 <= i < s.len()) {
        Option::None
    } else if s[i] == '"' {
        Option::Some((acc, i + 1))
    } else if s[i] == '\\' {
        if i + 1 < s.len() {
            let c = s[i + 1];
            if c == '"' || c == '\\' || c == '/' {
                scan_string(s, i + 2, acc.push(c))
            } else if c == 'n' {
                scan_string(s, i + 2, acc.push('\n'))
            } else if c == 't' {
                scan_string(s, i + 2, acc.push('\t'))
            } else if c == 'r' {
                scan_string(s, i + 2, acc.push('\r'))
            } else if c == 'b' {
                scan_string(s, i + 2, acc.push('\u{8}'))
            } else if c == 'f' {
                scan_string(s, i + 2, acc.push('\u{c}'))
            } else if c == 'u' {
                if i + 5 < s.len() && s[i + 2] == '0' && s[i + 3] == '0' && hex_val(s[i + 4]) >= 0
                    && hex_val(s[i + 5]) >= 0 {
                    let code = 16 * hex_val(s[i + 4]) + hex_val(s[i + 5]);
                    scan_string(s, i + 6, acc.push((code as u8) as char))
                } else {
                    Option::None
                }
            } else {
                Option::None
            }
        } else {
            Option::None
        }
    } else if char_printable(s[i]) {
        scan_string(s, i + 1, acc.push(s[i]))
    } else {
        Option::None
    }
}

/// Parses a quoted string literal at `i`.
pub open spec fn spec_parse_string(s: Seq<char>, i: int) -> Option<(Seq<char>, int)> {
    if 0 <= i < s.len() && s[i] == '"' {
        scan_string(s, i + 1, Seq::empty())
    } else {
        Option::None
    }
}

/// Whether the word `w` stands in `s` at position `i`.
pub open spec fn word_at(s: Seq<char>, i: int, w: Seq<char>) -> bool {
    0 <= i && i + w.len() <= s.len() && s.subrange(i, i + w.len()) == w
}

/// Parses one generic value at `i`, after optional whitespace: a string, a
/// number, a boolean, null, an array, or an object read as a dictionary.
pub open spec fn spec_parse_value(s: Seq<char>, i: int) -> Option<(SpecVal, int)>
    decreases s.len() - i, 1int,
{
    let j = spec_skip_ws(s, i);
    if j < i || j >= s.len() {
        Option::None
    } else if s[j] == '"' {
        match spec_parse_string(s, j) {
            Option::Some((st, e)) => Option::Some((SpecVal::Str(st), e)),
            Option::None => Option::None,
        }
    } else if s[j] == '-' || is_digit(s[j]) {
        match spec_parse_number(s, j) {
            Option::Some((n, e)) => Option::Some((SpecVal::Num(n), e)),
            Option::None => Option::None,
        }
    } else if s[j] == 't' {
        if word_at(s, j, seq!['t', 'r', 'u', 'e']) {
            Option::Some((SpecVal::Bool(true), j + 4))
        } else {
            Option::None
        }
    } else if s[j] == 'f' {
        if word_at(s, j, seq!['f', 'a', 'l', 's', 'e']) {
            Option::Some((SpecVal::Bool(false), j + 5))
        } else {
            Option::None
        }
    } else if s[j] == 'n' {
        if word_at(s, j, seq!['n', 'u', 'l', 'l']) {
            Option::Some((SpecVal::Null, j + 4))
        } else {
            Option::None
        }
    } else if s[j] == '[' {
        let k = spec_skip_ws(s, j + 1);
        if k < j + 1 || k >= s.len() {
            Option::None
        } else if s[k] == ']' {
            Option::Some((SpecVal::Arr(Seq::empty()), k + 1))
        } else {
            match spec_parse_items(s, k) {
                Option::Some((vs, e)) => Option::Some((SpecVal::Arr(vs), e)),
                Option::None => Option::None,
            }
        }
    } else if s[j] == '{' {
        let k = spec_skip_ws(s, j + 1);
        if k < j + 1 || k >= s.len() {
            Option::None
        } else if s[k] == '}' {
            Option::Some((SpecVal::Dict(Seq::empty()), k + 1))
        } else {
            match spec_parse_members(s, k) {
                Option::Some((es, e)) => Option::Some((SpecVal::Dict(es), e)),
                Option::None => Option::None,
            }
        }
    } else {
        Option::None
    }
}

/// Parses one or more comma-separated array elements and the closing
/// bracket.
pub open spec fn spec_parse_items(s: Seq<char>, i: int) -> Option<(Seq<SpecVal>, int)>
    decreases s.len() - i, 2int,
{
    match spec_parse_value(s, i) {
        Option::Some((v, j)) => if j <= i {
            Option::None
        } else {
            let k = spec_skip_ws(s, j);
            if k < j {
                Option::None
            } else if k < s.len() && s[k] == ',' {
                match spec_parse_items(s, k + 1) {
                    Option::Some((vs, e)) => Option::Some((seq![v] + vs, e)),
                    Option::None => Option::None,
                }
            } else if k < s.len() && s[k] == ']' {
                Option::Some((seq![v], k + 1))
            } else {
                Option::None
            }
        },
        Option::None => Option::None,
    }
}

/// Parses one or more comma-separated object members and the closing brace.
pub open spec fn spec_parse_members(s: Seq<char>, i: int) -> Option<
    (Seq<(Seq<char>, SpecVal)>, int),
>
    decreases s.len() - i, 2int,
{
    let i0 = spec_skip_ws(s, i);
    if i0 < i {
        Option::None
    } else {
    match spec_parse_string(s, i0) {
        Option::Some((key, j)) => if j <= i0 {
            Option::None
        } else {
            let k = spec_skip_ws(s, j);
            if k < j || !(k < s.len() && s[k] == ':') {
                Option::None
            } else {
                match spec_parse_value(s, k + 1) {
                    Option::Some((v, e)) => if e <= k {
                        Option::None
                    } else {
                        let m = spec_skip_ws(s, e);
                        if m < e {
                            Option::None
                        } else if m < s.len() && s[m] == ',' {
                            match spec_parse_members(s, m + 1) {
                                Option::Some((es, e2)) => Option::Some(
                                    (seq![(key, v)] + es, e2),
                                ),
                                Option::None => Option::None,
                            }
                        } else if m < s.len() && s[m] == '}' {
                            Option::Some((seq![(key, v)], m + 1))
                        } else {
                            Option::None
                        }
                    },
                    Option::None => Option::None,
                }
            }
        },
        Option::None => Option::None,
    }
    }
}

/// Parses a whole document: one value, with nothing but whitespace after it.
pub open spec fn spec_parse_text(s: Seq<char>) -> Option<SpecVal> {
    match spec_parse_value(s, 0) {
        Option::Some((v, j)) => if spec_skip_ws(s, j) == s.len() {
            Option::Some(v)
        } else {
            Option::None
        },
        Option::None => Option::None,
    }
}


/// Indexing into a word that stands at `i`.
pub proof fn lemma_word_at_index(s: Seq<char>, i: int, w: Seq<char>, j: int)
    requires
        word_at(s, i, w),
        0 <= j < w.len(),
    ensures
        s[i + j] == w[j],
{
    assert(s.subrange(i, i + w.len())[j] == s[i + j]);
}

/// A word made of two parts stands at `i` exactly as its parts do.
pub proof fn lemma_word_at_split(s: Seq<char>, i: int, a: Seq<char>, b: Seq<char>)
    requires
        word_at(s, i, a + b),
    ensures
        word_at(s, i, a),
        word_at(s, i + a.len(), b),
{
    assert forall|j: int| 0 <= j < a.len() implies s.subrange(i, i + a.len())[j] == a[j] by {
        assert(s.subrange(i, i + (a + b).len())[j] == (a + b)[j]);
    }
    assert(s.subrange(i, i + a.len()) =~= a);
    assert forall|j: int| 0 <= j < b.len() implies s.subrange(
        i + a.len(),
        i + a.len() + b.len(),
    )[j] == b[j] by {
        assert(s.subrange(i, i + (a + b).len())[a.len() + j] == (a + b)[a.len() + j]);
    }
    assert(s.subrange(i + a.len(), i + a.len() + b.len()) =~= b);
}

/// Skipping whitespace at a non-whitespace position stands still.
pub proof fn lemma_skip_ws_id(s: Seq<char>, i: int)
    requires
        i < 0 || i >= s.len() || !is_ws(s[i]),
    ensures
        spec_skip_ws(s, i) == i,
{
}

/// A digit run ends at a non-digit position.
pub proof fn lemma_run_digits_stop(s: Seq<char>, i: int, acc: nat)
    requires
        i >= s.len() || !is_digit(s[i]),
    ensures
        run_digits(s, i, acc) == (acc, i),
{
}

/// Width of a fixed-width digit print.
pub proof fn lemma_digits_w_len(u: nat, k: nat)
    ensures
        digits_w(u, k).len() == k,
    decreases k,
{
    if k > 0 {
        lemma_digits_w_len(u / 10, (k - 1) as nat);
    }
}

/// Every character of a fixed-width digit print is a digit.
pub proof fn lemma_digits_w_digits(u: nat, k: nat)
    ensures
        forall|j: int| 0 <= j < k ==> is_digit(#[trigger] digits_w(u, k)[j]),
    decreases k,
{
    lemma_digits_w_len(u, k);
    if k > 0 {
        lemma_digits_w_digits(u / 10, (k - 1) as nat);
        lemma_digits_w_len(u / 10, (k - 1) as nat);
        assert forall|j: int| 0 <= j < k implies is_digit(#[trigger] digits_w(u, k)[j]) by {
            if j < k - 1 {
                assert(digits_w(u, k)[j] == digits_w(u / 10, (k - 1) as nat)[j]);
            } else {
                assert(digits_w(u, k)[j] == digit_char((u % 10) as int));
            }
        }
    }
}

/// Ten to any power is positive.
pub proof fn lemma_pow10_pos(k: nat)
    ensures
        pow10(k) >= 1,
    decreases k,
{
    if k > 0 {
        lemma_pow10_pos((k - 1) as nat);
    }
}

/// A quantity is below ten to its own width.
pub proof fn lemma_ndigits_bound(u: nat)
    ensures
        u < pow10(ndigits(u)),
        ndigits(u) >= 1,
    decreases u,
{
    if u < 10 {
        lemma_pow10_pos(1);
    } else {
        lemma_ndigits_bound(u / 10);
        vstd::arithmetic::div_mod::lemma_fundamental_div_mod(u as int, 10);
        assert(u < 10 * pow10(ndigits(u / 10)));
    }
}

/// Reading the printed digits of `u` folds `u` into the accumulator and
/// stops right after them.
pub proof fn lemma_run_digits_w(s: Seq<char>, i: int, acc: nat, u: nat, k: nat)
    requires
        word_at(s, i, digits_w(u, k)),
        u < pow10(k),
    ensures
        run_digits(s, i, acc) == run_digits(s, i + k, (acc * pow10(k) + u) as nat),
    decreases k,
{
    lemma_digits_w_len(u, k);
    if k == 0 {
        assert(acc * 1 + u == acc);
    } else {
        let km = (k - 1) as nat;
        let prefix = digits_w(u / 10, km);
        let last = digit_char((u % 10) as int);
        lemma_digits_w_len(u / 10, km);
        assert(digits_w(u, k) =~= prefix + seq![last]);
        lemma_word_at_split(s, i, prefix, seq![last]);
        vstd::arithmetic::div_mod::lemma_fundamental_div_mod(u as int, 10);
        assert(u / 10 < pow10(km)) by {
            if u / 10 >= pow10(km) {
                assert(10 * (u / 10) >= 10 * pow10(km));
            }
        }
        lemma_run_digits_w(s, i, acc, u / 10, km);
        lemma_word_at_index(s, i + km, seq![last], 0);
        assert(s[i + km] == last);
        assert(0 <= (u % 10) < 10);
        assert(digit_val(last) == (u % 10) as int);
        let acc2 = (acc * pow10(km) + u / 10) as nat;
        assert(run_digits(s, i + km, acc2) == run_digits(s, i + k, (acc2 * 10 + digit_val(s[i
            + km])) as nat));
        assert(acc2 * 10 + (u % 10) == acc * pow10(k) + u) by (nonlinear_arith)
            requires
                acc2 == acc * pow10(km) + u / 10,
                pow10(k) == 10 * pow10(km),
                u == 10 * (u / 10) + u % 10,
        ;
    }
}

/// Reading back the canonical text of a machine-range number yields that
/// number, provided nothing number-like follows it.
pub proof fn lemma_parse_print_number(s: Seq<char>, i: int, n: int)
    requires
        -0x8000_0000_0000_0000 <= n <= 0x7fff_ffff_ffff_ffff,
        word_at(s, i, print_number(n)),
        i + print_number(n).len() == s.len() || (!is_digit(s[i + print_number(n).len()]) && s[i
            + print_number(n).len()] != '.'),
    ensures
        spec_parse_number(s, i) == Option::Some((n, i + print_number(n).len())),
{
    let m = if n < 0 { (-n) as nat } else { n as nat };
    let u = m / 1000000;
    let f = m % 1000000;
    let nd = ndigits(u);
    let l: int = print_number(n).len() as int;
    vstd::arithmetic::div_mod::lemma_fundamental_div_mod(m as int, 1000000);
    lemma_ndigits_bound(u);
    lemma_digits_w_len(u, nd);
    lemma_digits_w_digits(u, nd);
    let i1: int = if n < 0 { i + 1 } else { i };
    if n < 0 {
        lemma_word_at_split(s, i, seq!['-'], print_mag(m));
        lemma_word_at_index(s, i, seq!['-'], 0);
    }
    assert(word_at(s, i1, print_mag(m)));
    if f == 0 {
        assert(print_mag(m) == print_uint(u));
        assert(word_at(s, i1, digits_w(u, nd)));
        lemma_word_at_index(s, i1, digits_w(u, nd), 0);
        assert(is_digit(s[i1]));
        assert(!(s[i] == '-') ==> i1 == i);
        lemma_run_digits_w(s, i1, 0, u, nd);
        assert(0 * pow10(nd) + u == u);
        lemma_run_digits_stop(s, i1 + nd, u);
        assert(i1 + nd == i + l);
        assert(run_digits(s, i1, 0) == (u, i + l));
        assert(u * 1000000 == m);
        if n < 0 {
            assert(s[i] == '-');
        } else {
            assert(is_digit(s[i]));
            assert(s[i] != '-');
        }
    } else {
        assert(print_mag(m) == print_uint(u) + seq!['.'] + digits_w(f, 6));
        assert(print_uint(u) + seq!['.'] + digits_w(f, 6) =~= digits_w(u, nd) + (seq!['.']
            + digits_w(f, 6)));
        lemma_word_at_split(s, i1, digits_w(u, nd), seq!['.'] + digits_w(f, 6));
        lemma_word_at_split(s, i1 + nd, seq!['.'], digits_w(f, 6));
        lemma_word_at_index(s, i1 + nd, seq!['.'], 0);
        lemma_word_at_index(s, i1, digits_w(u, nd), 0);
        assert(is_digit(s[i1]));
        lemma_run_digits_w(s, i1, 0, u, nd);
        assert(0 * pow10(nd) + u == u);
        assert(s[i1 + nd] == '.');
        assert(!is_digit('.'));
        lemma_run_digits_stop(s, i1 + nd, u);
        assert(run_digits(s, i1, 0) == (u, i1 + nd));
        let fd = digits_w(f, 6);
        lemma_digits_w_len(f, 6);
        lemma_digits_w_digits(f, 6);
        lemma_word_at_index(s, i1 + nd + 1, fd, 0);
        assert(is_digit(s[i1 + nd + 1]));
        assert(pow10(6) == 1000000) by {
            reveal_with_fuel(pow10, 7);
        }
        assert(f < pow10(6));
        lemma_run_digits_w(s, i1 + nd + 1, 0, f, 6);
        assert(0 * pow10(6) + f == f);
        assert(i1 + nd + 7 == i + l);
        lemma_run_digits_stop(s, i1 + nd + 7, f);
        assert(run_digits(s, i1 + nd + 1, 0) == (f, i + l));
        assert(pow10(0) == 1);
        assert(u * 1000000 + f * 1 == m);
        if n < 0 {
            assert(s[i] == '-');
        } else {
            assert(is_digit(s[i]));
            assert(s[i] != '-');
        }
    }
}

/// Scanning the printed body of a string collects its characters and stops
/// at the closing quote.
pub proof fn lemma_scan_print(s: Seq<char>, i: int, acc: Seq<char>, text: Seq<char>)
    requires
        str_printable(text),
        word_at(s, i, print_str_body(text) + seq!['"']),
    ensures
        scan_string(s, i, acc) == Option::Some(
            (acc + text, i + print_str_body(text).len() + 1),
        ),
    decreases text.len(),
{
    if text.len() == 0 {
        lemma_word_at_index(s, i, print_str_body(text) + seq!['"'], 0);
        assert(s[i] == '"');
        assert(acc + text =~= acc);
    } else {
        let c = text[0];
        let rest = text.drop_first();
        assert(print_str_body(text) == esc_char(c) + print_str_body(rest));
        assert(print_str_body(text) + seq!['"'] =~= esc_char(c) + (print_str_body(rest)
            + seq!['"']));
        lemma_word_at_split(s, i, esc_char(c), print_str_body(rest) + seq!['"']);
        assert(str_printable(rest)) by {
            assert(forall|j: int| 0 <= j < rest.len() ==> rest[j] == text[j + 1]);
        }
        assert(char_printable(c));
        if c == '"' {
            lemma_word_at_index(s, i, esc_char(c), 0);
            lemma_word_at_index(s, i, esc_char(c), 1);
            lemma_scan_print(s, i + 2, acc.push(c), rest);
            assert(acc.push(c) + rest =~= acc + text);
        } else if c == '\\' {
            lemma_word_at_index(s, i, esc_char(c), 0);
            lemma_word_at_index(s, i, esc_char(c), 1);
            lemma_scan_print(s, i + 2, acc.push(c), rest);
            assert(acc.push(c) + rest =~= acc + text);
        } else {
            lemma_word_at_index(s, i, esc_char(c), 0);
            assert(s[i] == c);
            lemma_scan_print(s, i + 1, acc.push(c), rest);
            assert(acc.push(c) + rest =~= acc + text);
        }
    }
}

/// Reading back a printed string literal yields the original characters.
pub proof fn lemma_parse_print_string(s: Seq<char>, i: int, text: Seq<char>)
    requires
        str_printable(text),
        word_at(s, i, print_string(text)),
    ensures
        spec_parse_string(s, i) == Option::Some((text, i + print_string(text).len())),
{
    assert(print_string(text) =~= seq!['"'] + (print_str_body(text) + seq!['"']));
    lemma_word_at_split(s, i, seq!['"'], print_str_body(text) + seq!['"']);
    lemma_word_at_index(s, i, seq!['"'], 0);
    lemma_scan_print(s, i + 1, Seq::empty(), text);
    assert(Seq::<char>::empty() + text =~= text);
}


/// Whether nothing number-like stands at `e`: a printed number followed by
/// such a position is read back exactly.
pub open spec fn num_boundary_ok(s: Seq<char>, e: int) -> bool {
    e == s.len() || (!is_digit(s[e]) && s[e] != '.')
}

/// The canonical text of a printable value is nonempty, and its first
/// character is no whitespace, closer, separator or quote-mate that could
/// confuse the surrounding grammar.
pub proof fn lemma_print_first(g: SpecVal)
    requires
        printable(g),
    ensures
        print_json(g).len() > 0,
        !is_ws(print_json(g)[0]),
        print_json(g)[0] != ']',
        print_json(g)[0] != '}',
        print_json(g)[0] != ',',
        print_json(g)[0] != ':',
        g is Str ==> print_json(g)[0] == '"',
        g is Num ==> (print_json(g)[0] == '-' || is_digit(print_json(g)[0])),
        g is Arr ==> print_json(g)[0] == '[',
        g is Dict ==> print_json(g)[0] == '{',
{
    match g {
        SpecVal::Str(text) => {
            assert(print_json(g) == print_string(text));
            assert(print_string(text)[0] == '"');
        },
        SpecVal::Num(n) => {
            let m = if n < 0 { (-n) as nat } else { n as nat };
            let u = m / 1000000;
            let nd = ndigits(u);
            lemma_ndigits_bound(u);
            lemma_digits_w_len(u, nd);
            lemma_digits_w_digits(u, nd);
            if n < 0 {
                assert(print_json(g) == seq!['-'] + print_mag(m));
                assert(print_json(g)[0] == '-');
            } else {
                assert(print_json(g) == print_mag(m));
                if m % 1000000 == 0 {
                    assert(print_mag(m) == digits_w(u, nd));
                } else {
                    assert(print_mag(m) == print_uint(u) + seq!['.'] + digits_w(m % 1000000, 6));
                    assert(print_mag(m)[0] == digits_w(u, nd)[0]);
                }
                assert(is_digit(print_json(g)[0]));
            }
        },
        SpecVal::Bool(b) => {
            if b {
                assert(print_json(g) == seq!['t', 'r', 'u', 'e']);
            } else {
                assert(print_json(g) == seq!['f', 'a', 'l', 's', 'e']);
            }
        },
        SpecVal::Null => {
            assert(print_json(g) == seq!['n', 'u', 'l', 'l']);
        },
        SpecVal::Arr(items) => {
            assert(print_json(g) == seq!['['] + print_items(items) + seq![']']);
            assert(print_json(g)[0] == '[');
        },
        SpecVal::Dict(entries) => {
            assert(print_json(g) == seq!['{'] + print_members(entries) + seq!['}']);
            assert(print_json(g)[0] == '{');
        },
        SpecVal::Expr(_) => {
            assert(false);
        },
    }
}

/// Reading back the canonical text of a printable value yields that value.
#[verifier::rlimit(100)]
pub proof fn lemma_parse_print_value(s: Seq<char>, i: int, g: SpecVal)
    requires
        printable(g),
        word_at(s, i, print_json(g)),
        g is Num ==> num_boundary_ok(s, i + print_json(g).len()),
    ensures
        spec_parse_value(s, i) == Option::Some((g, i + print_json(g).len())),
    decreases g, 0int,
{
    let l: int = print_json(g).len() as int;
    lemma_print_first(g);
    lemma_word_at_index(s, i, print_json(g), 0);
    lemma_skip_ws_id(s, i);
    match g {
        SpecVal::Str(text) => {
            assert(printable(g) == str_printable(text));
            assert(print_json(g) == print_string(text));
            assert(s[i] == '"');
            lemma_parse_print_string(s, i, text);
        },
        SpecVal::Num(n) => {
            assert(printable(g) == (-0x8000_0000_0000_0000 <= n <= 0x7fff_ffff_ffff_ffff));
            assert(print_json(g) == print_number(n));
            assert(s[i] == '-' || is_digit(s[i]));
            assert(s[i] != '"');
            lemma_parse_print_number(s, i, n);
        },
        SpecVal::Bool(b) => {
            if b {
                assert(print_json(g) == seq!['t', 'r', 'u', 'e']);
                assert(s[i] == 't');
                assert(!is_digit(s[i]));
            } else {
                assert(print_json(g) == seq!['f', 'a', 'l', 's', 'e']);
                assert(s[i] == 'f');
                assert(!is_digit(s[i]));
            }
        },
        SpecVal::Null => {
            assert(print_json(g) == seq!['n', 'u', 'l', 'l']);
            assert(s[i] == 'n');
            assert(!is_digit(s[i]));
        },
        SpecVal::Arr(items) => {
            assert(print_json(g) == seq!['['] + print_items(items) + seq![']']);
            assert(s[i] == '[');
            assert(!is_digit(s[i]));
            if items.len() == 0 {
                assert(print_items(items) == Seq::<char>::empty());
                assert(print_json(g) =~= seq!['[', ']']);
                lemma_word_at_index(s, i, print_json(g), 1);
                assert(s[i + 1] == ']');
                lemma_skip_ws_id(s, i + 1);
                assert(items =~= Seq::<SpecVal>::empty());
                assert(SpecVal::Arr(Seq::empty()) == g);
            } else {
                assert forall|t: int| 0 <= t < items.len() implies printable(
                    #[trigger] items[t],
                ) by {
                    reveal_with_fuel(printable, 2);
                    assert(printable(g) == (forall|u: int|
                        0 <= u < items.len() ==> printable(#[trigger] items[u])));
                }
                assert(print_json(g) =~= seq!['['] + (print_items(items) + seq![']']));
                lemma_word_at_split(s, i, seq!['['], print_items(items) + seq![']']);
                lemma_print_first(items[0]);
                assert(print_items(items)[0] == print_json(items[0])[0]) by {
                    if items.len() == 1 {
                        assert(print_items(items) == print_json(items[0]));
                    } else {
                        assert(print_items(items) == print_json(items[0]) + seq![',']
                            + print_items(items.drop_first()));
                    }
                }
                lemma_word_at_index(s, i + 1, print_items(items) + seq![']'], 0);
                assert(s[i + 1] == print_json(items[0])[0]);
                lemma_skip_ws_id(s, i + 1);
                lemma_parse_print_items(s, i + 1, items);
            }
        },
        SpecVal::Dict(entries) => {
            assert(print_json(g) == seq!['{'] + print_members(entries) + seq!['}']);
            assert(s[i] == '{');
            assert(!is_digit(s[i]));
            if entries.len() == 0 {
                assert(print_members(entries) == Seq::<char>::empty());
                assert(print_json(g) =~= seq!['{', '}']);
                lemma_word_at_index(s, i, print_json(g), 1);
                assert(s[i + 1] == '}');
                lemma_skip_ws_id(s, i + 1);
                assert(entries =~= Seq::<(Seq<char>, SpecVal)>::empty());
                assert(SpecVal::Dict(Seq::empty()) == g);
            } else {
                assert forall|t: int|
                    0 <= t < entries.len() implies str_printable((#[trigger] entries[t]).0)
                    && printable(entries[t].1) by {
                    reveal_with_fuel(printable, 2);
                    assert(printable(g) == (forall|u: int|
                        0 <= u < entries.len() ==> str_printable(#[trigger] entries[u].0)
                            && printable(entries[u].1)));
                }
                assert(print_json(g) =~= seq!['{'] + (print_members(entries) + seq!['}']));
                lemma_word_at_split(s, i, seq!['{'], print_members(entries) + seq!['}']);
                assert(print_members(entries)[0] == '"') by {
                    if entries.len() == 1 {
                        assert(print_members(entries) == print_string(entries[0].0) + seq![':']
                            + print_json(entries[0].1));
                    } else {
                        assert(print_members(entries) == print_string(entries[0].0) + seq![':']
                            + print_json(entries[0].1) + seq![','] + print_members(
                            entries.drop_first(),
                        ));
                    }
                    assert(print_string(entries[0].0)[0] == '"');
                }
                lemma_word_at_index(s, i + 1, print_members(entries) + seq!['}'], 0);
                assert(s[i + 1] == '"');
                lemma_skip_ws_id(s, i + 1);
                lemma_parse_print_members(s, i + 1, entries);
            }
        },
        SpecVal::Expr(_) => {
            assert(false);
        },
    }
}

/// Reading back printed array elements yields them all, up to and past the
/// closing bracket.
#[verifier::rlimit(100)]
pub proof fn lemma_parse_print_items(s: Seq<char>, i: int, items: Seq<SpecVal>)
    requires
        items.len() > 0,
        forall|t: int| 0 <= t < items.len() ==> printable(#[trigger] items[t]),
        word_at(s, i, print_items(items) + seq![']']),
    ensures
        spec_parse_items(s, i) == Option::Some((items, i + print_items(items).len() + 1)),
    decreases items, 1int,
{
    let g0 = items[0];
    let l0: int = print_json(g0).len() as int;
    lemma_print_first(g0);
    if items.len() == 1 {
        assert(print_items(items) == print_json(g0));
        assert(print_items(items) + seq![']'] =~= print_json(g0) + seq![']']);
        lemma_word_at_split(s, i, print_json(g0), seq![']']);
        lemma_word_at_index(s, i + l0, seq![']'], 0);
        assert(s[i + l0] == ']');
        lemma_parse_print_value(s, i, g0);
        lemma_skip_ws_id(s, i + l0);
        assert(seq![g0] =~= items);
    } else {
        let rest = items.drop_first();
        assert(forall|t: int| 0 <= t < rest.len() ==> rest[t] == items[t + 1]);
        assert(print_items(items) == print_json(g0) + seq![','] + print_items(rest));
        assert(print_items(items) + seq![']'] =~= print_json(g0) + (seq![','] + (print_items(
            rest,
        ) + seq![']'])));
        lemma_word_at_split(s, i, print_json(g0), seq![','] + (print_items(rest) + seq![']']));
        lemma_word_at_split(s, i + l0, seq![','], print_items(rest) + seq![']']);
        lemma_word_at_index(s, i + l0, seq![','], 0);
        assert(s[i + l0] == ',');
        lemma_parse_print_value(s, i, g0);
        lemma_skip_ws_id(s, i + l0);
        lemma_parse_print_items(s, i + l0 + 1, rest);
        assert(seq![g0] + rest =~= items);
        assert(print_items(items).len() == l0 + 1 + print_items(rest).len());
    }
}

/// Reading back printed object members yields them all, up to and past the
/// closing brace.
pub proof fn lemma_parse_print_members(s: Seq<char>, i: int, entries: Seq<(Seq<char>, SpecVal)>)
    requires
        entries.len() > 0,
        forall|t: int| 0 <= t < entries.len() ==> str_printable((#[trigger] entries[t]).0)
            && printable(entries[t].1),
        word_at(s, i, print_members(entries) + seq!['}']),
    ensures
        spec_parse_members(s, i) == Option::Some(
            (entries, i + print_members(entries).len() + 1),
        ),
    decreases entries, 1int,
{
    if entries.len() == 1 {
        lemma_parse_print_members_single(s, i, entries);
    } else {
        lemma_parse_print_members_multi(s, i, entries);
    }
}

/// The single-member case of the members round trip.
#[verifier::rlimit(100)]
proof fn lemma_parse_print_members_single(s: Seq<char>, i: int, entries: Seq<(Seq<char>, SpecVal)>)
    requires
        entries.len() == 1,
        forall|t: int| 0 <= t < entries.len() ==> str_printable((#[trigger] entries[t]).0)
            && printable(entries[t].1),
        word_at(s, i, print_members(entries) + seq!['}']),
    ensures
        spec_parse_members(s, i) == Option::Some(
            (entries, i + print_members(entries).len() + 1),
        ),
    decreases entries, 0int,
{
    let k0 = entries[0].0;
    let v0 = entries[0].1;
    let lk: int = print_string(k0).len() as int;
    let lv: int = print_json(v0).len() as int;
    let head = print_string(k0) + seq![':'] + print_json(v0);
    lemma_print_first(v0);
    assert(print_string(k0).len() >= 2);
    lemma_word_at_index(s, i, print_members(entries) + seq!['}'], 0);
    assert(print_string(k0)[0] == '"');
    assert((print_members(entries) + seq!['}'])[0] == '"') by {
        if entries.len() == 1 {
            assert(print_members(entries) == print_string(entries[0].0) + seq![':'] + print_json(
                entries[0].1,
            ));
        } else {
            assert(print_members(entries) == print_string(entries[0].0) + seq![':'] + print_json(
                entries[0].1,
            ) + seq![','] + print_members(entries.drop_first()));
        }
    }
    assert(s[i] == '"');
    lemma_skip_ws_id(s, i);
    assert(print_members(entries) == head);
    assert(print_members(entries) + seq!['}'] =~= print_string(k0) + (seq![':'] + (print_json(
        v0,
    ) + seq!['}'])));
    lemma_word_at_split(s, i, print_string(k0), seq![':'] + (print_json(v0) + seq!['}']));
    lemma_word_at_split(s, i + lk, seq![':'], print_json(v0) + seq!['}']);
    lemma_word_at_split(s, i + lk + 1, print_json(v0), seq!['}']);
    lemma_word_at_index(s, i + lk, seq![':'], 0);
    lemma_word_at_index(s, i + lk + 1 + lv, seq!['}'], 0);
    assert(s[i + lk] == ':');
    assert(s[i + lk + 1 + lv] == '}');
    lemma_parse_print_string(s, i, k0);
    lemma_skip_ws_id(s, i + lk);
    lemma_parse_print_value(s, i + lk + 1, v0);
    lemma_skip_ws_id(s, i + lk + 1 + lv);
    assert(seq![(k0, v0)] =~= entries);
    assert(print_members(entries).len() == lk + 1 + lv);
}

/// The multi-member case of the members round trip.
#[verifier::rlimit(100)]
proof fn lemma_parse_print_members_multi(s: Seq<char>, i: int, entries: Seq<(Seq<char>, SpecVal)>)
    requires
        entries.len() > 1,
        forall|t: int| 0 <= t < entries.len() ==> str_printable((#[trigger] entries[t]).0)
            && printable(entries[t].1),
        word_at(s, i, print_members(entries) + seq!['}']),
    ensures
        spec_parse_members(s, i) == Option::Some(
            (entries, i + print_members(entries).len() + 1),
        ),
    decreases entries, 0int,
{
    let k0 = entries[0].0;
    let v0 = entries[0].1;
    let lk: int = print_string(k0).len() as int;
    let lv: int = print_json(v0).len() as int;
    let head = print_string(k0) + seq![':'] + print_json(v0);
    lemma_print_first(v0);
    assert(print_string(k0).len() >= 2);
    lemma_word_at_index(s, i, print_members(entries) + seq!['}'], 0);
    assert(print_string(k0)[0] == '"');
    assert((print_members(entries) + seq!['}'])[0] == '"') by {
        if entries.len() == 1 {
            assert(print_members(entries) == print_string(entries[0].0) + seq![':'] + print_json(
                entries[0].1,
            ));
        } else {
            assert(print_members(entries) == print_string(entries[0].0) + seq![':'] + print_json(
                entries[0].1,
            ) + seq![','] + print_members(entries.drop_first()));
        }
    }
    assert(s[i] == '"');
    lemma_skip_ws_id(s, i);
    let rest = entries.drop_first();
    assert(forall|t: int| 0 <= t < rest.len() ==> rest[t] == entries[t + 1]);
    assert(print_members(entries) == head + seq![','] + print_members(rest));
    assert(print_members(entries) + seq!['}'] =~= print_string(k0) + (seq![':'] + (print_json(
        v0,
    ) + (seq![','] + (print_members(rest) + seq!['}'])))));
    lemma_word_at_split(s, i, print_string(k0), seq![':'] + (print_json(v0) + (seq![','] + (
    print_members(rest) + seq!['}']))));
    lemma_word_at_split(s, i + lk, seq![':'], print_json(v0) + (seq![','] + (print_members(
        rest,
    ) + seq!['}'])));
    lemma_word_at_split(s, i + lk + 1, print_json(v0), seq![','] + (print_members(rest)
        + seq!['}']));
    lemma_word_at_split(s, i + lk + 1 + lv, seq![','], print_members(rest) + seq!['}']);
    lemma_word_at_index(s, i + lk, seq![':'], 0);
    lemma_word_at_index(s, i + lk + 1 + lv, seq![','], 0);
    assert(s[i + lk] == ':');
    assert(s[i + lk + 1 + lv] == ',');
    lemma_parse_print_string(s, i, k0);
    lemma_skip_ws_id(s, i + lk);
    lemma_parse_print_value(s, i + lk + 1, v0);
    lemma_skip_ws_id(s, i + lk + 1 + lv);
    assert forall|t: int|
        0 <= t < rest.len() implies str_printable((#[trigger] rest[t]).0) && printable(
        rest[t].1,
    ) by {
        assert(rest[t] == entries[t + 1]);
    }
    lemma_parse_print_members(s, i + lk + 1 + lv + 1, rest);
    assert(seq![(k0, v0)] + rest =~= entries);
    assert(print_members(entries).len() == lk + 1 + lv + 1 + print_members(rest).len());
}

/// Reading back the canonical text of a printable value, as a whole
/// document, yields exactly that value.
pub proof fn lemma_parse_print_text(g: SpecVal)
    requires
        printable(g),
    ensures
        spec_parse_text(print_json(g)) == Option::Some(g),
{
    let s = print_json(g);
    assert(s.subrange(0, s.len() as int) =~= s);
    assert(word_at(s, 0, s));
    lemma_parse_print_value(s, 0, g);
    lemma_skip_ws_id(s, s.len() as int);
}

/// Appending one character to a string appends its escape to the printed
/// body.
pub proof fn lemma_print_str_body_push(a: Seq<char>, c: char)
    ensures
        print_str_body(a.push(c)) == print_str_body(a) + esc_char(c),
    decreases a.len(),
{
    if a.len() == 0 {
        assert(a.push(c).drop_first() =~= Seq::<char>::empty());
        assert(print_str_body(a.push(c)) == esc_char(c) + print_str_body(Seq::empty()));
        assert(esc_char(c) + Seq::<char>::empty() =~= esc_char(c));
        assert(print_str_body(a) + esc_char(c) =~= esc_char(c));
    } else {
        assert(a.push(c).drop_first() =~= a.drop_first().push(c));
        lemma_print_str_body_push(a.drop_first(), c);
        assert(print_str_body(a.push(c)) == esc_char(a[0]) + (print_str_body(a.drop_first())
            + esc_char(c)));
        assert(esc_char(a[0]) + (print_str_body(a.drop_first()) + esc_char(c)) =~= (esc_char(a[0])
            + print_str_body(a.drop_first())) + esc_char(c));
    }
}

/// The digit character of a value below ten.
pub(crate) fn digit_char_exec(d: u64) -> (r: char)
    requires
        d < 10,
    ensures
        r == digit_char(d as int),
{
    if d == 0 {
        '0'
    } else if d == 1 {
        '1'
    } else if d == 2 {
        '2'
    } else if d == 3 {
        '3'
    } else if d == 4 {
        '4'
    } else if d == 5 {
        '5'
    } else if d == 6 {
        '6'
    } else if d == 7 {
        '7'
    } else if d == 8 {
        '8'
    } else {
        '9'
    }
}

/// Writes the digits of `u` with no leading zero.
pub(crate) fn emit_uint(u: u64, out: &mut Vec<char>)
    ensures
        final(out)@ == old(out)@ + print_uint(u as nat),
    decreases u,
{
    if u < 10 {
        out.push(digit_char_exec(u));
        proof {
            assert(ndigits(u as nat) == 1);
            assert(digits_w(u as nat, 1) == digits_w((u as nat) / 10, 0).push(
                digit_char(((u as nat) % 10) as int),
            ));
            assert(digits_w((u as nat) / 10, 0) == Seq::<char>::empty());
            assert(print_uint(u as nat) =~= seq![digit_char(u as int)]);
            assert(old(out)@.push(digit_char(u as int)) =~= old(out)@ + seq![
                digit_char(u as int),
            ]);
        }
    } else {
        emit_uint(u / 10, out);
        out.push(digit_char_exec(u % 10));
        proof {
            assert(ndigits(u as nat) == 1 + ndigits((u / 10) as nat));
            assert(print_uint(u as nat) == print_uint((u / 10) as nat).push(
                digit_char((u % 10) as int),
            ));
            assert((old(out)@ + print_uint((u / 10) as nat)).push(digit_char((u % 10) as int))
                =~= old(out)@ + print_uint(u as nat));
        }
    }
}

/// Writes exactly `k` digits of `u`, zero padded.
pub(crate) fn emit_fixed(u: u64, k: u64, out: &mut Vec<char>)
    ensures
        final(out)@ == old(out)@ + digits_w(u as nat, k as nat),
    decreases k,
{
    if k == 0 {
        proof {
            assert(old(out)@ + digits_w(u as nat, 0) =~= old(out)@);
        }
    } else {
        emit_fixed(u / 10, k - 1, out);
        out.push(digit_char_exec(u % 10));
        proof {
            assert(digits_w(u as nat, k as nat) == digits_w((u / 10) as nat, (k - 1) as nat).push(
                digit_char((u % 10) as int),
            ));
            assert((old(out)@ + digits_w((u / 10) as nat, (k - 1) as nat)).push(
                digit_char((u % 10) as int),
            ) =~= old(out)@ + digits_w(u as nat, k as nat));
        }
    }
}

/// Writes the canonical text of a number held as millionths.
pub(crate) fn emit_number(n: i64, out: &mut Vec<char>)
    ensures
        final(out)@ == old(out)@ + print_number(n as int),
{
    let mag: u64 = if n < 0 {
        (-(n as i128)) as u64
    } else {
        n as u64
    };
    proof {
        assert(mag as nat == (if n < 0 {
            (-(n as int)) as nat
        } else {
            n as nat
        }));
    }
    if n < 0 {
        out.push('-');
    }
    let units: u64 = mag / 1_000_000;
    let frac: u64 = mag % 1_000_000;
    emit_uint(units, out);
    if frac != 0 {
        out.push('.');
        emit_fixed(frac, 6, out);
    }
    proof {
        let m = mag as nat;
        if frac == 0 {
            assert(print_mag(m) == print_uint(m / 1000000));
        } else {
            assert(print_mag(m) == print_uint(m / 1000000) + seq!['.'] + digits_w(m % 1000000, 6));
        }
        if n < 0 {
            assert(print_number(n as int) == seq!['-'] + print_mag(m));
        } else {
            assert(print_number(n as int) == print_mag(m));
        }
        assert(final(out)@ =~= old(out)@ + print_number(n as int));
    }
}

/// Writes a quoted string literal, escaping quotes and backslashes.
#[verifier::loop_isolation(false)]
pub(crate) fn emit_string(s: &str, out: &mut Vec<char>)
    ensures
        final(out)@ == old(out)@ + print_string(s@),
{
    out.push('"');
    let n = s.unicode_len();
    let mut i: usize = 0;
    proof {
        assert(s@.take(0) =~= Seq::<char>::empty());
        assert(out@ =~= old(out)@ + seq!['"'] + print_str_body(s@.take(0)));
    }
    while i < n
        invariant
            n == s@.len(),
            0 <= i <= n,
            out@ == old(out)@ + seq!['"'] + print_str_body(s@.take(i as int)),
        decreases n - i,
    {
        let c = s.get_char(i);
        proof {
            lemma_print_str_body_push(s@.take(i as int), c);
            assert(s@.take(i as int).push(c) =~= s@.take(i as int + 1));
        }
        if c == '"' {
            out.push('\\');
            out.push('"');
        } else if c == '\\' {
            out.push('\\');
            out.push('\\');
        } else {
            out.push(c);
        }
        proof {
            assert(out@ =~= old(out)@ + seq!['"'] + print_str_body(s@.take(i as int + 1)));
        }
        i = i + 1;
    }
    out.push('"');
    proof {
        assert(s@.take(n as int) =~= s@);
        assert(out@ =~= old(out)@ + print_string(s@));
    }
}


/// Relies on String's FromIterator over characters: the collected string
/// holds exactly the characters of the vector, in order.
#[verifier::external_body]
pub(crate) fn chars_to_string(v: &Vec<char>) -> (r: String)
    ensures
        r@ == v@,
{
    v.iter().collect()
}

/// Relies on str::chars: the characters of the slice, in order.
#[verifier::external_body]
pub(crate) fn str_chars(s: &str) -> (r: Vec<char>)
    ensures
        r@ == s@,
{
    s.chars().collect()
}

fn is_ws_exec(c: char) -> (r: bool)
    ensures
        r == is_ws(c),
{
    c == ' ' || c == '\t' || c == '\n' || c == '\r'
}

/// The decimal value of a digit character, if it is one.
fn digit_val_exec(c: char) -> (r: Option<u64>)
    ensures
        match r {
            Option::Some(d) => digit_val(c) == d as int && d < 10,
            Option::None => digit_val(c) == -1,
        },
{
    match c {
        '0' => Option::Some(0),
        '1' => Option::Some(1),
        '2' => Option::Some(2),
        '3' => Option::Some(3),
        '4' => Option::Some(4),
        '5' => Option::Some(5),
        '6' => Option::Some(6),
        '7' => Option::Some(7),
        '8' => Option::Some(8),
        '9' => Option::Some(9),
        _ => Option::None,
    }
}

/// The value of a hexadecimal digit character, if it is one.
fn hex_val_exec(c: char) -> (r: Option<u64>)
    ensures
        match r {
            Option::Some(d) => hex_val(c) == d as int && d < 16,
            Option::None => hex_val(c) == -1,
        },
{
    match c {
        '0' => Option::Some(0),
        '1' => Option::Some(1),
        '2' => Option::Some(2),
        '3' => Option::Some(3),
        '4' => Option::Some(4),
        '5' => Option::Some(5),
        '6' => Option::Some(6),
        '7' => Option::Some(7),
        '8' => Option::Some(8),
        '9' => Option::Some(9),
        'a' => Option::Some(10),
        'A' => Option::Some(10),
        'b' => Option::Some(11),
        'B' => Option::Some(11),
        'c' => Option::Some(12),
        'C' => Option::Some(12),
        'd' => Option::Some(13),
        'D' => Option::Some(13),
        'e' => Option::Some(14),
        'E' => Option::Some(14),
        'f' => Option::Some(15),
        'F' => Option::Some(15),
        _ => Option::None,
    }
}

/// The first index at or after `i` holding no whitespace.
#[verifier::loop_isolation(false)]
pub(crate) fn skip_ws_exec(s: &Vec<char>, i: usize) -> (r: usize)
    requires
        i <= s@.len(),
    ensures
        r == spec_skip_ws(s@, i as int),
        i <= r <= s@.len(),
{
    let mut j = i;
    while j < s.len() && is_ws_exec(s[j])
        invariant
            i <= j <= s@.len(),
            spec_skip_ws(s@, i as int) == spec_skip_ws(s@, j as int),
        decreases s@.len() - j,
    {
        proof {
            assert(spec_skip_ws(s@, j as int) == spec_skip_ws(s@, j as int + 1));
        }
        j = j + 1;
    }
    proof {
        assert(spec_skip_ws(s@, j as int) == j as int);
    }
    j
}

/// Saturation threshold for digit runs: anything above it is already too
/// large for a number of millionths.
pub(crate) const DIGIT_RUN_CAP: u64 = 10_000_000_000_000;

/// Reads a maximal digit run. When the run's value stays within the
/// threshold the exact value is returned; otherwise only the fact that it
/// overflowed.
#[verifier::loop_isolation(false)]
fn run_digits_exec(s: &Vec<char>, i: usize) -> (r: (bool, u64, usize))
    requires
        i <= s@.len(),
    ensures
        r.2 == run_digits(s@, i as int, 0).1,
        i <= r.2 <= s@.len(),
        r.0 ==> r.1 as nat == run_digits(s@, i as int, 0).0,
        !r.0 ==> run_digits(s@, i as int, 0).0 > DIGIT_RUN_CAP as nat,
        r.1 <= 100_000_000_000_009,
{
    let mut j = i;
    let mut acc: u64 = 0;
    let mut ovf: bool = false;
    let ghost mut a: nat = 0nat;
    loop
        invariant
            i <= j <= s@.len(),
            run_digits(s@, i as int, 0) == run_digits(s@, j as int, a),
            !ovf ==> acc as nat == a,
            ovf ==> a > DIGIT_RUN_CAP as nat,
            acc <= 100_000_000_000_009,
        decreases s@.len() - j,
    {
        if j == s.len() {
            proof {
                assert(run_digits(s@, j as int, a) == (a, j as int));
            }
            return (!ovf, acc, j);
        }
        let d = match digit_val_exec(s[j]) {
            Option::Some(d) => d,
            Option::None => {
                proof {
                    assert(run_digits(s@, j as int, a) == (a, j as int));
                }
                return (!ovf, acc, j);
            },
        };
        proof {
            assert(run_digits(s@, j as int, a) == run_digits(s@, j as int + 1, (a * 10
                + digit_val(s@[j as int])) as nat));
        }
        if !ovf {
            if acc <= DIGIT_RUN_CAP {
                acc = acc * 10 + d;
            } else {
                ovf = true;
            }
        }
        proof {
            a = (a * 10 + digit_val(s@[j as int])) as nat;
        }
        j = j + 1;
    }
}

/// A digit run's value is below ten to the run's length.
pub proof fn lemma_run_digits_bound(s: Seq<char>, i: int, acc: nat)
    ensures
        run_digits(s, i, acc).1 >= i,
        run_digits(s, i, acc).0 < (acc + 1) * pow10((run_digits(s, i, acc).1 - i) as nat),
    decreases s.len() - i,
{
    if 0 <= i < s.len() && is_digit(s[i]) {
        let d = digit_val(s[i]);
        let acc2 = (acc * 10 + d) as nat;
        lemma_run_digits_bound(s, i + 1, acc2);
        let e = run_digits(s, i, acc).1;
        assert(run_digits(s, i, acc) == run_digits(s, i + 1, acc2));
        assert(e >= i + 1);
        lemma_pow10_pos((e - i - 1) as nat);
        assert(run_digits(s, i + 1, acc2).0 < (acc2 + 1) * pow10((e - i - 1) as nat));
        assert(pow10((e - i) as nat) == 10 * pow10((e - i - 1) as nat));
        assert((acc2 + 1) * pow10((e - i - 1) as nat) <= (acc + 1) * pow10((e - i) as nat))
            by (nonlinear_arith)
            requires
                0 <= d < 10,
                acc2 == acc * 10 + d,
                pow10((e - i - 1) as nat) >= 1,
                pow10((e - i) as nat) == 10 * pow10((e - i - 1) as nat),
                acc >= 0,
        ;
        assert(run_digits(s, i, acc).0 == run_digits(s, i + 1, acc2).0);
        assert(run_digits(s, i, acc).0 < (acc2 + 1) * pow10((e - i - 1) as nat));
        assert(run_digits(s, i, acc).0 < (acc + 1) * pow10((e - i) as nat));
        assert(run_digits(s, i, acc).1 - i == e - i);
        assert(run_digits(s, i, acc).0 < (acc + 1) * pow10((run_digits(s, i, acc).1 - i) as nat));
    } else {
        lemma_pow10_pos(0);
        assert(pow10(0) == 1);
        assert(run_digits(s, i, acc) == (acc, i));
        assert((run_digits(s, i, acc).1 - i) as nat == 0nat);
        assert((acc + 1) * pow10(0nat) == acc + 1);
        assert(run_digits(s, i, acc).0 < (acc + 1) * pow10((run_digits(s, i, acc).1 - i) as nat));
    }
}

/// Parses a number at `i`.
#[verifier::rlimit(100)]
fn parse_number_exec(s: &Vec<char>, i: usize) -> (r: Option<(i64, usize)>)
    requires
        i <= s@.len(),
    ensures
        match spec_parse_number(s@, i as int) {
            Option::Some((n, e)) => r matches Option::Some((rn, re)) && rn as int == n && re as int
                == e && i < re <= s@.len(),
            Option::None => r is None,
        },
{
    let neg = i < s.len() && s[i] == '-';
    let i1 = if neg {
        i + 1
    } else {
        i
    };
    if !(i1 < s.len() && digit_val_exec(s[i1]).is_some()) {
        return Option::None;
    }
    let (ok_u, units, i2) = run_digits_exec(s, i1);
    proof {
        lemma_run_digits_bound(s@, i1 as int, 0);
        lemma_pow10_pos(((run_digits(s@, i1 as int, 0).1 - i1) as nat));
        assert(run_digits(s@, i1 as int, 0) == run_digits(
            s@,
            i1 as int + 1,
            digit_val(s@[i1 as int]) as nat,
        ));
        lemma_run_digits_bound(s@, i1 as int + 1, digit_val(s@[i1 as int]) as nat);
        assert(run_digits(s@, i1 as int, 0).1 > i1 as int);
    }
    let ghost ua = run_digits(s@, i1 as int, 0).0;
    if i2 < s.len() && s[i2] == '.' {
        if !(i2 + 1 < s.len() && digit_val_exec(s[i2 + 1]).is_some()) {
            return Option::None;
        }
        let (ok_f, fv, i3) = run_digits_exec(s, i2 + 1);
        let k = i3 - (i2 + 1);
        if !(1 <= k && k <= 6) {
            return Option::None;
        }
        proof {
            lemma_run_digits_bound(s@, (i2 + 1) as int, 0);
            assert(pow10(6) == 1000000) by {
                reveal_with_fuel(pow10, 7);
            }
            assert(pow10(1) == 10 && pow10(2) == 100 && pow10(3) == 1000 && pow10(4) == 10000
                && pow10(5) == 100000) by {
                reveal_with_fuel(pow10, 7);
            }
            assert(run_digits(s@, (i2 + 1) as int, 0).0 < 1000000);
            assert(ok_f);
            assert(fv < 1000000);
        }
        let scale: u64 = if k == 1 {
            100000
        } else if k == 2 {
            10000
        } else if k == 3 {
            1000
        } else if k == 4 {
            100
        } else if k == 5 {
            10
        } else {
            1
        };
        proof {
            assert(scale as nat == pow10((6 - k) as nat)) by {
                reveal_with_fuel(pow10, 7);
            }
        }
        if !ok_u {
            proof {
                assert(ua * 1000000 + run_digits(s@, (i2 + 1) as int, 0).0 * pow10(
                    (6 - k) as nat,
                ) > 0x7fff_ffff_ffff_ffff) by (nonlinear_arith)
                    requires
                        ua > DIGIT_RUN_CAP as nat,
                        run_digits(s@, (i2 + 1) as int, 0).0 * pow10((6 - k) as nat) >= 0,
                ;
            }
            return Option::None;
        }
        proof {
            assert((units as int) * 1_000_000 + (fv as int) * (scale as int)
                < 0x1_0000_0000_0000_0000_0000) by (nonlinear_arith)
                requires
                    units <= 100_000_000_000_009,
                    fv <= 100_000_000_000_009,
                    0 < scale <= 100_000,
            ;
        }
        let mag: u128 = (units as u128) * 1_000_000 + (fv as u128) * (scale as u128);
        finish_number(neg, mag, i3)
    } else {
        if !ok_u {
            proof {
                assert(ua * 1000000 > 0x7fff_ffff_ffff_ffff) by (nonlinear_arith)
                    requires
                        ua > DIGIT_RUN_CAP as nat,
                ;
            }
            return Option::None;
        }
        let mag: u128 = (units as u128) * 1_000_000;
        finish_number(neg, mag, i2)
    }
}

/// Packs a magnitude and sign into a machine number, mirroring the spec's
/// range check.
fn finish_number(neg: bool, mag: u128, end: usize) -> (r: Option<(i64, usize)>)
    requires
        mag <= 0xffff_ffff_ffff_ffff_ffff,
    ensures
        match num_result(neg, mag as int, end as int) {
            Option::Some((n, e)) => r matches Option::Some((rn, re)) && rn as int == n && re as int
                == e && re == end,
            Option::None => r is None,
        },
{
    if neg {
        if mag > 0x8000_0000_0000_0000u128 {
            Option::None
        } else {
            Option::Some(((-(mag as i128)) as i64, end))
        }
    } else {
        if mag > 0x7fff_ffff_ffff_ffffu128 {
            Option::None
        } else {
            Option::Some((mag as i64, end))
        }
    }
}

/// Parses a quoted string literal at `i`.
#[verifier::loop_isolation(false)]
fn parse_string_exec(s: &Vec<char>, i: usize) -> (r: Option<(String, usize)>)
    requires
        i <= s@.len(),
    ensures
        match spec_parse_string(s@, i as int) {
            Option::Some((t, e)) => r matches Option::Some((rs, re)) && rs@ == t && re as int == e
                && i < re <= s@.len(),
            Option::None => r is None,
        },
{
    if !(i < s.len() && s[i] == '"') {
        return Option::None;
    }
    let mut j = i + 1;
    let mut acc: Vec<char> = Vec::new();
    loop
        invariant
            i + 1 <= j <= s@.len(),
            scan_string(s@, (i + 1) as int, Seq::empty()) == scan_string(s@, j as int, acc@),
        decreases s@.len() - j,
    {
        if j == s.len() {
            return Option::None;
        }
        let c = s[j];
        if c == '"' {
            proof {
                assert(scan_string(s@, j as int, acc@) == Option::Some((acc@, j as int + 1)));
            }
            return Option::Some((chars_to_string(&acc), j + 1));
        } else if c == '\\' {
            if j + 1 == s.len() {
                return Option::None;
            }
            let c2 = s[j + 1];
            if c2 == '"' || c2 == '\\' || c2 == '/' {
                proof {
                    assert(scan_string(s@, j as int, acc@) == scan_string(
                        s@,
                        j as int + 2,
                        acc@.push(c2),
                    ));
                }
                acc.push(c2);
                j = j + 2;
            } else if c2 == 'n' {
                proof {
                    assert(scan_string(s@, j as int, acc@) == scan_string(
                        s@,
                        j as int + 2,
                        acc@.push('\n'),
                    ));
                }
                acc.push('\n');
                j = j + 2;
            } else if c2 == 't' {
                proof {
                    assert(scan_string(s@, j as int, acc@) == scan_string(
                        s@,
                        j as int + 2,
                        acc@.push('\t'),
                    ));
                }
                acc.push('\t');
                j = j + 2;
            } else if c2 == 'r' {
                proof {
                    assert(scan_string(s@, j as int, acc@) == scan_string(
                        s@,
                        j as int + 2,
                        acc@.push('\r'),
                    ));
                }
                acc.push('\r');
                j = j + 2;
            } else if c2 == 'b' {
                proof {
                    assert(scan_string(s@, j as int, acc@) == scan_string(
                        s@,
                        j as int + 2,
                        acc@.push('\u{8}'),
                    ));
                }
                acc.push('\u{8}');
                j = j + 2;
            } else if c2 == 'f' {
                proof {
                    assert(scan_string(s@, j as int, acc@) == scan_string(
                        s@,
                        j as int + 2,
                        acc@.push('\u{c}'),
                    ));
                }
                acc.push('\u{c}');
                j = j + 2;
            } else if c2 == 'u' {
                if !(s.len() - j > 5 && s[j + 2] == '0' && s[j + 3] == '0') {
                    return Option::None;
                }
                let h1 = match hex_val_exec(s[j + 4]) {
                    Option::Some(h) => h,
                    Option::None => {
                        return Option::None;
                    },
                };
                let h2 = match hex_val_exec(s[j + 5]) {
                    Option::Some(h) => h,
                    Option::None => {
                        return Option::None;
                    },
                };
                let code: u64 = 16 * h1 + h2;
                proof {
                    assert(code < 256);
                }
                let ch: char = (code as u8) as char;
                proof {
                    assert(scan_string(s@, j as int, acc@) == scan_string(
                        s@,
                        j as int + 6,
                        acc@.push(ch),
                    ));
                }
                acc.push(ch);
                j = j + 6;
            } else {
                return Option::None;
            }
        } else if c as u32 >= 0x20 {
            proof {
                assert(scan_string(s@, j as int, acc@) == scan_string(
                    s@,
                    j as int + 1,
                    acc@.push(c),
                ));
            }
            acc.push(c);
            j = j + 1;
        } else {
            return Option::None;
        }
    }
}

/// Whether the word stands at `i`, checked character by character.
#[verifier::loop_isolation(false)]
fn word_at_exec(s: &Vec<char>, i: usize, w: &Vec<char>) -> (r: bool)
    requires
        i <= s@.len(),
    ensures
        r == word_at(s@, i as int, w@),
{
    if s.len() - i < w.len() {
        proof {
            if word_at(s@, i as int, w@) {
            }
        }
        return false;
    }
    let n = w.len();
    let mut k: usize = 0;
    while k < n
        invariant
            0 <= k <= n,
            n == w@.len(),
            i + n <= s@.len(),
            forall|t: int| 0 <= t < k ==> s@[i + t] == w@[t],
        decreases n - k,
    {
        if s[i + k] != w[k] {
            proof {
                if word_at(s@, i as int, w@) {
                    assert(s@.subrange(i as int, i + w@.len())[k as int] == s@[i + k]);
                }
            }
            return false;
        }
        k = k + 1;
    }
    proof {
        assert(s@.subrange(i as int, i + w@.len()) =~= w@);
    }
    true
}

/// Parses one generic value at `i`, after optional whitespace.
#[verifier::loop_isolation(false)]
pub(crate) fn parse_value_exec(s: &Vec<char>, i: usize) -> (r: Option<(crate::values::Value, usize)>)
    requires
        i <= s@.len(),
    ensures
        match spec_parse_value(s@, i as int) {
            Option::Some((v, e)) => r matches Option::Some((rv, re)) && rv@ == v && re as int == e
                && i < re <= s@.len(),
            Option::None => r is None,
        },
    decreases s@.len() - i, 1int,
{
    broadcast use crate::values::lemma_value_view;

    let j = skip_ws_exec(s, i);
    if j >= s.len() {
        return Option::None;
    }
    let c = s[j];
    if c == '"' {
        match parse_string_exec(s, j) {
            Option::Some((t, e)) => Option::Some((crate::values::Value::Str(t), e)),
            Option::None => Option::None,
        }
    } else if c == '-' || digit_val_exec(c).is_some() {
        match parse_number_exec(s, j) {
            Option::Some((n, e)) => Option::Some(
                (crate::values::Value::Number(crate::values::Number { micros: n }), e),
            ),
            Option::None => Option::None,
        }
    } else if c == 't' {
        let w: Vec<char> = vec!['t', 'r', 'u', 'e'];
        proof {
            assert(w@ =~= seq!['t', 'r', 'u', 'e']);
        }
        if word_at_exec(s, j, &w) {
            Option::Some((crate::values::Value::Boolean(true), j + 4))
        } else {
            Option::None
        }
    } else if c == 'f' {
        let w: Vec<char> = vec!['f', 'a', 'l', 's', 'e'];
        proof {
            assert(w@ =~= seq!['f', 'a', 'l', 's', 'e']);
        }
        if word_at_exec(s, j, &w) {
            Option::Some((crate::values::Value::Boolean(false), j + 5))
        } else {
            Option::None
        }
    } else if c == 'n' {
        let w: Vec<char> = vec!['n', 'u', 'l', 'l'];
        proof {
            assert(w@ =~= seq!['n', 'u', 'l', 'l']);
        }
        if word_at_exec(s, j, &w) {
            Option::Some((crate::values::Value::Null, j + 4))
        } else {
            Option::None
        }
    } else if c == '[' {
        let k = skip_ws_exec(s, j + 1);
        if k >= s.len() {
            return Option::None;
        }
        if s[k] == ']' {
            let items: Vec<crate::values::Value> = Vec::new();
            proof {
                assert(crate::values::view_values(items@) =~= Seq::<SpecVal>::empty());
            }
            return Option::Some((crate::values::Value::Array(items), k + 1));
        }
        match parse_items_exec(s, k) {
            Option::Some((items, e)) => Option::Some((crate::values::Value::Array(items), e)),
            Option::None => Option::None,
        }
    } else if c == '{' {
        let k = skip_ws_exec(s, j + 1);
        if k >= s.len() {
            return Option::None;
        }
        if s[k] == '}' {
            let entries: Vec<(String, crate::values::Value)> = Vec::new();
            proof {
                assert(crate::values::view_entries(entries@) =~= Seq::<(
                    Seq<char>,
                    SpecVal,
                )>::empty());
            }
            return Option::Some((crate::values::Value::Dict(entries), k + 1));
        }
        match parse_members_exec(s, k) {
            Option::Some((entries, e)) => Option::Some((crate::values::Value::Dict(entries), e)),
            Option::None => Option::None,
        }
    } else {
        Option::None
    }
}

/// Parses comma-separated array elements and the closing bracket.
#[verifier::loop_isolation(false)]
fn parse_items_exec(s: &Vec<char>, i: usize) -> (r: Option<(Vec<crate::values::Value>, usize)>)
    requires
        i <= s@.len(),
    ensures
        match spec_parse_items(s@, i as int) {
            Option::Some((vs, e)) => r matches Option::Some((rv, re)) && crate::values::view_values(
                rv@,
            ) == vs && re as int == e && i < re <= s@.len(),
            Option::None => r is None,
        },
    decreases s@.len() - i, 2int,
{
    let (v, j) = match parse_value_exec(s, i) {
        Option::Some(p) => p,
        Option::None => {
            return Option::None;
        },
    };
    let k = skip_ws_exec(s, j);
    if k < s.len() && s[k] == ',' {
        match parse_items_exec(s, k + 1) {
            Option::Some((mut vs, e)) => {
                let ghost pre = vs@;
                vs.insert(0, v);
                proof {
                    assert(vs@.drop_first() =~= pre);
                    assert(vs@[0] == v);
                    crate::values::lemma_view_values_len(vs@);
                    crate::values::lemma_view_values_len(vs@.drop_first());
                    assert forall|t: int|
                        0 <= t < vs@.len() implies #[trigger] crate::values::view_values(vs@)[t]
                        == (seq![v@] + crate::values::view_values(vs@.drop_first()))[t] by {
                        crate::values::lemma_view_values_index(vs@, t);
                        if t > 0 {
                            crate::values::lemma_view_values_index(vs@.drop_first(), t - 1);
                        }
                    }
                    assert(crate::values::view_values(vs@) =~= seq![v@]
                        + crate::values::view_values(vs@.drop_first()));
                }
                Option::Some((vs, e))
            },
            Option::None => Option::None,
        }
    } else if k < s.len() && s[k] == ']' {
        let mut vs: Vec<crate::values::Value> = Vec::new();
        vs.push(v);
        proof {
            crate::values::lemma_view_values_len(vs@);
            crate::values::lemma_view_values_index(vs@, 0);
            assert(crate::values::view_values(vs@) =~= seq![v@]);
        }
        Option::Some((vs, k + 1))
    } else {
        Option::None
    }
}

/// Parses comma-separated object members and the closing brace.
#[verifier::loop_isolation(false)]
fn parse_members_exec(s: &Vec<char>, i: usize) -> (r: Option<
    (Vec<(String, crate::values::Value)>, usize),
>)
    requires
        i <= s@.len(),
    ensures
        match spec_parse_members(s@, i as int) {
            Option::Some((es, e)) => r matches Option::Some((re_, ree)) && crate::values::view_entries(
                re_@,
            ) == es && ree as int == e && i < ree <= s@.len(),
            Option::None => r is None,
        },
    decreases s@.len() - i, 2int,
{
    let i0 = skip_ws_exec(s, i);
    let (key, j) = match parse_string_exec(s, i0) {
        Option::Some(p) => p,
        Option::None => {
            return Option::None;
        },
    };
    let k = skip_ws_exec(s, j);
    if !(k < s.len() && s[k] == ':') {
        return Option::None;
    }
    let (v, e) = match parse_value_exec(s, k + 1) {
        Option::Some(p) => p,
        Option::None => {
            return Option::None;
        },
    };
    let m = skip_ws_exec(s, e);
    if m < s.len() && s[m] == ',' {
        match parse_members_exec(s, m + 1) {
            Option::Some((mut es, e2)) => {
                let ghost pre = es@;
                es.insert(0, (key, v));
                proof {
                    assert(es@.drop_first() =~= pre);
                    assert(es@[0] == (key, v));
                    crate::values::lemma_view_entries_len(es@);
                    crate::values::lemma_view_entries_len(es@.drop_first());
                    assert forall|t: int|
                        0 <= t < es@.len() implies #[trigger] crate::values::view_entries(es@)[t]
                        == (seq![(key@, v@)] + crate::values::view_entries(es@.drop_first()))[
                        t] by {
                        crate::values::lemma_view_entries_index(es@, t);
                        if t > 0 {
                            crate::values::lemma_view_entries_index(es@.drop_first(), t - 1);
                        }
                    }
                    assert(crate::values::view_entries(es@) =~= seq![(key@, v@)]
                        + crate::values::view_entries(es@.drop_first()));
                }
                Option::Some((es, e2))
            },
            Option::None => Option::None,
        }
    } else if m < s.len() && s[m] == '}' {
        let mut es: Vec<(String, crate::values::Value)> = Vec::new();
        es.push((key, v));
        proof {
            crate::values::lemma_view_entries_len(es@);
            crate::values::lemma_view_entries_index(es@, 0);
            assert(crate::values::view_entries(es@) =~= seq![(key@, v@)]);
        }
        Option::Some((es, m + 1))
    } else {
        Option::None
    }
}

/// Parses a whole document: one value with only whitespace after it.
pub(crate) fn parse_text_exec(s: &Vec<char>) -> (r: Option<crate::values::Value>)
    ensures
        match spec_parse_text(s@) {
            Option::Some(v) => r matches Option::Some(rv) && rv@ == v,
            Option::None => r is None,
        },
{
    match parse_value_exec(s, 0) {
        Option::Some((v, j)) => {
            let k = skip_ws_exec(s, j);
            if k == s.len() {
                Option::Some(v)
            } else {
                Option::None
            }
        },
        Option::None => Option::None,
    }
}

} // verus!
