//! The tokenizing parser: an ordered-choice grammar over characters that
//! recognizes float, integer and text literals and single-code-point
//! identifiers, and the driver that turns a whole source string into a token
//! list.

use vstd::prelude::*;

use crate::types::char_to_string;
use crate::types::ops_model;
use crate::types::push_char;
use crate::types::Literal;
use crate::types::LiteralModel;
use crate::types::Op;
use crate::types::OpModel;

verus! {

/// Opening delimiter of a text literal (rightwards pushing hand).
pub const TEXT_OPEN: char = '\u{1FAF8}';

/// Closing delimiter of a text literal (leftwards pushing hand).
pub const TEXT_CLOSE: char = '\u{1FAF7}';

/// Escape marker inside a text literal (shushing face).
pub const TEXT_ESCAPE: char = '\u{1F92B}';

/// Whitespace skipped between tokens: space, tab, newline, carriage return.
pub open spec fn is_space_char(c: char) -> bool {
    c == ' ' || c == '\t' || c == '\n' || c == '\r'
}

/// ASCII decimal digit.
pub open spec fn is_digit_char(c: char) -> bool {
    48 <= (c as u32) && (c as u32) <= 57
}

/// Numeric value of an ASCII decimal digit.
pub open spec fn digit_val(c: char) -> int {
    (c as u32) - 48
}

/// Value of a string of ASCII decimal digits read in base ten.
pub open spec fn dec_val(s: Seq<char>) -> int
    decreases s.len(),
{
    if s.len() == 0 {
        0
    } else {
        10 * dec_val(s.drop_last()) + digit_val(s.last())
    }
}

/// First position at or after `i` that does not hold a digit.
pub open spec fn digit_run_end(s: Seq<char>, i: int) -> int
    decreases s.len() - i,
    when 0 <= i <= s.len()
{
    if i < s.len() && is_digit_char(s[i]) {
        digit_run_end(s, i + 1)
    } else {
        i
    }
}

/// First position at or after `i` that does not hold whitespace.
pub open spec fn skip_ws(s: Seq<char>, i: int) -> int
    decreases s.len() - i,
    when 0 <= i <= s.len()
{
    if i < s.len() && is_space_char(s[i]) {
        skip_ws(s, i + 1)
    } else {
        i
    }
}

/// Whether a numeric token starting at `i` carries a leading minus sign.
pub open spec fn has_sign(s: Seq<char>, i: int) -> bool {
    i < s.len() && s[i] == '-'
}

/// Position of the first digit of a numeric token starting at `i`.
pub open spec fn digits_start(s: Seq<char>, i: int) -> int {
    if has_sign(s, i) {
        i + 1
    } else {
        i
    }
}

/// End of the integer token starting at `i`: the end of the maximal digit run
/// after the optional sign.
pub open spec fn int_end(s: Seq<char>, i: int) -> int {
    digit_run_end(s, digits_start(s, i))
}

/// The integer grammar matches at `i`: an optional `-` followed by at least
/// one ASCII digit.
pub open spec fn matches_int(s: Seq<char>, i: int) -> bool {
    int_end(s, i) > digits_start(s, i)
}

/// The mathematical value of the integer token starting at `i`.
pub open spec fn int_value(s: Seq<char>, i: int) -> int {
    let v = dec_val(s.subrange(digits_start(s, i), int_end(s, i)));
    if has_sign(s, i) {
        -v
    } else {
        v
    }
}

/// Whether the integer token starting at `i` fits in a 64-bit signed integer.
/// A digit string whose value is out of this range is not an integer literal;
/// the grammar falls through to the remaining alternatives and, all failing,
/// the parse fails.
pub open spec fn int_fits(s: Seq<char>, i: int) -> bool {
    i64::MIN as int <= int_value(s, i) && int_value(s, i) <= i64::MAX as int
}

/// The float grammar matches at `i`: an optional `-`, one or more digits, a
/// `.`, and one or more digits. There is no leading-dot form and no exponent.
pub open spec fn matches_float(s: Seq<char>, i: int) -> bool {
    let d = digits_start(s, i);
    let e1 = digit_run_end(s, d);
    e1 > d && e1 < s.len() && s[e1] == '.' && digit_run_end(s, e1 + 1) > e1 + 1
}

/// End of the float token starting at `i`: the end of the maximal digit run
/// after the dot.
pub open spec fn float_end(s: Seq<char>, i: int) -> int {
    digit_run_end(s, digit_run_end(s, digits_start(s, i)) + 1)
}

/// One fragment of a text body at `i`: an escape marker followed by any
/// single character, contributing that character literally, or any single
/// character that is not the escape, close or open marker, contributing
/// itself. Returns the position after the fragment and the contributed
/// character.
pub open spec fn fragment_at(s: Seq<char>, i: int) -> Option<(int, char)> {
    if i < s.len() && s[i] == TEXT_ESCAPE && i + 1 < s.len() {
        Some((i + 2, s[i + 1]))
    } else if i < s.len() && s[i] != TEXT_ESCAPE && s[i] != TEXT_CLOSE && s[i] != TEXT_OPEN {
        Some((i + 1, s[i]))
    } else {
        None
    }
}

/// The body of a text literal read from `i`: fragments up to the first
/// unescaped close marker, which is consumed and not included. Returns the
/// position after the close marker and the contributed characters, or `None`
/// if the input ends, or a character that is no fragment start appears,
/// before an unescaped close marker.
pub open spec fn text_body(s: Seq<char>, i: int) -> Option<(int, Seq<char>)>
    decreases s.len() - i,
    when 0 <= i <= s.len()
{
    if i < s.len() && s[i] == TEXT_CLOSE {
        Some((i + 1, Seq::empty()))
    } else {
        match fragment_at(s, i) {
            Some((k, c)) => match text_body(s, k) {
                Some((e, t)) => Some((e, seq![c] + t)),
                None => None,
            },
            None => None,
        }
    }
}

/// The text grammar matches at `i`: an open marker followed by a body with an
/// unescaped close marker.
pub open spec fn matches_text(s: Seq<char>, i: int) -> bool {
    i < s.len() && s[i] == TEXT_OPEN && text_body(s, i + 1) is Some
}

/// The literal grammar at `i`: ordered choice of float, then integer, then
/// text. Trying float before integer is load-bearing: a digit string with a
/// fractional part must become one float token, not an integer and a dangling
/// dot. Returns the position after the literal and its model.
pub open spec fn literal_at(s: Seq<char>, i: int) -> Option<(int, LiteralModel)> {
    if matches_float(s, i) {
        Some((float_end(s, i), LiteralModel::Float(s.subrange(i, float_end(s, i)))))
    } else if matches_int(s, i) && int_fits(s, i) {
        Some((int_end(s, i), LiteralModel::Int(int_value(s, i) as i64)))
    } else if matches_text(s, i) {
        match text_body(s, i + 1) {
            Some((e, t)) => Some((e, LiteralModel::Text(t))),
            None => None,
        }
    } else {
        None
    }
}

/// Identifier characters: one Unicode scalar from either of the two reserved
/// code-point blocks (symbols and pictographs; geometric and miscellaneous
/// symbols and arrows).
pub open spec fn is_ident_char(c: char) -> bool {
    (0x1F300 <= (c as u32) && (c as u32) <= 0x1FFFF) || (0x25A0 <= (c as u32) && (c as u32)
        <= 0x2BFF)
}

/// One token at `i`: a literal, or failing that a single identifier
/// character. Returns the position after the token and its model.
pub open spec fn token_at(s: Seq<char>, i: int) -> Option<(int, OpModel)> {
    match literal_at(s, i) {
        Some((k, l)) => Some((k, OpModel::Literal(l))),
        None => if i < s.len() && is_ident_char(s[i]) {
            Some((i + 1, OpModel::Identifier(seq![s[i]])))
        } else {
            None
        },
    }
}

/// Outcome of parsing a whole source string: the complete token list, or the
/// character position at which no token could be read.
pub enum ParseOutcome {
    Tokens(Seq<OpModel>),
    Fail(int),
}

/// Parsing the whole input from position `i`: skip whitespace; if the input
/// is exhausted the token list is complete; otherwise read one token and
/// continue after it, and if no token matches the parse fails at that
/// position.
pub open spec fn parse_all(s: Seq<char>, i: int) -> ParseOutcome
    decreases s.len() - i,
    when 0 <= i <= s.len()
{
    let j = skip_ws(s, i);
    if j == s.len() {
        ParseOutcome::Tokens(Seq::empty())
    } else {
        match token_at(s, j) {
            None => ParseOutcome::Fail(j),
            Some((k, op)) => {
                proof {
                    lemma_skip_ws_bounds(s, i);
                    lemma_token_at_bounds(s, j);
                }
                match parse_all(s, k) {
                    ParseOutcome::Tokens(t) => ParseOutcome::Tokens(seq![op] + t),
                    ParseOutcome::Fail(p) => ParseOutcome::Fail(p),
                }
            },
        }
    }
}

/// Bounds of `skip_ws`: it moves forward and stays inside the input.
pub proof fn lemma_skip_ws_bounds(s: Seq<char>, i: int)
    requires
        0 <= i <= s.len(),
    ensures
        i <= skip_ws(s, i) <= s.len(),
    decreases s.len() - i,
{
    if i < s.len() && is_space_char(s[i]) {
        lemma_skip_ws_bounds(s, i + 1);
    }
}

/// Bounds and content of `digit_run_end`: it moves forward inside the input,
/// everything before it from `i` is a digit, and it is maximal.
pub proof fn lemma_digit_run_end(s: Seq<char>, i: int)
    requires
        0 <= i <= s.len(),
    ensures
        i <= digit_run_end(s, i) <= s.len(),
        forall|k: int| i <= k < digit_run_end(s, i) ==> is_digit_char(s[k]),
        digit_run_end(s, i) < s.len() ==> !is_digit_char(s[digit_run_end(s, i)]),
    decreases s.len() - i,
{
    if i < s.len() && is_digit_char(s[i]) {
        lemma_digit_run_end(s, i + 1);
    }
}

/// Bounds of `text_body`: a successful body ends after `i` and inside the
/// input.
pub proof fn lemma_text_body_bounds(s: Seq<char>, i: int)
    requires
        0 <= i <= s.len(),
    ensures
        match text_body(s, i) {
            Some((e, t)) => i < e <= s.len(),
            None => true,
        },
    decreases s.len() - i,
{
    if i < s.len() && s[i] == TEXT_CLOSE {
    } else {
        match fragment_at(s, i) {
            Some((k, c)) => {
                lemma_text_body_bounds(s, k);
            },
            None => {},
        }
    }
}

/// Bounds of `token_at`: a token consumes at least one character and ends
/// inside the input.
pub proof fn lemma_token_at_bounds(s: Seq<char>, i: int)
    requires
        0 <= i <= s.len(),
    ensures
        match token_at(s, i) {
            Some((k, op)) => i < k <= s.len(),
            None => true,
        },
{
    lemma_digit_run_end(s, digits_start(s, i));
    if matches_float(s, i) {
        lemma_digit_run_end(s, digit_run_end(s, digits_start(s, i)) + 1);
    }
    if matches_text(s, i) {
        lemma_text_body_bounds(s, i + 1);
    }
}

/// The digit run from `i` ends exactly at the first non-digit position.
pub proof fn lemma_digit_run_value(s: Seq<char>, i: int, m: int)
    requires
        0 <= i <= m <= s.len(),
        forall|k: int| i <= k < m ==> is_digit_char(s[k]),
        m < s.len() ==> !is_digit_char(s[m]),
    ensures
        digit_run_end(s, i) == m,
    decreases m - i,
{
    if i < m {
        lemma_digit_run_value(s, i + 1, m);
    }
}

/// A string of digits has a non-negative value.
pub proof fn lemma_dec_val_nonneg(s: Seq<char>)
    requires
        forall|k: int| 0 <= k < s.len() ==> is_digit_char(s[k]),
    ensures
        dec_val(s) >= 0,
    decreases s.len(),
{
    if s.len() > 0 {
        lemma_dec_val_nonneg(s.drop_last());
    }
}

/// Appending digits never makes the value smaller: the value of a prefix is a
/// lower bound for the value of the whole digit string.
pub proof fn lemma_dec_val_prefix_le(s: Seq<char>, m: int)
    requires
        forall|k: int| 0 <= k < s.len() ==> is_digit_char(s[k]),
        0 <= m <= s.len(),
    ensures
        dec_val(s.take(m)) <= dec_val(s),
    decreases s.len() - m,
{
    if m < s.len() {
        lemma_dec_val_prefix_le(s, m + 1);
        assert(s.take(m + 1).drop_last() =~= s.take(m));
        assert(s.take(m + 1).last() == s[m]);
        lemma_dec_val_nonneg(s.take(m));
    } else {
        assert(s.take(m) =~= s);
    }
}

/// Integer literal round trip: an optionally signed string of decimal digits
/// whose value lies in the 64-bit signed range is consumed whole by the token
/// grammar and denotes exactly that value.
pub proof fn lemma_integer_literal_round_trip(neg: bool, digits: Seq<char>)
    requires
        digits.len() >= 1,
        forall|k: int| 0 <= k < digits.len() ==> is_digit_char(digits[k]),
        neg ==> -dec_val(digits) >= i64::MIN as int,
        !neg ==> dec_val(digits) <= i64::MAX as int,
    ensures
        ({
            let s = if neg {
                seq!['-'] + digits
            } else {
                digits
            };
            let v: int = if neg {
                -dec_val(digits)
            } else {
                dec_val(digits)
            };
            token_at(s, 0) == Some((s.len() as int, OpModel::Literal(LiteralModel::Int(v as i64))))
        }),
{
    let s = if neg {
        seq!['-'] + digits
    } else {
        digits
    };
    let ds = digits_start(s, 0);
    lemma_dec_val_nonneg(digits);
    assert(has_sign(s, 0) == neg);
    assert(forall|k: int| ds <= k < s.len() ==> is_digit_char(s[k]));
    lemma_digit_run_value(s, ds, s.len() as int);
    assert(s.subrange(ds, s.len() as int) =~= digits);
    assert(!matches_float(s, 0));
    assert(matches_int(s, 0));
    assert(int_fits(s, 0));
}

/// The float grammar comes before the integer grammar: an optionally signed
/// digit string with a dot and a fractional digit group is consumed whole as
/// one float token — never as an integer literal with a dangling fractional
/// part, although the integer grammar matches its prefix too.
pub proof fn lemma_float_literal_one_token(neg: bool, ip: Seq<char>, fp: Seq<char>)
    requires
        ip.len() >= 1,
        fp.len() >= 1,
        forall|k: int| 0 <= k < ip.len() ==> is_digit_char(ip[k]),
        forall|k: int| 0 <= k < fp.len() ==> is_digit_char(fp[k]),
    ensures
        ({
            let s = (if neg {
                seq!['-']
            } else {
                Seq::empty()
            }) + ip + seq!['.'] + fp;
            &&& token_at(s, 0) == Some(
                (s.len() as int, OpModel::Literal(LiteralModel::Float(s))),
            )
            &&& matches_int(s, 0)
        }),
{
    let s = (if neg {
        seq!['-']
    } else {
        Seq::empty()
    }) + ip + seq!['.'] + fp;
    let ds = digits_start(s, 0);
    let dot = ds + ip.len();
    assert(has_sign(s, 0) == neg);
    assert(forall|k: int| ds <= k < dot ==> is_digit_char(s[k]));
    assert(s[dot] == '.');
    assert(!is_digit_char('.'));
    lemma_digit_run_value(s, ds, dot);
    assert(forall|k: int| dot + 1 <= k < s.len() ==> is_digit_char(s[k]));
    lemma_digit_run_value(s, dot + 1, s.len() as int);
    assert(matches_float(s, 0));
    assert(float_end(s, 0) == s.len() as int);
    assert(s.subrange(0, s.len() as int) =~= s);
    assert(matches_int(s, 0));
}

/// The identifier grammar accepts exactly one character from the two
/// reserved code-point blocks. Every ASCII character lies outside both
/// blocks, and an ASCII character that starts no numeric literal — any
/// letter, for one — is no token at all.
pub proof fn lemma_identifier_grammar(c: char)
    ensures
        is_ident_char(c) ==> token_at(seq![c], 0) == Some(
            (1int, OpModel::Identifier(seq![c])),
        ),
        (c as u32) < 0x80 ==> !is_ident_char(c),
        (c as u32) < 0x80 && !is_digit_char(c) ==> token_at(seq![c], 0) is None,
{
    let s = seq![c];
    if !is_digit_char(c) {
        assert(digit_run_end(s, digits_start(s, 0)) == digits_start(s, 0));
    }
    if is_ident_char(c) {
        assert(c != '-' && !is_digit_char(c)) by {
            assert(('-' as u32) == 45);
        }
        assert(text_body(s, 1) is None);
        assert(!matches_float(s, 0) && !matches_int(s, 0) && !matches_text(s, 0));
    }
    if (c as u32) < 0x80 && !is_digit_char(c) {
        if c == '-' {
            assert(digit_run_end(s, 1) == 1);
            assert(!matches_int(s, 0) && !matches_float(s, 0));
        }
        assert(text_body(s, 1) is None);
        assert(token_at(s, 0) is None);
    }
}

/// Parsing is deterministic: the outcome is a function of the input text
/// alone, so running the parser again on the same input yields the same
/// token list or the same failure. The executable parser's contract pins its
/// result to this function of the input, so two runs agree.
pub proof fn lemma_parse_deterministic(s1: Seq<char>, s2: Seq<char>)
    requires
        s1 == s2,
    ensures
        parse_all(s1, 0) == parse_all(s2, 0),
{
}

/// A failure position in [`ParseError::pos`] is a character index into the
/// source string.
#[derive(Debug, Clone, Copy, PartialEq, Eq)]
pub struct ParseError {
    pub pos: usize,
}

fn is_space(c: char) -> (b: bool)
    ensures
        b == is_space_char(c),
{
    c == ' ' || c == '\t' || c == '\n' || c == '\r'
}

fn is_digit(c: char) -> (b: bool)
    ensures
        b == is_digit_char(c),
{
    let u = c as u32;
    48 <= u && u <= 57
}

fn is_ident(c: char) -> (b: bool)
    ensures
        b == is_ident_char(c),
{
    let u = c as u32;
    (0x1F300 <= u && u <= 0x1FFFF) || (0x25A0 <= u && u <= 0x2BFF)
}

/// First position at or after `i` that does not hold whitespace.
fn skip_ws_from(s: &str, i: usize) -> (j: usize)
    requires
        i <= s@.len(),
    ensures
        j as int == skip_ws(s@, i as int),
        i <= j <= s@.len(),
{
    let n = s.unicode_len();
    let mut j = i;
    while j < n && is_space(s.get_char(j))
        invariant
            i <= j <= n,
            n == s@.len(),
            skip_ws(s@, i as int) == skip_ws(s@, j as int),
        decreases n - j,
    {
        j = j + 1;
    }
    j
}

/// First position at or after `i` that does not hold a digit.
fn digit_run_from(s: &str, i: usize) -> (j: usize)
    requires
        i <= s@.len(),
    ensures
        j as int == digit_run_end(s@, i as int),
        i <= j <= s@.len(),
{
    let n = s.unicode_len();
    let mut j = i;
    while j < n && is_digit(s.get_char(j))
        invariant
            i <= j <= n,
            n == s@.len(),
            digit_run_end(s@, i as int) == digit_run_end(s@, j as int),
        decreases n - j,
    {
        j = j + 1;
    }
    j
}

/// The magnitude of the smallest 64-bit signed integer.
const I64_MIN_MAGNITUDE: u64 = 0x8000_0000_0000_0000;

/// The integer grammar at position `i`: maximal sign-and-digit run, value
/// checked against the 64-bit signed range.
fn scan_int(s: &str, i: usize) -> (r: Option<(usize, i64)>)
    requires
        i <= s@.len(),
    ensures
        match r {
            Some((k, v)) => {
                &&& matches_int(s@, i as int)
                &&& int_fits(s@, i as int)
                &&& k as int == int_end(s@, i as int)
                &&& v as int == int_value(s@, i as int)
                &&& i < k <= s@.len()
            },
            None => !(matches_int(s@, i as int) && int_fits(s@, i as int)),
        },
{
    let n = s.unicode_len();
    let neg = i < n && s.get_char(i) == '-';
    let d = if neg {
        i + 1
    } else {
        i
    };
    let e = digit_run_from(s, d);
    proof {
        lemma_digit_run_end(s@, d as int);
    }
    if e == d {
        return None;
    }
    let ghost digits = s@.subrange(d as int, e as int);
    proof {
        lemma_dec_val_nonneg(digits);
    }
    let mut k = d;
    let mut mag: u64 = 0;
    while k < e
        invariant
            i <= d <= k <= e <= n,
            n == s@.len(),
            d as int == digits_start(s@, i as int),
            e as int == int_end(s@, i as int),
            d < e,
            digits == s@.subrange(d as int, e as int),
            forall|m: int| d <= m < e ==> is_digit_char(s@[m]),
            mag as int == dec_val(s@.subrange(d as int, k as int)),
            mag <= I64_MIN_MAGNITUDE,
        decreases e - k,
    {
        let c = s.get_char(k);
        let dv = (c as u32 - 48) as u64;
        let ghost prefix = s@.subrange(d as int, k + 1);
        proof {
            assert(prefix.drop_last() =~= s@.subrange(d as int, k as int));
            assert(prefix.last() == s@[k as int]);
            assert(forall|m: int| 0 <= m < digits.len() ==> is_digit_char(digits[m]));
            assert(prefix =~= digits.take(k + 1 - d));
            lemma_dec_val_prefix_le(digits, k + 1 - d);
        }
        let next = match mag.checked_mul(10) {
            Some(m10) => m10.checked_add(dv),
            None => None,
        };
        match next {
            Some(m) if m <= I64_MIN_MAGNITUDE => {
                mag = m;
            },
            _ => {
                // the digit run's value already exceeds the 64-bit signed
                // range, whatever the sign
                assert(dec_val(prefix) > I64_MIN_MAGNITUDE);
                assert(dec_val(digits) > I64_MIN_MAGNITUDE);
                assert(d as int == digits_start(s@, i as int));
                assert(e as int == int_end(s@, i as int));
                assert(int_value(s@, i as int) == if has_sign(s@, i as int) {
                    -dec_val(digits)
                } else {
                    dec_val(digits)
                });
                assert(!int_fits(s@, i as int));
                return None;
            },
        }
        k = k + 1;
    }
    proof {
        assert(s@.subrange(d as int, e as int) =~= digits);
    }
    if neg {
        if mag == I64_MIN_MAGNITUDE {
            Some((e, i64::MIN))
        } else {
            Some((e, -(mag as i64)))
        }
    } else {
        if mag == I64_MIN_MAGNITUDE {
            // 2^63 is one past the largest positive 64-bit signed integer
            return None;
        }
        Some((e, mag as i64))
    }
}

/// The float grammar at position `i`: maximal digit runs around the dot.
/// Returns the position after the token; the lexeme is the consumed text.
fn scan_float(s: &str, i: usize) -> (r: Option<usize>)
    requires
        i <= s@.len(),
    ensures
        match r {
            Some(k) => {
                &&& matches_float(s@, i as int)
                &&& k as int == float_end(s@, i as int)
                &&& i < k <= s@.len()
            },
            None => !matches_float(s@, i as int),
        },
{
    let n = s.unicode_len();
    let neg = i < n && s.get_char(i) == '-';
    let d = if neg {
        i + 1
    } else {
        i
    };
    let e1 = digit_run_from(s, d);
    if e1 == d {
        return None;
    }
    if e1 == n {
        return None;
    }
    if s.get_char(e1) != '.' {
        return None;
    }
    let e2 = digit_run_from(s, e1 + 1);
    if e2 == e1 + 1 {
        return None;
    }
    Some(e2)
}

/// The text grammar at position `i`: an open marker, fragments, an unescaped
/// close marker. Returns the position after the close marker and the body.
fn scan_text(s: &str, i: usize) -> (r: Option<(usize, String)>)
    requires
        i <= s@.len(),
    ensures
        match r {
            Some((k, t)) => {
                &&& matches_text(s@, i as int)
                &&& text_body(s@, i as int + 1) == Some::<(int, Seq<char>)>((k as int, t@))
                &&& i < k <= s@.len()
            },
            None => !matches_text(s@, i as int),
        },
{
    let n = s.unicode_len();
    if i == n || s.get_char(i) != TEXT_OPEN {
        return None;
    }
    let mut j = i + 1;
    let mut acc = String::new();
    loop
        invariant
            n == s@.len(),
            i < n,
            s@[i as int] == TEXT_OPEN,
            i + 1 <= j <= n,
            (match text_body(s@, j as int) {
                Some((e, t)) => text_body(s@, i as int + 1) == Some::<(int, Seq<char>)>((
                    e,
                    acc@ + t,
                )),
                None => text_body(s@, i as int + 1) is None,
            }),
        decreases n - j,
    {
        if j == n {
            return None;
        }
        let c = s.get_char(j);
        if c == TEXT_CLOSE {
            proof {
                assert(acc@ + Seq::<char>::empty() =~= acc@);
            }
            return Some((j + 1, acc));
        }
        if c == TEXT_ESCAPE {
            if j + 1 == n {
                return None;
            }
            let c2 = s.get_char(j + 1);
            let ghost before = acc@;
            push_char(&mut acc, c2);
            proof {
                if let Some((e, t)) = text_body(s@, j as int + 2) {
                    assert(acc@ + t =~= before + (seq![c2] + t));
                }
            }
            j = j + 2;
        } else if c == TEXT_OPEN {
            return None;
        } else {
            let ghost before = acc@;
            push_char(&mut acc, c);
            proof {
                if let Some((e, t)) = text_body(s@, j as int + 1) {
                    assert(acc@ + t =~= before + (seq![c] + t));
                }
            }
            j = j + 1;
        }
    }
}

/// The literal grammar at position `i`: float, then integer, then text.
fn scan_literal(s: &str, i: usize) -> (r: Option<(usize, Literal)>)
    requires
        i <= s@.len(),
    ensures
        match r {
            Some((k, lit)) => {
                &&& literal_at(s@, i as int) == Some::<(int, LiteralModel)>((k as int, lit@))
                &&& i < k <= s@.len()
            },
            None => literal_at(s@, i as int) is None,
        },
{
    match scan_float(s, i) {
        Some(k) => {
            let lex = s.substring_char(i, k);
            return Some((k, Literal::Float(lex.to_owned())));
        },
        None => {},
    }
    match scan_int(s, i) {
        Some((k, v)) => {
            return Some((k, Literal::Int(v)));
        },
        None => {},
    }
    match scan_text(s, i) {
        Some((k, t)) => {
            return Some((k, Literal::Text(t)));
        },
        None => {},
    }
    None
}

/// One token at position `i`: a literal, or a single identifier character.
fn next_token(s: &str, i: usize) -> (r: Option<(usize, Op)>)
    requires
        i <= s@.len(),
    ensures
        match r {
            Some((k, op)) => {
                &&& token_at(s@, i as int) == Some::<(int, OpModel)>((k as int, op@))
                &&& i < k <= s@.len()
            },
            None => token_at(s@, i as int) is None,
        },
{
    match scan_literal(s, i) {
        Some((k, lit)) => {
            return Some((k, Op::Literal(lit)));
        },
        None => {},
    }
    let n = s.unicode_len();
    if i < n {
        let c = s.get_char(i);
        if is_ident(c) {
            return Some((i + 1, Op::Identifier(char_to_string(c))));
        }
    }
    None
}

/// An optionally signed decimal integer at the start of the input. On success
/// the unconsumed remainder and the value are returned; the token is the
/// maximal sign-and-digit run, and its value must fit in 64 signed bits.
pub fn parse_integer<'a>(input: &'a str) -> (r: Result<(&'a str, i64), ParseError>)
    ensures
        match r {
            Ok((rest, v)) => {
                &&& matches_int(input@, 0)
                &&& int_fits(input@, 0)
                &&& v as int == int_value(input@, 0)
                &&& rest@ == input@.subrange(int_end(input@, 0), input@.len() as int)
            },
            Err(e) => {
                &&& !(matches_int(input@, 0) && int_fits(input@, 0))
                &&& e.pos == 0
            },
        },
{
    match scan_int(input, 0) {
        Some((k, v)) => {
            let n = input.unicode_len();
            let rest = input.substring_char(k, n);
            Ok((rest, v))
        },
        None => Err(ParseError { pos: 0 }),
    }
}

/// A float literal at the start of the input: optional `-`, digits, `.`,
/// digits. On success the unconsumed remainder and the exact consumed text
/// are returned; the text determines the IEEE value.
pub fn parse_float<'a>(input: &'a str) -> (r: Result<(&'a str, String), ParseError>)
    ensures
        match r {
            Ok((rest, lex)) => {
                &&& matches_float(input@, 0)
                &&& lex@ == input@.subrange(0, float_end(input@, 0))
                &&& rest@ == input@.subrange(float_end(input@, 0), input@.len() as int)
            },
            Err(e) => {
                &&& !matches_float(input@, 0)
                &&& e.pos == 0
            },
        },
{
    match scan_float(input, 0) {
        Some(k) => {
            let n = input.unicode_len();
            let lex = input.substring_char(0, k);
            let rest = input.substring_char(k, n);
            Ok((rest, lex.to_owned()))
        },
        None => Err(ParseError { pos: 0 }),
    }
}

/// An escaped text fragment at the start of the input: the escape marker
/// followed by any single character, which is returned literally.
pub fn parse_escaped_char<'a>(input: &'a str) -> (r: Result<(&'a str, char), ParseError>)
    ensures
        match r {
            Ok((rest, c)) => {
                &&& input@.len() >= 2
                &&& input@[0] == TEXT_ESCAPE
                &&& c == input@[1]
                &&& rest@ == input@.subrange(2, input@.len() as int)
            },
            Err(e) => {
                &&& input@.len() < 2 || input@[0] != TEXT_ESCAPE
                &&& e.pos == 0
            },
        },
{
    let n = input.unicode_len();
    if n >= 2 && input.get_char(0) == TEXT_ESCAPE {
        let c = input.get_char(1);
        let rest = input.substring_char(2, n);
        Ok((rest, c))
    } else {
        Err(ParseError { pos: 0 })
    }
}

/// An unescaped text fragment at the start of the input: any single character
/// other than the escape, close and open markers.
pub fn parse_unescaped_char<'a>(input: &'a str) -> (r: Result<(&'a str, char), ParseError>)
    ensures
        match r {
            Ok((rest, c)) => {
                &&& input@.len() >= 1
                &&& c == input@[0]
                &&& c != TEXT_ESCAPE && c != TEXT_CLOSE && c != TEXT_OPEN
                &&& rest@ == input@.subrange(1, input@.len() as int)
            },
            Err(e) => {
                &&& input@.len() == 0 || input@[0] == TEXT_ESCAPE || input@[0] == TEXT_CLOSE
                    || input@[0] == TEXT_OPEN
                &&& e.pos == 0
            },
        },
{
    let n = input.unicode_len();
    if n >= 1 {
        let c = input.get_char(0);
        if c != TEXT_ESCAPE && c != TEXT_CLOSE && c != TEXT_OPEN {
            let rest = input.substring_char(1, n);
            return Ok((rest, c));
        }
    }
    Err(ParseError { pos: 0 })
}

/// One text fragment at the start of the input: an escaped fragment, or
/// failing that an unescaped one.
pub fn parse_text_fragment<'a>(input: &'a str) -> (r: Result<(&'a str, char), ParseError>)
    ensures
        match r {
            Ok((rest, c)) => ({
                &&& fragment_at(input@, 0) is Some
                &&& c == fragment_at(input@, 0).unwrap().1
                &&& rest@ == input@.subrange(fragment_at(input@, 0).unwrap().0, input@.len() as int)
            }),
            Err(e) => fragment_at(input@, 0) is None && e.pos == 0,
        },
{
    match parse_escaped_char(input) {
        Ok((rest, c)) => Ok((rest, c)),
        Err(_) => match parse_unescaped_char(input) {
            Ok((rest, c)) => Ok((rest, c)),
            Err(_) => Err(ParseError { pos: 0 }),
        },
    }
}

/// A text literal at the start of the input: open marker, fragments, close
/// marker. On success the unconsumed remainder and the body are returned.
pub fn parse_text<'a>(input: &'a str) -> (r: Result<(&'a str, String), ParseError>)
    ensures
        match r {
            Ok((rest, t)) => ({
                &&& matches_text(input@, 0)
                &&& t@ == text_body(input@, 1).unwrap().1
                &&& rest@ == input@.subrange(text_body(input@, 1).unwrap().0, input@.len() as int)
            }),
            Err(e) => !matches_text(input@, 0) && e.pos == 0,
        },
{
    match scan_text(input, 0) {
        Some((k, t)) => {
            let n = input.unicode_len();
            let rest = input.substring_char(k, n);
            Ok((rest, t))
        },
        None => Err(ParseError { pos: 0 }),
    }
}

/// A literal at the start of the input: float, then integer, then text.
pub fn parse_literal<'a>(input: &'a str) -> (r: Result<(&'a str, Literal), ParseError>)
    ensures
        match r {
            Ok((rest, lit)) => ({
                &&& literal_at(input@, 0) is Some
                &&& lit@ == literal_at(input@, 0).unwrap().1
                &&& rest@ == input@.subrange(literal_at(input@, 0).unwrap().0, input@.len() as int)
            }),
            Err(e) => literal_at(input@, 0) is None && e.pos == 0,
        },
{
    match scan_literal(input, 0) {
        Some((k, lit)) => {
            let n = input.unicode_len();
            let rest = input.substring_char(k, n);
            Ok((rest, lit))
        },
        None => Err(ParseError { pos: 0 }),
    }
}

/// An identifier at the start of the input: exactly one character from the
/// reserved code-point blocks, returned as a one-character string.
pub fn parse_identifier<'a>(input: &'a str) -> (r: Result<(&'a str, String), ParseError>)
    ensures
        match r {
            Ok((rest, id)) => {
                &&& input@.len() >= 1
                &&& is_ident_char(input@[0])
                &&& id@ == seq![input@[0]]
                &&& rest@ == input@.subrange(1, input@.len() as int)
            },
            Err(e) => {
                &&& input@.len() == 0 || !is_ident_char(input@[0])
                &&& e.pos == 0
            },
        },
{
    let n = input.unicode_len();
    if n >= 1 {
        let c = input.get_char(0);
        if is_ident(c) {
            let rest = input.substring_char(1, n);
            return Ok((rest, char_to_string(c)));
        }
    }
    Err(ParseError { pos: 0 })
}

/// One token: leading whitespace is skipped, then a literal is tried and,
/// failing that, an identifier.
pub fn parse_op<'a>(input: &'a str) -> (r: Result<(&'a str, Op), ParseError>)
    ensures
        match r {
            Ok((rest, op)) => ({
                let j = skip_ws(input@, 0);
                &&& token_at(input@, j) is Some
                &&& op@ == token_at(input@, j).unwrap().1
                &&& rest@ == input@.subrange(token_at(input@, j).unwrap().0, input@.len() as int)
            }),
            Err(e) => ({
                let j = skip_ws(input@, 0);
                &&& token_at(input@, j) is None
                &&& e.pos as int == j
            }),
        },
{
    let j = skip_ws_from(input, 0);
    match next_token(input, j) {
        Some((k, op)) => {
            let n = input.unicode_len();
            let rest = input.substring_char(k, n);
            Ok((rest, op))
        },
        None => Err(ParseError { pos: j }),
    }
}

/// The whole input as a token list: tokens separated by whitespace, until the
/// input, less trailing whitespace, is exhausted. Any position where no token
/// can be read fails the whole parse and is reported in the error.
pub fn parse_ops(input: &str) -> (r: Result<Vec<Op>, ParseError>)
    ensures
        match r {
            Ok(ops) => parse_all(input@, 0) == ParseOutcome::Tokens(ops_model(ops@)),
            Err(e) => parse_all(input@, 0) == ParseOutcome::Fail(e.pos as int),
        },
{
    let n = input.unicode_len();
    let mut pos: usize = 0;
    let mut ops: Vec<Op> = Vec::new();
    loop
        invariant
            pos <= n,
            n == input@.len(),
            (match parse_all(input@, pos as int) {
                ParseOutcome::Tokens(t) => parse_all(input@, 0) == ParseOutcome::Tokens(
                    ops_model(ops@) + t,
                ),
                ParseOutcome::Fail(p) => parse_all(input@, 0) == ParseOutcome::Fail(p),
            }),
        decreases n - pos,
    {
        let j = skip_ws_from(input, pos);
        if j == n {
            proof {
                assert(ops_model(ops@) + Seq::<OpModel>::empty() =~= ops_model(ops@));
            }
            return Ok(ops);
        }
        match next_token(input, j) {
            None => {
                return Err(ParseError { pos: j });
            },
            Some((k, op)) => {
                let ghost old_ops = ops@;
                let ghost opm = op@;
                ops.push(op);
                proof {
                    assert(ops_model(ops@) =~= ops_model(old_ops).push(opm));
                    match parse_all(input@, k as int) {
                        ParseOutcome::Tokens(t) => {
                            assert(ops_model(old_ops).push(opm) + t =~= ops_model(old_ops) + (seq![
                                opm,
                            ] + t));
                        },
                        ParseOutcome::Fail(p) => {},
                    }
                }
                pos = k;
            },
        }
    }
}

} // verus!
