//! The grammar engine: recognizers for each JSON grammar rule.
//!
//! Every rule has a specification-level recognizer (`sp_*`), a total
//! function from a character sequence and a start position to an outcome:
//! either the position one past the consumed span, or the position at which
//! recognition failed together with what was expected there.  The executable
//! recognizers are proved to return exactly the outcome of their
//! specification counterparts.

use vstd::prelude::*;

verus! {

use crate::document::JsonParseError;
use vstd::string::StrSliceExecFns;

/// What the engine expected at the position where recognition failed.
#[derive(Clone, Copy, Debug, PartialEq, Eq, Structural)]
pub enum Expect {
    /// A JSON value (object, array, string, number, `true`, `false`, `null`).
    JsonValue,
    /// The opening `{` of an object.
    ObjectOpen,
    /// The opening `[` of an array.
    ArrayOpen,
    /// The opening `"` of a string.
    StringOpen,
    /// A first key string or the closing `}` of an object.
    PairOrObjectEnd,
    /// A key string after a comma inside an object.
    Pair,
    /// The `:` between a key and its value.
    Colon,
    /// A `,` before a further pair or the closing `}` of an object.
    CommaOrObjectEnd,
    /// A `,` before a further element or the closing `]` of an array.
    CommaOrArrayEnd,
    /// An unescaped string character (control characters are not allowed).
    StringChar,
    /// The closing `"` of a string (the input ended inside the string).
    StringEnd,
    /// A valid escape character after a backslash.
    Escape,
    /// A hexadecimal digit inside a `\u` escape.
    HexDigit,
    /// A decimal digit inside a number.
    Digit,
    /// The remainder of one of the literals `true`, `false` or `null`.
    Literal,
    /// The end of the input after a complete document.
    EndOfInput,
}

/// The specification-level result of running a recognizer: either the
/// position one past the consumed span, or the failure position with what
/// was expected there.
pub enum SpecOutcome {
    Matched(int),
    Failed(int, Expect),
}

/// The executable result of running a recognizer.
#[derive(Clone, Copy, Debug, PartialEq, Eq, Structural)]
pub enum Outcome {
    /// The rule matched; the position one past the consumed span.
    Matched(usize),
    /// The rule failed at this position, expecting the given token.
    Failed(usize, Expect),
}

impl View for Outcome {
    type V = SpecOutcome;

    open spec fn view(&self) -> SpecOutcome {
        match self {
            Outcome::Matched(end) => SpecOutcome::Matched(*end as int),
            Outcome::Failed(at, exp) => SpecOutcome::Failed(*at as int, *exp),
        }
    }
}

/// Insignificant whitespace: space, tab, newline, carriage return.
pub open spec fn is_ws_char(c: char) -> bool {
    c == ' ' || c == '\t' || c == '\n' || c == '\r'
}

/// A decimal digit.
pub open spec fn is_digit_char(c: char) -> bool {
    '0' as u32 <= c as u32 && c as u32 <= '9' as u32
}

/// A hexadecimal digit, as allowed inside a `\u` escape.
pub open spec fn is_hex_char(c: char) -> bool {
    is_digit_char(c)
    || ('a' as u32 <= c as u32 && c as u32 <= 'f' as u32)
    || ('A' as u32 <= c as u32 && c as u32 <= 'F' as u32)
}

/// An identifier-continuation character: a literal such as `true` must not
/// be directly followed by one (this keeps `truee` from matching `true`).
pub open spec fn is_ident_char(c: char) -> bool {
    ('a' as u32 <= c as u32 && c as u32 <= 'z' as u32)
    || ('A' as u32 <= c as u32 && c as u32 <= 'Z' as u32)
    || is_digit_char(c)
    || c == '_'
}

/// A single-character escape: one of `" \ / b f n r t` after a backslash.
pub open spec fn is_simple_escape_char(c: char) -> bool {
    c == '"' || c == '\\' || c == '/' || c == 'b' || c == 'f' || c == 'n' || c == 'r' || c == 't'
}

/// A control character, which may not appear unescaped inside a string.
pub open spec fn is_control_char(c: char) -> bool {
    c as u32 <= 0x1F
}

/// The position of the first non-whitespace character at or after `i`
/// (or the end of the input).
pub open spec fn sp_ws(s: Seq<char>, i: int) -> int
    decreases s.len() - i,
{
    if 0 <= i && i < s.len() && is_ws_char(s[i]) {
        sp_ws(s, i + 1)
    } else {
        i
    }
}

/// Skips whitespace, starting at `i`.
pub(crate) fn ws_skip(s: &Vec<char>, i: usize) -> (r: usize)
    requires
        i <= s@.len(),
    ensures
        r as int == sp_ws(s@, i as int),
        i <= r <= s@.len(),
{
    let mut j: usize = i;
    while j < s.len() && is_ws(s[j])
        invariant
            i <= j <= s@.len(),
            sp_ws(s@, i as int) == sp_ws(s@, j as int),
        decreases s@.len() - j,
    {
        j = j + 1;
    }
    j
}

/// Whether `c` is insignificant whitespace.
pub(crate) fn is_ws(c: char) -> (r: bool)
    ensures
        r == is_ws_char(c),
{
    c == ' ' || c == '\t' || c == '\n' || c == '\r'
}

/// Whether `c` is a decimal digit.
pub(crate) fn is_digit(c: char) -> (r: bool)
    ensures
        r == is_digit_char(c),
{
    '0' as u32 <= c as u32 && c as u32 <= '9' as u32
}

/// Whether `c` is a hexadecimal digit.
pub(crate) fn is_hex(c: char) -> (r: bool)
    ensures
        r == is_hex_char(c),
{
    is_digit(c)
    || ('a' as u32 <= c as u32 && c as u32 <= 'f' as u32)
    || ('A' as u32 <= c as u32 && c as u32 <= 'F' as u32)
}

/// Whether `c` may continue an identifier-like word.
pub(crate) fn is_ident(c: char) -> (r: bool)
    ensures
        r == is_ident_char(c),
{
    ('a' as u32 <= c as u32 && c as u32 <= 'z' as u32)
    || ('A' as u32 <= c as u32 && c as u32 <= 'Z' as u32)
    || is_digit(c)
    || c == '_'
}

/// The position of the first non-digit character at or after `i`
/// (or the end of the input).
pub open spec fn sp_digits(s: Seq<char>, i: int) -> int
    decreases s.len() - i,
{
    if 0 <= i && i < s.len() && is_digit_char(s[i]) {
        sp_digits(s, i + 1)
    } else {
        i
    }
}

/// Skips decimal digits, starting at `i`.
pub(crate) fn digits_skip(s: &Vec<char>, i: usize) -> (r: usize)
    requires
        i <= s@.len(),
    ensures
        r as int == sp_digits(s@, i as int),
        i <= r <= s@.len(),
{
    let mut j: usize = i;
    while j < s.len() && is_digit(s[j])
        invariant
            i <= j <= s@.len(),
            sp_digits(s@, i as int) == sp_digits(s@, j as int),
        decreases s@.len() - j,
    {
        j = j + 1;
    }
    j
}

/// The `string` rule: `"`, then unescaped characters (no control characters)
/// or escape sequences, then `"`.
pub open spec fn sp_string(s: Seq<char>, i: int) -> SpecOutcome {
    if 0 <= i && i < s.len() && s[i] == '"' {
        sp_string_body(s, i + 1)
    } else {
        SpecOutcome::Failed(i, Expect::StringOpen)
    }
}

/// The body of a string after the opening quote, up to and including the
/// closing quote.
pub open spec fn sp_string_body(s: Seq<char>, i: int) -> SpecOutcome
    decreases s.len() - i,
{
    if !(0 <= i && i < s.len()) {
        SpecOutcome::Failed(i, Expect::StringEnd)
    } else if s[i] == '"' {
        SpecOutcome::Matched(i + 1)
    } else if s[i] == '\\' {
        if i + 1 < s.len() {
            if is_simple_escape_char(s[i + 1]) {
                sp_string_body(s, i + 2)
            } else if s[i + 1] == 'u' {
                if i + 2 < s.len() && is_hex_char(s[i + 2]) {
                    if i + 3 < s.len() && is_hex_char(s[i + 3]) {
                        if i + 4 < s.len() && is_hex_char(s[i + 4]) {
                            if i + 5 < s.len() && is_hex_char(s[i + 5]) {
                                sp_string_body(s, i + 6)
                            } else {
                                SpecOutcome::Failed(i + 5, Expect::HexDigit)
                            }
                        } else {
                            SpecOutcome::Failed(i + 4, Expect::HexDigit)
                        }
                    } else {
                        SpecOutcome::Failed(i + 3, Expect::HexDigit)
                    }
                } else {
                    SpecOutcome::Failed(i + 2, Expect::HexDigit)
                }
            } else {
                SpecOutcome::Failed(i + 1, Expect::Escape)
            }
        } else {
            SpecOutcome::Failed(i + 1, Expect::Escape)
        }
    } else if is_control_char(s[i]) {
        SpecOutcome::Failed(i, Expect::StringChar)
    } else {
        sp_string_body(s, i + 1)
    }
}

/// Recognizes the `string` rule at `i`.
pub(crate) fn string_at(s: &Vec<char>, i: usize) -> (r: Outcome)
    requires
        i <= s@.len(),
    ensures
        r@ == sp_string(s@, i as int),
        r matches Outcome::Matched(end) ==> i < end <= s@.len(),
        r matches Outcome::Failed(at, _) ==> at <= s@.len(),
{
    if i >= s.len() || s[i] != '"' {
        return Outcome::Failed(i, Expect::StringOpen);
    }
    let mut j: usize = i + 1;
    loop
        invariant
            i + 1 <= j <= s@.len(),
            sp_string(s@, i as int) == sp_string_body(s@, j as int),
        decreases s@.len() - j,
    {
        if j >= s.len() {
            return Outcome::Failed(j, Expect::StringEnd);
        }
        let c = s[j];
        if c == '"' {
            return Outcome::Matched(j + 1);
        }
        if c == '\\' {
            if j + 1 >= s.len() {
                return Outcome::Failed(j + 1, Expect::Escape);
            }
            let e = s[j + 1];
            if e == '"' || e == '\\' || e == '/' || e == 'b' || e == 'f' || e == 'n' || e == 'r'
                || e == 't' {
                j = j + 2;
            } else if e == 'u' {
                if j + 2 >= s.len() || !is_hex(s[j + 2]) {
                    return Outcome::Failed(j + 2, Expect::HexDigit);
                }
                if j + 3 >= s.len() || !is_hex(s[j + 3]) {
                    return Outcome::Failed(j + 3, Expect::HexDigit);
                }
                if j + 4 >= s.len() || !is_hex(s[j + 4]) {
                    return Outcome::Failed(j + 4, Expect::HexDigit);
                }
                if j + 5 >= s.len() || !is_hex(s[j + 5]) {
                    return Outcome::Failed(j + 5, Expect::HexDigit);
                }
                j = j + 6;
            } else {
                return Outcome::Failed(j + 1, Expect::Escape);
            }
        } else if (c as u32) < 0x20 {
            return Outcome::Failed(j, Expect::StringChar);
        } else {
            j = j + 1;
        }
    }
}

/// The end of the optional exponent part of a number starting at `k`:
/// `e`/`E`, an optional sign, one or more digits.  Like any optional PEG
/// part, a malformed exponent is not consumed at all.
pub open spec fn sp_exponent_end(s: Seq<char>, k: int) -> int {
    if 0 <= k && k < s.len() && (s[k] == 'e' || s[k] == 'E') {
        let a = if k + 1 < s.len() && (s[k + 1] == '+' || s[k + 1] == '-') {
            k + 2
        } else {
            k + 1
        };
        if a < s.len() && is_digit_char(s[a]) {
            sp_digits(s, a)
        } else {
            k
        }
    } else {
        k
    }
}

/// The end of the optional fraction part of a number starting at `k`:
/// `.` followed by one or more digits, or nothing.
pub open spec fn sp_fraction_end(s: Seq<char>, k: int) -> int {
    if 0 <= k && k + 1 < s.len() && s[k] == '.' && is_digit_char(s[k + 1]) {
        sp_digits(s, k + 1)
    } else {
        k
    }
}

/// The `number` rule: optional `-`, an integer part with no leading zero,
/// then optional fraction and exponent parts.
pub open spec fn sp_number(s: Seq<char>, i: int) -> SpecOutcome {
    let j = if 0 <= i && i < s.len() && s[i] == '-' {
        i + 1
    } else {
        i
    };
    if !(0 <= j && j < s.len() && is_digit_char(s[j])) {
        SpecOutcome::Failed(j, Expect::Digit)
    } else {
        let k = if s[j] == '0' {
            j + 1
        } else {
            sp_digits(s, j)
        };
        SpecOutcome::Matched(sp_exponent_end(s, sp_fraction_end(s, k)))
    }
}

/// Recognizes the `number` rule at `i`.
pub(crate) fn number_at(s: &Vec<char>, i: usize) -> (r: Outcome)
    requires
        i <= s@.len(),
    ensures
        r@ == sp_number(s@, i as int),
        r matches Outcome::Matched(end) ==> i < end <= s@.len(),
        r matches Outcome::Failed(at, _) ==> at <= s@.len(),
{
    let n: usize = s.len();
    let j: usize = if i < n && s[i] == '-' {
        i + 1
    } else {
        i
    };
    if j >= n || !is_digit(s[j]) {
        return Outcome::Failed(j, Expect::Digit);
    }
    let k: usize = if s[j] == '0' {
        j + 1
    } else {
        digits_skip(s, j + 1)
    };
    let kf: usize = if k < n && s[k] == '.' && k + 1 < n && is_digit(s[k + 1]) {
        digits_skip(s, k + 1)
    } else {
        k
    };
    let ke: usize = if kf < n && (s[kf] == 'e' || s[kf] == 'E') {
        let a: usize = if kf + 1 < n && (s[kf + 1] == '+' || s[kf + 1] == '-') {
            kf + 2
        } else {
            kf + 1
        };
        if a < n && is_digit(s[a]) {
            digits_skip(s, a)
        } else {
            kf
        }
    } else {
        kf
    };
    Outcome::Matched(ke)
}

/// Matches the characters of `w` at `i`, followed by no
/// identifier-continuation character; `k` counts the characters of `w`
/// already matched.
pub open spec fn sp_literal(s: Seq<char>, i: int, w: Seq<char>, k: int) -> SpecOutcome
    decreases w.len() - k,
{
    if k < w.len() {
        if 0 <= i + k && i + k < s.len() && s[i + k] == w[k] {
            sp_literal(s, i, w, k + 1)
        } else {
            SpecOutcome::Failed(i + k, Expect::Literal)
        }
    } else {
        if i + k < s.len() && is_ident_char(s[i + k]) {
            SpecOutcome::Failed(i + k, Expect::Literal)
        } else {
            SpecOutcome::Matched(i + k)
        }
    }
}

/// Recognizes the literal `w` (one of `true`, `false`, `null`) at `i`.
pub(crate) fn literal_at(s: &Vec<char>, i: usize, w: &Vec<char>) -> (r: Outcome)
    requires
        i <= s@.len(),
    ensures
        r@ == sp_literal(s@, i as int, w@, 0),
        r matches Outcome::Matched(end) ==> end == i + w@.len() && end <= s@.len(),
        r matches Outcome::Failed(at, _) ==> at <= s@.len(),
{
    let n: usize = s.len();
    let mut k: usize = 0;
    while k < w.len()
        invariant
            n == s@.len(),
            0 <= k <= w@.len(),
            i + k <= n,
            sp_literal(s@, i as int, w@, 0) == sp_literal(s@, i as int, w@, k as int),
        decreases w@.len() - k,
    {
        if i + k >= n || s[i + k] != w[k] {
            return Outcome::Failed(i + k, Expect::Literal);
        }
        k = k + 1;
    }
    if i + k < n && is_ident(s[i + k]) {
        Outcome::Failed(i + k, Expect::Literal)
    } else {
        Outcome::Matched(i + k)
    }
}

/// The `value` rule: ordered choice of object, array, string, number,
/// `true`, `false`, `null`.  The alternatives start with distinct
/// characters, so the first character decides which one is pursued.
pub open spec fn sp_value(s: Seq<char>, i: int) -> SpecOutcome
    decreases s.len() - i, 3int,
{
    if !(0 <= i && i < s.len()) {
        SpecOutcome::Failed(i, Expect::JsonValue)
    } else if s[i] == '{' {
        sp_object(s, i)
    } else if s[i] == '[' {
        sp_array(s, i)
    } else if s[i] == '"' {
        sp_string(s, i)
    } else if s[i] == '-' || is_digit_char(s[i]) {
        sp_number(s, i)
    } else if s[i] == 't' {
        sp_literal(s, i, seq!['t', 'r', 'u', 'e'], 0)
    } else if s[i] == 'f' {
        sp_literal(s, i, seq!['f', 'a', 'l', 's', 'e'], 0)
    } else if s[i] == 'n' {
        sp_literal(s, i, seq!['n', 'u', 'l', 'l'], 0)
    } else {
        SpecOutcome::Failed(i, Expect::JsonValue)
    }
}

/// The `object` rule: `{`, an optional comma-separated pair list, `}`.
///
/// The range tests in front of the recursive calls only restate what
/// already holds of the positions involved (a skip never moves backwards
/// or past the end); they make the recursion visibly bounded.
pub open spec fn sp_object(s: Seq<char>, i: int) -> SpecOutcome
    decreases s.len() - i, 2int,
{
    if !(0 <= i && i < s.len() && s[i] == '{') {
        SpecOutcome::Failed(i, Expect::ObjectOpen)
    } else {
        let j = sp_ws(s, i + 1);
        if j < s.len() && s[j] == '}' {
            SpecOutcome::Matched(j + 1)
        } else if j < s.len() && s[j] == '"' {
            if i < j {
                sp_members(s, j)
            } else {
                SpecOutcome::Failed(j, Expect::PairOrObjectEnd)
            }
        } else {
            SpecOutcome::Failed(j, Expect::PairOrObjectEnd)
        }
    }
}

/// A non-empty pair list and the closing `}`: `string : value`, repeated
/// as long as a comma follows, each comma owed a further pair (a trailing
/// comma is rejected).
pub open spec fn sp_members(s: Seq<char>, i: int) -> SpecOutcome
    decreases s.len() - i, 4int,
{
    match sp_string(s, i) {
        SpecOutcome::Failed(a, e) => SpecOutcome::Failed(a, e),
        SpecOutcome::Matched(m) => {
            let p = sp_ws(s, m);
            if p < s.len() && s[p] == ':' {
                let v = sp_ws(s, p + 1);
                if i <= v && v <= s.len() {
                    match sp_value(s, v) {
                        SpecOutcome::Failed(a, e) => SpecOutcome::Failed(a, e),
                        SpecOutcome::Matched(mv) => {
                            let p2 = sp_ws(s, mv);
                            if p2 < s.len() && s[p2] == ',' {
                                let q = sp_ws(s, p2 + 1);
                                if q < s.len() && s[q] == '"' {
                                    if i < q {
                                        sp_members(s, q)
                                    } else {
                                        SpecOutcome::Failed(q, Expect::Pair)
                                    }
                                } else {
                                    SpecOutcome::Failed(q, Expect::Pair)
                                }
                            } else if p2 < s.len() && s[p2] == '}' {
                                SpecOutcome::Matched(p2 + 1)
                            } else {
                                SpecOutcome::Failed(p2, Expect::CommaOrObjectEnd)
                            }
                        }
                    }
                } else {
                    SpecOutcome::Failed(v, Expect::JsonValue)
                }
            } else {
                SpecOutcome::Failed(p, Expect::Colon)
            }
        }
    }
}

/// The `array` rule: `[`, an optional comma-separated element list, `]`.
pub open spec fn sp_array(s: Seq<char>, i: int) -> SpecOutcome
    decreases s.len() - i, 2int,
{
    if !(0 <= i && i < s.len() && s[i] == '[') {
        SpecOutcome::Failed(i, Expect::ArrayOpen)
    } else {
        let j = sp_ws(s, i + 1);
        if j < s.len() && s[j] == ']' {
            SpecOutcome::Matched(j + 1)
        } else if i < j && j <= s.len() {
            sp_elements(s, j)
        } else {
            SpecOutcome::Failed(j, Expect::JsonValue)
        }
    }
}

/// A non-empty element list and the closing `]`: `value`, repeated as long
/// as a comma follows, each comma owed a further element.
pub open spec fn sp_elements(s: Seq<char>, i: int) -> SpecOutcome
    decreases s.len() - i, 4int,
{
    if !(0 <= i && i <= s.len()) {
        SpecOutcome::Failed(i, Expect::JsonValue)
    } else {
        match sp_value(s, i) {
            SpecOutcome::Failed(a, e) => SpecOutcome::Failed(a, e),
            SpecOutcome::Matched(m) => {
                let p = sp_ws(s, m);
                if p < s.len() && s[p] == ',' {
                    let q = sp_ws(s, p + 1);
                    if i < q && q <= s.len() {
                        sp_elements(s, q)
                    } else {
                        SpecOutcome::Failed(q, Expect::JsonValue)
                    }
                } else if p < s.len() && s[p] == ']' {
                    SpecOutcome::Matched(p + 1)
                } else {
                    SpecOutcome::Failed(p, Expect::CommaOrArrayEnd)
                }
            }
        }
    }
}

/// The `json` rule: optional whitespace, one `value`, optional whitespace,
/// end of input.  Any unconsumed non-whitespace character after the value
/// fails the rule.
pub open spec fn sp_json(s: Seq<char>) -> SpecOutcome {
    let j = sp_ws(s, 0);
    match sp_value(s, j) {
        SpecOutcome::Failed(a, e) => SpecOutcome::Failed(a, e),
        SpecOutcome::Matched(m) => {
            let p = sp_ws(s, m);
            if p >= s.len() {
                SpecOutcome::Matched(p)
            } else {
                SpecOutcome::Failed(p, Expect::EndOfInput)
            }
        }
    }
}

/// Skipping whitespace never moves backwards or past the end, stops at a
/// non-whitespace character, and skips only whitespace.
pub proof fn lemma_sp_ws(s: Seq<char>, i: int)
    requires
        0 <= i <= s.len(),
    ensures
        i <= sp_ws(s, i) <= s.len(),
        sp_ws(s, i) < s.len() ==> !is_ws_char(s[sp_ws(s, i)]),
        forall|k: int| i <= k < sp_ws(s, i) ==> is_ws_char(#[trigger] s[k]),
    decreases s.len() - i,
{
    if i < s.len() && is_ws_char(s[i]) {
        lemma_sp_ws(s, i + 1);
    }
}

/// Skipping digits never moves backwards or past the end.
proof fn lemma_sp_digits(s: Seq<char>, i: int)
    requires
        0 <= i <= s.len(),
    ensures
        i <= sp_digits(s, i) <= s.len(),
    decreases s.len() - i,
{
    if i < s.len() && is_digit_char(s[i]) {
        lemma_sp_digits(s, i + 1);
    }
}

/// A string body started within the text ends within the text, after at
/// least its closing quote; a failure points into the text (one past its
/// end at most).
proof fn lemma_sp_string_body(s: Seq<char>, i: int)
    requires
        0 <= i <= s.len(),
    ensures
        sp_string_body(s, i) matches SpecOutcome::Matched(end) ==> i < end <= s.len(),
        sp_string_body(s, i) matches SpecOutcome::Failed(at, _) ==> 0 <= at <= s.len(),
    decreases s.len() - i,
{
    if i < s.len() && s[i] != '"' {
        if s[i] == '\\' {
            if i + 1 < s.len() {
                if is_simple_escape_char(s[i + 1]) {
                    lemma_sp_string_body(s, i + 2);
                } else if s[i + 1] == 'u' && i + 5 < s.len() && is_hex_char(s[i + 2])
                    && is_hex_char(s[i + 3]) && is_hex_char(s[i + 4]) && is_hex_char(s[i + 5]) {
                    lemma_sp_string_body(s, i + 6);
                }
            }
        } else if !is_control_char(s[i]) {
            lemma_sp_string_body(s, i + 1);
        }
    }
}

/// The bounds of `lemma_sp_string_body`, for the whole `string` rule.
proof fn lemma_sp_string(s: Seq<char>, i: int)
    requires
        0 <= i <= s.len(),
    ensures
        sp_string(s, i) matches SpecOutcome::Matched(end) ==> i < end <= s.len(),
        sp_string(s, i) matches SpecOutcome::Failed(at, _) ==> 0 <= at <= s.len(),
{
    if i < s.len() && s[i] == '"' {
        lemma_sp_string_body(s, i + 1);
    }
}

/// A number started within the text consumes at least one character and
/// ends within the text; a failure points into the text.
proof fn lemma_sp_number(s: Seq<char>, i: int)
    requires
        0 <= i <= s.len(),
    ensures
        sp_number(s, i) matches SpecOutcome::Matched(end) ==> i < end <= s.len(),
        sp_number(s, i) matches SpecOutcome::Failed(at, _) ==> 0 <= at <= s.len(),
{
    let j = if i < s.len() && s[i] == '-' {
        i + 1
    } else {
        i
    };
    if j < s.len() && is_digit_char(s[j]) {
        let k = if s[j] == '0' {
            j + 1
        } else {
            sp_digits(s, j)
        };
        lemma_sp_digits(s, j + 1);
        let kf = sp_fraction_end(s, k);
        if k + 1 < s.len() && s[k] == '.' && is_digit_char(s[k + 1]) {
            lemma_sp_digits(s, k + 1);
        }
        if kf < s.len() && (s[kf] == 'e' || s[kf] == 'E') {
            let a = if kf + 1 < s.len() && (s[kf + 1] == '+' || s[kf + 1] == '-') {
                kf + 2
            } else {
                kf + 1
            };
            if a < s.len() && is_digit_char(s[a]) {
                lemma_sp_digits(s, a);
            }
        }
    }
}

/// A literal match ends exactly one keyword past its start, within the
/// text; a failure points into the text.
proof fn lemma_sp_literal(s: Seq<char>, i: int, w: Seq<char>, k: int)
    requires
        0 <= i,
        0 <= k <= w.len(),
        i + k <= s.len(),
    ensures
        sp_literal(s, i, w, k) matches SpecOutcome::Matched(end) ==> end == i + w.len() && i <= end
            <= s.len(),
        sp_literal(s, i, w, k) matches SpecOutcome::Failed(at, _) ==> 0 <= at <= s.len(),
    decreases w.len() - k,
{
    if k < w.len() && i + k < s.len() && s[i + k] == w[k] {
        lemma_sp_literal(s, i, w, k + 1);
    }
}

/// A value started within the text consumes at least one character and
/// ends within the text; a failure points into the text.  In particular
/// the range tests in front of the recursive grammar calls always hold.
pub proof fn lemma_sp_value(s: Seq<char>, i: int)
    requires
        0 <= i <= s.len(),
    ensures
        sp_value(s, i) matches SpecOutcome::Matched(end) ==> i < end <= s.len(),
        sp_value(s, i) matches SpecOutcome::Failed(at, _) ==> 0 <= at <= s.len(),
    decreases s.len() - i, 3int,
{
    if 0 <= i && i < s.len() {
        if s[i] == '{' {
            lemma_sp_object(s, i);
        } else if s[i] == '[' {
            lemma_sp_array(s, i);
        } else if s[i] == '"' {
            lemma_sp_string(s, i);
        } else if s[i] == '-' || is_digit_char(s[i]) {
            lemma_sp_number(s, i);
        } else if s[i] == 't' {
            lemma_sp_literal(s, i, seq!['t', 'r', 'u', 'e'], 0);
        } else if s[i] == 'f' {
            lemma_sp_literal(s, i, seq!['f', 'a', 'l', 's', 'e'], 0);
        } else if s[i] == 'n' {
            lemma_sp_literal(s, i, seq!['n', 'u', 'l', 'l'], 0);
        }
    }
}

/// The bounds of `lemma_sp_value`, for the `object` rule.
pub proof fn lemma_sp_object(s: Seq<char>, i: int)
    requires
        0 <= i <= s.len(),
    ensures
        sp_object(s, i) matches SpecOutcome::Matched(end) ==> i < end <= s.len(),
        sp_object(s, i) matches SpecOutcome::Failed(at, _) ==> 0 <= at <= s.len(),
    decreases s.len() - i, 2int,
{
    if 0 <= i && i < s.len() && s[i] == '{' {
        lemma_sp_ws(s, i + 1);
        let j = sp_ws(s, i + 1);
        if !(j < s.len() && s[j] == '}') && j < s.len() && s[j] == '"' {
            lemma_sp_members(s, j);
        }
    }
}

/// The bounds of `lemma_sp_value`, for an object's pair list.
pub proof fn lemma_sp_members(s: Seq<char>, i: int)
    requires
        0 <= i <= s.len(),
    ensures
        sp_members(s, i) matches SpecOutcome::Matched(end) ==> i < end <= s.len(),
        sp_members(s, i) matches SpecOutcome::Failed(at, _) ==> 0 <= at <= s.len(),
    decreases s.len() - i, 4int,
{
    lemma_sp_string(s, i);
    if let SpecOutcome::Matched(m) = sp_string(s, i) {
        lemma_sp_ws(s, m);
        let p = sp_ws(s, m);
        if p < s.len() && s[p] == ':' {
            lemma_sp_ws(s, p + 1);
            let v = sp_ws(s, p + 1);
            lemma_sp_value(s, v);
            if let SpecOutcome::Matched(mv) = sp_value(s, v) {
                lemma_sp_ws(s, mv);
                let p2 = sp_ws(s, mv);
                if p2 < s.len() && s[p2] == ',' {
                    lemma_sp_ws(s, p2 + 1);
                    let q = sp_ws(s, p2 + 1);
                    if q < s.len() && s[q] == '"' {
                        lemma_sp_members(s, q);
                    }
                }
            }
        }
    }
}

/// The bounds of `lemma_sp_value`, for the `array` rule.
pub proof fn lemma_sp_array(s: Seq<char>, i: int)
    requires
        0 <= i <= s.len(),
    ensures
        sp_array(s, i) matches SpecOutcome::Matched(end) ==> i < end <= s.len(),
        sp_array(s, i) matches SpecOutcome::Failed(at, _) ==> 0 <= at <= s.len(),
    decreases s.len() - i, 2int,
{
    if 0 <= i && i < s.len() && s[i] == '[' {
        lemma_sp_ws(s, i + 1);
        let j = sp_ws(s, i + 1);
        if !(j < s.len() && s[j] == ']') {
            lemma_sp_elements(s, j);
        }
    }
}

/// The bounds of `lemma_sp_value`, for an array's element list.
pub proof fn lemma_sp_elements(s: Seq<char>, i: int)
    requires
        0 <= i <= s.len(),
    ensures
        sp_elements(s, i) matches SpecOutcome::Matched(end) ==> i < end <= s.len(),
        sp_elements(s, i) matches SpecOutcome::Failed(at, _) ==> 0 <= at <= s.len(),
    decreases s.len() - i, 4int,
{
    lemma_sp_value(s, i);
    if let SpecOutcome::Matched(m) = sp_value(s, i) {
        lemma_sp_ws(s, m);
        let p = sp_ws(s, m);
        if p < s.len() && s[p] == ',' {
            lemma_sp_ws(s, p + 1);
            let q = sp_ws(s, p + 1);
            lemma_sp_elements(s, q);
        }
    }
}

/// A `json` match consumes the whole text; a failure points into the text.
pub proof fn lemma_sp_json(s: Seq<char>)
    ensures
        sp_json(s) matches SpecOutcome::Matched(end) ==> end == s.len(),
        sp_json(s) matches SpecOutcome::Failed(at, _) ==> 0 <= at <= s.len(),
{
    lemma_sp_ws(s, 0);
    let j = sp_ws(s, 0);
    lemma_sp_value(s, j);
    if let SpecOutcome::Matched(m) = sp_value(s, j) {
        lemma_sp_ws(s, m);
    }
}

/// The characters of the literal `true`.
fn lit_true() -> (v: Vec<char>)
    ensures
        v@ == seq!['t', 'r', 'u', 'e'],
{
    let mut v: Vec<char> = Vec::new();
    v.push('t');
    v.push('r');
    v.push('u');
    v.push('e');
    proof {
        assert(v@ =~= seq!['t', 'r', 'u', 'e']);
    }
    v
}

/// The characters of the literal `false`.
fn lit_false() -> (v: Vec<char>)
    ensures
        v@ == seq!['f', 'a', 'l', 's', 'e'],
{
    let mut v: Vec<char> = Vec::new();
    v.push('f');
    v.push('a');
    v.push('l');
    v.push('s');
    v.push('e');
    proof {
        assert(v@ =~= seq!['f', 'a', 'l', 's', 'e']);
    }
    v
}

/// The characters of the literal `null`.
fn lit_null() -> (v: Vec<char>)
    ensures
        v@ == seq!['n', 'u', 'l', 'l'],
{
    let mut v: Vec<char> = Vec::new();
    v.push('n');
    v.push('u');
    v.push('l');
    v.push('l');
    proof {
        assert(v@ =~= seq!['n', 'u', 'l', 'l']);
    }
    v
}

/// Recognizes the `value` rule at `i`.
pub(crate) fn value_at(s: &Vec<char>, i: usize) -> (r: Outcome)
    requires
        i <= s@.len(),
    ensures
        r@ == sp_value(s@, i as int),
        r matches Outcome::Matched(end) ==> i < end <= s@.len(),
        r matches Outcome::Failed(at, _) ==> at <= s@.len(),
    decreases s@.len() - i, 3int,
{
    if i >= s.len() {
        return Outcome::Failed(i, Expect::JsonValue);
    }
    let c = s[i];
    if c == '{' {
        object_at(s, i)
    } else if c == '[' {
        array_at(s, i)
    } else if c == '"' {
        string_at(s, i)
    } else if c == '-' || is_digit(c) {
        number_at(s, i)
    } else if c == 't' {
        let w = lit_true();
        literal_at(s, i, &w)
    } else if c == 'f' {
        let w = lit_false();
        literal_at(s, i, &w)
    } else if c == 'n' {
        let w = lit_null();
        literal_at(s, i, &w)
    } else {
        Outcome::Failed(i, Expect::JsonValue)
    }
}

/// Recognizes the `object` rule at `i`.
pub(crate) fn object_at(s: &Vec<char>, i: usize) -> (r: Outcome)
    requires
        i <= s@.len(),
    ensures
        r@ == sp_object(s@, i as int),
        r matches Outcome::Matched(end) ==> i < end <= s@.len(),
        r matches Outcome::Failed(at, _) ==> at <= s@.len(),
    decreases s@.len() - i, 2int,
{
    let n: usize = s.len();
    if i >= n || s[i] != '{' {
        return Outcome::Failed(i, Expect::ObjectOpen);
    }
    let j: usize = ws_skip(s, i + 1);
    if j < n && s[j] == '}' {
        return Outcome::Matched(j + 1);
    }
    if !(j < n && s[j] == '"') {
        return Outcome::Failed(j, Expect::PairOrObjectEnd);
    }
    let mut cur: usize = j;
    loop
        invariant
            n == s@.len(),
            i < cur < n,
            s@[cur as int] == '"',
            sp_object(s@, i as int) == sp_members(s@, cur as int),
        decreases s@.len() - cur,
    {
        let rk = string_at(s, cur);
        match rk {
            Outcome::Failed(a, e) => {
                return Outcome::Failed(a, e);
            },
            Outcome::Matched(m) => {
                let p: usize = ws_skip(s, m);
                if !(p < n && s[p] == ':') {
                    return Outcome::Failed(p, Expect::Colon);
                }
                let v: usize = ws_skip(s, p + 1);
                let rv = value_at(s, v);
                match rv {
                    Outcome::Failed(a, e) => {
                        return Outcome::Failed(a, e);
                    },
                    Outcome::Matched(mv) => {
                        let p2: usize = ws_skip(s, mv);
                        if p2 < n && s[p2] == ',' {
                            let q: usize = ws_skip(s, p2 + 1);
                            if q < n && s[q] == '"' {
                                cur = q;
                            } else {
                                return Outcome::Failed(q, Expect::Pair);
                            }
                        } else if p2 < n && s[p2] == '}' {
                            return Outcome::Matched(p2 + 1);
                        } else {
                            return Outcome::Failed(p2, Expect::CommaOrObjectEnd);
                        }
                    },
                }
            },
        }
    }
}

/// Recognizes the `array` rule at `i`.
pub(crate) fn array_at(s: &Vec<char>, i: usize) -> (r: Outcome)
    requires
        i <= s@.len(),
    ensures
        r@ == sp_array(s@, i as int),
        r matches Outcome::Matched(end) ==> i < end <= s@.len(),
        r matches Outcome::Failed(at, _) ==> at <= s@.len(),
    decreases s@.len() - i, 2int,
{
    let n: usize = s.len();
    if i >= n || s[i] != '[' {
        return Outcome::Failed(i, Expect::ArrayOpen);
    }
    let j: usize = ws_skip(s, i + 1);
    if j < n && s[j] == ']' {
        return Outcome::Matched(j + 1);
    }
    let mut cur: usize = j;
    loop
        invariant
            n == s@.len(),
            i < cur <= n,
            sp_array(s@, i as int) == sp_elements(s@, cur as int),
        decreases s@.len() - cur,
    {
        let rv = value_at(s, cur);
        match rv {
            Outcome::Failed(a, e) => {
                return Outcome::Failed(a, e);
            },
            Outcome::Matched(m) => {
                let p: usize = ws_skip(s, m);
                if p < n && s[p] == ',' {
                    let q: usize = ws_skip(s, p + 1);
                    cur = q;
                } else if p < n && s[p] == ']' {
                    return Outcome::Matched(p + 1);
                } else {
                    return Outcome::Failed(p, Expect::CommaOrArrayEnd);
                }
            },
        }
    }
}

/// Recognizes the `json` rule against the whole input.
pub(crate) fn json_at(s: &Vec<char>) -> (r: Outcome)
    ensures
        r@ == sp_json(s@),
        r matches Outcome::Matched(end) ==> end <= s@.len(),
        r matches Outcome::Failed(at, _) ==> at <= s@.len(),
{
    let j: usize = ws_skip(s, 0);
    match value_at(s, j) {
        Outcome::Failed(a, e) => Outcome::Failed(a, e),
        Outcome::Matched(m) => {
            let p: usize = ws_skip(s, m);
            if p >= s.len() {
                Outcome::Matched(p)
            } else {
                Outcome::Failed(p, Expect::EndOfInput)
            }
        },
    }
}

/// The characters of `input`, in order.
pub(crate) fn chars_of(input: &str) -> (v: Vec<char>)
    ensures
        v@ == input@,
{
    let n: usize = input.unicode_len();
    let mut v: Vec<char> = Vec::new();
    let mut i: usize = 0;
    while i < n
        invariant
            0 <= i <= n,
            n == input@.len(),
            v@ == input@.subrange(0, i as int),
        decreases n - i,
    {
        let c = input.get_char(i);
        v.push(c);
        i = i + 1;
        proof {
            assert(v@ =~= input@.subrange(0, i as int));
        }
    }
    proof {
        assert(v@ =~= input@);
    }
    v
}

/// What a failure message says for each expectation.
pub open spec fn expect_message(e: Expect) -> Seq<char> {
    match e {
        Expect::JsonValue => "expected a JSON value"@,
        Expect::ObjectOpen => "expected '{'"@,
        Expect::ArrayOpen => "expected '['"@,
        Expect::StringOpen => "expected a string"@,
        Expect::PairOrObjectEnd => "expected a key string or '}'"@,
        Expect::Pair => "expected a key string"@,
        Expect::Colon => "expected ':'"@,
        Expect::CommaOrObjectEnd => "expected ',' or '}'"@,
        Expect::CommaOrArrayEnd => "expected ',' or ']'"@,
        Expect::StringChar => "expected a string character"@,
        Expect::StringEnd => "expected '\"'"@,
        Expect::Escape => "expected a valid escape sequence"@,
        Expect::HexDigit => "expected a hexadecimal digit"@,
        Expect::Digit => "expected a digit"@,
        Expect::Literal => "expected 'true', 'false' or 'null'"@,
        Expect::EndOfInput => "expected end of input"@,
    }
}

/// The failure message for an expectation.
pub(crate) fn message_of(e: Expect) -> (r: String)
    ensures
        r@ == expect_message(e),
{
    match e {
        Expect::JsonValue => "expected a JSON value".to_owned(),
        Expect::ObjectOpen => "expected '{'".to_owned(),
        Expect::ArrayOpen => "expected '['".to_owned(),
        Expect::StringOpen => "expected a string".to_owned(),
        Expect::PairOrObjectEnd => "expected a key string or '}'".to_owned(),
        Expect::Pair => "expected a key string".to_owned(),
        Expect::Colon => "expected ':'".to_owned(),
        Expect::CommaOrObjectEnd => "expected ',' or '}'".to_owned(),
        Expect::CommaOrArrayEnd => "expected ',' or ']'".to_owned(),
        Expect::StringChar => "expected a string character".to_owned(),
        Expect::StringEnd => "expected '\"'".to_owned(),
        Expect::Escape => "expected a valid escape sequence".to_owned(),
        Expect::HexDigit => "expected a hexadecimal digit".to_owned(),
        Expect::Digit => "expected a digit".to_owned(),
        Expect::Literal => "expected 'true', 'false' or 'null'".to_owned(),
        Expect::EndOfInput => "expected end of input".to_owned(),
    }
}

/// A grammar rule that can be run on its own against an input.
#[allow(non_camel_case_types)]
#[derive(Clone, Copy, Debug, PartialEq, Eq, Structural)]
pub enum Rule {
    json,
    value,
    object,
    array,
    string,
    number,
}

/// The outcome of running a rule against the start of an input.
pub open spec fn sp_rule(rule: Rule, s: Seq<char>) -> SpecOutcome {
    match rule {
        Rule::json => sp_json(s),
        Rule::value => sp_value(s, 0),
        Rule::object => sp_object(s, 0),
        Rule::array => sp_array(s, 0),
        Rule::string => sp_string(s, 0),
        Rule::number => sp_number(s, 0),
    }
}

/// The span a successfully run rule consumed.
#[derive(Debug)]
pub struct RuleMatch {
    text: String,
}

impl View for RuleMatch {
    type V = Seq<char>;

    closed spec fn view(&self) -> Seq<char> {
        self.text@
    }
}

impl RuleMatch {
    /// The consumed text.
    pub fn as_str(&self) -> (r: &str)
        ensures
            r@ == self@,
    {
        self.text.as_str()
    }
}

/// The grammar engine's entry point for running individual rules.
pub struct JsonParser;

impl JsonParser {
    /// Runs `rule` against `input` with PEG semantics: on success the rule
    /// has consumed a prefix of the input (all of it for `Rule::json`,
    /// which requires the end of the input), and the consumed span is
    /// returned; otherwise the failure position and what was expected
    /// there are returned.
    pub fn parse(rule: Rule, input: &str) -> (r: Result<RuleMatch, JsonParseError>)
        ensures
            match r {
                Ok(m) => sp_rule(rule, input@) matches SpecOutcome::Matched(end) && m@
                    == input@.subrange(0, end),
                Err(e) => {
                    &&& sp_rule(rule, input@) matches SpecOutcome::Failed(at, exp)
                    &&& e matches JsonParseError::GrammarError { offset, message } && offset == at
                        && message@ == expect_message(exp) && offset <= input@.len()
                },
            },
    {
        let v = chars_of(input);
        let out = match rule {
            Rule::json => json_at(&v),
            Rule::value => value_at(&v, 0),
            Rule::object => object_at(&v, 0),
            Rule::array => array_at(&v, 0),
            Rule::string => string_at(&v, 0),
            Rule::number => number_at(&v, 0),
        };
        match out {
            Outcome::Matched(end) => {
                let text = input.substring_char(0, end);
                Ok(RuleMatch { text: text.to_owned() })
            },
            Outcome::Failed(at, exp) => Err(
                JsonParseError::GrammarError { offset: at, message: message_of(exp) },
            ),
        }
    }
}

} // verus!
