//! The document layer: whitespace trimming, the root-type policy and the
//! public error taxonomy on top of the grammar engine.

use vstd::prelude::*;

verus! {

use crate::grammar::{
    chars_of, expect_message, is_ws_char, json_at, lemma_sp_json, lemma_sp_ws, message_of,
    sp_json, sp_value, sp_ws, ws_skip, Expect, Outcome, SpecOutcome,
};
use vstd::string::StrSliceExecFns;

/// The structural category of the outermost value of a document.
#[derive(Clone, Copy, Debug, PartialEq, Eq, Structural)]
pub enum JsonRootType {
    Object,
    Array,
}

/// A validated JSON document: the trimmed text together with the
/// category of its root value.
#[derive(Debug)]
pub struct JsonDocument {
    /// The validated text, with surrounding whitespace removed.
    pub content: String,
    /// The category of the root value; always an object or an array.
    pub root_type: JsonRootType,
}

/// Why an input was rejected as a document.
#[derive(Debug, PartialEq, Eq)]
pub enum JsonParseError {
    /// The input was empty or held only whitespace.
    EmptyJson,
    /// The input violates the JSON grammar at the given position.
    GrammarError { offset: usize, message: String },
    /// The input is grammar-valid JSON, but its root is a primitive
    /// (the payload names the rule that matched at the root).
    UnexpectedRootType(String),
}

/// The position of the last trailing whitespace run before `j`: characters
/// are dropped from the end as long as they are whitespace.
pub open spec fn sp_ws_rev(s: Seq<char>, j: int) -> int
    decreases j,
{
    if 0 < j && j <= s.len() && is_ws_char(s[j - 1]) {
        sp_ws_rev(s, j - 1)
    } else {
        j
    }
}

/// `s` with leading and trailing whitespace removed.
pub open spec fn trim_chars(s: Seq<char>) -> Seq<char> {
    let lo = sp_ws(s, 0);
    let hi = sp_ws_rev(s, s.len() as int);
    if lo < hi {
        s.subrange(lo, hi)
    } else {
        Seq::empty()
    }
}

/// The counterpart of `lemma_sp_ws` for trimming from the end.
pub proof fn lemma_sp_ws_rev(s: Seq<char>, j: int)
    requires
        0 <= j <= s.len(),
    ensures
        0 <= sp_ws_rev(s, j) <= j,
        sp_ws_rev(s, j) > 0 ==> !is_ws_char(s[sp_ws_rev(s, j) - 1]),
        forall|k: int| sp_ws_rev(s, j) <= k < j ==> is_ws_char(#[trigger] s[k]),
    decreases j,
{
    if 0 < j && is_ws_char(s[j - 1]) {
        lemma_sp_ws_rev(s, j - 1);
    }
}

/// Trimming is idempotent.
pub proof fn lemma_trim_of_trimmed(s: Seq<char>)
    ensures
        trim_chars(trim_chars(s)) == trim_chars(s),
{
    let t = trim_chars(s);
    let lo = sp_ws(s, 0);
    let hi = sp_ws_rev(s, s.len() as int);
    lemma_sp_ws(s, 0);
    lemma_sp_ws_rev(s, s.len() as int);
    if lo < hi {
        assert(t[0] == s[lo]);
        assert(t[t.len() - 1] == s[hi - 1]);
        assert(sp_ws(t, 0) == 0);
        assert(sp_ws_rev(t, t.len() as int) == t.len() as int);
        assert(trim_chars(t) =~= t);
    } else {
        assert(t.len() == 0);
        assert(trim_chars(t) =~= t);
    }
}

/// Drops trailing whitespace: the length of `s` without it.
pub(crate) fn ws_rskip(s: &Vec<char>) -> (r: usize)
    ensures
        r as int == sp_ws_rev(s@, s@.len() as int),
        r <= s@.len(),
{
    let mut h: usize = s.len();
    while h > 0 && crate::grammar::is_ws(s[h - 1])
        invariant
            0 <= h <= s@.len(),
            sp_ws_rev(s@, s@.len() as int) == sp_ws_rev(s@, h as int),
        decreases h,
    {
        h = h - 1;
    }
    h
}

/// The trimmed characters of `input`, with the bounds of the trimmed span
/// within the original characters.
fn trimmed_span(input: &str) -> (r: (Vec<char>, usize, usize))
    ensures
        r.0@ == trim_chars(input@),
        r.1 as int == sp_ws(input@, 0),
        r.2 as int == sp_ws_rev(input@, input@.len() as int),
        r.1 <= input@.len() && r.2 <= input@.len(),
        (r.1 < r.2) == (trim_chars(input@).len() > 0),
{
    let v = chars_of(input);
    let lo: usize = ws_skip(&v, 0);
    let hi: usize = ws_rskip(&v);
    proof {
        lemma_sp_ws(v@, 0);
        lemma_sp_ws_rev(v@, v@.len() as int);
    }
    if lo >= hi {
        let t: Vec<char> = Vec::new();
        proof {
            assert(t@ =~= trim_chars(input@));
        }
        return (t, lo, hi);
    }
    let mut t: Vec<char> = Vec::new();
    let mut k: usize = lo;
    while k < hi
        invariant
            lo <= k <= hi <= v@.len(),
            t@ == v@.subrange(lo as int, k as int),
        decreases hi - k,
    {
        let c = v[k];
        t.push(c);
        k = k + 1;
        proof {
            assert(t@ =~= v@.subrange(lo as int, k as int));
        }
    }
    proof {
        assert(t@ =~= trim_chars(input@));
    }
    (t, lo, hi)
}

/// What `parse` decides for an input: rejection for emptiness, a grammar
/// failure, rejection of a primitive root, or a document with its root type.
pub enum ParseOutcome {
    /// The trimmed input is empty.
    Empty,
    /// The trimmed input violates the grammar at this position, with this
    /// expectation.
    Bad(int, Expect),
    /// The trimmed input is grammar-valid but its root is a primitive; the
    /// payload names the rule that matched at the root.
    Primitive(Seq<char>),
    /// The trimmed input is a valid document with this root type.
    Doc(JsonRootType),
}

/// The name of the `value` alternative that a grammar-valid text starting
/// (after whitespace) with `c` matched at the root.
pub open spec fn root_name(c: char) -> Seq<char> {
    if c == '"' {
        "string"@
    } else if c == '-' || crate::grammar::is_digit_char(c) {
        "number"@
    } else if c == 't' {
        "true"@
    } else if c == 'f' {
        "false"@
    } else {
        "null"@
    }
}

/// What `parse` decides for `s`.
pub open spec fn parse_outcome(s: Seq<char>) -> ParseOutcome {
    let t = trim_chars(s);
    if t.len() == 0 {
        ParseOutcome::Empty
    } else {
        match sp_json(t) {
            SpecOutcome::Failed(at, exp) => ParseOutcome::Bad(at, exp),
            SpecOutcome::Matched(_) => {
                let j = sp_ws(t, 0);
                let c = if 0 <= j && j < t.len() {
                    t[j]
                } else {
                    ' '
                };
                if c == '{' {
                    ParseOutcome::Doc(JsonRootType::Object)
                } else if c == '[' {
                    ParseOutcome::Doc(JsonRootType::Array)
                } else {
                    ParseOutcome::Primitive(root_name(c))
                }
            },
        }
    }
}

/// What `is_valid` decides for `s`: the trimmed input is non-empty and
/// grammar-valid, with no restriction on the root.
pub open spec fn valid_json(s: Seq<char>) -> bool {
    trim_chars(s).len() > 0 && sp_json(trim_chars(s)) is Matched
}

/// The name of the primitive root for an error payload.
fn root_name_of(c: char) -> (r: String)
    ensures
        r@ == root_name(c),
{
    if c == '"' {
        "string".to_owned()
    } else if c == '-' || crate::grammar::is_digit(c) {
        "number".to_owned()
    } else if c == 't' {
        "true".to_owned()
    } else if c == 'f' {
        "false".to_owned()
    } else {
        "null".to_owned()
    }
}

impl JsonDocument {
    /// Parses a JSON string and returns a `JsonDocument`.
    ///
    /// The input is trimmed first; an empty remainder is `EmptyJson`, a
    /// grammar violation is `GrammarError` with the failure position within
    /// the trimmed text, and a grammar-valid input whose root is a
    /// primitive is `UnexpectedRootType`.  Otherwise the document holds the
    /// trimmed text and the root's category.
    pub fn parse(input: &str) -> (r: Result<JsonDocument, JsonParseError>)
        ensures
            match r {
                Ok(d) => parse_outcome(input@) == ParseOutcome::Doc(d.root_type) && d.content@
                    == trim_chars(input@),
                Err(e) => match e {
                    JsonParseError::EmptyJson => parse_outcome(input@) is Empty,
                    JsonParseError::GrammarError { offset, message } => parse_outcome(input@)
                        matches ParseOutcome::Bad(at, exp) && offset == at && message@
                        == expect_message(exp) && offset <= trim_chars(input@).len(),
                    JsonParseError::UnexpectedRootType(name) => parse_outcome(input@)
                        matches ParseOutcome::Primitive(nm) && name@ == nm,
                },
            },
    {
        let (t, lo, hi) = trimmed_span(input);
        if lo >= hi {
            return Err(JsonParseError::EmptyJson);
        }
        match json_at(&t) {
            Outcome::Failed(at, exp) => Err(
                JsonParseError::GrammarError { offset: at, message: message_of(exp) },
            ),
            Outcome::Matched(_) => {
                let j0: usize = ws_skip(&t, 0);
                assert(sp_value(t@, j0 as int) is Matched);
                assert(j0 < t@.len());
                let c = t[j0];
                if c == '{' {
                    let content = input.substring_char(lo, hi).to_owned();
                    Ok(JsonDocument { content, root_type: JsonRootType::Object })
                } else if c == '[' {
                    let content = input.substring_char(lo, hi).to_owned();
                    Ok(JsonDocument { content, root_type: JsonRootType::Array })
                } else {
                    Err(JsonParseError::UnexpectedRootType(root_name_of(c)))
                }
            },
        }
    }

    /// Checks whether the trimmed input conforms to the JSON grammar,
    /// without the root-type restriction that `parse` applies: a bare
    /// primitive such as `true` is grammar-valid here although `parse`
    /// rejects it as a document.
    pub fn is_valid(input: &str) -> (r: bool)
        ensures
            r == valid_json(input@),
    {
        let (t, lo, hi) = trimmed_span(input);
        if lo >= hi {
            return false;
        }
        match json_at(&t) {
            Outcome::Matched(_) => true,
            Outcome::Failed(_, _) => false,
        }
    }
}

/// The inputs that `is_valid` accepts are exactly those that `parse`
/// either turns into a document or rejects only for their primitive root:
/// grammar conformance is strictly broader than document validity.
pub proof fn lemma_valid_iff_grammar_ok(s: Seq<char>)
    ensures
        valid_json(s) <==> (parse_outcome(s) is Doc || parse_outcome(s) is Primitive),
{
}

/// An empty or whitespace-only input — and no other — is rejected as
/// `EmptyJson` by `parse`, and is invalid to `is_valid`.
pub proof fn lemma_empty_input(s: Seq<char>)
    ensures
        parse_outcome(s) is Empty <==> trim_chars(s).len() == 0,
        trim_chars(s).len() == 0 ==> !valid_json(s),
{
}

/// A grammar failure's offset always points into the trimmed text (one
/// past its end at most, for an input that ends too early).
pub proof fn lemma_failure_offset_in_range(s: Seq<char>)
    ensures
        parse_outcome(s) matches ParseOutcome::Bad(at, _) ==> 0 <= at <= trim_chars(s).len(),
{
    let t = trim_chars(s);
    if t.len() > 0 {
        lemma_sp_json(t);
    }
}

/// For a grammar-valid input, `parse`'s outcome is decided by the first
/// character of the trimmed text: `{` and `[` give a document with the
/// corresponding root type, and any other root is rejected as a primitive,
/// named after the rule it matched — even though `is_valid` accepts it.
pub proof fn lemma_root_classification(s: Seq<char>)
    requires
        valid_json(s),
    ensures
        trim_chars(s).len() > 0,
        sp_ws(trim_chars(s), 0) == 0,
        trim_chars(s)[0] == '{' ==> parse_outcome(s) == ParseOutcome::Doc(JsonRootType::Object),
        trim_chars(s)[0] == '[' ==> parse_outcome(s) == ParseOutcome::Doc(JsonRootType::Array),
        trim_chars(s)[0] != '{' && trim_chars(s)[0] != '[' ==> parse_outcome(s)
            == ParseOutcome::Primitive(root_name(trim_chars(s)[0])),
{
    lemma_sp_ws(s, 0);
    lemma_sp_ws_rev(s, s.len() as int);
    let t = trim_chars(s);
    let lo = sp_ws(s, 0);
    // The trimmed text starts with a non-whitespace character, so the
    // grammar's leading whitespace skip stays at the start.
    assert(t[0] == s[lo]);
    assert(sp_ws(t, 0) == 0);
}

/// Re-parsing the content of a successfully parsed document — which is the
/// trimmed input — decides the same outcome again, with the same root type.
pub proof fn lemma_reparse_idempotent(s: Seq<char>)
    requires
        parse_outcome(s) is Doc,
    ensures
        parse_outcome(trim_chars(s)) == parse_outcome(s),
{
    lemma_trim_of_trimmed(s);
}

} // verus!
