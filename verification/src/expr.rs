//! The `EXPECT` expression language: tokenizer and parser.
//!
//! An expression is a path followed by nothing (a truthiness test), by
//! `EXISTS`, by a comparison operator and a value, by `IN` and a bracketed
//! value list, or by `BETWEEN lo AND hi`. Values are quoted strings,
//! decimal integers, or the booleans `true` and `false`.

use vstd::prelude::*;

use crate::assertion::Assertion;
use crate::assertion::assertion_path;
use crate::assertion::wf_assertion;
use crate::digits::is_digit_char;
use crate::digits::is_number_lit;
use crate::digits::number_lit_val;
use crate::digits::parse_i64_chars;
use crate::lines::is_space;
use crate::lines::lead_spaces;
use crate::lines::lemma_lead_spaces;
use crate::lines::spec_trim;
use crate::lines::trim_exec;
use crate::path::copy_range;
use crate::strutil::chars_eq_str;
use crate::strutil::chars_to_string;
use crate::strutil::str_to_chars;
use crate::value::AxValue;
use crate::value::Operator;

verus! {

/// The parse errors of the `.ax` language. Any of them aborts the whole
/// run; no partial result is returned.
#[derive(Debug)]
pub enum ParseError {
    /// The text does not follow the grammar; `expected` says what the
    /// parser was looking for at that line and column.
    Syntax { line: usize, col: usize, expected: String },
    /// A request URL is not an absolute URI.
    InvalidUrl { url: String },
    /// A test block has no request line.
    MissingRequest { block_index: usize },
    /// An operator token is none of `==`, `!=`, `>=`, `<=`, `>`, `<`.
    UnknownOperator { token: String },
    /// A number literal is malformed or does not fit a 64-bit integer.
    InvalidNumber { token: String },
}

/// One token of an `EXPECT` expression.
enum Token {
    Word(Vec<char>),
    Num(Vec<char>),
    StrLit(Vec<char>),
    OpTok(Vec<char>),
    LBrack,
    RBrack,
    Comma,
}

/// A word character: what idents and dotted paths are made of.
pub open spec fn is_word_char(c: char) -> bool {
    ('a' <= c && c <= 'z') || ('A' <= c && c <= 'Z') || ('0' <= c && c <= '9') || c == '_' || c
        == '-' || c == '.'
}

/// A word may start with a letter or an underscore.
pub open spec fn is_word_start(c: char) -> bool {
    ('a' <= c && c <= 'z') || ('A' <= c && c <= 'Z') || c == '_'
}

fn is_word_char_exec(c: char) -> (r: bool)
    ensures
        r == is_word_char(c),
{
    ('a' <= c && c <= 'z') || ('A' <= c && c <= 'Z') || ('0' <= c && c <= '9') || c == '_' || c
        == '-' || c == '.'
}

fn is_word_start_exec(c: char) -> (r: bool)
    ensures
        r == is_word_start(c),
{
    ('a' <= c && c <= 'z') || ('A' <= c && c <= 'Z') || c == '_'
}

/// The first index at or after `i` that is not a word character, or the
/// end of the text.
pub open spec fn word_end(s: Seq<char>, i: int) -> int
    decreases s.len() - i,
{
    if i < 0 {
        0
    } else if i >= s.len() {
        s.len() as int
    } else if !is_word_char(s[i]) {
        i
    } else {
        word_end(s, i + 1)
    }
}

/// The first token of an expression when it is a word: the maximal run
/// of word characters after the leading whitespace. An assertion's path
/// is this token.
pub open spec fn first_word_token(s: Seq<char>) -> Seq<char> {
    s.subrange(lead_spaces(s), word_end(s, lead_spaces(s)))
}

proof fn lemma_word_end(s: Seq<char>, i: int)
    requires
        0 <= i <= s.len(),
    ensures
        i <= word_end(s, i) <= s.len(),
        forall|k: int| i <= k < word_end(s, i) ==> is_word_char(#[trigger] s[k]),
        word_end(s, i) < s.len() ==> !is_word_char(s[word_end(s, i)]),
    decreases s.len() - i,
{
    if i < s.len() && is_word_char(s[i]) {
        lemma_word_end(s, i + 1);
    }
}

/// An operator character.
pub open spec fn is_op_char(c: char) -> bool {
    c == '=' || c == '!' || c == '<' || c == '>'
}

fn is_op_char_exec(c: char) -> (r: bool)
    ensures
        r == is_op_char(c),
{
    c == '=' || c == '!' || c == '<' || c == '>'
}

/// One token of an `EXPECT` expression, at the specification level: the
/// same shapes the tokenizer produces, over character sequences.
pub ghost enum SpecTok {
    TWord(Seq<char>),
    TNum(Seq<char>),
    TStr(Seq<char>),
    TOp(Seq<char>),
    TLBrack,
    TRBrack,
    TComma,
}

/// The first closing quote at or after `i`, or the end of the text.
pub open spec fn quote_end(s: Seq<char>, i: int) -> int
    decreases s.len() - i,
{
    if i < 0 || i >= s.len() {
        s.len() as int
    } else if s[i] == '"' {
        i
    } else {
        quote_end(s, i + 1)
    }
}

/// The first non-digit at or after `i`, or the end of the text.
pub open spec fn digit_end(s: Seq<char>, i: int) -> int
    decreases s.len() - i,
{
    if i < 0 || i >= s.len() {
        s.len() as int
    } else if !is_digit_char(s[i]) {
        i
    } else {
        digit_end(s, i + 1)
    }
}

/// The first non-operator character at or after `i`, or the end of the
/// text.
pub open spec fn op_end(s: Seq<char>, i: int) -> int
    decreases s.len() - i,
{
    if i < 0 || i >= s.len() {
        s.len() as int
    } else if !is_op_char(s[i]) {
        i
    } else {
        op_end(s, i + 1)
    }
}

proof fn lemma_quote_end(s: Seq<char>, i: int)
    requires
        0 <= i <= s.len(),
    ensures
        i <= quote_end(s, i) <= s.len(),
        forall|k: int| i <= k < quote_end(s, i) ==> s[k] != '"',
        quote_end(s, i) < s.len() ==> s[quote_end(s, i)] == '"',
    decreases s.len() - i,
{
    if i < s.len() && s[i] != '"' {
        lemma_quote_end(s, i + 1);
    }
}

proof fn lemma_digit_end(s: Seq<char>, i: int)
    requires
        0 <= i <= s.len(),
    ensures
        i <= digit_end(s, i) <= s.len(),
        forall|k: int| i <= k < digit_end(s, i) ==> is_digit_char(#[trigger] s[k]),
        digit_end(s, i) < s.len() ==> !is_digit_char(s[digit_end(s, i)]),
    decreases s.len() - i,
{
    if i < s.len() && is_digit_char(s[i]) {
        lemma_digit_end(s, i + 1);
    }
}

proof fn lemma_op_end(s: Seq<char>, i: int)
    requires
        0 <= i <= s.len(),
    ensures
        i <= op_end(s, i) <= s.len(),
        forall|k: int| i <= k < op_end(s, i) ==> is_op_char(#[trigger] s[k]),
        op_end(s, i) < s.len() ==> !is_op_char(s[op_end(s, i)]),
    decreases s.len() - i,
{
    if i < s.len() && is_op_char(s[i]) {
        lemma_op_end(s, i + 1);
    }
}

/// Prepends a token to a token list that may already have failed.
pub open spec fn cons_tok(t: SpecTok, rest: Option<Seq<SpecTok>>) -> Option<Seq<SpecTok>> {
    match rest {
        Some(r) => Some(seq![t] + r),
        None => None,
    }
}

/// The tokens of an expression from position `i` on, or nothing when the
/// text does not tokenize: an unterminated string, a minus sign without
/// digits, or a character outside the language. The guards against a
/// non-advancing run position are vacuous — every run moves forward —
/// and only bound the recursion.
pub open spec fn spec_tokens_from(s: Seq<char>, i: int) -> Option<Seq<SpecTok>>
    decreases s.len() - i,
{
    if i < 0 {
        None
    } else if i >= s.len() {
        Some(Seq::empty())
    } else {
        let c = s[i];
        if is_space(c) {
            spec_tokens_from(s, i + 1)
        } else if c == '[' {
            cons_tok(SpecTok::TLBrack, spec_tokens_from(s, i + 1))
        } else if c == ']' {
            cons_tok(SpecTok::TRBrack, spec_tokens_from(s, i + 1))
        } else if c == ',' {
            cons_tok(SpecTok::TComma, spec_tokens_from(s, i + 1))
        } else if c == '"' {
            let j = quote_end(s, i + 1);
            if j < i + 1 || j >= s.len() {
                None
            } else {
                cons_tok(SpecTok::TStr(s.subrange(i + 1, j)), spec_tokens_from(s, j + 1))
            }
        } else if c == '-' || is_digit_char(c) {
            let j = digit_end(s, i + 1);
            if j < i + 1 || j > s.len() || (c == '-' && j == i + 1) {
                None
            } else {
                cons_tok(SpecTok::TNum(s.subrange(i, j)), spec_tokens_from(s, j))
            }
        } else if is_op_char(c) {
            let j = op_end(s, i + 1);
            if j < i + 1 || j > s.len() {
                None
            } else {
                cons_tok(SpecTok::TOp(s.subrange(i, j)), spec_tokens_from(s, j))
            }
        } else if is_word_start(c) {
            let j = word_end(s, i + 1);
            if j < i + 1 || j > s.len() {
                None
            } else {
                cons_tok(SpecTok::TWord(s.subrange(i, j)), spec_tokens_from(s, j))
            }
        } else {
            None
        }
    }
}

/// The tokens of a whole expression, or nothing when it does not
/// tokenize.
pub open spec fn spec_tokens(s: Seq<char>) -> Option<Seq<SpecTok>> {
    spec_tokens_from(s, 0)
}

/// Whether one token can denote an authored value: a quoted string, an
/// integer that fits 64 bits, or a boolean word.
pub open spec fn tok_value_wf(t: SpecTok) -> bool {
    match t {
        SpecTok::TStr(_) => true,
        SpecTok::TNum(cs) => is_number_lit(cs) && i64::MIN <= number_lit_val(cs) <= i64::MAX,
        SpecTok::TWord(w) => w == "true"@ || w == "false"@,
        _ => false,
    }
}

/// The value a token denotes: the text between the quotes, the number a
/// literal spells, or a boolean.
pub open spec fn tok_value_matches(t: SpecTok, v: AxValue) -> bool {
    match t {
        SpecTok::TStr(cs) => v matches AxValue::String(x) && x@ == cs,
        SpecTok::TNum(cs) => is_number_lit(cs) && (v matches AxValue::Number(n) && n as int
            == number_lit_val(cs)),
        SpecTok::TWord(w) => (w == "true"@ && v == AxValue::Bool(true)) || (w == "false"@ && v
            == AxValue::Bool(false)),
        _ => false,
    }
}

/// A well-formed bracketed value list after `path IN`: an opening
/// bracket, values separated by commas, a closing bracket.
pub open spec fn in_list_wf(toks: Seq<SpecTok>) -> bool {
    &&& toks.len() >= 5
    &&& toks.len() % 2 == 1
    &&& toks[2] is TLBrack
    &&& toks.last() is TRBrack
    &&& (forall|j: int| 0 <= j < (toks.len() - 3) / 2 ==> tok_value_wf(#[trigger] toks[3 + 2 * j]))
    &&& forall|j: int| 0 <= j < (toks.len() - 5) / 2 ==> (#[trigger] toks[4 + 2 * j]) is TComma
}

/// A well-formed `EXPECT` expression, by its tokens: a path word alone,
/// or followed by a known operator and a value, by `EXISTS`, by `IN` and
/// a bracketed list, or by `BETWEEN` with two numeric bounds.
pub open spec fn expr_wf(toks: Seq<SpecTok>) -> bool {
    &&& toks.len() >= 1
    &&& toks[0] is TWord
    &&& if toks.len() == 1 {
        true
    } else {
        match toks[1] {
            SpecTok::TOp(t) => toks.len() == 3 && spec_operator(t) is Some && tok_value_wf(
                toks[2],
            ),
            SpecTok::TWord(w) => {
                if w == "EXISTS"@ {
                    toks.len() == 2
                } else if w == "IN"@ {
                    in_list_wf(toks)
                } else if w == "BETWEEN"@ {
                    &&& toks.len() == 5
                    &&& toks[2] is TNum
                    &&& tok_value_wf(toks[2])
                    &&& (toks[3] matches SpecTok::TWord(a) && a == "AND"@)
                    &&& toks[4] is TNum
                    &&& tok_value_wf(toks[4])
                } else {
                    false
                }
            },
            _ => false,
        }
    }
}

/// The assertion a token list denotes: the variant mirrors the syntax,
/// the path is the leading word, and every value is the one its token
/// spells.
pub open spec fn expr_matches(toks: Seq<SpecTok>, a: Assertion) -> bool {
    &&& toks.len() >= 1
    &&& (toks[0] matches SpecTok::TWord(p) && assertion_path(a) == p)
    &&& if toks.len() == 1 {
        a is Unary
    } else {
        match toks[1] {
            SpecTok::TOp(t) => {
                &&& toks.len() == 3
                &&& (a matches Assertion::Binary { op, value, .. } && spec_operator(t) == Some(
                    op,
                ) && tok_value_matches(toks[2], value))
            },
            SpecTok::TWord(w) => {
                if w == "EXISTS"@ {
                    toks.len() == 2 && a is Exists
                } else if w == "IN"@ {
                    &&& in_list_wf(toks)
                    &&& (a matches Assertion::In { values, .. } && values@.len() == (toks.len()
                        - 3) / 2 && forall|j: int|
                        0 <= j < values@.len() ==> tok_value_matches(
                            toks[3 + 2 * j],
                            #[trigger] values@[j],
                        ))
                } else if w == "BETWEEN"@ {
                    &&& toks.len() == 5
                    &&& (toks[3] matches SpecTok::TWord(x) && x == "AND"@)
                    &&& (a matches Assertion::Between { min, max, .. } && tok_value_matches(
                        toks[2],
                        min,
                    ) && tok_value_matches(toks[4], max))
                } else {
                    false
                }
            },
            _ => false,
        }
    }
}

fn is_digit_exec(c: char) -> (r: bool)
    ensures
        r == crate::digits::is_digit_char(c),
{
    '0' <= c && c <= '9'
}

fn is_space_exec(c: char) -> (r: bool)
    ensures
        r == is_space(c),
{
    c == ' ' || c == '\t' || c == '\r'
}

fn syntax_error(line: usize, col: usize, expected: &str) -> (r: ParseError)
    ensures
        r is Syntax,
{
    ParseError::Syntax { line, col, expected: String::from_str(expected) }
}

/// What a token list says of the expression it was cut from: when the
/// first token is a word, it is the expression's first word-character
/// run — an assertion's path.
spec fn first_tok_ok(t: Token, s: Seq<char>) -> bool {
    t matches Token::Word(w) ==> w@ == first_word_token(s)
}

/// The specification-level form of one tokenizer token.
spec fn tok_view(t: Token) -> SpecTok {
    match t {
        Token::Word(w) => SpecTok::TWord(w@),
        Token::Num(w) => SpecTok::TNum(w@),
        Token::StrLit(w) => SpecTok::TStr(w@),
        Token::OpTok(w) => SpecTok::TOp(w@),
        Token::LBrack => SpecTok::TLBrack,
        Token::RBrack => SpecTok::TRBrack,
        Token::Comma => SpecTok::TComma,
    }
}

/// The specification-level forms of a token list.
spec fn tok_views(ts: Seq<Token>) -> Seq<SpecTok> {
    ts.map_values(|t: Token| tok_view(t))
}

/// A finished token prefix glued to the tokens still to come.
spec fn cons_all(pre: Seq<SpecTok>, rest: Option<Seq<SpecTok>>) -> Option<Seq<SpecTok>> {
    match rest {
        Some(r) => Some(pre + r),
        None => None,
    }
}

/// Cuts an expression into tokens, per `spec_tokens`. Operator runs are
/// taken greedily, so `>=` is one token and never `>` then `=`.
fn tokenize(s: &Vec<char>, line_no: usize) -> (r: Result<Vec<Token>, ParseError>)
    ensures
        match r {
            Ok(toks) => spec_tokens(s@) == Some(tok_views(toks@)) && (toks@.len() > 0
                ==> first_tok_ok(toks@[0], s@)),
            Err(_) => spec_tokens(s@) is None,
        },
{
    let n = s.len();
    let mut toks: Vec<Token> = Vec::new();
    let mut i: usize = 0;
    proof {
        assert(tok_views(toks@) =~= Seq::<SpecTok>::empty());
        if spec_tokens_from(s@, 0) is Some {
            assert(tok_views(toks@) + spec_tokens_from(s@, 0)->Some_0 =~= spec_tokens_from(
                s@,
                0,
            )->Some_0);
        }
    }
    while i < n
        invariant
            i <= n,
            n == s@.len(),
            spec_tokens_from(s@, 0) == cons_all(tok_views(toks@), spec_tokens_from(s@, i as int)),
            toks@.len() == 0 ==> forall|k: int| 0 <= k < i ==> is_space(#[trigger] s@[k]),
            toks@.len() > 0 ==> first_tok_ok(toks@[0], s@),
        decreases n - i,
    {
        let ghost pre = tok_views(toks@);
        let ghost rest0 = spec_tokens_from(s@, i as int);
        let c = s[i];
        if is_space_exec(c) {
            i = i + 1;
        } else if c == '[' {
            toks.push(Token::LBrack);
            proof {
                step_glue(pre, rest0, toks@, SpecTok::TLBrack, spec_tokens_from(s@, i + 1));
            }
            i = i + 1;
        } else if c == ']' {
            toks.push(Token::RBrack);
            proof {
                step_glue(pre, rest0, toks@, SpecTok::TRBrack, spec_tokens_from(s@, i + 1));
            }
            i = i + 1;
        } else if c == ',' {
            toks.push(Token::Comma);
            proof {
                step_glue(pre, rest0, toks@, SpecTok::TComma, spec_tokens_from(s@, i + 1));
            }
            i = i + 1;
        } else if c == '"' {
            let mut j = i + 1;
            while j < n && s[j] != '"'
                invariant
                    i < j <= n,
                    n == s@.len(),
                    forall|k: int| i < k < j ==> s@[k] != '"',
                decreases n - j,
            {
                j = j + 1;
            }
            proof {
                lemma_quote_end(s@, i + 1);
                assert(j as int == quote_end(s@, i + 1)) by {
                    let qe = quote_end(s@, i + 1);
                    if qe < j {
                        assert(s@[qe] == '"');
                    } else if qe > j {
                        assert(s@[j as int] != '"');
                    }
                }
            }
            if j == n {
                return Err(syntax_error(line_no, i + 1, "closing quote"));
            }
            let w = copy_range(s, i + 1, j);
            toks.push(Token::StrLit(w));
            proof {
                step_glue(
                    pre,
                    rest0,
                    toks@,
                    SpecTok::TStr(s@.subrange(i + 1, j as int)),
                    spec_tokens_from(s@, j + 1),
                );
            }
            i = j + 1;
        } else if c == '-' || is_digit_exec(c) {
            let mut j = i + 1;
            while j < n && is_digit_exec(s[j])
                invariant
                    i < j <= n,
                    n == s@.len(),
                    forall|k: int| i < k < j ==> is_digit_char(#[trigger] s@[k]),
                decreases n - j,
            {
                j = j + 1;
            }
            proof {
                lemma_digit_end(s@, i + 1);
                assert(j as int == digit_end(s@, i + 1)) by {
                    let de = digit_end(s@, i + 1);
                    if de < j {
                        assert(is_digit_char(s@[de]));
                    } else if de > j {
                        assert(is_digit_char(s@[j as int]));
                    }
                }
            }
            let tok = copy_range(s, i, j);
            if c == '-' && j == i + 1 {
                return Err(ParseError::InvalidNumber { token: chars_to_string(&tok) });
            }
            toks.push(Token::Num(tok));
            proof {
                step_glue(
                    pre,
                    rest0,
                    toks@,
                    SpecTok::TNum(s@.subrange(i as int, j as int)),
                    spec_tokens_from(s@, j as int),
                );
            }
            i = j;
        } else if is_op_char_exec(c) {
            let mut j = i + 1;
            while j < n && is_op_char_exec(s[j])
                invariant
                    i < j <= n,
                    n == s@.len(),
                    forall|k: int| i < k < j ==> is_op_char(#[trigger] s@[k]),
                decreases n - j,
            {
                j = j + 1;
            }
            proof {
                lemma_op_end(s@, i + 1);
                assert(j as int == op_end(s@, i + 1)) by {
                    let oe = op_end(s@, i + 1);
                    if oe < j {
                        assert(is_op_char(s@[oe]));
                    } else if oe > j {
                        assert(is_op_char(s@[j as int]));
                    }
                }
            }
            toks.push(Token::OpTok(copy_range(s, i, j)));
            proof {
                step_glue(
                    pre,
                    rest0,
                    toks@,
                    SpecTok::TOp(s@.subrange(i as int, j as int)),
                    spec_tokens_from(s@, j as int),
                );
            }
            i = j;
        } else if is_word_start_exec(c) {
            let ghost was_empty = toks@.len() == 0;
            let mut j = i + 1;
            while j < n && is_word_char_exec(s[j])
                invariant
                    i < j <= n,
                    n == s@.len(),
                    is_word_char(s@[i as int]),
                    forall|k: int| i < k < j ==> is_word_char(#[trigger] s@[k]),
                decreases n - j,
            {
                j = j + 1;
            }
            proof {
                lemma_word_end(s@, i + 1);
                assert(j as int == word_end(s@, i + 1)) by {
                    let we = word_end(s@, i + 1);
                    if we < j {
                        assert(is_word_char(s@[we]));
                    } else if we > j {
                        assert(is_word_char(s@[j as int]));
                    }
                }
            }
            let w = copy_range(s, i, j);
            proof {
                if was_empty {
                    // the first token starts right after the leading
                    // whitespace and spans the word-character run
                    lemma_lead_spaces(s@);
                    assert(i as int == lead_spaces(s@)) by {
                        if lead_spaces(s@) < i {
                            assert(is_space(s@[lead_spaces(s@)]));
                        } else if lead_spaces(s@) > i {
                            assert(is_space(s@[i as int]));
                        }
                    }
                    lemma_word_end(s@, i as int);
                    assert(j as int == word_end(s@, i as int)) by {
                        let we = word_end(s@, i as int);
                        if we < j {
                            assert(is_word_char(s@[we]));
                        } else if we > j {
                            assert(is_word_char(s@[j as int]));
                        }
                    }
                    assert(w@ == first_word_token(s@));
                }
            }
            toks.push(Token::Word(w));
            proof {
                step_glue(
                    pre,
                    rest0,
                    toks@,
                    SpecTok::TWord(s@.subrange(i as int, j as int)),
                    spec_tokens_from(s@, j as int),
                );
            }
            i = j;
        } else {
            return Err(syntax_error(line_no, i + 1, "path, operator or value"));
        }
    }
    proof {
        assert(spec_tokens_from(s@, i as int) == Some(Seq::<SpecTok>::empty()));
        assert(tok_views(toks@) + Seq::<SpecTok>::empty() =~= tok_views(toks@));
    }
    Ok(toks)
}

/// Glues one finished token into the prefix-plus-rest decomposition of
/// the token stream: if the stream from the old position is the new
/// token followed by the stream from the new position, the decomposition
/// moves the token into the prefix.
proof fn step_glue(
    pre: Seq<SpecTok>,
    rest0: Option<Seq<SpecTok>>,
    toks: Seq<Token>,
    tv: SpecTok,
    next: Option<Seq<SpecTok>>,
)
    requires
        rest0 == cons_tok(tv, next),
        tok_views(toks) =~= pre.push(tv),
    ensures
        cons_all(pre, rest0) == cons_all(tok_views(toks), next),
{
    match next {
        Some(r) => {
            assert(pre + (seq![tv] + r) =~= pre.push(tv) + r);
        },
        None => {},
    }
}

/// What an operator token denotes, if anything.
pub open spec fn spec_operator(t: Seq<char>) -> Option<Operator> {
    if t == "=="@ {
        Some(Operator::Eq)
    } else if t == "!="@ {
        Some(Operator::Ne)
    } else if t == ">="@ {
        Some(Operator::Gte)
    } else if t == "<="@ {
        Some(Operator::Lte)
    } else if t == ">"@ {
        Some(Operator::Gt)
    } else if t == "<"@ {
        Some(Operator::Lt)
    } else {
        None
    }
}

fn operator_of_chars(t: &Vec<char>) -> (r: Result<Operator, ParseError>)
    ensures
        match r {
            Ok(op) => spec_operator(t@) == Some(op),
            Err(e) => spec_operator(t@) is None && e is UnknownOperator,
        },
{
    if chars_eq_str(t, "==") {
        Ok(Operator::Eq)
    } else if chars_eq_str(t, "!=") {
        Ok(Operator::Ne)
    } else if chars_eq_str(t, ">=") {
        Ok(Operator::Gte)
    } else if chars_eq_str(t, "<=") {
        Ok(Operator::Lte)
    } else if chars_eq_str(t, ">") {
        Ok(Operator::Gt)
    } else if chars_eq_str(t, "<") {
        Ok(Operator::Lt)
    } else {
        Err(ParseError::UnknownOperator { token: chars_to_string(t) })
    }
}

/// Parses one comparison operator: `==`, `!=`, `>=`, `<=`, `>` or `<`,
/// per `spec_operator` on the trimmed input; anything else is an
/// `UnknownOperator` error.
pub fn parse_operator(input: &str) -> (r: Result<Operator, ParseError>)
    ensures
        match r {
            Ok(op) => spec_operator(spec_trim(input@)) == Some(op),
            Err(e) => spec_operator(spec_trim(input@)) is None && e is UnknownOperator,
        },
{
    let chars = str_to_chars(input);
    let t = trim_exec(&chars);
    operator_of_chars(&t)
}

/// A well-formed quoted string literal: quotes around text with no
/// embedded quote.
pub open spec fn is_string_lit(t: Seq<char>) -> bool {
    t.len() >= 2 && t[0] == '"' && t.last() == '"' && forall|k: int|
        0 < k < t.len() - 1 ==> t[k] != '"'
}

fn value_of_token(tok: &Token, line_no: usize) -> (r: Result<AxValue, ParseError>)
    ensures
        match r {
            Ok(v) => tok_value_matches(tok_view(*tok), v),
            Err(_) => !tok_value_wf(tok_view(*tok)),
        },
{
    match tok {
        Token::StrLit(s) => Ok(AxValue::String(chars_to_string(s))),
        Token::Num(s) => match parse_i64_chars(s) {
            Some(n) => Ok(AxValue::Number(n)),
            None => Err(ParseError::InvalidNumber { token: chars_to_string(s) }),
        },
        Token::Word(s) => {
            if chars_eq_str(s, "true") {
                Ok(AxValue::Bool(true))
            } else if chars_eq_str(s, "false") {
                Ok(AxValue::Bool(false))
            } else {
                Err(syntax_error(line_no, 1, "value"))
            }
        },
        _ => Err(syntax_error(line_no, 1, "value")),
    }
}

/// Parses one value: a quoted string (the text between the quotes), a
/// decimal integer that fits 64 bits, or `true` / `false`.
pub fn parse_value(input: &str) -> (r: Result<AxValue, ParseError>)
    ensures
        ({
            let t = spec_trim(input@);
            match r {
                Ok(v) => {
                    ||| (is_string_lit(t) && (v matches AxValue::String(x) && x@ == t.subrange(
                        1,
                        t.len() - 1,
                    )))
                    ||| (is_number_lit(t) && (v matches AxValue::Number(n) && n as int
                        == number_lit_val(t)))
                    ||| (t == "true"@ && v == AxValue::Bool(true))
                    ||| (t == "false"@ && v == AxValue::Bool(false))
                },
                Err(_) => true,
            }
        }),
        is_string_lit(spec_trim(input@)) ==> (r matches Ok(v) && (v matches AxValue::String(x)
            && x@ == spec_trim(input@).subrange(1, spec_trim(input@).len() - 1))),
        is_number_lit(spec_trim(input@)) && i64::MIN <= number_lit_val(spec_trim(input@))
            <= i64::MAX ==> (r matches Ok(v) && (v matches AxValue::Number(n) && n as int
            == number_lit_val(spec_trim(input@)))),
        is_number_lit(spec_trim(input@)) && !(i64::MIN <= number_lit_val(spec_trim(input@))
            <= i64::MAX) ==> (r matches Err(e) && e is InvalidNumber),
        spec_trim(input@) == "true"@ ==> (r matches Ok(v) && v == AxValue::Bool(true)),
        spec_trim(input@) == "false"@ ==> (r matches Ok(v) && v == AxValue::Bool(false)),
{
    proof {
        reveal_strlit("true");
        reveal_strlit("false");
    }
    let chars = str_to_chars(input);
    let t = trim_exec(&chars);
    let n = t.len();
    if n >= 2 && t[0] == '"' {
        // a quoted literal must close at the end with no quote inside
        let mut k: usize = 1;
        while k < n - 1 && t[k] != '"'
            invariant
                1 <= k <= n - 1,
                n == t@.len(),
                forall|j: int| 0 < j < k ==> t@[j] != '"',
            decreases n - k,
        {
            k = k + 1;
        }
        if k == n - 1 && t[n - 1] == '"' {
            return Ok(AxValue::String(chars_to_string(&copy_range(&t, 1, n - 1))));
        }
        return Err(syntax_error(1, 1, "string literal"));
    }
    if n >= 1 && (t[0] == '-' || is_digit_exec(t[0])) {
        return match parse_i64_chars(&t) {
            Some(v) => Ok(AxValue::Number(v)),
            None => Err(ParseError::InvalidNumber { token: chars_to_string(&t) }),
        };
    }
    if chars_eq_str(&t, "true") {
        return Ok(AxValue::Bool(true));
    }
    if chars_eq_str(&t, "false") {
        return Ok(AxValue::Bool(false));
    }
    Err(syntax_error(1, 1, "value"))
}

/// Parses a whole `EXPECT` expression from the characters after the
/// keyword. Success is owed exactly on texts that tokenize to a
/// well-formed expression; the assertion then denotes those tokens —
/// variant, operator and values included — and its path is the
/// expression's first word.
pub fn parse_assertion_chars(s: &Vec<char>, line_no: usize) -> (r: Result<Assertion, ParseError>)
    ensures
        r matches Ok(a) ==> {
            &&& wf_assertion(a)
            &&& assertion_path(a) == first_word_token(s@)
            &&& (spec_tokens(s@) matches Some(ts) && expr_matches(ts, a))
        },
        (spec_tokens(s@) matches Some(ts) && expr_wf(ts)) ==> r is Ok,
{
    let toks = match tokenize(s, line_no) {
        Ok(t) => t,
        Err(e) => {
            return Err(e);
        },
    };
    let ghost ts = tok_views(toks@);
    proof {
        assert(ts.len() == toks@.len());
        if toks@.len() > 0 {
            assert(ts[0] == tok_view(toks@[0]));
        }
        if toks@.len() > 1 {
            assert(ts[1] == tok_view(toks@[1]));
        }
    }
    if toks.len() == 0 {
        return Err(syntax_error(line_no, 1, "assertion path"));
    }
    let path: String = match &toks[0] {
        Token::Word(w) => chars_to_string(w),
        _ => {
            return Err(syntax_error(line_no, 1, "assertion path"));
        },
    };
    if toks.len() == 1 {
        return Ok(Assertion::Unary { path });
    }
    match &toks[1] {
        Token::OpTok(t) => {
            let op = match operator_of_chars(t) {
                Ok(op) => op,
                Err(e) => {
                    return Err(e);
                },
            };
            if toks.len() != 3 {
                return Err(syntax_error(line_no, 1, "one value after the operator"));
            }
            proof {
                assert(ts[2] == tok_view(toks@[2]));
            }
            let value = match value_of_token(&toks[2], line_no) {
                Ok(v) => v,
                Err(e) => {
                    return Err(e);
                },
            };
            Ok(Assertion::Binary { path, op, value })
        },
        Token::Word(w) => {
            if chars_eq_str(w, "EXISTS") {
                if toks.len() != 2 {
                    return Err(syntax_error(line_no, 1, "end of expression after EXISTS"));
                }
                Ok(Assertion::Exists { path })
            } else if chars_eq_str(w, "IN") {
                if toks.len() < 4 {
                    return Err(syntax_error(line_no, 1, "bracketed value list after IN"));
                }
                proof {
                    assert(ts[2] == tok_view(toks@[2]));
                }
                if !(matches!(&toks[2], Token::LBrack)) {
                    return Err(syntax_error(line_no, 1, "[ after IN"));
                }
                let mut values: Vec<AxValue> = Vec::new();
                let mut i: usize = 3;
                loop
                    invariant
                        toks@.len() >= 4,
                        ts == tok_views(toks@),
                        ts.len() == toks@.len(),
                        spec_tokens(s@) == Some(ts),
                        path@ == first_word_token(s@),
                        (ts[0] matches SpecTok::TWord(p) && path@ == p),
                        (ts[1] matches SpecTok::TWord(w1) && w1 == "IN"@),
                        ts[2] is TLBrack,
                        i as int == 3 + 2 * values@.len(),
                        i <= toks@.len() + 1,
                        forall|j: int|
                            0 <= j < values@.len() ==> tok_value_matches(
                                ts[3 + 2 * j],
                                #[trigger] values@[j],
                            ),
                        forall|j: int|
                            0 <= j < values@.len() ==> (#[trigger] ts[4 + 2 * j]) is TComma,
                        expr_wf(ts) ==> i as int <= ts.len() - 2,
                    decreases toks@.len() - i,
                {
                    if i >= toks.len() {
                        return Err(syntax_error(line_no, 1, "] closing the value list"));
                    }
                    proof {
                        assert(ts[i as int] == tok_view(toks@[i as int]));
                    }
                    let v = match value_of_token(&toks[i], line_no) {
                        Ok(v) => v,
                        Err(e) => {
                            proof {
                                if expr_wf(ts) {
                                    assert(tok_value_wf(ts[3 + 2 * values@.len() as int]));
                                }
                            }
                            return Err(e);
                        },
                    };
                    values.push(v);
                    i = i + 1;
                    if i >= toks.len() {
                        proof {
                            if expr_wf(ts) {
                                assert(4 + 2 * (values@.len() as int - 1) <= ts.len() - 1);
                            }
                        }
                        return Err(syntax_error(line_no, 1, "] closing the value list"));
                    }
                    proof {
                        assert(ts[i as int] == tok_view(toks@[i as int]));
                    }
                    match &toks[i] {
                        Token::Comma => {
                            i = i + 1;
                            if i >= toks.len() {
                                proof {
                                    if expr_wf(ts) {
                                        let j = values@.len() as int - 1;
                                        if 4 + 2 * j == ts.len() - 1 {
                                            assert(ts.last() is TRBrack);
                                        } else {
                                            assert((ts[4 + 2 * j]) is TComma);
                                            assert(3 + 2 * (values@.len() as int) <= ts.len() - 2);
                                        }
                                    }
                                }
                                return Err(syntax_error(line_no, 1, "value after ,"));
                            }
                            proof {
                                if expr_wf(ts) {
                                    let j = values@.len() as int - 1;
                                    if 4 + 2 * j == ts.len() - 1 {
                                        assert(ts.last() is TRBrack);
                                    }
                                }
                            }
                        },
                        Token::RBrack => {
                            i = i + 1;
                            if i != toks.len() {
                                proof {
                                    if expr_wf(ts) {
                                        let j = values@.len() as int - 1;
                                        if 4 + 2 * j < ts.len() - 1 {
                                            assert((ts[4 + 2 * j]) is TComma);
                                        }
                                    }
                                }
                                return Err(
                                    syntax_error(line_no, 1, "end of expression after ]"),
                                );
                            }
                            proof {
                                reveal_strlit("EXISTS");
                                reveal_strlit("IN");
                                assert("IN"@.len() == 2 && "EXISTS"@.len() == 6);
                                assert("IN"@ != "EXISTS"@);
                                // the closed list pins the token shape:
                                // odd length, one value per odd position
                                let m = ts.len() as int;
                                assert(m == 4 + 2 * (values@.len() as int - 1) + 1);
                                assert(values@.len() == (m - 3) / 2);
                                assert(ts.last() == ts[m - 1]);
                                assert forall|j: int|
                                    0 <= j < (m - 3) / 2 implies tok_value_wf(
                                    #[trigger] ts[3 + 2 * j],
                                ) by {
                                    assert(tok_value_matches(ts[3 + 2 * j], values@[j]));
                                }
                                assert(ts.len() >= 5);
                                assert(m % 2 == 1) by {
                                    assert(m == 2 * (values@.len() as int) + 3);
                                }
                                assert(ts[2] is TLBrack);
                                assert(ts[m - 1] is TRBrack);
                                assert(forall|j: int|
                                    0 <= j < (m - 5) / 2 ==> (#[trigger] ts[4 + 2 * j])
                                        is TComma);
                                assert(in_list_wf(ts));
                            }
                            return Ok(Assertion::In { path, values });
                        },
                        _ => {
                            proof {
                                if expr_wf(ts) {
                                    let j = values@.len() as int - 1;
                                    if 4 + 2 * j == ts.len() - 1 {
                                        assert(ts.last() is TRBrack);
                                    } else {
                                        assert((ts[4 + 2 * j]) is TComma);
                                    }
                                }
                            }
                            return Err(syntax_error(line_no, 1, ", or ] in the value list"));
                        },
                    }
                }
            } else if chars_eq_str(w, "BETWEEN") {
                if toks.len() != 5 {
                    return Err(syntax_error(line_no, 1, "BETWEEN lo AND hi"));
                }
                proof {
                    assert(ts[2] == tok_view(toks@[2]));
                    assert(ts[3] == tok_view(toks@[3]));
                    assert(ts[4] == tok_view(toks@[4]));
                }
                let min = match value_of_token(&toks[2], line_no) {
                    Ok(v) => v,
                    Err(e) => {
                        return Err(e);
                    },
                };
                let and_ok = match &toks[3] {
                    Token::Word(a) => chars_eq_str(a, "AND"),
                    _ => false,
                };
                if !and_ok {
                    return Err(syntax_error(line_no, 1, "AND between the two bounds"));
                }
                let max = match value_of_token(&toks[4], line_no) {
                    Ok(v) => v,
                    Err(e) => {
                        return Err(e);
                    },
                };
                let numeric = match (&min, &max) {
                    (AxValue::Number(_), AxValue::Number(_)) => true,
                    _ => false,
                };
                if !numeric {
                    return Err(syntax_error(line_no, 1, "numeric bounds for BETWEEN"));
                }
                Ok(Assertion::Between { path, min, max })
            } else {
                Err(syntax_error(line_no, 1, "operator, IN, BETWEEN or EXISTS"))
            }
        },
        _ => Err(syntax_error(line_no, 1, "operator, IN, BETWEEN or EXISTS")),
    }
}

/// Parses a whole `EXPECT` expression. Success is owed exactly on texts
/// that tokenize to a well-formed expression; the assertion then denotes
/// those tokens — variant, operator and values included — and its path
/// is the expression's first word.
pub fn parse_assertion(input: &str) -> (r: Result<Assertion, ParseError>)
    ensures
        r matches Ok(a) ==> {
            &&& wf_assertion(a)
            &&& assertion_path(a) == first_word_token(input@)
            &&& (spec_tokens(input@) matches Some(ts) && expr_matches(ts, a))
        },
        (spec_tokens(input@) matches Some(ts) && expr_wf(ts)) ==> r is Ok,
{
    let chars = str_to_chars(input);
    parse_assertion_chars(&chars, 1)
}

/// A token list whose second token is a comparison operator.
pub open spec fn expr_is_binary(ts: Seq<SpecTok>) -> bool {
    ts.len() >= 2 && ts[1] is TOp
}

/// A token list whose second token is the word `EXISTS`.
pub open spec fn expr_is_exists(ts: Seq<SpecTok>) -> bool {
    ts.len() >= 2 && (ts[1] matches SpecTok::TWord(w) && w == "EXISTS"@)
}

/// A token list whose second token is the word `IN`.
pub open spec fn expr_is_in(ts: Seq<SpecTok>) -> bool {
    ts.len() >= 2 && (ts[1] matches SpecTok::TWord(w) && w == "IN"@)
}

/// A token list whose second token is the word `BETWEEN`.
pub open spec fn expr_is_between(ts: Seq<SpecTok>) -> bool {
    ts.len() >= 2 && (ts[1] matches SpecTok::TWord(w) && w == "BETWEEN"@)
}

/// A token list of just the path word.
pub open spec fn expr_is_unary(ts: Seq<SpecTok>) -> bool {
    ts.len() == 1
}

proof fn lemma_keywords_distinct()
    ensures
        "EXISTS"@ != "IN"@,
        "EXISTS"@ != "BETWEEN"@,
        "IN"@ != "BETWEEN"@,
{
    reveal_strlit("EXISTS");
    reveal_strlit("IN");
    reveal_strlit("BETWEEN");
    assert("EXISTS"@.len() == 6 && "IN"@.len() == 2 && "BETWEEN"@.len() == 7);
}

/// Parses an expression that must be a binary comparison; a well-formed
/// expression of that shape is owed success.
pub fn parse_binary_op(input: &str) -> (r: Result<Assertion, ParseError>)
    ensures
        r matches Ok(a) ==> a is Binary && wf_assertion(a) && (spec_tokens(input@) matches Some(
            ts,
        ) && expr_matches(ts, a)),
        (spec_tokens(input@) matches Some(ts) && expr_wf(ts) && expr_is_binary(ts)) ==> r is Ok,
{
    match parse_assertion(input) {
        Ok(a) => match a {
            Assertion::Binary { .. } => Ok(a),
            _ => Err(syntax_error(1, 1, "path operator value")),
        },
        Err(e) => Err(e),
    }
}

/// Parses an expression that must be an `IN` membership test; a
/// well-formed expression of that shape is owed success.
pub fn parse_in_op(input: &str) -> (r: Result<Assertion, ParseError>)
    ensures
        r matches Ok(a) ==> a is In && wf_assertion(a) && (spec_tokens(input@) matches Some(ts)
            && expr_matches(ts, a)),
        (spec_tokens(input@) matches Some(ts) && expr_wf(ts) && expr_is_in(ts)) ==> r is Ok,
{
    proof {
        lemma_keywords_distinct();
    }
    match parse_assertion(input) {
        Ok(a) => match a {
            Assertion::In { .. } => Ok(a),
            _ => Err(syntax_error(1, 1, "path IN [values]")),
        },
        Err(e) => Err(e),
    }
}

/// Parses an expression that must be a `BETWEEN` range test; a
/// well-formed expression of that shape is owed success.
pub fn parse_between_op(input: &str) -> (r: Result<Assertion, ParseError>)
    ensures
        r matches Ok(a) ==> a is Between && wf_assertion(a) && (spec_tokens(input@) matches Some(
            ts,
        ) && expr_matches(ts, a)),
        (spec_tokens(input@) matches Some(ts) && expr_wf(ts) && expr_is_between(ts)) ==> r is Ok,
{
    proof {
        lemma_keywords_distinct();
    }
    match parse_assertion(input) {
        Ok(a) => match a {
            Assertion::Between { .. } => Ok(a),
            _ => Err(syntax_error(1, 1, "path BETWEEN lo AND hi")),
        },
        Err(e) => Err(e),
    }
}

/// Parses an expression that must be an `EXISTS` test; a well-formed
/// expression of that shape is owed success.
pub fn parse_exists_op(input: &str) -> (r: Result<Assertion, ParseError>)
    ensures
        r matches Ok(a) ==> a is Exists && (spec_tokens(input@) matches Some(ts) && expr_matches(
            ts,
            a,
        )),
        (spec_tokens(input@) matches Some(ts) && expr_wf(ts) && expr_is_exists(ts)) ==> r is Ok,
{
    match parse_assertion(input) {
        Ok(a) => match a {
            Assertion::Exists { .. } => Ok(a),
            _ => Err(syntax_error(1, 1, "path EXISTS")),
        },
        Err(e) => Err(e),
    }
}

/// Parses an expression that must be a bare path truthiness test; a
/// well-formed expression of that shape is owed success.
pub fn parse_unary_path(input: &str) -> (r: Result<Assertion, ParseError>)
    ensures
        r matches Ok(a) ==> a is Unary && (spec_tokens(input@) matches Some(ts) && expr_matches(
            ts,
            a,
        )),
        (spec_tokens(input@) matches Some(ts) && expr_wf(ts) && expr_is_unary(ts)) ==> r is Ok,
{
    match parse_assertion(input) {
        Ok(a) => match a {
            Assertion::Unary { .. } => Ok(a),
            _ => Err(syntax_error(1, 1, "path")),
        },
        Err(e) => Err(e),
    }
}

} // verus!
