//! Rules for the text of a cell: decoding escape sequences, and read-only
//! analysis of placeholders, tags, nesting references and key suffixes.
//!
//! Every token is described by where a match that starts at a given
//! position ends; the tokens of a text are found from left to right, each
//! search starting where the last match ended.

use vstd::prelude::*;
use crate::parser::is_separator_like;
use crate::text::{
    chars_contain, chars_end_with, chars_of, contains_text, ends_with, string_of,
    string_of_range, texts,
};

verus! {

// ---------------------------------------------------------------------------
// Escape sequences
// ---------------------------------------------------------------------------

/// What the character after a backslash stands for, if the two form an
/// escape sequence.
pub open spec fn escape_code(c: char) -> Option<char> {
    if c == 'n' {
        Some('\n')
    } else if c == 't' {
        Some('\t')
    } else if c == 'r' {
        Some('\r')
    } else if c == '\\' {
        Some('\\')
    } else if c == '"' {
        Some('"')
    } else if c == '\'' {
        Some('\'')
    } else {
        None
    }
}

/// `s` with every escape sequence replaced by the character it stands for,
/// read from left to right; a backslash that starts no escape sequence
/// stays.
pub open spec fn unescaped(s: Seq<char>) -> Seq<char>
    decreases s.len(),
{
    if s.len() == 0 {
        Seq::<char>::empty()
    } else if s[0] == '\\' && s.len() >= 2 && escape_code(s[1]) is Some {
        seq![escape_code(s[1])->0] + unescaped(s.skip(2))
    } else {
        seq![s[0]] + unescaped(s.skip(1))
    }
}

fn decode_escape(c: char) -> (r: Option<char>)
    ensures
        r == escape_code(c),
{
    if c == 'n' {
        Some('\n')
    } else if c == 't' {
        Some('\t')
    } else if c == 'r' {
        Some('\r')
    } else if c == '\\' {
        Some('\\')
    } else if c == '"' {
        Some('"')
    } else if c == '\'' {
        Some('\'')
    } else {
        None
    }
}

/// Replaces the two-character escape sequences `\n`, `\t`, `\r`, `\\`,
/// `\"` and `\'` by the characters they stand for.
pub fn process_escape_sequences(input: &str) -> (r: String)
    ensures
        r@ == unescaped(input@),
{
    let v = chars_of(input);
    let mut out: Vec<char> = Vec::new();
    let mut i: usize = 0;
    assert(v@.skip(0) == v@);
    while i < v.len()
        invariant
            i <= v.len(),
            unescaped(v@) == out@ + unescaped(v@.skip(i as int)),
        decreases v.len() - i,
    {
        let ghost rest = v@.skip(i as int);
        let ghost before = out@;
        let mut step: usize = 1;
        let mut emitted: char = v[i];
        if v[i] == '\\' && i + 1 < v.len() {
            if let Some(d) = decode_escape(v[i + 1]) {
                emitted = d;
                step = 2;
            }
        }
        out.push(emitted);
        assert(rest.skip(step as int) == v@.skip(i + step));
        assert(before + (seq![emitted] + unescaped(rest.skip(step as int))) =~= out@ + unescaped(
            v@.skip(i + step),
        ));
        i = i + step;
    }
    assert(out@ + Seq::<char>::empty() =~= out@);
    string_of(&out)
}

// ---------------------------------------------------------------------------
// Character classes and runs
// ---------------------------------------------------------------------------

/// The classes of characters that the tokens are made of.
#[derive(Debug, Clone, Copy, PartialEq, Eq, Structural)]
pub enum CharClass {
    /// Anything but `}`.
    NotCloseBrace,
    /// Anything but `)`.
    NotCloseParen,
    /// Anything but `>`.
    NotGreater,
    /// `0` to `9`.
    Digit,
    /// `0` to `9`, `a` to `z`, `A` to `Z`.
    Alnum,
    /// Tab, line feed, vertical tab, form feed, carriage return, space.
    Space,
}

pub open spec fn in_class(class: CharClass, c: char) -> bool {
    match class {
        CharClass::NotCloseBrace => c != '}',
        CharClass::NotCloseParen => c != ')',
        CharClass::NotGreater => c != '>',
        CharClass::Digit => '0' <= c && c <= '9',
        CharClass::Alnum => ('0' <= c && c <= '9') || ('a' <= c && c <= 'z') || ('A' <= c && c
            <= 'Z'),
        CharClass::Space => c == '\t' || c == '\n' || c == '\u{b}' || c == '\u{c}' || c == '\r'
            || c == ' ',
    }
}

/// Where the longest run of characters of `class` that starts at `i` ends.
pub open spec fn run_end(class: CharClass, s: Seq<char>, i: int) -> int
    decreases s.len() - i,
{
    if 0 <= i < s.len() && in_class(class, s[i]) {
        run_end(class, s, i + 1)
    } else {
        i
    }
}

pub proof fn lemma_run_end(class: CharClass, s: Seq<char>, i: int)
    requires
        0 <= i <= s.len(),
    ensures
        i <= run_end(class, s, i) <= s.len(),
        forall|j: int| i <= j < run_end(class, s, i) ==> in_class(class, s[j]),
        run_end(class, s, i) < s.len() ==> !in_class(class, s[run_end(class, s, i)]),
    decreases s.len() - i,
{
    if i < s.len() && in_class(class, s[i]) {
        lemma_run_end(class, s, i + 1);
    }
}

fn class_has(class: CharClass, c: char) -> (r: bool)
    ensures
        r == in_class(class, c),
{
    match class {
        CharClass::NotCloseBrace => c != '}',
        CharClass::NotCloseParen => c != ')',
        CharClass::NotGreater => c != '>',
        CharClass::Digit => '0' <= c && c <= '9',
        CharClass::Alnum => ('0' <= c && c <= '9') || ('a' <= c && c <= 'z') || ('A' <= c && c
            <= 'Z'),
        CharClass::Space => c == '\t' || c == '\n' || c == '\u{b}' || c == '\u{c}' || c == '\r'
            || c == ' ',
    }
}

fn scan_run(class: CharClass, v: &Vec<char>, i: usize) -> (r: usize)
    requires
        i <= v.len(),
    ensures
        r == run_end(class, v@, i as int),
        i <= r <= v.len(),
{
    let mut k: usize = i;
    while k < v.len() && class_has(class, v[k])
        invariant
            i <= k <= v.len(),
            run_end(class, v@, i as int) == run_end(class, v@, k as int),
        decreases v.len() - k,
    {
        k = k + 1;
    }
    k
}

// ---------------------------------------------------------------------------
// Tokens
// ---------------------------------------------------------------------------

/// The tokens that the analysis looks for.
#[derive(Debug, Clone, Copy, PartialEq, Eq, Structural)]
pub enum Token {
    /// `{{name}}`: two opening braces, one or more characters other than
    /// `}`, two closing braces.
    DoubleBrace,
    /// `{name}`: an opening brace, one or more characters other than `}`, a
    /// closing brace.
    SingleBrace,
    /// `%s`, `%d`, `%1$s`, ...: a percent sign, optionally digits and `$`,
    /// then a conversion character.
    Printf,
    /// `<tag>`, `</tag>`, `<tag attributes>`: `<`, optionally `/`, letters
    /// or digits, optionally whitespace and anything up to the next `>`,
    /// then `>`.
    HtmlTag,
    /// `$t(key)`: `$t(`, one or more characters other than `)`, `)`.
    Nesting,
    /// A backslash followed by one of `n`, `t`, `r`, `\`, `'`, `"`.
    Escape,
}

/// The characters that end a printf-style specifier.
pub open spec fn is_conversion(c: char) -> bool {
    c == 's' || c == 'd' || c == 'i' || c == 'f' || c == 'F' || c == 'e' || c == 'E' || c == 'g'
        || c == 'G' || c == 'x' || c == 'X' || c == 'o' || c == 'u' || c == 'b' || c == 'c' || c
        == 'p' || c == 'n' || c == '%'
}

/// Whether `s` has the character `c` at position `i`.
pub open spec fn has_at(s: Seq<char>, i: int, c: char) -> bool {
    0 <= i < s.len() && s[i] == c
}

/// Where the token that starts at position `i` of `s` ends, if one starts
/// there.
pub open spec fn token_end(token: Token, s: Seq<char>, i: int) -> Option<int> {
    match token {
        Token::DoubleBrace => {
            let k = run_end(CharClass::NotCloseBrace, s, i + 2);
            if has_at(s, i, '{') && has_at(s, i + 1, '{') && k > i + 2 && has_at(s, k, '}')
                && has_at(s, k + 1, '}') {
                Some(k + 2)
            } else {
                None
            }
        },
        Token::SingleBrace => {
            let k = run_end(CharClass::NotCloseBrace, s, i + 1);
            if has_at(s, i, '{') && k > i + 1 && has_at(s, k, '}') {
                Some(k + 1)
            } else {
                None
            }
        },
        Token::Printf => {
            let d = run_end(CharClass::Digit, s, i + 1);
            if !has_at(s, i, '%') {
                None
            } else if d > i + 1 && has_at(s, d, '$') && d + 1 < s.len() && is_conversion(s[d + 1]) {
                Some(d + 2)
            } else if i + 1 < s.len() && is_conversion(s[i + 1]) {
                Some(i + 2)
            } else {
                None
            }
        },
        Token::HtmlTag => {
            let p = if has_at(s, i + 1, '/') {
                i + 2
            } else {
                i + 1
            };
            let q = run_end(CharClass::Alnum, s, p);
            let t = run_end(CharClass::NotGreater, s, q);
            if !has_at(s, i, '<') || q <= p {
                None
            } else if has_at(s, q, '>') {
                Some(q + 1)
            } else if q < s.len() && in_class(CharClass::Space, s[q]) && t < s.len() {
                Some(t + 1)
            } else {
                None
            }
        },
        Token::Nesting => {
            let k = run_end(CharClass::NotCloseParen, s, i + 3);
            if has_at(s, i, '$') && has_at(s, i + 1, 't') && has_at(s, i + 2, '(') && k > i + 3
                && has_at(s, k, ')') {
                Some(k + 1)
            } else {
                None
            }
        },
        Token::Escape => {
            if has_at(s, i, '\\') && i + 1 < s.len() && escape_code(s[i + 1]) is Some {
                Some(i + 2)
            } else {
                None
            }
        },
    }
}

/// A token never ends where it starts, nor past the end of the text.
pub proof fn lemma_token_end(token: Token, s: Seq<char>, i: int)
    requires
        0 <= i <= s.len(),
    ensures
        token_end(token, s, i) matches Some(e) ==> i < e <= s.len(),
{
    if i + 3 <= s.len() {
        lemma_run_end(CharClass::NotCloseParen, s, i + 3);
    }
    if i + 2 <= s.len() {
        lemma_run_end(CharClass::NotCloseBrace, s, i + 2);
        lemma_run_end(CharClass::Alnum, s, i + 2);
        lemma_run_end(CharClass::NotGreater, s, run_end(CharClass::Alnum, s, i + 2));
    }
    if i + 1 <= s.len() {
        lemma_run_end(CharClass::NotCloseBrace, s, i + 1);
        lemma_run_end(CharClass::Digit, s, i + 1);
        lemma_run_end(CharClass::Alnum, s, i + 1);
        lemma_run_end(CharClass::NotGreater, s, run_end(CharClass::Alnum, s, i + 1));
    }
}

/// The tokens of `s` from position `i` on, each as the pair of its start
/// and its end: the leftmost token first, then those that follow it.
pub open spec fn tokens_from(token: Token, s: Seq<char>, i: int) -> Seq<(int, int)>
    decreases s.len() - i,
{
    if i < 0 || i >= s.len() {
        Seq::<(int, int)>::empty()
    } else {
        match token_end(token, s, i) {
            Some(e) => if i < e <= s.len() {
                seq![(i, e)] + tokens_from(token, s, e)
            } else {
                tokens_from(token, s, i + 1)
            },
            None => tokens_from(token, s, i + 1),
        }
    }
}

/// The tokens of `s`, as pairs of start and end.
pub open spec fn tokens(token: Token, s: Seq<char>) -> Seq<(int, int)> {
    tokens_from(token, s, 0)
}

/// The text of each token of `s`.
pub open spec fn token_texts(token: Token, s: Seq<char>) -> Seq<Seq<char>> {
    Seq::new(tokens(token, s).len(), |k: int| s.subrange(tokens(token, s)[k].0, tokens(token, s)[k].1))
}

fn is_conversion_char(c: char) -> (r: bool)
    ensures
        r == is_conversion(c),
{
    c == 's' || c == 'd' || c == 'i' || c == 'f' || c == 'F' || c == 'e' || c == 'E' || c == 'g'
        || c == 'G' || c == 'x' || c == 'X' || c == 'o' || c == 'u' || c == 'b' || c == 'c' || c
        == 'p' || c == 'n' || c == '%'
}

fn char_at(v: &Vec<char>, i: usize, c: char) -> (r: bool)
    ensures
        r == has_at(v@, i as int, c),
{
    i < v.len() && v[i] == c
}

/// Where the token that starts at position `i` ends, if one starts there.
fn match_token(token: Token, v: &Vec<char>, i: usize) -> (r: Option<usize>)
    requires
        i < v.len(),
    ensures
        match r {
            Some(e) => token_end(token, v@, i as int) == Some(e as int) && i < e <= v.len(),
            None => token_end(token, v@, i as int) is None,
        },
{
    let n = v.len();
    proof {
        lemma_token_end(token, v@, i as int);
    }
    match token {
        Token::DoubleBrace => {
            if !(char_at(v, i, '{') && char_at(v, i + 1, '{')) {
                return None;
            }
            let k = scan_run(CharClass::NotCloseBrace, v, i + 2);
            if k > i + 2 && char_at(v, k, '}') && char_at(v, k + 1, '}') {
                Some(k + 2)
            } else {
                None
            }
        },
        Token::SingleBrace => {
            if !char_at(v, i, '{') {
                return None;
            }
            let k = scan_run(CharClass::NotCloseBrace, v, i + 1);
            if k > i + 1 && char_at(v, k, '}') {
                Some(k + 1)
            } else {
                None
            }
        },
        Token::Printf => {
            if !char_at(v, i, '%') {
                return None;
            }
            let d = scan_run(CharClass::Digit, v, i + 1);
            if d > i + 1 && char_at(v, d, '$') && d + 1 < n && is_conversion_char(v[d + 1]) {
                Some(d + 2)
            } else if i + 1 < n && is_conversion_char(v[i + 1]) {
                Some(i + 2)
            } else {
                None
            }
        },
        Token::HtmlTag => {
            if !char_at(v, i, '<') {
                return None;
            }
            let p = if char_at(v, i + 1, '/') {
                i + 2
            } else {
                i + 1
            };
            let q = scan_run(CharClass::Alnum, v, p);
            if q <= p {
                return None;
            }
            if char_at(v, q, '>') {
                return Some(q + 1);
            }
            if q < n && class_has(CharClass::Space, v[q]) {
                let t = scan_run(CharClass::NotGreater, v, q);
                if t < n {
                    return Some(t + 1);
                }
            }
            None
        },
        Token::Nesting => {
            if !(char_at(v, i, '$') && char_at(v, i + 1, 't') && char_at(v, i + 2, '(')) {
                return None;
            }
            let k = scan_run(CharClass::NotCloseParen, v, i + 3);
            if k > i + 3 && char_at(v, k, ')') {
                Some(k + 1)
            } else {
                None
            }
        },
        Token::Escape => {
            if char_at(v, i, '\\') && i + 1 < n && decode_escape(v[i + 1]).is_some() {
                Some(i + 2)
            } else {
                None
            }
        },
    }
}

/// The tokens of `v`, as pairs of start and end.
fn find_tokens(token: Token, v: &Vec<char>) -> (r: Vec<(usize, usize)>)
    ensures
        r@.len() == tokens(token, v@).len(),
        forall|k: int|
            0 <= k < r@.len() ==> (#[trigger] r@[k]).0 == tokens(token, v@)[k].0 && r@[k].1
                == tokens(token, v@)[k].1 && r@[k].0 < r@[k].1 <= v.len(),
{
    let mut found: Vec<(usize, usize)> = Vec::new();
    let mut i: usize = 0;
    while i < v.len()
        invariant
            i <= v.len(),
            tokens(token, v@).len() == found@.len() + tokens_from(token, v@, i as int).len(),
            forall|k: int|
                0 <= k < found@.len() ==> (#[trigger] found@[k]).0 == tokens(token, v@)[k].0
                    && found@[k].1 == tokens(token, v@)[k].1 && found@[k].0 < found@[k].1
                    <= v.len(),
            forall|k: int|
                0 <= k < tokens_from(token, v@, i as int).len() ==> tokens(token, v@)[found@.len()
                    + k] == #[trigger] tokens_from(token, v@, i as int)[k],
        decreases v.len() - i,
    {
        let ghost rest = tokens_from(token, v@, i as int);
        match match_token(token, v, i) {
            Some(e) => {
                found.push((i, e));
                assert(rest == seq![(i as int, e as int)] + tokens_from(token, v@, e as int));
                assert forall|k: int| 0 <= k < tokens_from(token, v@, e as int).len() implies tokens(
                    token,
                    v@,
                )[found@.len() + k] == #[trigger] tokens_from(token, v@, e as int)[k] by {
                    assert(rest[k + 1] == tokens_from(token, v@, e as int)[k]);
                }
                assert(rest[0] == (i as int, e as int));
                i = e;
            },
            None => {
                i = i + 1;
            },
        }
    }
    found
}

/// The text of each token of `v`.
fn find_token_texts(token: Token, v: &Vec<char>) -> (r: Vec<String>)
    ensures
        texts(r@) == token_texts(token, v@),
{
    let spans = find_tokens(token, v);
    let mut out: Vec<String> = Vec::new();
    let mut k: usize = 0;
    while k < spans.len()
        invariant
            k <= spans.len(),
            out@.len() == k,
            spans@.len() == tokens(token, v@).len(),
            forall|j: int|
                0 <= j < spans@.len() ==> (#[trigger] spans@[j]).0 == tokens(token, v@)[j].0
                    && spans@[j].1 == tokens(token, v@)[j].1 && spans@[j].0 < spans@[j].1
                    <= v.len(),
            forall|j: int| 0 <= j < k ==> (#[trigger] out@[j])@ == token_texts(token, v@)[j],
        decreases spans.len() - k,
    {
        let (a, b) = spans[k];
        out.push(string_of_range(v, a, b));
        k = k + 1;
    }
    assert(texts(out@) =~= token_texts(token, v@));
    out
}

// ---------------------------------------------------------------------------
// Escape sequences, tags and nesting references in a text
// ---------------------------------------------------------------------------

/// Whether `input` holds an escape sequence.
pub fn has_escape_sequences(input: &str) -> (r: bool)
    ensures
        r == (tokens(Token::Escape, input@).len() > 0),
{
    let v = chars_of(input);
    find_tokens(Token::Escape, &v).len() > 0
}

/// The escape sequences of `input`, from left to right.
pub fn extract_escape_sequences(input: &str) -> (r: Vec<String>)
    ensures
        texts(r@) == token_texts(Token::Escape, input@),
{
    let v = chars_of(input);
    find_token_texts(Token::Escape, &v)
}

/// The HTML-like tags of `input`, from left to right.
pub fn extract_html_tags(input: &str) -> (r: Vec<String>)
    ensures
        texts(r@) == token_texts(Token::HtmlTag, input@),
{
    let v = chars_of(input);
    find_token_texts(Token::HtmlTag, &v)
}

/// Whether `input` holds an HTML-like tag.
pub fn has_html_tags(input: &str) -> (r: bool)
    ensures
        r == (tokens(Token::HtmlTag, input@).len() > 0),
{
    let v = chars_of(input);
    find_tokens(Token::HtmlTag, &v).len() > 0
}

/// The nesting references `$t(...)` of `input`, from left to right.
pub fn extract_nesting_references(input: &str) -> (r: Vec<String>)
    ensures
        texts(r@) == token_texts(Token::Nesting, input@),
{
    let v = chars_of(input);
    find_token_texts(Token::Nesting, &v)
}

/// Whether `input` holds a nesting reference.
pub fn has_nesting_references(input: &str) -> (r: bool)
    ensures
        r == (tokens(Token::Nesting, input@).len() > 0),
{
    let v = chars_of(input);
    find_tokens(Token::Nesting, &v).len() > 0
}

// ---------------------------------------------------------------------------
// Variables
// ---------------------------------------------------------------------------

/// The notation of a variable.
#[derive(Debug, Clone, Copy, PartialEq, Eq, Structural)]
pub enum VariableType {
    /// `{{name}}`
    DoubleBrace,
    /// `{name}`
    SingleBrace,
    /// `%s`, `%d`, ...
    Printf,
}

/// A variable found in a text.
#[derive(Debug, Clone)]
pub struct Variable {
    pub var_type: VariableType,
    /// The whole token, braces or percent sign included.
    pub full_match: String,
    /// What stands between the braces; a printf-style specifier has no name.
    pub name: Option<String>,
}

/// A `Variable` with its strings as character sequences.
pub struct VariableView {
    pub var_type: VariableType,
    pub full_match: Seq<char>,
    pub name: Option<Seq<char>>,
}

impl View for Variable {
    type V = VariableView;

    open spec fn view(&self) -> VariableView {
        VariableView {
            var_type: self.var_type,
            full_match: self.full_match@,
            name: match self.name {
                Some(n) => Some(n@),
                None => None,
            },
        }
    }
}

/// The variable that the double-brace token from `a` to `b` stands for.
pub open spec fn double_brace_variable(s: Seq<char>, a: int, b: int) -> VariableView {
    VariableView {
        var_type: VariableType::DoubleBrace,
        full_match: s.subrange(a, b),
        name: Some(s.subrange(a + 2, b - 2)),
    }
}

/// The variable that the single-brace token from `a` to `b` stands for.
pub open spec fn single_brace_variable(s: Seq<char>, a: int, b: int) -> VariableView {
    VariableView {
        var_type: VariableType::SingleBrace,
        full_match: s.subrange(a, b),
        name: Some(s.subrange(a + 1, b - 1)),
    }
}

/// The variable that the printf-style token from `a` to `b` stands for.
pub open spec fn printf_variable(s: Seq<char>, a: int, b: int) -> VariableView {
    VariableView { var_type: VariableType::Printf, full_match: s.subrange(a, b), name: None }
}

/// A single-brace token counts only where the text holds it neither with
/// one more `{` in front nor with one more `}` behind: then it is no part
/// of a double-brace variable.
pub open spec fn stands_alone(s: Seq<char>, a: int, b: int) -> bool {
    !contains_text(s, seq!['{'] + s.subrange(a, b)) && !contains_text(
        s,
        s.subrange(a, b) + seq!['}'],
    )
}

pub open spec fn double_brace_variables(s: Seq<char>) -> Seq<VariableView> {
    Seq::new(
        tokens(Token::DoubleBrace, s).len(),
        |k: int|
            double_brace_variable(
                s,
                tokens(Token::DoubleBrace, s)[k].0,
                tokens(Token::DoubleBrace, s)[k].1,
            ),
    )
}

/// The single-brace variables among the first `n` single-brace tokens.
pub open spec fn single_brace_variables_of(s: Seq<char>, n: int) -> Seq<VariableView>
    decreases n,
{
    if n <= 0 || n > tokens(Token::SingleBrace, s).len() {
        Seq::<VariableView>::empty()
    } else {
        let m = tokens(Token::SingleBrace, s)[n - 1];
        if stands_alone(s, m.0, m.1) {
            single_brace_variables_of(s, n - 1).push(single_brace_variable(s, m.0, m.1))
        } else {
            single_brace_variables_of(s, n - 1)
        }
    }
}

pub open spec fn single_brace_variables(s: Seq<char>) -> Seq<VariableView> {
    single_brace_variables_of(s, tokens(Token::SingleBrace, s).len() as int)
}

pub open spec fn printf_variables(s: Seq<char>) -> Seq<VariableView> {
    Seq::new(
        tokens(Token::Printf, s).len(),
        |k: int| printf_variable(s, tokens(Token::Printf, s)[k].0, tokens(Token::Printf, s)[k].1),
    )
}

/// The variables of a text: the double-brace ones, then the single-brace
/// ones that stand alone, then the printf-style ones, each group from left
/// to right.
pub open spec fn variables(s: Seq<char>) -> Seq<VariableView> {
    double_brace_variables(s) + single_brace_variables(s) + printf_variables(s)
}

/// The views of a vector of variables.
pub open spec fn variable_views(v: Seq<Variable>) -> Seq<VariableView> {
    Seq::new(v.len(), |i: int| v[i]@)
}

/// The names of those variables that have one, in order.
pub open spec fn names_of(vars: Seq<VariableView>) -> Seq<Seq<char>>
    decreases vars.len(),
{
    if vars.len() == 0 {
        Seq::<Seq<char>>::empty()
    } else {
        match vars.last().name {
            Some(n) => names_of(vars.drop_last()).push(n),
            None => names_of(vars.drop_last()),
        }
    }
}

/// All variables of `input`.
pub fn extract_variables(input: &str) -> (r: Vec<Variable>)
    ensures
        variable_views(r@) == variables(input@),
{
    let v = chars_of(input);
    let mut out: Vec<Variable> = Vec::new();
    let doubles = find_tokens(Token::DoubleBrace, &v);
    let mut k: usize = 0;
    while k < doubles.len()
        invariant
            k <= doubles.len(),
            doubles@.len() == tokens(Token::DoubleBrace, v@).len(),
            forall|j: int|
                0 <= j < doubles@.len() ==> (#[trigger] doubles@[j]).0 == tokens(
                    Token::DoubleBrace,
                    v@,
                )[j].0 && doubles@[j].1 == tokens(Token::DoubleBrace, v@)[j].1 && doubles@[j].0
                    < doubles@[j].1 <= v.len(),
            variable_views(out@) == double_brace_variables(v@).take(k as int),
        decreases doubles.len() - k,
    {
        let (a, b) = doubles[k];
        proof {
            lemma_double_brace_width(v@, a as int, k as int);
        }
        let variable = Variable {
            var_type: VariableType::DoubleBrace,
            full_match: string_of_range(&v, a, b),
            name: Some(string_of_range(&v, a + 2, b - 2)),
        };
        let ghost before = variable_views(out@);
        out.push(variable);
        assert(variable_views(out@) =~= before.push(variable@));
        assert(double_brace_variables(v@).take(k + 1) =~= double_brace_variables(v@).take(
            k as int,
        ).push(double_brace_variables(v@)[k as int]));
        k = k + 1;
    }
    assert(double_brace_variables(v@).take(doubles.len() as int) == double_brace_variables(v@));
    let singles = find_tokens(Token::SingleBrace, &v);
    let mut k: usize = 0;
    while k < singles.len()
        invariant
            k <= singles.len(),
            singles@.len() == tokens(Token::SingleBrace, v@).len(),
            forall|j: int|
                0 <= j < singles@.len() ==> (#[trigger] singles@[j]).0 == tokens(
                    Token::SingleBrace,
                    v@,
                )[j].0 && singles@[j].1 == tokens(Token::SingleBrace, v@)[j].1 && singles@[j].0
                    < singles@[j].1 <= v.len(),
            variable_views(out@) == double_brace_variables(v@) + single_brace_variables_of(
                v@,
                k as int,
            ),
        decreases singles.len() - k,
    {
        let (a, b) = singles[k];
        let mut with_open: Vec<char> = Vec::new();
        with_open.push('{');
        let mut with_close: Vec<char> = Vec::new();
        let mut j: usize = a;
        while j < b
            invariant
                a <= j <= b <= v.len(),
                with_open@ == seq!['{'] + v@.subrange(a as int, j as int),
                with_close@ == v@.subrange(a as int, j as int),
            decreases b - j,
        {
            with_open.push(v[j]);
            with_close.push(v[j]);
            assert(v@.subrange(a as int, j + 1) == v@.subrange(a as int, j as int).push(
                v@[j as int],
            ));
            assert(seq!['{'] + v@.subrange(a as int, j + 1) =~= (seq!['{'] + v@.subrange(
                a as int,
                j as int,
            )).push(v@[j as int]));
            j = j + 1;
        }
        with_close.push('}');
        assert(with_close@ =~= v@.subrange(a as int, b as int) + seq!['}']);
        let ghost before = variable_views(out@);
        if !chars_contain(&v, &with_open) && !chars_contain(&v, &with_close) {
            proof {
                lemma_single_brace_width(v@, a as int, k as int);
            }
            let variable = Variable {
                var_type: VariableType::SingleBrace,
                full_match: string_of_range(&v, a, b),
                name: Some(string_of_range(&v, a + 1, b - 1)),
            };
            out.push(variable);
            assert(variable_views(out@) =~= before.push(variable@));
            assert(before.push(variable@) =~= double_brace_variables(v@)
                + single_brace_variables_of(v@, k + 1));
        }
        k = k + 1;
    }
    let printfs = find_tokens(Token::Printf, &v);
    let ghost head = variable_views(out@);
    let mut k: usize = 0;
    while k < printfs.len()
        invariant
            k <= printfs.len(),
            printfs@.len() == tokens(Token::Printf, v@).len(),
            forall|j: int|
                0 <= j < printfs@.len() ==> (#[trigger] printfs@[j]).0 == tokens(
                    Token::Printf,
                    v@,
                )[j].0 && printfs@[j].1 == tokens(Token::Printf, v@)[j].1 && printfs@[j].0
                    < printfs@[j].1 <= v.len(),
            head == double_brace_variables(v@) + single_brace_variables(v@),
            variable_views(out@) == head + printf_variables(v@).take(k as int),
        decreases printfs.len() - k,
    {
        let (a, b) = printfs[k];
        let variable = Variable {
            var_type: VariableType::Printf,
            full_match: string_of_range(&v, a, b),
            name: None,
        };
        let ghost before = variable_views(out@);
        out.push(variable);
        assert(variable_views(out@) =~= before.push(variable@));
        assert(head + printf_variables(v@).take(k + 1) =~= (head + printf_variables(v@).take(
            k as int,
        )).push(printf_variables(v@)[k as int]));
        k = k + 1;
    }
    assert(printf_variables(v@).take(printfs.len() as int) == printf_variables(v@));
    out
}

/// A double-brace token is at least five characters long.
proof fn lemma_double_brace_width(s: Seq<char>, a: int, k: int)
    requires
        0 <= k < tokens(Token::DoubleBrace, s).len(),
        tokens(Token::DoubleBrace, s)[k].0 == a,
    ensures
        a + 5 <= tokens(Token::DoubleBrace, s)[k].1 <= s.len(),
        0 <= a,
{
    lemma_tokens_are_matches(Token::DoubleBrace, s, 0, k);
    lemma_token_end(Token::DoubleBrace, s, a);
}

/// A single-brace token is at least three characters long.
proof fn lemma_single_brace_width(s: Seq<char>, a: int, k: int)
    requires
        0 <= k < tokens(Token::SingleBrace, s).len(),
        tokens(Token::SingleBrace, s)[k].0 == a,
    ensures
        a + 3 <= tokens(Token::SingleBrace, s)[k].1 <= s.len(),
        0 <= a,
{
    lemma_tokens_are_matches(Token::SingleBrace, s, 0, k);
    lemma_token_end(Token::SingleBrace, s, a);
}

/// Every pair that `tokens_from` lists is a token: it ends where
/// `token_end` says, and it lies within the text at or after `i`.
pub proof fn lemma_tokens_are_matches(token: Token, s: Seq<char>, i: int, k: int)
    requires
        0 <= i,
        0 <= k < tokens_from(token, s, i).len(),
    ensures
        i <= tokens_from(token, s, i)[k].0 < tokens_from(token, s, i)[k].1 <= s.len(),
        token_end(token, s, tokens_from(token, s, i)[k].0) == Some(tokens_from(token, s, i)[k].1),
    decreases s.len() - i,
{
    if i < s.len() {
        match token_end(token, s, i) {
            Some(e) => {
                if i < e <= s.len() {
                    if k > 0 {
                        lemma_tokens_are_matches(token, s, e, k - 1);
                        assert(tokens_from(token, s, i)[k] == tokens_from(token, s, e)[k - 1]);
                    }
                } else {
                    lemma_tokens_are_matches(token, s, i + 1, k);
                }
            },
            None => {
                lemma_tokens_are_matches(token, s, i + 1, k);
            },
        }
    }
}

/// Where a token starts at or after position `i`, `tokens_from` lists one.
pub proof fn lemma_tokens_found(token: Token, s: Seq<char>, i: int, j: int)
    requires
        0 <= i <= j < s.len(),
        token_end(token, s, j) is Some,
    ensures
        tokens_from(token, s, i).len() > 0,
    decreases s.len() - i,
{
    lemma_token_end(token, s, i);
    if token_end(token, s, i) is None {
        lemma_tokens_found(token, s, i + 1, j);
    }
}

/// A text holds a token just where a token starts at one of its
/// positions.
pub proof fn lemma_has_token(token: Token, s: Seq<char>)
    ensures
        tokens(token, s).len() > 0 <==> exists|j: int|
            0 <= j < s.len() && token_end(token, s, j) is Some,
{
    if tokens(token, s).len() > 0 {
        lemma_tokens_are_matches(token, s, 0, 0);
        let j = tokens(token, s)[0].0;
        assert(0 <= j < s.len() && token_end(token, s, j) is Some);
    }
    if exists|j: int| 0 <= j < s.len() && token_end(token, s, j) is Some {
        let j = choose|j: int| 0 <= j < s.len() && token_end(token, s, j) is Some;
        lemma_tokens_found(token, s, 0, j);
    }
}

/// Whether `input` holds a variable in any of the three notations,
/// single-brace tokens counting whether they stand alone or not.
pub fn has_variables(input: &str) -> (r: bool)
    ensures
        r == (tokens(Token::DoubleBrace, input@).len() > 0 || tokens(
            Token::SingleBrace,
            input@,
        ).len() > 0 || tokens(Token::Printf, input@).len() > 0),
{
    let v = chars_of(input);
    find_tokens(Token::DoubleBrace, &v).len() > 0 || find_tokens(Token::SingleBrace, &v).len() > 0
        || find_tokens(Token::Printf, &v).len() > 0
}

/// The names of the variables of `input` that have one.
pub fn extract_variable_names(input: &str) -> (r: Vec<String>)
    ensures
        texts(r@) == names_of(variables(input@)),
{
    let vars = extract_variables(input);
    let mut names: Vec<String> = Vec::new();
    let mut k: usize = 0;
    while k < vars.len()
        invariant
            k <= vars.len(),
            texts(names@) == names_of(variable_views(vars@).take(k as int)),
        decreases vars.len() - k,
    {
        let ghost all = variable_views(vars@);
        assert(all.take(k + 1).drop_last() == all.take(k as int));
        assert(all.take(k + 1).last() == vars@[k as int]@);
        let ghost before = texts(names@);
        if let Some(name) = &vars[k].name {
            names.push(name.clone());
            assert(texts(names@) =~= before.push(name@));
        }
        k = k + 1;
    }
    assert(variable_views(vars@).take(vars.len() as int) == variable_views(vars@));
    names
}

// ---------------------------------------------------------------------------
// Plural and context keys
// ---------------------------------------------------------------------------

/// The suffixes that mark a plural form, in the order in which they are
/// tried.
pub open spec fn plural_suffixes() -> Seq<Seq<char>> {
    seq![
        "_zero"@,
        "_one"@,
        "_two"@,
        "_few"@,
        "_many"@,
        "_other"@,
        "_plural"@,
        "_0"@,
        "_1"@,
        "_2"@,
    ]
}

/// The suffixes that mark a context form, in the order in which they are
/// tried.
pub open spec fn context_suffixes() -> Seq<Seq<char>> {
    seq!["_male"@, "_female"@, "_neutral"@]
}

/// The first suffix of `list` that `key` ends with.
pub open spec fn matching_suffix(key: Seq<char>, list: Seq<Seq<char>>) -> Option<Seq<char>>
    decreases list.len(),
{
    if list.len() == 0 {
        None
    } else if ends_with(key, list[0]) {
        Some(list[0])
    } else {
        matching_suffix(key, list.drop_first())
    }
}

/// `key` without the first suffix of `list` that it ends with.
pub open spec fn base_key(key: Seq<char>, list: Seq<Seq<char>>) -> Option<Seq<char>> {
    match matching_suffix(key, list) {
        Some(suffix) => Some(key.take(key.len() - suffix.len())),
        None => None,
    }
}

/// The first suffix of `list` that `key` ends with, without the character
/// it begins with.
pub open spec fn suffix_name(key: Seq<char>, list: Seq<Seq<char>>) -> Option<Seq<char>> {
    match matching_suffix(key, list) {
        Some(suffix) => Some(suffix.skip(1)),
        None => None,
    }
}

fn plural_suffix_list() -> (r: Vec<&'static str>)
    ensures
        r@.len() == plural_suffixes().len(),
        forall|i: int| 0 <= i < r@.len() ==> (#[trigger] r@[i])@ == plural_suffixes()[i],
{
    let mut list: Vec<&'static str> = Vec::new();
    list.push("_zero");
    list.push("_one");
    list.push("_two");
    list.push("_few");
    list.push("_many");
    list.push("_other");
    list.push("_plural");
    list.push("_0");
    list.push("_1");
    list.push("_2");
    list
}

fn context_suffix_list() -> (r: Vec<&'static str>)
    ensures
        r@.len() == context_suffixes().len(),
        forall|i: int| 0 <= i < r@.len() ==> (#[trigger] r@[i])@ == context_suffixes()[i],
{
    let mut list: Vec<&'static str> = Vec::new();
    list.push("_male");
    list.push("_female");
    list.push("_neutral");
    list
}

/// The first suffix of `list` that `key` ends with, as its characters.
fn find_suffix(key: &Vec<char>, list: &Vec<&'static str>) -> (r: Option<Vec<char>>)
    ensures
        match r {
            Some(suffix) => matching_suffix(key@, Seq::new(list@.len(), |i: int| list@[i]@))
                == Some(suffix@) && suffix@.len() <= key@.len(),
            None => matching_suffix(key@, Seq::new(list@.len(), |i: int| list@[i]@)) is None,
        },
{
    let ghost all = Seq::new(list@.len(), |i: int| list@[i]@);
    let mut k: usize = 0;
    assert(all.skip(0) == all);
    while k < list.len()
        invariant
            k <= list.len(),
            all == Seq::new(list@.len(), |i: int| list@[i]@),
            matching_suffix(key@, all) == matching_suffix(key@, all.skip(k as int)),
        decreases list.len() - k,
    {
        let suffix = chars_of(list[k]);
        assert(all.skip(k as int)[0] == suffix@);
        if chars_end_with(key, &suffix) {
            return Some(suffix);
        }
        assert(all.skip(k as int).drop_first() == all.skip(k + 1));
        k = k + 1;
    }
    None
}

/// Whether `key` ends with a plural suffix.
pub fn is_plural_key(key: &str) -> (r: bool)
    ensures
        r == matching_suffix(key@, plural_suffixes()) is Some,
{
    let k = chars_of(key);
    let list = plural_suffix_list();
    assert(Seq::new(list@.len(), |i: int| list@[i]@) =~= plural_suffixes());
    find_suffix(&k, &list).is_some()
}

/// `key` without its plural suffix: `items_one` gives `items`.
pub fn get_plural_base_key(key: &str) -> (r: Option<String>)
    ensures
        text_of(r) == base_key(key@, plural_suffixes()),
{
    let k = chars_of(key);
    let list = plural_suffix_list();
    assert(Seq::new(list@.len(), |i: int| list@[i]@) =~= plural_suffixes());
    match find_suffix(&k, &list) {
        Some(suffix) => {
            let base = string_of_range(&k, 0, k.len() - suffix.len());
            assert(k@.subrange(0, k.len() - suffix.len()) == k@.take(k.len() - suffix.len()));
            Some(base)
        },
        None => None,
    }
}

/// The plural suffix of `key` without its underscore: `items_one` gives
/// `one`.
pub fn get_plural_suffix(key: &str) -> (r: Option<String>)
    ensures
        text_of(r) == suffix_name(key@, plural_suffixes()),
{
    let k = chars_of(key);
    let list = plural_suffix_list();
    assert(Seq::new(list@.len(), |i: int| list@[i]@) =~= plural_suffixes());
    match find_suffix(&k, &list) {
        Some(suffix) => {
            proof {
                lemma_suffixes_nonempty(k@, plural_suffixes());
            }
            let name = string_of_range(&suffix, 1, suffix.len());
            assert(suffix@.subrange(1, suffix.len() as int) == suffix@.skip(1));
            Some(name)
        },
        None => None,
    }
}

/// Whether `key` ends with a context suffix.
pub fn is_context_key(key: &str) -> (r: bool)
    ensures
        r == matching_suffix(key@, context_suffixes()) is Some,
{
    let k = chars_of(key);
    let list = context_suffix_list();
    assert(Seq::new(list@.len(), |i: int| list@[i]@) =~= context_suffixes());
    find_suffix(&k, &list).is_some()
}

/// `key` without its context suffix: `friend_male` gives `friend`.
pub fn get_context_base_key(key: &str) -> (r: Option<String>)
    ensures
        text_of(r) == base_key(key@, context_suffixes()),
{
    let k = chars_of(key);
    let list = context_suffix_list();
    assert(Seq::new(list@.len(), |i: int| list@[i]@) =~= context_suffixes());
    match find_suffix(&k, &list) {
        Some(suffix) => {
            let base = string_of_range(&k, 0, k.len() - suffix.len());
            assert(k@.subrange(0, k.len() - suffix.len()) == k@.take(k.len() - suffix.len()));
            Some(base)
        },
        None => None,
    }
}

/// The view of an optional string.
pub open spec fn text_of(s: Option<String>) -> Option<Seq<char>> {
    match s {
        Some(s) => Some(s@),
        None => None,
    }
}

/// The suffix found is one of the list, so where the list's first plural
/// suffix holds a character, it does too.
proof fn lemma_suffixes_nonempty(key: Seq<char>, list: Seq<Seq<char>>)
    requires
        list == plural_suffixes(),
    ensures
        matching_suffix(key, list) matches Some(suffix) ==> suffix.len() >= 2,
{
    reveal_strlit("_zero");
    reveal_strlit("_one");
    reveal_strlit("_two");
    reveal_strlit("_few");
    reveal_strlit("_many");
    reveal_strlit("_other");
    reveal_strlit("_plural");
    reveal_strlit("_0");
    reveal_strlit("_1");
    reveal_strlit("_2");
    reveal_with_fuel(matching_suffix, 12);
    assert(list.len() == 10);
}

// ---------------------------------------------------------------------------
// Everything at once
// ---------------------------------------------------------------------------

/// What the analysis finds in one key and its text.
#[derive(Debug, Clone)]
pub struct StringAnalysis {
    pub has_escape_sequences: bool,
    pub escape_sequences: Vec<String>,
    pub has_variables: bool,
    pub variables: Vec<Variable>,
    pub has_html_tags: bool,
    pub html_tags: Vec<String>,
    pub has_nesting: bool,
    pub nesting_refs: Vec<String>,
    pub is_plural_key: bool,
    pub plural_base_key: Option<String>,
    pub is_context_key: bool,
    pub context_base_key: Option<String>,
}

impl Default for StringAnalysis {
    /// The analysis that found nothing.
    fn default() -> (r: Self)
        ensures
            r@ == (AnalysisView {
                has_escape_sequences: false,
                escape_sequences: Seq::<Seq<char>>::empty(),
                has_variables: false,
                variables: Seq::<VariableView>::empty(),
                has_html_tags: false,
                html_tags: Seq::<Seq<char>>::empty(),
                has_nesting: false,
                nesting_refs: Seq::<Seq<char>>::empty(),
                is_plural_key: false,
                plural_base_key: None,
                is_context_key: false,
                context_base_key: None,
            }),
    {
        let r = StringAnalysis {
            has_escape_sequences: false,
            escape_sequences: Vec::new(),
            has_variables: false,
            variables: Vec::new(),
            has_html_tags: false,
            html_tags: Vec::new(),
            has_nesting: false,
            nesting_refs: Vec::new(),
            is_plural_key: false,
            plural_base_key: None,
            is_context_key: false,
            context_base_key: None,
        };
        assert(texts(r.escape_sequences@) =~= Seq::<Seq<char>>::empty());
        assert(variable_views(r.variables@) =~= Seq::<VariableView>::empty());
        r
    }
}

/// A `StringAnalysis` with its strings as character sequences.
pub struct AnalysisView {
    pub has_escape_sequences: bool,
    pub escape_sequences: Seq<Seq<char>>,
    pub has_variables: bool,
    pub variables: Seq<VariableView>,
    pub has_html_tags: bool,
    pub html_tags: Seq<Seq<char>>,
    pub has_nesting: bool,
    pub nesting_refs: Seq<Seq<char>>,
    pub is_plural_key: bool,
    pub plural_base_key: Option<Seq<char>>,
    pub is_context_key: bool,
    pub context_base_key: Option<Seq<char>>,
}

impl View for StringAnalysis {
    type V = AnalysisView;

    open spec fn view(&self) -> AnalysisView {
        AnalysisView {
            has_escape_sequences: self.has_escape_sequences,
            escape_sequences: texts(self.escape_sequences@),
            has_variables: self.has_variables,
            variables: variable_views(self.variables@),
            has_html_tags: self.has_html_tags,
            html_tags: texts(self.html_tags@),
            has_nesting: self.has_nesting,
            nesting_refs: texts(self.nesting_refs@),
            is_plural_key: self.is_plural_key,
            plural_base_key: text_of(self.plural_base_key),
            is_context_key: self.is_context_key,
            context_base_key: text_of(self.context_base_key),
        }
    }
}

/// What the analysis of `key` and `value` finds: the key is looked at for
/// its suffix, the value for tokens.
pub open spec fn analysis(key: Seq<char>, value: Seq<char>) -> AnalysisView {
    AnalysisView {
        has_escape_sequences: tokens(Token::Escape, value).len() > 0,
        escape_sequences: token_texts(Token::Escape, value),
        has_variables: tokens(Token::DoubleBrace, value).len() > 0 || tokens(
            Token::SingleBrace,
            value,
        ).len() > 0 || tokens(Token::Printf, value).len() > 0,
        variables: variables(value),
        has_html_tags: tokens(Token::HtmlTag, value).len() > 0,
        html_tags: token_texts(Token::HtmlTag, value),
        has_nesting: tokens(Token::Nesting, value).len() > 0,
        nesting_refs: token_texts(Token::Nesting, value),
        is_plural_key: matching_suffix(key, plural_suffixes()) is Some,
        plural_base_key: base_key(key, plural_suffixes()),
        is_context_key: matching_suffix(key, context_suffixes()) is Some,
        context_base_key: base_key(key, context_suffixes()),
    }
}

/// Analyses one key and its text.
pub fn analyze_string(key: &str, value: &str) -> (r: StringAnalysis)
    ensures
        r@ == analysis(key@, value@),
{
    let r = StringAnalysis {
        has_escape_sequences: has_escape_sequences(value),
        escape_sequences: extract_escape_sequences(value),
        has_variables: has_variables(value),
        variables: extract_variables(value),
        has_html_tags: has_html_tags(value),
        html_tags: extract_html_tags(value),
        has_nesting: has_nesting_references(value),
        nesting_refs: extract_nesting_references(value),
        is_plural_key: is_plural_key(key),
        plural_base_key: get_plural_base_key(key),
        is_context_key: is_context_key(key),
        context_base_key: get_context_base_key(key),
    };
    r
}

// ---------------------------------------------------------------------------
// Rewriting the key separator of CSV text
// ---------------------------------------------------------------------------

/// Where in CSV text a character stands: in the header line, in the key
/// field of a later line, or in another field of a later line.
#[derive(Debug, Clone, Copy, PartialEq, Eq, Structural)]
pub enum Place {
    Header,
    Key,
    Value,
}

/// Whether the text behind `c` stands between quotes: every `"` opens or
/// closes a quoted stretch.
pub open spec fn quoted_after(quoted: bool, c: char) -> bool {
    if c == '"' {
        !quoted
    } else {
        quoted
    }
}

/// Where the character behind `c` stands: outside quotes a line feed
/// begins the key field of the next line, and a comma ends the key field.
pub open spec fn place_after(place: Place, quoted: bool, c: char) -> Place {
    if quoted || c == '"' {
        place
    } else if c == '\n' {
        Place::Key
    } else if c == ',' && place == Place::Key {
        Place::Value
    } else {
        place
    }
}

/// What is written for `c`: the target separator for each of `.`, `/`,
/// `-` in a key field, else `c` itself.
pub open spec fn written_for(place: Place, c: char, target: Seq<char>) -> Seq<char> {
    if place == Place::Key && is_separator_like(c) {
        target
    } else {
        seq![c]
    }
}

/// The text from position `i` on with the separators of its keys
/// rewritten.
pub open spec fn rewritten_from(
    s: Seq<char>,
    target: Seq<char>,
    i: int,
    place: Place,
    quoted: bool,
) -> Seq<char>
    decreases s.len() - i,
{
    if i < 0 || i >= s.len() {
        Seq::<char>::empty()
    } else {
        written_for(place, s[i], target) + rewritten_from(
            s,
            target,
            i + 1,
            place_after(place, quoted, s[i]),
            quoted_after(quoted, s[i]),
        )
    }
}

/// CSV text with each `.`, `/` and `-` in the first field of every line
/// after the header replaced by `target`.
pub open spec fn separator_rewritten(s: Seq<char>, target: Seq<char>) -> Seq<char> {
    rewritten_from(s, target, 0, Place::Header, false)
}

/// Replaces `.`, `/` and `-` in the keys of CSV text by `target_sep`. The
/// header line and every other field stay as they are.
pub fn rewrite_key_separator_in_csv(csv_text: &str, target_sep: &str) -> (r: String)
    ensures
        r@ == separator_rewritten(csv_text@, target_sep@),
{
    let v = chars_of(csv_text);
    let target = chars_of(target_sep);
    let mut out: Vec<char> = Vec::new();
    let mut place = Place::Header;
    let mut quoted = false;
    let mut i: usize = 0;
    while i < v.len()
        invariant
            i <= v.len(),
            target@ == target_sep@,
            separator_rewritten(v@, target@) == out@ + rewritten_from(
                v@,
                target@,
                i as int,
                place,
                quoted,
            ),
        decreases v.len() - i,
    {
        let c = v[i];
        let ghost before = out@;
        let ghost rest = rewritten_from(
            v@,
            target@,
            i + 1,
            place_after(place, quoted, c),
            quoted_after(quoted, c),
        );
        if place == Place::Key && (c == '.' || c == '/' || c == '-') {
            let mut k: usize = 0;
            while k < target.len()
                invariant
                    k <= target.len(),
                    out@ == before + target@.take(k as int),
                decreases target.len() - k,
            {
                out.push(target[k]);
                assert(target@.take(k + 1) == target@.take(k as int).push(target@[k as int]));
                k = k + 1;
            }
            assert(target@.take(target.len() as int) == target@);
        } else {
            out.push(c);
        }
        assert(out@ == before + written_for(place, c, target@));
        assert(before + (written_for(place, c, target@) + rest) =~= out@ + rest);
        if c == '"' {
            quoted = !quoted;
        } else if !quoted {
            if c == '\n' {
                place = Place::Key;
            } else if c == ',' && place == Place::Key {
                place = Place::Value;
            }
        }
        i = i + 1;
    }
    assert(out@ + Seq::<char>::empty() =~= out@);
    string_of(&out)
}

} // verus!
