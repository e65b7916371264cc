use vstd::prelude::*;

use crate::token::Token;
use crate::token::TokenModel;
use crate::token::TokenType;
use crate::token::tokens_view;

verus! {

/// A lexical error: the unrecognized character and its character offset in
/// the source.
#[derive(Debug, Clone, Copy, PartialEq, Eq, Structural)]
pub struct LexError {
    pub character: char,
    pub offset: usize,
}

// ---------------------------------------------------------------------------
// Character classes
// ---------------------------------------------------------------------------

/// The Unicode `White_Space` code points: what the tokenizer skips between
/// tokens.
pub open spec fn is_space_char(c: char) -> bool {
    c == ' ' || c == '\t' || c == '\n' || c == '\r' || c == '\u{0B}' || c == '\u{0C}'
        || c == '\u{85}' || c == '\u{A0}' || c == '\u{1680}'
        || (0x2000 <= c as u32 && c as u32 <= 0x200A) || c == '\u{2028}' || c == '\u{2029}'
        || c == '\u{202F}' || c == '\u{205F}' || c == '\u{3000}'
}

/// A character that may begin an identifier.
pub open spec fn is_ident_start_char(c: char) -> bool {
    (97 <= c as u32 && c as u32 <= 122) || (65 <= c as u32 && c as u32 <= 90) || c == '_'
}

/// A decimal digit.
pub open spec fn is_digit_char(c: char) -> bool {
    48 <= c as u32 && c as u32 <= 57
}

/// A character that may continue an identifier.
pub open spec fn is_ident_char(c: char) -> bool {
    is_ident_start_char(c) || is_digit_char(c)
}

// ---------------------------------------------------------------------------
// Keyword rules
// ---------------------------------------------------------------------------

/// The spelling `let` occurs at position `i` (not word-bounded: whatever
/// follows it does not matter).
pub open spec fn kw_let_at(s: Seq<char>, i: int) -> bool {
    i + 3 <= s.len() && s[i] == 'l' && s[i + 1] == 'e' && s[i + 2] == 't'
}

/// The spelling `print` occurs at position `i`.
pub open spec fn kw_print_at(s: Seq<char>, i: int) -> bool {
    i + 5 <= s.len() && s[i] == 'p' && s[i + 1] == 'r' && s[i + 2] == 'i' && s[i + 3] == 'n'
        && s[i + 4] == 't'
}

/// The spelling `method` occurs at position `i`.
pub open spec fn kw_method_at(s: Seq<char>, i: int) -> bool {
    i + 6 <= s.len() && s[i] == 'm' && s[i + 1] == 'e' && s[i + 2] == 't' && s[i + 3] == 'h'
        && s[i + 4] == 'o' && s[i + 5] == 'd'
}

/// The spelling `fun` occurs at position `i`.
pub open spec fn kw_fun_at(s: Seq<char>, i: int) -> bool {
    i + 3 <= s.len() && s[i] == 'f' && s[i + 1] == 'u' && s[i + 2] == 'n'
}

/// The spelling `back` occurs at position `i`.
pub open spec fn kw_back_at(s: Seq<char>, i: int) -> bool {
    i + 4 <= s.len() && s[i] == 'b' && s[i + 1] == 'a' && s[i + 2] == 'c' && s[i + 3] == 'k'
}

// ---------------------------------------------------------------------------
// Maximal runs
// ---------------------------------------------------------------------------

/// The end of the run of identifier characters that starts at `i`: the least
/// position at or after `i` that is the end of the text or holds a
/// non-identifier character.
pub open spec fn ident_run_end(s: Seq<char>, i: int) -> int
    decreases s.len() - i,
    when 0 <= i <= s.len()
{
    if i < s.len() && is_ident_char(s[i]) {
        ident_run_end(s, i + 1)
    } else {
        i
    }
}

/// The end of the run of digits that starts at `i`.
pub open spec fn digit_run_end(s: Seq<char>, i: int) -> int
    decreases s.len() - i,
    when 0 <= i <= s.len()
{
    if i < s.len() && is_digit_char(s[i]) {
        digit_run_end(s, i + 1)
    } else {
        i
    }
}

/// The position of the first `"` at or after `i`, if any.
pub open spec fn close_quote(s: Seq<char>, i: int) -> Option<int>
    decreases s.len() - i,
    when 0 <= i <= s.len()
{
    if i >= s.len() {
        None
    } else if s[i] == '"' {
        Some(i)
    } else {
        close_quote(s, i + 1)
    }
}

pub proof fn lemma_ident_run_end_bounds(s: Seq<char>, i: int)
    requires
        0 <= i <= s.len(),
    ensures
        i <= ident_run_end(s, i) <= s.len(),
    decreases s.len() - i,
{
    if i < s.len() && is_ident_char(s[i]) {
        lemma_ident_run_end_bounds(s, i + 1);
    }
}

pub proof fn lemma_digit_run_end_bounds(s: Seq<char>, i: int)
    requires
        0 <= i <= s.len(),
    ensures
        i <= digit_run_end(s, i) <= s.len(),
    decreases s.len() - i,
{
    if i < s.len() && is_digit_char(s[i]) {
        lemma_digit_run_end_bounds(s, i + 1);
    }
}

pub proof fn lemma_close_quote_bounds(s: Seq<char>, i: int)
    requires
        0 <= i <= s.len(),
    ensures
        close_quote(s, i) matches Some(j) ==> i <= j < s.len() && s[j] == '"',
    decreases s.len() - i,
{
    if i < s.len() && s[i] != '"' {
        lemma_close_quote_bounds(s, i + 1);
    }
}

// ---------------------------------------------------------------------------
// The rule table
// ---------------------------------------------------------------------------

/// The rule that fires at a non-whitespace position `i`: the kind and lexeme
/// length of the first rule, in the fixed priority order, whose pattern
/// matches there. Keywords come before identifiers and are not word-bounded,
/// so a keyword spelling wins even when identifier characters follow it.
/// `None` means only the catch-all rule matches: a lexical error.
pub open spec fn token_at(s: Seq<char>, i: int) -> Option<(TokenType, int)> {
    if kw_let_at(s, i) {
        Some((TokenType::Let, 3))
    } else if kw_print_at(s, i) {
        Some((TokenType::Print, 5))
    } else if kw_method_at(s, i) {
        Some((TokenType::Method, 6))
    } else if kw_fun_at(s, i) {
        Some((TokenType::Fun, 3))
    } else if kw_back_at(s, i) {
        Some((TokenType::Back, 4))
    } else if is_ident_start_char(s[i]) {
        Some((TokenType::Identifier, ident_run_end(s, i + 1) - i))
    } else if is_digit_char(s[i]) {
        Some((TokenType::Number, digit_run_end(s, i + 1) - i))
    } else if s[i] == '"' {
        match close_quote(s, i + 1) {
            Some(j) => Some((TokenType::String, j + 1 - i)),
            None => None,
        }
    } else if s[i] == '+' {
        Some((TokenType::Plus, 1))
    } else if s[i] == '-' {
        Some((TokenType::Minus, 1))
    } else if s[i] == '=' {
        Some((TokenType::Assign, 1))
    } else if s[i] == ';' {
        Some((TokenType::Semicolon, 1))
    } else if s[i] == '(' {
        Some((TokenType::LParen, 1))
    } else if s[i] == ')' {
        Some((TokenType::RParen, 1))
    } else if s[i] == '{' {
        Some((TokenType::LBrace, 1))
    } else if s[i] == '}' {
        Some((TokenType::RBrace, 1))
    } else if s[i] == '*' {
        Some((TokenType::Multiply, 1))
    } else if s[i] == '/' {
        Some((TokenType::Divide, 1))
    } else {
        None
    }
}

/// A fired rule consumes at least one character and never reads past the end
/// of the text.
pub proof fn lemma_token_at_len(s: Seq<char>, i: int)
    requires
        0 <= i < s.len(),
    ensures
        token_at(s, i) matches Some(kl) ==> 1 <= kl.1 && i + kl.1 <= s.len(),
{
    lemma_ident_run_end_bounds(s, i + 1);
    lemma_digit_run_end_bounds(s, i + 1);
    lemma_close_quote_bounds(s, i + 1);
}

// ---------------------------------------------------------------------------
// The tokenizer as a mathematical function
// ---------------------------------------------------------------------------

/// The whole tokenizer, from position `i` with current line number `line`:
/// skip whitespace one character at a time (counting `\n`), and at each
/// non-whitespace position emit the token of the first matching rule, or
/// stop with the offending character and its offset.
pub open spec fn spec_lex(s: Seq<char>, i: int, line: int) -> Result<Seq<TokenModel>, LexError>
    decreases s.len() - i,
    when 0 <= i <= s.len()
    via spec_lex_decreases
{
    if i >= s.len() {
        Ok(Seq::empty())
    } else if is_space_char(s[i]) {
        spec_lex(s, i + 1, if s[i] == '\n' { line + 1 } else { line })
    } else {
        match token_at(s, i) {
            Some(kl) => match spec_lex(s, i + kl.1, line) {
                Ok(rest) => Ok(
                    seq![
                        TokenModel {
                            kind: kl.0,
                            lexeme: s.subrange(i, i + kl.1),
                            line: line,
                            offset: i,
                        },
                    ] + rest,
                ),
                Err(e) => Err(e),
            },
            None => Err(LexError { character: s[i], offset: i as usize }),
        }
    }
}

#[via_fn]
proof fn spec_lex_decreases(s: Seq<char>, i: int, line: int) {
    if 0 <= i < s.len() && !is_space_char(s[i]) {
        lemma_token_at_len(s, i);
    }
}

/// Prepend already-emitted tokens to the outcome of tokenizing the rest.
pub open spec fn lex_append(
    acc: Seq<TokenModel>,
    r: Result<Seq<TokenModel>, LexError>,
) -> Result<Seq<TokenModel>, LexError> {
    match r {
        Ok(ts) => Ok(acc + ts),
        Err(e) => Err(e),
    }
}

// ---------------------------------------------------------------------------
// Executable character classes and rules
// ---------------------------------------------------------------------------

fn is_space(c: char) -> (r: bool)
    ensures
        r == is_space_char(c),
{
    let u = c as u32;
    c == ' ' || c == '\t' || c == '\n' || c == '\r' || c == '\u{0B}' || c == '\u{0C}'
        || c == '\u{85}' || c == '\u{A0}' || c == '\u{1680}' || (0x2000 <= u && u <= 0x200A)
        || c == '\u{2028}' || c == '\u{2029}' || c == '\u{202F}' || c == '\u{205F}'
        || c == '\u{3000}'
}

fn is_ident_start(c: char) -> (r: bool)
    ensures
        r == is_ident_start_char(c),
{
    let u = c as u32;
    (97 <= u && u <= 122) || (65 <= u && u <= 90) || c == '_'
}

fn is_digit(c: char) -> (r: bool)
    ensures
        r == is_digit_char(c),
{
    let u = c as u32;
    48 <= u && u <= 57
}

fn is_ident(c: char) -> (r: bool)
    ensures
        r == is_ident_char(c),
{
    is_ident_start(c) || is_digit(c)
}

fn kw_let_here(code: &str, n: usize, pos: usize) -> (r: bool)
    requires
        n == code@.len(),
        pos < n,
    ensures
        r == kw_let_at(code@, pos as int),
{
    n - pos >= 3 && code.get_char(pos) == 'l' && code.get_char(pos + 1) == 'e' && code.get_char(
        pos + 2,
    ) == 't'
}

fn kw_print_here(code: &str, n: usize, pos: usize) -> (r: bool)
    requires
        n == code@.len(),
        pos < n,
    ensures
        r == kw_print_at(code@, pos as int),
{
    n - pos >= 5 && code.get_char(pos) == 'p' && code.get_char(pos + 1) == 'r' && code.get_char(
        pos + 2,
    ) == 'i' && code.get_char(pos + 3) == 'n' && code.get_char(pos + 4) == 't'
}

fn kw_method_here(code: &str, n: usize, pos: usize) -> (r: bool)
    requires
        n == code@.len(),
        pos < n,
    ensures
        r == kw_method_at(code@, pos as int),
{
    n - pos >= 6 && code.get_char(pos) == 'm' && code.get_char(pos + 1) == 'e' && code.get_char(
        pos + 2,
    ) == 't' && code.get_char(pos + 3) == 'h' && code.get_char(pos + 4) == 'o' && code.get_char(
        pos + 5,
    ) == 'd'
}

fn kw_fun_here(code: &str, n: usize, pos: usize) -> (r: bool)
    requires
        n == code@.len(),
        pos < n,
    ensures
        r == kw_fun_at(code@, pos as int),
{
    n - pos >= 3 && code.get_char(pos) == 'f' && code.get_char(pos + 1) == 'u' && code.get_char(
        pos + 2,
    ) == 'n'
}

fn kw_back_here(code: &str, n: usize, pos: usize) -> (r: bool)
    requires
        n == code@.len(),
        pos < n,
    ensures
        r == kw_back_at(code@, pos as int),
{
    n - pos >= 4 && code.get_char(pos) == 'b' && code.get_char(pos + 1) == 'a' && code.get_char(
        pos + 2,
    ) == 'c' && code.get_char(pos + 3) == 'k'
}

fn scan_ident_end(code: &str, n: usize, pos: usize) -> (e: usize)
    requires
        n == code@.len(),
        pos <= n,
    ensures
        e as int == ident_run_end(code@, pos as int),
        pos <= e <= n,
    decreases n - pos,
{
    if pos < n && is_ident(code.get_char(pos)) {
        scan_ident_end(code, n, pos + 1)
    } else {
        pos
    }
}

fn scan_digit_end(code: &str, n: usize, pos: usize) -> (e: usize)
    requires
        n == code@.len(),
        pos <= n,
    ensures
        e as int == digit_run_end(code@, pos as int),
        pos <= e <= n,
    decreases n - pos,
{
    if pos < n && is_digit(code.get_char(pos)) {
        scan_digit_end(code, n, pos + 1)
    } else {
        pos
    }
}

fn scan_close_quote(code: &str, n: usize, pos: usize) -> (r: Option<usize>)
    requires
        n == code@.len(),
        pos <= n,
    ensures
        r matches Some(j) ==> close_quote(code@, pos as int) == Some(j as int) && pos <= j < n,
        r is None ==> close_quote(code@, pos as int) is None,
    decreases n - pos,
{
    if pos >= n {
        None
    } else if code.get_char(pos) == '"' {
        Some(pos)
    } else {
        scan_close_quote(code, n, pos + 1)
    }
}

/// Try each lexical rule at `pos` in priority order and commit to the first
/// match, returning its kind and lexeme length; `None` is a lexical error.
fn scan_token(code: &str, n: usize, pos: usize) -> (r: Option<(TokenType, usize)>)
    requires
        n == code@.len(),
        pos < n,
    ensures
        r matches Some(kl) ==> token_at(code@, pos as int) == Some((kl.0, kl.1 as int)) && 1
            <= kl.1 && pos + kl.1 <= n,
        r is None ==> token_at(code@, pos as int) is None,
{
    if kw_let_here(code, n, pos) {
        Some((TokenType::Let, 3))
    } else if kw_print_here(code, n, pos) {
        Some((TokenType::Print, 5))
    } else if kw_method_here(code, n, pos) {
        Some((TokenType::Method, 6))
    } else if kw_fun_here(code, n, pos) {
        Some((TokenType::Fun, 3))
    } else if kw_back_here(code, n, pos) {
        Some((TokenType::Back, 4))
    } else {
        let c = code.get_char(pos);
        if is_ident_start(c) {
            let e = scan_ident_end(code, n, pos + 1);
            Some((TokenType::Identifier, e - pos))
        } else if is_digit(c) {
            let e = scan_digit_end(code, n, pos + 1);
            Some((TokenType::Number, e - pos))
        } else if c == '"' {
            match scan_close_quote(code, n, pos + 1) {
                Some(j) => Some((TokenType::String, j + 1 - pos)),
                None => None,
            }
        } else if c == '+' {
            Some((TokenType::Plus, 1))
        } else if c == '-' {
            Some((TokenType::Minus, 1))
        } else if c == '=' {
            Some((TokenType::Assign, 1))
        } else if c == ';' {
            Some((TokenType::Semicolon, 1))
        } else if c == '(' {
            Some((TokenType::LParen, 1))
        } else if c == ')' {
            Some((TokenType::RParen, 1))
        } else if c == '{' {
            Some((TokenType::LBrace, 1))
        } else if c == '}' {
            Some((TokenType::RBrace, 1))
        } else if c == '*' {
            Some((TokenType::Multiply, 1))
        } else if c == '/' {
            Some((TokenType::Divide, 1))
        } else {
            None
        }
    }
}

// ---------------------------------------------------------------------------
// The tokenizer
// ---------------------------------------------------------------------------

/// Turn source text into the ordered sequence of its tokens, or report the
/// first unrecognized character.
///
/// The result is exactly what the rule table says: `spec_lex` walks the text
/// from the start on line 1, skips whitespace, and commits at each position
/// to the first rule that matches there.
pub fn lexer(code: &str) -> (r: Result<Vec<Token>, LexError>)
    requires
        code@.len() + 1 <= u32::MAX,
    ensures
        r matches Ok(toks) ==> spec_lex(code@, 0, 1) == Ok::<_, LexError>(tokens_view(toks@)),
        r matches Err(e) ==> spec_lex(code@, 0, 1) == Err::<Seq<TokenModel>, _>(e),
{
    let n = code.unicode_len();
    let mut tokens: Vec<Token> = Vec::new();
    let mut pos: usize = 0;
    let mut line: u32 = 1;

    while pos < n
        invariant
            n == code@.len(),
            n + 1 <= u32::MAX,
            pos <= n,
            line as int <= pos as int + 1,
            spec_lex(code@, 0, 1) == lex_append(
                tokens_view(tokens@),
                spec_lex(code@, pos as int, line as int),
            ),
        decreases n - pos,
    {
        let c = code.get_char(pos);
        if is_space(c) {
            if c == '\n' {
                line = line + 1;
            }
            pos = pos + 1;
        } else {
            match scan_token(code, n, pos) {
                Some((kind, len)) => {
                    let value = code.substring_char(pos, pos + len).to_owned();
                    let tok = Token { type_: kind, value, line, position: pos };
                    proof {
                        let s = code@;
                        let i = pos as int;
                        let tm = TokenModel {
                            kind: kind,
                            lexeme: s.subrange(i, i + len as int),
                            line: line as int,
                            offset: i,
                        };
                        assert(tok@ == tm);
                        let rest = spec_lex(s, i + len as int, line as int);
                        match rest {
                            Ok(ts) => {
                                assert(tokens_view(tokens@.push(tok)) + ts =~= tokens_view(
                                    tokens@,
                                ) + (seq![tm] + ts));
                            },
                            Err(_) => {},
                        }
                    }
                    tokens.push(tok);
                    pos = pos + len;
                },
                None => {
                    return Err(LexError { character: c, offset: pos });
                },
            }
        }
    }
    proof {
        assert(tokens_view(tokens@) + Seq::<TokenModel>::empty() =~= tokens_view(tokens@));
    }
    Ok(tokens)
}

// ---------------------------------------------------------------------------
// Laws of the tokenizer
// ---------------------------------------------------------------------------

/// How many newline characters stand before position `i`.
pub open spec fn newlines_before(s: Seq<char>, i: int) -> int
    decreases i,
{
    if i <= 0 {
        0
    } else {
        newlines_before(s, i - 1) + (if s[i - 1] == '\n' {
            1int
        } else {
            0int
        })
    }
}

/// A stretch without newlines adds nothing to the count.
pub proof fn lemma_newlines_skip(s: Seq<char>, i: int, j: int)
    requires
        0 <= i <= j,
        forall|m: int| i <= m < j ==> s[m] != '\n',
    ensures
        newlines_before(s, j) == newlines_before(s, i),
    decreases j - i,
{
    if i < j {
        lemma_newlines_skip(s, i, j - 1);
    }
}

/// Some character of `w` is a newline.
pub open spec fn has_newline(w: Seq<char>) -> bool {
    exists|j: int| 0 <= j < w.len() && w[j] == '\n'
}

/// No token among the first `k` carries a newline inside its lexeme.
pub open spec fn clean_prefix(ts: Seq<TokenModel>, k: int) -> bool {
    forall|m: int| 0 <= m < k ==> !has_newline(#[trigger] ts[m].lexeme)
}

/// Whitespace and line tracking: a token's recorded line number is one more
/// than the number of newline characters before its offset. This holds of
/// every token that no newline-spanning string literal precedes (only a
/// string lexeme can contain a newline, and the line counter does not see
/// newlines inside a lexeme: on the tokens after one, the count is off by
/// exactly those hidden newlines).
pub proof fn lemma_line_numbers(s: Seq<char>, i: int, line: int)
    requires
        0 <= i <= s.len(),
        line == 1 + newlines_before(s, i),
    ensures
        spec_lex(s, i, line) matches Ok(ts) ==> forall|k: int|
            0 <= k < ts.len() && #[trigger] clean_prefix(ts, k) ==> ts[k].line == 1
                + newlines_before(s, ts[k].offset),
    decreases s.len() - i,
{
    if i >= s.len() {
    } else if is_space_char(s[i]) {
        assert(newlines_before(s, i + 1) == newlines_before(s, i) + (if s[i] == '\n' {
            1int
        } else {
            0int
        }));
        let line2 = if s[i] == '\n' {
            line + 1
        } else {
            line
        };
        lemma_line_numbers(s, i + 1, line2);
    } else {
        lemma_token_at_len(s, i);
        match token_at(s, i) {
            Some(kl) => {
                let tm = TokenModel {
                    kind: kl.0,
                    lexeme: s.subrange(i, i + kl.1),
                    line: line,
                    offset: i,
                };
                match spec_lex(s, i + kl.1, line) {
                    Ok(rest) => {
                        if !has_newline(tm.lexeme) {
                            assert forall|m: int| i <= m < i + kl.1 implies s[m] != '\n' by {
                                assert(tm.lexeme[m - i] == s[m]);
                            }
                            lemma_newlines_skip(s, i, i + kl.1);
                            lemma_line_numbers(s, i + kl.1, line);
                        }
                        let ts = seq![tm] + rest;
                        assert(spec_lex(s, i, line) == Ok::<Seq<TokenModel>, LexError>(ts));
                        assert forall|k: int|
                            0 <= k < ts.len() && #[trigger] clean_prefix(ts, k) implies ts[k].line
                            == 1 + newlines_before(s, ts[k].offset) by {
                            if k == 0 {
                                assert(ts[0] == tm);
                            } else {
                                assert(ts[0] == tm);
                                assert(!has_newline(tm.lexeme));
                                assert(ts[k] == rest[k - 1]);
                                assert(clean_prefix(rest, k - 1)) by {
                                    assert forall|m2: int| 0 <= m2 < k - 1 implies !has_newline(
                                        #[trigger] rest[m2].lexeme,
                                    ) by {
                                        assert(rest[m2] == ts[m2 + 1]);
                                        assert(!has_newline(ts[m2 + 1].lexeme));
                                    }
                                }
                            }
                        }
                    },
                    Err(_) => {},
                }
            },
            None => {},
        }
    }
}

/// The five keyword rules, by kind and spelling length.
pub open spec fn keyword_rule_at(s: Seq<char>, i: int, kind: TokenType, klen: int) -> bool {
    (kind == TokenType::Let && klen == 3 && kw_let_at(s, i)) || (kind == TokenType::Print && klen
        == 5 && kw_print_at(s, i)) || (kind == TokenType::Method && klen == 6 && kw_method_at(
        s,
        i,
    )) || (kind == TokenType::Fun && klen == 3 && kw_fun_at(s, i)) || (kind == TokenType::Back
        && klen == 4 && kw_back_at(s, i))
}

/// The tokenizer tie-break: keyword rules come before the identifier rule and
/// are not word-bounded, so a keyword spelling followed directly by more
/// identifier characters is taken as the keyword token, never as one longer
/// identifier. When what follows begins like an identifier and spells no
/// keyword in turn, the next token is an identifier covering the whole
/// remaining run.
pub proof fn lemma_keyword_split(s: Seq<char>, i: int, line: int, kind: TokenType, klen: int)
    requires
        0 <= i,
        keyword_rule_at(s, i, kind, klen),
        i + klen < s.len(),
        is_ident_start_char(s[i + klen]),
        !kw_let_at(s, i + klen),
        !kw_print_at(s, i + klen),
        !kw_method_at(s, i + klen),
        !kw_fun_at(s, i + klen),
        !kw_back_at(s, i + klen),
    ensures
        token_at(s, i) == Some((kind, klen)),
        spec_lex(s, i, line) matches Ok(ts) ==> ts.len() >= 2 && ts[0] == (TokenModel {
            kind,
            lexeme: s.subrange(i, i + klen),
            line: line,
            offset: i,
        }) && ts[1] == (TokenModel {
            kind: TokenType::Identifier,
            lexeme: s.subrange(i + klen, ident_run_end(s, i + klen + 1)),
            line: line,
            offset: i + klen,
        }),
{
    lemma_ident_run_end_bounds(s, i + klen + 1);
    let j = i + klen;
    assert(token_at(s, i) == Some((kind, klen)));
    assert(token_at(s, j) == Some(
        (TokenType::Identifier, ident_run_end(s, j + 1) - j),
    ));
    match spec_lex(s, j, line) {
        Ok(rest) => {
            match spec_lex(s, j + (ident_run_end(s, j + 1) - j), line) {
                Ok(_) => {},
                Err(_) => {},
            }
        },
        Err(_) => {},
    }
}

} // verus!
