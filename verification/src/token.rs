use vstd::prelude::*;

verus! {

/// The closed set of lexical token kinds the language knows.
///
/// Keyword kinds come first; the order below is also the priority order in
/// which the tokenizer tries its rules at each position (see `crate::lexer`).
/// `Mismatch` is the internal sentinel for an unrecognized character: it is
/// never stored in a token that the tokenizer returns, only reported as a
/// lexical error.
#[derive(Debug, Clone, Copy, PartialEq, Eq, Structural)]
pub enum TokenType {
    Let,
    Print,
    Method,
    Fun,
    Back,
    Identifier,
    Number,
    String,
    Plus,
    Minus,
    Assign,
    Semicolon,
    LParen,
    RParen,
    LBrace,
    RBrace,
    Multiply,
    Divide,
    Mismatch,
}

/// A classified lexeme with its position metadata.
///
/// `value` is the exact substring of the source that was matched, `line` is
/// the 1-based line on which it starts, and `position` is its character
/// offset from the start of the source.
#[derive(Debug, Clone)]
pub struct Token {
    pub type_: TokenType,
    pub value: String,
    pub line: u32,
    pub position: usize,
}

/// The mathematical model of a token: the same data over `Seq<char>` and `int`.
pub ghost struct TokenModel {
    pub kind: TokenType,
    pub lexeme: Seq<char>,
    pub line: int,
    pub offset: int,
}

impl View for Token {
    type V = TokenModel;

    open spec fn view(&self) -> TokenModel {
        TokenModel {
            kind: self.type_,
            lexeme: self.value@,
            line: self.line as int,
            offset: self.position as int,
        }
    }
}

/// The models of a sequence of tokens, in order.
pub open spec fn tokens_view(s: Seq<Token>) -> Seq<TokenModel> {
    s.map_values(|t: Token| t@)
}

/// Character-for-character string equality.
pub fn str_eq(a: &str, b: &str) -> (r: bool)
    ensures
        r == (a@ == b@),
{
    let n = a.unicode_len();
    let m = b.unicode_len();
    if n != m {
        return false;
    }
    let mut i: usize = 0;
    while i < n
        invariant
            n == a@.len(),
            n == b@.len(),
            i <= n,
            forall|j: int| 0 <= j < i ==> a@[j] == b@[j],
        decreases n - i,
    {
        if a.get_char(i) != b.get_char(i) {
            return false;
        }
        i = i + 1;
    }
    proof {
        assert(a@ =~= b@);
    }
    true
}

} // verus!
