//! Token data definitions: the closed set of token kinds, the classified
//! lexical unit itself, and its mathematical view.

use vstd::prelude::*;

verus! {

/// The closed set of token tags: single-character punctuation,
/// one-or-two-character operators, literal kinds, reserved keywords,
/// the end-of-input marker, and a sink for unrecognized input.
#[derive(Clone, Copy, Debug, PartialEq, Eq, Structural)]
pub enum TokenType {
    // Single-character tokens.
    LEFTPAREN,
    RIGHTPAREN,
    LEFTBRACE,
    RIGHTBRACE,
    COMMA,
    DOT,
    MINUS,
    PLUS,
    SEMICOLON,
    SLASH,
    STAR,
    // One or two character tokens.
    BANG,
    BANGEQUAL,
    EQUAL,
    EQUALEQUAL,
    GREATER,
    GREATEREQUAL,
    LESS,
    LESSEQUAL,
    PLUSEQUAL,
    // Literals.
    IDENTIFIER,
    STRING,
    NUMBER,
    // Keywords.
    AND,
    CLASS,
    ELSE,
    FALSE,
    FUN,
    FOR,
    IF,
    NIL,
    OR,
    PRINT,
    RETURN,
    SUPER,
    THIS,
    TRUE,
    VAR,
    WHILE,
    PUB,
    FN,
    MUT,
    LET,
    MOD,
    USE,
    // End of input.
    EOF,
    // Sink for unrecognized characters and unterminated strings.
    UNKNOWN,
}

/// A classified lexical unit: its tag, the exact source substring it spans,
/// an optional decoded payload (present only for string and number tokens),
/// and the 1-based line of its first character.
#[derive(Clone, Debug)]
pub struct Token {
    pub token_type: TokenType,
    pub lexeme: String,
    pub literal: Option<String>,
    pub line: usize,
}

/// The mathematical value of a [`Token`]: the same fields over sequences of
/// characters and unbounded naturals.
pub ghost struct TokenView {
    pub kind: TokenType,
    pub lexeme: Seq<char>,
    pub literal: Option<Seq<char>>,
    pub line: nat,
}

/// The view of an optional decoded payload: present-or-absent is preserved,
/// never collapsed into an empty sequence.
pub open spec fn opt_text_view(o: Option<String>) -> Option<Seq<char>> {
    match o {
        Some(s) => Some(s@),
        None => None,
    }
}

impl View for Token {
    type V = TokenView;

    open spec fn view(&self) -> TokenView {
        TokenView {
            kind: self.token_type,
            lexeme: self.lexeme@,
            literal: opt_text_view(self.literal),
            line: self.line as nat,
        }
    }
}

/// The views of a sequence of tokens, in order.
pub open spec fn token_views(ts: Seq<Token>) -> Seq<TokenView> {
    ts.map_values(|t: Token| t@)
}

/// The views of a sequence of recorded line numbers, in order.
pub open spec fn line_views(ds: Seq<usize>) -> Seq<nat> {
    ds.map_values(|d: usize| d as nat)
}

/// Pushing a token commutes with taking views.
pub proof fn lemma_token_views_push(ts: Seq<Token>, t: Token)
    ensures
        token_views(ts.push(t)) == token_views(ts).push(t@),
{
    assert(token_views(ts.push(t)) =~= token_views(ts).push(t@));
}

/// Pushing a line number commutes with taking views.
pub proof fn lemma_line_views_push(ds: Seq<usize>, d: usize)
    ensures
        line_views(ds.push(d)) == line_views(ds).push(d as nat),
{
    assert(line_views(ds.push(d)) =~= line_views(ds).push(d as nat));
}

} // verus!
