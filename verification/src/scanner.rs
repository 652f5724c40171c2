//! The scanner: walks raw source text once, left to right, producing the
//! ordered token sequence described by [`crate::lexmodel::scan_spec`],
//! terminated by an end-of-input marker. Malformed input never aborts the
//! scan: unrecognized characters and unterminated strings degrade to
//! unknown tokens, and unterminated strings additionally record the line
//! for a diagnostic.

use vstd::prelude::*;
use vstd::string::StrSliceExecFns;

use crate::lexmodel::{
    char_at, diag_spec, digits_end, eof_token, ident_end, ident_step, is_alpha_char,
    is_digit_char, is_ident_char, keyword_lookup, line_add, line_comment_end, newline_count,
    number_step, scan_spec, step_spec, string_body_end, string_scan_end, string_step,
};
use crate::token::{
    lemma_line_views_push, lemma_token_views_push, line_views, opt_text_view, token_views, Token,
    TokenType, TokenView,
};

verus! {

/// Character-for-character equality of two text slices.
pub fn str_eq(a: &str, b: &str) -> (r: bool)
    ensures
        r == (a@ == b@),
{
    let sa: String = a.to_owned();
    let sb: String = b.to_owned();
    sa == sb
}

/// Whether `c` is an ASCII decimal digit.
pub fn is_digit(c: char) -> (r: bool)
    ensures
        r == is_digit_char(c),
{
    '0' <= c && c <= '9'
}

/// Whether `c` is an ASCII letter or underscore.
pub fn is_alpha(c: char) -> (r: bool)
    ensures
        r == is_alpha_char(c),
{
    ('a' <= c && c <= 'z') || ('A' <= c && c <= 'Z') || c == '_'
}

/// Whether `c` is an ASCII alphanumeric or underscore.
pub fn is_ident(c: char) -> (r: bool)
    ensures
        r == is_ident_char(c),
{
    is_alpha(c) || is_digit(c)
}

/// The scanner's state: the full source text, the index of the current
/// token's first character (`start`), the index of the next unconsumed
/// character (`current`), the current 1-based line number, the accumulated
/// token sequence, and the lines of any unterminated-string diagnostics.
/// Indices count characters, not bytes.
pub struct Scanner {
    pub source: String,
    pub current: usize,
    pub start: usize,
    pub line: usize,
    pub tokens: Vec<Token>,
    pub diagnostics: Vec<usize>,
}

impl Scanner {
    /// Well-formedness: the cursor indices stay within the source, which
    /// itself fits the machine word, and line numbers are 1-based.
    pub open spec fn wf(&self) -> bool {
        &&& self.start <= self.current <= self.source@.len()
        &&& self.source@.len() <= usize::MAX as nat
        &&& 1 <= self.line
    }

    /// A fresh scanner over `source`, at the first character of line 1,
    /// with no tokens and no diagnostics yet.
    pub fn new(source: &str) -> (s: Scanner)
        ensures
            s.wf(),
            s.source@ == source@,
            s.current == 0,
            s.start == 0,
            s.line == 1,
            s.tokens@ == Seq::<Token>::empty(),
            s.diagnostics@ == Seq::<usize>::empty(),
    {
        let text: String = source.to_owned();
        // The character count comes back as a machine word: that bounds
        // every cursor position, which well-formedness records.
        let n = text.as_str().unicode_len();
        proof {
            assert(text@.len() == n as nat);
        }
        Scanner {
            source: text,
            current: 0,
            start: 0,
            line: 1,
            tokens: Vec::new(),
            diagnostics: Vec::new(),
        }
    }

    /// Whether the whole source has been consumed.
    pub fn is_at_end(&self) -> (r: bool)
        requires
            self.wf(),
        ensures
            r == (self.current as nat >= self.source@.len()),
    {
        self.current >= self.source.as_str().unicode_len()
    }

    /// The next unconsumed character, or the NUL sentinel at the end of
    /// input; the cursor does not move.
    pub fn peek(&self) -> (c: char)
        requires
            self.wf(),
        ensures
            c == char_at(self.source@, self.current as nat),
    {
        if self.is_at_end() {
            '\0'
        } else {
            self.source.as_str().get_char(self.current)
        }
    }

    /// Consume and return one character.
    pub fn advance(&mut self) -> (c: char)
        requires
            old(self).wf(),
            old(self).current < old(self).source@.len(),
        ensures
            final(self).wf(),
            c == old(self).source@[old(self).current as int],
            final(self).current == old(self).current + 1,
            *final(self) == (Scanner { current: final(self).current, ..*old(self) }),
    {
        let c = self.source.as_str().get_char(self.current);
        self.current = self.current + 1;
        c
    }

    /// Consume the next character only if it is `expected`.
    pub fn match_char(&mut self, expected: char) -> (r: bool)
        requires
            old(self).wf(),
        ensures
            final(self).wf(),
            r == (old(self).current < old(self).source@.len() && old(self).source@[old(
                self,
            ).current as int] == expected),
            final(self).current == if r {
                old(self).current + 1
            } else {
                old(self).current as int
            },
            *final(self) == (Scanner { current: final(self).current, ..*old(self) }),
    {
        if self.is_at_end() {
            return false;
        }
        if self.source.as_str().get_char(self.current) != expected {
            return false;
        }
        self.current = self.current + 1;
        true
    }

    /// Append one token whose lexeme is the source span `[start, current)`,
    /// stamped with the current line.
    pub fn add_token(&mut self, token_type: TokenType, literal: Option<String>)
        requires
            old(self).wf(),
        ensures
            final(self).wf(),
            token_views(final(self).tokens@) == token_views(old(self).tokens@).push(
                (TokenView {
                    kind: token_type,
                    lexeme: old(self).source@.subrange(
                        old(self).start as int,
                        old(self).current as int,
                    ),
                    literal: opt_text_view(literal),
                    line: old(self).line as nat,
                }),
            ),
            *final(self) == (Scanner { tokens: final(self).tokens, ..*old(self) }),
    {
        let lexeme: String = self.source.as_str().substring_char(self.start, self.current)
            .to_owned();
        let t = Token { token_type, lexeme, literal, line: self.line };
        let ghost gt = t;
        let ghost toks0 = self.tokens@;
        self.tokens.push(t);
        proof {
            lemma_token_views_push(toks0, gt);
        }
    }

    /// The kind reserved for `text` in the fixed keyword table, if any.
    pub fn keyword_type(&self, text: &str) -> (r: Option<TokenType>)
        ensures
            r == keyword_lookup(text@),
    {
        if str_eq(text, "and") {
            Some(TokenType::AND)
        } else if str_eq(text, "class") {
            Some(TokenType::CLASS)
        } else if str_eq(text, "else") {
            Some(TokenType::ELSE)
        } else if str_eq(text, "false") {
            Some(TokenType::FALSE)
        } else if str_eq(text, "fun") {
            Some(TokenType::FUN)
        } else if str_eq(text, "for") {
            Some(TokenType::FOR)
        } else if str_eq(text, "if") {
            Some(TokenType::IF)
        } else if str_eq(text, "nil") {
            Some(TokenType::NIL)
        } else if str_eq(text, "or") {
            Some(TokenType::OR)
        } else if str_eq(text, "print") {
            Some(TokenType::PRINT)
        } else if str_eq(text, "return") {
            Some(TokenType::RETURN)
        } else if str_eq(text, "super") {
            Some(TokenType::SUPER)
        } else if str_eq(text, "this") {
            Some(TokenType::THIS)
        } else if str_eq(text, "true") {
            Some(TokenType::TRUE)
        } else if str_eq(text, "var") {
            Some(TokenType::VAR)
        } else if str_eq(text, "while") {
            Some(TokenType::WHILE)
        } else if str_eq(text, "pub") {
            Some(TokenType::PUB)
        } else if str_eq(text, "fn") {
            Some(TokenType::FN)
        } else if str_eq(text, "mod") {
            Some(TokenType::MOD)
        } else if str_eq(text, "let") {
            Some(TokenType::LET)
        } else if str_eq(text, "mut") {
            Some(TokenType::MUT)
        } else {
            None
        }
    }

    /// Scan a number whose first digit has just been consumed: a maximal
    /// digit run, then a fractional part only when the dot is immediately
    /// followed by a digit. The literal carries the exact consumed text.
    pub fn number(&mut self)
        requires
            old(self).wf(),
            old(self).start + 1 == old(self).current,
            is_digit_char(old(self).source@[old(self).start as int]),
        ensures
            final(self).wf(),
            ({
                let st = number_step(
                    old(self).source@,
                    old(self).start as nat,
                    old(self).line as nat,
                );
                &&& final(self).current as nat == st.next
                &&& token_views(final(self).tokens@) == token_views(old(self).tokens@).push(
                    st.token->Some_0,
                )
                &&& *final(self) == (Scanner {
                    current: final(self).current,
                    tokens: final(self).tokens,
                    ..*old(self)
                })
            }),
    {
        let ghost src = old(self).source@;
        let ghost i = old(self).start as nat;
        proof {
            crate::lexmodel::lemma_digits_end(src, i + 1);
        }
        while !self.is_at_end() && is_digit(self.peek())
            invariant
                self.wf(),
                src == self.source@,
                i + 1 <= self.current as nat <= digits_end(src, i + 1),
                digits_end(src, self.current as nat) == digits_end(src, i + 1),
                *self == (Scanner { current: self.current, ..*old(self) }),
            decreases src.len() - self.current as nat,
        {
            proof {
                crate::lexmodel::lemma_digits_end(src, self.current as nat + 1);
            }
            self.advance();
        }
        proof {
            assert(self.current as nat == digits_end(src, i + 1));
        }
        let ghost d = digits_end(src, i + 1);
        if !self.is_at_end() {
            if self.peek() == '.' && self.current + 1 < self.source.as_str().unicode_len() {
                if is_digit(self.source.as_str().get_char(self.current + 1)) {
                    self.current = self.current + 1;
                    proof {
                        crate::lexmodel::lemma_digits_end(src, d + 2);
                    }
                    while !self.is_at_end() && is_digit(self.peek())
                        invariant
                            self.wf(),
                            src == self.source@,
                            d + 2 <= src.len(),
                            is_digit_char(src[d + 1 as int]),
                            d + 1 <= self.current as nat <= digits_end(src, d + 1),
                            digits_end(src, self.current as nat) == digits_end(src, d + 1),
                            *self == (Scanner { current: self.current, ..*old(self) }),
                        decreases src.len() - self.current as nat,
                    {
                        proof {
                            crate::lexmodel::lemma_digits_end(src, self.current as nat + 1);
                        }
                        self.advance();
                    }
                    proof {
                        assert(self.current as nat == digits_end(src, d + 1));
                    }
                }
            }
        }
        let literal: String = self.source.as_str().substring_char(self.start, self.current)
            .to_owned();
        self.add_token(TokenType::NUMBER, Some(literal));
    }

    /// Scan an identifier or keyword whose first character has just been
    /// consumed: a maximal run of identifier characters, a keyword-table
    /// lookup, and the narrow accommodation that scans `println!` as a
    /// single print token.
    pub fn identifier(&mut self)
        requires
            old(self).wf(),
            old(self).start + 1 == old(self).current,
            is_alpha_char(old(self).source@[old(self).start as int]),
        ensures
            final(self).wf(),
            ({
                let st = ident_step(
                    old(self).source@,
                    old(self).start as nat,
                    old(self).line as nat,
                );
                &&& final(self).current as nat == st.next
                &&& token_views(final(self).tokens@) == token_views(old(self).tokens@).push(
                    st.token->Some_0,
                )
                &&& *final(self) == (Scanner {
                    current: final(self).current,
                    tokens: final(self).tokens,
                    ..*old(self)
                })
            }),
    {
        let ghost src = old(self).source@;
        let ghost i = old(self).start as nat;
        proof {
            crate::lexmodel::lemma_ident_end(src, i + 1);
        }
        while !self.is_at_end() && is_ident(self.peek())
            invariant
                self.wf(),
                src == self.source@,
                i + 1 <= self.current as nat <= ident_end(src, i + 1),
                ident_end(src, self.current as nat) == ident_end(src, i + 1),
                *self == (Scanner { current: self.current, ..*old(self) }),
            decreases src.len() - self.current as nat,
        {
            proof {
                crate::lexmodel::lemma_ident_end(src, self.current as nat + 1);
            }
            self.advance();
        }
        proof {
            assert(self.current as nat == ident_end(src, i + 1));
        }
        let text: String = self.source.as_str().substring_char(self.start, self.current)
            .to_owned();
        let token_type: TokenType;
        if str_eq(text.as_str(), "println") && self.match_char('!') {
            token_type = TokenType::PRINT;
        } else {
            token_type = match self.keyword_type(text.as_str()) {
                Some(kw) => kw,
                None => TokenType::IDENTIFIER,
            };
        }
        self.add_token(token_type, None);
    }

    /// Scan a string literal whose opening quote has just been consumed.
    /// The body runs to the first unescaped closing quote (a backslash
    /// escapes the character after it) and may span lines; the token
    /// keeps the line of its opening quote. If the input ends first, the
    /// partial content is discarded: an unknown token is emitted and the
    /// line of the diagnostic recorded.
    pub fn string(&mut self)
        requires
            old(self).wf(),
            old(self).start + 1 == old(self).current,
            old(self).source@[old(self).start as int] == '"',
        ensures
            final(self).wf(),
            ({
                let st = string_step(
                    old(self).source@,
                    old(self).start as nat,
                    old(self).line as nat,
                );
                &&& final(self).current as nat == st.next
                &&& final(self).line as nat == st.line
                &&& token_views(final(self).tokens@) == token_views(old(self).tokens@).push(
                    st.token->Some_0,
                )
                &&& line_views(final(self).diagnostics@) == if st.unterminated {
                    line_views(old(self).diagnostics@).push(st.line)
                } else {
                    line_views(old(self).diagnostics@)
                }
                &&& *final(self) == (Scanner {
                    current: final(self).current,
                    line: final(self).line,
                    tokens: final(self).tokens,
                    diagnostics: final(self).diagnostics,
                    ..*old(self)
                })
            }),
    {
        let ghost src = old(self).source@;
        let ghost i = old(self).start as nat;
        let ghost line0 = old(self).line as nat;
        let line_start: usize = self.line;
        proof {
            crate::lexmodel::lemma_string_scan_end(src, i + 1, false);
            crate::lexmodel::lemma_newline_count_snoc(src, i + 1, i + 1);
        }
        let ghost e = string_body_end(src, i + 1);
        // `escaped` says whether the character under the cursor stands
        // behind a backslash: such a character never closes the string.
        let mut escaped = false;
        while !self.is_at_end() && (escaped || self.peek() != '"')
            invariant
                self.wf(),
                src == self.source@,
                i + 1 <= self.current as nat <= e,
                e == string_body_end(src, i + 1),
                string_scan_end(src, self.current as nat, escaped) == e,
                1 <= line0 <= usize::MAX as nat,
                self.line as nat == line_add(line0, newline_count(src, i + 1, self.current as nat)),
                *self == (Scanner { current: self.current, line: self.line, ..*old(self) }),
            decreases src.len() - self.current as nat,
        {
            proof {
                crate::lexmodel::lemma_string_scan_end(src, self.current as nat + 1, false);
                crate::lexmodel::lemma_string_scan_end(src, self.current as nat + 1, true);
                crate::lexmodel::lemma_newline_count_snoc(src, i + 1, self.current as nat);
            }
            let c = self.peek();
            if c == '\n' {
                if self.line < usize::MAX {
                    self.line = self.line + 1;
                }
            }
            if escaped {
                escaped = false;
            } else if c == '\\' {
                escaped = true;
            }
            self.advance();
        }
        proof {
            assert(self.current as nat == e);
        }
        if self.is_at_end() {
            // Unterminated string: the partial content is discarded.
            let ghost d0 = self.diagnostics@;
            let diag_line: usize = self.line;
            self.diagnostics.push(diag_line);
            proof {
                lemma_line_views_push(d0, diag_line);
            }
            let lexeme: String = self.source.as_str().substring_char(self.start, self.current)
                .to_owned();
            let t = Token {
                token_type: TokenType::UNKNOWN,
                lexeme,
                literal: None,
                line: line_start,
            };
            let ghost gt = t;
            let ghost toks0 = self.tokens@;
            self.tokens.push(t);
            proof {
                lemma_token_views_push(toks0, gt);
            }
        } else {
            // Consume the closing quote.
            self.current = self.current + 1;
            let value: String = self.source.as_str().substring_char(
                self.start + 1,
                self.current - 1,
            ).to_owned();
            let lexeme: String = self.source.as_str().substring_char(self.start, self.current)
                .to_owned();
            let t = Token {
                token_type: TokenType::STRING,
                lexeme,
                literal: Some(value),
                line: line_start,
            };
            let ghost gt = t;
            let ghost toks0 = self.tokens@;
            self.tokens.push(t);
            proof {
                lemma_token_views_push(toks0, gt);
            }
        }
    }

    /// Scan exactly one token starting at `start == current`, or skip
    /// whitespace or a comment producing none: one step of the model.
    pub fn scan_token(&mut self)
        requires
            old(self).wf(),
            old(self).start == old(self).current,
            old(self).current < old(self).source@.len(),
        ensures
            final(self).wf(),
            ({
                let st = step_spec(
                    old(self).source@,
                    old(self).current as nat,
                    old(self).line as nat,
                );
                &&& final(self).current as nat == st.next
                &&& final(self).line as nat == st.line
                &&& final(self).start == old(self).start
                &&& final(self).source == old(self).source
                &&& token_views(final(self).tokens@) == match st.token {
                    Some(t) => token_views(old(self).tokens@).push(t),
                    None => token_views(old(self).tokens@),
                }
                &&& line_views(final(self).diagnostics@) == if st.unterminated {
                    line_views(old(self).diagnostics@).push(st.line)
                } else {
                    line_views(old(self).diagnostics@)
                }
            }),
    {
        let ghost src = old(self).source@;
        let ghost i = old(self).current as nat;
        let c = self.advance();
        if c == '(' {
            self.add_token(TokenType::LEFTPAREN, None);
        } else if c == ')' {
            self.add_token(TokenType::RIGHTPAREN, None);
        } else if c == '{' {
            self.add_token(TokenType::LEFTBRACE, None);
        } else if c == '}' {
            self.add_token(TokenType::RIGHTBRACE, None);
        } else if c == ',' {
            self.add_token(TokenType::COMMA, None);
        } else if c == '.' {
            self.add_token(TokenType::DOT, None);
        } else if c == '-' {
            self.add_token(TokenType::MINUS, None);
        } else if c == ';' {
            self.add_token(TokenType::SEMICOLON, None);
        } else if c == '*' {
            self.add_token(TokenType::STAR, None);
        } else if c == '!' {
            let token_type = if self.match_char('=') {
                TokenType::BANGEQUAL
            } else {
                TokenType::BANG
            };
            self.add_token(token_type, None);
        } else if c == '=' {
            let token_type = if self.match_char('=') {
                TokenType::EQUALEQUAL
            } else {
                TokenType::EQUAL
            };
            self.add_token(token_type, None);
        } else if c == '<' {
            let token_type = if self.match_char('=') {
                TokenType::LESSEQUAL
            } else {
                TokenType::LESS
            };
            self.add_token(token_type, None);
        } else if c == '>' {
            let token_type = if self.match_char('=') {
                TokenType::GREATEREQUAL
            } else {
                TokenType::GREATER
            };
            self.add_token(token_type, None);
        } else if c == '+' {
            let token_type = if self.match_char('=') {
                TokenType::PLUSEQUAL
            } else {
                TokenType::PLUS
            };
            self.add_token(token_type, None);
        } else if c == '/' {
            if self.match_char('/') {
                // A comment runs to the end of the line and produces no token.
                proof {
                    crate::lexmodel::lemma_line_comment_end(src, i + 2);
                }
                while !self.is_at_end() && self.peek() != '\n'
                    invariant
                        self.wf(),
                        src == self.source@,
                        i + 2 <= self.current as nat <= line_comment_end(src, i + 2),
                        line_comment_end(src, self.current as nat) == line_comment_end(src, i + 2),
                        *self == (Scanner { current: self.current, ..*old(self) }),
                    decreases src.len() - self.current as nat,
                {
                    proof {
                        crate::lexmodel::lemma_line_comment_end(src, self.current as nat + 1);
                    }
                    self.advance();
                }
                proof {
                    assert(self.current as nat == line_comment_end(src, i + 2));
                }
            } else {
                self.add_token(TokenType::SLASH, None);
            }
        } else if c == ' ' || c == '\r' || c == '\t' {
            // Whitespace is consumed and produces no token.
        } else if c == '\n' {
            if self.line < usize::MAX {
                self.line = self.line + 1;
            }
        } else if c == '"' {
            self.string();
        } else if is_digit(c) {
            self.number();
        } else if is_alpha(c) {
            self.identifier();
        } else {
            self.add_token(TokenType::UNKNOWN, None);
        }
    }

    /// Scan the remaining input, one token at a time, and append the
    /// end-of-input marker: the whole token sequence and every diagnostic
    /// line of the scan are exactly those of the model.
    pub fn scan_tokens(&mut self)
        requires
            old(self).wf(),
        ensures
            final(self).wf(),
            final(self).source == old(self).source,
            final(self).current == final(self).source@.len(),
            final(self).tokens@.len() >= 1,
            final(self).tokens@.last()@.line == final(self).line as nat,
            token_views(final(self).tokens@) == token_views(old(self).tokens@) + scan_spec(
                old(self).source@,
                old(self).current as nat,
                old(self).line as nat,
            ),
            line_views(final(self).diagnostics@) == line_views(old(self).diagnostics@)
                + diag_spec(old(self).source@, old(self).current as nat, old(self).line as nat),
    {
        let ghost src = old(self).source@;
        while !self.is_at_end()
            invariant
                self.wf(),
                src == self.source@,
                self.source == old(self).source,
                token_views(old(self).tokens@) + scan_spec(
                    src,
                    old(self).current as nat,
                    old(self).line as nat,
                ) == token_views(self.tokens@) + scan_spec(
                    src,
                    self.current as nat,
                    self.line as nat,
                ),
                line_views(old(self).diagnostics@) + diag_spec(
                    src,
                    old(self).current as nat,
                    old(self).line as nat,
                ) == line_views(self.diagnostics@) + diag_spec(
                    src,
                    self.current as nat,
                    self.line as nat,
                ),
            decreases src.len() - self.current as nat,
        {
            self.start = self.current;
            let ghost cur0 = self.current as nat;
            let ghost ln0 = self.line as nat;
            let ghost toks0 = self.tokens@;
            let ghost diags0 = self.diagnostics@;
            proof {
                crate::lexmodel::lemma_step_in_range(src, cur0, ln0);
            }
            self.scan_token();
            proof {
                let st = step_spec(src, cur0, ln0);
                assert(scan_spec(src, cur0, ln0) == match st.token {
                    Some(t) => seq![t] + scan_spec(src, st.next, st.line),
                    None => scan_spec(src, st.next, st.line),
                });
                assert(diag_spec(src, cur0, ln0) == if st.unterminated {
                    seq![st.line] + diag_spec(src, st.next, st.line)
                } else {
                    diag_spec(src, st.next, st.line)
                });
                match st.token {
                    Some(t) => {
                        assert(token_views(toks0) + scan_spec(src, cur0, ln0) =~= token_views(
                            self.tokens@,
                        ) + scan_spec(src, st.next, st.line));
                    },
                    None => {},
                }
                if st.unterminated {
                    assert(line_views(diags0) + diag_spec(src, cur0, ln0) =~= line_views(
                        self.diagnostics@,
                    ) + diag_spec(src, st.next, st.line));
                }
            }
        }
        let ghost toks1 = self.tokens@;
        let t = Token {
            token_type: TokenType::EOF,
            lexeme: String::new(),
            literal: None,
            line: self.line,
        };
        let ghost gt = t;
        self.tokens.push(t);
        proof {
            lemma_token_views_push(toks1, gt);
            assert(scan_spec(src, self.current as nat, self.line as nat) == seq![
                eof_token(self.line as nat),
            ]);
            assert(gt@ == eof_token(self.line as nat));
            assert(token_views(self.tokens@) =~= token_views(old(self).tokens@) + scan_spec(
                src,
                old(self).current as nat,
                old(self).line as nat,
            ));
            assert(diag_spec(src, self.current as nat, self.line as nat) == Seq::<nat>::empty());
            assert(line_views(self.diagnostics@) =~= line_views(old(self).diagnostics@)
                + diag_spec(src, old(self).current as nat, old(self).line as nat));
        }
    }
}

/// Scan `source` in full: the returned scanner holds exactly the token
/// sequence and the diagnostic lines of the model, starting at the first
/// character of line 1. Whatever the input, the scan ends with the
/// end-of-input marker and its token lines never decrease.
pub fn scanner_main(source: &str) -> (s: Scanner)
    ensures
        s.wf(),
        s.source@ == source@,
        token_views(s.tokens@) == scan_spec(source@, 0, 1),
        line_views(s.diagnostics@) == diag_spec(source@, 0, 1),
        s.tokens@.len() >= 1,
        s.tokens@.last()@.kind == TokenType::EOF,
        s.tokens@.last()@.lexeme == Seq::<char>::empty(),
        s.tokens@.last()@.line == s.line as nat,
        forall|k: int|
            0 <= k && k + 1 < s.tokens@.len() ==> #[trigger] s.tokens@[k]@.line <= s.tokens@[k
                + 1]@.line,
{
    let mut scanner = Scanner::new(source);
    scanner.scan_tokens();
    proof {
        assert(token_views(scanner.tokens@) =~= scan_spec(source@, 0, 1));
        assert(line_views(scanner.diagnostics@) =~= diag_spec(source@, 0, 1));
        crate::lexmodel::lemma_scan_totality(source@, 0, 1);
        crate::lexmodel::lemma_scan_lines_monotone(source@, 0, 1);
        assert(scanner.tokens@.last()@ == token_views(scanner.tokens@).last());
        assert(forall|k: int|
            0 <= k < scanner.tokens@.len() ==> #[trigger] scanner.tokens@[k]@ == token_views(
                scanner.tokens@,
            )[k]);
    }
    scanner
}

} // verus!
