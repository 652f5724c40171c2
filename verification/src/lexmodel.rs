//! Mathematical model of the scanner: character classes, maximal runs,
//! the single-token step relation, and the full scan function, together
//! with the laws that hold of every scan (totality with a final
//! end-of-input token, and non-decreasing line numbers).

use vstd::prelude::*;

use crate::token::{TokenType, TokenView};

verus! {

/// An ASCII decimal digit.
pub open spec fn is_digit_char(c: char) -> bool {
    '0' <= c && c <= '9'
}

/// An ASCII letter or underscore: what may begin an identifier.
pub open spec fn is_alpha_char(c: char) -> bool {
    ('a' <= c && c <= 'z') || ('A' <= c && c <= 'Z') || c == '_'
}

/// An ASCII alphanumeric or underscore: what may continue an identifier.
pub open spec fn is_ident_char(c: char) -> bool {
    is_alpha_char(c) || is_digit_char(c)
}

/// The character at position `i`, or the NUL sentinel past the end.
pub open spec fn char_at(src: Seq<char>, i: nat) -> char {
    if i < src.len() {
        src[i as int]
    } else {
        '\0'
    }
}

/// The index just past the maximal run of digits starting at `i`.
pub open spec fn digits_end(src: Seq<char>, i: nat) -> nat
    decreases src.len() - i,
        when i <= src.len()
{
    if i < src.len() && is_digit_char(src[i as int]) {
        digits_end(src, i + 1)
    } else {
        i
    }
}

/// The index just past the maximal run of identifier characters starting at `i`.
pub open spec fn ident_end(src: Seq<char>, i: nat) -> nat
    decreases src.len() - i,
        when i <= src.len()
{
    if i < src.len() && is_ident_char(src[i as int]) {
        ident_end(src, i + 1)
    } else {
        i
    }
}

/// The index of the first newline at or after `i`, or the end of input:
/// where a line comment stops.
pub open spec fn line_comment_end(src: Seq<char>, i: nat) -> nat
    decreases src.len() - i,
        when i <= src.len()
{
    if i < src.len() && src[i as int] != '\n' {
        line_comment_end(src, i + 1)
    } else {
        i
    }
}

/// Where a string body running from `i` ends: the index of the first
/// unescaped closing quote at or after `i`, or the end of the input.
/// `escaped` says whether the character at `i` stands behind a backslash;
/// a backslash escapes the character after it, so a quote is escaped
/// exactly when an odd run of backslashes immediately precedes it.
pub open spec fn string_scan_end(src: Seq<char>, i: nat, escaped: bool) -> nat
    decreases src.len() - i,
        when i <= src.len()
{
    if i < src.len() {
        if escaped {
            string_scan_end(src, i + 1, false)
        } else if src[i as int] == '"' {
            i
        } else if src[i as int] == '\\' {
            string_scan_end(src, i + 1, true)
        } else {
            string_scan_end(src, i + 1, false)
        }
    } else {
        i
    }
}

/// The index of the first unescaped closing quote at or after `i`, or the
/// end of input: where a string body that opens just before `i` ends.
pub open spec fn string_body_end(src: Seq<char>, i: nat) -> nat {
    string_scan_end(src, i, false)
}

/// How many newlines occur in `src` within the half-open range `[i, j)`.
pub open spec fn newline_count(src: Seq<char>, i: nat, j: nat) -> nat
    decreases j - i,
        when i <= j
{
    if i < j {
        (if src[i as int] == '\n' {
            1nat
        } else {
            0nat
        }) + newline_count(src, i + 1, j)
    } else {
        0
    }
}

/// A line counter advanced by `k` newlines. Line numbers saturate at the
/// machine word: a source long enough to reach the cap cannot exist in
/// memory, but the model must still be total.
pub open spec fn line_add(line: nat, k: nat) -> nat {
    if line + k <= usize::MAX as nat {
        line + k
    } else {
        usize::MAX as nat
    }
}

/// The token kind of a character that always stands alone.
pub open spec fn punct_kind(c: char) -> Option<TokenType> {
    if c == '(' {
        Some(TokenType::LEFTPAREN)
    } else if c == ')' {
        Some(TokenType::RIGHTPAREN)
    } else if c == '{' {
        Some(TokenType::LEFTBRACE)
    } else if c == '}' {
        Some(TokenType::RIGHTBRACE)
    } else if c == ',' {
        Some(TokenType::COMMA)
    } else if c == '.' {
        Some(TokenType::DOT)
    } else if c == '-' {
        Some(TokenType::MINUS)
    } else if c == ';' {
        Some(TokenType::SEMICOLON)
    } else if c == '*' {
        Some(TokenType::STAR)
    } else {
        None
    }
}

/// For a character that may pair with a following `=`: the two-character
/// kind and the one-character kind, in that order.
pub open spec fn paired_kinds(c: char) -> Option<(TokenType, TokenType)> {
    if c == '!' {
        Some((TokenType::BANGEQUAL, TokenType::BANG))
    } else if c == '=' {
        Some((TokenType::EQUALEQUAL, TokenType::EQUAL))
    } else if c == '<' {
        Some((TokenType::LESSEQUAL, TokenType::LESS))
    } else if c == '>' {
        Some((TokenType::GREATEREQUAL, TokenType::GREATER))
    } else if c == '+' {
        Some((TokenType::PLUSEQUAL, TokenType::PLUS))
    } else {
        None
    }
}

/// The fixed keyword table: the kind reserved for `text`, if any.
pub open spec fn keyword_lookup(text: Seq<char>) -> Option<TokenType> {
    if text == "and"@ {
        Some(TokenType::AND)
    } else if text == "class"@ {
        Some(TokenType::CLASS)
    } else if text == "else"@ {
        Some(TokenType::ELSE)
    } else if text == "false"@ {
        Some(TokenType::FALSE)
    } else if text == "fun"@ {
        Some(TokenType::FUN)
    } else if text == "for"@ {
        Some(TokenType::FOR)
    } else if text == "if"@ {
        Some(TokenType::IF)
    } else if text == "nil"@ {
        Some(TokenType::NIL)
    } else if text == "or"@ {
        Some(TokenType::OR)
    } else if text == "print"@ {
        Some(TokenType::PRINT)
    } else if text == "return"@ {
        Some(TokenType::RETURN)
    } else if text == "super"@ {
        Some(TokenType::SUPER)
    } else if text == "this"@ {
        Some(TokenType::THIS)
    } else if text == "true"@ {
        Some(TokenType::TRUE)
    } else if text == "var"@ {
        Some(TokenType::VAR)
    } else if text == "while"@ {
        Some(TokenType::WHILE)
    } else if text == "pub"@ {
        Some(TokenType::PUB)
    } else if text == "fn"@ {
        Some(TokenType::FN)
    } else if text == "mod"@ {
        Some(TokenType::MOD)
    } else if text == "let"@ {
        Some(TokenType::LET)
    } else if text == "mut"@ {
        Some(TokenType::MUT)
    } else {
        None
    }
}

/// The outcome of scanning exactly one token (or of skipping whitespace
/// or a comment) at position `i` on line `line`: the position and line
/// after the step, the token emitted if any, and whether an unterminated
/// string was diagnosed.
pub ghost struct ScanStep {
    pub next: nat,
    pub line: nat,
    pub token: Option<TokenView>,
    pub unterminated: bool,
}

/// A step that emits one token spanning `[i, next)` on the current line.
pub open spec fn token_step(
    src: Seq<char>,
    i: nat,
    line: nat,
    kind: TokenType,
    next: nat,
    literal: Option<Seq<char>>,
) -> ScanStep {
    ScanStep {
        next,
        line,
        token: Some(
            TokenView { kind, lexeme: src.subrange(i as int, next as int), literal, line },
        ),
        unterminated: false,
    }
}

/// A step that consumes `[i, next)` and emits nothing.
pub open spec fn silent_step(next: nat, line: nat) -> ScanStep {
    ScanStep { next, line, token: None, unterminated: false }
}

/// Scanning a string literal whose opening quote stands at `i`: the body
/// runs to the first unescaped closing quote (a backslash escapes the
/// character after it). Embedded newlines advance the line
/// counter, but the token keeps the line of its opening quote. If the
/// input ends first, the partial content is discarded: an unknown token
/// spanning the rest of the input is emitted and a diagnostic recorded.
pub open spec fn string_step(src: Seq<char>, i: nat, line: nat) -> ScanStep
    recommends
        i < src.len(),
{
    let e = string_body_end(src, i + 1);
    let after = line_add(line, newline_count(src, i + 1, e));
    if e >= src.len() {
        ScanStep {
            next: src.len(),
            line: after,
            token: Some(
                TokenView {
                    kind: TokenType::UNKNOWN,
                    lexeme: src.subrange(i as int, src.len() as int),
                    literal: None,
                    line,
                },
            ),
            unterminated: true,
        }
    } else {
        ScanStep {
            next: e + 1,
            line: after,
            token: Some(
                TokenView {
                    kind: TokenType::STRING,
                    lexeme: src.subrange(i as int, e + 1 as int),
                    literal: Some(src.subrange(i + 1 as int, e as int)),
                    line,
                },
            ),
            unterminated: false,
        }
    }
}

/// Scanning a number whose first digit stands at `i`: a maximal digit run,
/// then a fractional part only when a dot is immediately followed by a
/// digit. The literal is the exact consumed substring.
pub open spec fn number_step(src: Seq<char>, i: nat, line: nat) -> ScanStep
    recommends
        i < src.len(),
{
    let d = digits_end(src, i + 1);
    let end = if d + 1 < src.len() && src[d as int] == '.' && is_digit_char(src[d + 1 as int]) {
        digits_end(src, d + 2)
    } else {
        d
    };
    token_step(src, i, line, TokenType::NUMBER, end, Some(src.subrange(i as int, end as int)))
}

/// Scanning an identifier or keyword whose first character stands at `i`:
/// a maximal run of identifier characters, then a keyword-table lookup.
/// The text `println` immediately followed by `!` is scanned as a single
/// print token, `!` included.
pub open spec fn ident_step(src: Seq<char>, i: nat, line: nat) -> ScanStep
    recommends
        i < src.len(),
{
    let e = ident_end(src, i + 1);
    let text = src.subrange(i as int, e as int);
    if text == "println"@ && e < src.len() && src[e as int] == '!' {
        token_step(src, i, line, TokenType::PRINT, e + 1, None)
    } else {
        let kind = match keyword_lookup(text) {
            Some(k) => k,
            None => TokenType::IDENTIFIER,
        };
        token_step(src, i, line, kind, e, None)
    }
}

/// One step of the scanner at position `i` on line `line`.
pub open spec fn step_spec(src: Seq<char>, i: nat, line: nat) -> ScanStep
    recommends
        i < src.len(),
{
    let c = src[i as int];
    if punct_kind(c) is Some {
        token_step(src, i, line, punct_kind(c)->Some_0, i + 1, None)
    } else if paired_kinds(c) is Some {
        let kinds = paired_kinds(c)->Some_0;
        if i + 1 < src.len() && src[i + 1 as int] == '=' {
            token_step(src, i, line, kinds.0, i + 2, None)
        } else {
            token_step(src, i, line, kinds.1, i + 1, None)
        }
    } else if c == '/' {
        if i + 1 < src.len() && src[i + 1 as int] == '/' {
            silent_step(line_comment_end(src, i + 2), line)
        } else {
            token_step(src, i, line, TokenType::SLASH, i + 1, None)
        }
    } else if c == ' ' || c == '\r' || c == '\t' {
        silent_step(i + 1, line)
    } else if c == '\n' {
        silent_step(i + 1, line_add(line, 1))
    } else if c == '"' {
        string_step(src, i, line)
    } else if is_digit_char(c) {
        number_step(src, i, line)
    } else if is_alpha_char(c) {
        ident_step(src, i, line)
    } else {
        token_step(src, i, line, TokenType::UNKNOWN, i + 1, None)
    }
}

/// The end-of-input marker appended after the last scanned token.
pub open spec fn eof_token(line: nat) -> TokenView {
    TokenView { kind: TokenType::EOF, lexeme: Seq::<char>::empty(), literal: None, line }
}

/// The maximal digit run reaches past its start, never past the end, spans
/// only digits, and stops only at the end or at a non-digit.
pub proof fn lemma_digits_end(src: Seq<char>, i: nat)
    requires
        i <= src.len(),
    ensures
        i <= digits_end(src, i) <= src.len(),
        forall|k: int| i <= k < digits_end(src, i) ==> is_digit_char(src[k]),
        digits_end(src, i) < src.len() ==> !is_digit_char(src[digits_end(src, i) as int]),
        i < src.len() && is_digit_char(src[i as int]) ==> digits_end(src, i) == digits_end(
            src,
            i + 1,
        ),
        !(i < src.len() && is_digit_char(src[i as int])) ==> digits_end(src, i) == i,
    decreases src.len() - i,
{
    if i < src.len() && is_digit_char(src[i as int]) {
        lemma_digits_end(src, i + 1);
    }
}

/// The maximal identifier run reaches past its start, never past the end,
/// spans only identifier characters, and stops only at the end or at a
/// non-identifier character.
pub proof fn lemma_ident_end(src: Seq<char>, i: nat)
    requires
        i <= src.len(),
    ensures
        i <= ident_end(src, i) <= src.len(),
        forall|k: int| i <= k < ident_end(src, i) ==> is_ident_char(src[k]),
        ident_end(src, i) < src.len() ==> !is_ident_char(src[ident_end(src, i) as int]),
        i < src.len() && is_ident_char(src[i as int]) ==> ident_end(src, i) == ident_end(
            src,
            i + 1,
        ),
        !(i < src.len() && is_ident_char(src[i as int])) ==> ident_end(src, i) == i,
    decreases src.len() - i,
{
    if i < src.len() && is_ident_char(src[i as int]) {
        lemma_ident_end(src, i + 1);
    }
}

/// A line comment runs to the first newline or to the end of the input.
pub proof fn lemma_line_comment_end(src: Seq<char>, i: nat)
    requires
        i <= src.len(),
    ensures
        i <= line_comment_end(src, i) <= src.len(),
        forall|k: int| i <= k < line_comment_end(src, i) ==> src[k] != '\n',
        line_comment_end(src, i) < src.len() ==> src[line_comment_end(src, i) as int] == '\n',
        i < src.len() && src[i as int] != '\n' ==> line_comment_end(src, i) == line_comment_end(
            src,
            i + 1,
        ),
        !(i < src.len() && src[i as int] != '\n') ==> line_comment_end(src, i) == i,
    decreases src.len() - i,
{
    if i < src.len() && src[i as int] != '\n' {
        lemma_line_comment_end(src, i + 1);
    }
}

/// A string body runs to the first unescaped closing quote or to the end
/// of the input, never past it; where it stops short of the end, an
/// unescaped quote stands there.
pub proof fn lemma_string_scan_end(src: Seq<char>, i: nat, escaped: bool)
    requires
        i <= src.len(),
    ensures
        i <= string_scan_end(src, i, escaped) <= src.len(),
        string_scan_end(src, i, escaped) < src.len() ==> src[string_scan_end(
            src,
            i,
            escaped,
        ) as int] == '"',
    decreases src.len() - i,
{
    if i < src.len() {
        if escaped {
            lemma_string_scan_end(src, i + 1, false);
        } else if src[i as int] == '"' {
        } else if src[i as int] == '\\' {
            lemma_string_scan_end(src, i + 1, true);
        } else {
            lemma_string_scan_end(src, i + 1, false);
        }
    }
}

/// Counting newlines over an empty range gives zero, and extending the
/// range by one position on the right adds the last character's count.
pub proof fn lemma_newline_count_snoc(src: Seq<char>, i: nat, j: nat)
    requires
        i <= j <= src.len(),
    ensures
        newline_count(src, i, i) == 0,
        j < src.len() ==> newline_count(src, i, j + 1) == newline_count(src, i, j) + (
        if src[j as int] == '\n' {
            1nat
        } else {
            0nat
        }),
    decreases j - i,
{
    if i < j {
        lemma_newline_count_snoc(src, i + 1, j);
    } else {
        if j < src.len() {
            assert(newline_count(src, j + 1, j + 1) == 0);
        }
    }
}

/// Every step consumes at least one character, stays within the input, and
/// never moves the line counter backwards; a token it emits is stamped with
/// a line between the line before and the line after the step.
pub proof fn lemma_step_in_range(src: Seq<char>, i: nat, line: nat)
    requires
        i < src.len(),
    ensures
        i < step_spec(src, i, line).next <= src.len(),
        line <= usize::MAX as nat ==> line <= step_spec(src, i, line).line <= usize::MAX as nat,
        line <= usize::MAX as nat ==> (step_spec(src, i, line).token matches Some(t) ==> line
            <= t.line <= step_spec(src, i, line).line),
{
    let c = src[i as int];
    if punct_kind(c) is Some {
    } else if paired_kinds(c) is Some {
    } else if c == '/' {
        if i + 1 < src.len() && src[i + 1 as int] == '/' {
            lemma_line_comment_end(src, i + 2);
        }
    } else if c == ' ' || c == '\r' || c == '\t' {
    } else if c == '\n' {
    } else if c == '"' {
        lemma_string_scan_end(src, i + 1, false);
    } else if is_digit_char(c) {
        lemma_digits_end(src, i + 1);
        let d = digits_end(src, i + 1);
        if d + 1 < src.len() && src[d as int] == '.' && is_digit_char(src[d + 1 as int]) {
            lemma_digits_end(src, d + 2);
        }
    } else if is_alpha_char(c) {
        lemma_ident_end(src, i + 1);
    }
}

/// The ordered sequence of tokens produced by scanning `src` from position
/// `i` on line `line`, terminated by the end-of-input marker.
pub open spec fn scan_spec(src: Seq<char>, i: nat, line: nat) -> Seq<TokenView>
    decreases src.len() - i,
        when i <= src.len()
{
    if i < src.len() {
        let st = step_spec(src, i, line);
        proof {
            lemma_step_in_range(src, i, line);
        }
        let rest = scan_spec(src, st.next, st.line);
        match st.token {
            Some(t) => seq![t] + rest,
            None => rest,
        }
    } else {
        seq![eof_token(line)]
    }
}

/// The ordered line numbers of the unterminated-string diagnostics produced
/// by scanning `src` from position `i` on line `line`.
pub open spec fn diag_spec(src: Seq<char>, i: nat, line: nat) -> Seq<nat>
    decreases src.len() - i,
        when i <= src.len()
{
    if i < src.len() {
        let st = step_spec(src, i, line);
        proof {
            lemma_step_in_range(src, i, line);
        }
        let rest = diag_spec(src, st.next, st.line);
        if st.unterminated {
            seq![st.line] + rest
        } else {
            rest
        }
    } else {
        Seq::<nat>::empty()
    }
}

/// Totality: scanning any input from any position terminates (the scan
/// function is total by construction) and produces at least one token, the
/// last of which is the end-of-input marker with an empty lexeme and no
/// literal payload.
pub proof fn lemma_scan_totality(src: Seq<char>, i: nat, line: nat)
    requires
        i <= src.len(),
    ensures
        scan_spec(src, i, line).len() >= 1,
        scan_spec(src, i, line).last().kind == TokenType::EOF,
        scan_spec(src, i, line).last().lexeme == Seq::<char>::empty(),
        scan_spec(src, i, line).last().literal is None,
    decreases src.len() - i,
{
    if i < src.len() {
        lemma_step_in_range(src, i, line);
        let st = step_spec(src, i, line);
        lemma_scan_totality(src, st.next, st.line);
        let rest = scan_spec(src, st.next, st.line);
        match st.token {
            Some(t) => {
                assert(scan_spec(src, i, line) == seq![t] + rest);
                assert((seq![t] + rest).last() == rest.last());
            },
            None => {},
        }
    }
}

/// A token emitted by one step carries a decoded payload exactly when it
/// is a string or number token.
pub proof fn lemma_step_literal_presence(src: Seq<char>, i: nat, line: nat)
    requires
        i < src.len(),
    ensures
        step_spec(src, i, line).token matches Some(t) ==> (t.literal is Some <==> (t.kind
            == TokenType::STRING || t.kind == TokenType::NUMBER)),
{
}

/// Payload presence: in any scan, a token's decoded payload is present
/// exactly when the token is a string or number token — absent, not merely
/// empty, for every other kind.
pub proof fn lemma_scan_literal_presence(src: Seq<char>, i: nat, line: nat)
    requires
        i <= src.len(),
    ensures
        forall|k: int|
            0 <= k < scan_spec(src, i, line).len() ==> (#[trigger] scan_spec(
                src,
                i,
                line,
            )[k].literal is Some <==> (scan_spec(src, i, line)[k].kind == TokenType::STRING
                || scan_spec(src, i, line)[k].kind == TokenType::NUMBER)),
    decreases src.len() - i,
{
    if i < src.len() {
        lemma_step_in_range(src, i, line);
        lemma_step_literal_presence(src, i, line);
        let st = step_spec(src, i, line);
        lemma_scan_literal_presence(src, st.next, st.line);
        let rest = scan_spec(src, st.next, st.line);
        let whole = scan_spec(src, i, line);
        match st.token {
            Some(t) => {
                assert(whole == seq![t] + rest);
                assert(whole[0] == t);
                assert(forall|k: int| 0 <= k < rest.len() ==> whole[k + 1] == rest[k]);
            },
            None => {
                assert(whole == rest);
            },
        }
    }
}

/// Line monotonicity: every token of a scan starting on line `line` is
/// stamped with a line at least `line`, and any two adjacent tokens of the
/// output are stamped with non-decreasing lines.
pub proof fn lemma_scan_lines_monotone(src: Seq<char>, i: nat, line: nat)
    requires
        i <= src.len(),
        line <= usize::MAX as nat,
    ensures
        forall|k: int|
            0 <= k < scan_spec(src, i, line).len() ==> line <= scan_spec(src, i, line)[k].line,
        forall|k: int|
            0 <= k && k + 1 < scan_spec(src, i, line).len() ==> #[trigger] scan_spec(
                src,
                i,
                line,
            )[k].line <= scan_spec(src, i, line)[k + 1].line,
    decreases src.len() - i,
{
    if i < src.len() {
        lemma_step_in_range(src, i, line);
        let st = step_spec(src, i, line);
        lemma_scan_lines_monotone(src, st.next, st.line);
        let rest = scan_spec(src, st.next, st.line);
        let whole = scan_spec(src, i, line);
        match st.token {
            Some(t) => {
                assert(whole == seq![t] + rest);
                assert(whole[0] == t);
                assert(forall|k: int| 0 <= k < rest.len() ==> whole[k + 1] == rest[k]);
                assert(rest.len() >= 1) by {
                    lemma_scan_totality(src, st.next, st.line);
                }
                assert(t.line <= rest[0].line);
            },
            None => {
                assert(whole == rest);
            },
        }
    }
}

} // verus!
