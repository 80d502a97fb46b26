//! The mathematical model of the scan: character classes, lexeme
//! boundaries, and the step-by-step meaning of scanning, against which the
//! executable scanner is proved.

use crate::error::DiagV;
use crate::token::LiteralV;
use crate::token::SpecToken;
use crate::token_type::TokenType;
use vstd::prelude::*;

verus! {

/// Decimal digit.
pub open spec fn spec_is_digit(c: char) -> bool {
    48 <= c as u32 && c as u32 <= 57
}

/// Identifier start: an ASCII letter or an underscore.
pub open spec fn spec_is_alpha(c: char) -> bool {
    (97 <= c as u32 && c as u32 <= 122) || (65 <= c as u32 && c as u32 <= 90) || c == '_'
}

/// Identifier continuation: a letter, an underscore, or a digit.
pub open spec fn spec_is_alphanumeric(c: char) -> bool {
    spec_is_alpha(c) || spec_is_digit(c)
}

/// Horizontal whitespace: space, carriage return, or tab.
pub open spec fn spec_is_blank(c: char) -> bool {
    c == ' ' || c == '\r' || c == '\t'
}

/// The keyword kind reserved for `s`, if any; case-sensitive exact match.
pub open spec fn spec_keyword(s: Seq<char>) -> Option<TokenType> {
    if s == "and"@ {
        Some(TokenType::AND)
    } else if s == "class"@ {
        Some(TokenType::CLASS)
    } else if s == "else"@ {
        Some(TokenType::ELSE)
    } else if s == "false"@ {
        Some(TokenType::FALSE)
    } else if s == "for"@ {
        Some(TokenType::FOR)
    } else if s == "fun"@ {
        Some(TokenType::FUN)
    } else if s == "if"@ {
        Some(TokenType::IF)
    } else if s == "nil"@ {
        Some(TokenType::NIL)
    } else if s == "or"@ {
        Some(TokenType::OR)
    } else if s == "print"@ {
        Some(TokenType::PRINT)
    } else if s == "return"@ {
        Some(TokenType::RETURN)
    } else if s == "super"@ {
        Some(TokenType::SUPER)
    } else if s == "this"@ {
        Some(TokenType::THIS)
    } else if s == "true"@ {
        Some(TokenType::TRUE)
    } else if s == "var"@ {
        Some(TokenType::VAR)
    } else if s == "while"@ {
        Some(TokenType::WHILE)
    } else {
        None
    }
}

/// The token kind of a single-character punctuation lexeme (`/` is not
/// here: it opens a comment when doubled and is classified separately).
pub open spec fn single_char_kind(c: char) -> Option<TokenType> {
    if c == '(' {
        Some(TokenType::LEFT_PAREN)
    } else if c == ')' {
        Some(TokenType::RIGHT_PAREN)
    } else if c == '{' {
        Some(TokenType::LEFT_BRACE)
    } else if c == '}' {
        Some(TokenType::RIGHT_BRACE)
    } else if c == ',' {
        Some(TokenType::COMMA)
    } else if c == '.' {
        Some(TokenType::DOT)
    } else if c == '-' {
        Some(TokenType::MINUS)
    } else if c == '+' {
        Some(TokenType::PLUS)
    } else if c == ';' {
        Some(TokenType::SEMICOLON)
    } else if c == '*' {
        Some(TokenType::STAR)
    } else {
        None
    }
}

/// For the characters that open a one-or-two-character operator, the pair
/// (kind alone, kind when followed by `=`).
pub open spec fn operator_kinds(c: char) -> Option<(TokenType, TokenType)> {
    if c == '!' {
        Some((TokenType::BANG, TokenType::BANG_EQUAL))
    } else if c == '=' {
        Some((TokenType::EQUAL, TokenType::EQUAL_EQUAL))
    } else if c == '<' {
        Some((TokenType::LESS, TokenType::LESS_EQUAL))
    } else if c == '>' {
        Some((TokenType::GREATER, TokenType::GREATER_EQUAL))
    } else {
        None
    }
}

/// The end of the maximal run of decimal digits starting at `i`.
pub open spec fn digit_run_end(s: Seq<char>, i: int) -> int
    decreases s.len() - i,
{
    if 0 <= i < s.len() && spec_is_digit(s[i]) {
        digit_run_end(s, i + 1)
    } else {
        i
    }
}

/// The end of the maximal run of identifier characters starting at `i`.
pub open spec fn ident_run_end(s: Seq<char>, i: int) -> int
    decreases s.len() - i,
{
    if 0 <= i < s.len() && spec_is_alphanumeric(s[i]) {
        ident_run_end(s, i + 1)
    } else {
        i
    }
}

/// The index of the first occurrence of `c` at or after `i`, or `s.len()`
/// when there is none.
pub open spec fn find_char(s: Seq<char>, i: int, c: char) -> int
    decreases s.len() - i,
{
    if 0 <= i < s.len() {
        if s[i] == c {
            i
        } else {
            find_char(s, i + 1, c)
        }
    } else {
        s.len() as int
    }
}

/// The number of newline characters of `s` at positions `[i, j)`.
pub open spec fn count_newlines(s: Seq<char>, i: int, j: int) -> nat
    decreases j - i,
{
    if i < j {
        (if 0 <= i < s.len() && s[i] == '\n' {
            1nat
        } else {
            0nat
        }) + count_newlines(s, i + 1, j)
    } else {
        0
    }
}

/// The effect of scanning one lexical unit at position `i` on line `line`:
/// the position after the unit, the line after it, and the token or
/// diagnostic it produces, if any.
pub ghost struct SpecStep {
    pub next: int,
    pub line: nat,
    pub token: Option<SpecToken>,
    pub diag: Option<DiagV>,
}

/// A step that only consumes characters.
pub open spec fn step_skip(next: int, line: nat) -> SpecStep {
    SpecStep { next, line, token: None, diag: None }
}

/// A step that emits one token and keeps the line.
pub open spec fn step_token(
    s: Seq<char>,
    i: int,
    next: int,
    line: nat,
    kind: TokenType,
    literal: LiteralV,
) -> SpecStep {
    SpecStep {
        next,
        line,
        token: Some(SpecToken { kind, lexeme: s.subrange(i, next), literal, line }),
        diag: None,
    }
}

/// A string literal opened by the `"` at `i`: up to the matching quote if
/// one exists, else a diagnostic at the line where the input ran out.
/// Newlines inside the literal advance the line counter; the token itself
/// reports the line of its opening quote.
pub open spec fn scan_string_step(s: Seq<char>, i: int, line: nat) -> SpecStep
    recommends
        0 <= i < s.len(),
        s[i] == '"',
{
    let close = find_char(s, i + 1, '"');
    if close < s.len() {
        SpecStep {
            next: close + 1,
            line: line + count_newlines(s, i + 1, close),
            token: Some(
                SpecToken {
                    kind: TokenType::STRING,
                    lexeme: s.subrange(i, close + 1),
                    literal: LiteralV::Text(s.subrange(i + 1, close)),
                    line,
                },
            ),
            diag: None,
        }
    } else {
        let end_line = line + count_newlines(s, i + 1, s.len() as int);
        SpecStep {
            next: s.len() as int,
            line: end_line,
            token: None,
            diag: Some(DiagV { line: end_line, message: "unterminated string"@ }),
        }
    }
}

/// The end of the number lexeme whose first digit stands at `i`: the
/// maximal digit run, then a fractional part only when a `.` is directly
/// followed by another digit.  A trailing `.` is left unconsumed.
pub open spec fn number_end(s: Seq<char>, i: int) -> int
    recommends
        0 <= i < s.len(),
        spec_is_digit(s[i]),
{
    let nd = digit_run_end(s, i);
    if nd < s.len() && s[nd] == '.' && nd + 1 < s.len() && spec_is_digit(s[nd + 1]) {
        digit_run_end(s, nd + 1)
    } else {
        nd
    }
}

/// A number literal: its literal payload is the exact matched text.
pub open spec fn scan_number_step(s: Seq<char>, i: int, line: nat) -> SpecStep
    recommends
        0 <= i < s.len(),
        spec_is_digit(s[i]),
{
    let end = number_end(s, i);
    step_token(s, i, end, line, TokenType::NUMBER, LiteralV::Number(s.subrange(i, end)))
}

/// An identifier or keyword: the maximal alphanumeric run, classified by
/// the keyword table.
pub open spec fn scan_identifier_step(s: Seq<char>, i: int, line: nat) -> SpecStep
    recommends
        0 <= i < s.len(),
        spec_is_alpha(s[i]),
{
    let end = ident_run_end(s, i);
    let kind = match spec_keyword(s.subrange(i, end)) {
        Some(k) => k,
        None => TokenType::IDENTIFIER,
    };
    step_token(s, i, end, line, kind, LiteralV::Empty)
}

/// One lexical unit scanned at position `i` on line `line`.
pub open spec fn scan_step(s: Seq<char>, i: int, line: nat) -> SpecStep
    recommends
        0 <= i < s.len(),
{
    let c = s[i];
    match single_char_kind(c) {
        Some(kind) => step_token(s, i, i + 1, line, kind, LiteralV::Empty),
        None => match operator_kinds(c) {
            Some(kinds) => {
                if i + 1 < s.len() && s[i + 1] == '=' {
                    step_token(s, i, i + 2, line, kinds.1, LiteralV::Empty)
                } else {
                    step_token(s, i, i + 1, line, kinds.0, LiteralV::Empty)
                }
            },
            None => {
                if c == '/' {
                    if i + 1 < s.len() && s[i + 1] == '/' {
                        step_skip(find_char(s, i + 2, '\n'), line)
                    } else {
                        step_token(s, i, i + 1, line, TokenType::SLASH, LiteralV::Empty)
                    }
                } else if spec_is_blank(c) {
                    step_skip(i + 1, line)
                } else if c == '\n' {
                    step_skip(i + 1, line + 1)
                } else if c == '"' {
                    scan_string_step(s, i, line)
                } else if spec_is_digit(c) {
                    scan_number_step(s, i, line)
                } else if spec_is_alpha(c) {
                    scan_identifier_step(s, i, line)
                } else {
                    SpecStep {
                        next: i + 1,
                        line,
                        token: None,
                        diag: Some(DiagV { line, message: "unexpected char"@ }),
                    }
                }
            },
        },
    }
}

/// Everything a scan produces: the tokens and the diagnostics, each in
/// source order.
pub ghost struct SpecScan {
    pub tokens: Seq<SpecToken>,
    pub diags: Seq<DiagV>,
}

/// An option as a sequence of zero or one elements.
pub open spec fn opt_seq<A>(o: Option<A>) -> Seq<A> {
    match o {
        Some(a) => seq![a],
        None => Seq::<A>::empty(),
    }
}

/// The scan of `s` from position `i` on line `line`, one step after
/// another until the input is exhausted.  (The inner adjustment of `next`
/// only serves termination; `lemma_scan_step_in_range` shows a step always
/// advances, so the adjusted value equals `scan_step(s, i, line).next`.)
pub open spec fn scan_from(s: Seq<char>, i: int, line: nat) -> SpecScan
    decreases s.len() - i,
{
    if 0 <= i < s.len() {
        let st = scan_step(s, i, line);
        let next = if i < st.next <= s.len() {
            st.next
        } else {
            i + 1
        };
        let rest = scan_from(s, next, st.line);
        SpecScan { tokens: opt_seq(st.token) + rest.tokens, diags: opt_seq(st.diag) + rest.diags }
    } else {
        SpecScan { tokens: Seq::<SpecToken>::empty(), diags: Seq::<DiagV>::empty() }
    }
}

/// The full scan of a source text, starting at its first character on
/// line 1.
pub open spec fn spec_scan(s: Seq<char>) -> SpecScan {
    scan_from(s, 0, 1)
}

/// A digit run ends within the input, contains digits only, and stops at
/// the first non-digit.
pub proof fn lemma_digit_run_end(s: Seq<char>, i: int)
    requires
        0 <= i <= s.len(),
    ensures
        i <= digit_run_end(s, i) <= s.len(),
        forall|k: int| i <= k < digit_run_end(s, i) ==> spec_is_digit(s[k]),
        digit_run_end(s, i) < s.len() ==> !spec_is_digit(s[digit_run_end(s, i)]),
    decreases s.len() - i,
{
    if i < s.len() && spec_is_digit(s[i]) {
        lemma_digit_run_end(s, i + 1);
    }
}

/// An identifier run ends within the input, contains identifier characters
/// only, and stops at the first other character.
pub proof fn lemma_ident_run_end(s: Seq<char>, i: int)
    requires
        0 <= i <= s.len(),
    ensures
        i <= ident_run_end(s, i) <= s.len(),
        forall|k: int| i <= k < ident_run_end(s, i) ==> spec_is_alphanumeric(s[k]),
        ident_run_end(s, i) < s.len() ==> !spec_is_alphanumeric(s[ident_run_end(s, i)]),
    decreases s.len() - i,
{
    if i < s.len() && spec_is_alphanumeric(s[i]) {
        lemma_ident_run_end(s, i + 1);
    }
}

/// `find_char` lands on the first occurrence, or on `s.len()` when there
/// is none; nothing before it matches.
pub proof fn lemma_find_char(s: Seq<char>, i: int, c: char)
    requires
        0 <= i <= s.len(),
    ensures
        i <= find_char(s, i, c) <= s.len(),
        find_char(s, i, c) < s.len() ==> s[find_char(s, i, c)] == c,
        forall|k: int| i <= k < find_char(s, i, c) ==> s[k] != c,
    decreases s.len() - i,
{
    if i < s.len() && s[i] != c {
        lemma_find_char(s, i + 1, c);
    }
}

/// At most one newline per position.
pub proof fn lemma_count_newlines_le(s: Seq<char>, i: int, j: int)
    requires
        i <= j,
    ensures
        count_newlines(s, i, j) <= j - i,
    decreases j - i,
{
    if i < j {
        lemma_count_newlines_le(s, i + 1, j);
    }
}

/// Counting newlines over `[i, k)` splits at any `j` between.
pub proof fn lemma_count_newlines_split(s: Seq<char>, i: int, j: int, k: int)
    requires
        i <= j <= k,
    ensures
        count_newlines(s, i, k) == count_newlines(s, i, j) + count_newlines(s, j, k),
    decreases j - i,
{
    if i < j {
        lemma_count_newlines_split(s, i + 1, j, k);
    }
}

/// A range without newlines counts none.
pub proof fn lemma_count_newlines_zero(s: Seq<char>, i: int, j: int)
    requires
        i <= j,
        forall|k: int| i <= k < j && 0 <= k < s.len() ==> s[k] != '\n',
    ensures
        count_newlines(s, i, j) == 0,
    decreases j - i,
{
    if i < j {
        lemma_count_newlines_zero(s, i + 1, j);
    }
}

/// Consuming characters none of which is a newline leaves the newline
/// count from the start of the input unchanged.
pub proof fn lemma_count_same_step(s: Seq<char>, i: int, j: int)
    requires
        0 <= i <= j,
        forall|k: int| i <= k < j && 0 <= k < s.len() ==> s[k] != '\n',
    ensures
        count_newlines(s, 0, j) == count_newlines(s, 0, i),
{
    lemma_count_newlines_split(s, 0, i, j);
    lemma_count_newlines_zero(s, i, j);
}

/// Every step consumes at least one character and stays within the input.
pub proof fn lemma_scan_step_in_range(s: Seq<char>, i: int, line: nat)
    requires
        0 <= i < s.len(),
    ensures
        i < scan_step(s, i, line).next <= s.len(),
{
    let c = s[i];
    if single_char_kind(c) is Some {
    } else if operator_kinds(c) is Some {
    } else if c == '/' {
        if i + 1 < s.len() && s[i + 1] == '/' {
            lemma_find_char(s, i + 2, '\n');
        }
    } else if spec_is_blank(c) || c == '\n' {
    } else if c == '"' {
        lemma_find_char(s, i + 1, '"');
    } else if spec_is_digit(c) {
        lemma_number_end(s, i);
    } else if spec_is_alpha(c) {
        lemma_ident_run_end(s, i + 1);
        assert(ident_run_end(s, i) == ident_run_end(s, i + 1));
    } else {
    }
}

/// A number lexeme ends within the input and past its first digit.
pub proof fn lemma_number_end(s: Seq<char>, i: int)
    requires
        0 <= i < s.len(),
        spec_is_digit(s[i]),
    ensures
        i < number_end(s, i) <= s.len(),
{
    lemma_digit_run_end(s, i + 1);
    assert(digit_run_end(s, i) == digit_run_end(s, i + 1));
    let nd = digit_run_end(s, i);
    if nd < s.len() && s[nd] == '.' && nd + 1 < s.len() && spec_is_digit(s[nd + 1]) {
        lemma_digit_run_end(s, nd + 2);
        assert(digit_run_end(s, nd + 1) == digit_run_end(s, nd + 2));
    }
}

/// A step keeps the line counter synchronized with the newlines consumed:
/// if `line` is one more than the newlines before `i`, the line after the
/// step is one more than the newlines before the step's end.
pub proof fn lemma_scan_step_line(s: Seq<char>, i: int, line: nat)
    requires
        0 <= i < s.len(),
        line == 1 + count_newlines(s, 0, i),
    ensures
        scan_step(s, i, line).line == 1 + count_newlines(s, 0, scan_step(s, i, line).next),
{
    let c = s[i];
    let st = scan_step(s, i, line);
    if single_char_kind(c) is Some {
        lemma_count_same_step(s, i, i + 1);
    } else if operator_kinds(c) is Some {
        lemma_count_same_step(s, i, st.next);
    } else if c == '/' {
        if i + 1 < s.len() && s[i + 1] == '/' {
            lemma_find_char(s, i + 2, '\n');
            lemma_count_same_step(s, i, st.next);
            } else {
            lemma_count_same_step(s, i, i + 1);
            }
    } else if spec_is_blank(c) {
        lemma_count_same_step(s, i, i + 1);
    } else if c == '\n' {
        lemma_count_newlines_split(s, 0, i, i + 1);
        assert(count_newlines(s, i + 1, i + 1) == 0);
        assert(count_newlines(s, i, i + 1) == 1);
    } else if c == '"' {
        let close = find_char(s, i + 1, '"');
        lemma_find_char(s, i + 1, '"');
        assert(count_newlines(s, i + 1, i + 1) == 0);
        assert(count_newlines(s, i, i + 1) == 0);
        if close < s.len() {
            lemma_count_newlines_split(s, 0, i + 1, close + 1);
            lemma_count_newlines_split(s, 0, i, i + 1);
            lemma_count_newlines_split(s, i + 1, close, close + 1);
            assert(count_newlines(s, close + 1, close + 1) == 0);
            assert(count_newlines(s, close, close + 1) == 0);
        } else {
            lemma_count_newlines_split(s, 0, i + 1, s.len() as int);
            lemma_count_newlines_split(s, 0, i, i + 1);
        }
    } else if spec_is_digit(c) {
        lemma_digit_run_end(s, i + 1);
        assert(digit_run_end(s, i) == digit_run_end(s, i + 1));
        let nd = digit_run_end(s, i);
        if nd < s.len() && s[nd] == '.' && nd + 1 < s.len() && spec_is_digit(s[nd + 1]) {
            lemma_digit_run_end(s, nd + 2);
            assert(digit_run_end(s, nd + 1) == digit_run_end(s, nd + 2));
        }
        lemma_count_same_step(s, i, st.next);
    } else if spec_is_alpha(c) {
        lemma_ident_run_end(s, i + 1);
        assert(ident_run_end(s, i) == ident_run_end(s, i + 1));
        lemma_count_same_step(s, i, st.next);
    } else {
        lemma_count_same_step(s, i, i + 1);
    }
}

/// Unfolds one step of `scan_from`: since a step always advances, the
/// termination adjustment inside the definition never applies.
pub proof fn lemma_scan_from_unfold(s: Seq<char>, i: int, line: nat)
    requires
        0 <= i < s.len(),
    ensures
        ({
            let st = scan_step(s, i, line);
            scan_from(s, i, line) == (SpecScan {
                tokens: opt_seq(st.token) + scan_from(s, st.next, st.line).tokens,
                diags: opt_seq(st.diag) + scan_from(s, st.next, st.line).diags,
            })
        }),
{
    lemma_scan_step_in_range(s, i, line);
}

} // verus!
