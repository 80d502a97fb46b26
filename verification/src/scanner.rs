//! The scanner: a single pass over the source text that produces the token
//! sequence and collects diagnostics for illegal input.

use crate::error::DiagV;
use crate::error::Diagnostic;
use crate::scan_spec::count_newlines;
use crate::scan_spec::digit_run_end;
use crate::scan_spec::find_char;
use crate::scan_spec::ident_run_end;
use crate::scan_spec::lemma_count_newlines_le;
use crate::scan_spec::lemma_count_newlines_split;
use crate::scan_spec::lemma_count_same_step;
use crate::scan_spec::lemma_digit_run_end;
use crate::scan_spec::lemma_find_char;
use crate::scan_spec::lemma_ident_run_end;
use crate::scan_spec::lemma_scan_from_unfold;
use crate::scan_spec::lemma_scan_step_in_range;
use crate::scan_spec::lemma_scan_step_line;
use crate::scan_spec::number_end;
use crate::scan_spec::opt_seq;
use crate::scan_spec::scan_from;
use crate::scan_spec::scan_identifier_step;
use crate::scan_spec::scan_number_step;
use crate::scan_spec::scan_step;
use crate::scan_spec::scan_string_step;
use crate::scan_spec::spec_is_alpha;
use crate::scan_spec::spec_is_alphanumeric;
use crate::scan_spec::spec_is_digit;
use crate::scan_spec::spec_keyword;
use crate::scan_spec::spec_scan;
use crate::token::Literal;
use crate::token::LiteralV;
use crate::token::SpecToken;
use crate::token::Token;
use crate::token_type::TokenType;
use vstd::prelude::*;

verus! {

/// Decimal digit test.
pub fn is_digit(c: char) -> (r: bool)
    ensures
        r == spec_is_digit(c),
{
    let u = c as u32;
    48 <= u && u <= 57
}

/// Identifier start test: an ASCII letter or an underscore.
pub fn is_alpha(c: char) -> (r: bool)
    ensures
        r == spec_is_alpha(c),
{
    let u = c as u32;
    (97 <= u && u <= 122) || (65 <= u && u <= 90) || c == '_'
}

/// Identifier continuation test.
pub fn is_alphanumeric(c: char) -> (r: bool)
    ensures
        r == spec_is_alphanumeric(c),
{
    is_alpha(c) || is_digit(c)
}

/// The views of a sequence of tokens.
pub open spec fn token_views(ts: Seq<Token>) -> Seq<SpecToken> {
    ts.map_values(|t: Token| t@)
}

/// The views of a sequence of diagnostics.
pub open spec fn diag_views(ds: Seq<Diagnostic>) -> Seq<DiagV> {
    ds.map_values(|d: Diagnostic| d@)
}

/// The scanner's cursor state: the source, the tokens and diagnostics
/// produced so far, the first character of the lexeme under construction
/// (`start`), the next unread character (`current`), and the 1-based line
/// the cursor stands on.
pub struct Scanner {
    pub source: String,
    pub tokens: Vec<Token>,
    pub diagnostics: Vec<Diagnostic>,
    pub start: usize,
    pub current: usize,
    pub line: u32,
}

impl Scanner {
    /// The source as a sequence of characters.
    pub open spec fn src(&self) -> Seq<char> {
        self.source@
    }

    /// Cursor well-formedness: the lexeme start never passes the cursor,
    /// the cursor never passes the end of the input, and the input is
    /// short enough for the line counter to stay within `u32`.
    pub open spec fn wf(&self) -> bool {
        &&& self.start <= self.current
        &&& self.current <= self.src().len()
        &&& self.src().len() < u32::MAX as nat
    }

    /// The line counter equals one plus the newlines consumed so far.
    pub open spec fn line_sync(&self) -> bool {
        self.line as nat == 1 + count_newlines(self.src(), 0, self.current as int)
    }

    /// A fresh scanner over `source`, at the first character of line 1.
    pub fn new(source: &str) -> (r: Self)
        requires
            source@.len() < u32::MAX as nat,
        ensures
            r.wf(),
            r.line_sync(),
            r.src() == source@,
            r.tokens@ == Seq::<Token>::empty(),
            r.diagnostics@ == Seq::<Diagnostic>::empty(),
            r.start == 0,
            r.current == 0,
            r.line == 1,
    {
        Scanner {
            source: String::from_str(source),
            tokens: Vec::new(),
            diagnostics: Vec::new(),
            start: 0,
            current: 0,
            line: 1,
        }
    }

    /// Whether the cursor has reached the end of the input.
    pub fn at_end(&self) -> (r: bool)
        ensures
            r == (self.current >= self.src().len()),
    {
        self.current >= self.source.as_str().unicode_len()
    }

    /// Reads the character under the cursor and advances past it; at the
    /// end of the input it reads nothing and stays put.
    fn advance(&mut self) -> (r: Option<char>)
        requires
            old(self).wf(),
        ensures
            final(self).wf(),
            final(self).source == old(self).source,
            final(self).tokens == old(self).tokens,
            final(self).diagnostics == old(self).diagnostics,
            final(self).start == old(self).start,
            final(self).line == old(self).line,
            old(self).current < old(self).src().len() ==> {
                &&& r == Some(old(self).src()[old(self).current as int])
                &&& final(self).current == old(self).current + 1
            },
            old(self).current >= old(self).src().len() ==> {
                &&& r is None
                &&& final(self).current == old(self).current
            },
    {
        let len = self.source.as_str().unicode_len();
        if self.current < len {
            let c = self.source.as_str().get_char(self.current);
            self.current = self.current + 1;
            Some(c)
        } else {
            None
        }
    }

    /// The character under the cursor, without advancing.
    fn peek(&self) -> (r: Option<char>)
        requires
            self.wf(),
        ensures
            self.current < self.src().len() ==> r == Some(self.src()[self.current as int]),
            self.current >= self.src().len() ==> r is None,
    {
        let len = self.source.as_str().unicode_len();
        if self.current < len {
            Some(self.source.as_str().get_char(self.current))
        } else {
            None
        }
    }

    /// The character one past the cursor, without advancing.
    fn peek_next(&self) -> (r: Option<char>)
        requires
            self.wf(),
        ensures
            self.current + 1 < self.src().len() ==> r == Some(
                self.src()[self.current as int + 1],
            ),
            self.current + 1 >= self.src().len() ==> r is None,
    {
        let len = self.source.as_str().unicode_len();
        if self.current < len {
            let n = self.current + 1;
            if n < len {
                Some(self.source.as_str().get_char(n))
            } else {
                None
            }
        } else {
            None
        }
    }

    /// Advances only when the character under the cursor is exactly `c`.
    fn check_and_advance(&mut self, c: char) -> (r: Option<char>)
        requires
            old(self).wf(),
        ensures
            final(self).wf(),
            final(self).source == old(self).source,
            final(self).tokens == old(self).tokens,
            final(self).diagnostics == old(self).diagnostics,
            final(self).start == old(self).start,
            final(self).line == old(self).line,
            (old(self).current < old(self).src().len() && old(self).src()[old(
                self,
            ).current as int] == c) ==> {
                &&& final(self).current == old(self).current + 1
                &&& r == Some(c)
            },
            !(old(self).current < old(self).src().len() && old(self).src()[old(
                self,
            ).current as int] == c) ==> {
                &&& final(self).current == old(self).current
                &&& r is None
            },
    {
        let p = self.peek();
        match p {
            Some(k) => {
                if k == c {
                    self.current = self.current + 1;
                    Some(k)
                } else {
                    None
                }
            },
            None => None,
        }
    }

    /// Appends a token for the lexeme `[start, current)`, reporting it on
    /// line `line`.
    fn add_token_literal_at(&mut self, token_type: TokenType, literal: Literal, line: u32)
        requires
            old(self).wf(),
        ensures
            final(self).wf(),
            final(self).source == old(self).source,
            final(self).diagnostics == old(self).diagnostics,
            final(self).start == old(self).start,
            final(self).current == old(self).current,
            final(self).line == old(self).line,
            token_views(final(self).tokens@) == token_views(old(self).tokens@) + seq![
                (SpecToken {
                    kind: token_type,
                    lexeme: old(self).src().subrange(
                        old(self).start as int,
                        old(self).current as int,
                    ),
                    literal: literal@,
                    line: line as nat,
                }),
            ],
    {
        let lexeme = self.source.as_str().substring_char(self.start, self.current);
        let t = Token::new(token_type, literal, lexeme, line);
        self.tokens.push(t);
        proof {
            assert(token_views(self.tokens@) =~= token_views(old(self).tokens@) + seq![t@]);
        }
    }

    /// Appends a token for the lexeme `[start, current)` on the current
    /// line.
    fn add_token_literal(&mut self, token_type: TokenType, literal: Literal)
        requires
            old(self).wf(),
        ensures
            final(self).wf(),
            final(self).source == old(self).source,
            final(self).diagnostics == old(self).diagnostics,
            final(self).start == old(self).start,
            final(self).current == old(self).current,
            final(self).line == old(self).line,
            token_views(final(self).tokens@) == token_views(old(self).tokens@) + seq![
                (SpecToken {
                    kind: token_type,
                    lexeme: old(self).src().subrange(
                        old(self).start as int,
                        old(self).current as int,
                    ),
                    literal: literal@,
                    line: old(self).line as nat,
                }),
            ],
    {
        let line = self.line;
        self.add_token_literal_at(token_type, literal, line);
    }

    /// Appends a token without a literal payload for the lexeme
    /// `[start, current)` on the current line.
    pub fn add_token(&mut self, token_type: TokenType)
        requires
            old(self).wf(),
        ensures
            final(self).wf(),
            final(self).source == old(self).source,
            final(self).diagnostics == old(self).diagnostics,
            final(self).start == old(self).start,
            final(self).current == old(self).current,
            final(self).line == old(self).line,
            token_views(final(self).tokens@) == token_views(old(self).tokens@) + seq![
                (SpecToken {
                    kind: token_type,
                    lexeme: old(self).src().subrange(
                        old(self).start as int,
                        old(self).current as int,
                    ),
                    literal: LiteralV::Empty,
                    line: old(self).line as nat,
                }),
            ],
    {
        self.add_token_literal(token_type, Literal::Empty);
    }
}

impl Scanner {
    /// Whether the comment being skipped continues at the cursor.
    fn comment_continues(&self) -> (r: bool)
        requires
            self.wf(),
        ensures
            r == (self.current < self.src().len() && self.src()[self.current as int] != '\n'),
    {
        match self.peek() {
            Some(c) => c != '\n',
            None => false,
        }
    }

    /// Whether a digit run continues at the cursor.
    fn digit_continues(&self) -> (r: bool)
        requires
            self.wf(),
        ensures
            r == (self.current < self.src().len() && spec_is_digit(
                self.src()[self.current as int],
            )),
    {
        match self.peek() {
            Some(c) => is_digit(c),
            None => false,
        }
    }

    /// Whether an identifier run continues at the cursor.
    fn ident_continues(&self) -> (r: bool)
        requires
            self.wf(),
        ensures
            r == (self.current < self.src().len() && spec_is_alphanumeric(
                self.src()[self.current as int],
            )),
    {
        match self.peek() {
            Some(c) => is_alphanumeric(c),
            None => false,
        }
    }

    /// Whether a string literal continues at the cursor.
    fn string_continues(&self) -> (r: bool)
        requires
            self.wf(),
        ensures
            r == (self.current < self.src().len() && self.src()[self.current as int] != '"'),
    {
        match self.peek() {
            Some(c) => c != '"',
            None => false,
        }
    }

    /// Skips the rest of a line comment: everything up to, but not
    /// including, the next newline (or the end of the input).
    #[verifier::loop_isolation(false)]
    fn skip_comment(&mut self)
        requires
            old(self).wf(),
        ensures
            final(self).wf(),
            final(self).source == old(self).source,
            final(self).tokens == old(self).tokens,
            final(self).diagnostics == old(self).diagnostics,
            final(self).start == old(self).start,
            final(self).line == old(self).line,
            final(self).current as int == find_char(
                old(self).src(),
                old(self).current as int,
                '\n',
            ),
    {
        let ghost s = self.src();
        let ghost c0 = self.current as int;
        proof {
            lemma_find_char(s, c0, '\n');
        }
        while self.comment_continues()
            invariant
                self.wf(),
                self.source == old(self).source,
                self.tokens == old(self).tokens,
                self.diagnostics == old(self).diagnostics,
                self.start == old(self).start,
                self.line == old(self).line,
                c0 <= self.current as int,
                find_char(s, self.current as int, '\n') == find_char(s, c0, '\n'),
            decreases s.len() - self.current,
        {
            proof {
                assert(find_char(s, self.current as int, '\n') == find_char(
                    s,
                    self.current as int + 1,
                    '\n',
                ));
            }
            self.advance();
        }
    }

    /// Scans the rest of a number lexeme whose first digit, at `start`,
    /// has just been consumed, and appends the `NUMBER` token.
    #[verifier::loop_isolation(false)]
    fn handle_number(&mut self)
        requires
            old(self).wf(),
            old(self).current == old(self).start + 1,
            old(self).start < old(self).src().len(),
            spec_is_digit(old(self).src()[old(self).start as int]),
        ensures
            final(self).wf(),
            final(self).source == old(self).source,
            final(self).diagnostics == old(self).diagnostics,
            final(self).start == old(self).start,
            final(self).line == old(self).line,
            ({
                let st = scan_number_step(
                    old(self).src(),
                    old(self).start as int,
                    old(self).line as nat,
                );
                &&& final(self).current as int == st.next
                &&& token_views(final(self).tokens@) == token_views(old(self).tokens@)
                    + opt_seq(st.token)
            }),
    {
        let ghost s = self.src();
        let ghost i = self.start as int;
        proof {
            lemma_digit_run_end(s, i + 1);
            assert(digit_run_end(s, i) == digit_run_end(s, i + 1));
        }
        let ghost nd = digit_run_end(s, i);
        while self.digit_continues()
            invariant
                self.wf(),
                self.source == old(self).source,
                self.tokens == old(self).tokens,
                self.diagnostics == old(self).diagnostics,
                self.start == old(self).start,
                self.line == old(self).line,
                i < self.current as int,
                digit_run_end(s, self.current as int) == nd,
            decreases s.len() - self.current,
        {
            proof {
                assert(digit_run_end(s, self.current as int) == digit_run_end(
                    s,
                    self.current as int + 1,
                ));
            }
            self.advance();
        }
        proof {
            assert(self.current as int == nd);
        }
        let frac = match (self.peek(), self.peek_next()) {
            (Some(d), Some(k)) => d == '.' && is_digit(k),
            _ => false,
        };
        if frac {
            self.advance();  // the '.'
            proof {
                lemma_digit_run_end(s, nd + 2);
                assert(digit_run_end(s, nd + 1) == digit_run_end(s, nd + 2));
            }
            let ghost fd = digit_run_end(s, nd + 1);
            while self.digit_continues()
                invariant
                    self.wf(),
                    self.source == old(self).source,
                    self.tokens == old(self).tokens,
                    self.diagnostics == old(self).diagnostics,
                    self.start == old(self).start,
                    self.line == old(self).line,
                    nd < self.current as int,
                    digit_run_end(s, self.current as int) == fd,
                decreases s.len() - self.current,
            {
                proof {
                    assert(digit_run_end(s, self.current as int) == digit_run_end(
                        s,
                        self.current as int + 1,
                    ));
                }
                self.advance();
            }
            proof {
                assert(self.current as int == fd);
                assert(fd == number_end(s, i));
            }
        } else {
            proof {
                assert(nd == number_end(s, i));
            }
        }
        let text = self.source.as_str().substring_char(self.start, self.current);
        let lit = String::from_str(text);
        self.add_token_literal(TokenType::NUMBER, Literal::NumberLiteral(lit));
    }

    /// Scans the rest of an identifier whose first character, at `start`,
    /// has just been consumed, and appends the keyword or `IDENTIFIER`
    /// token.
    #[verifier::loop_isolation(false)]
    fn handle_identifier(&mut self)
        requires
            old(self).wf(),
            old(self).current == old(self).start + 1,
            old(self).start < old(self).src().len(),
            spec_is_alpha(old(self).src()[old(self).start as int]),
        ensures
            final(self).wf(),
            final(self).source == old(self).source,
            final(self).diagnostics == old(self).diagnostics,
            final(self).start == old(self).start,
            final(self).line == old(self).line,
            ({
                let st = scan_identifier_step(
                    old(self).src(),
                    old(self).start as int,
                    old(self).line as nat,
                );
                &&& final(self).current as int == st.next
                &&& token_views(final(self).tokens@) == token_views(old(self).tokens@)
                    + opt_seq(st.token)
            }),
    {
        let ghost s = self.src();
        let ghost i = self.start as int;
        proof {
            lemma_ident_run_end(s, i + 1);
            assert(ident_run_end(s, i) == ident_run_end(s, i + 1));
        }
        let ghost end = ident_run_end(s, i);
        while self.ident_continues()
            invariant
                self.wf(),
                self.source == old(self).source,
                self.tokens == old(self).tokens,
                self.diagnostics == old(self).diagnostics,
                self.start == old(self).start,
                self.line == old(self).line,
                i < self.current as int,
                ident_run_end(s, self.current as int) == end,
            decreases s.len() - self.current,
        {
            proof {
                assert(ident_run_end(s, self.current as int) == ident_run_end(
                    s,
                    self.current as int + 1,
                ));
            }
            self.advance();
        }
        proof {
            assert(self.current as int == end);
        }
        let text = self.source.as_str().substring_char(self.start, self.current);
        let kind = match keyword_token_type(text) {
            Some(t) => t,
            None => TokenType::IDENTIFIER,
        };
        self.add_token(kind);
    }

    /// Scans the rest of a string literal whose opening quote, at `start`,
    /// has just been consumed: up to the matching quote, counting embedded
    /// newlines, or to the end of the input, recording an unterminated
    /// string diagnostic there.
    #[verifier::loop_isolation(false)]
    fn handle_string(&mut self)
        requires
            old(self).wf(),
            old(self).line_sync(),
            old(self).current == old(self).start + 1,
            old(self).start < old(self).src().len(),
            old(self).src()[old(self).start as int] == '"',
        ensures
            final(self).wf(),
            final(self).line_sync(),
            final(self).source == old(self).source,
            final(self).start == old(self).start,
            ({
                let st = scan_string_step(
                    old(self).src(),
                    old(self).start as int,
                    old(self).line as nat,
                );
                &&& final(self).current as int == st.next
                &&& final(self).line as nat == st.line
                &&& token_views(final(self).tokens@) == token_views(old(self).tokens@)
                    + opt_seq(st.token)
                &&& diag_views(final(self).diagnostics@) == diag_views(old(self).diagnostics@)
                    + opt_seq(st.diag)
            }),
    {
        let ghost s = self.src();
        let ghost i = self.start as int;
        let ghost close = find_char(s, i + 1, '"');
        let line_start = self.line;
        proof {
            lemma_find_char(s, i + 1, '"');
            assert(count_newlines(s, i + 1, i + 1) == 0);
        }
        while self.string_continues()
            invariant
                self.wf(),
                self.line_sync(),
                self.source == old(self).source,
                self.tokens == old(self).tokens,
                self.diagnostics == old(self).diagnostics,
                self.start == old(self).start,
                i + 1 <= self.current as int <= close,
                find_char(s, self.current as int, '"') == close,
                self.line as nat == old(self).line as nat + count_newlines(
                    s,
                    i + 1,
                    self.current as int,
                ),
            decreases s.len() - self.current,
        {
            let ghost cur = self.current as int;
            proof {
                assert(find_char(s, cur, '"') == find_char(s, cur + 1, '"'));
                lemma_count_newlines_le(s, 0, cur);
                lemma_count_newlines_split(s, 0, cur, cur + 1);
                lemma_count_newlines_split(s, i + 1, cur, cur + 1);
                assert(count_newlines(s, cur + 1, cur + 1) == 0);
            }
            let p = self.peek();
            let c = p.unwrap();
            if c == '\n' {
                self.line = self.line + 1;
            }
            self.advance();
        }
        if self.at_end() {
            proof {
                assert(self.current as int == s.len() && close == s.len());
            }
            let msg = String::from_str("unterminated string");
            let line = self.line;
            let d = Diagnostic { line, message: msg };
            self.diagnostics.push(d);
            proof {
                let st = scan_string_step(s, i, old(self).line as nat);
                assert(diag_views(self.diagnostics@) =~= diag_views(old(self).diagnostics@)
                    + opt_seq(st.diag));
                assert(token_views(self.tokens@) =~= token_views(old(self).tokens@) + opt_seq(
                    st.token,
                ));
            }
            return ;
        }
        proof {
            assert(self.current as int == close && close < s.len());
            lemma_count_newlines_split(s, 0, close, close + 1);
            assert(count_newlines(s, close + 1, close + 1) == 0);
            assert(count_newlines(s, close, close + 1) == 0);
        }
        self.advance();  // the closing quote
        let text = self.source.as_str().substring_char(self.start + 1, self.current - 1);
        let lit = String::from_str(text);
        self.add_token_literal_at(TokenType::STRING, Literal::StringLiteral(lit), line_start);
        proof {
            let st = scan_string_step(s, i, old(self).line as nat);
            assert(diag_views(self.diagnostics@) =~= diag_views(old(self).diagnostics@) + opt_seq(
                st.diag,
            ));
        }
    }
}

impl Scanner {
    /// Scans exactly one lexical unit at the cursor, which must stand at
    /// the start of a lexeme within the input: emits at most one token or
    /// diagnostic and advances past what was consumed.
    fn scan_token(&mut self)
        requires
            old(self).wf(),
            old(self).line_sync(),
            old(self).start == old(self).current,
            old(self).current < old(self).src().len(),
        ensures
            final(self).wf(),
            final(self).line_sync(),
            final(self).source == old(self).source,
            final(self).start == old(self).start,
            ({
                let st = scan_step(old(self).src(), old(self).current as int, old(self).line as nat);
                &&& final(self).current as int == st.next
                &&& final(self).line as nat == st.line
                &&& token_views(final(self).tokens@) == token_views(old(self).tokens@)
                    + opt_seq(st.token)
                &&& diag_views(final(self).diagnostics@) == diag_views(old(self).diagnostics@)
                    + opt_seq(st.diag)
            }),
    {
        let ghost s = self.src();
        let ghost i = self.current as int;
        let copt = self.advance();
        let c = copt.unwrap();
        match c {
            '(' => self.add_token(TokenType::LEFT_PAREN),
            ')' => self.add_token(TokenType::RIGHT_PAREN),
            '{' => self.add_token(TokenType::LEFT_BRACE),
            '}' => self.add_token(TokenType::RIGHT_BRACE),
            ',' => self.add_token(TokenType::COMMA),
            '.' => self.add_token(TokenType::DOT),
            '-' => self.add_token(TokenType::MINUS),
            '+' => self.add_token(TokenType::PLUS),
            ';' => self.add_token(TokenType::SEMICOLON),
            '*' => self.add_token(TokenType::STAR),
            '!' => {
                if self.check_and_advance('=').is_some() {
                    self.add_token(TokenType::BANG_EQUAL);
                } else {
                    self.add_token(TokenType::BANG);
                }
            },
            '=' => {
                if self.check_and_advance('=').is_some() {
                    self.add_token(TokenType::EQUAL_EQUAL);
                } else {
                    self.add_token(TokenType::EQUAL);
                }
            },
            '<' => {
                if self.check_and_advance('=').is_some() {
                    self.add_token(TokenType::LESS_EQUAL);
                } else {
                    self.add_token(TokenType::LESS);
                }
            },
            '>' => {
                if self.check_and_advance('=').is_some() {
                    self.add_token(TokenType::GREATER_EQUAL);
                } else {
                    self.add_token(TokenType::GREATER);
                }
            },
            '/' => {
                if self.check_and_advance('/').is_some() {
                    self.skip_comment();
                } else {
                    self.add_token(TokenType::SLASH);
                }
            },
            '"' => {
                proof {
                    lemma_count_same_step(s, i, i + 1);
                }
                self.handle_string();
            },
            ' ' => (),
            '\r' => (),
            '\t' => (),
            '\n' => {
                proof {
                    lemma_count_newlines_le(s, 0, i);
                }
                self.line = self.line + 1;
            },
            _ => {
                if is_digit(c) {
                    self.handle_number();
                } else if is_alpha(c) {
                    self.handle_identifier();
                } else {
                    let msg = String::from_str("unexpected char");
                    let line = self.line;
                    self.diagnostics.push(Diagnostic { line, message: msg });
                }
            },
        }
        proof {
            let st = scan_step(s, i, old(self).line as nat);
            lemma_scan_step_line(s, i, old(self).line as nat);
            assert(token_views(self.tokens@) =~= token_views(old(self).tokens@) + opt_seq(
                st.token,
            ));
            assert(diag_views(self.diagnostics@) =~= diag_views(old(self).diagnostics@) + opt_seq(
                st.diag,
            ));
        }
    }

    /// Scans the remaining input to its end, appending every token and
    /// diagnostic it holds, and returns a copy of the full token list.
    #[verifier::loop_isolation(false)]
    pub fn scan_tokens(&mut self) -> (r: Vec<Token>)
        requires
            old(self).wf(),
            old(self).line_sync(),
        ensures
            final(self).wf(),
            final(self).line_sync(),
            final(self).source == old(self).source,
            final(self).current == final(self).src().len(),
            token_views(final(self).tokens@) == token_views(old(self).tokens@) + scan_from(
                old(self).src(),
                old(self).current as int,
                old(self).line as nat,
            ).tokens,
            diag_views(final(self).diagnostics@) == diag_views(old(self).diagnostics@) + scan_from(
                old(self).src(),
                old(self).current as int,
                old(self).line as nat,
            ).diags,
            r@ == final(self).tokens@,
    {
        let ghost s = self.src();
        let ghost c0 = self.current as int;
        let ghost l0 = self.line as nat;
        while !self.at_end()
            invariant
                self.wf(),
                self.line_sync(),
                self.source == old(self).source,
                token_views(old(self).tokens@) + scan_from(s, c0, l0).tokens == token_views(
                    self.tokens@,
                ) + scan_from(s, self.current as int, self.line as nat).tokens,
                diag_views(old(self).diagnostics@) + scan_from(s, c0, l0).diags == diag_views(
                    self.diagnostics@,
                ) + scan_from(s, self.current as int, self.line as nat).diags,
            decreases self.src().len() - self.current,
        {
            let ghost pre = *self;
            self.start = self.current;
            self.scan_token();
            proof {
                let st = scan_step(s, pre.current as int, pre.line as nat);
                lemma_scan_step_in_range(s, pre.current as int, pre.line as nat);
                lemma_scan_from_unfold(s, pre.current as int, pre.line as nat);
                assert(token_views(old(self).tokens@) + scan_from(s, c0, l0).tokens =~= token_views(
                    self.tokens@,
                ) + scan_from(s, self.current as int, self.line as nat).tokens);
                assert(diag_views(old(self).diagnostics@) + scan_from(s, c0, l0).diags =~= diag_views(
                    self.diagnostics@,
                ) + scan_from(s, self.current as int, self.line as nat).diags);
            }
        }
        proof {
            assert(scan_from(s, self.current as int, self.line as nat).tokens
                == Seq::<SpecToken>::empty());
            assert(token_views(self.tokens@) =~= token_views(old(self).tokens@) + scan_from(
                s,
                c0,
                l0,
            ).tokens);
            assert(diag_views(self.diagnostics@) =~= diag_views(old(self).diagnostics@) + scan_from(
                s,
                c0,
                l0,
            ).diags);
        }
        let mut out: Vec<Token> = Vec::new();
        let mut k: usize = 0;
        while k < self.tokens.len()
            invariant
                k <= self.tokens.len(),
                out@ == self.tokens@.subrange(0, k as int),
            decreases self.tokens.len() - k,
        {
            let t = self.tokens[k].clone();
            out.push(t);
            k = k + 1;
            proof {
                assert(out@ =~= self.tokens@.subrange(0, k as int));
            }
        }
        proof {
            assert(out@ =~= self.tokens@);
        }
        out
    }
}

/// Scans a complete source text: the token sequence it denotes, in source
/// order, and the diagnostics for its illegal input, also in source order.
pub fn run(content: &str) -> (r: (Vec<Token>, Vec<Diagnostic>))
    requires
        content@.len() < u32::MAX as nat,
    ensures
        token_views(r.0@) == spec_scan(content@).tokens,
        diag_views(r.1@) == spec_scan(content@).diags,
{
    let mut scanner = Scanner::new(content);
    let tokens = scanner.scan_tokens();
    proof {
        assert(token_views(tokens@) =~= spec_scan(content@).tokens);
        assert(diag_views(scanner.diagnostics@) =~= spec_scan(content@).diags);
    }
    (tokens, scanner.diagnostics)
}

/// The keyword kind reserved for `ident`, if any; unreserved text gets
/// `None` and is an ordinary identifier.
pub fn keyword_token_type(ident: &str) -> (r: Option<TokenType>)
    ensures
        r == spec_keyword(ident@),
{
    let s = String::from_str(ident);
    if s == String::from_str("and") {
        Some(TokenType::AND)
    } else if s == String::from_str("class") {
        Some(TokenType::CLASS)
    } else if s == String::from_str("else") {
        Some(TokenType::ELSE)
    } else if s == String::from_str("false") {
        Some(TokenType::FALSE)
    } else if s == String::from_str("for") {
        Some(TokenType::FOR)
    } else if s == String::from_str("fun") {
        Some(TokenType::FUN)
    } else if s == String::from_str("if") {
        Some(TokenType::IF)
    } else if s == String::from_str("nil") {
        Some(TokenType::NIL)
    } else if s == String::from_str("or") {
        Some(TokenType::OR)
    } else if s == String::from_str("print") {
        Some(TokenType::PRINT)
    } else if s == String::from_str("return") {
        Some(TokenType::RETURN)
    } else if s == String::from_str("super") {
        Some(TokenType::SUPER)
    } else if s == String::from_str("this") {
        Some(TokenType::THIS)
    } else if s == String::from_str("true") {
        Some(TokenType::TRUE)
    } else if s == String::from_str("var") {
        Some(TokenType::VAR)
    } else if s == String::from_str("while") {
        Some(TokenType::WHILE)
    } else {
        None
    }
}

} // verus!
