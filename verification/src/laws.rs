//! General properties of the scan, stated and proved over the scan model
//! that the scanner's contracts are written against.

use crate::error::DiagV;
use crate::scan_spec::count_newlines;
use crate::scan_spec::digit_run_end;
use crate::scan_spec::find_char;
use crate::scan_spec::ident_run_end;
use crate::scan_spec::lemma_find_char;
use crate::scan_spec::lemma_scan_from_unfold;
use crate::scan_spec::lemma_scan_step_in_range;
use crate::scan_spec::lemma_scan_step_line;
use crate::scan_spec::number_end;
use crate::scan_spec::operator_kinds;
use crate::scan_spec::opt_seq;
use crate::scan_spec::scan_from;
use crate::scan_spec::scan_step;
use crate::scan_spec::spec_is_alpha;
use crate::scan_spec::spec_is_blank;
use crate::scan_spec::spec_is_digit;
use crate::scan_spec::spec_keyword;
use crate::scan_spec::spec_scan;
use crate::token::LiteralV;
use crate::token::SpecToken;
use crate::token_type::TokenType;
use vstd::prelude::*;

verus! {

/// Every character position is accounted for.  A step always consumes at
/// least one character and never passes the end of the input (so a scan,
/// which is one step after another, visits every position and
/// terminates), and what a step consumes either is exactly the emitted
/// token's lexeme, or is reported in a diagnostic, or is whitespace, a
/// newline, or a comment — nothing is dropped silently.
pub proof fn lemma_step_classifies(s: Seq<char>, i: int, line: nat)
    requires
        0 <= i < s.len(),
    ensures
        i < scan_step(s, i, line).next <= s.len(),
        ({
            let st = scan_step(s, i, line);
            ||| (st.token matches Some(t) && t.lexeme == s.subrange(i, st.next) && st.diag
                is None)
            ||| (st.diag is Some && st.token is None)
            ||| (st.token is None && st.diag is None && (spec_is_blank(s[i]) || s[i] == '\n' || (
            s[i] == '/' && i + 1 < s.len() && s[i + 1] == '/')))
        }),
{
    lemma_scan_step_in_range(s, i, line);
    if s[i] == '"' {
        lemma_find_char(s, i + 1, '"');
    }
}

/// The end of the step that begins at position `p`, with the line counter
/// the scan has when it reaches `p`.
pub open spec fn step_next(s: Seq<char>, p: int) -> int {
    scan_step(s, p, 1 + count_newlines(s, 0, p)).next
}

/// The positions at which the scan's steps begin, from `i` to the end of
/// the input.
pub open spec fn step_starts(s: Seq<char>, i: int, line: nat) -> Seq<int>
    decreases s.len() - i,
{
    if 0 <= i < s.len() {
        let st = scan_step(s, i, line);
        let next = if i < st.next <= s.len() {
            st.next
        } else {
            i + 1
        };
        seq![i] + step_starts(s, next, st.line)
    } else {
        Seq::<int>::empty()
    }
}

/// The scan tiles the input: started with a synchronized line counter, its
/// steps begin at increasing positions from `i`, each step ends exactly
/// where the following one begins, and the last step ends at the end of
/// the input.
pub proof fn lemma_scan_tiles_input(s: Seq<char>, i: int, line: nat)
    requires
        0 <= i <= s.len(),
        line == 1 + count_newlines(s, 0, i),
    ensures
        ({
            let starts = step_starts(s, i, line);
            &&& (i < s.len() ==> starts.len() > 0 && starts[0] == i)
            &&& (i == s.len() ==> starts.len() == 0)
            &&& forall|k: int| 0 <= k < starts.len() ==> i <= #[trigger] starts[k] < s.len()
            &&& forall|k1: int, k2: int|
                0 <= k1 <= k2 < starts.len() ==> #[trigger] starts[k1] <= #[trigger] starts[k2]
            &&& forall|k: int|
                0 <= k < starts.len() ==> step_next(s, #[trigger] starts[k]) == (if k + 1
                    < starts.len() {
                    starts[k + 1]
                } else {
                    s.len() as int
                })
        }),
    decreases s.len() - i,
{
    if 0 <= i < s.len() {
        lemma_scan_step_in_range(s, i, line);
        lemma_scan_step_line(s, i, line);
        let st = scan_step(s, i, line);
        lemma_scan_tiles_input(s, st.next, st.line);
        let starts = step_starts(s, i, line);
        let rstarts = step_starts(s, st.next, st.line);
        assert(starts == seq![i] + rstarts);
        assert(step_next(s, i) == st.next);
        assert forall|k: int| 0 <= k < starts.len() implies step_next(s, #[trigger] starts[k])
            == (if k + 1 < starts.len() {
            starts[k + 1]
        } else {
            s.len() as int
        }) by {
            if k == 0 {
                if rstarts.len() > 0 {
                    assert(starts[1] == rstarts[0]);
                    assert(rstarts[0] == st.next);
                } else {
                    assert(st.next == s.len());
                }
            } else {
                assert(starts[k] == rstarts[k - 1]);
                if k + 1 < starts.len() {
                    assert(starts[k + 1] == rstarts[k]);
                }
            }
        }
    }
}

/// Every character position is consumed by exactly one step of the scan:
/// some step's span contains it, and no two different steps' spans do.
pub proof fn lemma_position_covered(s: Seq<char>, i: int, line: nat, p: int)
    requires
        0 <= i <= s.len(),
        line == 1 + count_newlines(s, 0, i),
        i <= p < s.len(),
    ensures
        exists|k: int|
            0 <= k < step_starts(s, i, line).len() && (#[trigger] step_starts(s, i, line)[k]) <= p
                < step_next(s, step_starts(s, i, line)[k]),
        forall|k1: int, k2: int|
            (0 <= k1 < step_starts(s, i, line).len() && 0 <= k2 < step_starts(s, i, line).len()
                && (#[trigger] step_starts(s, i, line)[k1]) <= p < step_next(
                s,
                step_starts(s, i, line)[k1],
            ) && (#[trigger] step_starts(s, i, line)[k2]) <= p < step_next(
                s,
                step_starts(s, i, line)[k2],
            )) ==> k1 == k2,
    decreases s.len() - i,
{
    lemma_scan_step_in_range(s, i, line);
    lemma_scan_step_line(s, i, line);
    lemma_scan_tiles_input(s, i, line);
    let st = scan_step(s, i, line);
    let starts = step_starts(s, i, line);
    let rstarts = step_starts(s, st.next, st.line);
    assert(starts == seq![i] + rstarts);
    // existence: either the first step's span holds `p`, or induction past it
    if p < st.next {
        assert(starts[0] <= p < step_next(s, starts[0]));
    } else {
        lemma_position_covered(s, st.next, st.line, p);
        let k0 = choose|k: int|
            0 <= k < rstarts.len() && (#[trigger] rstarts[k]) <= p < step_next(s, rstarts[k]);
        assert(starts[k0 + 1] == rstarts[k0]);
        assert(starts[k0 + 1] <= p < step_next(s, starts[k0 + 1]));
    }
    // uniqueness: spans of distinct steps cannot both hold `p`
    assert forall|k1: int, k2: int|
        (0 <= k1 < starts.len() && 0 <= k2 < starts.len() && (#[trigger] starts[k1]) <= p
            < step_next(s, starts[k1]) && (#[trigger] starts[k2]) <= p < step_next(
            s,
            starts[k2],
        )) implies k1 == k2 by {
        if k1 < k2 {
            assert(step_next(s, starts[k1]) == starts[k1 + 1]);
            assert(starts[k1 + 1] <= starts[k2]);
        }
        if k2 < k1 {
            assert(step_next(s, starts[k2]) == starts[k2 + 1]);
            assert(starts[k2 + 1] <= starts[k1]);
        }
    }
}

/// The starting positions of the tokens that `scan_from(s, i, line)`
/// yields, in the same order.
pub open spec fn token_starts(s: Seq<char>, i: int, line: nat) -> Seq<int>
    decreases s.len() - i,
{
    if 0 <= i < s.len() {
        let st = scan_step(s, i, line);
        let next = if i < st.next <= s.len() {
            st.next
        } else {
            i + 1
        };
        (if st.token is Some {
            seq![i]
        } else {
            Seq::<int>::empty()
        }) + token_starts(s, next, st.line)
    } else {
        Seq::<int>::empty()
    }
}

/// Line numbers are correct: when the scan is started with its line
/// counter synchronized (one more than the newlines before position `i`),
/// every token it yields reports one plus the number of newline characters
/// that precede the token's first character.
pub proof fn lemma_token_lines(s: Seq<char>, i: int, line: nat)
    requires
        0 <= i <= s.len(),
        line == 1 + count_newlines(s, 0, i),
    ensures
        token_starts(s, i, line).len() == scan_from(s, i, line).tokens.len(),
        forall|k: int|
            0 <= k < token_starts(s, i, line).len() ==> {
                &&& i <= #[trigger] token_starts(s, i, line)[k] < s.len()
                &&& scan_from(s, i, line).tokens[k].line == 1 + count_newlines(
                    s,
                    0,
                    token_starts(s, i, line)[k],
                )
            },
    decreases s.len() - i,
{
    if 0 <= i < s.len() {
        lemma_scan_step_in_range(s, i, line);
        lemma_scan_step_line(s, i, line);
        let st = scan_step(s, i, line);
        lemma_token_lines(s, st.next, st.line);
        lemma_scan_from_unfold(s, i, line);
        assert(st.token matches Some(t) ==> t.line == line);
        let starts = token_starts(s, i, line);
        let toks = scan_from(s, i, line).tokens;
        let rstarts = token_starts(s, st.next, st.line);
        let rtoks = scan_from(s, st.next, st.line).tokens;
        assert(toks == opt_seq(st.token) + rtoks);
        assert(starts == (if st.token is Some {
            seq![i]
        } else {
            Seq::<int>::empty()
        }) + rstarts);
        assert forall|k: int| 0 <= k < starts.len() implies {
            &&& i <= #[trigger] starts[k] < s.len()
            &&& toks[k].line == 1 + count_newlines(s, 0, starts[k])
        } by {
            if st.token is Some {
                if k > 0 {
                    assert(starts[k] == rstarts[k - 1]);
                    assert(toks[k] == rtoks[k - 1]);
                }
            } else {
                assert(starts[k] == rstarts[k]);
                assert(toks[k] == rtoks[k]);
            }
        }
    }
}

/// Two-character operators take priority: when `!`, `=`, `<` or `>` is
/// directly followed by `=`, the step emits exactly one token, of the
/// two-character kind, spanning both characters.
pub proof fn lemma_maximal_munch(s: Seq<char>, i: int, line: nat)
    requires
        0 <= i,
        i + 1 < s.len(),
        operator_kinds(s[i]) is Some,
        s[i + 1] == '=',
    ensures
        ({
            let st = scan_step(s, i, line);
            &&& st.next == i + 2
            &&& operator_kinds(s[i]) matches Some(kinds) && st.token == Some(
                SpecToken {
                    kind: kinds.1,
                    lexeme: s.subrange(i, i + 2),
                    literal: LiteralV::Empty,
                    line,
                },
            )
            &&& st.diag is None
        }),
{
}

/// Comments are fully elided, regardless of length: the step consumes
/// everything up to, but not including, the next newline (or to the end of
/// the input) and emits neither a token nor a diagnostic.
pub proof fn lemma_comment_elided(s: Seq<char>, i: int, line: nat)
    requires
        0 <= i,
        i + 1 < s.len(),
        s[i] == '/',
        s[i + 1] == '/',
    ensures
        ({
            let st = scan_step(s, i, line);
            &&& st.token is None
            &&& st.diag is None
            &&& st.line == line
            &&& st.next == find_char(s, i + 2, '\n')
            &&& forall|k: int| i <= k < st.next ==> s[k] != '\n'
        }),
{
    lemma_find_char(s, i + 2, '\n');
}

/// String round-trip: a terminated string literal yields one `STRING`
/// token whose literal is exactly the text strictly between the quotes and
/// whose lexeme includes them, reported at the line of the opening quote.
pub proof fn lemma_string_literal(s: Seq<char>, i: int, line: nat)
    requires
        0 <= i < s.len(),
        s[i] == '"',
        find_char(s, i + 1, '"') < s.len(),
    ensures
        ({
            let st = scan_step(s, i, line);
            let close = find_char(s, i + 1, '"');
            &&& st.next == close + 1
            &&& st.token == Some(
                SpecToken {
                    kind: TokenType::STRING,
                    lexeme: s.subrange(i, close + 1),
                    literal: LiteralV::Text(s.subrange(i + 1, close)),
                    line,
                },
            )
            &&& st.diag is None
        }),
{
}

/// A number token's literal is its exact matched text: the maximal digit
/// run, with a fractional part only when the dot is directly followed by
/// another digit; a trailing bare dot is left unconsumed for the next
/// lexical unit.
pub proof fn lemma_number_literal(s: Seq<char>, i: int, line: nat)
    requires
        0 <= i < s.len(),
        spec_is_digit(s[i]),
    ensures
        ({
            let st = scan_step(s, i, line);
            let end = number_end(s, i);
            &&& st.next == end
            &&& st.token == Some(
                SpecToken {
                    kind: TokenType::NUMBER,
                    lexeme: s.subrange(i, end),
                    literal: LiteralV::Number(s.subrange(i, end)),
                    line,
                },
            )
            &&& st.diag is None
        }),
        ({
            let nd = digit_run_end(s, i);
            (nd < s.len() && s[nd] == '.' && !(nd + 1 < s.len() && spec_is_digit(s[nd + 1])))
                ==> scan_step(s, i, line).next == nd
        }),
{
}

/// Keyword against identifier: an identifier lexeme that exactly matches a
/// reserved word is classified as that keyword, any other identifier
/// lexeme as `IDENTIFIER`; neither carries a literal.
pub proof fn lemma_keyword_vs_identifier(s: Seq<char>, i: int, line: nat)
    requires
        0 <= i < s.len(),
        spec_is_alpha(s[i]),
    ensures
        ({
            let st = scan_step(s, i, line);
            let end = ident_run_end(s, i);
            let text = s.subrange(i, end);
            &&& st.next == end
            &&& st.token == Some(
                SpecToken {
                    kind: (match spec_keyword(text) {
                        Some(k) => k,
                        None => TokenType::IDENTIFIER,
                    }),
                    lexeme: text,
                    literal: LiteralV::Empty,
                    line,
                },
            )
            &&& st.diag is None
        }),
{
}

/// An unterminated string yields no token for the lexeme and exactly one
/// diagnostic, whose message is `unterminated string`, reported at the
/// line where the input ran out; the rest of the input is consumed.
pub proof fn lemma_unterminated_string(s: Seq<char>, i: int, line: nat)
    requires
        0 <= i < s.len(),
        s[i] == '"',
        find_char(s, i + 1, '"') == s.len(),
    ensures
        ({
            let st = scan_step(s, i, line);
            &&& st.token is None
            &&& st.next == s.len()
            &&& st.diag == Some(
                DiagV {
                    line: line + count_newlines(s, i + 1, s.len() as int),
                    message: "unterminated string"@,
                },
            )
        }),
{
}

/// Scanning is a pure function of the source text alone: scans of equal
/// text yield equal token sequences and equal diagnostics, so repeated
/// independent scans of one input agree.
pub proof fn lemma_scan_deterministic(s1: Seq<char>, s2: Seq<char>)
    requires
        s1 == s2,
    ensures
        spec_scan(s1) == spec_scan(s2),
{
}

} // verus!
