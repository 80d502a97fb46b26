//! Tokens: a classified lexeme, its literal payload, and its source line.

use crate::digits::spec_decimal;
use crate::digits::u32_to_decimal;
use crate::token_type::TokenType;
use crate::token_type::spec_token_type_name;
use vstd::prelude::*;

verus! {

/// The mathematical content of a literal payload.
pub ghost enum LiteralV {
    Number(Seq<char>),
    Text(Seq<char>),
    Empty,
}

/// The tagged literal value attached to a token.
///
/// Every `NUMBER` token carries `NumberLiteral`, every `STRING` token
/// carries `StringLiteral`, and every other token carries `Empty`.  A
/// number literal holds the exact digit text of its lexeme (an integer part
/// and an optional fractional part); the numeric value it denotes is the
/// ordinary base-10 reading of that text, left to the consumer to decode.
#[derive(Debug)]
pub enum Literal {
    NumberLiteral(String),
    StringLiteral(String),
    Empty,
}

impl View for Literal {
    type V = LiteralV;

    open spec fn view(&self) -> LiteralV {
        match self {
            Literal::NumberLiteral(s) => LiteralV::Number(s@),
            Literal::StringLiteral(s) => LiteralV::Text(s@),
            Literal::Empty => LiteralV::Empty,
        }
    }
}

/// The text payload of a string literal, or empty text for the other kinds.
pub open spec fn spec_literal_text(l: LiteralV) -> Seq<char> {
    match l {
        LiteralV::Text(s) => s,
        _ => Seq::<char>::empty(),
    }
}

/// The digit text of a number literal, or empty text for the other kinds.
pub open spec fn spec_literal_number_text(l: LiteralV) -> Seq<char> {
    match l {
        LiteralV::Number(s) => s,
        _ => Seq::<char>::empty(),
    }
}

impl Literal {
    /// Whether the literal carries a payload.
    pub fn is_some(&self) -> (r: bool)
        ensures
            r == !(self@ is Empty),
    {
        !(matches!(self, Literal::Empty))
    }

    /// The text of a string literal; empty for the other kinds.
    pub fn as_str(&self) -> (r: &str)
        ensures
            r@ == spec_literal_text(self@),
    {
        proof {
            reveal_strlit("");
            assert(""@ =~= Seq::<char>::empty());
        }
        match self {
            Literal::StringLiteral(s) => s.as_str(),
            _ => "",
        }
    }

    /// The digit text of a number literal; empty for the other kinds.
    pub fn number_text(&self) -> (r: &str)
        ensures
            r@ == spec_literal_number_text(self@),
    {
        proof {
            reveal_strlit("");
            assert(""@ =~= Seq::<char>::empty());
        }
        match self {
            Literal::NumberLiteral(s) => s.as_str(),
            _ => "",
        }
    }
}

impl Clone for Literal {
    fn clone(&self) -> (r: Self)
        ensures
            r == *self,
    {
        match self {
            Literal::NumberLiteral(s) => Literal::NumberLiteral(s.clone()),
            Literal::StringLiteral(s) => Literal::StringLiteral(s.clone()),
            Literal::Empty => Literal::Empty,
        }
    }
}

/// The mathematical content of a token.
pub ghost struct SpecToken {
    pub kind: TokenType,
    pub lexeme: Seq<char>,
    pub literal: LiteralV,
    pub line: nat,
}

/// One scanned token: its category, the exact slice of source text it was
/// scanned from, its literal payload, and the 1-based line on which its
/// first character stands.
#[derive(Debug)]
pub struct Token {
    pub token_type: TokenType,
    pub lexeme: String,
    pub literal: Literal,
    pub line: u32,
}

impl View for Token {
    type V = SpecToken;

    open spec fn view(&self) -> SpecToken {
        SpecToken {
            kind: self.token_type,
            lexeme: self.lexeme@,
            literal: self.literal@,
            line: self.line as nat,
        }
    }
}

/// A token rendered as `<KIND> <lexeme> <line>`.
pub open spec fn spec_token_display(t: SpecToken) -> Seq<char> {
    spec_token_type_name(t.kind) + " "@ + t.lexeme + " "@ + spec_decimal(t.line)
}

impl Token {
    /// Builds a token from its parts.
    pub fn new(token_type: TokenType, literal: Literal, lexeme: &str, line: u32) -> (r: Self)
        ensures
            r@ == (SpecToken {
                kind: token_type,
                lexeme: lexeme@,
                literal: literal@,
                line: line as nat,
            }),
    {
        Token { token_type, lexeme: String::from_str(lexeme), literal, line }
    }

    /// The token's lexical category.
    pub fn get_type(&self) -> (r: TokenType)
        ensures
            r == self@.kind,
    {
        self.token_type
    }

    /// The exact source text the token was scanned from.
    pub fn get_lexeme(&self) -> (r: &String)
        ensures
            r@ == self@.lexeme,
    {
        &self.lexeme
    }

    /// The 1-based line on which the token's first character stands.
    pub fn get_line(&self) -> (r: u32)
        ensures
            r as nat == self@.line,
    {
        self.line
    }

    /// Renders the token as `<KIND> <lexeme> <line>`.
    pub fn to_display_string(&self) -> (r: String)
        ensures
            r@ == spec_token_display(self@),
    {
        let mut s = self.token_type.name();
        s.append(" ");
        s.append(self.lexeme.as_str());
        s.append(" ");
        let num = u32_to_decimal(self.line);
        s.append(num.as_str());
        proof {
            assert(s@ =~= spec_token_display(self@));
        }
        s
    }
}

impl Clone for Token {
    fn clone(&self) -> (r: Self)
        ensures
            r == *self,
    {
        Token {
            token_type: self.token_type,
            lexeme: self.lexeme.clone(),
            literal: self.literal.clone(),
            line: self.line,
        }
    }
}

} // verus!
