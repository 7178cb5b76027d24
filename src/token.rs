use vstd::prelude::*;
use vstd::string::*;

verus! {

/// A classified lexical unit with its literal text.
#[derive(Clone, Debug, PartialEq, Eq)]
pub enum Token {
    /// No token yet: the value an expression starts from.
    Unset,
    Eof(String),
    Ws(String),
    Join(String),
    Sign(String),
    Identifier(String),
    Number(String),
    Text(String),
    Group(String),
    Comment(String),
}

impl Default for Token {
    fn default() -> (r: Token)
        ensures
            r is Unset,
    {
        Token::Unset
    }
}

/// The printed form of a token: `{kind literal}`.
pub open spec fn token_print(t: Token) -> Seq<char> {
    "{"@ + t.kind_text() + " "@ + t.lit() + "}"@
}

impl Token {
    /// The literal text carried by the token (empty for `Unset`).
    pub open spec fn lit(&self) -> Seq<char> {
        match self {
            Token::Unset => ""@,
            Token::Eof(v) => v@,
            Token::Ws(v) => v@,
            Token::Join(v) => v@,
            Token::Sign(v) => v@,
            Token::Identifier(v) => v@,
            Token::Number(v) => v@,
            Token::Text(v) => v@,
            Token::Group(v) => v@,
            Token::Comment(v) => v@,
        }
    }

    /// The name of the token's class.
    pub open spec fn kind_text(&self) -> Seq<char> {
        match self {
            Token::Unset => ""@,
            Token::Eof(_) => "eof"@,
            Token::Ws(_) => "whitespace"@,
            Token::Join(_) => "join"@,
            Token::Sign(_) => "sign"@,
            Token::Identifier(_) => "identifier"@,
            Token::Number(_) => "number"@,
            Token::Text(_) => "text"@,
            Token::Group(_) => "group"@,
            Token::Comment(_) => "comment"@,
        }
    }

    /// Whether the token can stand as an operand of an expression.
    pub open spec fn is_operand(&self) -> bool {
        self is Identifier || self is Text || self is Number
    }

    pub fn kind(&self) -> (r: &'static str)
        ensures
            r@ == self.kind_text(),
    {
        match self {
            Token::Unset => "",
            Token::Eof(_) => "eof",
            Token::Ws(_) => "whitespace",
            Token::Join(_) => "join",
            Token::Sign(_) => "sign",
            Token::Identifier(_) => "identifier",
            Token::Number(_) => "number",
            Token::Text(_) => "text",
            Token::Group(_) => "group",
            Token::Comment(_) => "comment",
        }
    }

    pub fn literal(&self) -> (r: &str)
        ensures
            r@ == self.lit(),
    {
        match self {
            Token::Unset => "",
            Token::Eof(v) => v.as_str(),
            Token::Ws(v) => v.as_str(),
            Token::Join(v) => v.as_str(),
            Token::Sign(v) => v.as_str(),
            Token::Identifier(v) => v.as_str(),
            Token::Number(v) => v.as_str(),
            Token::Text(v) => v.as_str(),
            Token::Group(v) => v.as_str(),
            Token::Comment(v) => v.as_str(),
        }
    }

    /// Prints the token as `{kind literal}`.
    pub fn to_string(&self) -> (r: String)
        ensures
            r@ == token_print(*self),
    {
        let mut s = String::from_str("{");
        s.append(self.kind());
        s.append(" ");
        s.append(self.literal());
        s.append("}");
        s
    }
}

/// The class of a token, as the models of scanning and parsing see it.
pub enum TokKind {
    Unset,
    Eof,
    Ws,
    Join,
    Sign,
    Identifier,
    Number,
    Text,
    Group,
    Comment,
}

/// A token as a mathematical value: its class and its literal text.
pub struct Tok {
    pub kind: TokKind,
    pub lit: Seq<char>,
}

/// The model of a token.
pub open spec fn tok_of(t: Token) -> Tok {
    Tok {
        kind: match t {
            Token::Unset => TokKind::Unset,
            Token::Eof(_) => TokKind::Eof,
            Token::Ws(_) => TokKind::Ws,
            Token::Join(_) => TokKind::Join,
            Token::Sign(_) => TokKind::Sign,
            Token::Identifier(_) => TokKind::Identifier,
            Token::Number(_) => TokKind::Number,
            Token::Text(_) => TokKind::Text,
            Token::Group(_) => TokKind::Group,
            Token::Comment(_) => TokKind::Comment,
        },
        lit: t.lit(),
    }
}

} // verus!
