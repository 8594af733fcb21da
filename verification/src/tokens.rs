use vstd::prelude::*;

verus! {

/// The lexical category of a token: a closed set of punctuation, operators,
/// literal kinds, reserved words, and exactly one end-of-input marker.
#[derive(Debug, Clone, Copy, PartialEq, Eq, Structural)]
pub enum TokenType {
    // Single-character punctuation
    LeftParen,
    RightParen,
    LeftBrace,
    RightBrace,
    Comma,
    Dot,
    Minus,
    Plus,
    SemiColon,
    Slash,
    Star,
    // One- or two-character operators
    Bang,
    BangEqual,
    Equal,
    EqualEqual,
    Greater,
    GreaterEqual,
    LessEqual,
    Less,
    // Literals
    Identifier,
    String,
    Number,
    // Reserved words
    And,
    Class,
    Else,
    False,
    Fun,
    For,
    If,
    Nil,
    Or,
    Print,
    Return,
    Super,
    This,
    True,
    Var,
    While,
    // End of input
    Eof,
}

/// The mathematical value of a token: its category, the exact source
/// characters the lexeme was matched from, and the 1-based line on which
/// the lexeme starts.
#[verifier::ext_equal]
pub ghost struct TokenModel {
    pub token_type: TokenType,
    pub lexeme: Seq<char>,
    pub line: nat,
}

/// A lexeme tagged with its lexical category and the 1-based source line on
/// which it starts.
#[derive(Debug)]
pub struct Token {
    pub token_type: TokenType,
    pub lexeme: String,
    pub line: usize,
}

impl View for Token {
    type V = TokenModel;

    open spec fn view(&self) -> TokenModel {
        TokenModel { token_type: self.token_type, lexeme: self.lexeme@, line: self.line as nat }
    }
}

impl Token {
    pub fn create(t: TokenType, lexeme: String, line: usize) -> (r: Self)
        ensures
            r@ == (TokenModel { token_type: t, lexeme: lexeme@, line: line as nat }),
    {
        Token { token_type: t, lexeme, line }
    }
}

/// The models of a sequence of tokens, element for element.
pub open spec fn token_models(ts: Seq<Token>) -> Seq<TokenModel> {
    ts.map_values(|t: Token| t@)
}

/// Mapping a token sequence commutes with appending one token.
pub proof fn lemma_token_models_push(ts: Seq<Token>, t: Token)
    ensures
        token_models(ts.push(t)) == token_models(ts) + seq![t@],
{
    assert(token_models(ts.push(t)) =~= token_models(ts) + seq![t@]);
}

} // verus!
