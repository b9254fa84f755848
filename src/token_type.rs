use vstd::prelude::*;

verus! {

/// The kind of a lexical unit.
#[derive(Clone, Copy, PartialEq, Eq, Debug, Structural)]
pub enum TokenType {
    LEFTPAREN,
    RIGHTPAREN,
    LEFTBRACE,
    RIGHTBRACE,
    COMMA,
    DOT,
    MINUS,
    PLUS,
    SEMICOLON,
    SLASH,
    STAR,
    BANG,
    QUESTION,
    COLON,
    BANGEQUAL,
    EQUAL,
    EQUALEQUAL,
    GREATER,
    GREATEREQUAL,
    LESS,
    LESSEQUAL,
    IDENTIFIER,
    STRING,
    NUMBER,
    AND,
    CLASS,
    ELSE,
    FALSE,
    FUN,
    FOR,
    IF,
    NIL,
    OR,
    PRINT,
    RETURN,
    SUPER,
    THIS,
    TRUE,
    VAR,
    WHILE,
    EOF,
}

/// The name of a kind, as tokens are shown.
pub open spec fn kind_name(k: TokenType) -> Seq<char> {
    match k {
        TokenType::LEFTPAREN => "LEFTPAREN"@,
        TokenType::RIGHTPAREN => "RIGHTPAREN"@,
        TokenType::LEFTBRACE => "LEFTBRACE"@,
        TokenType::RIGHTBRACE => "RIGHTBRACE"@,
        TokenType::COMMA => "COMMA"@,
        TokenType::DOT => "DOT"@,
        TokenType::MINUS => "MINUS"@,
        TokenType::PLUS => "PLUS"@,
        TokenType::SEMICOLON => "SEMICOLON"@,
        TokenType::SLASH => "SLASH"@,
        TokenType::STAR => "STAR"@,
        TokenType::BANG => "BANG"@,
        TokenType::QUESTION => "QUESTION"@,
        TokenType::COLON => "COLON"@,
        TokenType::BANGEQUAL => "BANGEQUAL"@,
        TokenType::EQUAL => "EQUAL"@,
        TokenType::EQUALEQUAL => "EQUALEQUAL"@,
        TokenType::GREATER => "GREATER"@,
        TokenType::GREATEREQUAL => "GREATEREQUAL"@,
        TokenType::LESS => "LESS"@,
        TokenType::LESSEQUAL => "LESSEQUAL"@,
        TokenType::IDENTIFIER => "IDENTIFIER"@,
        TokenType::STRING => "STRING"@,
        TokenType::NUMBER => "NUMBER"@,
        TokenType::AND => "AND"@,
        TokenType::CLASS => "CLASS"@,
        TokenType::ELSE => "ELSE"@,
        TokenType::FALSE => "FALSE"@,
        TokenType::FUN => "FUN"@,
        TokenType::FOR => "FOR"@,
        TokenType::IF => "IF"@,
        TokenType::NIL => "NIL"@,
        TokenType::OR => "OR"@,
        TokenType::PRINT => "PRINT"@,
        TokenType::RETURN => "RETURN"@,
        TokenType::SUPER => "SUPER"@,
        TokenType::THIS => "THIS"@,
        TokenType::TRUE => "TRUE"@,
        TokenType::VAR => "VAR"@,
        TokenType::WHILE => "WHILE"@,
        TokenType::EOF => "EOF"@,
    }
}

impl TokenType {
    /// The name of the kind.
    pub fn name(&self) -> (r: String)
        ensures
            r@ == kind_name(*self),
    {
        let s: &str = match self {
            TokenType::LEFTPAREN => "LEFTPAREN",
            TokenType::RIGHTPAREN => "RIGHTPAREN",
            TokenType::LEFTBRACE => "LEFTBRACE",
            TokenType::RIGHTBRACE => "RIGHTBRACE",
            TokenType::COMMA => "COMMA",
            TokenType::DOT => "DOT",
            TokenType::MINUS => "MINUS",
            TokenType::PLUS => "PLUS",
            TokenType::SEMICOLON => "SEMICOLON",
            TokenType::SLASH => "SLASH",
            TokenType::STAR => "STAR",
            TokenType::BANG => "BANG",
            TokenType::QUESTION => "QUESTION",
            TokenType::COLON => "COLON",
            TokenType::BANGEQUAL => "BANGEQUAL",
            TokenType::EQUAL => "EQUAL",
            TokenType::EQUALEQUAL => "EQUALEQUAL",
            TokenType::GREATER => "GREATER",
            TokenType::GREATEREQUAL => "GREATEREQUAL",
            TokenType::LESS => "LESS",
            TokenType::LESSEQUAL => "LESSEQUAL",
            TokenType::IDENTIFIER => "IDENTIFIER",
            TokenType::STRING => "STRING",
            TokenType::NUMBER => "NUMBER",
            TokenType::AND => "AND",
            TokenType::CLASS => "CLASS",
            TokenType::ELSE => "ELSE",
            TokenType::FALSE => "FALSE",
            TokenType::FUN => "FUN",
            TokenType::FOR => "FOR",
            TokenType::IF => "IF",
            TokenType::NIL => "NIL",
            TokenType::OR => "OR",
            TokenType::PRINT => "PRINT",
            TokenType::RETURN => "RETURN",
            TokenType::SUPER => "SUPER",
            TokenType::THIS => "THIS",
            TokenType::TRUE => "TRUE",
            TokenType::VAR => "VAR",
            TokenType::WHILE => "WHILE",
            TokenType::EOF => "EOF",
        };
        s.to_string()
    }
}

} // verus!
