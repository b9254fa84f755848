use vstd::prelude::*;
use crate::error::ScanError;
use crate::number::{copy_range, is_digit};
use crate::text::{alnum_class, chars_to_string, is_alphanumeric, lit_chars, to_uppercase, upper_of};
use crate::token::Token;
use crate::token_type::TokenType;

verus! {

/// A token as the contracts see it.
pub struct TokV {
    pub kind: TokenType,
    pub line: int,
    pub text: Option<Seq<char>>,
}

pub open spec fn tok_view(t: Token) -> TokV {
    TokV {
        kind: t.kind,
        line: t.line as int,
        text: match t.value {
            Some(s) => Some(s@),
            None => None,
        },
    }
}

pub open spec fn toks_view(ts: Seq<Token>) -> Seq<TokV> {
    Seq::new(ts.len(), |i: int| tok_view(ts[i]))
}

pub open spec fn errs_view(es: Seq<ScanError>) -> Seq<(int, Seq<char>)> {
    Seq::new(es.len(), |i: int| (es[i].line as int, es[i].message@))
}

/// The character at `j`, or `'\0'` past the end.
pub open spec fn char_at(src: Seq<char>, j: int) -> char {
    if 0 <= j < src.len() { src[j] } else { '\0' }
}

pub open spec fn is_letter(c: char) -> bool {
    'a' <= c <= 'z' || 'A' <= c <= 'Z'
}

/// The end of the run of digits that starts at `j`.
pub open spec fn digits_end(src: Seq<char>, j: int) -> int
    decreases src.len() - j,
{
    if 0 <= j < src.len() && is_digit(src[j]) { digits_end(src, j + 1) } else { j }
}

/// The end of the run of alphanumeric characters that starts at `j`.
pub open spec fn word_end(src: Seq<char>, j: int) -> int
    decreases src.len() - j,
{
    if 0 <= j < src.len() && alnum_class(src[j]) { word_end(src, j + 1) } else { j }
}

/// The first newline at or after `j`, or the end.
pub open spec fn line_end(src: Seq<char>, j: int) -> int
    decreases src.len() - j,
{
    if 0 <= j < src.len() && src[j] != '\n' { line_end(src, j + 1) } else { j }
}

/// The first '"' at or after `j`, or the end.
pub open spec fn string_end(src: Seq<char>, j: int) -> int
    decreases src.len() - j,
{
    if 0 <= j < src.len() && src[j] != '"' { string_end(src, j + 1) } else { j }
}

pub open spec fn count_newlines(s: Seq<char>) -> int
    decreases s.len(),
{
    if s.len() == 0 {
        0
    } else {
        count_newlines(s.drop_last()) + if s.last() == '\n' { 1int } else { 0int }
    }
}

/// Where a block comment that is `depth` levels deep at `j` ends, the line there, and
/// whether it was closed before the end of input; comments nest.
pub open spec fn comment_end(src: Seq<char>, j: int, depth: nat, line: int) -> (int, int, bool)
    decreases src.len() - j,
{
    if depth == 0 {
        (j, line, true)
    } else if j < 0 || j >= src.len() {
        (j, line, false)
    } else if src[j] == '/' && char_at(src, j + 1) == '*' {
        comment_end(src, j + 2, depth + 1, line)
    } else if src[j] == '*' && char_at(src, j + 1) == '/' {
        comment_end(src, j + 2, (depth - 1) as nat, line)
    } else if src[j] == '\n' {
        comment_end(src, j + 1, depth, line + 1)
    } else {
        comment_end(src, j + 1, depth, line)
    }
}

/// The end of a number lexeme that starts at `i`: digits, then optionally a point
/// followed by at least one digit and the digits after it.
pub open spec fn number_end(src: Seq<char>, i: int) -> int {
    let j = digits_end(src, i);
    if char_at(src, j) == '.' && is_digit(char_at(src, j + 1)) {
        digits_end(src, j + 1)
    } else {
        j
    }
}

/// The kind of a word: its keyword when its upper-case form is one, else IDENTIFIER.
pub open spec fn keyword_kind(s: Seq<char>) -> TokenType {
    if s == "AND"@ {
        TokenType::AND
    } else if s == "CLASS"@ {
        TokenType::CLASS
    } else if s == "ELSE"@ {
        TokenType::ELSE
    } else if s == "FALSE"@ {
        TokenType::FALSE
    } else if s == "FOR"@ {
        TokenType::FOR
    } else if s == "FUN"@ {
        TokenType::FUN
    } else if s == "IF"@ {
        TokenType::IF
    } else if s == "NIL"@ {
        TokenType::NIL
    } else if s == "OR"@ {
        TokenType::OR
    } else if s == "PRINT"@ {
        TokenType::PRINT
    } else if s == "RETURN"@ {
        TokenType::RETURN
    } else if s == "SUPER"@ {
        TokenType::SUPER
    } else if s == "THIS"@ {
        TokenType::THIS
    } else if s == "TRUE"@ {
        TokenType::TRUE
    } else if s == "VAR"@ {
        TokenType::VAR
    } else if s == "WHILE"@ {
        TokenType::WHILE
    } else {
        TokenType::IDENTIFIER
    }
}

/// What one scanning step reads: where the next one starts, the line there, and the
/// token or error it produced, if any.
pub struct StepV {
    pub next: int,
    pub line: int,
    pub tok: Option<TokV>,
    pub err: Option<(int, Seq<char>)>,
}

pub open spec fn emit(next: int, line: int, kind: TokenType) -> StepV {
    StepV { next, line, tok: Some(TokV { kind, line, text: None }), err: None }
}

pub open spec fn skip(next: int, line: int) -> StepV {
    StepV { next, line, tok: None, err: None }
}

/// One step of the scanner at position `i`, on line `line`.
pub open spec fn step(src: Seq<char>, i: int, line: int) -> StepV {
    let c = src[i];
    let n = char_at(src, i + 1);
    if c == '(' {
        emit(i + 1, line, TokenType::LEFTPAREN)
    } else if c == ')' {
        emit(i + 1, line, TokenType::RIGHTPAREN)
    } else if c == '{' {
        emit(i + 1, line, TokenType::LEFTBRACE)
    } else if c == '}' {
        emit(i + 1, line, TokenType::RIGHTBRACE)
    } else if c == ',' {
        emit(i + 1, line, TokenType::COMMA)
    } else if c == '.' {
        emit(i + 1, line, TokenType::DOT)
    } else if c == '-' {
        emit(i + 1, line, TokenType::MINUS)
    } else if c == '+' {
        emit(i + 1, line, TokenType::PLUS)
    } else if c == ';' {
        emit(i + 1, line, TokenType::SEMICOLON)
    } else if c == '*' {
        emit(i + 1, line, TokenType::STAR)
    } else if c == '?' {
        emit(i + 1, line, TokenType::QUESTION)
    } else if c == ':' {
        emit(i + 1, line, TokenType::COLON)
    } else if c == '!' {
        if n == '=' { emit(i + 2, line, TokenType::BANGEQUAL) } else { emit(i + 1, line, TokenType::BANG) }
    } else if c == '=' {
        if n == '=' { emit(i + 2, line, TokenType::EQUALEQUAL) } else { emit(i + 1, line, TokenType::EQUAL) }
    } else if c == '<' {
        if n == '=' { emit(i + 2, line, TokenType::LESSEQUAL) } else { emit(i + 1, line, TokenType::LESS) }
    } else if c == '>' {
        if n == '=' { emit(i + 2, line, TokenType::GREATEREQUAL) } else { emit(i + 1, line, TokenType::GREATER) }
    } else if c == '/' {
        if n == '/' {
            skip(line_end(src, i + 2), line)
        } else if n == '*' {
            let (j, l, closed) = comment_end(src, i + 2, 1, line);
            StepV {
                next: j,
                line: l,
                tok: None,
                err: if closed { None } else { Some((l, "Unterminated block comment."@)) },
            }
        } else {
            emit(i + 1, line, TokenType::SLASH)
        }
    } else if c == ' ' || c == '\r' || c == '\t' {
        skip(i + 1, line)
    } else if c == '\n' {
        skip(i + 1, line + 1)
    } else if c == '"' {
        let j = string_end(src, i + 1);
        let l = line + count_newlines(src.subrange(i + 1, j));
        if j >= src.len() {
            StepV { next: j, line: l, tok: None, err: Some((l, "Unterminated string."@)) }
        } else {
            StepV {
                next: j + 1,
                line: l,
                tok: Some(TokV { kind: TokenType::STRING, line: l, text: Some(src.subrange(i + 1, j)) }),
                err: None,
            }
        }
    } else if is_digit(c) {
        let j = number_end(src, i);
        StepV {
            next: j,
            line,
            tok: Some(TokV { kind: TokenType::NUMBER, line, text: Some(src.subrange(i, j)) }),
            err: None,
        }
    } else if is_letter(c) {
        let j = word_end(src, i + 1);
        let text = src.subrange(i, j);
        let kind = keyword_kind(upper_of(text));
        StepV {
            next: j,
            line,
            tok: Some(TokV { kind, line, text: if kind == TokenType::IDENTIFIER { Some(text) } else { None } }),
            err: None,
        }
    } else {
        StepV { next: i + 1, line, tok: None, err: Some((line, "Unexpected character."@)) }
    }
}

pub open spec fn opt_seq<A>(o: Option<A>) -> Seq<A> {
    match o {
        Some(a) => seq![a],
        None => Seq::empty(),
    }
}

/// The tokens and errors of `src` from position `i` on, ending with the end-of-input token.
pub open spec fn scan_from(src: Seq<char>, i: int, line: int) -> (Seq<TokV>, Seq<(int, Seq<char>)>)
    decreases src.len() - i,
{
    if i < 0 || i >= src.len() {
        (seq![TokV { kind: TokenType::EOF, line, text: None }], Seq::empty())
    } else {
        let st = step(src, i, line);
        if st.next <= i || st.next > src.len() {
            (Seq::empty(), Seq::empty())
        } else {
            let (ts, es) = scan_from(src, st.next, st.line);
            (opt_seq(st.tok) + ts, opt_seq(st.err) + es)
        }
    }
}

/// The tokens and errors of a whole source text, lines counted from 1.
pub open spec fn scan_spec(src: Seq<char>) -> (Seq<TokV>, Seq<(int, Seq<char>)>) {
    scan_from(src, 0, 1)
}

/// Turns source characters into tokens, recording lexical errors as it goes.
pub struct Scanner {
    source: Vec<char>,
    tokens: Vec<Token>,
    errors: Vec<ScanError>,
    start: usize,
    current: usize,
    line: usize,
}

impl Scanner {
    /// The characters being scanned.
    pub closed spec fn source(&self) -> Seq<char> {
        self.source@
    }

    /// Tokens produced so far.
    pub closed spec fn tokens_seen(&self) -> Seq<TokV> {
        toks_view(self.tokens@)
    }

    /// Errors recorded so far.
    pub closed spec fn errors_seen(&self) -> Seq<(int, Seq<char>)> {
        errs_view(self.errors@)
    }

    /// Nothing has been scanned yet.
    pub closed spec fn fresh(&self) -> bool {
        &&& self.current == 0
        &&& self.line == 1
        &&& self.tokens@.len() == 0
        &&& self.errors@.len() == 0
    }

    pub closed spec fn positioned(&self) -> bool {
        &&& self.current <= self.source@.len()
        &&& 1 <= self.line <= self.current + 1
    }

    pub fn new(source: Vec<char>) -> (r: Self)
        ensures
            r.source() == source@,
            r.fresh(),
    {
        let tokens: Vec<Token> = Vec::new();
        let errors: Vec<ScanError> = Vec::new();
        let start: usize = 0;
        let current: usize = 0;
        let line: usize = 1;
        Scanner { source, tokens, errors, start, current, line }
    }

    /// Scans the whole source: its tokens, ending with the end-of-input token, and the
    /// lexical errors met on the way (see `errors`).
    pub fn scan_tokens(&mut self) -> (r: Vec<Token>)
        requires
            old(self).fresh(),
            old(self).source().len() < usize::MAX,
        ensures
            toks_view(r@) == scan_spec(old(self).source()).0,
            final(self).errors_seen() == scan_spec(old(self).source()).1,
            final(self).source() == old(self).source(),
    {
        let ghost src = self.source@;
        proof {
            assert(toks_view(self.tokens@) =~= Seq::<TokV>::empty());
            assert(errs_view(self.errors@) =~= Seq::<(int, Seq<char>)>::empty());
            assert(toks_view(self.tokens@) + scan_from(src, 0, 1).0 =~= scan_spec(src).0);
            assert(errs_view(self.errors@) + scan_from(src, 0, 1).1 =~= scan_spec(src).1);
        }
        while !self.is_at_end()
            invariant
                self.source@ == src,
                src.len() < usize::MAX,
                self.positioned(),
                toks_view(self.tokens@) + scan_from(src, self.current as int, self.line as int).0
                    == scan_spec(src).0,
                errs_view(self.errors@) + scan_from(src, self.current as int, self.line as int).1
                    == scan_spec(src).1,
            decreases src.len() - self.current,
        {
            self.start = self.current;
            let ghost t0 = toks_view(self.tokens@);
            let ghost e0 = errs_view(self.errors@);
            let ghost i = self.current as int;
            let ghost l = self.line as int;
            self.scan();
            proof {
                let st = step(src, i, l);
                assert(toks_view(self.tokens@) =~= t0 + opt_seq(st.tok));
                assert(errs_view(self.errors@) =~= e0 + opt_seq(st.err));
                assert(t0 + scan_from(src, i, l).0 =~= toks_view(self.tokens@) + scan_from(src, st.next, st.line).0);
                assert(e0 + scan_from(src, i, l).1 =~= errs_view(self.errors@) + scan_from(src, st.next, st.line).1);
            }
        }
        let ghost t0 = toks_view(self.tokens@);
        self.tokens.push(Token::new(TokenType::EOF, self.line, None));
        proof {
            assert(toks_view(self.tokens@) =~= t0 + scan_from(src, self.current as int, self.line as int).0);
            assert(errs_view(self.errors@) =~= errs_view(self.errors@) + scan_from(src, self.current as int, self.line as int).1);
        }
        let mut out: Vec<Token> = Vec::new();
        std::mem::swap(&mut out, &mut self.tokens);
        out
    }

    /// The lexical errors recorded so far.
    pub fn errors(&self) -> (r: Vec<ScanError>)
        ensures
            errs_view(r@) == self.errors_seen(),
    {
        let mut r: Vec<ScanError> = Vec::new();
        let mut i: usize = 0;
        while i < self.errors.len()
            invariant
                i <= self.errors@.len(),
                r@.len() == i,
                forall|j: int| 0 <= j < i ==> #[trigger] r@[j].line == self.errors@[j].line
                    && r@[j].message@ == self.errors@[j].message@,
            decreases self.errors@.len() - i,
        {
            let e = &self.errors[i];
            let m = e.message.clone();
            r.push(ScanError { line: e.line, message: m });
            i += 1;
        }
        proof {
            assert(errs_view(r@) =~= errs_view(self.errors@));
        }
        r
    }

    fn is_at_end(&self) -> (r: bool)
        ensures
            r == (self.current >= self.source@.len()),
    {
        self.current >= self.source.len()
    }

    fn advance(&mut self) -> (r: char)
        requires
            old(self).current < old(self).source@.len(),
        ensures
            r == old(self).source@[old(self).current as int],
            final(self).current == old(self).current + 1,
            final(self).source == old(self).source,
            final(self).tokens == old(self).tokens,
            final(self).errors == old(self).errors,
            final(self).line == old(self).line,
    {
        let n = self.source.len();
        let c = self.source[self.current];
        self.current = self.current + 1;
        c
    }

    fn peek(&self) -> (r: char)
        ensures
            r == char_at(self.source@, self.current as int),
    {
        if self.is_at_end() {
            return '\0';
        }
        self.source[self.current]
    }

    fn peek_next(&self) -> (r: char)
        ensures
            r == char_at(self.source@, self.current + 1),
    {
        if self.current >= self.source.len() || self.current + 1 >= self.source.len() {
            return '\0';
        }
        self.source[self.current + 1]
    }

    fn match_char(&mut self, expected: char) -> (r: bool)
        ensures
            r == (old(self).current < old(self).source@.len() && old(self).source@[old(self).current as int] == expected),
            final(self).current == old(self).current + if r { 1int } else { 0int },
            final(self).source == old(self).source,
            final(self).tokens == old(self).tokens,
            final(self).errors == old(self).errors,
            final(self).line == old(self).line,
    {
        if self.is_at_end() {
            return false;
        }
        let n = self.source.len();
        if self.source[self.current] != expected {
            return false;
        }
        self.current = self.current + 1;
        true
    }

    fn add_token(&mut self, kind: TokenType, value: Option<String>)
        ensures
            final(self).tokens@ == old(self).tokens@.push(Token { kind, line: old(self).line, value }),
            final(self).current == old(self).current,
            final(self).source == old(self).source,
            final(self).errors == old(self).errors,
            final(self).line == old(self).line,
    {
        self.tokens.push(Token::new(kind, self.line, value))
    }

    fn add_error(&mut self, message: &str)
        ensures
            final(self).errors@ == old(self).errors@.push(ScanError { line: old(self).line, message: final(self).errors@.last().message }),
            final(self).errors@.last().message@ == message@,
            final(self).current == old(self).current,
            final(self).source == old(self).source,
            final(self).tokens == old(self).tokens,
            final(self).line == old(self).line,
    {
        self.errors.push(ScanError { line: self.line, message: chars_to_string(&lit_chars(message)) })
    }

    /// Reads one lexeme, or skips blanks and comments, starting at `current`.
    fn scan(&mut self)
        requires
            old(self).positioned(),
            old(self).current < old(self).source@.len(),
            old(self).source@.len() < usize::MAX,
        ensures
            ({
                let st = step(old(self).source@, old(self).current as int, old(self).line as int);
                &&& final(self).current == st.next
                &&& final(self).line == st.line
                &&& final(self).tokens_seen() == old(self).tokens_seen() + opt_seq(st.tok)
                &&& final(self).errors_seen() == old(self).errors_seen() + opt_seq(st.err)
            }),
            final(self).current > old(self).current,
            final(self).positioned(),
            final(self).source == old(self).source,
    {
        let ghost src = self.source@;
        let ghost i = self.current as int;
        let ghost t0 = self.tokens@;
        let ghost e0 = self.errors@;
        let c = self.advance();
        let kind: TokenType;
        if c == '(' {
            kind = TokenType::LEFTPAREN;
        } else if c == ')' {
            kind = TokenType::RIGHTPAREN;
        } else if c == '{' {
            kind = TokenType::LEFTBRACE;
        } else if c == '}' {
            kind = TokenType::RIGHTBRACE;
        } else if c == ',' {
            kind = TokenType::COMMA;
        } else if c == '.' {
            kind = TokenType::DOT;
        } else if c == '-' {
            kind = TokenType::MINUS;
        } else if c == '+' {
            kind = TokenType::PLUS;
        } else if c == ';' {
            kind = TokenType::SEMICOLON;
        } else if c == '*' {
            kind = TokenType::STAR;
        } else if c == '?' {
            kind = TokenType::QUESTION;
        } else if c == ':' {
            kind = TokenType::COLON;
        } else if c == '!' {
            kind = if self.match_char('=') { TokenType::BANGEQUAL } else { TokenType::BANG };
        } else if c == '=' {
            kind = if self.match_char('=') { TokenType::EQUALEQUAL } else { TokenType::EQUAL };
        } else if c == '<' {
            kind = if self.match_char('=') { TokenType::LESSEQUAL } else { TokenType::LESS };
        } else if c == '>' {
            kind = if self.match_char('=') { TokenType::GREATEREQUAL } else { TokenType::GREATER };
        } else if c == '/' {
            if self.match_char('/') {
                while !self.is_at_end() && self.peek() != '\n'
                    invariant
                        self.source == old(self).source,
                        self.source@ == src,
                        i + 2 <= self.current <= src.len(),
                        line_end(src, self.current as int) == line_end(src, i + 2),
                        self.tokens@ == t0 && self.errors@ == e0,
                        self.line == old(self).line,
                        1 <= self.line <= i + 1,
                    decreases src.len() - self.current,
                {
                    self.advance();
                }
                proof {
                    assert(line_end(src, self.current as int) == self.current);
                    assert(toks_view(self.tokens@) =~= toks_view(t0) + Seq::empty());
                    assert(errs_view(self.errors@) =~= errs_view(e0) + Seq::empty());
                }
                return;
            } else if self.match_char('*') {
                if !self.block_comment() {
                    self.add_error("Unterminated block comment.");
                    proof {
                        assert(errs_view(self.errors@) =~= errs_view(e0) + opt_seq(step(src, i, old(self).line as int).err));
                    }
                }
                proof {
                    assert(toks_view(self.tokens@) =~= toks_view(t0));
                    assert(errs_view(self.errors@) =~= errs_view(e0) + opt_seq(step(src, i, old(self).line as int).err));
                }
                return;
            } else {
                kind = TokenType::SLASH;
            }
        } else if c == ' ' || c == '\r' || c == '\t' {
            proof {
                assert(toks_view(self.tokens@) =~= toks_view(t0) + Seq::empty());
                assert(errs_view(self.errors@) =~= errs_view(e0) + Seq::empty());
            }
            return;
        } else if c == '\n' {
            self.line += 1;
            proof {
                assert(toks_view(self.tokens@) =~= toks_view(t0) + Seq::empty());
                assert(errs_view(self.errors@) =~= errs_view(e0) + Seq::empty());
            }
            return;
        } else if c == '"' {
            self.string();
            return;
        } else if '0' <= c && c <= '9' {
            self.number();
            return;
        } else if ('a' <= c && c <= 'z') || ('A' <= c && c <= 'Z') {
            self.identifier();
            return;
        } else {
            self.add_error("Unexpected character.");
            proof {
                assert(toks_view(self.tokens@) =~= toks_view(t0) + Seq::empty());
                assert(errs_view(self.errors@) =~= errs_view(e0) + opt_seq(step(src, i, old(self).line as int).err));
            }
            return;
        }
        self.add_token(kind, None);
        proof {
            assert(toks_view(self.tokens@) =~= toks_view(t0) + opt_seq(step(src, i, old(self).line as int).tok));
            assert(errs_view(self.errors@) =~= errs_view(e0) + Seq::empty());
        }
    }

    /// Skips a block comment whose opening has been read; tells whether it was closed.
    fn block_comment(&mut self) -> (closed: bool)
        requires
            old(self).positioned(),
            old(self).current >= 2,
            old(self).line <= old(self).current - 1,
        ensures
            (final(self).current as int, final(self).line as int, closed) == comment_end(
                old(self).source@,
                old(self).current as int,
                1,
                old(self).line as int,
            ),
            final(self).current >= old(self).current,
            final(self).positioned(),
            final(self).source == old(self).source,
            final(self).tokens == old(self).tokens,
            final(self).errors == old(self).errors,
    {
        let ghost target = comment_end(self.source@, self.current as int, 1, self.line as int);
        let mut depth: usize = 1;
        while depth > 0 && !self.is_at_end()
            invariant
                self.source == old(self).source,
                self.tokens == old(self).tokens,
                self.errors == old(self).errors,
                old(self).current <= self.current <= self.source@.len(),
                1 <= self.line <= self.current - 1,
                depth <= self.current,
                comment_end(self.source@, self.current as int, depth as nat, self.line as int) == target,
            decreases self.source@.len() - self.current,
        {
            if self.peek() == '/' && self.peek_next() == '*' {
                self.advance();
                self.advance();
                depth += 1;
            } else if self.peek() == '*' && self.peek_next() == '/' {
                self.advance();
                self.advance();
                depth -= 1;
            } else if self.peek() == '\n' {
                self.line += 1;
                self.advance();
            } else {
                self.advance();
            }
        }
        depth == 0
    }

    /// Reads a string literal whose opening quote has been read.
    fn string(&mut self)
        requires
            old(self).positioned(),
            old(self).current >= 1,
            old(self).source@[old(self).current - 1] == '"',
            old(self).line <= old(self).current,
            old(self).source@.len() < usize::MAX,
        ensures
            ({
                let st = step(old(self).source@, old(self).current - 1, old(self).line as int);
                &&& final(self).current == st.next
                &&& final(self).line == st.line
                &&& final(self).tokens_seen() == old(self).tokens_seen() + opt_seq(st.tok)
                &&& final(self).errors_seen() == old(self).errors_seen() + opt_seq(st.err)
            }),
            final(self).current >= old(self).current,
            final(self).positioned(),
            final(self).source == old(self).source,
    {
        let ghost src = self.source@;
        let ghost i = self.current - 1;
        let ghost l0 = self.line as int;
        let ghost t0 = self.tokens@;
        let ghost e0 = self.errors@;
        let begin = self.current;
        proof {
            assert(src.subrange(i + 1, i + 1) =~= Seq::<char>::empty());
        }
        while !self.is_at_end() && self.peek() != '"'
            invariant
                self.source == old(self).source,
                self.source@ == src,
                src.len() < usize::MAX,
                self.tokens@ == t0 && self.errors@ == e0,
                begin == i + 1,
                begin <= self.current <= src.len(),
                string_end(src, self.current as int) == string_end(src, i + 1),
                self.line == l0 + count_newlines(src.subrange(i + 1, self.current as int)),
                1 <= self.line <= self.current,
            decreases src.len() - self.current,
        {
            if self.peek() == '\n' {
                self.line += 1;
            }
            let ghost j = self.current as int;
            self.advance();
            proof {
                assert(src.subrange(i + 1, j + 1).drop_last() =~= src.subrange(i + 1, j));
            }
        }
        if self.is_at_end() {
            self.add_error("Unterminated string.");
            proof {
                assert(toks_view(self.tokens@) =~= toks_view(t0) + Seq::empty());
                assert(errs_view(self.errors@) =~= errs_view(e0) + opt_seq(step(src, i, l0).err));
            }
            return;
        }
        let end = self.current;
        self.advance();
        let text = copy_range(&self.source, begin, end);
        self.add_token(TokenType::STRING, Some(chars_to_string(&text)));
        proof {
            assert(toks_view(self.tokens@) =~= toks_view(t0) + opt_seq(step(src, i, l0).tok));
            assert(errs_view(self.errors@) =~= errs_view(e0) + Seq::empty());
        }
    }

    fn skip_digits(&mut self)
        requires
            old(self).positioned(),
        ensures
            final(self).current == digits_end(old(self).source@, old(self).current as int),
            final(self).current >= old(self).current,
            final(self).positioned(),
            final(self).source == old(self).source,
            final(self).tokens == old(self).tokens,
            final(self).errors == old(self).errors,
            final(self).line == old(self).line,
    {
        let ghost target = digits_end(self.source@, self.current as int);
        while !self.is_at_end() && '0' <= self.peek() && self.peek() <= '9'
            invariant
                self.source == old(self).source,
                self.tokens == old(self).tokens,
                self.errors == old(self).errors,
                self.line == old(self).line,
                old(self).current <= self.current <= self.source@.len(),
                digits_end(self.source@, self.current as int) == target,
            decreases self.source@.len() - self.current,
        {
            self.advance();
        }
    }

    /// Reads a number literal whose first digit has been read.
    fn number(&mut self)
        requires
            old(self).positioned(),
            old(self).current >= 1,
            is_digit(old(self).source@[old(self).current - 1]),
            old(self).line <= old(self).current,
        ensures
            ({
                let st = step(old(self).source@, old(self).current - 1, old(self).line as int);
                &&& final(self).current == st.next
                &&& final(self).line == st.line
                &&& final(self).tokens_seen() == old(self).tokens_seen() + opt_seq(st.tok)
                &&& final(self).errors_seen() == old(self).errors_seen() + opt_seq(st.err)
            }),
            final(self).current >= old(self).current,
            final(self).positioned(),
            final(self).source == old(self).source,
    {
        let ghost src = self.source@;
        let ghost i = self.current - 1;
        let ghost t0 = self.tokens@;
        let ghost e0 = self.errors@;
        let begin = self.current - 1;
        self.skip_digits();
        if self.peek() == '.' && '0' <= self.peek_next() && self.peek_next() <= '9' {
            self.advance();
            self.skip_digits();
        }
        let text = copy_range(&self.source, begin, self.current);
        self.add_token(TokenType::NUMBER, Some(chars_to_string(&text)));
        proof {
            assert(toks_view(self.tokens@) =~= toks_view(t0) + opt_seq(step(src, i, old(self).line as int).tok));
            assert(errs_view(self.errors@) =~= errs_view(e0) + Seq::empty());
        }
    }

    /// Reads an identifier or keyword whose first letter has been read.
    fn identifier(&mut self)
        requires
            old(self).positioned(),
            old(self).current >= 1,
            is_letter(old(self).source@[old(self).current - 1]),
            old(self).line <= old(self).current,
        ensures
            ({
                let st = step(old(self).source@, old(self).current - 1, old(self).line as int);
                &&& final(self).current == st.next
                &&& final(self).line == st.line
                &&& final(self).tokens_seen() == old(self).tokens_seen() + opt_seq(st.tok)
                &&& final(self).errors_seen() == old(self).errors_seen() + opt_seq(st.err)
            }),
            final(self).current >= old(self).current,
            final(self).positioned(),
            final(self).source == old(self).source,
    {
        let ghost src = self.source@;
        let ghost i = self.current - 1;
        let ghost t0 = self.tokens@;
        let ghost e0 = self.errors@;
        let begin = self.current - 1;
        let ghost target = word_end(src, i + 1);
        while !self.is_at_end() && is_alphanumeric(self.peek())
            invariant
                self.source == old(self).source,
                self.source@ == src,
                self.tokens@ == t0 && self.errors@ == e0,
                self.line == old(self).line,
                i + 1 <= self.current <= src.len(),
                word_end(src, self.current as int) == target,
            decreases src.len() - self.current,
        {
            self.advance();
        }
        let text = copy_range(&self.source, begin, self.current);
        let upper = to_uppercase(&text);
        let kind = self.check_keyword(&upper);
        if kind == TokenType::IDENTIFIER {
            self.add_token(kind, Some(chars_to_string(&text)));
        } else {
            self.add_token(kind, None);
        }
        proof {
            assert(toks_view(self.tokens@) =~= toks_view(t0) + opt_seq(step(src, i, old(self).line as int).tok));
            assert(errs_view(self.errors@) =~= errs_view(e0) + Seq::empty());
        }
    }

    fn check_keyword(&self, text_token: &Vec<char>) -> (r: TokenType)
        ensures
            r == keyword_kind(text_token@),
    {
        if same_text(text_token, "AND") {
            TokenType::AND
        } else if same_text(text_token, "CLASS") {
            TokenType::CLASS
        } else if same_text(text_token, "ELSE") {
            TokenType::ELSE
        } else if same_text(text_token, "FALSE") {
            TokenType::FALSE
        } else if same_text(text_token, "FOR") {
            TokenType::FOR
        } else if same_text(text_token, "FUN") {
            TokenType::FUN
        } else if same_text(text_token, "IF") {
            TokenType::IF
        } else if same_text(text_token, "NIL") {
            TokenType::NIL
        } else if same_text(text_token, "OR") {
            TokenType::OR
        } else if same_text(text_token, "PRINT") {
            TokenType::PRINT
        } else if same_text(text_token, "RETURN") {
            TokenType::RETURN
        } else if same_text(text_token, "SUPER") {
            TokenType::SUPER
        } else if same_text(text_token, "THIS") {
            TokenType::THIS
        } else if same_text(text_token, "TRUE") {
            TokenType::TRUE
        } else if same_text(text_token, "VAR") {
            TokenType::VAR
        } else if same_text(text_token, "WHILE") {
            TokenType::WHILE
        } else {
            TokenType::IDENTIFIER
        }
    }
}

/// Whether the characters are those of `s`.
fn same_text(v: &Vec<char>, s: &str) -> (r: bool)
    ensures
        r == (v@ == s@),
{
    let w = lit_chars(s);
    if v.len() != w.len() {
        proof {
            assert(v@.len() != s@.len());
        }
        return false;
    }
    let mut i: usize = 0;
    while i < v.len()
        invariant
            w@ == s@,
            v@.len() == w@.len(),
            i <= v@.len(),
            forall|j: int| 0 <= j < i ==> v@[j] == w@[j],
        decreases v@.len() - i,
    {
        if v[i] != w[i] {
            proof {
                assert(v@[i as int] != s@[i as int]);
            }
            return false;
        }
        i += 1;
    }
    proof {
        assert(v@ =~= w@);
    }
    true
}

} // verus!

verus! {

proof fn lemma_string_end_unclosed(src: Seq<char>, j: int)
    requires
        0 <= j <= src.len(),
        forall|k: int| j <= k < src.len() ==> src[k] != '"',
    ensures
        string_end(src, j) == src.len(),
    decreases src.len() - j,
{
    if j < src.len() {
        lemma_string_end_unclosed(src, j + 1);
    }
}

proof fn lemma_comment_end_bounds(src: Seq<char>, j: int, depth: nat, line: int)
    requires
        0 <= j <= src.len(),
    ensures
        j <= comment_end(src, j, depth, line).0 <= src.len(),
    decreases src.len() - j,
{
    if depth > 0 && j < src.len() {
        if src[j] == '/' && char_at(src, j + 1) == '*' {
            lemma_comment_end_bounds(src, j + 2, depth + 1, line);
        } else if src[j] == '*' && char_at(src, j + 1) == '/' {
            lemma_comment_end_bounds(src, j + 2, (depth - 1) as nat, line);
        } else if src[j] == '\n' {
            lemma_comment_end_bounds(src, j + 1, depth, line + 1);
        } else {
            lemma_comment_end_bounds(src, j + 1, depth, line);
        }
    }
}

/// An opening quote with no closing quote after it is reported as an unterminated
/// string, on the line where the input ends, and gives no string token: scanning from
/// that quote yields that error and then only the end-of-input token.
pub proof fn lemma_unterminated_string_reported(src: Seq<char>, i: int, line: int)
    requires
        0 <= i < src.len(),
        src[i] == '"',
        forall|k: int| i < k < src.len() ==> src[k] != '"',
    ensures
        scan_from(src, i, line).1 == seq![
            (line + count_newlines(src.subrange(i + 1, src.len() as int)), "Unterminated string."@),
        ],
        scan_from(src, i, line).0 == seq![
            TokV {
                kind: TokenType::EOF,
                line: line + count_newlines(src.subrange(i + 1, src.len() as int)),
                text: None,
            },
        ],
{
    lemma_string_end_unclosed(src, i + 1);
    let st = step(src, i, line);
    assert(st.next == src.len());
    assert(seq![(line + count_newlines(src.subrange(i + 1, src.len() as int)), "Unterminated string."@)]
        + Seq::<(int, Seq<char>)>::empty() =~= seq![
        (line + count_newlines(src.subrange(i + 1, src.len() as int)), "Unterminated string."@),
    ]);
    assert(Seq::<TokV>::empty() + scan_from(src, st.next, st.line).0 =~= scan_from(
        src,
        st.next,
        st.line,
    ).0);
}

/// A block comment that is still open at the end of input (nested comments each need
/// their own close) is reported as unterminated rather than absorbed: scanning from its
/// opening yields that error first.
pub proof fn lemma_unterminated_comment_reported(src: Seq<char>, i: int, line: int)
    requires
        0 <= i,
        i + 1 < src.len(),
        src[i] == '/',
        src[i + 1] == '*',
        !comment_end(src, i + 2, 1, line).2,
    ensures
        scan_from(src, i, line).1.len() >= 1,
        scan_from(src, i, line).1[0] == (comment_end(src, i + 2, 1, line).1, "Unterminated block comment."@),
{
    lemma_comment_end_bounds(src, i + 2, 1, line);
    let st = step(src, i, line);
    assert(st.next == comment_end(src, i + 2, 1, line).0);
    assert(st.err == Some((comment_end(src, i + 2, 1, line).1, "Unterminated block comment."@)));
    assert((seq![(comment_end(src, i + 2, 1, line).1, "Unterminated block comment."@)] + scan_from(
        src,
        st.next,
        st.line,
    ).1)[0] == (comment_end(src, i + 2, 1, line).1, "Unterminated block comment."@));
}

} // verus!
