use vstd::prelude::*;

verus! {

/// The lexeme category of a token. The categories beyond what the
/// arithmetic grammar consumes (braces, comparison operators, identifiers)
/// are scanned so that the compiler can reject them with a diagnostic
/// rather than choke on raw bytes; they reserve room for the language's
/// growth.
#[derive(Clone, Copy, PartialEq, Eq, Structural, Debug)]
pub enum TokenKind {
    LeftParen,
    RightParen,
    LeftBrace,
    RightBrace,
    Comma,
    Dot,
    Semicolon,
    Plus,
    Minus,
    Star,
    Slash,
    Bang,
    BangEqual,
    Equal,
    EqualEqual,
    Greater,
    GreaterEqual,
    Less,
    LessEqual,
    /// A numeric literal: digits with an optional fraction part.
    Number,
    /// A run of letters, digits and underscores starting with a letter or
    /// underscore.
    Identifier,
    /// The end of the input; always the last token produced.
    Eof,
    /// A byte no token starts with. The compiler turns this into a
    /// reported diagnostic; the scanner itself never fails.
    Error,
}

/// The mathematical content of a token: its kind, the half-open byte range
/// `[start, start + len)` of its lexeme in the source, and the source line
/// it starts on (the first line being 1).
pub struct SpecToken {
    pub kind: TokenKind,
    pub start: int,
    pub len: int,
    pub line: int,
}

/// One token: its kind, the byte range of its lexeme in the source text,
/// and its source line. Tokens are produced on demand and consumed at
/// once; none outlives its compilation.
#[derive(Clone, Copy, PartialEq, Eq, Structural, Debug)]
pub struct Token {
    pub kind: TokenKind,
    pub start: usize,
    pub len: usize,
    pub line: usize,
}

impl View for Token {
    type V = SpecToken;

    open spec fn view(&self) -> SpecToken {
        SpecToken {
            kind: self.kind,
            start: self.start as int,
            len: self.len as int,
            line: self.line as int,
        }
    }
}


/// The byte values the scanner dispatches on, named for readability.
pub const B_SPACE: u8 = 32;
pub const B_CR: u8 = 13;
pub const B_TAB: u8 = 9;
pub const B_NEWLINE: u8 = 10;
pub const B_ZERO: u8 = 48;
pub const B_NINE: u8 = 57;
pub const B_LOWER_A: u8 = 97;
pub const B_LOWER_Z: u8 = 122;
pub const B_UPPER_A: u8 = 65;
pub const B_UPPER_Z: u8 = 90;
pub const B_UNDERSCORE: u8 = 95;
pub const B_LPAREN: u8 = 40;
pub const B_RPAREN: u8 = 41;
pub const B_LBRACE: u8 = 123;
pub const B_RBRACE: u8 = 125;
pub const B_COMMA: u8 = 44;
pub const B_DOT: u8 = 46;
pub const B_SEMI: u8 = 59;
pub const B_PLUS: u8 = 43;
pub const B_MINUS: u8 = 45;
pub const B_STAR: u8 = 42;
pub const B_SLASH: u8 = 47;
pub const B_BANG: u8 = 33;
pub const B_EQUAL: u8 = 61;
pub const B_GREATER: u8 = 62;
pub const B_LESS: u8 = 60;

/// True of ASCII decimal digits.
pub open spec fn is_digit(b: u8) -> bool {
    B_ZERO <= b && b <= B_NINE
}

/// True of ASCII letters and the underscore.
pub open spec fn is_alpha(b: u8) -> bool {
    (B_LOWER_A <= b && b <= B_LOWER_Z) || (B_UPPER_A <= b && b <= B_UPPER_Z) || b == B_UNDERSCORE
}

/// True of the whitespace bytes that the scanner skips without counting a
/// line.
pub open spec fn is_space(b: u8) -> bool {
    b == B_SPACE || b == B_CR || b == B_TAB
}

/// The first position at or after `i` whose byte is not a digit (or the
/// end of the input).
pub open spec fn digits_end(s: Seq<u8>, i: int) -> int
    decreases s.len() - i,
{
    if 0 <= i < s.len() && is_digit(s[i]) {
        digits_end(s, i + 1)
    } else {
        i
    }
}

/// The first position at or after `i` whose byte continues no identifier
/// (or the end of the input).
pub open spec fn ident_end(s: Seq<u8>, i: int) -> int
    decreases s.len() - i,
{
    if 0 <= i < s.len() && (is_alpha(s[i]) || is_digit(s[i])) {
        ident_end(s, i + 1)
    } else {
        i
    }
}

/// The first position at or after `i` holding a newline (or the end of the
/// input); a line comment runs to here.
pub open spec fn comment_end(s: Seq<u8>, i: int) -> int
    decreases s.len() - i,
{
    if 0 <= i < s.len() && s[i] != B_NEWLINE {
        comment_end(s, i + 1)
    } else {
        i
    }
}

pub proof fn lemma_digits_end(s: Seq<u8>, i: int)
    requires
        0 <= i <= s.len(),
    ensures
        i <= digits_end(s, i) <= s.len(),
    decreases s.len() - i,
{
    if i < s.len() && is_digit(s[i]) {
        lemma_digits_end(s, i + 1);
    }
}

pub proof fn lemma_ident_end(s: Seq<u8>, i: int)
    requires
        0 <= i <= s.len(),
    ensures
        i <= ident_end(s, i) <= s.len(),
    decreases s.len() - i,
{
    if i < s.len() && (is_alpha(s[i]) || is_digit(s[i])) {
        lemma_ident_end(s, i + 1);
    }
}

pub proof fn lemma_comment_end(s: Seq<u8>, i: int)
    requires
        0 <= i <= s.len(),
    ensures
        i <= comment_end(s, i) <= s.len(),
    decreases s.len() - i,
{
    if i < s.len() && s[i] != B_NEWLINE {
        lemma_comment_end(s, i + 1);
    }
}

/// The token that starts at position `pos` (which must hold neither
/// whitespace, a newline, nor a comment; the tokenizer skips those first).
pub open spec fn spec_lex_token(s: Seq<u8>, pos: int, line: int) -> SpecToken {
    if !(0 <= pos < s.len()) {
        SpecToken { kind: TokenKind::Eof, start: s.len() as int, len: 0, line }
    } else {
        let b = s[pos];
        if is_digit(b) {
            let e1 = digits_end(s, pos);
            let e = if e1 < s.len() && s[e1] == B_DOT && e1 + 1 < s.len() && is_digit(
                s[e1 + 1],
            ) {
                digits_end(s, e1 + 1)
            } else {
                e1
            };
            SpecToken { kind: TokenKind::Number, start: pos, len: e - pos, line }
        } else if is_alpha(b) {
            SpecToken { kind: TokenKind::Identifier, start: pos, len: ident_end(s, pos) - pos, line }
        } else if b == B_LPAREN {
            SpecToken { kind: TokenKind::LeftParen, start: pos, len: 1, line }
        } else if b == B_RPAREN {
            SpecToken { kind: TokenKind::RightParen, start: pos, len: 1, line }
        } else if b == B_LBRACE {
            SpecToken { kind: TokenKind::LeftBrace, start: pos, len: 1, line }
        } else if b == B_RBRACE {
            SpecToken { kind: TokenKind::RightBrace, start: pos, len: 1, line }
        } else if b == B_COMMA {
            SpecToken { kind: TokenKind::Comma, start: pos, len: 1, line }
        } else if b == B_DOT {
            SpecToken { kind: TokenKind::Dot, start: pos, len: 1, line }
        } else if b == B_SEMI {
            SpecToken { kind: TokenKind::Semicolon, start: pos, len: 1, line }
        } else if b == B_PLUS {
            SpecToken { kind: TokenKind::Plus, start: pos, len: 1, line }
        } else if b == B_MINUS {
            SpecToken { kind: TokenKind::Minus, start: pos, len: 1, line }
        } else if b == B_STAR {
            SpecToken { kind: TokenKind::Star, start: pos, len: 1, line }
        } else if b == B_SLASH {
            SpecToken { kind: TokenKind::Slash, start: pos, len: 1, line }
        } else if b == B_BANG {
            if pos + 1 < s.len() && s[pos + 1] == B_EQUAL {
                SpecToken { kind: TokenKind::BangEqual, start: pos, len: 2, line }
            } else {
                SpecToken { kind: TokenKind::Bang, start: pos, len: 1, line }
            }
        } else if b == B_EQUAL {
            if pos + 1 < s.len() && s[pos + 1] == B_EQUAL {
                SpecToken { kind: TokenKind::EqualEqual, start: pos, len: 2, line }
            } else {
                SpecToken { kind: TokenKind::Equal, start: pos, len: 1, line }
            }
        } else if b == B_GREATER {
            if pos + 1 < s.len() && s[pos + 1] == B_EQUAL {
                SpecToken { kind: TokenKind::GreaterEqual, start: pos, len: 2, line }
            } else {
                SpecToken { kind: TokenKind::Greater, start: pos, len: 1, line }
            }
        } else if b == B_LESS {
            if pos + 1 < s.len() && s[pos + 1] == B_EQUAL {
                SpecToken { kind: TokenKind::LessEqual, start: pos, len: 2, line }
            } else {
                SpecToken { kind: TokenKind::Less, start: pos, len: 1, line }
            }
        } else {
            SpecToken { kind: TokenKind::Error, start: pos, len: 1, line }
        }
    }
}

pub proof fn lemma_lex_token_bounds(s: Seq<u8>, pos: int, line: int)
    requires
        0 <= pos < s.len(),
    ensures
        1 <= spec_lex_token(s, pos, line).len,
        pos + spec_lex_token(s, pos, line).len <= s.len(),
        spec_lex_token(s, pos, line).kind != TokenKind::Eof,
{
    let b = s[pos];
    if is_digit(b) {
        lemma_digits_end(s, pos);
        let e1 = digits_end(s, pos);
        assert(digits_end(s, pos) == digits_end(s, pos + 1));
        lemma_digits_end(s, pos + 1);
        if e1 < s.len() && s[e1] == B_DOT && e1 + 1 < s.len() && is_digit(s[e1 + 1]) {
            lemma_digits_end(s, e1 + 1);
        }
    } else if is_alpha(b) {
        lemma_ident_end(s, pos);
        assert(ident_end(s, pos) == ident_end(s, pos + 1));
        lemma_ident_end(s, pos + 1);
    }
}

/// The sequence of tokens from position `pos` on line `line` to the end of
/// the source: whitespace and line comments are skipped, a newline counts
/// a line, and the sequence always closes with one `Eof` token. This is
/// the reference the executable scanner is verified against, and the token
/// stream the compiler's specification parses.
pub open spec fn spec_tokens_from(s: Seq<u8>, pos: int, line: int) -> Seq<SpecToken>
    decreases s.len() - pos,
    via spec_tokens_from_decreases
{
    if !(0 <= pos < s.len()) {
        seq![SpecToken { kind: TokenKind::Eof, start: s.len() as int, len: 0, line }]
    } else {
        let b = s[pos];
        if is_space(b) {
            spec_tokens_from(s, pos + 1, line)
        } else if b == B_NEWLINE {
            spec_tokens_from(s, pos + 1, line + 1)
        } else if b == B_SLASH && pos + 1 < s.len() && s[pos + 1] == B_SLASH {
            spec_tokens_from(s, comment_end(s, pos + 2), line)
        } else {
            let t = spec_lex_token(s, pos, line);
            seq![t] + spec_tokens_from(s, pos + t.len, line)
        }
    }
}

#[via_fn]
proof fn spec_tokens_from_decreases(s: Seq<u8>, pos: int, line: int) {
    if 0 <= pos < s.len() {
        let b = s[pos];
        if b == B_SLASH && pos + 1 < s.len() && s[pos + 1] == B_SLASH {
            lemma_comment_end(s, pos + 2);
        } else if !is_space(b) && b != B_NEWLINE {
            lemma_lex_token_bounds(s, pos, line);
        }
    }
}

/// The token stream of a whole source text.
pub open spec fn spec_tokens(s: Seq<u8>) -> Seq<SpecToken> {
    spec_tokens_from(s, 0, 1)
}

/// The position where the digit run starting at `i` ends.
fn scan_digits_end(src: &[u8], i: usize) -> (j: usize)
    requires
        i <= src@.len(),
    ensures
        j == digits_end(src@, i as int),
        i <= j <= src@.len(),
{
    let n = src.len();
    let mut cur = i;
    while cur < n && B_ZERO <= src[cur] && src[cur] <= B_NINE
        invariant
            i <= cur <= n,
            n == src@.len(),
            digits_end(src@, i as int) == digits_end(src@, cur as int),
        decreases n - cur,
    {
        cur = cur + 1;
    }
    cur
}

/// The position where the identifier run starting at `i` ends.
fn scan_ident_end(src: &[u8], i: usize) -> (j: usize)
    requires
        i <= src@.len(),
    ensures
        j == ident_end(src@, i as int),
        i <= j <= src@.len(),
{
    let n = src.len();
    let mut cur = i;
    while cur < n && ((B_LOWER_A <= src[cur] && src[cur] <= B_LOWER_Z) || (B_UPPER_A <= src[cur]
        && src[cur] <= B_UPPER_Z) || src[cur] == B_UNDERSCORE || (B_ZERO <= src[cur] && src[cur]
        <= B_NINE))
        invariant
            i <= cur <= n,
            n == src@.len(),
            ident_end(src@, i as int) == ident_end(src@, cur as int),
        decreases n - cur,
    {
        cur = cur + 1;
    }
    cur
}

/// The position just past a line comment that starts before `i`: the next
/// newline, or the end of the input.
fn scan_comment_end(src: &[u8], i: usize) -> (j: usize)
    requires
        i <= src@.len(),
    ensures
        j == comment_end(src@, i as int),
        i <= j <= src@.len(),
{
    let n = src.len();
    let mut cur = i;
    while cur < n && src[cur] != B_NEWLINE
        invariant
            i <= cur <= n,
            n == src@.len(),
            comment_end(src@, i as int) == comment_end(src@, cur as int),
        decreases n - cur,
    {
        cur = cur + 1;
    }
    cur
}

/// Reads the one token that starts at `pos`, which the caller has already
/// cleared of whitespace and comments.
fn lex_token(src: &[u8], pos: usize, line: usize) -> (t: Token)
    requires
        pos < src@.len(),
    ensures
        t@ == spec_lex_token(src@, pos as int, line as int),
        t.start == pos,
        1 <= t.len,
        pos + t.len <= src@.len(),
{
    let n = src.len();
    let b = src[pos];
    if B_ZERO <= b && b <= B_NINE {
        let e1 = scan_digits_end(src, pos);
        proof {
            lemma_digits_end(src@, pos as int + 1);
        }
        let e = if e1 < n && src[e1] == B_DOT && e1 + 1 < n && B_ZERO <= src[e1 + 1] && src[e1 + 1]
            <= B_NINE {
            scan_digits_end(src, e1 + 1)
        } else {
            e1
        };
        Token { kind: TokenKind::Number, start: pos, len: e - pos, line }
    } else if (B_LOWER_A <= b && b <= B_LOWER_Z) || (B_UPPER_A <= b && b <= B_UPPER_Z) || b
        == B_UNDERSCORE {
        let e = scan_ident_end(src, pos);
        proof {
            lemma_ident_end(src@, pos as int + 1);
        }
        Token { kind: TokenKind::Identifier, start: pos, len: e - pos, line }
    } else if b == B_LPAREN {
        Token { kind: TokenKind::LeftParen, start: pos, len: 1, line }
    } else if b == B_RPAREN {
        Token { kind: TokenKind::RightParen, start: pos, len: 1, line }
    } else if b == B_LBRACE {
        Token { kind: TokenKind::LeftBrace, start: pos, len: 1, line }
    } else if b == B_RBRACE {
        Token { kind: TokenKind::RightBrace, start: pos, len: 1, line }
    } else if b == B_COMMA {
        Token { kind: TokenKind::Comma, start: pos, len: 1, line }
    } else if b == B_DOT {
        Token { kind: TokenKind::Dot, start: pos, len: 1, line }
    } else if b == B_SEMI {
        Token { kind: TokenKind::Semicolon, start: pos, len: 1, line }
    } else if b == B_PLUS {
        Token { kind: TokenKind::Plus, start: pos, len: 1, line }
    } else if b == B_MINUS {
        Token { kind: TokenKind::Minus, start: pos, len: 1, line }
    } else if b == B_STAR {
        Token { kind: TokenKind::Star, start: pos, len: 1, line }
    } else if b == B_SLASH {
        Token { kind: TokenKind::Slash, start: pos, len: 1, line }
    } else if b == B_BANG {
        if pos + 1 < n && src[pos + 1] == B_EQUAL {
            Token { kind: TokenKind::BangEqual, start: pos, len: 2, line }
        } else {
            Token { kind: TokenKind::Bang, start: pos, len: 1, line }
        }
    } else if b == B_EQUAL {
        if pos + 1 < n && src[pos + 1] == B_EQUAL {
            Token { kind: TokenKind::EqualEqual, start: pos, len: 2, line }
        } else {
            Token { kind: TokenKind::Equal, start: pos, len: 1, line }
        }
    } else if b == B_GREATER {
        if pos + 1 < n && src[pos + 1] == B_EQUAL {
            Token { kind: TokenKind::GreaterEqual, start: pos, len: 2, line }
        } else {
            Token { kind: TokenKind::Greater, start: pos, len: 1, line }
        }
    } else if b == B_LESS {
        if pos + 1 < n && src[pos + 1] == B_EQUAL {
            Token { kind: TokenKind::LessEqual, start: pos, len: 2, line }
        } else {
            Token { kind: TokenKind::Less, start: pos, len: 1, line }
        }
    } else {
        Token { kind: TokenKind::Error, start: pos, len: 1, line }
    }
}

/// Scans the whole source into its token sequence: exactly the stream
/// `spec_tokens` describes, ending in one `Eof` token, every lexeme range
/// lying inside the source.
pub fn scan(src: &[u8]) -> (tokens: Vec<Token>)
    requires
        src@.len() < usize::MAX,
    ensures
        tokens@.map_values(|t: Token| t@) == spec_tokens(src@),
        tokens@.len() >= 1,
        tokens@.last().kind == TokenKind::Eof,
        forall|k: int| 0 <= k < tokens@.len() - 1 ==> tokens@[k].kind != TokenKind::Eof,
        forall|k: int|
            0 <= k < tokens@.len() ==> tokens@[k].start + tokens@[k].len <= src@.len(),
{
    let n = src.len();
    let mut tokens: Vec<Token> = Vec::new();
    let mut pos: usize = 0;
    let mut line: usize = 1;
    loop
        invariant
            pos <= n,
            n == src@.len(),
            n < usize::MAX,
            line <= pos + 1,
            spec_tokens(src@) == tokens@.map_values(|t: Token| t@) + spec_tokens_from(
                src@,
                pos as int,
                line as int,
            ),
            forall|k: int| 0 <= k < tokens@.len() ==> tokens@[k].kind != TokenKind::Eof,
            forall|k: int|
                0 <= k < tokens@.len() ==> tokens@[k].start + tokens@[k].len <= n,
        decreases n - pos,
    {
        let ghost toks_pre = tokens@;
        if pos >= n {
            let t = Token { kind: TokenKind::Eof, start: n, len: 0, line };
            tokens.push(t);
            proof {
                assert(tokens@.map_values(|t: Token| t@) =~= toks_pre.map_values(
                    |t: Token| t@,
                ).push(t@));
                assert(spec_tokens_from(src@, pos as int, line as int) =~= seq![t@]);
                assert(tokens@.map_values(|t: Token| t@) =~= toks_pre.map_values(|t: Token| t@)
                    + seq![t@]);
            }
            return tokens;
        }
        let b = src[pos];
        if b == B_SPACE || b == B_CR || b == B_TAB {
            pos = pos + 1;
        } else if b == B_NEWLINE {
            pos = pos + 1;
            line = line + 1;
        } else if b == B_SLASH && pos + 1 < n && src[pos + 1] == B_SLASH {
            pos = scan_comment_end(src, pos + 2);
        } else {
            let t = lex_token(src, pos, line);
            tokens.push(t);
            proof {
                assert(tokens@.map_values(|t: Token| t@) =~= toks_pre.map_values(
                    |t: Token| t@,
                ).push(t@));
                assert(toks_pre.map_values(|t: Token| t@).push(t@) + spec_tokens_from(
                    src@,
                    pos + t.len,
                    line as int,
                ) =~= toks_pre.map_values(|t: Token| t@) + (seq![t@] + spec_tokens_from(
                    src@,
                    pos + t.len,
                    line as int,
                )));
            }
            pos = pos + t.len;
        }
    }
}

} // verus!
