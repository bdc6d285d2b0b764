//! The lexer: from source text to tokens, with the line and column of the
//! scan kept in the tokenizer.

use vstd::prelude::*;

verus! {

/// The number of columns a tab advances the scan by.
pub const TAB_SIZE: usize = 4;

/// The message of the error for a character that starts no token.
pub const UNRECOGNIZED_CHARACTER: &'static str = "unrecognized character";

/// The message of the error for a line or column that no `usize` holds.
pub const POSITION_OVERFLOW: &'static str = "position overflow";

/// A single whitespace character, or a line break.
#[derive(Clone, Copy, Debug, PartialEq, Eq)]
pub enum Whitespace {
    Tab,
    Newline,
    Space,
}

/// One lexical unit of the source.
#[derive(Debug, PartialEq)]
pub enum Token {
    /// A bare run of identifier characters.
    Word(String),
    /// A run of identifier characters behind a `'`, which is not part of the name.
    Atom(String),
    /// A run of digits and dots that starts with a digit.
    Number(String),
    OpenParen,
    CloseParen,
    Whitespace(Whitespace),
}

/// What a token is, with its text as a sequence of characters.
pub enum Lexeme {
    Word(Seq<char>),
    Atom(Seq<char>),
    Number(Seq<char>),
    OpenParen,
    CloseParen,
    Whitespace(Whitespace),
}

impl View for Token {
    type V = Lexeme;

    open spec fn view(&self) -> Lexeme {
        match self {
            Token::Word(s) => Lexeme::Word(s@),
            Token::Atom(s) => Lexeme::Atom(s@),
            Token::Number(s) => Lexeme::Number(s@),
            Token::OpenParen => Lexeme::OpenParen,
            Token::CloseParen => Lexeme::CloseParen,
            Token::Whitespace(w) => Lexeme::Whitespace(*w),
        }
    }
}

impl Clone for Token {
    fn clone(&self) -> (copy: Token)
        ensures
            copy@ == self@,
    {
        match self {
            Token::Word(s) => Token::Word(s.clone()),
            Token::Atom(s) => Token::Atom(s.clone()),
            Token::Number(s) => Token::Number(s.clone()),
            Token::OpenParen => Token::OpenParen,
            Token::CloseParen => Token::CloseParen,
            Token::Whitespace(w) => Token::Whitespace(*w),
        }
    }
}

impl Whitespace {
    /// The character that this whitespace is written as; a newline is
    /// written as a line feed.
    pub open spec fn text(self) -> Seq<char> {
        match self {
            Whitespace::Space => " "@,
            Whitespace::Newline => "\n"@,
            Whitespace::Tab => "\t"@,
        }
    }

    /// The character that this whitespace is written as.
    pub fn as_str(&self) -> (text: &'static str)
        ensures
            text@ == self.text(),
    {
        match self {
            Whitespace::Space => " ",
            Whitespace::Newline => "\n",
            Whitespace::Tab => "\t",
        }
    }
}

impl Lexeme {
    /// The text that a token is shown as: its own text for a word, a number
    /// and a quoted atom (without the quote), and its character for the others.
    pub open spec fn text(self) -> Seq<char> {
        match self {
            Lexeme::Word(s) => s,
            Lexeme::Atom(s) => s,
            Lexeme::Number(s) => s,
            Lexeme::OpenParen => "("@,
            Lexeme::CloseParen => ")"@,
            Lexeme::Whitespace(w) => w.text(),
        }
    }
}

impl Token {
    /// The text that this token is shown as.
    pub fn text(&self) -> (text: String)
        ensures
            text@ == self@.text(),
    {
        match self {
            Token::Word(w) => w.clone(),
            Token::Atom(w) => w.clone(),
            Token::Number(n) => n.clone(),
            Token::OpenParen => "(".to_owned(),
            Token::CloseParen => ")".to_owned(),
            Token::Whitespace(w) => w.as_str().to_owned(),
        }
    }
}

/// The tokens of a vector, each by its view.
pub open spec fn lexemes(tokens: Seq<Token>) -> Seq<Lexeme> {
    tokens.map_values(|t: Token| t@)
}

/// The kinds of character that a run is made of.
#[derive(Clone, Copy, Debug, PartialEq, Eq)]
pub enum CharClass {
    /// The digits `0` to `9`.
    Digit,
    /// Digits and `.`.
    Number,
    /// Letters, digits, `_`, `-` and `/`.
    Identifier,
}

/// Whether `c` is one of the digits `0` to `9`.
pub open spec fn is_digit(c: char) -> bool {
    '0' <= c <= '9'
}

/// Whether `c` may stand in a number: a digit or a `.`.
pub open spec fn is_number_char(c: char) -> bool {
    is_digit(c) || c == '.'
}

/// Whether `c` may stand in a word or in the name of a quoted atom: a letter
/// of `a` to `z` in either case, a digit, or one of `_`, `-` and `/`.
pub open spec fn is_identifier_char(c: char) -> bool {
    ('a' <= c <= 'z') || ('A' <= c <= 'Z') || is_digit(c) || c == '_' || c == '-' || c == '/'
}

impl CharClass {
    /// Whether `c` belongs to the class.
    pub open spec fn contains(self, c: char) -> bool {
        match self {
            CharClass::Digit => is_digit(c),
            CharClass::Number => is_number_char(c),
            CharClass::Identifier => is_identifier_char(c),
        }
    }

    /// Whether `c` belongs to the class.
    pub fn admits(self, c: char) -> (b: bool)
        ensures
            b == self.contains(c),
    {
        let digit = '0' <= c && c <= '9';
        match self {
            CharClass::Digit => digit,
            CharClass::Number => digit || c == '.',
            CharClass::Identifier => ('a' <= c && c <= 'z') || ('A' <= c && c <= 'Z') || digit
                || c == '_' || c == '-' || c == '/',
        }
    }
}

/// Where the longest run of `class` characters that starts at `from` ends:
/// the first index at or after `from` that holds no such character, or the
/// length of `s`.
pub open spec fn run_end(s: Seq<char>, from: int, class: CharClass) -> int
    decreases s.len() - from,
{
    if 0 <= from < s.len() && class.contains(s[from]) {
        run_end(s, from + 1, class)
    } else {
        from
    }
}

/// A run is made of characters of its class only, and it is maximal: it ends
/// at the end of the text or before a character that is not of the class.
pub proof fn lemma_run_end(s: Seq<char>, from: int, class: CharClass)
    requires
        0 <= from <= s.len(),
    ensures
        from <= run_end(s, from, class) <= s.len(),
        forall|k: int| from <= k < run_end(s, from, class) ==> class.contains(#[trigger] s[k]),
        run_end(s, from, class) < s.len() ==> !class.contains(s[run_end(s, from, class)]),
    decreases s.len() - from,
{
    if from < s.len() && class.contains(s[from]) {
        lemma_run_end(s, from + 1, class);
    }
}

/// The token that the character `c` is by itself: a parenthesis or a
/// whitespace. A carriage return is a newline, as a line feed is.
pub open spec fn single(c: char) -> Option<Lexeme> {
    if c == '(' {
        Some(Lexeme::OpenParen)
    } else if c == ')' {
        Some(Lexeme::CloseParen)
    } else if c == ' ' {
        Some(Lexeme::Whitespace(Whitespace::Space))
    } else if c == '\t' {
        Some(Lexeme::Whitespace(Whitespace::Tab))
    } else if c == '\n' || c == '\r' {
        Some(Lexeme::Whitespace(Whitespace::Newline))
    } else {
        None
    }
}

/// The token that starts at index `at` of `s`, with the index where it ends,
/// or `None` where the character at `at` starts no token. A token of one
/// character ends behind it, but a carriage return takes the line feed behind
/// it along. A digit starts a number, a `'` a quoted atom, and any other
/// identifier character a word: each is the longest run of its characters.
pub open spec fn scan(s: Seq<char>, at: int) -> Option<(Lexeme, int)> {
    let c = s[at];
    match single(c) {
        Some(token) => if c == '\r' && at + 1 < s.len() && s[at + 1] == '\n' {
            Some((token, at + 2))
        } else {
            Some((token, at + 1))
        },
        None => if is_digit(c) {
            let end = run_end(s, at, CharClass::Number);
            Some((Lexeme::Number(s.subrange(at, end)), end))
        } else if c == '\'' {
            let end = run_end(s, at + 1, CharClass::Identifier);
            Some((Lexeme::Atom(s.subrange(at + 1, end)), end))
        } else if is_identifier_char(c) {
            let end = run_end(s, at, CharClass::Identifier);
            Some((Lexeme::Word(s.subrange(at, end)), end))
        } else {
            None
        },
    }
}

/// Every token holds at least one character of the source.
pub proof fn lemma_scan_advances(s: Seq<char>, at: int)
    requires
        0 <= at < s.len(),
    ensures
        scan(s, at) matches Some((_, end)) ==> at < end <= s.len(),
{
    lemma_run_end(s, at, CharClass::Number);
    lemma_run_end(s, at, CharClass::Identifier);
    lemma_run_end(s, at + 1, CharClass::Identifier);
}

/// An error of the lexer, with the place of the token it stopped at.
#[derive(Debug)]
pub struct TokenizerError {
    /// The error message.
    pub message: &'static str,
    /// The line number on which the error occurred.
    pub line: usize,
    /// The column number on which the error occurred.
    pub column: usize,
}

/// The lexer's state: the source, and the line and column (both from 1) of
/// the next token.
pub struct Tokenizer {
    pub source: String,
    pub line: usize,
    pub column: usize,
}

/// The characters of `text`, in order.
pub fn characters(text: &str) -> (chars: Vec<char>)
    ensures
        chars@ == text@,
{
    let mut chars: Vec<char> = Vec::new();
    let it = text.chars();
    for c in iter: it
        invariant
            chars@ == iter.seq().take(iter.index()),
    {
        chars.push(c);
    }
    chars
}

/// `String::push` of the standard library, taken on trust: it appends `ch` to
/// the end of the string and changes nothing else of it.
pub assume_specification[ String::push ](s: &mut String, ch: char)
    ensures
        final(s)@ == old(s)@.push(ch),
;

/// Reads from `chars`, starting at `at`, as long as the characters are of
/// `class`. Returns the characters read as a `String`, and the index of the
/// first character that was not read.
fn peeking_take_while(chars: &Vec<char>, at: usize, class: CharClass) -> (run: (String, usize))
    requires
        at <= chars.len(),
    ensures
        run.1 == run_end(chars@, at as int, class),
        run.0@ == chars@.subrange(at as int, run.1 as int),
        at <= run.1 <= chars.len(),
{
    let mut s = String::new();
    let mut i: usize = at;
    while i < chars.len() && class.admits(chars[i])
        invariant
            at <= i <= chars.len(),
            s@ == chars@.subrange(at as int, i as int),
            run_end(chars@, at as int, class) == run_end(chars@, i as int, class),
        decreases chars.len() - i,
    {
        s.push(chars[i]);
        i += 1;
    }
    (s, i)
}

/// The token that the character `c` is by itself, if it is one.
pub fn to_token(c: char) -> (token: Option<Token>)
    ensures
        match token {
            Some(t) => single(c) == Some(t@),
            None => single(c) is None,
        },
{
    if c == '(' {
        Some(Token::OpenParen)
    } else if c == ')' {
        Some(Token::CloseParen)
    } else if c == ' ' {
        Some(Token::Whitespace(Whitespace::Space))
    } else if c == '\t' {
        Some(Token::Whitespace(Whitespace::Tab))
    } else if c == '\n' || c == '\r' {
        Some(Token::Whitespace(Whitespace::Newline))
    } else {
        None
    }
}

impl Tokenizer {
    /// A tokenizer at the start of `source`.
    pub fn new(source: &str) -> (tokenizer: Self)
        ensures
            tokenizer.source@ == source@,
            tokenizer.line == 1,
            tokenizer.column == 1,
    {
        Self { source: source.to_owned(), line: 1, column: 1 }
    }

    /// The token `t` of one character at index `at`, with the index behind it.
    fn consume_and_return(&self, at: usize, t: Token) -> (result: Result<
        Option<(Token, usize)>,
        TokenizerError,
    >)
        requires
            at < usize::MAX,
        ensures
            result == Ok::<Option<(Token, usize)>, TokenizerError>(Some((t, (at + 1) as usize))),
    {
        Ok(Some((t, at + 1)))
    }

    /// Reads the token that starts at index `at` of `chars`. Returns it with
    /// the index where it ends, `None` at the end of the input, and an error
    /// at this tokenizer's line and column where the character at `at` starts
    /// no token.
    pub fn next_token(&self, chars: &Vec<char>, at: usize) -> (result: Result<
        Option<(Token, usize)>,
        TokenizerError,
    >)
        ensures
            match result {
                Ok(None) => at >= chars.len(),
                Ok(Some((token, end))) => at < chars.len() && scan(chars@, at as int) == Some(
                    (token@, end as int),
                ),
                Err(e) => at < chars.len() && scan(chars@, at as int) is None && e.message@
                    == UNRECOGNIZED_CHARACTER@ && e.line == self.line && e.column == self.column,
            },
    {
        if at >= chars.len() {
            return Ok(None);
        }
        let ch = chars[at];
        if let Some(token) = to_token(ch) {
            // A single newline token for \r and for \r\n.
            if ch == '\r' && at + 1 < chars.len() && chars[at + 1] == '\n' {
                Ok(Some((token, at + 2)))
            } else {
                self.consume_and_return(at, token)
            }
        } else if CharClass::Digit.admits(ch) {
            let (s, end) = peeking_take_while(chars, at, CharClass::Number);
            Ok(Some((Token::Number(s), end)))
        } else if ch == '\'' {
            let (s, end) = peeking_take_while(chars, at + 1, CharClass::Identifier);
            Ok(Some((Token::Atom(s), end)))
        } else if CharClass::Identifier.admits(ch) {
            let (s, end) = peeking_take_while(chars, at, CharClass::Identifier);
            Ok(Some((Token::Word(s), end)))
        } else {
            Err(TokenizerError { message: UNRECOGNIZED_CHARACTER, line: self.line, column: self.column })
        }
    }
}

/// The number of columns that a token other than a newline takes: four for a
/// tab, else the length of its text, with one more for the quote of an atom.
pub open spec fn width(token: Lexeme) -> nat {
    match token {
        Lexeme::Word(s) => s.len(),
        Lexeme::Atom(s) => s.len() + 1,
        Lexeme::Number(s) => s.len(),
        Lexeme::Whitespace(Whitespace::Tab) => TAB_SIZE as nat,
        _ => 1,
    }
}

/// The line and column behind `token`, where the token starts at `line` and
/// `column`: a newline starts the next line at column 1, and every other
/// token moves the column by its width.
pub open spec fn advance(token: Lexeme, line: int, column: int) -> (int, int) {
    match token {
        Lexeme::Whitespace(Whitespace::Newline) => (line + 1, 1),
        _ => (line, column + width(token)),
    }
}

/// Why a scan stopped.
pub enum Stop {
    /// Nothing is left of the source.
    EndOfInput,
    /// The next character starts no token.
    UnrecognizedCharacter,
    /// The line or column behind the next token is too large for a `usize`.
    PositionOverflow,
}

/// What a scan comes to: the tokens it read, the line and column where it
/// stopped, and why it stopped.
pub struct Lexed {
    pub tokens: Seq<Lexeme>,
    pub line: int,
    pub column: int,
    pub stop: Stop,
}

/// The scan of `s` from index `at` on, where `at` stands at `line` and
/// `column`: one token after the other up to the end of `s`, or up to the
/// first token that cannot be read or placed.
pub open spec fn lex(s: Seq<char>, at: int, line: int, column: int) -> Lexed
    decreases s.len() - at,
{
    if !(0 <= at < s.len()) {
        Lexed { tokens: Seq::empty(), line, column, stop: Stop::EndOfInput }
    } else {
        match scan(s, at) {
            None => Lexed { tokens: Seq::empty(), line, column, stop: Stop::UnrecognizedCharacter },
            Some((token, end)) => {
                let (next_line, next_column) = advance(token, line, column);
                if next_line > usize::MAX || next_column > usize::MAX {
                    Lexed { tokens: Seq::empty(), line, column, stop: Stop::PositionOverflow }
                } else {
                    proof {
                        lemma_scan_advances(s, at);
                    }
                    let rest = lex(s, end, next_line, next_column);
                    Lexed {
                        tokens: seq![token] + rest.tokens,
                        line: rest.line,
                        column: rest.column,
                        stop: rest.stop,
                    }
                }
            },
        }
    }
}

/// A carriage return is read as one newline token, together with the line
/// feed behind it where there is one: the scan goes on behind both, on the
/// next line, so no second newline comes of the pair.
pub proof fn lemma_carriage_return_is_one_newline(s: Seq<char>, at: int, line: int, column: int)
    requires
        0 <= at < s.len(),
        s[at] == '\r',
        line < usize::MAX,
    ensures
        ({
            let end = if at + 1 < s.len() && s[at + 1] == '\n' {
                at + 2
            } else {
                at + 1
            };
            let from_here = lex(s, at, line, column);
            let behind = lex(s, end, line + 1, 1);
            &&& scan(s, at) == Some((Lexeme::Whitespace(Whitespace::Newline), end))
            &&& from_here.tokens == seq![Lexeme::Whitespace(Whitespace::Newline)] + behind.tokens
            &&& from_here.line == behind.line
            &&& from_here.column == behind.column
            &&& from_here.stop == behind.stop
        }),
{
}

/// Whether a token can start with `c`: a parenthesis, a whitespace, a quote
/// or an identifier character.
pub open spec fn starts_token(c: char) -> bool {
    single(c) is Some || c == '\'' || is_identifier_char(c)
}

/// A scan stops at an unrecognized character only where the text holds a
/// character that no token can start with.
pub proof fn lemma_lex_recognizes(s: Seq<char>, at: int, line: int, column: int)
    requires
        0 <= at <= s.len(),
        forall|k: int| at <= k < s.len() ==> starts_token(#[trigger] s[k]),
    ensures
        !(lex(s, at, line, column).stop is UnrecognizedCharacter),
    decreases s.len() - at,
{
    if at < s.len() {
        assert(starts_token(s[at]));
        lemma_scan_advances(s, at);
        let (token, end) = scan(s, at)->0;
        let (next_line, next_column) = advance(token, line, column);
        lemma_lex_recognizes(s, end, next_line, next_column);
    }
}

/// No token is wider than the tab size for each of its characters.
pub proof fn lemma_width_bound(s: Seq<char>, at: int)
    requires
        0 <= at < s.len(),
    ensures
        scan(s, at) matches Some((token, end)) ==> 1 <= width(token) <= TAB_SIZE * (end - at),
{
    lemma_scan_advances(s, at);
    lemma_run_end(s, at, CharClass::Number);
    lemma_run_end(s, at, CharClass::Identifier);
    lemma_run_end(s, at + 1, CharClass::Identifier);
}

/// A scan does not stop for the position where the line and column are
/// small enough for what is left of the text: a line for each character, and
/// a tab for each character of a line.
pub proof fn lemma_lex_places(s: Seq<char>, at: int, line: int, column: int)
    requires
        0 <= at <= s.len(),
        1 <= column,
        line + (s.len() - at) <= usize::MAX,
        column + TAB_SIZE * (s.len() - at) <= usize::MAX,
    ensures
        !(lex(s, at, line, column).stop is PositionOverflow),
    decreases s.len() - at,
{
    if at < s.len() && scan(s, at) is Some {
        lemma_scan_advances(s, at);
        lemma_width_bound(s, at);
        let (token, end) = scan(s, at)->0;
        let (next_line, next_column) = advance(token, line, column);
        lemma_lex_places(s, end, next_line, next_column);
    }
}

/// Whether `error` is the error of a scan that came to `scanned`: it holds
/// the line and column where the scan stopped and the message of its cause.
pub open spec fn reports(error: TokenizerError, scanned: Lexed) -> bool {
    &&& error.line == scanned.line
    &&& error.column == scanned.column
    &&& match scanned.stop {
        Stop::EndOfInput => false,
        Stop::UnrecognizedCharacter => error.message@ == UNRECOGNIZED_CHARACTER@,
        Stop::PositionOverflow => error.message@ == POSITION_OVERFLOW@,
    }
}

impl Tokenizer {
    /// Turns the source into tokens, from its first character on, and moves
    /// this tokenizer's line and column behind each token read. At the first
    /// token that cannot be read or placed, the line and column stay at its
    /// start and the error holds them.
    pub fn tokenize(&mut self) -> (result: Result<Vec<Token>, TokenizerError>)
        ensures
            final(self).source@ == old(self).source@,
            ({
                let scanned = lex(old(self).source@, 0, old(self).line as int, old(self).column as int);
                &&& final(self).line == scanned.line
                &&& final(self).column == scanned.column
                &&& match result {
                    Ok(tokens) => scanned.stop is EndOfInput && lexemes(tokens@) == scanned.tokens,
                    Err(e) => reports(e, scanned),
                }
            }),
    {
        let chars = characters(self.source.as_str());
        let mut tokens: Vec<Token> = Vec::new();
        let mut at: usize = 0;
        let ghost whole = lex(chars@, 0, self.line as int, self.column as int);
        loop
            invariant
                chars@ == self.source@,
                self.source@ == old(self).source@,
                at <= chars.len(),
                whole == lex(old(self).source@, 0, old(self).line as int, old(self).column as int),
                ({
                    let rest = lex(chars@, at as int, self.line as int, self.column as int);
                    &&& whole.tokens == lexemes(tokens@) + rest.tokens
                    &&& whole.line == rest.line
                    &&& whole.column == rest.column
                    &&& whole.stop == rest.stop
                }),
            ensures
                at >= chars.len(),
            decreases chars.len() - at,
        {
            let (token, end) = match self.next_token(&chars, at) {
                Err(e) => { return Err(e); },
                Ok(None) => { break; },
                Ok(Some(read)) => read,
            };
            proof {
                lemma_scan_advances(chars@, at as int);
            }
            let placed = match &token {
                Token::Whitespace(Whitespace::Newline) => match self.line.checked_add(1) {
                    Some(line) => Some((line, 1usize)),
                    None => None,
                },
                Token::Whitespace(Whitespace::Tab) => match self.column.checked_add(TAB_SIZE) {
                    Some(column) => Some((self.line, column)),
                    None => None,
                },
                _ => match self.column.checked_add(end - at) {
                    Some(column) => Some((self.line, column)),
                    None => None,
                },
            };
            match placed {
                None => {
                    return Err(
                        TokenizerError {
                            message: POSITION_OVERFLOW,
                            line: self.line,
                            column: self.column,
                        },
                    );
                },
                Some((line, column)) => {
                    proof {
                        let rest = lex(chars@, end as int, line as int, column as int);
                        assert(lexemes(tokens@.push(token)) =~= lexemes(tokens@).push(token@));
                        assert(lexemes(tokens@).push(token@) + rest.tokens =~= lexemes(tokens@) + (
                        seq![token@] + rest.tokens));
                    }
                    self.line = line;
                    self.column = column;
                    tokens.push(token);
                    at = end;
                },
            }
        }
        Ok(tokens)
    }
}

/// The tokens of `input`, with the scan started at line 1 and column 1.
pub fn tokenize(input: String) -> (result: Result<Vec<Token>, TokenizerError>)
    ensures
        ({
            let scanned = lex(input@, 0, 1, 1);
            match result {
                Ok(tokens) => scanned.stop is EndOfInput && lexemes(tokens@) == scanned.tokens,
                Err(e) => reports(e, scanned),
            }
        }),
{
    let mut tokenizer = Tokenizer { source: input, line: 1, column: 1 };
    tokenizer.tokenize()
}

} // verus!
