//! The parser: from tokens to pair trees.

use vstd::prelude::*;
use crate::number::{float_literal, integer_literal, is_float, parse_integer};
use crate::sexpr_tokenizer::{
    characters, lex, lexemes, reports, Lexeme, Token, Tokenizer, TokenizerError,
};

verus! {

/// A single data element of an s-expression.
#[derive(Debug, PartialEq)]
pub enum Atom {
    /// N stands for node: a name.
    N(String),
    /// I stands for integer.
    I(i64),
    /// F stands for a floating-point number. It holds the literal as it was
    /// written: its form is checked here, its value is not computed.
    F(String),
}

/// An s-expression: the empty group, an atom, or a pair of s-expressions.
#[derive(Debug, PartialEq)]
pub enum Sexp {
    /// Bottom type, ()
    Unit,
    Atom(Atom),
    Pair(Box<Sexp>, Box<Sexp>),
}

/// What an atom is, with its text as a sequence of characters.
pub enum Leaf {
    N(Seq<char>),
    I(int),
    F(Seq<char>),
}

/// What an s-expression is.
pub enum Tree {
    Unit,
    Atom(Leaf),
    Pair(Box<Tree>, Box<Tree>),
}

impl View for Atom {
    type V = Leaf;

    open spec fn view(&self) -> Leaf {
        match self {
            Atom::N(s) => Leaf::N(s@),
            Atom::I(n) => Leaf::I(*n as int),
            Atom::F(s) => Leaf::F(s@),
        }
    }
}

impl Clone for Atom {
    fn clone(&self) -> (copy: Atom)
        ensures
            copy@ == self@,
    {
        match self {
            Atom::N(s) => Atom::N(s.clone()),
            Atom::I(n) => Atom::I(*n),
            Atom::F(s) => Atom::F(s.clone()),
        }
    }
}

impl Sexp {
    /// The tree that this s-expression stands for.
    pub open spec fn tree(self) -> Tree
        decreases self,
    {
        match self {
            Sexp::Unit => Tree::Unit,
            Sexp::Atom(a) => Tree::Atom(a@),
            Sexp::Pair(l, r) => Tree::Pair(Box::new(l.tree()), Box::new(r.tree())),
        }
    }
}

impl View for Sexp {
    type V = Tree;

    open spec fn view(&self) -> Tree {
        self.tree()
    }
}

impl Clone for Sexp {
    fn clone(&self) -> (copy: Sexp)
        ensures
            copy@ == self@,
        decreases self,
    {
        match self {
            Sexp::Unit => Sexp::Unit,
            Sexp::Atom(a) => Sexp::Atom(a.clone()),
            Sexp::Pair(l, r) => Sexp::Pair(Box::new((**l).clone()), Box::new((**r).clone())),
        }
    }
}

/// The s-expressions of a vector, each by its view.
pub open spec fn trees(expressions: Seq<Sexp>) -> Seq<Tree> {
    expressions.map_values(|e: Sexp| e@)
}

/// The list of `items` as pairs nested to the right, closed by the unit:
/// `a b c` is `Pair(a, Pair(b, Pair(c, Unit)))`.
pub open spec fn pair_list(items: Seq<Tree>) -> Tree
    decreases items.len(),
{
    if items.len() == 0 {
        Tree::Unit
    } else {
        Tree::Pair(Box::new(items[0]), Box::new(pair_list(items.drop_first())))
    }
}

/// The tree of a group with the elements `items`: the unit for none, the
/// element itself for one, a bare pair for two, and the list of pairs for more.
pub open spec fn group_tree(items: Seq<Tree>) -> Tree {
    if items.len() == 0 {
        Tree::Unit
    } else if items.len() == 1 {
        items[0]
    } else if items.len() == 2 {
        Tree::Pair(Box::new(items[0]), Box::new(items[1]))
    } else {
        pair_list(items)
    }
}

/// Builds the list of pairs of `expressions`, nested to the right and closed
/// by the unit.
pub fn build_pair(expressions: Vec<Sexp>) -> (list: Sexp)
    ensures
        list@ == pair_list(trees(expressions@)),
{
    let mut expressions = expressions;
    let ghost all = trees(expressions@);
    let mut list = Sexp::Unit;
    proof {
        assert(all.take(all.len() as int) =~= all);
    }
    while expressions.len() > 0
        invariant
            expressions.len() <= all.len(),
            trees(expressions@) == all.take(expressions.len() as int),
            list@ == pair_list(all.skip(expressions.len() as int)),
        decreases expressions.len(),
    {
        let ghost before = expressions@;
        let last = expressions.pop().unwrap();
        proof {
            let n = before.len() as int;
            assert(trees(before)[n - 1] == last@);
            assert(trees(expressions@) =~= all.take(n - 1));
            assert(all.skip(n - 1).drop_first() =~= all.skip(n));
        }
        list = Sexp::Pair(Box::new(last), Box::new(list));
    }
    proof {
        assert(all.skip(0) =~= all);
    }
    list
}

/// What is wrong with a sequence of tokens.
#[derive(Clone, Copy, Debug, PartialEq, Eq)]
pub enum SyntaxError {
    /// An expression was expected where the tokens end.
    NoExpression,
    /// A `)` stands where an expression should start.
    UnmatchedCloseParen,
    /// A name or a number stands outside of every group.
    NoRootValue,
    /// The tokens end inside a group.
    UnclosedParen,
    /// A number token is neither an integer nor a floating-point literal.
    InvalidNumberLiteral,
}

impl SyntaxError {
    /// The message of the error.
    pub open spec fn text(self) -> Seq<char> {
        match self {
            SyntaxError::NoExpression => "No expression is given. Quiting..."@,
            SyntaxError::UnmatchedCloseParen => "Unmatched right parenthesis"@,
            SyntaxError::NoRootValue => "No root value outside of parenthesis"@,
            SyntaxError::UnclosedParen => "Unclosed parenthesis"@,
            SyntaxError::InvalidNumberLiteral => "Error parsing number literal"@,
        }
    }

    /// The message of the error.
    pub fn message(&self) -> (text: &'static str)
        ensures
            text@ == self.text(),
    {
        match self {
            SyntaxError::NoExpression => "No expression is given. Quiting...",
            SyntaxError::UnmatchedCloseParen => "Unmatched right parenthesis",
            SyntaxError::NoRootValue => "No root value outside of parenthesis",
            SyntaxError::UnclosedParen => "Unclosed parenthesis",
            SyntaxError::InvalidNumberLiteral => "Error parsing number literal",
        }
    }
}

/// An error of `Parser::parse`, by the stage that failed.
#[derive(Debug)]
pub enum ParserError {
    TokenizerError(TokenizerError),
    ParserError(SyntaxError),
}

/// The atom of a number token with the text `text`: the integer, where the
/// text is an integer literal that an `i64` holds; else the text itself,
/// where it is a floating-point literal; else none.
pub open spec fn number(text: Seq<char>) -> Option<Leaf> {
    let integer = integer_literal(text);
    if integer is Some && i64::MIN <= integer->0 <= i64::MAX {
        Some(Leaf::I(integer->0))
    } else if float_literal(text) {
        Some(Leaf::F(text))
    } else {
        None
    }
}

/// The atom of a number token, or `None` where its text is no number.
pub fn number_atom(text: String) -> (atom: Option<Atom>)
    ensures
        match atom {
            Some(a) => number(text@) == Some(a@),
            None => number(text@) is None,
        },
{
    let chars = characters(text.as_str());
    match parse_integer(&chars) {
        Some(n) => Some(Atom::I(n)),
        None => if is_float(&chars) {
            Some(Atom::F(text))
        } else {
            None
        },
    }
}

/// Whether a token reaches the grammar: all but whitespace do.
pub open spec fn is_significant(token: Lexeme) -> bool {
    !(token is Whitespace)
}

/// The tokens that reach the grammar, in order.
pub open spec fn significant(tokens: Seq<Lexeme>) -> Seq<Lexeme> {
    tokens.filter(|t: Lexeme| is_significant(t))
}

/// The significant tokens from index `i` on are the token at `i`, if it is
/// significant, and those from `i + 1` on.
proof fn lemma_significant_step(tokens: Seq<Lexeme>, i: int)
    requires
        0 <= i < tokens.len(),
    ensures
        significant(tokens.skip(i)) == if is_significant(tokens[i]) {
            seq![tokens[i]] + significant(tokens.skip(i + 1))
        } else {
            significant(tokens.skip(i + 1))
        },
{
    let keep = |t: Lexeme| is_significant(t);
    let head = seq![tokens[i]];
    assert(tokens.skip(i) =~= head + tokens.skip(i + 1));
    Seq::filter_distributes_over_add(head, tokens.skip(i + 1), keep);
    reveal_with_fuel(Seq::filter, 2);
    assert(head.drop_last() =~= Seq::<Lexeme>::empty());
    assert(head.filter(keep) =~= if is_significant(tokens[i]) {
        head
    } else {
        Seq::<Lexeme>::empty()
    });
}

/// A result of the grammar on a sequence of tokens: the value read or the
/// error, and the tokens that were not consumed.
pub struct Parsed<T> {
    pub value: Result<T, SyntaxError>,
    pub rest: Seq<Lexeme>,
}

/// `parsed` with `items` in front of the elements it read.
pub open spec fn items_then(items: Seq<Tree>, parsed: Parsed<Seq<Tree>>) -> Parsed<Seq<Tree>> {
    Parsed {
        value: match parsed.value {
            Ok(more) => Ok(items + more),
            Err(e) => Err(e),
        },
        rest: parsed.rest,
    }
}

/// The elements of the group whose `(` stands just before `tokens`, up to
/// the `)` that closes it: a name for each word and quoted atom, a number
/// for each number token, and the tree of each inner group.
pub open spec fn group_items(tokens: Seq<Lexeme>) -> Parsed<Seq<Tree>>
    decreases tokens.len(),
{
    if tokens.len() == 0 {
        Parsed { value: Err(SyntaxError::UnclosedParen), rest: tokens }
    } else {
        let rest = tokens.drop_first();
        match tokens[0] {
            Lexeme::CloseParen => Parsed { value: Ok(Seq::empty()), rest },
            Lexeme::OpenParen => {
                let inner = group_items(rest);
                match inner.value {
                    Err(e) => Parsed { value: Err(e), rest: inner.rest },
                    Ok(items) => if inner.rest.len() < rest.len() {
                        items_then(seq![group_tree(items)], group_items(inner.rest))
                    } else {
                        // A group holds its `)` at least: see `lemma_group_items_consumes`.
                        Parsed { value: Err(SyntaxError::UnclosedParen), rest: inner.rest }
                    },
                }
            },
            Lexeme::Number(text) => match number(text) {
                Some(leaf) => items_then(seq![Tree::Atom(leaf)], group_items(rest)),
                None => Parsed { value: Err(SyntaxError::InvalidNumberLiteral), rest },
            },
            Lexeme::Word(text) => items_then(seq![Tree::Atom(Leaf::N(text))], group_items(rest)),
            Lexeme::Atom(text) => items_then(seq![Tree::Atom(Leaf::N(text))], group_items(rest)),
            Lexeme::Whitespace(_) => group_items(rest),
        }
    }
}

/// Reading a group consumes tokens and brings none: what is left is no
/// longer than what was there, and shorter where the group was closed.
pub proof fn lemma_group_items_consumes(tokens: Seq<Lexeme>)
    ensures
        group_items(tokens).rest.len() <= tokens.len(),
        group_items(tokens).value is Ok ==> group_items(tokens).rest.len() < tokens.len(),
    decreases tokens.len(),
{
    if tokens.len() > 0 {
        let rest = tokens.drop_first();
        lemma_group_items_consumes(rest);
        if tokens[0] is OpenParen {
            let inner = group_items(rest);
            if inner.value is Ok {
                lemma_group_items_consumes(inner.rest);
            }
        }
    }
}

/// The expression at the start of `tokens`: the tree of the group that a `(`
/// opens there. Anything else in its place is an error.
pub open spec fn expression(tokens: Seq<Lexeme>) -> Parsed<Tree> {
    if tokens.len() == 0 {
        Parsed { value: Err(SyntaxError::NoExpression), rest: tokens }
    } else {
        let rest = tokens.drop_first();
        match tokens[0] {
            Lexeme::OpenParen => {
                let group = group_items(rest);
                Parsed {
                    value: match group.value {
                        Ok(items) => Ok(group_tree(items)),
                        Err(e) => Err(e),
                    },
                    rest: group.rest,
                }
            },
            Lexeme::CloseParen => Parsed { value: Err(SyntaxError::UnmatchedCloseParen), rest },
            _ => Parsed { value: Err(SyntaxError::NoRootValue), rest },
        }
    }
}

/// Reading an expression consumes its tokens: what is left is no longer than
/// what was there, and shorter where an expression was read.
pub proof fn lemma_expression_consumes(tokens: Seq<Lexeme>)
    ensures
        expression(tokens).rest.len() <= tokens.len(),
        expression(tokens).value is Ok ==> expression(tokens).rest.len() + 2 <= tokens.len(),
{
    if tokens.len() > 0 {
        lemma_group_items_consumes(tokens.drop_first());
    }
}

/// The expressions that `tokens` holds, one after the other up to the end,
/// or the error of the first that fails.
pub open spec fn expressions(tokens: Seq<Lexeme>) -> Result<Seq<Tree>, SyntaxError>
    decreases tokens.len(),
{
    if tokens.len() == 0 {
        Ok(Seq::empty())
    } else {
        let first = expression(tokens);
        match first.value {
            Err(e) => Err(e),
            Ok(tree) => {
                proof {
                    lemma_expression_consumes(tokens);
                }
                match expressions(first.rest) {
                    Ok(more) => Ok(seq![tree] + more),
                    Err(e) => Err(e),
                }
            },
        }
    }
}

/// A cursor over tokens that passes over whitespace.
pub struct Parser {
    tokens: Vec<Token>,
    index: usize,
}

impl View for Parser {
    type V = Seq<Lexeme>;

    /// The significant tokens that have not been consumed yet.
    closed spec fn view(&self) -> Seq<Lexeme> {
        significant(lexemes(self.tokens@).skip(self.index as int))
    }
}

impl Parser {
    #[verifier::type_invariant]
    spec fn in_bounds(self) -> bool {
        self.index <= self.tokens.len()
    }

    /// A cursor at the start of `tokens`.
    pub fn new(tokens: Vec<Token>) -> (parser: Self)
        ensures
            parser@ == significant(lexemes(tokens@)),
    {
        proof {
            assert(lexemes(tokens@).skip(0) =~= lexemes(tokens@));
        }
        Parser { tokens, index: 0 }
    }

    /// Return the first non-whitespace token that has not yet been processed
    /// (or None if reached end-of-file)
    pub fn peek_token(&self) -> (token: Option<Token>)
        ensures
            match token {
                Some(t) => self@.len() > 0 && t@ == self@[0],
                None => self@.len() == 0,
            },
    {
        self.peek_nth_token(0)
    }

    /// Return nth non-whitespace token that has not yet been processed
    pub fn peek_nth_token(&self, n: usize) -> (token: Option<Token>)
        ensures
            match token {
                Some(t) => n < self@.len() && t@ == self@[n as int],
                None => n >= self@.len(),
            },
    {
        proof {
            use_type_invariant(self);
        }
        let ghost all = lexemes(self.tokens@);
        let mut left = n;
        let mut index = self.index;
        while index < self.tokens.len()
            invariant
                index <= self.tokens.len(),
                all == lexemes(self.tokens@),
                left <= n,
                n - left <= self@.len(),
                self@.skip(n - left) == significant(all.skip(index as int)),
            decreases self.tokens.len() - index,
        {
            proof {
                lemma_significant_step(all, index as int);
            }
            match &self.tokens[index] {
                Token::Whitespace(_) => {},
                token => {
                    if left == 0 {
                        assert(self@.skip(n as int)[0] == token@);
                        assert(self@.skip(n as int).len() > 0);
                        return Some(token.clone());
                    }
                    proof {
                        assert(self@.skip(n - left).drop_first() =~= self@.skip(n - left + 1));
                        assert((seq![all[index as int]] + significant(
                            all.skip(index + 1),
                        )).drop_first() =~= significant(all.skip(index + 1)));
                    }
                    left -= 1;
                },
            }
            index += 1;
        }
        proof {
            assert(all.skip(index as int) =~= Seq::<Lexeme>::empty());
            reveal_with_fuel(Seq::filter, 1);
        }
        None
    }

    /// Return the first non-whitespace token that has not yet been processed
    /// (or None if reached end-of-file) and mark it as processed. OK to call
    /// repeatedly after reaching EOF.
    pub fn next_token(&mut self) -> (token: Option<Token>)
        ensures
            match token {
                Some(t) => old(self)@.len() > 0 && t@ == old(self)@[0] && final(self)@ == old(
                    self,
                )@.drop_first(),
                None => old(self)@.len() == 0 && final(self)@ == old(self)@,
            },
    {
        proof {
            use_type_invariant(&*self);
        }
        let ghost all = lexemes(self.tokens@);
        let mut index = self.index;
        while index < self.tokens.len()
            invariant
                index <= self.tokens.len(),
                all == lexemes(self.tokens@),
                *self == *old(self),
                self@ == significant(all.skip(index as int)),
            decreases self.tokens.len() - index,
        {
            proof {
                lemma_significant_step(all, index as int);
            }
            match &self.tokens[index] {
                Token::Whitespace(_) => {},
                token => {
                    let token = token.clone();
                    proof {
                        assert((seq![all[index as int]] + significant(
                            all.skip(index + 1),
                        )).drop_first() =~= significant(all.skip(index + 1)));
                    }
                    self.index = index + 1;
                    return Some(token);
                },
            }
            index += 1;
        }
        proof {
            assert(all.skip(index as int) =~= Seq::<Lexeme>::empty());
            reveal_with_fuel(Seq::filter, 1);
        }
        self.index = index;
        None
    }
}

/// Whether `result` is what the grammar gives as `parsed`: the tree of the
/// value, or the same error.
pub open spec fn agrees(result: Result<Sexp, ParserError>, parsed: Result<Tree, SyntaxError>) -> bool {
    match result {
        Ok(sexp) => parsed == Ok::<Tree, SyntaxError>(sexp@),
        Err(ParserError::ParserError(e)) => parsed == Err::<Tree, SyntaxError>(e),
        Err(ParserError::TokenizerError(_)) => false,
    }
}

impl Parser {
    /// Reads one expression: a group from its `(` to its `)`.
    pub fn parse_expression(&mut self) -> (result: Result<Sexp, ParserError>)
        ensures
            agrees(result, expression(old(self)@).value),
            final(self)@ == expression(old(self)@).rest,
    {
        match self.next_token() {
            Some(t) => match t {
                Token::OpenParen => self.build_sexp(),
                Token::CloseParen => Err(ParserError::ParserError(SyntaxError::UnmatchedCloseParen)),
                _ => Err(ParserError::ParserError(SyntaxError::NoRootValue)),
            },
            None => Err(ParserError::ParserError(SyntaxError::NoExpression)),
        }
    }

    /// Reads the elements of a group whose `(` was consumed, up to its `)`,
    /// and builds the tree of the group.
    pub fn build_sexp(&mut self) -> (result: Result<Sexp, ParserError>)
        ensures
            agrees(
                result,
                match group_items(old(self)@).value {
                    Ok(items) => Ok(group_tree(items)),
                    Err(e) => Err(e),
                },
            ),
            final(self)@ == group_items(old(self)@).rest,
        decreases old(self)@.len(),
    {
        let mut temp_sexp: Vec<Sexp> = Vec::new();
        let ghost whole = group_items(self@);
        loop
            invariant_except_break
                self@.len() <= old(self)@.len(),
                whole == group_items(old(self)@),
                whole.rest == group_items(self@).rest,
                match group_items(self@).value {
                    Ok(items) => whole.value == Ok::<Seq<Tree>, SyntaxError>(
                        trees(temp_sexp@) + items,
                    ),
                    Err(e) => whole.value == Err::<Seq<Tree>, SyntaxError>(e),
                },
            ensures
                whole == group_items(old(self)@),
                whole.rest == self@,
                whole.value == Ok::<Seq<Tree>, SyntaxError>(trees(temp_sexp@)),
            decreases self@.len(),
        {
            let ghost before = trees(temp_sexp@);
            let element = match self.next_token() {
                None => {
                    return Err(ParserError::ParserError(SyntaxError::UnclosedParen));
                },
                Some(t) => match t {
                    Token::Atom(s) => Sexp::Atom(Atom::N(s)),
                    Token::Word(s) => Sexp::Atom(Atom::N(s)),
                    Token::Number(number_literal) => match number_atom(number_literal) {
                        Some(atom) => Sexp::Atom(atom),
                        None => {
                            return Err(
                                ParserError::ParserError(SyntaxError::InvalidNumberLiteral),
                            );
                        },
                    },
                    Token::OpenParen => {
                        proof {
                            lemma_group_items_consumes(self@);
                        }
                        match self.build_sexp() {
                            Ok(inner) => inner,
                            Err(e) => {
                                return Err(e);
                            },
                        }
                    },
                    Token::CloseParen => {
                        proof {
                            assert(before + Seq::<Tree>::empty() =~= before);
                        }
                        break;
                    },
                    Token::Whitespace(_) => {
                        continue;
                    },
                },
            };
            proof {
                let more = group_items(self@);
                assert(trees(temp_sexp@.push(element)) =~= before.push(element@));
                if more.value is Ok {
                    assert(before.push(element@) + more.value->Ok_0 =~= before + (seq![element@]
                        + more.value->Ok_0));
                }
            }
            temp_sexp.push(element);
        }
        match temp_sexp.len() {
            0 => Ok(Sexp::Unit),
            1 => {
                let only = temp_sexp.pop().unwrap();
                Ok(only)
            },
            2 => {
                let second = temp_sexp.pop().unwrap();
                let first = temp_sexp.pop().unwrap();
                Ok(Sexp::Pair(Box::new(first), Box::new(second)))
            },
            _ => Ok(build_pair(temp_sexp)),
        }
    }

    /// Reads every expression of `sexpr`: turns the text into tokens, and
    /// reads one expression after the other until no token is left. The first
    /// error ends the work, be it of the lexer or of the grammar.
    pub fn parse(sexpr: String) -> (result: Result<Vec<Sexp>, ParserError>)
        ensures
            ({
                let scanned = lex(sexpr@, 0, 1, 1);
                match result {
                    Ok(found) => scanned.stop is EndOfInput && expressions(
                        significant(scanned.tokens),
                    ) == Ok::<Seq<Tree>, SyntaxError>(trees(found@)),
                    Err(ParserError::TokenizerError(e)) => reports(e, scanned),
                    Err(ParserError::ParserError(e)) => scanned.stop is EndOfInput && expressions(
                        significant(scanned.tokens),
                    ) == Err::<Seq<Tree>, SyntaxError>(e),
                }
            }),
    {
        let mut tokenizer = Tokenizer::new(sexpr.as_str());
        let tokens = match tokenizer.tokenize() {
            Ok(tokens) => tokens,
            Err(e) => {
                return Err(ParserError::TokenizerError(e));
            },
        };
        let mut parser = Parser::new(tokens);
        let ghost all = parser@;
        let mut found: Vec<Sexp> = Vec::new();
        loop
            invariant_except_break
                match expressions(parser@) {
                    Ok(more) => expressions(all) == Ok::<Seq<Tree>, SyntaxError>(
                        trees(found@) + more,
                    ),
                    Err(e) => expressions(all) == Err::<Seq<Tree>, SyntaxError>(e),
                },
            invariant
                lex(sexpr@, 0, 1, 1).stop is EndOfInput,
                all == significant(lex(sexpr@, 0, 1, 1).tokens),
            ensures
                expressions(all) == Ok::<Seq<Tree>, SyntaxError>(trees(found@)),
            decreases parser@.len(),
        {
            if parser.peek_token().is_none() {
                proof {
                    assert(trees(found@) + Seq::<Tree>::empty() =~= trees(found@));
                }
                break;
            }
            let ghost before = trees(found@);
            proof {
                lemma_expression_consumes(parser@);
            }
            let expression = match parser.parse_expression() {
                Ok(expression) => expression,
                Err(e) => {
                    return Err(e);
                },
            };
            proof {
                let more = expressions(parser@);
                assert(trees(found@.push(expression)) =~= before.push(expression@));
                if more is Ok {
                    assert(before.push(expression@) + more->Ok_0 =~= before + (seq![expression@]
                        + more->Ok_0));
                }
            }
            found.push(expression);
        }
        Ok(found)
    }
}

} // verus!
