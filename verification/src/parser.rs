//! Tokens to a syntax tree, by recursive descent.

use vstd::prelude::*;
use crate::ast::{
    child_view, clone_stmt, properties_view, stmts_view, strings_view, Program, Property, PropertyView, Stmt,
    StmtView,
};
use crate::error::{ParseError, ParseErrorView, SyntaxError, SyntaxErrorView};
use crate::grammar;
use crate::grammar::{Parsed, ParsedList};
use crate::lexer::{lex, Lexer};
use crate::text::str_eq;
use crate::token::{tokens_view, Token, TokenType, TokenView};

verus! {

/// The program that a source text stands for: its tokens, parsed.
pub open spec fn parse_source(src: Seq<char>) -> Result<Seq<StmtView>, SyntaxErrorView> {
    match lex(src) {
        Err(e) => Err(SyntaxErrorView::Lexer(e)),
        Ok(tokens) => match grammar::program(tokens) {
            Ok(body) => Ok(body),
            Err(e) => Err(SyntaxErrorView::Parse(e)),
        },
    }
}

/// The view of what [`Parser::produce_ast`] returns.
pub open spec fn produced_view(result: Result<Program, SyntaxError>) -> Result<
    Seq<StmtView>,
    SyntaxErrorView,
> {
    match result {
        Ok(program) => Ok(program@),
        Err(e) => Err(e@),
    }
}

/// Whether a rule that returned `result` and left the parser at `end` did
/// what the grammar says.
pub open spec fn parsed_as(result: Result<Stmt, ParseError>, end: int, expected: Parsed) -> bool {
    match result {
        Ok(node) => expected == Ok::<(StmtView, int), ParseErrorView>((node@, end)),
        Err(e) => expected == Err::<(StmtView, int), ParseErrorView>(e@),
    }
}

/// [`parsed_as`] for a rule that returns a list of nodes.
pub open spec fn parsed_list_as(result: Result<Vec<Stmt>, ParseError>, end: int, expected: ParsedList) -> bool {
    match result {
        Ok(nodes) => expected == Ok::<(Seq<StmtView>, int), ParseErrorView>(
            (stmts_view(nodes@), end),
        ),
        Err(e) => expected == Err::<(Seq<StmtView>, int), ParseErrorView>(e@),
    }
}

/// A recursive-descent parser over the tokens of one source text.
#[derive(Debug)]
pub struct Parser {
    tokens: Vec<Token>,
    position: usize,
}

impl Parser {
    /// The tokens being parsed, as plain values.
    pub closed spec fn stream(&self) -> Seq<TokenView> {
        tokens_view(self.tokens@)
    }

    /// The parser stands inside its stream or right behind it.
    pub closed spec fn wf(&self) -> bool {
        self.position <= self.tokens.len()
    }

    /// A parser with nothing to parse yet.
    pub fn new() -> (parser: Parser)
        ensures
            parser.wf(),
            parser.stream() == Seq::<TokenView>::empty(),
    {
        let parser = Parser { tokens: Vec::new(), position: 0 };
        assert(parser.stream() =~= Seq::<TokenView>::empty());
        parser
    }

    /// Scans and parses a source text. The first failure, of the scanner
    /// or of the parser, ends the call. The parser then holds the tokens
    /// of the text; a text that cannot be scanned leaves it as it was.
    pub fn produce_ast(&mut self, src: String) -> (result: Result<Program, SyntaxError>)
        ensures
            produced_view(result) == parse_source(src@),
            match lex(src@) {
                Ok(tokens) => final(self).wf() && final(self).stream() == tokens,
                Err(_) => *final(self) == *old(self),
            },
    {
        let tokens = match Lexer::tokenize(src.as_str()) {
            Ok(tokens) => tokens,
            Err(e) => {
                return Err(SyntaxError::Lexer(e));
            },
        };
        match self.parse_tokens(tokens) {
            Ok(program) => Ok(program),
            Err(e) => Err(SyntaxError::Parse(e)),
        }
    }

    /// Parses a token stream: the statements up to the end-of-input
    /// sentinel, or to the end of the stream where it holds none. The
    /// first failure ends the call. The parser then holds the stream.
    pub fn parse_tokens(&mut self, tokens: Vec<Token>) -> (result: Result<Program, ParseError>)
        ensures
            match result {
                Ok(program) => grammar::program(tokens_view(tokens@)) == Ok::<
                    Seq<StmtView>,
                    ParseErrorView,
                >(program@),
                Err(e) => grammar::program(tokens_view(tokens@)) == Err::<
                    Seq<StmtView>,
                    ParseErrorView,
                >(e@),
            },
            final(self).wf(),
            final(self).stream() == tokens_view(tokens@),
    {
        self.tokens = tokens;
        self.position = 0;
        let mut body: Vec<Stmt> = Vec::new();
        assert(stmts_view(body@) =~= Seq::<StmtView>::empty());
        loop
            invariant
                self.wf(),
                self.tokens == tokens,
                grammar::program_tail(self.stream(), Seq::empty(), 0) == grammar::program_tail(
                    self.stream(),
                    stmts_view(body@),
                    self.position as int,
                ),
            decreases self.tokens.len() - self.position,
        {
            if self.at_end_of_program() {
                return Ok(Program { body });
            }
            match self.parse_stmt() {
                Ok(stmt) => {
                    assert(stmts_view(body@.push(stmt)) =~= stmts_view(body@).push(stmt@));
                    body.push(stmt);
                },
                Err(e) => {
                    return Err(e);
                },
            }
        }
    }

    /// Whether the top-level statements end here.
    fn at_end_of_program(&self) -> (ends: bool)
        requires
            self.wf(),
        ensures
            ends == grammar::program_ends(self.stream(), self.position as int),
    {
        match self.peek() {
            Some(token) => token.token_type == TokenType::Eof,
            None => true,
        }
    }

    /// Whether a block of statements, or the entries of an object
    /// literal, end here.
    fn at_end_of_block(&self) -> (ends: bool)
        requires
            self.wf(),
        ensures
            ends == grammar::block_ends(self.stream(), self.position as int),
    {
        match self.peek() {
            Some(token) => token.token_type == TokenType::RightBrace || token.token_type
                == TokenType::Eof,
            None => true,
        }
    }

    /// Whether the next token is of the given kind.
    fn next_is(&self, kind: TokenType) -> (is: bool)
        requires
            self.wf(),
        ensures
            is == grammar::at(self.stream(), self.position as int, kind),
    {
        match self.peek() {
            Some(token) => token.token_type == kind,
            None => false,
        }
    }

    /// The next token, left in the stream.
    fn peek(&self) -> (token: Option<&Token>)
        requires
            self.wf(),
        ensures
            self.position < self.tokens.len() ==> token is Some && *token->0
                == self.tokens[self.position as int] && token->0@ == self.stream()[self.position as int],
            self.position >= self.tokens.len() ==> token is None,
    {
        if self.position < self.tokens.len() {
            Some(&self.tokens[self.position])
        } else {
            None
        }
    }

    /// Takes the next token out of the stream, if there is one.
    fn eat(&mut self) -> (token: Option<Token>)
        requires
            old(self).wf(),
        ensures
            final(self).wf(),
            final(self).tokens == old(self).tokens,
            final(self).position as int == grammar::skip(
                old(self).stream(),
                old(self).position as int,
            ),
            old(self).position < old(self).tokens.len() ==> token is Some && token->0@
                == old(self).stream()[old(self).position as int],
            old(self).position >= old(self).tokens.len() ==> token is None,
    {
        if self.position < self.tokens.len() {
            let token = &self.tokens[self.position];
            let taken = Token { value: token.value.clone(), token_type: token.token_type };
            self.position = self.position + 1;
            Some(taken)
        } else {
            None
        }
    }

    /// Takes the next token as the one that the grammar has here,
    /// whatever its kind.
    fn skip(&mut self)
        requires
            old(self).wf(),
        ensures
            final(self).wf(),
            final(self).tokens == old(self).tokens,
            final(self).position as int == grammar::skip(
                old(self).stream(),
                old(self).position as int,
            ),
    {
        if self.position < self.tokens.len() {
            self.position = self.position + 1;
        }
    }

    /// Takes the next token and requires it to be of the given kind.
    fn expect(&mut self, token_type: TokenType, err: &str) -> (result: Result<Token, ParseError>)
        requires
            old(self).wf(),
        ensures
            final(self).wf(),
            final(self).tokens == old(self).tokens,
            match result {
                Ok(token) => grammar::expect(
                    old(self).stream(),
                    old(self).position as int,
                    token_type,
                    err@,
                ) == Ok::<(TokenView, int), ParseErrorView>((token@, final(self).position as int)),
                Err(e) => grammar::expect(
                    old(self).stream(),
                    old(self).position as int,
                    token_type,
                    err@,
                ) == Err::<(TokenView, int), ParseErrorView>(e@),
            },
            result is Ok ==> final(self).position == old(self).position + 1,
    {
        match self.eat() {
            Some(token) => {
                if token.token_type != token_type {
                    Err(ParseError::ExpectedCharacter(token_type, token.token_type, err.to_owned()))
                } else {
                    Ok(token)
                }
            },
            None => Err(ParseError::ExpectedToken),
        }
    }

    /// A statement, and the token behind it as its semicolon.
    fn parse_stmt(&mut self) -> (result: Result<Stmt, ParseError>)
        requires
            old(self).wf(),
        ensures
            final(self).wf(),
            final(self).tokens == old(self).tokens,
            parsed_as(
                result,
                final(self).position as int,
                grammar::statement(old(self).stream(), old(self).position as int),
            ),
            result is Ok ==> old(self).position < final(self).position,
        decreases old(self).tokens.len() - old(self).position, 10int,
    {
        let kind = match self.peek() {
            Some(token) => token.token_type,
            None => {
                return Err(ParseError::ExpectedToken);
            },
        };
        let stmt = match kind {
            TokenType::Comment => self.parse_comment_declaration(),
            TokenType::LetKeyword | TokenType::ConstKeyword => self.parse_variable_declaration(),
            TokenType::FnKeyword => self.parse_function_declaration(),
            _ => self.parse_expr(),
        };
        match stmt {
            Ok(stmt) => {
                self.skip();
                Ok(stmt)
            },
            Err(e) => Err(e),
        }
    }

    /// The comment that stands here, left in the stream.
    fn parse_comment_declaration(&mut self) -> (result: Result<Stmt, ParseError>)
        requires
            old(self).wf(),
            grammar::at(old(self).stream(), old(self).position as int, TokenType::Comment),
        ensures
            *final(self) == *old(self),
            result matches Ok(stmt) && stmt@ == StmtView::Comment(
                old(self).stream()[old(self).position as int].text,
            ),
    {
        match self.peek() {
            Some(token) => Ok(Stmt::Comment(token.value.clone())),
            None => Err(ParseError::ExpectedToken),
        }
    }

    /// An expression.
    fn parse_expr(&mut self) -> (result: Result<Stmt, ParseError>)
        requires
            old(self).wf(),
        ensures
            final(self).wf(),
            final(self).tokens == old(self).tokens,
            parsed_as(
                result,
                final(self).position as int,
                grammar::expression(old(self).stream(), old(self).position as int),
            ),
            result is Ok ==> old(self).position < final(self).position,
        decreases old(self).tokens.len() - old(self).position, 8int,
    {
        self.parse_assignment_expr()
    }

    /// An assignment, or what stands in its place.
    fn parse_assignment_expr(&mut self) -> (result: Result<Stmt, ParseError>)
        requires
            old(self).wf(),
        ensures
            final(self).wf(),
            final(self).tokens == old(self).tokens,
            parsed_as(
                result,
                final(self).position as int,
                grammar::assignment(old(self).stream(), old(self).position as int),
            ),
            result is Ok ==> old(self).position < final(self).position,
        decreases old(self).tokens.len() - old(self).position, 7int,
    {
        let left = match self.parse_object_expr() {
            Ok(left) => left,
            Err(e) => {
                return Err(e);
            },
        };
        if self.next_is(TokenType::Equals) {
            self.skip();
            match self.parse_assignment_expr() {
                Ok(value) => Ok(
                    Stmt::AssignmentExpr { assignee: Box::new(left), value: Box::new(value) },
                ),
                Err(e) => Err(e),
            }
        } else {
            Ok(left)
        }
    }

    /// Whether the next token reads `+` or `-`.
    fn at_additive_operator(&self) -> (is: bool)
        requires
            self.wf(),
        ensures
            is == grammar::additive_operator(self.stream(), self.position as int),
    {
        match self.peek() {
            Some(token) => str_eq(token.value.as_str(), "+") || str_eq(token.value.as_str(), "-"),
            None => false,
        }
    }

    /// Whether the next token reads `*`, `/` or `%`.
    fn at_multiplicative_operator(&self) -> (is: bool)
        requires
            self.wf(),
        ensures
            is == grammar::multiplicative_operator(self.stream(), self.position as int),
    {
        match self.peek() {
            Some(token) => str_eq(token.value.as_str(), "*") || str_eq(token.value.as_str(), "/")
                || str_eq(token.value.as_str(), "%"),
            None => false,
        }
    }

    /// A chain of `+` and `-`, joined to the left.
    fn parse_additive_expr(&mut self) -> (result: Result<Stmt, ParseError>)
        requires
            old(self).wf(),
        ensures
            final(self).wf(),
            final(self).tokens == old(self).tokens,
            parsed_as(
                result,
                final(self).position as int,
                grammar::additive(old(self).stream(), old(self).position as int),
            ),
            result is Ok ==> old(self).position < final(self).position,
        decreases old(self).tokens.len() - old(self).position, 5int,
    {
        let mut left = match self.parse_multiplicative_expr() {
            Ok(left) => left,
            Err(e) => {
                return Err(e);
            },
        };
        let ghost goal = grammar::additive(old(self).stream(), old(self).position as int);
        loop
            invariant
                self.wf(),
                self.tokens == old(self).tokens,
                old(self).position < self.position,
                goal == grammar::additive(old(self).stream(), old(self).position as int),
                goal == grammar::additive_tail(self.stream(), left@, self.position as int),
            decreases self.tokens.len() - self.position,
        {
            if !self.at_additive_operator() {
                return Ok(left);
            }
            let operator = match self.eat() {
                Some(token) => token.value,
                None => {
                    return Err(ParseError::ExpectedToken);
                },
            };
            match self.parse_multiplicative_expr() {
                Ok(right) => {
                    left =
                    Stmt::BinaryExpr { left: Box::new(left), right: Box::new(right), operator };
                },
                Err(e) => {
                    return Err(e);
                },
            }
        }
    }

    /// A chain of `*`, `/` and `%`, joined to the left.
    fn parse_multiplicative_expr(&mut self) -> (result: Result<Stmt, ParseError>)
        requires
            old(self).wf(),
        ensures
            final(self).wf(),
            final(self).tokens == old(self).tokens,
            parsed_as(
                result,
                final(self).position as int,
                grammar::multiplicative(old(self).stream(), old(self).position as int),
            ),
            result is Ok ==> old(self).position < final(self).position,
        decreases old(self).tokens.len() - old(self).position, 4int,
    {
        let mut left = match self.parse_call_member_expr() {
            Ok(left) => left,
            Err(e) => {
                return Err(e);
            },
        };
        let ghost goal = grammar::multiplicative(old(self).stream(), old(self).position as int);
        loop
            invariant
                self.wf(),
                self.tokens == old(self).tokens,
                old(self).position < self.position,
                goal == grammar::multiplicative(old(self).stream(), old(self).position as int),
                goal == grammar::multiplicative_tail(self.stream(), left@, self.position as int),
            decreases self.tokens.len() - self.position,
        {
            if !self.at_multiplicative_operator() {
                return Ok(left);
            }
            let operator = match self.eat() {
                Some(token) => token.value,
                None => {
                    return Err(ParseError::ExpectedToken);
                },
            };
            match self.parse_call_member_expr() {
                Ok(right) => {
                    left =
                    Stmt::BinaryExpr { left: Box::new(left), right: Box::new(right), operator };
                },
                Err(e) => {
                    return Err(e);
                },
            }
        }
    }

    /// A name, a number, or an expression in parentheses.
    fn parse_primary_expr(&mut self) -> (result: Result<Stmt, ParseError>)
        requires
            old(self).wf(),
        ensures
            final(self).wf(),
            final(self).tokens == old(self).tokens,
            parsed_as(
                result,
                final(self).position as int,
                grammar::primary(old(self).stream(), old(self).position as int),
            ),
            result is Ok ==> old(self).position < final(self).position,
        decreases old(self).tokens.len() - old(self).position, 0int,
    {
        match self.eat() {
            Some(token) => match token.token_type {
                TokenType::Identifier => Ok(Stmt::Identifier(token.value)),
                TokenType::Number => Ok(Stmt::NumericLiteral(token.value)),
                TokenType::LeftParen => match self.parse_expr() {
                    Ok(value) => match self.expect(
                        TokenType::RightParen,
                        "No right paren inside expression",
                    ) {
                        Ok(_) => Ok(value),
                        Err(e) => Err(e),
                    },
                    Err(e) => Err(e),
                },
                kind => Err(ParseError::UnsupportedTokenType(kind)),
            },
            None => Err(ParseError::ExpectedToken),
        }
    }

    /// A declaration with `let` or `const`.
    fn parse_variable_declaration(&mut self) -> (result: Result<Stmt, ParseError>)
        requires
            old(self).wf(),
        ensures
            final(self).wf(),
            final(self).tokens == old(self).tokens,
            parsed_as(
                result,
                final(self).position as int,
                grammar::variable_declaration(old(self).stream(), old(self).position as int),
            ),
            result is Ok ==> old(self).position < final(self).position,
        decreases old(self).tokens.len() - old(self).position, 9int,
    {
        let constant = match self.eat() {
            Some(token) => token.token_type == TokenType::ConstKeyword,
            None => {
                return Err(ParseError::ExpectedToken);
            },
        };
        let identifier = match self.expect(
            TokenType::Identifier,
            "Expected identifier name after let or const keyword",
        ) {
            Ok(token) => token.value,
            Err(e) => {
                return Err(e);
            },
        };
        let kind = match self.peek() {
            Some(token) => token.token_type,
            None => {
                return Err(ParseError::ExpectedToken);
            },
        };
        if kind == TokenType::Semicolon {
            self.skip();
            if constant {
                return Err(ParseError::ConstValueRequired);
            }
            let node = Stmt::VarDeclaration { constant, identifier, value: None };
            assert(child_view(None::<Box<Stmt>>) == None::<Box<StmtView>>);
            return Ok(node);
        }
        match self.expect(TokenType::Equals, "Expected equals token after identifier") {
            Ok(_) => {},
            Err(e) => {
                return Err(e);
            },
        }
        match self.parse_expr() {
            Ok(value) => {
                let value = Some(Box::new(value));
                assert(child_view(value) == Some(Box::new(value->0@)));
                Ok(Stmt::VarDeclaration { constant, identifier, value })
            },
            Err(e) => Err(e),
        }
    }

    /// The names of the parameters, where every argument is a bare name.
    fn parameters_of(args: &Vec<Stmt>) -> (result: Result<Vec<String>, ParseError>)
        ensures
            match result {
                Ok(names) => grammar::parameter_names(stmts_view(args@)) == Ok::<
                    Seq<Seq<char>>,
                    ParseErrorView,
                >(strings_view(names@)),
                Err(e) => grammar::parameter_names(stmts_view(args@)) == Err::<
                    Seq<Seq<char>>,
                    ParseErrorView,
                >(e@),
            },
    {
        let mut names: Vec<String> = Vec::new();
        let mut i: usize = 0;
        assert(stmts_view(args@).subrange(0, 0) =~= Seq::<StmtView>::empty());
        assert(strings_view(names@) =~= Seq::<Seq<char>>::empty());
        while i < args.len()
            invariant
                i <= args.len(),
                grammar::parameter_names(stmts_view(args@).subrange(0, i as int)) == Ok::<
                    Seq<Seq<char>>,
                    ParseErrorView,
                >(strings_view(names@)),
            decreases args.len() - i,
        {
            proof {
                let all = stmts_view(args@);
                assert(all.subrange(0, i + 1).drop_last() =~= all.subrange(0, i as int));
                assert(all.subrange(0, i + 1).last() == args[i as int]@);
                lemma_parameter_names_prefix(all, i + 1);
            }
            match &args[i] {
                Stmt::Identifier(name) => {
                    assert(strings_view(names@.push(*name)) =~= strings_view(names@).push(name@));
                    names.push(name.clone());
                },
                other => {
                    return Err(ParseError::ExpectedParameterToBeString(clone_stmt(other)));
                },
            }
            i += 1;
        }
        assert(stmts_view(args@).subrange(0, i as int) =~= stmts_view(args@));
        Ok(names)
    }

    /// A declaration with `fn`: name, parameters and body.
    fn parse_function_declaration(&mut self) -> (result: Result<Stmt, ParseError>)
        requires
            old(self).wf(),
            old(self).position < old(self).tokens.len(),
        ensures
            final(self).wf(),
            final(self).tokens == old(self).tokens,
            parsed_as(
                result,
                final(self).position as int,
                grammar::function_declaration(old(self).stream(), old(self).position as int),
            ),
            result is Ok ==> old(self).position < final(self).position,
        decreases old(self).tokens.len() - old(self).position, 9int,
    {
        self.skip();
        let name = match self.expect(
            TokenType::Identifier,
            "Expected function name following fn keyword",
        ) {
            Ok(token) => token.value,
            Err(e) => {
                return Err(e);
            },
        };
        let args = match self.parse_args() {
            Ok(args) => args,
            Err(e) => {
                return Err(e);
            },
        };
        let parameters = match Self::parameters_of(&args) {
            Ok(parameters) => parameters,
            Err(e) => {
                return Err(e);
            },
        };
        match self.expect(TokenType::LeftBrace, "Expected function body following declaration") {
            Ok(_) => {},
            Err(e) => {
                return Err(e);
            },
        }
        let body = match self.parse_block() {
            Ok(body) => body,
            Err(e) => {
                return Err(e);
            },
        };
        self.skip();
        Ok(Stmt::FnDeclaration { name, parameters, body, is_const: false })
    }

    /// The statements of a block, up to the token that ends it.
    fn parse_block(&mut self) -> (result: Result<Vec<Stmt>, ParseError>)
        requires
            old(self).wf(),
        ensures
            final(self).wf(),
            final(self).tokens == old(self).tokens,
            parsed_list_as(
                result,
                final(self).position as int,
                grammar::statements_tail(
                    old(self).stream(),
                    Seq::empty(),
                    old(self).position as int,
                ),
            ),
            result is Ok ==> old(self).position <= final(self).position,
        decreases old(self).tokens.len() - old(self).position, 11int,
    {
        let mut body: Vec<Stmt> = Vec::new();
        let ghost goal = grammar::statements_tail(
            old(self).stream(),
            Seq::empty(),
            old(self).position as int,
        );
        assert(stmts_view(body@) =~= Seq::<StmtView>::empty());
        loop
            invariant
                self.wf(),
                self.tokens == old(self).tokens,
                old(self).position <= self.position,
                goal == grammar::statements_tail(
                    old(self).stream(),
                    Seq::empty(),
                    old(self).position as int,
                ),
                goal == grammar::statements_tail(
                    self.stream(),
                    stmts_view(body@),
                    self.position as int,
                ),
            decreases self.tokens.len() - self.position,
        {
            if self.at_end_of_block() {
                return Ok(body);
            }
            match self.parse_stmt() {
                Ok(stmt) => {
                    assert(stmts_view(body@.push(stmt)) =~= stmts_view(body@).push(stmt@));
                    body.push(stmt);
                },
                Err(e) => {
                    return Err(e);
                },
            }
        }
    }

    /// An object literal, or an additive expression.
    fn parse_object_expr(&mut self) -> (result: Result<Stmt, ParseError>)
        requires
            old(self).wf(),
        ensures
            final(self).wf(),
            final(self).tokens == old(self).tokens,
            parsed_as(
                result,
                final(self).position as int,
                grammar::object(old(self).stream(), old(self).position as int),
            ),
            result is Ok ==> old(self).position < final(self).position,
        decreases old(self).tokens.len() - old(self).position, 6int,
    {
        let kind = match self.peek() {
            Some(token) => token.token_type,
            None => {
                return Err(ParseError::ExpectedToken);
            },
        };
        if kind != TokenType::LeftBrace {
            return self.parse_additive_expr();
        }
        self.skip();
        let mut properties: Vec<Property> = Vec::new();
        let ghost goal = grammar::properties_tail(
            old(self).stream(),
            Seq::empty(),
            old(self).position + 1,
        );
        assert(properties_view(properties@) =~= Seq::<PropertyView>::empty());
        loop
            invariant
                self.wf(),
                self.tokens == old(self).tokens,
                old(self).position < self.position,
                grammar::at(old(self).stream(), old(self).position as int, TokenType::LeftBrace),
                goal == grammar::properties_tail(
                    old(self).stream(),
                    Seq::empty(),
                    old(self).position + 1,
                ),
                goal == grammar::properties_tail(
                    self.stream(),
                    properties_view(properties@),
                    self.position as int,
                ),
            decreases self.tokens.len() - self.position,
        {
            if self.at_end_of_block() {
                return match self.expect(
                    TokenType::RightBrace,
                    "Object literal is missing a closing brace",
                ) {
                    Ok(_) => Ok(Stmt::ObjectLiteral(properties)),
                    Err(e) => Err(e),
                };
            }
            let key = match self.expect(TokenType::Identifier, "Object literal identifier expected") {
                Ok(token) => token.value,
                Err(e) => {
                    return Err(e);
                },
            };
            let kind = match self.peek() {
                Some(token) => token.token_type,
                None => {
                    return Err(ParseError::ExpectedToken);
                },
            };
            if kind == TokenType::Comma {
                self.skip();
                let property = Property { key, value: None };
                assert(properties_view(properties@.push(property)) =~= properties_view(
                    properties@,
                ).push(property@));
                properties.push(property);
            } else if kind == TokenType::RightBrace {
                let property = Property { key, value: None };
                assert(properties_view(properties@.push(property)) =~= properties_view(
                    properties@,
                ).push(property@));
                properties.push(property);
            } else {
                match self.expect(
                    TokenType::Colon,
                    "Missing colon after identifier in object expression",
                ) {
                    Ok(_) => {},
                    Err(e) => {
                        return Err(e);
                    },
                }
                let value = match self.parse_expr() {
                    Ok(value) => value,
                    Err(e) => {
                        return Err(e);
                    },
                };
                let property = Property { key, value: Some(Box::new(value)) };
                assert(properties_view(properties@.push(property)) =~= properties_view(
                    properties@,
                ).push(property@));
                properties.push(property);
                let separated = match self.peek() {
                    Some(token) => token.token_type == TokenType::RightBrace,
                    None => true,
                };
                if !separated {
                    match self.expect(
                        TokenType::Comma,
                        "Expected comma or closing bracket after property",
                    ) {
                        Ok(_) => {},
                        Err(e) => {
                            return Err(e);
                        },
                    }
                }
            }
        }
    }

    /// A member expression, and the calls that follow it.
    fn parse_call_member_expr(&mut self) -> (result: Result<Stmt, ParseError>)
        requires
            old(self).wf(),
        ensures
            final(self).wf(),
            final(self).tokens == old(self).tokens,
            parsed_as(
                result,
                final(self).position as int,
                grammar::call_member(old(self).stream(), old(self).position as int),
            ),
            result is Ok ==> old(self).position < final(self).position,
        decreases old(self).tokens.len() - old(self).position, 3int,
    {
        let member = match self.parse_member_expr() {
            Ok(member) => member,
            Err(e) => {
                return Err(e);
            },
        };
        if self.next_is(TokenType::LeftParen) {
            self.parse_call_expr(member)
        } else {
            Ok(member)
        }
    }

    /// A call of `caller` with the argument list that starts here, and
    /// the calls of its result that follow.
    fn parse_call_expr(&mut self, caller: Stmt) -> (result: Result<Stmt, ParseError>)
        requires
            old(self).wf(),
        ensures
            final(self).wf(),
            final(self).tokens == old(self).tokens,
            parsed_as(
                result,
                final(self).position as int,
                grammar::call(old(self).stream(), caller@, old(self).position as int),
            ),
            result is Ok ==> old(self).position < final(self).position,
        decreases old(self).tokens.len() - old(self).position, 10int,
    {
        let args = match self.parse_args() {
            Ok(args) => args,
            Err(e) => {
                return Err(e);
            },
        };
        let call_expr = Stmt::CallExpr { args, caller: Box::new(caller) };
        if self.next_is(TokenType::LeftParen) {
            self.parse_call_expr(call_expr)
        } else {
            Ok(call_expr)
        }
    }

    /// An argument list in parentheses.
    fn parse_args(&mut self) -> (result: Result<Vec<Stmt>, ParseError>)
        requires
            old(self).wf(),
        ensures
            final(self).wf(),
            final(self).tokens == old(self).tokens,
            parsed_list_as(
                result,
                final(self).position as int,
                grammar::arguments(old(self).stream(), old(self).position as int),
            ),
            result is Ok ==> old(self).position < final(self).position,
        decreases old(self).tokens.len() - old(self).position, 9int,
    {
        match self.expect(TokenType::LeftParen, "Expected open parenthesis") {
            Ok(_) => {},
            Err(e) => {
                return Err(e);
            },
        }
        let kind = match self.peek() {
            Some(token) => token.token_type,
            None => {
                return Err(ParseError::ExpectedToken);
            },
        };
        let args = if kind == TokenType::RightParen {
            let args: Vec<Stmt> = Vec::new();
            assert(stmts_view(args@) =~= Seq::<StmtView>::empty());
            args
        } else {
            match self.parse_args_list() {
                Ok(args) => args,
                Err(e) => {
                    return Err(e);
                },
            }
        };
        match self.expect(TokenType::RightParen, "Missing closing parenthesis in argument list") {
            Ok(_) => Ok(args),
            Err(e) => Err(e),
        }
    }

    /// One or more expressions separated by commas.
    fn parse_args_list(&mut self) -> (result: Result<Vec<Stmt>, ParseError>)
        requires
            old(self).wf(),
        ensures
            final(self).wf(),
            final(self).tokens == old(self).tokens,
            parsed_list_as(
                result,
                final(self).position as int,
                grammar::arguments_list(old(self).stream(), old(self).position as int),
            ),
            result is Ok ==> old(self).position < final(self).position,
        decreases old(self).tokens.len() - old(self).position, 8int,
    {
        let first = match self.parse_assignment_expr() {
            Ok(first) => first,
            Err(e) => {
                return Err(e);
            },
        };
        let mut args: Vec<Stmt> = Vec::new();
        args.push(first);
        assert(stmts_view(args@) =~= seq![first@]);
        let ghost goal = grammar::arguments_list(old(self).stream(), old(self).position as int);
        loop
            invariant
                self.wf(),
                self.tokens == old(self).tokens,
                old(self).position < self.position,
                goal == grammar::arguments_list(old(self).stream(), old(self).position as int),
                goal == grammar::arguments_tail(
                    self.stream(),
                    stmts_view(args@),
                    self.position as int,
                ),
            decreases self.tokens.len() - self.position,
        {
            if !self.next_is(TokenType::Comma) {
                return Ok(args);
            }
            self.skip();
            match self.parse_assignment_expr() {
                Ok(arg) => {
                    assert(stmts_view(args@.push(arg)) =~= stmts_view(args@).push(arg@));
                    args.push(arg);
                },
                Err(e) => {
                    return Err(e);
                },
            }
        }
    }

    /// A primary expression, and the accesses that follow it.
    fn parse_member_expr(&mut self) -> (result: Result<Stmt, ParseError>)
        requires
            old(self).wf(),
        ensures
            final(self).wf(),
            final(self).tokens == old(self).tokens,
            parsed_as(
                result,
                final(self).position as int,
                grammar::member(old(self).stream(), old(self).position as int),
            ),
            result is Ok ==> old(self).position < final(self).position,
        decreases old(self).tokens.len() - old(self).position, 2int,
    {
        let mut object = match self.parse_primary_expr() {
            Ok(object) => object,
            Err(e) => {
                return Err(e);
            },
        };
        let ghost goal = grammar::member(old(self).stream(), old(self).position as int);
        loop
            invariant
                self.wf(),
                self.tokens == old(self).tokens,
                old(self).position < self.position,
                goal == grammar::member(old(self).stream(), old(self).position as int),
                goal == grammar::member_tail(self.stream(), object@, self.position as int),
            decreases self.tokens.len() - self.position,
        {
            if self.next_is(TokenType::Dot) {
                self.skip();
                let property = match self.parse_primary_expr() {
                    Ok(property) => property,
                    Err(e) => {
                        return Err(e);
                    },
                };
                let named = match &property {
                    Stmt::Identifier(_) => true,
                    _ => false,
                };
                if !named {
                    return Err(ParseError::NoDotOperatorWithoutRhsIdentifier);
                }
                object =
                Stmt::MemberExpr {
                    object: Box::new(object),
                    property: Box::new(property),
                    computed: false,
                };
            } else if self.next_is(TokenType::LeftBracket) {
                self.skip();
                let property = match self.parse_expr() {
                    Ok(property) => property,
                    Err(e) => {
                        return Err(e);
                    },
                };
                match self.expect(
                    TokenType::RightBracket,
                    "Missing closing bracket in computed member expression",
                ) {
                    Ok(_) => {},
                    Err(e) => {
                        return Err(e);
                    },
                }
                object =
                Stmt::MemberExpr {
                    object: Box::new(object),
                    property: Box::new(property),
                    computed: true,
                };
            } else {
                return Ok(object);
            }
        }
    }
}

/// The parameter names of a prefix of the arguments are a prefix of the
/// parameter names, and a failure in a prefix is the failure of the whole.
proof fn lemma_parameter_names_prefix(arguments: Seq<StmtView>, n: int)
    requires
        0 <= n <= arguments.len(),
    ensures
        grammar::parameter_names(arguments.subrange(0, n)) is Err
            ==> grammar::parameter_names(arguments) == grammar::parameter_names(
            arguments.subrange(0, n),
        ),
    decreases arguments.len() - n,
{
    if n < arguments.len() {
        let longer = arguments.subrange(0, n + 1);
        assert(longer.drop_last() =~= arguments.subrange(0, n));
        lemma_parameter_names_prefix(arguments, n + 1);
    } else {
        assert(arguments.subrange(0, n) =~= arguments);
    }
}

} // verus!
