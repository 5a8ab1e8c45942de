//! The grammar, as functions from a token stream and a position to a tree
//! and the position behind it.
//!
//! The rules run from the statement down to the primary expression; each
//! function reads the tokens from `pos` on. A rule that goes on after a
//! sub-rule does so only where the sub-rule ended behind its start and
//! inside the stream. The lemmas at the end of this file show that this is
//! always the case: every rule takes at least one token.

use vstd::prelude::*;
use crate::ast::{PropertyView, StmtView};
use crate::error::ParseErrorView;
use crate::token::{TokenType, TokenView};

verus! {

/// A tree and the position behind the tokens it was read from, or the
/// failure that ended the parse.
pub type Parsed = Result<(StmtView, int), ParseErrorView>;

/// A list of trees and the position behind them, or the failure.
pub type ParsedList = Result<(Seq<StmtView>, int), ParseErrorView>;

/// The kind of the token at `pos`, if the stream reaches that far.
pub open spec fn peek(tokens: Seq<TokenView>, pos: int) -> Option<TokenType> {
    if 0 <= pos < tokens.len() {
        Some(tokens[pos].kind)
    } else {
        None
    }
}

/// Whether a token of kind `kind` stands at `pos`.
pub open spec fn at(tokens: Seq<TokenView>, pos: int, kind: TokenType) -> bool {
    peek(tokens, pos) == Some(kind)
}

/// The position behind the token at `pos`: a token is taken whatever its
/// kind, and nothing is taken from a stream that has ended.
pub open spec fn skip(tokens: Seq<TokenView>, pos: int) -> int {
    if 0 <= pos < tokens.len() {
        pos + 1
    } else {
        pos
    }
}

/// Takes the token at `pos` and requires it to be of kind `kind`.
pub open spec fn expect(tokens: Seq<TokenView>, pos: int, kind: TokenType, context: Seq<char>) -> Result<
    (TokenView, int),
    ParseErrorView,
> {
    if 0 <= pos < tokens.len() {
        if tokens[pos].kind == kind {
            Ok((tokens[pos], pos + 1))
        } else {
            Err(ParseErrorView::ExpectedCharacter(kind, tokens[pos].kind, context))
        }
    } else {
        Err(ParseErrorView::ExpectedToken)
    }
}

/// Whether a sub-rule that started at `pos` ended at `next` behind it and
/// inside the stream.
pub open spec fn ahead(tokens: Seq<TokenView>, pos: int, next: int) -> bool {
    0 <= pos < next <= tokens.len()
}

/// Whether the token at `pos` reads `+` or `-`.
pub open spec fn additive_operator(tokens: Seq<TokenView>, pos: int) -> bool {
    0 <= pos < tokens.len() && (tokens[pos].text == "+"@ || tokens[pos].text == "-"@)
}

/// Whether the token at `pos` reads `*`, `/` or `%`.
pub open spec fn multiplicative_operator(tokens: Seq<TokenView>, pos: int) -> bool {
    0 <= pos < tokens.len() && (tokens[pos].text == "*"@ || tokens[pos].text == "/"@
        || tokens[pos].text == "%"@)
}

/// Whether a list of statements ends at `pos`: at a closing brace, at the
/// sentinel or at the end of the stream.
pub open spec fn block_ends(tokens: Seq<TokenView>, pos: int) -> bool {
    match peek(tokens, pos) {
        Some(kind) => kind == TokenType::RightBrace || kind == TokenType::Eof,
        None => true,
    }
}

/// Whether the top-level list of statements ends at `pos`.
pub open spec fn program_ends(tokens: Seq<TokenView>, pos: int) -> bool {
    match peek(tokens, pos) {
        Some(kind) => kind == TokenType::Eof,
        None => true,
    }
}

/// The binary expression of an operator and its two operands.
pub open spec fn binary(left: StmtView, operator: Seq<char>, right: StmtView) -> StmtView {
    StmtView::BinaryExpr { left: Box::new(left), right: Box::new(right), operator }
}

/// A primary expression: a name, a number, or an expression in
/// parentheses.
pub open spec fn primary(tokens: Seq<TokenView>, pos: int) -> Parsed
    decreases tokens.len() - pos, 0int,
{
    if 0 <= pos < tokens.len() {
        let token = tokens[pos];
        match token.kind {
            TokenType::Identifier => Ok((StmtView::Identifier(token.text), pos + 1)),
            TokenType::Number => Ok((StmtView::NumericLiteral(token.text), pos + 1)),
            TokenType::LeftParen => match expression(tokens, pos + 1) {
                Ok((value, next)) => match expect(
                    tokens,
                    next,
                    TokenType::RightParen,
                    "No right paren inside expression"@,
                ) {
                    Ok((_, after)) => Ok((value, after)),
                    Err(e) => Err(e),
                },
                Err(e) => Err(e),
            },
            kind => Err(ParseErrorView::UnsupportedTokenType(kind)),
        }
    } else {
        Err(ParseErrorView::ExpectedToken)
    }
}

/// The accesses that follow `object` from `pos` on: `.name` and
/// `[expression]`, each wrapping what stands to its left.
pub open spec fn member_tail(tokens: Seq<TokenView>, object: StmtView, pos: int) -> Parsed
    decreases tokens.len() - pos, 1int,
{
    if at(tokens, pos, TokenType::Dot) {
        match primary(tokens, pos + 1) {
            Ok((property, next)) => if !(property is Identifier) {
                Err(ParseErrorView::NoDotOperatorWithoutRhsIdentifier)
            } else if ahead(tokens, pos, next) {
                member_tail(
                    tokens,
                    StmtView::MemberExpr {
                        object: Box::new(object),
                        property: Box::new(property),
                        computed: false,
                    },
                    next,
                )
            } else {
                Err(ParseErrorView::ExpectedToken)
            },
            Err(e) => Err(e),
        }
    } else if at(tokens, pos, TokenType::LeftBracket) {
        match expression(tokens, pos + 1) {
            Ok((property, next)) => match expect(
                tokens,
                next,
                TokenType::RightBracket,
                "Missing closing bracket in computed member expression"@,
            ) {
                Ok((_, after)) => if ahead(tokens, pos, after) {
                    member_tail(
                        tokens,
                        StmtView::MemberExpr {
                            object: Box::new(object),
                            property: Box::new(property),
                            computed: true,
                        },
                        after,
                    )
                } else {
                    Err(ParseErrorView::ExpectedToken)
                },
                Err(e) => Err(e),
            },
            Err(e) => Err(e),
        }
    } else {
        Ok((object, pos))
    }
}

/// A member expression: a primary expression and the accesses behind it.
pub open spec fn member(tokens: Seq<TokenView>, pos: int) -> Parsed
    decreases tokens.len() - pos, 2int,
{
    match primary(tokens, pos) {
        Ok((object, next)) => if ahead(tokens, pos, next) {
            member_tail(tokens, object, next)
        } else {
            Err(ParseErrorView::ExpectedToken)
        },
        Err(e) => Err(e),
    }
}

/// The arguments behind the first, each after a comma.
pub open spec fn arguments_tail(tokens: Seq<TokenView>, arguments: Seq<StmtView>, pos: int) -> ParsedList
    decreases tokens.len() - pos, 0int,
{
    if at(tokens, pos, TokenType::Comma) {
        match assignment(tokens, pos + 1) {
            Ok((argument, next)) => if ahead(tokens, pos, next) {
                arguments_tail(tokens, arguments.push(argument), next)
            } else {
                Err(ParseErrorView::ExpectedToken)
            },
            Err(e) => Err(e),
        }
    } else {
        Ok((arguments, pos))
    }
}

/// One or more expressions separated by commas.
pub open spec fn arguments_list(tokens: Seq<TokenView>, pos: int) -> ParsedList
    decreases tokens.len() - pos, 8int,
{
    match assignment(tokens, pos) {
        Ok((first, next)) => if ahead(tokens, pos, next) {
            arguments_tail(tokens, seq![first], next)
        } else {
            Err(ParseErrorView::ExpectedToken)
        },
        Err(e) => Err(e),
    }
}

/// An argument list in parentheses.
pub open spec fn arguments(tokens: Seq<TokenView>, pos: int) -> ParsedList
    decreases tokens.len() - pos, 9int,
{
    match expect(tokens, pos, TokenType::LeftParen, "Expected open parenthesis"@) {
        Err(e) => Err(e),
        Ok((_, start)) => match peek(tokens, start) {
            None => Err(ParseErrorView::ExpectedToken),
            Some(kind) => {
                let list = if kind == TokenType::RightParen {
                    Ok((Seq::empty(), start))
                } else {
                    arguments_list(tokens, start)
                };
                match list {
                    Ok((arguments, next)) => match expect(
                        tokens,
                        next,
                        TokenType::RightParen,
                        "Missing closing parenthesis in argument list"@,
                    ) {
                        Ok((_, after)) => Ok((arguments, after)),
                        Err(e) => Err(e),
                    },
                    Err(e) => Err(e),
                }
            },
        },
    }
}

/// A call of `caller` with the argument list at `pos`, and the calls of
/// its result that follow.
pub open spec fn call(tokens: Seq<TokenView>, caller: StmtView, pos: int) -> Parsed
    decreases tokens.len() - pos, 10int,
{
    match arguments(tokens, pos) {
        Ok((args, next)) => {
            let call = StmtView::CallExpr { args, caller: Box::new(caller) };
            if !at(tokens, next, TokenType::LeftParen) {
                Ok((call, next))
            } else if ahead(tokens, pos, next) {
                self::call(tokens, call, next)
            } else {
                Err(ParseErrorView::ExpectedToken)
            }
        },
        Err(e) => Err(e),
    }
}

/// A member expression, called where an opening parenthesis follows it.
pub open spec fn call_member(tokens: Seq<TokenView>, pos: int) -> Parsed
    decreases tokens.len() - pos, 3int,
{
    match member(tokens, pos) {
        Ok((callee, next)) => if !at(tokens, next, TokenType::LeftParen) {
            Ok((callee, next))
        } else if ahead(tokens, pos, next) {
            call(tokens, callee, next)
        } else {
            Err(ParseErrorView::ExpectedToken)
        },
        Err(e) => Err(e),
    }
}

/// The factors that follow `left` from `pos` on, joined to the left.
pub open spec fn multiplicative_tail(tokens: Seq<TokenView>, left: StmtView, pos: int) -> Parsed
    decreases tokens.len() - pos, 0int,
{
    if multiplicative_operator(tokens, pos) {
        match call_member(tokens, pos + 1) {
            Ok((right, next)) => if ahead(tokens, pos, next) {
                multiplicative_tail(tokens, binary(left, tokens[pos].text, right), next)
            } else {
                Err(ParseErrorView::ExpectedToken)
            },
            Err(e) => Err(e),
        }
    } else {
        Ok((left, pos))
    }
}

/// A chain of `*`, `/` and `%`, joined to the left.
pub open spec fn multiplicative(tokens: Seq<TokenView>, pos: int) -> Parsed
    decreases tokens.len() - pos, 4int,
{
    match call_member(tokens, pos) {
        Ok((left, next)) => if ahead(tokens, pos, next) {
            multiplicative_tail(tokens, left, next)
        } else {
            Err(ParseErrorView::ExpectedToken)
        },
        Err(e) => Err(e),
    }
}

/// The terms that follow `left` from `pos` on, joined to the left.
pub open spec fn additive_tail(tokens: Seq<TokenView>, left: StmtView, pos: int) -> Parsed
    decreases tokens.len() - pos, 0int,
{
    if additive_operator(tokens, pos) {
        match multiplicative(tokens, pos + 1) {
            Ok((right, next)) => if ahead(tokens, pos, next) {
                additive_tail(tokens, binary(left, tokens[pos].text, right), next)
            } else {
                Err(ParseErrorView::ExpectedToken)
            },
            Err(e) => Err(e),
        }
    } else {
        Ok((left, pos))
    }
}

/// A chain of `+` and `-`, joined to the left.
pub open spec fn additive(tokens: Seq<TokenView>, pos: int) -> Parsed
    decreases tokens.len() - pos, 5int,
{
    match multiplicative(tokens, pos) {
        Ok((left, next)) => if ahead(tokens, pos, next) {
            additive_tail(tokens, left, next)
        } else {
            Err(ParseErrorView::ExpectedToken)
        },
        Err(e) => Err(e),
    }
}

/// The entries of an object literal from `pos` on, up to the closing
/// brace, which is left in the stream.
///
/// An entry is a name, alone or with a value behind a colon. A comma
/// follows every entry but the last, and may follow the last.
pub open spec fn properties_tail(tokens: Seq<TokenView>, properties: Seq<PropertyView>, pos: int) -> Result<
    (Seq<PropertyView>, int),
    ParseErrorView,
>
    decreases tokens.len() - pos, 0int,
{
    if block_ends(tokens, pos) {
        Ok((properties, pos))
    } else {
        match expect(tokens, pos, TokenType::Identifier, "Object literal identifier expected"@) {
            Err(e) => Err(e),
            Ok((key, next)) => {
                let shorthand = properties.push(PropertyView { key: key.text, value: None });
                match peek(tokens, next) {
                    None => Ok((properties, next)),
                    Some(TokenType::Comma) => properties_tail(tokens, shorthand, next + 1),
                    Some(TokenType::RightBrace) => properties_tail(tokens, shorthand, next),
                    Some(_) => match expect(
                        tokens,
                        next,
                        TokenType::Colon,
                        "Missing colon after identifier in object expression"@,
                    ) {
                        Err(e) => Err(e),
                        Ok((_, start)) => match expression(tokens, start) {
                            Err(e) => Err(e),
                            Ok((value, after)) => {
                                let entry = PropertyView {
                                    key: key.text,
                                    value: Some(Box::new(value)),
                                };
                                let separated = if peek(tokens, after) is None || at(
                                    tokens,
                                    after,
                                    TokenType::RightBrace,
                                ) {
                                    Ok(after)
                                } else {
                                    match expect(
                                        tokens,
                                        after,
                                        TokenType::Comma,
                                        "Expected comma or closing bracket after property"@,
                                    ) {
                                        Ok((_, resume)) => Ok(resume),
                                        Err(e) => Err(e),
                                    }
                                };
                                match separated {
                                    Err(e) => Err(e),
                                    Ok(resume) => if ahead(tokens, pos, resume) {
                                        properties_tail(tokens, properties.push(entry), resume)
                                    } else {
                                        Err(ParseErrorView::ExpectedToken)
                                    },
                                }
                            },
                        },
                    },
                }
            },
        }
    }
}

/// An object literal in braces where an opening brace stands, an
/// additive expression elsewhere.
pub open spec fn object(tokens: Seq<TokenView>, pos: int) -> Parsed
    decreases tokens.len() - pos, 6int,
{
    match peek(tokens, pos) {
        None => Err(ParseErrorView::ExpectedToken),
        Some(TokenType::LeftBrace) => match properties_tail(tokens, Seq::empty(), pos + 1) {
            Ok((properties, next)) => match expect(
                tokens,
                next,
                TokenType::RightBrace,
                "Object literal is missing a closing brace"@,
            ) {
                Ok((_, after)) => Ok((StmtView::ObjectLiteral(properties), after)),
                Err(e) => Err(e),
            },
            Err(e) => Err(e),
        },
        Some(_) => additive(tokens, pos),
    }
}

/// An assignment, which joins to the right, or what stands in its place.
pub open spec fn assignment(tokens: Seq<TokenView>, pos: int) -> Parsed
    decreases tokens.len() - pos, 7int,
{
    match object(tokens, pos) {
        Ok((left, next)) => if !at(tokens, next, TokenType::Equals) {
            Ok((left, next))
        } else if ahead(tokens, pos, next) {
            match assignment(tokens, next + 1) {
                Ok((value, after)) => Ok(
                    (
                        StmtView::AssignmentExpr {
                            assignee: Box::new(left),
                            value: Box::new(value),
                        },
                        after,
                    ),
                ),
                Err(e) => Err(e),
            }
        } else {
            Err(ParseErrorView::ExpectedToken)
        },
        Err(e) => Err(e),
    }
}

/// An expression.
pub open spec fn expression(tokens: Seq<TokenView>, pos: int) -> Parsed
    decreases tokens.len() - pos, 8int,
{
    assignment(tokens, pos)
}

/// A variable declaration: `let` or `const`, a name, and either a
/// semicolon, which is taken, or an equals sign and a value. A constant
/// needs a value.
pub open spec fn variable_declaration(tokens: Seq<TokenView>, pos: int) -> Parsed
    decreases tokens.len() - pos, 9int,
{
    if 0 <= pos < tokens.len() {
        let constant = tokens[pos].kind == TokenType::ConstKeyword;
        match expect(
            tokens,
            pos + 1,
            TokenType::Identifier,
            "Expected identifier name after let or const keyword"@,
        ) {
            Err(e) => Err(e),
            Ok((name, next)) => match peek(tokens, next) {
                None => Err(ParseErrorView::ExpectedToken),
                Some(TokenType::Semicolon) => if constant {
                    Err(ParseErrorView::ConstValueRequired)
                } else {
                    Ok(
                        (
                            StmtView::VarDeclaration {
                                constant,
                                identifier: name.text,
                                value: None,
                            },
                            next + 1,
                        ),
                    )
                },
                Some(_) => match expect(
                    tokens,
                    next,
                    TokenType::Equals,
                    "Expected equals token after identifier"@,
                ) {
                    Err(e) => Err(e),
                    Ok((_, start)) => match expression(tokens, start) {
                        Ok((value, after)) => Ok(
                            (
                                StmtView::VarDeclaration {
                                    constant,
                                    identifier: name.text,
                                    value: Some(Box::new(value)),
                                },
                                after,
                            ),
                        ),
                        Err(e) => Err(e),
                    },
                },
            },
        }
    } else {
        Err(ParseErrorView::ExpectedToken)
    }
}

/// The names of the parameters, where every one of `arguments` is a bare
/// name; else the first that is not.
pub open spec fn parameter_names(arguments: Seq<StmtView>) -> Result<Seq<Seq<char>>, ParseErrorView>
    decreases arguments.len(),
{
    if arguments.len() == 0 {
        Ok(Seq::empty())
    } else {
        match parameter_names(arguments.drop_last()) {
            Err(e) => Err(e),
            Ok(names) => match arguments.last() {
                StmtView::Identifier(name) => Ok(names.push(name)),
                other => Err(ParseErrorView::ExpectedParameterToBeString(other)),
            },
        }
    }
}

/// The statements from `pos` on, up to the end of the block.
pub open spec fn statements_tail(tokens: Seq<TokenView>, body: Seq<StmtView>, pos: int) -> ParsedList
    decreases tokens.len() - pos, 11int,
{
    if block_ends(tokens, pos) {
        Ok((body, pos))
    } else {
        match statement(tokens, pos) {
            Ok((stmt, next)) => if ahead(tokens, pos, next) {
                statements_tail(tokens, body.push(stmt), next)
            } else {
                Err(ParseErrorView::ExpectedToken)
            },
            Err(e) => Err(e),
        }
    }
}

/// A function declaration: `fn`, a name, the parameters in parentheses
/// and the body behind an opening brace. The token behind the body is
/// taken as the closing brace.
pub open spec fn function_declaration(tokens: Seq<TokenView>, pos: int) -> Parsed
    decreases tokens.len() - pos, 9int,
{
    match expect(
        tokens,
        pos + 1,
        TokenType::Identifier,
        "Expected function name following fn keyword"@,
    ) {
        Err(e) => Err(e),
        Ok((name, next)) => match arguments(tokens, next) {
            Err(e) => Err(e),
            Ok((args, after)) => match parameter_names(args) {
                Err(e) => Err(e),
                Ok(parameters) => match expect(
                    tokens,
                    after,
                    TokenType::LeftBrace,
                    "Expected function body following declaration"@,
                ) {
                    Err(e) => Err(e),
                    Ok((_, start)) => if ahead(tokens, pos, start) {
                        match statements_tail(tokens, Seq::empty(), start) {
                            Err(e) => Err(e),
                            Ok((body, end)) => Ok(
                                (
                                    StmtView::FnDeclaration {
                                        name: name.text,
                                        parameters,
                                        body,
                                        is_const: false,
                                    },
                                    skip(tokens, end),
                                ),
                            ),
                        }
                    } else {
                        Err(ParseErrorView::ExpectedToken)
                    },
                },
            },
        },
    }
}

/// A statement: a comment, a declaration or an expression. The token
/// behind it is taken as its semicolon; behind a comment that is the
/// comment token itself.
pub open spec fn statement(tokens: Seq<TokenView>, pos: int) -> Parsed
    decreases tokens.len() - pos, 10int,
{
    if 0 <= pos < tokens.len() {
        let parsed = match tokens[pos].kind {
            TokenType::Comment => Ok((StmtView::Comment(tokens[pos].text), pos)),
            TokenType::LetKeyword | TokenType::ConstKeyword => variable_declaration(tokens, pos),
            TokenType::FnKeyword => function_declaration(tokens, pos),
            _ => expression(tokens, pos),
        };
        match parsed {
            Ok((stmt, next)) => Ok((stmt, skip(tokens, next))),
            Err(e) => Err(e),
        }
    } else {
        Err(ParseErrorView::ExpectedToken)
    }
}

/// The top-level statements from `pos` on, up to the sentinel.
pub open spec fn program_tail(tokens: Seq<TokenView>, body: Seq<StmtView>, pos: int) -> ParsedList
    decreases tokens.len() - pos,
{
    if program_ends(tokens, pos) {
        Ok((body, pos))
    } else {
        match statement(tokens, pos) {
            Ok((stmt, next)) => if ahead(tokens, pos, next) {
                program_tail(tokens, body.push(stmt), next)
            } else {
                Err(ParseErrorView::ExpectedToken)
            },
            Err(e) => Err(e),
        }
    }
}

/// The program that a token stream stands for.
pub open spec fn program(tokens: Seq<TokenView>) -> Result<Seq<StmtView>, ParseErrorView> {
    match program_tail(tokens, Seq::empty(), 0) {
        Ok((body, _)) => Ok(body),
        Err(e) => Err(e),
    }
}

/// Whether a rule that started at `pos` took at least one token and ended
/// inside the stream, if it succeeded.
pub open spec fn advances<T>(tokens: Seq<TokenView>, pos: int, parsed: Result<(T, int), ParseErrorView>) -> bool {
    parsed matches Ok((_, next)) ==> pos < next <= tokens.len()
}

/// Whether a rule that started at `pos` ended at or behind `pos` and
/// inside the stream, if it succeeded.
pub open spec fn holds_position<T>(tokens: Seq<TokenView>, pos: int, parsed: Result<(T, int), ParseErrorView>) -> bool {
    parsed matches Ok((_, next)) ==> pos <= next <= tokens.len()
}

/// A primary expression takes at least one token.
pub proof fn lemma_primary_advances(tokens: Seq<TokenView>, pos: int)
    requires
        0 <= pos <= tokens.len(),
    ensures
        advances(tokens, pos, primary(tokens, pos)),
    decreases tokens.len() - pos, 0int,
{
    if pos < tokens.len() && tokens[pos].kind == TokenType::LeftParen {
        lemma_expression_advances(tokens, pos + 1);
    }
}

/// The accesses behind an object never step back.
pub proof fn lemma_member_tail_holds(tokens: Seq<TokenView>, object: StmtView, pos: int)
    requires
        0 <= pos <= tokens.len(),
    ensures
        holds_position(tokens, pos, member_tail(tokens, object, pos)),
    decreases tokens.len() - pos, 1int,
{
    if at(tokens, pos, TokenType::Dot) {
        lemma_primary_advances(tokens, pos + 1);
        if let Ok((property, next)) = primary(tokens, pos + 1) {
            if property is Identifier {
                lemma_member_tail_holds(
                    tokens,
                    StmtView::MemberExpr {
                        object: Box::new(object),
                        property: Box::new(property),
                        computed: false,
                    },
                    next,
                );
            }
        }
    } else if at(tokens, pos, TokenType::LeftBracket) {
        lemma_expression_advances(tokens, pos + 1);
        if let Ok((property, next)) = expression(tokens, pos + 1) {
            if let Ok((_, after)) = expect(
                tokens,
                next,
                TokenType::RightBracket,
                "Missing closing bracket in computed member expression"@,
            ) {
                lemma_member_tail_holds(
                    tokens,
                    StmtView::MemberExpr {
                        object: Box::new(object),
                        property: Box::new(property),
                        computed: true,
                    },
                    after,
                );
            }
        }
    }
}

/// A member expression takes at least one token.
pub proof fn lemma_member_advances(tokens: Seq<TokenView>, pos: int)
    requires
        0 <= pos <= tokens.len(),
    ensures
        advances(tokens, pos, member(tokens, pos)),
    decreases tokens.len() - pos, 2int,
{
    lemma_primary_advances(tokens, pos);
    if let Ok((object, next)) = primary(tokens, pos) {
        lemma_member_tail_holds(tokens, object, next);
    }
}

/// The arguments behind the first never step back.
pub proof fn lemma_arguments_tail_holds(tokens: Seq<TokenView>, list: Seq<StmtView>, pos: int)
    requires
        0 <= pos <= tokens.len(),
    ensures
        holds_position(tokens, pos, arguments_tail(tokens, list, pos)),
    decreases tokens.len() - pos, 0int,
{
    if at(tokens, pos, TokenType::Comma) {
        lemma_assignment_advances(tokens, pos + 1);
        if let Ok((argument, next)) = assignment(tokens, pos + 1) {
            lemma_arguments_tail_holds(tokens, list.push(argument), next);
        }
    }
}

/// A list of arguments takes at least one token.
pub proof fn lemma_arguments_list_advances(tokens: Seq<TokenView>, pos: int)
    requires
        0 <= pos <= tokens.len(),
    ensures
        advances(tokens, pos, arguments_list(tokens, pos)),
    decreases tokens.len() - pos, 8int,
{
    lemma_assignment_advances(tokens, pos);
    if let Ok((first, next)) = assignment(tokens, pos) {
        lemma_arguments_tail_holds(tokens, seq![first], next);
    }
}

/// An argument list in parentheses takes at least two tokens.
pub proof fn lemma_arguments_advance(tokens: Seq<TokenView>, pos: int)
    requires
        0 <= pos <= tokens.len(),
    ensures
        advances(tokens, pos, arguments(tokens, pos)),
    decreases tokens.len() - pos, 9int,
{
    let start = skip(tokens, pos);
    if start < tokens.len() && tokens[start].kind != TokenType::RightParen {
        lemma_arguments_list_advances(tokens, start);
    }
}

/// A call takes at least the tokens of its argument list.
pub proof fn lemma_call_advances(tokens: Seq<TokenView>, caller: StmtView, pos: int)
    requires
        0 <= pos <= tokens.len(),
    ensures
        advances(tokens, pos, call(tokens, caller, pos)),
    decreases tokens.len() - pos, 10int,
{
    lemma_arguments_advance(tokens, pos);
    if let Ok((args, next)) = arguments(tokens, pos) {
        if at(tokens, next, TokenType::LeftParen) {
            lemma_call_advances(tokens, StmtView::CallExpr { args, caller: Box::new(caller) }, next);
        }
    }
}

/// A member expression with its calls takes at least one token.
pub proof fn lemma_call_member_advances(tokens: Seq<TokenView>, pos: int)
    requires
        0 <= pos <= tokens.len(),
    ensures
        advances(tokens, pos, call_member(tokens, pos)),
    decreases tokens.len() - pos, 3int,
{
    lemma_member_advances(tokens, pos);
    if let Ok((callee, next)) = member(tokens, pos) {
        if at(tokens, next, TokenType::LeftParen) {
            lemma_call_advances(tokens, callee, next);
        }
    }
}

/// The factors behind the first never step back.
pub proof fn lemma_multiplicative_tail_holds(tokens: Seq<TokenView>, left: StmtView, pos: int)
    requires
        0 <= pos <= tokens.len(),
    ensures
        holds_position(tokens, pos, multiplicative_tail(tokens, left, pos)),
    decreases tokens.len() - pos, 0int,
{
    if multiplicative_operator(tokens, pos) {
        lemma_call_member_advances(tokens, pos + 1);
        if let Ok((right, next)) = call_member(tokens, pos + 1) {
            lemma_multiplicative_tail_holds(tokens, binary(left, tokens[pos].text, right), next);
        }
    }
}

/// A chain of factors takes at least one token.
pub proof fn lemma_multiplicative_advances(tokens: Seq<TokenView>, pos: int)
    requires
        0 <= pos <= tokens.len(),
    ensures
        advances(tokens, pos, multiplicative(tokens, pos)),
    decreases tokens.len() - pos, 4int,
{
    lemma_call_member_advances(tokens, pos);
    if let Ok((left, next)) = call_member(tokens, pos) {
        lemma_multiplicative_tail_holds(tokens, left, next);
    }
}

/// The terms behind the first never step back.
pub proof fn lemma_additive_tail_holds(tokens: Seq<TokenView>, left: StmtView, pos: int)
    requires
        0 <= pos <= tokens.len(),
    ensures
        holds_position(tokens, pos, additive_tail(tokens, left, pos)),
    decreases tokens.len() - pos, 0int,
{
    if additive_operator(tokens, pos) {
        lemma_multiplicative_advances(tokens, pos + 1);
        if let Ok((right, next)) = multiplicative(tokens, pos + 1) {
            lemma_additive_tail_holds(tokens, binary(left, tokens[pos].text, right), next);
        }
    }
}

/// A chain of terms takes at least one token.
pub proof fn lemma_additive_advances(tokens: Seq<TokenView>, pos: int)
    requires
        0 <= pos <= tokens.len(),
    ensures
        advances(tokens, pos, additive(tokens, pos)),
    decreases tokens.len() - pos, 5int,
{
    lemma_multiplicative_advances(tokens, pos);
    if let Ok((left, next)) = multiplicative(tokens, pos) {
        lemma_additive_tail_holds(tokens, left, next);
    }
}

/// The entries of an object literal never step back.
pub proof fn lemma_properties_tail_holds(tokens: Seq<TokenView>, list: Seq<PropertyView>, pos: int)
    requires
        0 <= pos <= tokens.len(),
    ensures
        holds_position(tokens, pos, properties_tail(tokens, list, pos)),
    decreases tokens.len() - pos, 0int,
{
    if !block_ends(tokens, pos) {
        if let Ok((key, next)) = expect(
            tokens,
            pos,
            TokenType::Identifier,
            "Object literal identifier expected"@,
        ) {
            let shorthand = list.push(PropertyView { key: key.text, value: None });
            match peek(tokens, next) {
                None => {},
                Some(TokenType::Comma) => {
                    lemma_properties_tail_holds(tokens, shorthand, next + 1);
                },
                Some(TokenType::RightBrace) => {
                    lemma_properties_tail_holds(tokens, shorthand, next);
                },
                Some(_) => {
                    lemma_expression_advances(tokens, next + 1);
                    if let Ok((value, after)) = expression(tokens, next + 1) {
                        let entry = PropertyView { key: key.text, value: Some(Box::new(value)) };
                        let resume = if peek(tokens, after) is Some && !at(
                            tokens,
                            after,
                            TokenType::RightBrace,
                        ) {
                            after + 1
                        } else {
                            after
                        };
                        lemma_properties_tail_holds(tokens, list.push(entry), resume);
                    }
                },
            }
        }
    }
}

/// An object literal, or what stands in its place, takes at least one
/// token.
pub proof fn lemma_object_advances(tokens: Seq<TokenView>, pos: int)
    requires
        0 <= pos <= tokens.len(),
    ensures
        advances(tokens, pos, object(tokens, pos)),
    decreases tokens.len() - pos, 6int,
{
    match peek(tokens, pos) {
        None => {},
        Some(TokenType::LeftBrace) => {
            lemma_properties_tail_holds(tokens, Seq::empty(), pos + 1);
        },
        Some(_) => {
            lemma_additive_advances(tokens, pos);
        },
    }
}

/// An assignment takes at least one token.
pub proof fn lemma_assignment_advances(tokens: Seq<TokenView>, pos: int)
    requires
        0 <= pos <= tokens.len(),
    ensures
        advances(tokens, pos, assignment(tokens, pos)),
    decreases tokens.len() - pos, 7int,
{
    lemma_object_advances(tokens, pos);
    if let Ok((left, next)) = object(tokens, pos) {
        if at(tokens, next, TokenType::Equals) {
            lemma_assignment_advances(tokens, next + 1);
        }
    }
}

/// An expression takes at least one token.
pub proof fn lemma_expression_advances(tokens: Seq<TokenView>, pos: int)
    requires
        0 <= pos <= tokens.len(),
    ensures
        advances(tokens, pos, expression(tokens, pos)),
    decreases tokens.len() - pos, 8int,
{
    lemma_assignment_advances(tokens, pos);
}

/// A variable declaration takes at least three tokens.
pub proof fn lemma_variable_declaration_advances(tokens: Seq<TokenView>, pos: int)
    requires
        0 <= pos <= tokens.len(),
    ensures
        advances(tokens, pos, variable_declaration(tokens, pos)),
    decreases tokens.len() - pos, 9int,
{
    if pos + 2 < tokens.len() {
        lemma_expression_advances(tokens, pos + 3);
    }
}

/// The statements of a block never step back.
pub proof fn lemma_statements_tail_holds(tokens: Seq<TokenView>, list: Seq<StmtView>, pos: int)
    requires
        0 <= pos <= tokens.len(),
    ensures
        holds_position(tokens, pos, statements_tail(tokens, list, pos)),
    decreases tokens.len() - pos, 11int,
{
    if !block_ends(tokens, pos) {
        lemma_statement_advances(tokens, pos);
        if let Ok((stmt, next)) = statement(tokens, pos) {
            lemma_statements_tail_holds(tokens, list.push(stmt), next);
        }
    }
}

/// A function declaration takes at least the keyword, the name and the
/// parameter list.
pub proof fn lemma_function_declaration_advances(tokens: Seq<TokenView>, pos: int)
    requires
        0 <= pos < tokens.len(),
    ensures
        advances(tokens, pos, function_declaration(tokens, pos)),
    decreases tokens.len() - pos, 9int,
{
    if pos + 2 <= tokens.len() {
        lemma_arguments_advance(tokens, pos + 2);
        if let Ok((args, after)) = arguments(tokens, pos + 2) {
            lemma_statements_tail_holds(tokens, Seq::empty(), skip(tokens, after));
        }
    }
}

/// A statement takes at least one token.
pub proof fn lemma_statement_advances(tokens: Seq<TokenView>, pos: int)
    requires
        0 <= pos <= tokens.len(),
    ensures
        advances(tokens, pos, statement(tokens, pos)),
    decreases tokens.len() - pos, 10int,
{
    if pos < tokens.len() {
        match tokens[pos].kind {
            TokenType::Comment => {},
            TokenType::LetKeyword | TokenType::ConstKeyword => {
                lemma_variable_declaration_advances(tokens, pos);
            },
            TokenType::FnKeyword => {
                lemma_function_declaration_advances(tokens, pos);
            },
            _ => {
                lemma_expression_advances(tokens, pos);
            },
        }
    }
}

/// The top-level statements never step back.
pub proof fn lemma_program_tail_holds(tokens: Seq<TokenView>, list: Seq<StmtView>, pos: int)
    requires
        0 <= pos <= tokens.len(),
    ensures
        holds_position(tokens, pos, program_tail(tokens, list, pos)),
    decreases tokens.len() - pos,
{
    if !program_ends(tokens, pos) {
        lemma_statement_advances(tokens, pos);
        if let Ok((stmt, next)) = statement(tokens, pos) {
            lemma_program_tail_holds(tokens, list.push(stmt), next);
        }
    }
}

} // verus!
