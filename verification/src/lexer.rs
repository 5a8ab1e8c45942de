//! Source text to tokens, in one scan from left to right.

use vstd::prelude::*;
use crate::error::LexerError;
use crate::text::chars_of;
use crate::token::{keyword_kind, tokens_view, Token, TokenType, TokenView};

verus! {

/// What `char::is_alphabetic` answers for a character.
pub uninterp spec fn alphabetic(c: char) -> bool;

/// What `char::is_numeric` answers for a character.
pub uninterp spec fn numeric(c: char) -> bool;

/// What `char::is_whitespace` answers for a character.
pub uninterp spec fn whitespace(c: char) -> bool;

/// What is known of a character beyond the character itself: whether it
/// counts as a letter, as a digit and as white space.
#[derive(Debug, PartialEq, Eq, Clone, Copy, Structural)]
pub struct CharClass {
    pub alphabetic: bool,
    pub numeric: bool,
    pub whitespace: bool,
}

/// The class of a character that is none of the three.
pub open spec fn no_class() -> CharClass {
    CharClass { alphabetic: false, numeric: false, whitespace: false }
}

/// The class that the standard library gives a character.
pub open spec fn class_of(c: char) -> CharClass {
    CharClass { alphabetic: alphabetic(c), numeric: numeric(c), whitespace: whitespace(c) }
}

/// The classes that the standard library gives the characters of a text,
/// one for one.
pub open spec fn classes_of(s: Seq<char>) -> Seq<CharClass> {
    s.map_values(|c: char| class_of(c))
}

/// The class given for position `at`; no class where none is given.
pub open spec fn class_at(classes: Seq<CharClass>, at: int) -> CharClass {
    if 0 <= at < classes.len() {
        classes[at]
    } else {
        no_class()
    }
}

/// Characters that separate tokens and are never part of one.
pub open spec fn skippable(c: char, class: CharClass) -> bool {
    class.whitespace || c == '\n' || c == '\t' || c == '\r'
}

/// Characters that may continue a word once a letter has started it.
pub open spec fn ident_compliant(c: char, class: CharClass) -> bool {
    class.alphabetic || c == '_'
}

/// The kind of a token that is one fixed character, `/` left aside.
pub open spec fn punctuation_kind(c: char) -> Option<TokenType> {
    if c == '(' {
        Some(TokenType::LeftParen)
    } else if c == ')' {
        Some(TokenType::RightParen)
    } else if c == '{' {
        Some(TokenType::LeftBrace)
    } else if c == '}' {
        Some(TokenType::RightBrace)
    } else if c == '[' {
        Some(TokenType::LeftBracket)
    } else if c == ']' {
        Some(TokenType::RightBracket)
    } else if c == '+' || c == '-' || c == '*' || c == '%' {
        Some(TokenType::BinaryOperator)
    } else if c == '=' {
        Some(TokenType::Equals)
    } else if c == '.' {
        Some(TokenType::Dot)
    } else if c == ',' {
        Some(TokenType::Comma)
    } else if c == ':' {
        Some(TokenType::Colon)
    } else if c == ';' {
        Some(TokenType::Semicolon)
    } else {
        None
    }
}

/// Where the run of numeric characters that holds position `from` ends.
pub open spec fn digits_end(s: Seq<char>, classes: Seq<CharClass>, from: int) -> int
    decreases s.len() - from,
{
    if 0 <= from < s.len() && class_at(classes, from).numeric {
        digits_end(s, classes, from + 1)
    } else {
        from
    }
}

/// Where the run of word characters that holds position `from` ends.
pub open spec fn word_end(s: Seq<char>, classes: Seq<CharClass>, from: int) -> int
    decreases s.len() - from,
{
    if 0 <= from < s.len() && ident_compliant(s[from], class_at(classes, from)) {
        word_end(s, classes, from + 1)
    } else {
        from
    }
}

/// The position of the first newline at or after `from`, or the length of
/// the text if there is none.
pub open spec fn line_end(s: Seq<char>, from: int) -> int
    decreases s.len() - from,
{
    if 0 <= from < s.len() && s[from] != '\n' {
        line_end(s, from + 1)
    } else {
        from
    }
}

/// Whether the two characters `*/` stand at position `at`.
pub open spec fn closes_block(s: Seq<char>, at: int) -> bool {
    0 <= at && at + 1 < s.len() && s[at] == '*' && s[at + 1] == '/'
}

/// The position of the first `*/` at or after `from`, or the length of the
/// text if the block comment is never closed.
pub open spec fn block_end(s: Seq<char>, from: int) -> int
    decreases s.len() - from,
{
    if 0 <= from < s.len() && !closes_block(s, from) {
        block_end(s, from + 1)
    } else {
        from
    }
}

/// The token that starts at position `at`, which holds a character that is
/// not skippable, together with the position just behind the token; or
/// the character itself where it starts no token.
pub open spec fn lexeme_at(s: Seq<char>, classes: Seq<CharClass>, at: int) -> Result<
    (TokenView, int),
    LexerError,
> {
    let c = s[at];
    if c == '/' && at + 1 < s.len() && s[at + 1] == '/' {
        let end = line_end(s, at + 2);
        Ok(
            (
                TokenView { text: s.subrange(at + 2, end), kind: TokenType::Comment },
                if end < s.len() {
                    end + 1
                } else {
                    end
                },
            ),
        )
    } else if c == '/' && at + 1 < s.len() && s[at + 1] == '*' {
        let end = block_end(s, at + 2);
        Ok(
            (
                TokenView { text: s.subrange(at + 2, end), kind: TokenType::Comment },
                if end < s.len() {
                    end + 2
                } else {
                    end
                },
            ),
        )
    } else if c == '/' {
        Ok((TokenView { text: seq![c], kind: TokenType::BinaryOperator }, at + 1))
    } else if punctuation_kind(c) is Some {
        Ok((TokenView { text: seq![c], kind: punctuation_kind(c)->0 }, at + 1))
    } else if class_at(classes, at).numeric {
        let end = digits_end(s, classes, at + 1);
        Ok((TokenView { text: s.subrange(at, end), kind: TokenType::Number }, end))
    } else if class_at(classes, at).alphabetic {
        let end = word_end(s, classes, at + 1);
        let word = s.subrange(at, end);
        Ok(
            (
                TokenView {
                    text: word,
                    kind: match keyword_kind(word) {
                        Some(kind) => kind,
                        None => TokenType::Identifier,
                    },
                },
                end,
            ),
        )
    } else {
        Err(LexerError::UnexpectedCharacter(c))
    }
}

/// The sentinel that ends every token stream.
pub open spec fn eof_token() -> TokenView {
    TokenView { text: Seq::empty(), kind: TokenType::Eof }
}

/// `tokens` followed by what the rest of the scan gives.
pub open spec fn prepend(tokens: Seq<TokenView>, rest: Result<Seq<TokenView>, LexerError>) -> Result<
    Seq<TokenView>,
    LexerError,
> {
    match rest {
        Ok(more) => Ok(tokens + more),
        Err(e) => Err(e),
    }
}

/// The tokens of the text from position `from` on, the sentinel included,
/// where the characters have the classes given.
pub open spec fn scan_from(s: Seq<char>, classes: Seq<CharClass>, from: int) -> Result<
    Seq<TokenView>,
    LexerError,
>
    decreases s.len() - from,
    via scan_from_terminates
{
    if from < 0 || from >= s.len() {
        Ok(seq![eof_token()])
    } else if skippable(s[from], class_at(classes, from)) {
        scan_from(s, classes, from + 1)
    } else {
        match lexeme_at(s, classes, from) {
            Ok((token, next)) => prepend(seq![token], scan_from(s, classes, next)),
            Err(e) => Err(e),
        }
    }
}

#[via_fn]
proof fn scan_from_terminates(s: Seq<char>, classes: Seq<CharClass>, from: int) {
    if 0 <= from < s.len() {
        lemma_lexeme_span(s, classes, from);
    }
}

/// The tokens of a whole text whose characters have the classes given:
/// what [`Lexer::scan`] computes.
pub open spec fn scanned(s: Seq<char>, classes: Seq<CharClass>) -> Result<
    Seq<TokenView>,
    LexerError,
> {
    scan_from(s, classes, 0)
}

/// The tokens of a whole text, its characters classed as the standard
/// library classes them: what [`Lexer::tokenize`] computes.
pub open spec fn lex(s: Seq<char>) -> Result<Seq<TokenView>, LexerError> {
    scanned(s, classes_of(s))
}

/// The views of a token vector, or the error.
pub open spec fn lexed_view(result: Result<Vec<Token>, LexerError>) -> Result<
    Seq<TokenView>,
    LexerError,
> {
    match result {
        Ok(tokens) => Ok(tokens_view(tokens@)),
        Err(e) => Err(e),
    }
}

/// A run of numeric characters ends inside the text, holds nothing but
/// numeric characters and cannot be made longer.
pub proof fn lemma_digits_end(s: Seq<char>, classes: Seq<CharClass>, from: int)
    requires
        0 <= from <= s.len(),
    ensures
        from <= digits_end(s, classes, from) <= s.len(),
        forall|k: int|
            from <= k < digits_end(s, classes, from) ==> (#[trigger] class_at(classes, k)).numeric,
        digits_end(s, classes, from) < s.len() ==> !class_at(
            classes,
            digits_end(s, classes, from),
        ).numeric,
    decreases s.len() - from,
{
    if from < s.len() && class_at(classes, from).numeric {
        lemma_digits_end(s, classes, from + 1);
    }
}

/// A run of word characters ends inside the text, holds nothing but word
/// characters and cannot be made longer.
pub proof fn lemma_word_end(s: Seq<char>, classes: Seq<CharClass>, from: int)
    requires
        0 <= from <= s.len(),
    ensures
        from <= word_end(s, classes, from) <= s.len(),
        forall|k: int|
            from <= k < word_end(s, classes, from) ==> ident_compliant(
                s[k],
                #[trigger] class_at(classes, k),
            ),
        word_end(s, classes, from) < s.len() ==> !ident_compliant(
            s[word_end(s, classes, from)],
            class_at(classes, word_end(s, classes, from)),
        ),
    decreases s.len() - from,
{
    if from < s.len() && ident_compliant(s[from], class_at(classes, from)) {
        lemma_word_end(s, classes, from + 1);
    }
}

/// A line comment ends at the first newline, or at the end of the text.
pub proof fn lemma_line_end(s: Seq<char>, from: int)
    requires
        0 <= from <= s.len(),
    ensures
        from <= line_end(s, from) <= s.len(),
        forall|k: int| from <= k < line_end(s, from) ==> #[trigger] s[k] != '\n',
        line_end(s, from) < s.len() ==> s[line_end(s, from)] == '\n',
    decreases s.len() - from,
{
    if from < s.len() && s[from] != '\n' {
        lemma_line_end(s, from + 1);
    }
}

/// A block comment ends at the first `*/`, or at the end of the text.
pub proof fn lemma_block_end(s: Seq<char>, from: int)
    requires
        0 <= from <= s.len(),
    ensures
        from <= block_end(s, from) <= s.len(),
        forall|k: int| from <= k < block_end(s, from) ==> !closes_block(s, k),
        block_end(s, from) < s.len() ==> closes_block(s, block_end(s, from)),
    decreases s.len() - from,
{
    if from < s.len() && !closes_block(s, from) {
        lemma_block_end(s, from + 1);
    }
}

/// A token covers at least one character and ends inside the text.
pub proof fn lemma_lexeme_span(s: Seq<char>, classes: Seq<CharClass>, at: int)
    requires
        0 <= at < s.len(),
    ensures
        lexeme_at(s, classes, at) matches Ok((_, next)) ==> at < next <= s.len(),
{
    let c = s[at];
    if c == '/' && at + 1 < s.len() && s[at + 1] == '/' {
        lemma_line_end(s, at + 2);
    } else if c == '/' && at + 1 < s.len() && s[at + 1] == '*' {
        lemma_block_end(s, at + 2);
    } else if c == '/' {
    } else if punctuation_kind(c) is Some {
    } else if class_at(classes, at).numeric {
        lemma_digits_end(s, classes, at + 1);
    } else if class_at(classes, at).alphabetic {
        lemma_word_end(s, classes, at + 1);
    }
}

/// Every token stream ends with the end-of-input sentinel and holds it
/// nowhere else.
pub proof fn lemma_scan_sentinel(s: Seq<char>, classes: Seq<CharClass>, from: int)
    ensures
        scan_from(s, classes, from) matches Ok(tokens) ==> {
            &&& tokens.len() > 0
            &&& tokens.last() == eof_token()
            &&& forall|k: int| 0 <= k < tokens.len() - 1 ==> (#[trigger] tokens[k]).kind
                != TokenType::Eof
        },
    decreases s.len() - from,
{
    if from < 0 || from >= s.len() {
    } else if skippable(s[from], class_at(classes, from)) {
        lemma_scan_sentinel(s, classes, from + 1);
    } else {
        if let Ok((token, next)) = lexeme_at(s, classes, from) {
            lemma_lexeme_span(s, classes, from);
            lemma_scan_sentinel(s, classes, next);
            if let Ok(rest) = scan_from(s, classes, next) {
                let tokens = seq![token] + rest;
                assert(tokens.last() == rest.last());
                assert forall|k: int| 0 <= k < tokens.len() - 1 implies (#[trigger] tokens[k]).kind
                    != TokenType::Eof by {
                    if k > 0 {
                        assert(tokens[k] == rest[k - 1]);
                    }
                }
            }
        }
    }
}

/// The scanner. It holds no state: [`Lexer::tokenize`] is a function of the
/// text alone.
pub struct Lexer;

impl Lexer {
    /// Splits a source text into its tokens and appends the end-of-input
    /// sentinel. The first character that starts no token makes the whole
    /// call fail. The characters are classed as the standard library
    /// classes them.
    pub fn tokenize(src: &str) -> (result: Result<Vec<Token>, LexerError>)
        ensures
            lexed_view(result) == lex(src@),
    {
        let chars = chars_of(src);
        let mut classes: Vec<CharClass> = Vec::new();
        let mut at: usize = 0;
        while at < chars.len()
            invariant
                chars@ == src@,
                at <= chars.len(),
                classes.len() == at,
                forall|k: int| 0 <= k < at ==> #[trigger] classes[k] == class_of(chars[k]),
            decreases chars.len() - at,
        {
            classes.push(Self::classify(chars[at]));
            at += 1;
        }
        assert(classes@ =~= classes_of(src@));
        Self::scan(src, &classes)
    }

    /// Splits a source text into its tokens as [`Lexer::tokenize`] does,
    /// with the class of every character given: `classes` holds one class
    /// for each character of the text, in order. A character for which no
    /// class is given counts as no letter, no digit and no white space.
    pub fn scan(src: &str, classes: &Vec<CharClass>) -> (result: Result<Vec<Token>, LexerError>)
        ensures
            lexed_view(result) == scanned(src@, classes@),
    {
        let chars = chars_of(src);
        let n = chars.len();
        let mut tokens: Vec<Token> = Vec::new();
        let mut at: usize = 0;
        while at < n
            invariant
                chars@ == src@,
                n == chars.len(),
                at <= n,
                scanned(src@, classes@) == prepend(
                    tokens_view(tokens@),
                    scan_from(src@, classes@, at as int),
                ),
            decreases n - at,
        {
            let ghost before = tokens_view(tokens@);
            if Self::is_skippable(chars[at], Self::class_at(classes, at)) {
                at += 1;
            } else {
                match Self::lexeme(src, &chars, classes, at) {
                    Ok((token, next)) => {
                        proof {
                            let rest = scan_from(src@, classes@, next as int);
                            assert(tokens_view(tokens@.push(token)) == before.push(
                                token@,
                            ));
                            assert(prepend(before, prepend(seq![token@], rest)) == prepend(
                                before.push(token@),
                                rest,
                            )) by {
                                if let Ok(more) = rest {
                                    assert(before + (seq![token@] + more) == before.push(token@)
                                        + more);
                                }
                            }
                        }
                        tokens.push(token);
                        at = next;
                    },
                    Err(e) => {
                        return Err(e);
                    },
                }
            }
        }
        let ghost before = tokens_view(tokens@);
        let sentinel = Token::new(String::new(), TokenType::Eof);
        proof {
            assert(tokens_view(tokens@.push(sentinel)) == before + seq![eof_token()]);
        }
        tokens.push(sentinel);
        Ok(tokens)
    }

    /// The class given for position `at`; no class where none is given.
    fn class_at(classes: &Vec<CharClass>, at: usize) -> (class: CharClass)
        ensures
            class == class_at(classes@, at as int),
    {
        if at < classes.len() {
            classes[at]
        } else {
            CharClass { alphabetic: false, numeric: false, whitespace: false }
        }
    }

    /// The class that the standard library gives a character.
    fn classify(c: char) -> (class: CharClass)
        ensures
            class == class_of(c),
    {
        CharClass {
            alphabetic: Self::is_alpha(c),
            numeric: Self::is_numeric(c),
            whitespace: Self::is_whitespace(c),
        }
    }

    /// Reads the token that starts at `at` and says where the scan goes on.
    fn lexeme(src: &str, chars: &Vec<char>, classes: &Vec<CharClass>, at: usize) -> (result: Result<
        (Token, usize),
        LexerError,
    >)
        requires
            chars@ == src@,
            at < chars.len(),
        ensures
            match result {
                Ok((token, next)) => lexeme_at(src@, classes@, at as int) == Ok::<_, LexerError>(
                    (token@, next as int),
                ),
                Err(e) => lexeme_at(src@, classes@, at as int) == Err::<(TokenView, int), _>(e),
            },
            result matches Ok((_, next)) ==> at < next <= chars.len(),
    {
        let n = chars.len();
        let c = chars[at];
        let class = Self::class_at(classes, at);
        proof {
            lemma_lexeme_span(src@, classes@, at as int);
        }
        if c == '/' && at + 1 < n && chars[at + 1] == '/' {
            let end = Self::scan_line(chars, at + 2);
            let text = src.substring_char(at + 2, end).to_owned();
            let next = if end < n {
                end + 1
            } else {
                end
            };
            Ok((Token::new(text, TokenType::Comment), next))
        } else if c == '/' && at + 1 < n && chars[at + 1] == '*' {
            let end = Self::scan_block(chars, at + 2);
            let text = src.substring_char(at + 2, end).to_owned();
            let next = if end < n {
                end + 2
            } else {
                end
            };
            Ok((Token::new(text, TokenType::Comment), next))
        } else if c == '/' {
            let text = src.substring_char(at, at + 1).to_owned();
            assert(text@ == seq![c]);
            Ok((Token::new(text, TokenType::BinaryOperator), at + 1))
        } else if let Some(kind) = Self::punctuation(c) {
            let text = src.substring_char(at, at + 1).to_owned();
            assert(text@ == seq![c]);
            Ok((Token::new(text, kind), at + 1))
        } else if class.numeric {
            let end = Self::scan_digits(chars, classes, at + 1);
            let text = src.substring_char(at, end).to_owned();
            Ok((Token::new(text, TokenType::Number), end))
        } else if class.alphabetic {
            let end = Self::scan_word(chars, classes, at + 1);
            let text = src.substring_char(at, end).to_owned();
            let kind = match TokenType::from_keyword(text.as_str()) {
                Some(kind) => kind,
                None => TokenType::Identifier,
            };
            Ok((Token::new(text, kind), end))
        } else {
            Err(LexerError::UnexpectedCharacter(c))
        }
    }

    /// The kind of a token that is one fixed character, `/` left aside.
    fn punctuation(c: char) -> (kind: Option<TokenType>)
        ensures
            kind == punctuation_kind(c),
    {
        if c == '(' {
            Some(TokenType::LeftParen)
        } else if c == ')' {
            Some(TokenType::RightParen)
        } else if c == '{' {
            Some(TokenType::LeftBrace)
        } else if c == '}' {
            Some(TokenType::RightBrace)
        } else if c == '[' {
            Some(TokenType::LeftBracket)
        } else if c == ']' {
            Some(TokenType::RightBracket)
        } else if c == '+' || c == '-' || c == '*' || c == '%' {
            Some(TokenType::BinaryOperator)
        } else if c == '=' {
            Some(TokenType::Equals)
        } else if c == '.' {
            Some(TokenType::Dot)
        } else if c == ',' {
            Some(TokenType::Comma)
        } else if c == ':' {
            Some(TokenType::Colon)
        } else if c == ';' {
            Some(TokenType::Semicolon)
        } else {
            None
        }
    }

    /// Skips the numeric characters from `from` on.
    fn scan_digits(chars: &Vec<char>, classes: &Vec<CharClass>, from: usize) -> (end: usize)
        requires
            from <= chars.len(),
        ensures
            end == digits_end(chars@, classes@, from as int),
            from <= end <= chars.len(),
    {
        let mut end = from;
        while end < chars.len() && Self::class_at(classes, end).numeric
            invariant
                from <= end <= chars.len(),
                digits_end(chars@, classes@, from as int) == digits_end(
                    chars@,
                    classes@,
                    end as int,
                ),
            decreases chars.len() - end,
        {
            end += 1;
        }
        end
    }

    /// Skips the word characters from `from` on.
    fn scan_word(chars: &Vec<char>, classes: &Vec<CharClass>, from: usize) -> (end: usize)
        requires
            from <= chars.len(),
        ensures
            end == word_end(chars@, classes@, from as int),
            from <= end <= chars.len(),
    {
        let mut end = from;
        while end < chars.len() && Self::is_ident_compliant(
            chars[end],
            Self::class_at(classes, end),
        )
            invariant
                from <= end <= chars.len(),
                word_end(chars@, classes@, from as int) == word_end(chars@, classes@, end as int),
            decreases chars.len() - end,
        {
            end += 1;
        }
        end
    }

    /// Skips to the next newline, or to the end of the text.
    fn scan_line(chars: &Vec<char>, from: usize) -> (end: usize)
        requires
            from <= chars.len(),
        ensures
            end == line_end(chars@, from as int),
            from <= end <= chars.len(),
    {
        let mut end = from;
        while end < chars.len() && chars[end] != '\n'
            invariant
                from <= end <= chars.len(),
                line_end(chars@, from as int) == line_end(chars@, end as int),
            decreases chars.len() - end,
        {
            end += 1;
        }
        end
    }

    /// Skips to the next `*/`, or to the end of the text.
    fn scan_block(chars: &Vec<char>, from: usize) -> (end: usize)
        requires
            from <= chars.len(),
        ensures
            end == block_end(chars@, from as int),
            from <= end <= chars.len(),
            end < chars.len() ==> end + 2 <= chars.len(),
    {
        let n = chars.len();
        let mut end = from;
        while end < n && !(end + 1 < n && chars[end] == '*' && chars[end + 1] == '/')
            invariant
                n == chars.len(),
                from <= end <= n,
                block_end(chars@, from as int) == block_end(chars@, end as int),
            decreases n - end,
        {
            end += 1;
        }
        end
    }

    /// Whether a character may continue a word.
    fn is_ident_compliant(c: char, class: CharClass) -> (b: bool)
        ensures
            b == ident_compliant(c, class),
    {
        class.alphabetic || c == '_'
    }

    /// `char::is_alphabetic`: whether the character has Unicode's
    /// `Alphabetic` property. Nothing is claimed beyond the name of the
    /// answer.
    #[verifier::external_body]
    fn is_alpha(c: char) -> (b: bool)
        ensures
            b == alphabetic(c),
    {
        c.is_alphabetic()
    }

    /// `char::is_numeric`: whether the character is in one of Unicode's
    /// number categories. Nothing is claimed beyond the name of the answer.
    #[verifier::external_body]
    fn is_numeric(c: char) -> (b: bool)
        ensures
            b == numeric(c),
    {
        c.is_numeric()
    }

    /// `char::is_whitespace`: whether the character has Unicode's
    /// `White_Space` property. Nothing is claimed beyond the name of the
    /// answer.
    #[verifier::external_body]
    fn is_whitespace(c: char) -> (b: bool)
        ensures
            b == whitespace(c),
    {
        c.is_whitespace()
    }

    /// Whether a character separates tokens.
    fn is_skippable(c: char, class: CharClass) -> (b: bool)
        ensures
            b == skippable(c, class),
    {
        class.whitespace || c == '\n' || c == '\t' || c == '\r'
    }
}

} // verus!
