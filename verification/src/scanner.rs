//! The scanner: one pass over the source text, from left to right.
use vstd::prelude::*;
use vstd::hash_map::StringHashMap;
use vstd::string::*;
use crate::classes::{is_alpha, is_alpha_numeric, is_blank, is_digit};
use crate::error::{error_views, ErrorData, ScanError};
use crate::grammar::{
    char_at, end_token, error_of, errors_from, errors_of, keyword_table, lemma_keywords,
    lemma_line_at_monotonic, lemma_line_at_next, lemma_line_at_start, lemma_piece_bounds,
    lemma_scan_done, lemma_scan_piece, line_at, literal_of, number_at, piece_at, run_end,
    string_at, token_of, token_piece, tokens_from, tokens_of, word_at, Piece, Run,
};
use crate::laws::{lemma_tokens_from, non_decreasing};
use crate::token::{token_views, Token, TokenData, TokenKind};

verus! {

/// The characters of `text`, in order.
fn characters(text: &str) -> (chars: Vec<char>)
    ensures
        chars@ == text@,
{
    let mut chars: Vec<char> = Vec::new();
    for c in iter: text.chars()
        invariant
            iter.seq() == text@,
            chars@ == iter.seq().take(iter.index() as int),
    {
        chars.push(c);
    }
    chars
}

/// A scanner over one source text.
///
/// It keeps the text, the cursor `current` (the index of the next character
/// to consume), the index `start` at which the token being scanned began, the
/// line of the cursor and the line of `start`, and the tokens produced so far.
pub struct Scanner {
    source: String,
    chars: Vec<char>,
    tokens: Vec<Token>,
    current: usize,
    start: usize,
    line: usize,
    start_line: usize,
    keywords: StringHashMap<TokenKind>,
}

impl Scanner {
    /// The source text.
    pub closed spec fn source(&self) -> Seq<char> {
        self.source@
    }

    /// The index of the next character to consume.
    pub closed spec fn position(&self) -> int {
        self.current as int
    }

    /// The tokens produced so far.
    pub closed spec fn emitted(&self) -> Seq<TokenData> {
        token_views(self.tokens@)
    }

    /// The scanner's invariant: the cursor lies inside the text, the line
    /// counter is the line of the cursor, and the keyword table is the fixed
    /// one.
    pub closed spec fn wf(&self) -> bool {
        &&& self.chars@ == self.source@
        &&& self.chars.len() < usize::MAX
        &&& self.keywords@ == keyword_table()
        &&& self.start <= self.current <= self.chars.len()
        &&& self.line == line_at(self.source@, self.current as int)
        &&& self.start_line == line_at(self.source@, self.start as int)
    }

    /// A scanner at the start of `source`, with no token produced yet.
    pub fn new(source: String) -> (scanner: Self)
        requires
            source@.len() < usize::MAX,
        ensures
            scanner.wf(),
            scanner.source() == source@,
            scanner.position() == 0,
            scanner.emitted() == Seq::<TokenData>::empty(),
    {
        let chars = characters(source.as_str());
        proof {
            lemma_line_at_start(source@);
        }
        let scanner = Scanner {
            source,
            chars,
            tokens: Vec::new(),
            current: 0,
            start: 0,
            line: 1,
            start_line: 1,
            keywords: Scanner::add_keywords(),
        };
        assert(scanner.emitted() =~= Seq::<TokenData>::empty());
        scanner
    }

    fn add_keywords() -> (keywords: StringHashMap<TokenKind>)
        ensures
            keywords@ == keyword_table(),
    {
        let mut keywords: StringHashMap<TokenKind> = StringHashMap::new();
        keywords.insert("and".to_owned(), TokenKind::And);
        keywords.insert("class".to_owned(), TokenKind::Class);
        keywords.insert("else".to_owned(), TokenKind::Else);
        keywords.insert("false".to_owned(), TokenKind::False);
        keywords.insert("for".to_owned(), TokenKind::For);
        keywords.insert("fun".to_owned(), TokenKind::Fun);
        keywords.insert("if".to_owned(), TokenKind::If);
        keywords.insert("nil".to_owned(), TokenKind::Nil);
        keywords.insert("or".to_owned(), TokenKind::Or);
        keywords.insert("print".to_owned(), TokenKind::Print);
        keywords.insert("return".to_owned(), TokenKind::Return);
        keywords.insert("super".to_owned(), TokenKind::Super);
        keywords.insert("this".to_owned(), TokenKind::This);
        keywords.insert("true".to_owned(), TokenKind::True);
        keywords.insert("var".to_owned(), TokenKind::Var);
        keywords.insert("while".to_owned(), TokenKind::While);
        keywords
    }

    /// Whether `self` is `before` with the cursor moved to `current` and
    /// nothing else changed.
    spec fn moved(&self, before: &Scanner, current: int) -> bool {
        &&& self.wf()
        &&& self.source == before.source
        &&& self.chars == before.chars
        &&& self.keywords == before.keywords
        &&& self.tokens == before.tokens
        &&& self.start == before.start
        &&& self.start_line == before.start_line
        &&& self.current == current
    }

    fn is_at_end(&self) -> (at_end: bool)
        requires
            self.wf(),
        ensures
            at_end == (self.current >= self.source@.len()),
    {
        self.current >= self.chars.len()
    }

    fn peek(&self) -> (c: char)
        requires
            self.wf(),
        ensures
            c == char_at(self.source@, self.current as int),
    {
        if self.is_at_end() {
            return '\0';
        }
        self.chars[self.current]
    }

    fn peek_next(&self) -> (c: char)
        requires
            self.wf(),
        ensures
            c == char_at(self.source@, self.current + 1),
    {
        if self.chars.len() - self.current <= 1 {
            return '\0';
        }
        self.chars[self.current + 1]
    }

    fn advance(&mut self) -> (c: char)
        requires
            old(self).wf(),
        ensures
            c == char_at(old(self).source@, old(self).current as int),
            final(self).moved(
                old(self),
                if old(self).current < old(self).source@.len() {
                    old(self).current + 1
                } else {
                    old(self).current as int
                },
            ),
    {
        if self.is_at_end() {
            return '\0';
        }
        let c = self.chars[self.current];
        proof {
            lemma_line_at_next(self.source@, self.current as int);
            lemma_line_at_monotonic(self.source@, 0, self.current as int);
            lemma_line_at_start(self.source@);
        }
        self.current += 1;
        if c == '\n' {
            self.line += 1;
        }
        c
    }

    fn check(&mut self, value: char) -> (matched: bool)
        requires
            old(self).wf(),
        ensures
            matched == (old(self).current < old(self).source@.len() && old(self).source@[old(
                self,
            ).current as int] == value),
            final(self).moved(old(self), old(self).current + if matched { 1int } else { 0int }),
    {
        if self.is_at_end() {
            return false;
        } else if self.peek() != value {
            return false;
        }
        let _ = self.advance();
        true
    }

    /// Whether `self` is `before` after scanning `piece`: the cursor stands
    /// at the end of the piece, and the piece's token, if it is one, was
    /// appended to the tokens.
    spec fn stepped(&self, before: &Scanner, piece: Piece) -> bool {
        &&& self.wf()
        &&& self.source == before.source
        &&& self.chars == before.chars
        &&& self.keywords == before.keywords
        &&& self.current == piece.end
        &&& token_views(self.tokens@) == token_views(before.tokens@) + match token_of(
            before.source@,
            piece,
        ) {
            Some(token) => seq![token],
            None => Seq::empty(),
        }
    }

    /// Whether `result` is what scanning `piece` reports: its error if it is
    /// erroneous, else whether it is a token.
    spec fn reports(result: Result<bool, ScanError>, src: Seq<char>, piece: Piece) -> bool {
        match error_of(src, piece) {
            Some(error) => result is Err && result->Err_0@ == error,
            None => result == Ok::<bool, ScanError>(token_of(src, piece) is Some),
        }
    }

    /// Appends the token of the given kind over the text from `start` to the
    /// cursor, without a payload. Returns `true`: a token was appended.
    fn add_token(&mut self, token_type: TokenKind) -> (added: bool)
        requires
            old(self).wf(),
            token_type != TokenKind::String,
            token_type != TokenKind::Number,
        ensures
            added,
            final(self).stepped(
                old(self),
                token_piece(token_type, old(self).start as int, old(self).current as int),
            ),
    {
        self.add_tokens(token_type, String::new())
    }

    /// Appends the token of the given kind over the text from `start` to the
    /// cursor, with the given payload. Returns `true`: a token was appended.
    fn add_tokens(&mut self, token_type: TokenKind, literal: String) -> (added: bool)
        requires
            old(self).wf(),
            literal@ == literal_of(
                old(self).source@,
                token_type,
                old(self).start as int,
                old(self).current as int,
            ),
        ensures
            added,
            final(self).stepped(
                old(self),
                token_piece(token_type, old(self).start as int, old(self).current as int),
            ),
    {
        let lexeme = self.source.as_str().substring_char(self.start, self.current).to_owned();
        let token = Token::new(token_type, lexeme, self.start_line, literal);
        self.tokens.push(token);
        assert(token_views(self.tokens@) =~= token_views(old(self).tokens@) + seq![token@]);
        true
    }

    /// Scans the rest of a string literal whose opening quote was just
    /// consumed. Without a closing quote, the rest of the text is consumed
    /// and the error carries the line of the opening quote.
    fn string(&mut self) -> (result: Result<bool, ScanError>)
        requires
            old(self).wf(),
            old(self).current == old(self).start + 1,
        ensures
            final(self).stepped(old(self), string_at(old(self).source@, old(self).start as int)),
            Scanner::reports(
                result,
                old(self).source@,
                string_at(old(self).source@, old(self).start as int),
            ),
    {
        while self.peek() != '"' && !self.is_at_end()
            invariant
                self.moved(old(self), self.current as int),
                old(self).wf(),
                old(self).current == old(self).start + 1,
                old(self).current <= self.current,
                run_end(self.source@, self.current as int, Run::Text) == run_end(
                    self.source@,
                    old(self).current as int,
                    Run::Text,
                ),
            decreases self.source@.len() - self.current,
        {
            let _ = self.advance();
        }

        if self.is_at_end() {
            assert(token_views(self.tokens@) + Seq::<TokenData>::empty() =~= token_views(
                self.tokens@,
            ));
            return Err(ScanError::UnterminatedString(self.start_line));
        }
        let _ = self.advance();
        let literal = self.source.as_str().substring_char(
            self.start + 1,
            self.current - 1,
        ).to_owned();
        Ok(self.add_tokens(TokenKind::String, literal))
    }

    /// Scans the rest of a number whose first digit was just consumed.
    fn number(&mut self) -> (added: bool)
        requires
            old(self).wf(),
            old(self).current == old(self).start + 1,
            is_digit(old(self).source@[old(self).start as int]),
        ensures
            added,
            final(self).stepped(old(self), number_at(old(self).source@, old(self).start as int)),
    {
        while is_digit(self.peek())
            invariant
                self.moved(old(self), self.current as int),
                old(self).wf(),
                old(self).current <= self.current,
                run_end(self.source@, self.current as int, Run::Digits) == run_end(
                    self.source@,
                    old(self).current as int,
                    Run::Digits,
                ),
            decreases self.source@.len() - self.current,
        {
            let _ = self.advance();
        }

        if self.peek() == '.' && is_digit(self.peek_next()) {
            let ghost whole = self.current as int;
            let _ = self.advance();

            while is_digit(self.peek())
                invariant
                    self.moved(old(self), self.current as int),
                    old(self).wf(),
                    old(self).current <= whole < self.current,
                    run_end(self.source@, self.current as int, Run::Digits) == run_end(
                        self.source@,
                        whole + 1,
                        Run::Digits,
                    ),
                decreases self.source@.len() - self.current,
            {
                let _ = self.advance();
            }
        }

        let literal = self.source.as_str().substring_char(self.start, self.current).to_owned();
        self.add_tokens(TokenKind::Number, literal)
    }

    /// Scans the rest of a word whose first character was just consumed, and
    /// looks the word up in the keyword table.
    fn identifier(&mut self) -> (added: bool)
        requires
            old(self).wf(),
            old(self).current == old(self).start + 1,
            is_alpha(old(self).source@[old(self).start as int]),
        ensures
            added,
            final(self).stepped(old(self), word_at(old(self).source@, old(self).start as int)),
    {
        while is_alpha_numeric(self.peek())
            invariant
                self.moved(old(self), self.current as int),
                old(self).wf(),
                old(self).current <= self.current,
                run_end(self.source@, self.current as int, Run::Word) == run_end(
                    self.source@,
                    old(self).current as int,
                    Run::Word,
                ),
            decreases self.source@.len() - self.current,
        {
            let _ = self.advance();
        }

        let text = self.source.as_str().substring_char(self.start, self.current);
        let token_type = match self.keywords.get(text) {
            Some(token_type) => *token_type,
            None => TokenKind::Identifier,
        };
        proof {
            lemma_keywords(text@);
        }
        self.add_token(token_type)
    }

    /// Scans the piece that starts at the cursor: consumes its text, appends
    /// its token if it is one, and reports its error if it is erroneous.
    /// `Ok` says whether a token was appended.
    fn scan_token(&mut self) -> (result: Result<bool, ScanError>)
        requires
            old(self).wf(),
            old(self).current < old(self).source@.len(),
            old(self).start == old(self).current,
        ensures
            final(self).stepped(old(self), piece_at(old(self).source@, old(self).current as int)),
            Scanner::reports(
                result,
                old(self).source@,
                piece_at(old(self).source@, old(self).current as int),
            ),
    {
        let c: char = self.advance();
        proof {
            assert(token_views(self.tokens@) + Seq::<TokenData>::empty() =~= token_views(
                self.tokens@,
            ));
        }
        match c {
            '(' => Ok(self.add_token(TokenKind::LeftParen)),
            ')' => Ok(self.add_token(TokenKind::RightParen)),
            '{' => Ok(self.add_token(TokenKind::LeftBrace)),
            '}' => Ok(self.add_token(TokenKind::RightBrace)),
            ',' => Ok(self.add_token(TokenKind::Comma)),
            '.' => Ok(self.add_token(TokenKind::Dot)),
            '-' => Ok(self.add_token(TokenKind::Minus)),
            '+' => Ok(self.add_token(TokenKind::Plus)),
            ';' => Ok(self.add_token(TokenKind::Semicolon)),
            '*' => Ok(self.add_token(TokenKind::Star)),
            '!' => match self.check('=') {
                true => Ok(self.add_token(TokenKind::BangEqual)),
                false => Ok(self.add_token(TokenKind::Bang)),
            },
            '=' => match self.check('=') {
                true => Ok(self.add_token(TokenKind::EqualEqual)),
                false => Ok(self.add_token(TokenKind::Equal)),
            },
            '<' => match self.check('=') {
                true => Ok(self.add_token(TokenKind::LessEqual)),
                false => Ok(self.add_token(TokenKind::Less)),
            },
            '>' => match self.check('=') {
                true => Ok(self.add_token(TokenKind::GreaterEqual)),
                false => Ok(self.add_token(TokenKind::Greater)),
            },
            '/' => {
                if self.check('/') {
                    while self.peek() != '\n' && !self.is_at_end()
                        invariant
                            self.moved(old(self), self.current as int),
                            old(self).wf(),
                            old(self).current + 2 <= self.current,
                            run_end(self.source@, self.current as int, Run::Comment) == run_end(
                                self.source@,
                                old(self).current + 2,
                                Run::Comment,
                            ),
                        decreases self.source@.len() - self.current,
                    {
                        let _ = self.advance();
                    }
                    Ok(false)
                } else {
                    Ok(self.add_token(TokenKind::Slash))
                }
            },
            '"' => self.string(),
            _ => {
                if is_blank(c) {
                    Ok(false)
                } else if is_digit(c) {
                    Ok(self.number())
                } else if is_alpha(c) {
                    Ok(self.identifier())
                } else {
                    Err(ScanError::UnexpectedCharacter(c, self.start_line))
                }
            },
        }
    }

    /// Scans the text from the cursor to its end, appends the tokens found
    /// and then the end-of-input token, and returns the lexical errors in
    /// source order.
    ///
    /// An error does not stop the scan. An unexpected character is skipped;
    /// an unterminated string takes the rest of the text with it. So the
    /// tokens are there whatever was wrong, and the result is empty exactly
    /// when nothing was.
    pub fn scan_tokens(&mut self) -> (errors: Vec<ScanError>)
        requires
            old(self).wf(),
        ensures
            final(self).wf(),
            final(self).source() == old(self).source(),
            final(self).position() == final(self).source().len(),
            final(self).emitted() == old(self).emitted() + tokens_from(
                old(self).source(),
                old(self).position(),
            ).push(end_token(old(self).source())),
            error_views(errors@) == errors_from(old(self).source(), old(self).position()),
            old(self).position() == 0 && old(self).emitted().len() == 0 ==> final(self).emitted()
                == tokens_of(final(self).source()) && error_views(errors@) == errors_of(
                final(self).source(),
            ),
            final(self).emitted().len() > 0,
            final(self).emitted().last().kind == TokenKind::End,
            old(self).emitted().len() == 0 ==> non_decreasing(final(self).emitted()),
    {
        let mut errors: Vec<ScanError> = Vec::new();
        while !self.is_at_end()
            invariant
                self.wf(),
                self.source == old(self).source,
                token_views(self.tokens@) + tokens_from(self.source@, self.current as int)
                    == token_views(old(self).tokens@) + tokens_from(
                    self.source@,
                    old(self).current as int,
                ),
                error_views(errors@) + errors_from(self.source@, self.current as int)
                    == errors_from(self.source@, old(self).current as int),
            decreases self.source@.len() - self.current,
        {
            self.start = self.current;
            self.start_line = self.line;
            let ghost before = *self;
            let ghost piece = piece_at(self.source@, self.current as int);
            proof {
                lemma_piece_bounds(self.source@, self.current as int);
                lemma_scan_piece(self.source@, self.current as int);
            }
            let ghost reported = error_views(errors@);
            match self.scan_token() {
                Ok(_) => {
                    assert(reported + (Seq::<ErrorData>::empty() + errors_from(
                        self.source@,
                        piece.end,
                    )) =~= reported + errors_from(self.source@, piece.end));
                },
                Err(error) => {
                    errors.push(error);
                    assert(error_views(errors@) =~= reported + seq![error@]);
                    assert((reported + seq![error@]) + errors_from(self.source@, piece.end)
                        =~= reported + (seq![error@] + errors_from(self.source@, piece.end)));
                },
            }
            proof {
                let emitted = match token_of(self.source@, piece) {
                    Some(token) => seq![token],
                    None => Seq::empty(),
                };
                assert((token_views(before.tokens@) + emitted) + tokens_from(
                    self.source@,
                    piece.end,
                ) =~= token_views(before.tokens@) + (emitted + tokens_from(
                    self.source@,
                    piece.end,
                )));
            }
        }

        proof {
            lemma_scan_done(self.source@, self.current as int);
            assert(token_views(self.tokens@) + Seq::<TokenData>::empty() =~= token_views(
                self.tokens@,
            ));
            assert(error_views(errors@) + Seq::<ErrorData>::empty() =~= error_views(errors@));
        }
        let ghost scanned = token_views(self.tokens@);
        let token = Token::new(TokenKind::End, String::new(), self.line, String::new());
        self.tokens.push(token);
        proof {
            let src = self.source@;
            let found = tokens_from(src, old(self).current as int);
            assert(scanned == token_views(old(self).tokens@) + found);
            assert(token@ == end_token(src));
            assert(token_views(self.tokens@) =~= scanned.push(end_token(src)));
            assert(token_views(self.tokens@) =~= token_views(old(self).tokens@) + found.push(
                end_token(src),
            ));
            if token_views(old(self).tokens@).len() == 0 {
                lemma_tokens_from(src, old(self).current as int);
                assert(token_views(self.tokens@) =~= found.push(end_token(src)));
            }
        }
        errors
    }

    /// The tokens produced so far.
    pub fn tokens(&self) -> (tokens: &Vec<Token>)
        ensures
            token_views(tokens@) == self.emitted(),
    {
        &self.tokens
    }

    /// Hands the tokens produced so far to the caller.
    pub fn into_tokens(self) -> (tokens: Vec<Token>)
        ensures
            token_views(tokens@) == self.emitted(),
    {
        self.tokens
    }

    /// The line of the cursor: one more than the number of newlines consumed.
    pub fn line(&self) -> (line: usize)
        requires
            self.wf(),
        ensures
            line == line_at(self.source(), self.position()),
    {
        self.line
    }
}

} // verus!
