//! What the tokens and the errors of a source text are, as mathematics over
//! `Seq<char>`.
//!
//! A source text falls into *pieces* that follow one another without gaps:
//! tokens, blanks, comments and the two kinds of erroneous text. Which piece
//! starts at a position is decided by the character found there and by the
//! longest run of characters that can continue it. The tokens of the text are
//! its token pieces, in order, followed by the end-of-input token.
use vstd::prelude::*;
use crate::classes::{is_alpha, is_alpha_numeric, is_blank, is_digit};
use crate::error::ErrorData;
use crate::token::{TokenData, TokenKind};

verus! {

/// The character at index `i`, or the NUL sentinel outside the text.
pub open spec fn char_at(src: Seq<char>, i: int) -> char {
    if 0 <= i < src.len() {
        src[i]
    } else {
        '\0'
    }
}

/// The number of newline characters in `text`.
pub open spec fn newlines(text: Seq<char>) -> nat
    decreases text.len(),
{
    if text.len() == 0 {
        0
    } else if text.last() == '\n' {
        newlines(text.drop_last()) + 1
    } else {
        newlines(text.drop_last())
    }
}

/// The 1-based line that position `pos` of `src` lies on: one more than the
/// number of newlines before it.
pub open spec fn line_at(src: Seq<char>, pos: int) -> nat {
    1 + newlines(src.take(pos))
}

/// The fixed table of reserved words.
pub open spec fn keyword_table() -> Map<Seq<char>, TokenKind> {
    Map::<Seq<char>, TokenKind>::empty()
        .insert("and"@, TokenKind::And)
        .insert("class"@, TokenKind::Class)
        .insert("else"@, TokenKind::Else)
        .insert("false"@, TokenKind::False)
        .insert("for"@, TokenKind::For)
        .insert("fun"@, TokenKind::Fun)
        .insert("if"@, TokenKind::If)
        .insert("nil"@, TokenKind::Nil)
        .insert("or"@, TokenKind::Or)
        .insert("print"@, TokenKind::Print)
        .insert("return"@, TokenKind::Return)
        .insert("super"@, TokenKind::Super)
        .insert("this"@, TokenKind::This)
        .insert("true"@, TokenKind::True)
        .insert("var"@, TokenKind::Var)
        .insert("while"@, TokenKind::While)
}

/// The kind of an identifier-shaped lexeme: the keyword that it spells
/// exactly, else `Identifier`.
pub open spec fn word_kind(text: Seq<char>) -> TokenKind {
    if keyword_table().contains_key(text) {
        keyword_table()[text]
    } else {
        TokenKind::Identifier
    }
}

/// A word is never a string, a number or the end-of-input token.
pub proof fn lemma_keywords(text: Seq<char>)
    ensures
        word_kind(text) != TokenKind::String,
        word_kind(text) != TokenKind::Number,
        word_kind(text) != TokenKind::End,
{
}

/// The runs of characters that a piece may extend over.
pub enum Run {
    /// Decimal digits.
    Digits,
    /// Letters, digits and underscores.
    Word,
    /// Anything up to the end of the line.
    Comment,
    /// Anything up to a double quote.
    Text,
}

/// Whether `c` continues a run of the given kind.
pub open spec fn continues(run: Run, c: char) -> bool {
    match run {
        Run::Digits => is_digit(c),
        Run::Word => is_alpha_numeric(c),
        Run::Comment => c != '\n',
        Run::Text => c != '"',
    }
}

/// Where the longest run of the given kind that starts at `pos` ends: the
/// first position from `pos` on that holds a character which does not
/// continue the run, or the end of the text.
pub open spec fn run_end(src: Seq<char>, pos: int, run: Run) -> int
    decreases src.len() - pos,
{
    if 0 <= pos < src.len() && continues(run, src[pos]) {
        run_end(src, pos + 1, run)
    } else {
        pos
    }
}

/// What a piece of the source text is.
pub enum PieceKind {
    /// A token of the given kind.
    Token(TokenKind),
    /// One blank character.
    Blank,
    /// A line comment, from `//` up to the end of the line.
    Comment,
    /// One character that starts no token.
    Unexpected,
    /// An opening quote and all the text after it, which holds no closing one.
    Unterminated,
}

/// A piece of the source text: the characters from `start` up to `end`.
pub struct Piece {
    pub kind: PieceKind,
    pub start: int,
    pub end: int,
}

/// The token piece of the given kind over `start..end`.
pub open spec fn token_piece(kind: TokenKind, start: int, end: int) -> Piece {
    Piece { kind: PieceKind::Token(kind), start, end }
}

/// The piece at `pos` where an operator character stands, which an `=`
/// right after it turns into the two-character operator.
pub open spec fn operator_at(src: Seq<char>, pos: int, alone: TokenKind, with_equal: TokenKind) -> Piece {
    if char_at(src, pos + 1) == '=' {
        token_piece(with_equal, pos, pos + 2)
    } else {
        token_piece(alone, pos, pos + 1)
    }
}

/// The piece at `pos` where a `/` stands: a comment if another `/` follows,
/// else the division operator.
pub open spec fn slash_at(src: Seq<char>, pos: int) -> Piece {
    if char_at(src, pos + 1) == '/' {
        Piece { kind: PieceKind::Comment, start: pos, end: run_end(src, pos + 2, Run::Comment) }
    } else {
        token_piece(TokenKind::Slash, pos, pos + 1)
    }
}

/// The piece at `pos` where a `"` stands: the string literal up to and
/// including the next `"`, or the rest of the text if there is none.
pub open spec fn string_at(src: Seq<char>, pos: int) -> Piece {
    let close = run_end(src, pos + 1, Run::Text);
    if close < src.len() {
        token_piece(TokenKind::String, pos, close + 1)
    } else {
        Piece { kind: PieceKind::Unterminated, start: pos, end: src.len() as int }
    }
}

/// The piece at `pos` where a digit stands: the digits, and a fraction if a
/// `.` and at least one more digit follow them.
pub open spec fn number_at(src: Seq<char>, pos: int) -> Piece {
    let whole = run_end(src, pos + 1, Run::Digits);
    if char_at(src, whole) == '.' && is_digit(char_at(src, whole + 1)) {
        token_piece(TokenKind::Number, pos, run_end(src, whole + 1, Run::Digits))
    } else {
        token_piece(TokenKind::Number, pos, whole)
    }
}

/// The piece at `pos` where a letter or an underscore stands: the longest
/// word, as a keyword if it spells one and as an identifier if not.
pub open spec fn word_at(src: Seq<char>, pos: int) -> Piece {
    let end = run_end(src, pos + 1, Run::Word);
    token_piece(word_kind(src.subrange(pos, end)), pos, end)
}

/// The piece that starts at position `pos` of `src`.
pub open spec fn piece_at(src: Seq<char>, pos: int) -> Piece
    recommends
        0 <= pos < src.len(),
{
    let c = src[pos];
    if c == '(' {
        token_piece(TokenKind::LeftParen, pos, pos + 1)
    } else if c == ')' {
        token_piece(TokenKind::RightParen, pos, pos + 1)
    } else if c == '{' {
        token_piece(TokenKind::LeftBrace, pos, pos + 1)
    } else if c == '}' {
        token_piece(TokenKind::RightBrace, pos, pos + 1)
    } else if c == ',' {
        token_piece(TokenKind::Comma, pos, pos + 1)
    } else if c == '.' {
        token_piece(TokenKind::Dot, pos, pos + 1)
    } else if c == '-' {
        token_piece(TokenKind::Minus, pos, pos + 1)
    } else if c == '+' {
        token_piece(TokenKind::Plus, pos, pos + 1)
    } else if c == ';' {
        token_piece(TokenKind::Semicolon, pos, pos + 1)
    } else if c == '*' {
        token_piece(TokenKind::Star, pos, pos + 1)
    } else if c == '!' {
        operator_at(src, pos, TokenKind::Bang, TokenKind::BangEqual)
    } else if c == '=' {
        operator_at(src, pos, TokenKind::Equal, TokenKind::EqualEqual)
    } else if c == '<' {
        operator_at(src, pos, TokenKind::Less, TokenKind::LessEqual)
    } else if c == '>' {
        operator_at(src, pos, TokenKind::Greater, TokenKind::GreaterEqual)
    } else if c == '/' {
        slash_at(src, pos)
    } else if is_blank(c) {
        Piece { kind: PieceKind::Blank, start: pos, end: pos + 1 }
    } else if c == '"' {
        string_at(src, pos)
    } else if is_digit(c) {
        number_at(src, pos)
    } else if is_alpha(c) {
        word_at(src, pos)
    } else {
        Piece { kind: PieceKind::Unexpected, start: pos, end: pos + 1 }
    }
}

/// The first line is line 1.
pub proof fn lemma_line_at_start(src: Seq<char>)
    ensures
        line_at(src, 0) == 1,
{
    assert(src.take(0).len() == 0);
}

/// Crossing a newline character moves to the next line; crossing any other
/// character stays on the line.
pub proof fn lemma_line_at_next(src: Seq<char>, pos: int)
    requires
        0 <= pos < src.len(),
    ensures
        line_at(src, pos + 1) == line_at(src, pos) + if src[pos] == '\n' { 1nat } else { 0nat },
{
    assert(src.take(pos + 1).drop_last() =~= src.take(pos));
    assert(src.take(pos + 1).last() == src[pos]);
}

/// Line numbers do not decrease along the text, and grow by at most one per
/// character.
pub proof fn lemma_line_at_monotonic(src: Seq<char>, from: int, to: int)
    requires
        0 <= from <= to <= src.len(),
    ensures
        line_at(src, from) <= line_at(src, to) <= line_at(src, from) + (to - from),
    decreases to - from,
{
    if from < to {
        lemma_line_at_monotonic(src, from, to - 1);
        lemma_line_at_next(src, to - 1);
    }
}

/// The text that a piece covers.
pub open spec fn piece_text(src: Seq<char>, piece: Piece) -> Seq<char> {
    src.subrange(piece.start, piece.end)
}

/// The decoded payload of a token of the given kind over `start..end`: the
/// text between the quotes for a string, the lexeme itself for a number,
/// nothing otherwise.
pub open spec fn literal_of(src: Seq<char>, kind: TokenKind, start: int, end: int) -> Seq<char> {
    match kind {
        TokenKind::String => src.subrange(start + 1, end - 1),
        TokenKind::Number => src.subrange(start, end),
        _ => Seq::empty(),
    }
}

/// The token that a piece stands for, if it is a token piece.
pub open spec fn token_of(src: Seq<char>, piece: Piece) -> Option<TokenData> {
    match piece.kind {
        PieceKind::Token(kind) => Some(
            TokenData {
                kind,
                lexeme: piece_text(src, piece),
                line: line_at(src, piece.start),
                literal: literal_of(src, kind, piece.start, piece.end),
            },
        ),
        _ => None,
    }
}

/// The error that a piece stands for, if it is erroneous text.
pub open spec fn error_of(src: Seq<char>, piece: Piece) -> Option<ErrorData> {
    match piece.kind {
        PieceKind::Unexpected => Some(
            ErrorData::UnexpectedCharacter(src[piece.start], line_at(src, piece.start)),
        ),
        PieceKind::Unterminated => Some(ErrorData::UnterminatedString(line_at(src, piece.start))),
        _ => None,
    }
}

/// The end-of-input token of `src`: it stands on the last line of the text.
pub open spec fn end_token(src: Seq<char>) -> TokenData {
    TokenData {
        kind: TokenKind::End,
        lexeme: Seq::empty(),
        line: line_at(src, src.len() as int),
        literal: Seq::empty(),
    }
}

/// A run that starts inside the text ends inside it, holds only characters
/// that continue it, and stops at the first one that does not.
pub proof fn lemma_run_end(src: Seq<char>, pos: int, run: Run)
    requires
        0 <= pos <= src.len(),
    ensures
        pos <= run_end(src, pos, run) <= src.len(),
        forall|i: int| pos <= i < run_end(src, pos, run) ==> continues(run, #[trigger] src[i]),
        !continues(run, char_at(src, run_end(src, pos, run))) || run_end(src, pos, run) == src.len(),
    decreases src.len() - pos,
{
    if pos < src.len() && continues(run, src[pos]) {
        lemma_run_end(src, pos + 1, run);
    }
}

/// Every piece starts where it is asked for, is not empty and ends inside
/// the text.
pub proof fn lemma_piece_bounds(src: Seq<char>, pos: int)
    requires
        0 <= pos < src.len(),
    ensures
        piece_at(src, pos).start == pos,
        pos < piece_at(src, pos).end <= src.len(),
{
    lemma_run_end(src, pos + 1, Run::Digits);
    lemma_run_end(src, pos + 1, Run::Word);
    lemma_run_end(src, pos + 1, Run::Text);
    let whole = run_end(src, pos + 1, Run::Digits);
    if whole + 2 <= src.len() {
        lemma_run_end(src, whole + 2, Run::Digits);
    }

    if pos + 2 <= src.len() {
        lemma_run_end(src, pos + 2, Run::Comment);
    }
}

/// The pieces of `src` from position `pos` to the end of the text, in order.
pub open spec fn pieces_from(src: Seq<char>, pos: int) -> Seq<Piece>
    decreases src.len() - pos,
{
    if 0 <= pos < src.len() {
        let piece = piece_at(src, pos);
        proof {
            lemma_piece_bounds(src, pos);
        }
        seq![piece] + pieces_from(src, piece.end)
    } else {
        Seq::empty()
    }
}

/// The tokens among the pieces of `src` from `pos` on, in order, without the
/// end-of-input token.
pub open spec fn tokens_from(src: Seq<char>, pos: int) -> Seq<TokenData> {
    pieces_from(src, pos).filter_map(|piece: Piece| token_of(src, piece))
}

/// The errors among the pieces of `src` from `pos` on, in order.
pub open spec fn errors_from(src: Seq<char>, pos: int) -> Seq<ErrorData> {
    pieces_from(src, pos).filter_map(|piece: Piece| error_of(src, piece))
}

/// Picking from a sequence picks from its first element, then from the rest.
proof fn lemma_filter_map_first<A, B>(first: A, rest: Seq<A>, f: spec_fn(A) -> Option<B>)
    ensures
        (seq![first] + rest).filter_map(f) == match f(first) {
            Some(b) => seq![b],
            None => Seq::empty(),
        } + rest.filter_map(f),
    decreases rest.len(),
{
    let head = match f(first) {
        Some(b) => seq![b],
        None => Seq::empty(),
    };
    let all = seq![first] + rest;
    if rest.len() == 0 {
        assert(all.drop_last() =~= Seq::<A>::empty());
        assert(all.drop_last().filter_map(f) =~= Seq::<B>::empty());
        assert(all.filter_map(f) =~= head + rest.filter_map(f));
    } else {
        lemma_filter_map_first(first, rest.drop_last(), f);
        assert(all.drop_last() =~= seq![first] + rest.drop_last());
        assert(all.last() == rest.last());
        assert(all.filter_map(f) =~= head + rest.filter_map(f));
    }
}

/// The tokens and the errors from a position inside the text are those of
/// the piece that starts there, then those from the end of that piece.
pub proof fn lemma_scan_piece(src: Seq<char>, pos: int)
    requires
        0 <= pos < src.len(),
    ensures
        tokens_from(src, pos) == match token_of(src, piece_at(src, pos)) {
            Some(token) => seq![token],
            None => Seq::empty(),
        } + tokens_from(src, piece_at(src, pos).end),
        errors_from(src, pos) == match error_of(src, piece_at(src, pos)) {
            Some(error) => seq![error],
            None => Seq::empty(),
        } + errors_from(src, piece_at(src, pos).end),
{
    let piece = piece_at(src, pos);
    let rest = pieces_from(src, piece.end);
    lemma_filter_map_first(piece, rest, |piece: Piece| token_of(src, piece));
    lemma_filter_map_first(piece, rest, |piece: Piece| error_of(src, piece));
}

/// Past the end of the text there is no token and no error left.
pub proof fn lemma_scan_done(src: Seq<char>, pos: int)
    requires
        pos >= src.len(),
    ensures
        tokens_from(src, pos) == Seq::<TokenData>::empty(),
        errors_from(src, pos) == Seq::<ErrorData>::empty(),
{
}

/// The token sequence of `src`: its tokens in source order, then the
/// end-of-input token.
pub open spec fn tokens_of(src: Seq<char>) -> Seq<TokenData> {
    tokens_from(src, 0).push(end_token(src))
}

/// The lexical errors of `src`, in source order.
pub open spec fn errors_of(src: Seq<char>) -> Seq<ErrorData> {
    errors_from(src, 0)
}

} // verus!
