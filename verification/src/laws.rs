//! What holds of the scan of every source text.
use vstd::prelude::*;
use crate::classes::is_blank;
use crate::grammar::{
    end_token, error_of, errors_of, lemma_keywords, lemma_line_at_monotonic, lemma_piece_bounds,
    lemma_run_end, lemma_scan_piece, line_at, piece_at, piece_text, pieces_from, token_of,
    tokens_from, tokens_of, Piece, PieceKind, Run,
};
use crate::token::{TokenData, TokenKind};

verus! {

/// The texts of the given pieces, one after the other.
pub open spec fn texts(src: Seq<char>, pieces: Seq<Piece>) -> Seq<char> {
    pieces.map_values(|piece: Piece| piece_text(src, piece)).flatten()
}

/// Whether the lines of the given tokens never go down from one token to a
/// later one.
pub open spec fn non_decreasing(tokens: Seq<TokenData>) -> bool {
    forall|i: int, j: int| 0 <= i <= j < tokens.len() ==> tokens[i].line <= tokens[j].line
}

/// No piece is an end-of-input token.
pub proof fn lemma_piece_is_not_end(src: Seq<char>, pos: int)
    requires
        0 <= pos < src.len(),
    ensures
        piece_at(src, pos).kind != PieceKind::Token(TokenKind::End),
{
    let piece = piece_at(src, pos);
    lemma_keywords(piece_text(src, piece));
}

/// Every token found from `pos` on is a real token, not the end-of-input
/// one, and stands on a line between that of `pos` and the last line; and
/// the lines of these tokens never go down.
pub proof fn lemma_tokens_from(src: Seq<char>, pos: int)
    requires
        0 <= pos <= src.len(),
    ensures
        forall|i: int|
            0 <= i < tokens_from(src, pos).len() ==> {
                &&& (#[trigger] tokens_from(src, pos)[i]).kind != TokenKind::End
                &&& line_at(src, pos) <= tokens_from(src, pos)[i].line <= line_at(
                    src,
                    src.len() as int,
                )
            },
        non_decreasing(tokens_from(src, pos)),
    decreases src.len() - pos,
{
    if pos < src.len() {
        let piece = piece_at(src, pos);
        lemma_piece_bounds(src, pos);
        lemma_piece_is_not_end(src, pos);
        lemma_scan_piece(src, pos);
        lemma_tokens_from(src, piece.end);
        lemma_line_at_monotonic(src, pos, piece.end);
        lemma_line_at_monotonic(src, pos, src.len() as int);
        let head: Seq<TokenData> = match token_of(src, piece) {
            Some(token) => seq![token],
            None => Seq::empty(),
        };
        let tail = tokens_from(src, piece.end);
        let all = tokens_from(src, pos);
        assert(all == head + tail);
        assert forall|i: int| 0 <= i < all.len() implies {
            &&& (#[trigger] all[i]).kind != TokenKind::End
            &&& line_at(src, pos) <= all[i].line <= line_at(src, src.len() as int)
        } by {
            if i >= head.len() {
                assert(all[i] == tail[i - head.len()]);
            }
        }
        assert forall|i: int, j: int| 0 <= i <= j < all.len() implies all[i].line
            <= all[j].line by {
            if i >= head.len() {
                assert(all[i] == tail[i - head.len()]);
                assert(all[j] == tail[j - head.len()]);
            } else if j >= head.len() {
                assert(all[j] == tail[j - head.len()]);
            }
        }
    }
}

/// The token sequence of every source text is not empty, ends with the
/// end-of-input token, and holds no other end-of-input token.
pub proof fn lemma_ends_with_one_end(src: Seq<char>)
    ensures
        tokens_of(src).len() >= 1,
        tokens_of(src).last() == end_token(src),
        tokens_of(src).last().kind == TokenKind::End,
        forall|i: int|
            0 <= i < tokens_of(src).len() - 1 ==> (#[trigger] tokens_of(src)[i]).kind
                != TokenKind::End,
{
    lemma_tokens_from(src, 0);
    assert forall|i: int| 0 <= i < tokens_of(src).len() - 1 implies (#[trigger] tokens_of(
        src,
    )[i]).kind != TokenKind::End by {
        assert(tokens_of(src)[i] == tokens_from(src, 0)[i]);
    }
}

/// Along the token sequence of every source text, the end-of-input token
/// included, line numbers never go down.
pub proof fn lemma_lines_never_decrease(src: Seq<char>)
    ensures
        non_decreasing(tokens_of(src)),
{
    lemma_tokens_from(src, 0);
    let found = tokens_from(src, 0);
    let all = tokens_of(src);
    assert forall|i: int, j: int| 0 <= i <= j < all.len() implies all[i].line <= all[j].line by {
        if j < found.len() {
            assert(all[i] == found[i]);
            assert(all[j] == found[j]);
        } else if i < found.len() {
            assert(all[i] == found[i]);
        }
    }
}

/// Whether the given pieces lie end to start between `from` and `to`: none
/// is empty, the first starts at `from`, each next one starts where the one
/// before it ends, and the last ends at `to`.
pub open spec fn adjacent(pieces: Seq<Piece>, from: int, to: int) -> bool {
    &&& pieces.len() == 0 ==> from == to
    &&& pieces.len() > 0 ==> pieces.first().start == from && pieces.last().end == to
    &&& forall|i: int| 0 <= i < pieces.len() ==> (#[trigger] pieces[i]).start < pieces[i].end
    &&& forall|i: int, j: int|
        0 <= i && j == i + 1 && j < pieces.len() ==> (#[trigger] pieces[i]).end
            == (#[trigger] pieces[j]).start
}

/// The pieces of a text from `pos` on lie end to start between `pos` and the
/// end of the text.
pub proof fn lemma_pieces_are_adjacent(src: Seq<char>, pos: int)
    requires
        0 <= pos <= src.len(),
    ensures
        adjacent(pieces_from(src, pos), pos, src.len() as int),
    decreases src.len() - pos,
{
    if pos < src.len() {
        let piece = piece_at(src, pos);
        lemma_piece_bounds(src, pos);
        lemma_pieces_are_adjacent(src, piece.end);
        let rest = pieces_from(src, piece.end);
        let all = pieces_from(src, pos);
        assert(all == seq![piece] + rest);
        assert(all.first() == piece);
        assert(rest.len() > 0 ==> all.last() == rest.last() && all[1] == rest.first());
        assert forall|i: int| 0 <= i < all.len() implies (#[trigger] all[i]).start
            < all[i].end by {
            if i > 0 {
                assert(all[i] == rest[i - 1]);
            }
        }
        assert forall|i: int, j: int| 0 <= i && j == i + 1 && j < all.len() implies (
        #[trigger] all[i]).end == (#[trigger] all[j]).start by {
            assert(all[j] == rest[j - 1]);
            if i > 0 {
                assert(all[i] == rest[i - 1]);
            }
        }
    }
}

/// The texts of the pieces from `pos` on, one after the other, are the text
/// from `pos` to its end.
pub proof fn lemma_texts_from(src: Seq<char>, pos: int)
    requires
        0 <= pos <= src.len(),
    ensures
        texts(src, pieces_from(src, pos)) == src.subrange(pos, src.len() as int),
    decreases src.len() - pos,
{
    let pieces = pieces_from(src, pos);
    let parts = pieces.map_values(|piece: Piece| piece_text(src, piece));
    if pos < src.len() {
        let piece = piece_at(src, pos);
        lemma_piece_bounds(src, pos);
        lemma_texts_from(src, piece.end);
        let rest = pieces_from(src, piece.end);
        let rest_parts = rest.map_values(|piece: Piece| piece_text(src, piece));
        assert(pieces == seq![piece] + rest);
        assert(parts.first() == piece_text(src, piece));
        assert(parts.drop_first() =~= rest_parts);
        assert(parts.flatten() == piece_text(src, piece) + rest_parts.flatten());
        assert(src.subrange(pos, piece.end) + src.subrange(piece.end, src.len() as int)
            =~= src.subrange(pos, src.len() as int));
    } else {
        assert(parts.len() == 0);
        assert(parts.flatten() =~= src.subrange(pos, src.len() as int));
    }
}

/// What a scan skips without an error is a blank or a comment: a blank piece
/// is one blank character, and a comment piece is `//` and the rest of its
/// line, up to the newline and without it.
pub proof fn lemma_skipped_text(src: Seq<char>, pos: int)
    requires
        0 <= pos < src.len(),
    ensures
        piece_at(src, pos).kind == PieceKind::Blank ==> piece_at(src, pos).end == pos + 1
            && is_blank(src[pos]),
        piece_at(src, pos).kind == PieceKind::Comment ==> {
            let end = piece_at(src, pos).end;
            &&& pos + 2 <= end <= src.len()
            &&& src[pos] == '/' && src[pos + 1] == '/'
            &&& forall|i: int| pos + 2 <= i < end ==> #[trigger] src[i] != '\n'
            &&& end == src.len() || src[end] == '\n'
        },
{
    if pos + 2 <= src.len() {
        lemma_run_end(src, pos + 2, Run::Comment);
    }
}

/// Round trip: every source text is the texts of its pieces, one after the
/// other. The tokens of the text, without the end-of-input token, are its
/// token pieces in order, each with the text of its piece as its lexeme; the
/// errors are its erroneous pieces in order; every other piece is a blank or
/// a comment that the scan skipped.
pub proof fn lemma_round_trip(src: Seq<char>)
    ensures
        texts(src, pieces_from(src, 0)) == src,
        tokens_of(src).drop_last() == pieces_from(src, 0).filter_map(
            |piece: Piece| token_of(src, piece),
        ),
        errors_of(src) == pieces_from(src, 0).filter_map(|piece: Piece| error_of(src, piece)),
        forall|piece: Piece|
            (#[trigger] token_of(src, piece)) is Some ==> token_of(src, piece).unwrap().lexeme
                == piece_text(src, piece),
        forall|piece: Piece|
            (#[trigger] token_of(src, piece)) is None && error_of(src, piece) is None ==> piece.kind
                == PieceKind::Blank || piece.kind == PieceKind::Comment,
{
    lemma_texts_from(src, 0);
    assert(src.subrange(0, src.len() as int) =~= src);
    assert(tokens_of(src).drop_last() =~= tokens_from(src, 0));
}

} // verus!
