//! Splitting text at a separator character and joining it back.
//!
//! Both the stored clipboard (one path per line) and paths themselves (segments
//! between slashes) are separator-delimited text. This module holds the
//! mathematical definitions of splitting and joining, the facts that relate
//! them, and the executable splitter.

use vstd::prelude::*;

verus! {

/// The pieces of `text` between occurrences of `sep`, in order.
///
/// There is always at least one piece: text without a separator is its own
/// single piece, and the empty text splits into one empty piece. A separator
/// at the very start or end, or two separators in a row, give an empty piece.
pub open spec fn split(text: Seq<char>, sep: char) -> Seq<Seq<char>>
    decreases text.len(),
{
    if text.len() == 0 {
        seq![Seq::<char>::empty()]
    } else {
        let before = split(text.drop_last(), sep);
        if text.last() == sep {
            before.push(Seq::<char>::empty())
        } else {
            before.drop_last().push(before.last().push(text.last()))
        }
    }
}

/// The pieces written one after another with `sep` between neighbours.
///
/// No separator is written before the first piece or after the last one, so
/// joining no pieces and joining one empty piece both give the empty text.
pub open spec fn join(pieces: Seq<Seq<char>>, sep: char) -> Seq<char>
    decreases pieces.len(),
{
    if pieces.len() == 0 {
        Seq::<char>::empty()
    } else if pieces.len() == 1 {
        pieces[0]
    } else {
        join(pieces.drop_last(), sep).push(sep) + pieces.last()
    }
}

/// No piece contains the separator.
pub open spec fn all_free_of(pieces: Seq<Seq<char>>, sep: char) -> bool {
    forall|i: int| 0 <= i < pieces.len() ==> !(#[trigger] pieces[i]).contains(sep)
}

/// Splitting never yields an empty list of pieces.
pub proof fn lemma_split_len(text: Seq<char>, sep: char)
    ensures
        split(text, sep).len() >= 1,
    decreases text.len(),
{
    if text.len() > 0 {
        lemma_split_len(text.drop_last(), sep);
    }
}

/// Every piece that splitting yields is free of the separator.
pub proof fn lemma_split_pieces_free(text: Seq<char>, sep: char)
    ensures
        all_free_of(split(text, sep), sep),
    decreases text.len(),
{
    if text.len() > 0 {
        lemma_split_len(text.drop_last(), sep);
        lemma_split_pieces_free(text.drop_last(), sep);
    }
}

/// Text without the separator is a single piece.
pub proof fn lemma_split_free(text: Seq<char>, sep: char)
    requires
        !text.contains(sep),
    ensures
        split(text, sep) == seq![text],
    decreases text.len(),
{
    if text.len() == 0 {
        assert(text =~= Seq::<char>::empty());
    } else {
        let shorter = text.drop_last();
        lemma_split_free(shorter, sep);
        assert(shorter.push(text.last()) =~= text);
    }
}

/// Splitting text that has a separator in it splits on both sides of that
/// separator independently.
pub proof fn lemma_split_around(left: Seq<char>, right: Seq<char>, sep: char)
    ensures
        split(left.push(sep) + right, sep) == split(left, sep) + split(right, sep),
    decreases right.len(),
{
    let whole = left.push(sep) + right;
    lemma_split_len(left, sep);
    if right.len() == 0 {
        assert(whole.drop_last() =~= left);
    } else {
        let shorter = right.drop_last();
        lemma_split_around(left, shorter, sep);
        lemma_split_len(shorter, sep);
        assert(whole.drop_last() =~= left.push(sep) + shorter);
    }
}

/// Appending a character other than the separator to the last piece appends it
/// to the joined text.
proof fn lemma_join_grow_last(pieces: Seq<Seq<char>>, c: char, sep: char)
    requires
        pieces.len() >= 1,
    ensures
        join(pieces.drop_last().push(pieces.last().push(c)), sep) == join(pieces, sep).push(c),
{
    let grown = pieces.drop_last().push(pieces.last().push(c));
    assert(grown.drop_last() =~= pieces.drop_last());
}

/// Joining the pieces of a text gives the text back.
pub proof fn lemma_join_split(text: Seq<char>, sep: char)
    ensures
        join(split(text, sep), sep) == text,
    decreases text.len(),
{
    if text.len() > 0 {
        let shorter = text.drop_last();
        let before = split(shorter, sep);
        lemma_split_len(shorter, sep);
        lemma_join_split(shorter, sep);
        if text.last() == sep {
            assert(before.push(Seq::<char>::empty()).drop_last() =~= before);
        } else {
            lemma_join_grow_last(before, text.last(), sep);
        }
    }
}

/// Splitting the join of separator-free pieces gives the pieces back, provided
/// there is at least one piece.
pub proof fn lemma_split_join(pieces: Seq<Seq<char>>, sep: char)
    requires
        pieces.len() >= 1,
        all_free_of(pieces, sep),
    ensures
        split(join(pieces, sep), sep) == pieces,
    decreases pieces.len(),
{
    if pieces.len() == 1 {
        lemma_split_free(pieces[0], sep);
    } else {
        let front = pieces.drop_last();
        lemma_split_join(front, sep);
        lemma_split_around(join(front, sep), pieces.last(), sep);
        lemma_split_free(pieces.last(), sep);
    }
}

/// A sequence whose elements all satisfy a predicate is its own filtering.
pub proof fn lemma_filter_keeps_all<A>(items: Seq<A>, pred: spec_fn(A) -> bool)
    requires
        forall|i: int| 0 <= i < items.len() ==> pred(#[trigger] items[i]),
    ensures
        items.filter(pred) == items,
    decreases items.len(),
{
    reveal(Seq::filter);
    if items.len() > 0 {
        lemma_filter_keeps_all(items.drop_last(), pred);
    }
}

/// Splits `text` at every occurrence of `sep`.
pub fn split_text(text: &str, sep: char) -> (pieces: Vec<String>)
    ensures
        pieces.deep_view() == split(text@, sep),
{
    let total: usize = text.unicode_len();
    let mut pieces: Vec<String> = Vec::new();
    let mut start: usize = 0;
    let mut at: usize = 0;
    proof {
        assert(text@.take(0) =~= Seq::<char>::empty());
    }
    for c in walk: text.chars()
        invariant
            walk.seq() == text@,
            at == walk.index(),
            start <= at <= total,
            total == text@.len(),
            split(text@.take(at as int), sep) == pieces.deep_view().push(
                text@.subrange(start as int, at as int),
            ),
    {
        proof {
            assert(text@.take(at + 1).drop_last() =~= text@.take(at as int));
        }
        if c == sep {
            pieces.push(text.substring_char(start, at).to_owned());
            start = at + 1;
            proof {
                assert(text@.subrange(start as int, at + 1) =~= Seq::<char>::empty());
            }
        } else {
            proof {
                assert(text@.subrange(start as int, at as int).push(c) =~= text@.subrange(
                    start as int,
                    at + 1,
                ));
            }
        }
        at = at + 1;
    }
    proof {
        assert(text@.take(at as int) =~= text@);
    }
    pieces.push(text.substring_char(start, at).to_owned());
    pieces
}

/// Writes the pieces one after another with the one-character text `sep`
/// between neighbours.
pub(crate) fn join_text(pieces: &Vec<String>, sep: &str) -> (text: String)
    requires
        sep@.len() == 1,
    ensures
        text@ == join(pieces.deep_view(), sep@[0]),
{
    let mut text: String = String::new();
    let mut at: usize = 0;
    while at < pieces.len()
        invariant
            at <= pieces.len(),
            sep@.len() == 1,
            text@ == join(pieces.deep_view().take(at as int), sep@[0]),
        decreases pieces.len() - at,
    {
        proof {
            assert(pieces.deep_view().take(at + 1).drop_last() =~= pieces.deep_view().take(
                at as int,
            ));
        }
        if at > 0 {
            text.append(sep);
        }
        text.append(pieces[at].as_str());
        at = at + 1;
    }
    proof {
        assert(pieces.deep_view().take(at as int) =~= pieces.deep_view());
    }
    text
}

} // verus!
