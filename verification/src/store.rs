//! The clipboard store: one text, shared by every invocation, that holds the
//! staged paths one per line. A line that is empty holds no path.
//!
//! [`ClipboardStore`] is the image of the store location in memory. A caller
//! loads it from wherever the clipboard is kept, lets the library read or
//! write it, and saves it back after a write.

use crate::error::StoreError;
use crate::path::{child_of, child_path};
use crate::text::{
    join, join_text, lemma_filter_keeps_all, lemma_split_join, lemma_split_pieces_free, split,
    split_text,
};
use vstd::prelude::*;

verus! {

/// Whether a text can be an entry of the store: it is not empty and holds no
/// line feed.
pub open spec fn is_entry(text: Seq<char>) -> bool {
    text.len() > 0 && !text.contains('\n')
}

/// Whether every text of a list can be an entry of the store.
pub open spec fn all_entries(entries: Seq<Seq<char>>) -> bool {
    forall|i: int| 0 <= i < entries.len() ==> is_entry(#[trigger] entries[i])
}

/// The predicate that selects the lines that hold an entry: those that are
/// not empty.
pub open spec fn holding_entry() -> spec_fn(Seq<char>) -> bool {
    |line: Seq<char>| line.len() > 0
}

/// The stored text for a list of entries: the entries joined by line feeds.
pub open spec fn encoding_of(entries: Seq<Seq<char>>) -> Seq<char> {
    join(entries, '\n')
}

/// The entries that a stored text holds: its lines, without the empty ones.
/// An entry is never empty, so the empty text holds no entry.
pub open spec fn decoding_of(content: Seq<char>) -> Seq<Seq<char>> {
    split(content, '\n').filter(holding_entry())
}

/// The name of the store inside the directory for temporary files.
pub open spec fn store_name() -> Seq<char> {
    "clippin.txt"@
}

/// What the store holds after `entries` were written to it, whatever it held
/// `before`: a write replaces the whole content.
pub open spec fn written(before: Option<Seq<char>>, entries: Seq<Seq<char>>) -> Option<
    Seq<char>,
> {
    Some(encoding_of(entries))
}

/// What reading a store in the given state yields.
pub open spec fn reading_of(state: Option<Seq<char>>) -> Result<Seq<Seq<char>>, StoreError> {
    match state {
        Some(content) => Ok(decoding_of(content)),
        None => Err(StoreError::NotFound),
    }
}

/// Whatever text the store holds, what is read from it are entries: none is
/// empty and none holds a line feed.
pub proof fn lemma_decoded_are_entries(content: Seq<char>)
    ensures
        all_entries(decoding_of(content)),
{
    let lines = split(content, '\n');
    let entries = decoding_of(content);
    lemma_split_pieces_free(content, '\n');
    assert forall|i: int| 0 <= i < entries.len() implies is_entry(#[trigger] entries[i]) by {
        lines.lemma_filter_pred(holding_entry(), i);
        lines.lemma_filter_contains_rev(holding_entry(), entries[i]);
    }
}

/// Decoding the stored text of a list of entries gives the list back, be it
/// empty or not.
pub proof fn lemma_decode_encode(entries: Seq<Seq<char>>)
    requires
        all_entries(entries),
    ensures
        decoding_of(encoding_of(entries)) == entries,
{
    if entries.len() == 0 {
        reveal(Seq::filter);
        Seq::<Seq<char>>::empty().lemma_filter_push(Seq::<char>::empty(), holding_entry());
    } else {
        lemma_split_join(entries, '\n');
        lemma_filter_keeps_all(entries, holding_entry());
    }
}

/// Reading after a write yields exactly the written entries.
pub proof fn lemma_read_after_write(before: Option<Seq<char>>, entries: Seq<Seq<char>>)
    requires
        all_entries(entries),
    ensures
        reading_of(written(before, entries)) == Ok::<Seq<Seq<char>>, StoreError>(entries),
{
    lemma_decode_encode(entries);
}

/// Of two writes in a row only the second one shows: the store holds what it
/// would hold had the first write never happened, and a read yields the
/// entries of the second write alone.
pub proof fn lemma_write_replaces(
    before: Option<Seq<char>>,
    first: Seq<Seq<char>>,
    second: Seq<Seq<char>>,
)
    ensures
        written(written(before, first), second) == written(before, second),
        all_entries(second) ==> reading_of(written(written(before, first), second)) == Ok::<
            Seq<Seq<char>>,
            StoreError,
        >(second),
{
    if all_entries(second) {
        lemma_read_after_write(written(before, first), second);
    }
}

/// The stored text for a list of entries.
pub fn encode(entries: &Vec<String>) -> (content: String)
    ensures
        content@ == encoding_of(entries.deep_view()),
{
    proof {
        reveal_strlit("\n");
    }
    join_text(entries, "\n")
}

/// The entries that a stored text holds, in order.
pub fn decode(content: &str) -> (entries: Vec<String>)
    ensures
        entries.deep_view() == decoding_of(content@),
        all_entries(entries.deep_view()),
{
    let lines = split_text(content, '\n');
    let mut entries: Vec<String> = Vec::new();
    let mut at: usize = 0;
    proof {
        reveal(Seq::filter);
    }
    while at < lines.len()
        invariant
            at <= lines.len(),
            entries.deep_view() == lines.deep_view().take(at as int).filter(holding_entry()),
        decreases lines.len() - at,
    {
        proof {
            let seen = lines.deep_view().take(at as int);
            assert(lines.deep_view().take(at + 1) =~= seen.push(lines[at as int]@));
            seen.lemma_filter_push(lines[at as int]@, holding_entry());
        }
        if lines[at].as_str().unicode_len() > 0 {
            entries.push(lines[at].clone());
        }
        at = at + 1;
    }
    proof {
        assert(lines.deep_view().take(at as int) =~= lines.deep_view());
        lemma_decoded_are_entries(content@);
    }
    entries
}

/// Where the store is kept, given the directory for temporary files.
pub fn store_location(temp_root: &str) -> (location: String)
    ensures
        location@ == child_of(temp_root@, store_name()),
{
    child_path(temp_root, "clippin.txt")
}

/// The state of the store location: what it holds, if it exists.
#[derive(Clone, Debug, PartialEq, Eq)]
pub struct ClipboardStore {
    /// The stored text, or `None` while nothing was ever written.
    pub content: Option<String>,
}

impl View for ClipboardStore {
    type V = Option<Seq<char>>;

    open spec fn view(&self) -> Option<Seq<char>> {
        match self.content {
            Some(text) => Some(text@),
            None => None,
        }
    }
}

impl ClipboardStore {
    /// The store before anything was written to it.
    pub fn absent() -> (store: ClipboardStore)
        ensures
            store@ is None,
    {
        ClipboardStore { content: None }
    }

    /// The store as found holding `content`.
    pub fn holding(content: String) -> (store: ClipboardStore)
        ensures
            store@ == Some(content@),
    {
        ClipboardStore { content: Some(content) }
    }

    /// Replaces whatever the store holds by `entries`.
    pub fn write(&mut self, entries: &Vec<String>)
        ensures
            final(self)@ == written(old(self)@, entries.deep_view()),
    {
        self.content = Some(encode(entries));
    }

    /// The stored entries, in order. Fails with [`StoreError::NotFound`]
    /// exactly when nothing was ever written. The store is left as it is.
    pub fn read(&self) -> (outcome: Result<Vec<String>, StoreError>)
        ensures
            match outcome {
                Ok(entries) => reading_of(self@) == Ok::<Seq<Seq<char>>, StoreError>(
                    entries.deep_view(),
                ) && all_entries(entries.deep_view()),
                Err(error) => reading_of(self@) == Err::<Seq<Seq<char>>, StoreError>(error),
            },
    {
        match &self.content {
            Some(text) => Ok(decode(text.as_str())),
            None => Err(StoreError::NotFound),
        }
    }
}

} // verus!
