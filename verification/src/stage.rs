//! Staging: which of the paths given to a copy are recorded in the store.
//!
//! The caller resolves each given path with [`resolve`], looks whether the
//! resolved path exists, and hands over what it saw. Staging keeps the paths
//! that exist, in their resolved form, and reports the others.

use crate::error::StoreError;
use crate::path::{is_absolute, lemma_resolution_is_absolute, normal_form, resolution_of, resolve};
use crate::store::{
    all_entries, lemma_read_after_write, lemma_write_replaces, reading_of, written,
    ClipboardStore,
};
use crate::text::all_free_of;
use vstd::prelude::*;

verus! {

/// What the caller saw of one path given to a copy.
#[derive(Clone, Debug, PartialEq, Eq)]
pub struct Sighting {
    /// The path as the user gave it.
    pub raw: String,
    /// Whether the resolved path existed when the caller looked.
    pub exists: bool,
}

/// The mathematical content of a [`Sighting`].
pub struct SightingView {
    /// The path as the user gave it.
    pub raw: Seq<char>,
    /// Whether the resolved path existed when the caller looked.
    pub exists: bool,
}

impl View for Sighting {
    type V = SightingView;

    open spec fn view(&self) -> SightingView {
        SightingView { raw: self.raw@, exists: self.exists }
    }
}

impl DeepView for Sighting {
    type V = SightingView;

    open spec fn deep_view(&self) -> SightingView {
        self@
    }
}

/// The outcome of staging a batch of paths.
#[derive(Clone, Debug, PartialEq, Eq)]
pub struct StageReport {
    /// The staged entries: the resolved paths that exist, in the order given.
    pub entries: Vec<String>,
    /// The paths that were dropped as [`crate::error::ErrorKind::InvalidSource`],
    /// as the user gave them and in the order given.
    pub rejected: Vec<String>,
}

/// Whether a sighted path is staged: it resolves to a path, and that path
/// exists. The empty text names no path, so it is never staged.
pub open spec fn is_valid_source(base: Seq<char>, input: SightingView) -> bool {
    input.exists && resolution_of(base, input.raw) is Some
}

/// The predicate that selects the staged inputs of a batch.
pub open spec fn valid_from(base: Seq<char>) -> spec_fn(SightingView) -> bool {
    |input: SightingView| is_valid_source(base, input)
}

/// The predicate that selects the dropped inputs of a batch.
pub open spec fn invalid_from(base: Seq<char>) -> spec_fn(SightingView) -> bool {
    |input: SightingView| !is_valid_source(base, input)
}

/// The function that takes a staged input to its entry.
pub open spec fn entry_from(base: Seq<char>) -> spec_fn(SightingView) -> Seq<char> {
    |input: SightingView| resolution_of(base, input.raw).unwrap()
}

/// The function that takes an input to the path as given.
pub open spec fn as_given() -> spec_fn(SightingView) -> Seq<char> {
    |input: SightingView| input.raw
}

/// The entries staged from a batch: the resolved paths of the inputs that
/// exist. Order is kept, and a path given twice is staged twice.
pub open spec fn staged_of(base: Seq<char>, inputs: Seq<SightingView>) -> Seq<Seq<char>> {
    inputs.filter(valid_from(base)).map_values(entry_from(base))
}

/// The paths dropped from a batch, as given.
pub open spec fn rejected_of(base: Seq<char>, inputs: Seq<SightingView>) -> Seq<Seq<char>> {
    inputs.filter(invalid_from(base)).map_values(as_given())
}

/// Each input is staged or dropped on its own account: staging two batches
/// one after the other gives the same as staging them as one batch.
pub proof fn lemma_staging_is_per_input(
    base: Seq<char>,
    first: Seq<SightingView>,
    second: Seq<SightingView>,
)
    ensures
        staged_of(base, first + second) == staged_of(base, first) + staged_of(base, second),
        rejected_of(base, first + second) == rejected_of(base, first) + rejected_of(
            base,
            second,
        ),
{
    Seq::filter_distributes_over_add(first, second, valid_from(base));
    Seq::filter_distributes_over_add(first, second, invalid_from(base));
}

/// A single input that exists is staged as its resolved path and not
/// reported; one that does not exist is reported as given and not staged.
pub proof fn lemma_staging_one(base: Seq<char>, input: SightingView)
    ensures
        is_valid_source(base, input) ==> staged_of(base, seq![input]) == seq![
            resolution_of(base, input.raw).unwrap(),
        ] && rejected_of(base, seq![input]).len() == 0,
        !is_valid_source(base, input) ==> staged_of(base, seq![input]).len() == 0 && rejected_of(
            base,
            seq![input],
        ) == seq![input.raw],
{
    let none = Seq::<SightingView>::empty();
    reveal(Seq::filter);
    none.lemma_filter_push(input, valid_from(base));
    none.lemma_filter_push(input, invalid_from(base));
}

/// Seen from a directory given by an absolute path, every staged entry is an
/// absolute path in canonical form.
pub proof fn lemma_staged_are_absolute(base: Seq<char>, inputs: Seq<SightingView>)
    requires
        is_absolute(base),
    ensures
        forall|i: int|
            0 <= i < staged_of(base, inputs).len() ==> is_absolute(
                #[trigger] staged_of(base, inputs)[i],
            ) && normal_form(staged_of(base, inputs)[i]) == staged_of(base, inputs)[i],
{
    let kept = inputs.filter(valid_from(base));
    assert forall|i: int| 0 <= i < staged_of(base, inputs).len() implies is_absolute(
        #[trigger] staged_of(base, inputs)[i],
    ) && normal_form(staged_of(base, inputs)[i]) == staged_of(base, inputs)[i] by {
        inputs.lemma_filter_pred(valid_from(base), i);
        lemma_resolution_is_absolute(base, kept[i].raw);
    }
}

/// After a copy made from a working directory given by an absolute path, a
/// read of the store yields exactly the staged entries: the paths that
/// existed, in the order given, a path given twice twice, and none if none
/// existed. The one exception is a batch with a staged path that holds a
/// line feed, which the store cannot keep in one line.
pub proof fn lemma_copy_persists_staged(
    before: Option<Seq<char>>,
    base: Seq<char>,
    inputs: Seq<SightingView>,
)
    requires
        is_absolute(base),
        all_free_of(staged_of(base, inputs), '\n'),
    ensures
        all_entries(staged_of(base, inputs)),
        reading_of(written(before, staged_of(base, inputs))) == Ok::<
            Seq<Seq<char>>,
            StoreError,
        >(staged_of(base, inputs)),
{
    lemma_staged_are_absolute(base, inputs);
    lemma_read_after_write(before, staged_of(base, inputs));
}

/// Of two copies in a row only the second one shows: the store holds what it
/// would hold had the first copy never happened, and a read yields the
/// entries staged by the second copy alone, none if it staged none. The read
/// is stated, as for a single copy, for a second copy that is made from a
/// working directory given by an absolute path and stages no path that holds
/// a line feed.
pub proof fn lemma_copy_replaces(
    before: Option<Seq<char>>,
    first_base: Seq<char>,
    first: Seq<SightingView>,
    second_base: Seq<char>,
    second: Seq<SightingView>,
)
    ensures
        written(written(before, staged_of(first_base, first)), staged_of(second_base, second))
            == written(before, staged_of(second_base, second)),
        is_absolute(second_base) && all_free_of(staged_of(second_base, second), '\n')
            ==> reading_of(
            written(written(before, staged_of(first_base, first)), staged_of(second_base, second)),
        ) == Ok::<Seq<Seq<char>>, StoreError>(staged_of(second_base, second)),
{
    if is_absolute(second_base) && all_free_of(staged_of(second_base, second), '\n') {
        lemma_copy_persists_staged(before, second_base, second);
        lemma_write_replaces(before, staged_of(first_base, first), staged_of(second_base, second));
    }
}

/// Decides which of the sighted paths are staged. From a working directory
/// given by an absolute path, every staged entry is an absolute path in
/// canonical form.
pub fn stage(base: &str, inputs: &Vec<Sighting>) -> (report: StageReport)
    ensures
        report.entries.deep_view() == staged_of(base@, inputs.deep_view()),
        report.rejected.deep_view() == rejected_of(base@, inputs.deep_view()),
        is_absolute(base@) ==> forall|i: int|
            0 <= i < report.entries.len() ==> is_absolute(#[trigger] report.entries[i]@)
                && normal_form(report.entries[i]@) == report.entries[i]@,
{
    let mut entries: Vec<String> = Vec::new();
    let mut rejected: Vec<String> = Vec::new();
    let mut at: usize = 0;
    proof {
        reveal(Seq::filter);
    }
    while at < inputs.len()
        invariant
            at <= inputs.len(),
            entries.deep_view() == staged_of(base@, inputs.deep_view().take(at as int)),
            rejected.deep_view() == rejected_of(base@, inputs.deep_view().take(at as int)),
        decreases inputs.len() - at,
    {
        let ghost seen = inputs.deep_view().take(at as int);
        let ghost input = inputs[at as int]@;
        let ghost staged = entries.deep_view();
        let ghost dropped = rejected.deep_view();
        proof {
            assert(inputs.deep_view().take(at + 1) =~= seen.push(input));
            seen.lemma_filter_push(input, valid_from(base@));
            seen.lemma_filter_push(input, invalid_from(base@));
        }
        let resolved = if inputs[at].exists {
            resolve(base, inputs[at].raw.as_str())
        } else {
            None
        };
        match resolved {
            Some(path) => {
                entries.push(path);
                proof {
                    assert(entries.deep_view() =~= staged.push(path@));
                }
            },
            None => {
                rejected.push(inputs[at].raw.clone());
                proof {
                    assert(rejected.deep_view() =~= dropped.push(input.raw));
                }
            },
        }
        at = at + 1;
    }
    proof {
        assert(inputs.deep_view().take(at as int) =~= inputs.deep_view());
        if is_absolute(base@) {
            lemma_staged_are_absolute(base@, inputs.deep_view());
            assert forall|i: int| 0 <= i < entries.len() implies is_absolute(
                #[trigger] entries[i]@,
            ) && normal_form(entries[i]@) == entries[i]@ by {
                assert(entries[i]@ == entries.deep_view()[i]);
            }
        }
    }
    StageReport { entries, rejected }
}

/// Stages the sighted paths and replaces the store by them. From a working
/// directory given by an absolute path, every staged entry is an absolute
/// path in canonical form.
pub fn copy(store: &mut ClipboardStore, base: &str, inputs: &Vec<Sighting>) -> (report: StageReport)
    ensures
        report.entries.deep_view() == staged_of(base@, inputs.deep_view()),
        report.rejected.deep_view() == rejected_of(base@, inputs.deep_view()),
        final(store)@ == written(old(store)@, staged_of(base@, inputs.deep_view())),
        is_absolute(base@) ==> forall|i: int|
            0 <= i < report.entries.len() ==> is_absolute(#[trigger] report.entries[i]@)
                && normal_form(report.entries[i]@) == report.entries[i]@,
{
    let report = stage(base, inputs);
    store.write(&report.entries);
    report
}

} // verus!
