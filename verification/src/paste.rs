//! Pasting: which staged sources are transferred into a destination.
//!
//! The caller reads the staged sources from the store, resolves the
//! destination, and looks at the file system once per source: does the source
//! still exist, and does the path that the transfer would create exist
//! already ([`collision_target`])? From what the caller saw, the filter decides
//! for each source on its own whether it is transferred, and why not if it is
//! not.

use crate::error::ErrorKind;
use crate::path::{
    base_name, base_name_of, child_of, child_path, components_of, is_absolute, is_same_path,
    lemma_base_name_of_child, lemma_components_are_names, lemma_components_of_child,
    lemma_components_of_name, lemma_resolution_is_absolute, normal_form, resolution_of, resolve,
    same_path,
};
use crate::store::{all_entries, decoding_of, ClipboardStore};
use vstd::prelude::*;

verus! {

/// Why a staged source is not transferred.
#[derive(Clone, Copy, Debug, PartialEq, Eq, Structural)]
pub enum ExclusionReason {
    /// The source no longer exists.
    SourceMissing,
    /// The source is the destination itself.
    SameAsDestination,
    /// The destination already holds an entry with the source's base name.
    NameCollision,
}

/// What the filter decides about one staged source.
#[derive(Clone, Copy, Debug, PartialEq, Eq, Structural)]
pub enum Verdict {
    /// The source is transferred.
    Eligible,
    /// The source is skipped.
    Excluded(ExclusionReason),
}

/// Where to paste: the resolved destination path and what the caller found
/// there. [`Destination::resolved`] makes one from the path that the user
/// gave.
#[derive(Clone, Debug, PartialEq, Eq)]
pub struct Destination {
    /// The resolved path of the destination.
    pub path: String,
    /// Whether the destination is an existing directory.
    pub is_directory: bool,
}

/// The mathematical content of a [`Destination`].
pub struct DestinationView {
    /// The resolved path of the destination.
    pub path: Seq<char>,
    /// Whether the destination is an existing directory.
    pub is_directory: bool,
}

impl View for Destination {
    type V = DestinationView;

    open spec fn view(&self) -> DestinationView {
        DestinationView { path: self.path@, is_directory: self.is_directory }
    }
}

/// What the caller saw of one staged source at paste time.
#[derive(Clone, Debug, PartialEq, Eq)]
pub struct SourceProbe {
    /// The staged path.
    pub path: String,
    /// Whether the staged path exists.
    pub exists: bool,
    /// Whether the source's [`collision_target`] exists.
    pub target_exists: bool,
}

/// The mathematical content of a [`SourceProbe`].
pub struct ProbeView {
    /// The staged path.
    pub path: Seq<char>,
    /// Whether the staged path exists.
    pub exists: bool,
    /// Whether the source's collision target exists.
    pub target_exists: bool,
}

impl View for SourceProbe {
    type V = ProbeView;

    open spec fn view(&self) -> ProbeView {
        ProbeView { path: self.path@, exists: self.exists, target_exists: self.target_exists }
    }
}

impl DeepView for SourceProbe {
    type V = ProbeView;

    open spec fn deep_view(&self) -> ProbeView {
        self@
    }
}

/// One transfer to perform: copy `source` into the directory `destination`.
#[derive(Clone, Debug, PartialEq, Eq)]
pub struct TransferRequest {
    /// The path to copy, a file or a directory tree.
    pub source: String,
    /// The directory to copy it into.
    pub destination: String,
}

/// The mathematical content of a [`TransferRequest`].
pub struct RequestView {
    /// The path to copy.
    pub source: Seq<char>,
    /// The directory to copy it into.
    pub destination: Seq<char>,
}

impl View for TransferRequest {
    type V = RequestView;

    open spec fn view(&self) -> RequestView {
        RequestView { source: self.source@, destination: self.destination@ }
    }
}

impl DeepView for TransferRequest {
    type V = RequestView;

    open spec fn deep_view(&self) -> RequestView {
        self@
    }
}

/// A staged source that is skipped, with the reason.
#[derive(Clone, Debug, PartialEq, Eq)]
pub struct Exclusion {
    /// The staged path.
    pub path: String,
    /// Why it is skipped.
    pub reason: ExclusionReason,
}

/// The mathematical content of an [`Exclusion`].
pub struct ExclusionView {
    /// The staged path.
    pub path: Seq<char>,
    /// Why it is skipped.
    pub reason: ExclusionReason,
}

impl View for Exclusion {
    type V = ExclusionView;

    open spec fn view(&self) -> ExclusionView {
        ExclusionView { path: self.path@, reason: self.reason }
    }
}

impl DeepView for Exclusion {
    type V = ExclusionView;

    open spec fn deep_view(&self) -> ExclusionView {
        self@
    }
}

/// The outcome of filtering the staged sources.
#[derive(Clone, Debug, PartialEq, Eq)]
pub struct FilterReport {
    /// The transfers to perform, in the order in which the sources were staged.
    pub kept: Vec<TransferRequest>,
    /// The sources that are skipped, in the order in which they were staged.
    pub excluded: Vec<Exclusion>,
}

impl Destination {
    /// The destination that the user named by `raw`, seen from the working
    /// directory `base`, or `None` if `raw` is empty and names no path. The
    /// caller says whether the resolved path is an existing directory. From a
    /// working directory given by an absolute path, the destination is an
    /// absolute path in canonical form.
    pub fn resolved(base: &str, raw: &str, is_directory: bool) -> (dest: Option<Destination>)
        ensures
            match dest {
                Some(dest) => resolution_of(base@, raw@) == Some(dest@.path) && dest@.is_directory
                    == is_directory,
                None => resolution_of(base@, raw@) is None,
            },
            is_absolute(base@) ==> (dest matches Some(dest) ==> is_absolute(dest@.path)
                && normal_form(dest@.path) == dest@.path),
    {
        proof {
            if is_absolute(base@) {
                lemma_resolution_is_absolute(base@, raw@);
            }
        }
        match resolve(base, raw) {
            Some(path) => Some(Destination { path, is_directory }),
            None => None,
        }
    }
}

impl ExclusionReason {
    /// The kind of error that an exclusion for this reason is. A source that
    /// is gone is an invalid source; the two other reasons are conflicts with
    /// the destination.
    pub open spec fn kind_of(self) -> ErrorKind {
        match self {
            ExclusionReason::SourceMissing => ErrorKind::InvalidSource,
            ExclusionReason::SameAsDestination => ErrorKind::ExcludedByConflict,
            ExclusionReason::NameCollision => ErrorKind::ExcludedByConflict,
        }
    }

    /// The reason in words.
    pub open spec fn wording(self) -> Seq<char> {
        match self {
            ExclusionReason::SourceMissing => "source missing"@,
            ExclusionReason::SameAsDestination => "source and destination identical"@,
            ExclusionReason::NameCollision => "destination name collision"@,
        }
    }

    /// The kind of error that an exclusion for this reason is.
    pub fn kind(&self) -> (kind: ErrorKind)
        ensures
            kind == self.kind_of(),
            !kind.ends_invocation(),
    {
        match self {
            ExclusionReason::SourceMissing => ErrorKind::InvalidSource,
            ExclusionReason::SameAsDestination => ErrorKind::ExcludedByConflict,
            ExclusionReason::NameCollision => ErrorKind::ExcludedByConflict,
        }
    }

    /// The reason in words, for a diagnostic.
    pub fn message(&self) -> (text: String)
        ensures
            text@ == self.wording(),
    {
        match self {
            ExclusionReason::SourceMissing => "source missing".to_owned(),
            ExclusionReason::SameAsDestination => "source and destination identical".to_owned(),
            ExclusionReason::NameCollision => "destination name collision".to_owned(),
        }
    }
}

/// The path whose existence decides whether a source collides with a name in
/// the destination.
///
/// In a destination that is a directory it is the path that the transfer
/// would create: the source's base name inside the destination. For a source
/// without a base name that is the destination itself. A destination that is
/// not a directory stands for itself.
pub open spec fn collision_target_of(dest: DestinationView, source: Seq<char>) -> Seq<char> {
    if dest.is_directory {
        child_of(dest.path, base_name_of(source))
    } else {
        dest.path
    }
}

/// The verdict on one staged source. The checks are made in this order and
/// the first that applies decides: the source is gone; the source is the
/// destination; the collision target exists. The last check is the same for a
/// source that is a file and one that is a directory.
pub open spec fn verdict_of(dest: DestinationView, probe: ProbeView) -> Verdict {
    if !probe.exists {
        Verdict::Excluded(ExclusionReason::SourceMissing)
    } else if is_same_path(probe.path, dest.path) {
        Verdict::Excluded(ExclusionReason::SameAsDestination)
    } else if probe.target_exists {
        Verdict::Excluded(ExclusionReason::NameCollision)
    } else {
        Verdict::Eligible
    }
}

/// The predicate that selects the sources that are transferred.
pub open spec fn eligible_for(dest: DestinationView) -> spec_fn(ProbeView) -> bool {
    |probe: ProbeView| verdict_of(dest, probe) is Eligible
}

/// The predicate that selects the sources that are skipped.
pub open spec fn excluded_for(dest: DestinationView) -> spec_fn(ProbeView) -> bool {
    |probe: ProbeView| verdict_of(dest, probe) is Excluded
}

/// The function that takes a source to the request for its transfer.
pub open spec fn request_for(dest: DestinationView) -> spec_fn(ProbeView) -> RequestView {
    |probe: ProbeView| RequestView { source: probe.path, destination: dest.path }
}

/// The function that takes a skipped source to its exclusion.
pub open spec fn exclusion_for(dest: DestinationView) -> spec_fn(ProbeView) -> ExclusionView {
    |probe: ProbeView|
        ExclusionView { path: probe.path, reason: verdict_of(dest, probe)->Excluded_0 }
}

/// The transfers to perform: one for each eligible source, in staged order.
pub open spec fn requests_of(dest: DestinationView, probes: Seq<ProbeView>) -> Seq<RequestView> {
    probes.filter(eligible_for(dest)).map_values(request_for(dest))
}

/// The sources that are skipped, each with its reason, in staged order.
pub open spec fn exclusions_of(dest: DestinationView, probes: Seq<ProbeView>) -> Seq<
    ExclusionView,
> {
    probes.filter(excluded_for(dest)).map_values(exclusion_for(dest))
}

/// In a destination that is a directory, the collision target of a source
/// with a base name lies directly inside the destination and has the base
/// name of the source.
pub proof fn lemma_collision_target_in_directory(dest: DestinationView, source: Seq<char>)
    requires
        dest.is_directory,
        base_name_of(source).len() > 0,
    ensures
        components_of(collision_target_of(dest, source)) == components_of(dest.path).push(
            base_name_of(source),
        ),
        base_name_of(collision_target_of(dest, source)) == base_name_of(source),
{
    let name = base_name_of(source);
    lemma_components_are_names(source);
    lemma_components_of_name(name);
    lemma_components_of_child(dest.path, name);
    lemma_base_name_of_child(dest.path, name);
}

/// Each source is judged on its own account: filtering two batches one after
/// the other gives the same as filtering them as one batch.
pub proof fn lemma_filtering_is_per_source(
    dest: DestinationView,
    first: Seq<ProbeView>,
    second: Seq<ProbeView>,
)
    ensures
        requests_of(dest, first + second) == requests_of(dest, first) + requests_of(dest, second),
        exclusions_of(dest, first + second) == exclusions_of(dest, first) + exclusions_of(
            dest,
            second,
        ),
{
    Seq::filter_distributes_over_add(first, second, eligible_for(dest));
    Seq::filter_distributes_over_add(first, second, excluded_for(dest));
}

/// A single source gives one request if it is eligible and none if it is
/// not; it gives one exclusion, with the reason of its verdict, if it is
/// skipped and none if it is not.
pub proof fn lemma_filtering_one(dest: DestinationView, probe: ProbeView)
    ensures
        requests_of(dest, seq![probe]) == if verdict_of(dest, probe) is Eligible {
            seq![RequestView { source: probe.path, destination: dest.path }]
        } else {
            Seq::<RequestView>::empty()
        },
        exclusions_of(dest, seq![probe]) == match verdict_of(dest, probe) {
            Verdict::Excluded(reason) => seq![ExclusionView { path: probe.path, reason }],
            Verdict::Eligible => Seq::<ExclusionView>::empty(),
        },
{
    let none = Seq::<ProbeView>::empty();
    reveal(Seq::filter);
    none.lemma_filter_push(probe, eligible_for(dest));
    none.lemma_filter_push(probe, excluded_for(dest));
}

/// A skipped source leaves the transfers as they would be had it not been
/// staged at all, and it is reported with the reason of its verdict.
pub proof fn lemma_excluded_leaves_rest(dest: DestinationView, probes: Seq<ProbeView>, i: int)
    requires
        0 <= i < probes.len(),
        verdict_of(dest, probes[i]) is Excluded,
    ensures
        requests_of(dest, probes) == requests_of(dest, probes.remove(i)),
        exclusions_of(dest, probes).contains(
            ExclusionView { path: probes[i].path, reason: verdict_of(dest, probes[i])->Excluded_0 },
        ),
{
    let head = probes.take(i);
    let tail = probes.skip(i + 1);
    let one = seq![probes[i]];
    let exclusion = ExclusionView {
        path: probes[i].path,
        reason: verdict_of(dest, probes[i])->Excluded_0,
    };
    assert(probes =~= (head + one) + tail);
    lemma_filtering_is_per_source(dest, head + one, tail);
    lemma_filtering_is_per_source(dest, head, one);
    lemma_filtering_is_per_source(dest, head, tail);
    lemma_filtering_one(dest, probes[i]);
    // The exclusion is listed right after those of the sources before it.
    let before = exclusions_of(dest, head).len() as int;
    assert(exclusions_of(dest, probes)[before] == exclusion);
}

/// A source with whose base name the destination already holds an entry is
/// skipped for that reason, and the other sources are transferred as if it
/// had not been staged.
pub proof fn lemma_collision_excludes_only_itself(
    dest: DestinationView,
    probes: Seq<ProbeView>,
    i: int,
)
    requires
        0 <= i < probes.len(),
        probes[i].exists,
        !is_same_path(probes[i].path, dest.path),
        probes[i].target_exists,
    ensures
        verdict_of(dest, probes[i]) == Verdict::Excluded(ExclusionReason::NameCollision),
        requests_of(dest, probes) == requests_of(dest, probes.remove(i)),
        exclusions_of(dest, probes).contains(
            ExclusionView { path: probes[i].path, reason: ExclusionReason::NameCollision },
        ),
{
    lemma_excluded_leaves_rest(dest, probes, i);
}

/// No transfer is ever requested for a source that is the destination
/// itself: such a source is skipped, the other sources are transferred as if
/// it had not been staged, and every request goes into the destination.
pub proof fn lemma_destination_is_never_a_source(dest: DestinationView, probes: Seq<ProbeView>)
    ensures
        forall|i: int|
            0 <= i < probes.len() && is_same_path((#[trigger] probes[i]).path, dest.path)
                ==> verdict_of(dest, probes[i]) is Excluded && requests_of(dest, probes)
                == requests_of(dest, probes.remove(i)),
        forall|i: int|
            0 <= i < probes.len() && is_same_path((#[trigger] probes[i]).path, dest.path)
                && probes[i].exists ==> verdict_of(dest, probes[i]) == Verdict::Excluded(
                ExclusionReason::SameAsDestination,
            ),
        forall|k: int|
            0 <= k < requests_of(dest, probes).len() ==> !is_same_path(
                (#[trigger] requests_of(dest, probes)[k]).source,
                dest.path,
            ) && requests_of(dest, probes)[k].destination == dest.path,
{
    assert forall|i: int|
        0 <= i < probes.len() && is_same_path(
            (#[trigger] probes[i]).path,
            dest.path,
        ) implies verdict_of(dest, probes[i]) is Excluded && requests_of(dest, probes)
        == requests_of(dest, probes.remove(i)) by {
        lemma_excluded_leaves_rest(dest, probes, i);
    }
    assert forall|k: int| 0 <= k < requests_of(dest, probes).len() implies !is_same_path(
        (#[trigger] requests_of(dest, probes)[k]).source,
        dest.path,
    ) && requests_of(dest, probes)[k].destination == dest.path by {
        probes.lemma_filter_pred(eligible_for(dest), k);
    }
}

/// The staged sources to paste, none of them empty. Fails with
/// [`ErrorKind::ClipboardUnavailable`] exactly when nothing was ever staged;
/// after a copy that staged no path it yields no source.
pub fn staged_sources(store: &ClipboardStore) -> (outcome: Result<Vec<String>, ErrorKind>)
    ensures
        match outcome {
            Ok(sources) => store@ matches Some(content) && sources.deep_view() == decoding_of(
                content,
            ) && all_entries(sources.deep_view()),
            Err(kind) => store@ is None && kind == ErrorKind::ClipboardUnavailable,
        },
{
    match store.read() {
        Ok(sources) => Ok(sources),
        Err(_) => Err(ErrorKind::ClipboardUnavailable),
    }
}

/// The path whose existence the caller reports as
/// [`SourceProbe::target_exists`].
pub fn collision_target(dest: &Destination, source: &str) -> (target: String)
    ensures
        target@ == collision_target_of(dest@, source@),
{
    if dest.is_directory {
        let name = base_name(source);
        child_path(dest.path.as_str(), name.as_str())
    } else {
        dest.path.clone()
    }
}

/// The verdict on one staged source.
pub fn classify(dest: &Destination, probe: &SourceProbe) -> (verdict: Verdict)
    ensures
        verdict == verdict_of(dest@, probe@),
{
    if !probe.exists {
        Verdict::Excluded(ExclusionReason::SourceMissing)
    } else if same_path(probe.path.as_str(), dest.path.as_str()) {
        Verdict::Excluded(ExclusionReason::SameAsDestination)
    } else if probe.target_exists {
        Verdict::Excluded(ExclusionReason::NameCollision)
    } else {
        Verdict::Eligible
    }
}

/// Decides for every staged source whether it is transferred.
pub fn filter_sources(dest: &Destination, probes: &Vec<SourceProbe>) -> (report: FilterReport)
    ensures
        report.kept.deep_view() == requests_of(dest@, probes.deep_view()),
        report.excluded.deep_view() == exclusions_of(dest@, probes.deep_view()),
{
    let mut kept: Vec<TransferRequest> = Vec::new();
    let mut excluded: Vec<Exclusion> = Vec::new();
    let mut at: usize = 0;
    proof {
        reveal(Seq::filter);
    }
    while at < probes.len()
        invariant
            at <= probes.len(),
            kept.deep_view() == requests_of(dest@, probes.deep_view().take(at as int)),
            excluded.deep_view() == exclusions_of(dest@, probes.deep_view().take(at as int)),
        decreases probes.len() - at,
    {
        let ghost seen = probes.deep_view().take(at as int);
        let ghost probe = probes[at as int]@;
        let ghost requested = kept.deep_view();
        let ghost skipped = excluded.deep_view();
        proof {
            assert(probes.deep_view().take(at + 1) =~= seen.push(probe));
            seen.lemma_filter_push(probe, eligible_for(dest@));
            seen.lemma_filter_push(probe, excluded_for(dest@));
        }
        match classify(dest, &probes[at]) {
            Verdict::Eligible => {
                let request = TransferRequest {
                    source: probes[at].path.clone(),
                    destination: dest.path.clone(),
                };
                kept.push(request);
                proof {
                    assert(kept.deep_view() =~= requested.push(request@));
                }
            },
            Verdict::Excluded(reason) => {
                let exclusion = Exclusion { path: probes[at].path.clone(), reason };
                excluded.push(exclusion);
                proof {
                    assert(excluded.deep_view() =~= skipped.push(exclusion@));
                }
            },
        }
        at = at + 1;
    }
    proof {
        assert(probes.deep_view().take(at as int) =~= probes.deep_view());
    }
    FilterReport { kept, excluded }
}

} // verus!
