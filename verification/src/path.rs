//! Paths as text: components, base names, canonical form and resolution.
//!
//! A path is a sequence of characters in which `/` separates segments. Empty
//! segments and the segment `.` name nothing, so `a//b/./` and `a/b` have the
//! same components. The segment `..` is kept as it is written: what it refers
//! to depends on the file system, which this module never consults.

use crate::text::{
    all_free_of, join, join_text, lemma_filter_keeps_all, lemma_split_around, lemma_split_free,
    lemma_split_join, lemma_split_pieces_free, split, split_text,
};
use vstd::prelude::*;

verus! {

/// Whether the path is absolute: it starts at the root.
pub open spec fn is_absolute(path: Seq<char>) -> bool {
    path.len() > 0 && path[0] == '/'
}

/// Whether a segment names something: it is neither empty nor `.`.
pub open spec fn is_name(segment: Seq<char>) -> bool {
    segment.len() > 0 && !(segment.len() == 1 && segment[0] == '.')
}

/// The predicate that selects the naming segments of a path.
pub open spec fn naming() -> spec_fn(Seq<char>) -> bool {
    |segment: Seq<char>| is_name(segment)
}

/// The naming segments of a path, in order.
pub open spec fn components_of(path: Seq<char>) -> Seq<Seq<char>> {
    split(path, '/').filter(naming())
}

/// The last component of a path, or the empty text if the path has none, as
/// the root and the empty path have. A path that ends in `..` has the base
/// name `..`.
pub open spec fn base_name_of(path: Seq<char>) -> Seq<char> {
    let parts = components_of(path);
    if parts.len() == 0 {
        Seq::<char>::empty()
    } else {
        parts.last()
    }
}

/// The path of `name` inside `dir`: the two written one after the other, with
/// one slash put between them unless `dir` is empty or already ends in one.
pub open spec fn child_of(dir: Seq<char>, name: Seq<char>) -> Seq<char> {
    if dir.len() == 0 {
        name
    } else if dir.last() == '/' {
        dir + name
    } else {
        dir.push('/') + name
    }
}

/// Whether two paths are the same: both absolute or both not, with the same
/// components.
pub open spec fn is_same_path(a: Seq<char>, b: Seq<char>) -> bool {
    is_absolute(a) == is_absolute(b) && components_of(a) == components_of(b)
}

/// The canonical way of writing a path: its components with single slashes
/// between them, after a leading slash if the path is absolute.
pub open spec fn normal_form(path: Seq<char>) -> Seq<char> {
    let body = join(components_of(path), '/');
    if is_absolute(path) {
        seq!['/'] + body
    } else {
        body
    }
}

/// What a path given by a user resolves to, seen from the directory `base`.
///
/// The empty text resolves to nothing. An absolute path resolves to its own
/// canonical form, any other path to the canonical form of the path it names
/// inside `base`.
pub open spec fn resolution_of(base: Seq<char>, raw: Seq<char>) -> Option<Seq<char>> {
    if raw.len() == 0 {
        None
    } else if is_absolute(raw) {
        Some(normal_form(raw))
    } else {
        Some(normal_form(child_of(base, raw)))
    }
}

/// Every component of a path is a name and holds no slash.
pub proof fn lemma_components_are_names(path: Seq<char>)
    ensures
        all_free_of(components_of(path), '/'),
        forall|i: int|
            0 <= i < components_of(path).len() ==> is_name(#[trigger] components_of(path)[i]),
{
    let segments = split(path, '/');
    let parts = components_of(path);
    lemma_split_pieces_free(path, '/');
    assert forall|i: int| 0 <= i < parts.len() implies is_name(#[trigger] parts[i])
        && !parts[i].contains('/') by {
        segments.lemma_filter_pred(naming(), i);
        segments.lemma_filter_contains_rev(naming(), parts[i]);
    }
}

/// A name without a slash is a path of one component: itself.
pub proof fn lemma_components_of_name(name: Seq<char>)
    requires
        is_name(name),
        !name.contains('/'),
    ensures
        components_of(name) == seq![name],
        base_name_of(name) == name,
{
    lemma_split_free(name, '/');
    lemma_filter_keeps_all(seq![name], naming());
}

/// The empty path has no components.
proof fn lemma_empty_path_has_no_components()
    ensures
        components_of(Seq::<char>::empty()) == Seq::<Seq<char>>::empty(),
{
    reveal(Seq::filter);
    Seq::<Seq<char>>::empty().lemma_filter_push(Seq::<char>::empty(), naming());
}

/// The components of a path inside a directory are the directory's components
/// followed by those of the path.
pub proof fn lemma_components_of_child(dir: Seq<char>, name: Seq<char>)
    ensures
        components_of(child_of(dir, name)) == components_of(dir) + components_of(name),
{
    let nothing = Seq::<char>::empty();
    lemma_empty_path_has_no_components();
    if dir.len() == 0 {
        // The child is the name itself.
    } else if dir.last() == '/' {
        let stem = dir.drop_last();
        assert(stem.push('/') + nothing =~= dir);
        lemma_split_around(stem, nothing, '/');
        lemma_split_around(stem, name, '/');
        Seq::filter_distributes_over_add(split(stem, '/'), split(nothing, '/'), naming());
        Seq::filter_distributes_over_add(split(stem, '/'), split(name, '/'), naming());
    } else {
        lemma_split_around(dir, name, '/');
        Seq::filter_distributes_over_add(split(dir, '/'), split(name, '/'), naming());
    }
}

/// A name placed inside a directory is the base name of the resulting path.
pub proof fn lemma_base_name_of_child(dir: Seq<char>, name: Seq<char>)
    requires
        is_name(name),
        !name.contains('/'),
    ensures
        base_name_of(child_of(dir, name)) == name,
{
    lemma_components_of_child(dir, name);
    lemma_components_of_name(name);
}

/// The joined text of at least one piece starts with the first piece.
proof fn lemma_join_starts_with_first(pieces: Seq<Seq<char>>, sep: char)
    requires
        pieces.len() >= 1,
    ensures
        join(pieces, sep).len() >= pieces[0].len(),
        join(pieces, sep).take(pieces[0].len() as int) == pieces[0],
    decreases pieces.len(),
{
    if pieces.len() > 1 {
        lemma_join_starts_with_first(pieces.drop_last(), sep);
    }
}

/// Writing a path in canonical form changes neither its components nor
/// whether it is absolute.
pub proof fn lemma_normal_form_keeps_path(path: Seq<char>)
    ensures
        components_of(normal_form(path)) == components_of(path),
        is_absolute(normal_form(path)) == is_absolute(path),
        is_same_path(normal_form(path), path),
{
    let parts = components_of(path);
    let body = join(parts, '/');
    let nothing = Seq::<char>::empty();
    lemma_components_are_names(path);
    lemma_empty_path_has_no_components();
    // The body is a relative path with the components of the path.
    if parts.len() > 0 {
        lemma_split_join(parts, '/');
        lemma_filter_keeps_all(parts, naming());
        lemma_join_starts_with_first(parts, '/');
        assert(body[0] == body.take(parts[0].len() as int)[0]);
    }
    // The leading slash of an absolute path adds an empty segment and no component.
    if is_absolute(path) {
        lemma_split_around(nothing, body, '/');
        Seq::filter_distributes_over_add(split(nothing, '/'), split(body, '/'), naming());
    }
}

/// The canonical form is a fixed point, and two paths are the same exactly
/// when their canonical forms are equal.
pub proof fn lemma_normal_form_is_canonical(a: Seq<char>, b: Seq<char>)
    ensures
        normal_form(normal_form(a)) == normal_form(a),
        is_same_path(a, b) <==> normal_form(a) == normal_form(b),
{
    lemma_normal_form_keeps_path(a);
    lemma_normal_form_keeps_path(b);
}

/// Seen from a directory given by an absolute path, every path that resolves
/// resolves to an absolute path in canonical form.
pub proof fn lemma_resolution_is_absolute(base: Seq<char>, raw: Seq<char>)
    requires
        is_absolute(base),
    ensures
        resolution_of(base, raw) matches Some(path) ==> is_absolute(path) && normal_form(path)
            == path,
{
    if raw.len() > 0 {
        if is_absolute(raw) {
            lemma_normal_form_keeps_path(raw);
            lemma_normal_form_is_canonical(raw, raw);
        } else {
            let inside = child_of(base, raw);
            lemma_normal_form_keeps_path(inside);
            lemma_normal_form_is_canonical(inside, inside);
        }
    }
}

/// Whether the path is absolute.
pub fn starts_at_root(path: &str) -> (absolute: bool)
    ensures
        absolute == is_absolute(path@),
{
    path.unicode_len() > 0 && path.get_char(0) == '/'
}

/// Whether a segment names something.
fn segment_is_name(segment: &str) -> (named: bool)
    ensures
        named == is_name(segment@),
{
    let len: usize = segment.unicode_len();
    len > 0 && !(len == 1 && segment.get_char(0) == '.')
}

/// The naming segments of a path, in order.
pub fn components(path: &str) -> (parts: Vec<String>)
    ensures
        parts.deep_view() == components_of(path@),
{
    let segments = split_text(path, '/');
    let mut parts: Vec<String> = Vec::new();
    let mut at: usize = 0;
    proof {
        reveal(Seq::filter);
    }
    while at < segments.len()
        invariant
            at <= segments.len(),
            parts.deep_view() == segments.deep_view().take(at as int).filter(naming()),
        decreases segments.len() - at,
    {
        proof {
            let seen = segments.deep_view().take(at as int);
            assert(segments.deep_view().take(at + 1) =~= seen.push(segments[at as int]@));
            seen.lemma_filter_push(segments[at as int]@, naming());
        }
        if segment_is_name(segments[at].as_str()) {
            parts.push(segments[at].clone());
        }
        at = at + 1;
    }
    proof {
        assert(segments.deep_view().take(at as int) =~= segments.deep_view());
    }
    parts
}

/// The last component of a path, or the empty text if the path has none.
pub fn base_name(path: &str) -> (name: String)
    ensures
        name@ == base_name_of(path@),
{
    let parts = components(path);
    if parts.len() == 0 {
        String::new()
    } else {
        parts[parts.len() - 1].clone()
    }
}

/// The path of `name` inside `dir`.
pub fn child_path(dir: &str, name: &str) -> (path: String)
    ensures
        path@ == child_of(dir@, name@),
{
    let len: usize = dir.unicode_len();
    let mut path: String = dir.to_owned();
    if len > 0 && dir.get_char(len - 1) != '/' {
        proof {
            reveal_strlit("/");
        }
        path.append("/");
    }
    path.append(name);
    path
}

/// Whether two paths are the same path.
pub fn same_path(a: &str, b: &str) -> (same: bool)
    ensures
        same == is_same_path(a@, b@),
{
    if starts_at_root(a) != starts_at_root(b) {
        return false;
    }
    let left = components(a);
    let right = components(b);
    if left.len() != right.len() {
        proof {
            assert(left.deep_view().len() != right.deep_view().len());
        }
        return false;
    }
    let mut at: usize = 0;
    while at < left.len()
        invariant
            at <= left.len(),
            left.len() == right.len(),
            is_absolute(a@) == is_absolute(b@),
            left.deep_view() == components_of(a@),
            right.deep_view() == components_of(b@),
            forall|k: int| 0 <= k < at ==> left[k]@ == right[k]@,
        decreases left.len() - at,
    {
        if left[at] != right[at] {
            proof {
                assert(left.deep_view()[at as int] != right.deep_view()[at as int]);
            }
            return false;
        }
        at = at + 1;
    }
    proof {
        assert(left.deep_view() =~= right.deep_view());
    }
    true
}

/// Writes a path in canonical form.
pub fn normalize(path: &str) -> (canonical: String)
    ensures
        canonical@ == normal_form(path@),
{
    proof {
        reveal_strlit("/");
    }
    let parts = components(path);
    let body = join_text(&parts, "/");
    if starts_at_root(path) {
        let mut canonical: String = String::new();
        canonical.append("/");
        canonical.append(body.as_str());
        canonical
    } else {
        body
    }
}

/// Resolves a path given by a user, seen from the directory `base`.
///
/// Returns `None` for the empty text, which names no path.
pub fn resolve(base: &str, raw: &str) -> (resolved: Option<String>)
    ensures
        resolved.is_some() == resolution_of(base@, raw@).is_some(),
        resolved matches Some(path) ==> resolution_of(base@, raw@) == Some(path@),
{
    if raw.unicode_len() == 0 {
        None
    } else if starts_at_root(raw) {
        Some(normalize(raw))
    } else {
        let inside = child_path(base, raw);
        Some(normalize(inside.as_str()))
    }
}

} // verus!
