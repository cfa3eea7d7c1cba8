//! Unix paths as texts.
//!
//! Two paths are the same if their components are: repeated and trailing slashes and `.`
//! between slashes make no difference, `..` does.
use vstd::prelude::*;
use vstd::string::*;

use crate::text;

verus! {

/// Whether a path starts at the root.
pub open spec fn is_absolute(path: Seq<char>) -> bool {
    path.len() > 0 && path[0] == '/'
}

/// Whether the segment with the given number is a component. Only the first one may be `.`.
pub open spec fn is_component(segment: Seq<char>, number: int) -> bool {
    segment.len() > 0 && (number == 0 || segment != seq!['.'])
}

/// The components among the segments.
pub open spec fn kept_segments(segments: Seq<Seq<char>>) -> Seq<Seq<char>>
    decreases segments.len(),
{
    if segments.len() == 0 {
        Seq::empty()
    } else {
        let before = kept_segments(segments.drop_last());
        if is_component(segments.last(), segments.len() - 1) {
            before.push(segments.last())
        } else {
            before
        }
    }
}

/// The components of a path. The root is one of them, as a slash.
pub open spec fn components(path: Seq<char>) -> Seq<Seq<char>> {
    let root = if is_absolute(path) { seq![seq!['/']] } else { Seq::<Seq<char>>::empty() };
    root + kept_segments(text::split(path, '/'))
}

/// Whether a path is another one or lies below it.
pub open spec fn is_within(path: Seq<char>, base: Seq<char>) -> bool {
    components(base).is_prefix_of(components(path))
}

/// Whether two paths are the same.
pub open spec fn is_same(a: Seq<char>, b: Seq<char>) -> bool {
    components(a) == components(b)
}

/// The path of `other` seen from `base`.
pub open spec fn join(base: Seq<char>, other: Seq<char>) -> Seq<char> {
    if is_absolute(other) {
        other
    } else if base.len() == 0 || base.last() == '/' {
        base + other
    } else {
        base.push('/') + other
    }
}

/// The last component of a path, unless that is the root, `.` or `..`.
pub open spec fn file_name(path: Seq<char>) -> Option<Seq<char>> {
    let all = components(path);
    if all.len() == 0 || all.last() == seq!['/'] || all.last() == seq!['.'] || all.last() == seq![
        '.',
        '.',
    ] {
        None
    } else {
        Some(all.last())
    }
}

/// Splits a path into its components.
pub fn path_components(path: &str) -> (parts: Vec<String>)
    ensures
        text::texts(parts@) == components(path@),
{
    let segments: Vec<String> = text::split_at_each(path, '/');
    let ghost all = text::split(path@, '/');
    let ghost root = if is_absolute(path@) {
        seq![seq!['/']]
    } else {
        Seq::<Seq<char>>::empty()
    };
    let mut parts: Vec<String> = Vec::new();
    if starts_at_root(path) {
        parts.push("/".to_owned());
        proof {
            reveal_strlit("/");
            assert("/"@ =~= seq!['/']);
        }
    }
    assert(text::texts(parts@) =~= root + kept_segments(all.take(0)));
    for i in 0..segments.len()
        invariant
            text::texts(segments@) == all,
            text::texts(parts@) == root + kept_segments(all.take(i as int)),
    {
        proof {
            reveal_strlit(".");
            assert("."@ =~= seq!['.']);
            assert(all.take(i + 1).drop_last() =~= all.take(i as int));
            assert(all[i as int] == segments@[i as int]@);
        }
        let ghost before = text::texts(parts@);
        if !segments[i].as_str().is_empty() && (i == 0 || !text::same(segments[i].as_str(), ".")) {
            parts.push(segments[i].clone());
            assert(text::texts(parts@) =~= before.push(all[i as int]));
        }
        assert(text::texts(parts@) =~= root + kept_segments(all.take(i + 1)));
    }
    assert(all.take(all.len() as int) =~= all);
    parts
}

/// Tells whether a path starts at the root.
pub fn starts_at_root(path: &str) -> (result: bool)
    ensures
        result == is_absolute(path@),
{
    let characters: Vec<char> = text::characters(path);
    characters.len() > 0 && characters[0] == '/'
}

/// Tells whether a path is another one or lies below it.
pub fn starts_with(path: &str, base: &str) -> (result: bool)
    ensures
        result == is_within(path@, base@),
{
    let parts: Vec<String> = path_components(path);
    let wanted: Vec<String> = path_components(base);
    if wanted.len() > parts.len() {
        return false;
    }
    let ghost path_parts = components(path@);
    let ghost base_parts = components(base@);
    for i in 0..wanted.len()
        invariant
            text::texts(parts@) == path_parts,
            text::texts(wanted@) == base_parts,
            base_parts == components(base@),
            path_parts == components(path@),
            wanted@.len() <= parts@.len(),
            forall|k: int| 0 <= k < i ==> base_parts[k] == path_parts[k],
    {
        assert(base_parts[i as int] == wanted@[i as int]@);
        assert(path_parts[i as int] == parts@[i as int]@);
        if !text::same(wanted[i].as_str(), parts[i].as_str()) {
            assert(base_parts[i as int] != path_parts.take(base_parts.len() as int)[i as int]);
            return false;
        }
    }
    assert(base_parts =~= path_parts.take(base_parts.len() as int));
    true
}

/// Tells whether two paths are the same.
pub fn same_path(a: &str, b: &str) -> (result: bool)
    ensures
        result == is_same(a@, b@),
{
    let forth: bool = starts_with(a, b);
    let back: bool = starts_with(b, a);
    proof {
        if forth && back {
            assert(components(a@) =~= components(b@));
        }
    }
    forth && back
}

/// The path of `other` seen from `base`.
pub fn joined_path(base: &str, other: &str) -> (path: String)
    ensures
        path@ == join(base@, other@),
{
    if starts_at_root(other) {
        return other.to_owned();
    }
    let characters: Vec<char> = text::characters(base);
    let mut path: String = base.to_owned();
    if characters.len() > 0 && characters[characters.len() - 1] != '/' {
        path.push('/');
    }
    path.append(other);
    path
}

/// The last component of a path, unless that is the root, `.` or `..`.
pub fn last_component(path: &str) -> (name: Option<String>)
    ensures
        match name {
            Some(name) => file_name(path@) == Some(name@),
            None => file_name(path@) is None,
        },
{
    let parts: Vec<String> = path_components(path);
    if parts.len() == 0 {
        return None;
    }
    let last: String = parts[parts.len() - 1].clone();
    proof {
        reveal_strlit("/");
        reveal_strlit(".");
        reveal_strlit("..");
        assert("/"@ =~= seq!['/']);
        assert("."@ =~= seq!['.']);
        assert(".."@ =~= seq!['.', '.']);
        assert(components(path@).last() == last@);
    }
    if text::same(last.as_str(), "/") || text::same(last.as_str(), ".") || text::same(
        last.as_str(),
        "..",
    ) {
        return None;
    }
    Some(last)
}

/// Whether a text is one step of a path.
pub open spec fn is_step(text: Seq<char>) -> bool {
    text.len() > 0 && !text.contains('/') && text != seq!['.']
}

/// A path that does not start at the root is put behind the base, with one slash between them,
/// and one that does is taken as it is.
pub proof fn lemma_join_is_text(base: Seq<char>, other: Seq<char>)
    ensures
        other.len() > 0 && other[0] == '/' ==> join(base, other) == other,
        (other.len() == 0 || other[0] != '/') && base.len() > 0 && base.last() != '/' ==> join(
            base,
            other,
        ) == base + seq!['/'] + other,
        (other.len() == 0 || other[0] != '/') && (base.len() == 0 || base.last() == '/') ==> join(
            base,
            other,
        ) == base + other,
{
    assert(base.push('/') + other =~= base + seq!['/'] + other);
}

/// One step more is one component more.
pub proof fn lemma_one_step(base: Seq<char>, step: Seq<char>)
    requires
        base.len() > 0,
        is_step(step),
    ensures
        components(join(base, step)) == components(base).push(step),
{
    assert(step.contains(step[0]));
    text::lemma_split_one(step, '/');
    let path = join(base, step);
    let segments = text::split(base, '/');
    if base.last() == '/' {
        let start = base.drop_last();
        assert(path =~= start.push('/') + step);
        assert(base =~= start.push('/') + Seq::<char>::empty());
        text::lemma_split_concat(start, '/', step);
        text::lemma_split_concat(start, '/', Seq::empty());
        text::lemma_split_one(Seq::empty(), '/');
        let earlier = text::split(start, '/');
        assert((earlier + seq![step]).drop_last() =~= earlier);
        assert((earlier + seq![Seq::<char>::empty()]).drop_last() =~= earlier);
        assert(kept_segments(text::split(path, '/')) == kept_segments(earlier).push(step));
        assert(kept_segments(segments) == kept_segments(earlier));
    } else {
        text::lemma_split_concat(base, '/', step);
        assert((segments + seq![step]).drop_last() =~= segments);
        assert(kept_segments(text::split(path, '/')) == kept_segments(segments).push(step));
    }
    assert(path[0] == base[0]);
    assert(components(path) =~= components(base).push(step));
}

/// A slash at the end, one more slash, and a dot between slashes make no difference.
pub proof fn lemma_slashes_and_dots(base: Seq<char>)
    requires
        base.len() > 0,
    ensures
        is_same(base.push('/'), base),
        is_same(base + seq!['/', '.'], base),
{
    let segments = text::split(base, '/');
    text::lemma_split_concat(base, '/', Seq::empty());
    text::lemma_split_one(Seq::empty(), '/');
    assert(base.push('/') + Seq::<char>::empty() =~= base.push('/'));
    assert((segments + seq![Seq::<char>::empty()]).drop_last() =~= segments);
    assert(kept_segments(text::split(base.push('/'), '/')) == kept_segments(segments));
    let dot = seq!['.'];
    assert(!dot.contains('/'));
    text::lemma_split_concat(base, '/', dot);
    text::lemma_split_one(dot, '/');
    assert(base.push('/') + dot =~= base + seq!['/', '.']);
    assert((segments + seq![dot]).drop_last() =~= segments);
    assert(kept_segments(text::split(base + seq!['/', '.'], '/')) == kept_segments(segments));
    assert(base.push('/')[0] == base[0]);
    assert((base + seq!['/', '.'])[0] == base[0]);
}

/// What is a step below a directory lies inside it and is not the directory, the directory
/// does not lie inside it, and what lies inside a directory lies inside those above it.
pub proof fn lemma_below_is_inside(base: Seq<char>, step: Seq<char>, path: Seq<char>)
    requires
        base.len() > 0,
        is_step(step),
    ensures
        is_within(join(base, step), base),
        !is_same(join(base, step), base),
        !is_within(base, join(base, step)),
        is_within(base, base),
        is_within(path, join(base, step)) ==> is_within(path, base) && !is_same(path, base),
{
    lemma_one_step(base, step);
    let below = components(join(base, step));
    let all = components(base);
    assert(all =~= below.take(all.len() as int));
    assert(all =~= all.take(all.len() as int));
    if is_within(path, join(base, step)) {
        let found = components(path);
        assert(below == found.take(below.len() as int));
        assert(all =~= found.take(all.len() as int)) by {
            assert forall|i: int| 0 <= i < all.len() implies all[i] == found[i] by {
                assert(below[i] == found.take(below.len() as int)[i]);
            }
        }
    }
}

/// What lies beside a directory does not lie inside it, even if its name begins alike.
pub proof fn lemma_beside_is_outside(base: Seq<char>, step: Seq<char>, other: Seq<char>)
    requires
        base.len() > 0,
        is_step(step),
        is_step(other),
        step != other,
    ensures
        !is_within(join(base, step), join(base, other)),
{
    lemma_one_step(base, step);
    lemma_one_step(base, other);
    let first = components(join(base, step));
    let second = components(join(base, other));
    if is_within(join(base, step), join(base, other)) {
        assert(second[second.len() - 1] == first.take(second.len() as int)[second.len() - 1]);
    }
}

/// The last step of a path is its name, unless it leads up.
pub proof fn lemma_name_of_step(base: Seq<char>, step: Seq<char>)
    requires
        base.len() > 0,
        is_step(step),
    ensures
        step != seq!['.', '.'] ==> file_name(join(base, step)) == Some(step),
        step == seq!['.', '.'] ==> file_name(join(base, step)) is None,
        file_name(seq!['/']) is None,
{
    lemma_one_step(base, step);
    let all = components(join(base, step));
    assert(all.last() == step);
    let root = seq!['/'];
    if step == root {
        assert(step[0] == '/');
        assert(step.contains('/'));
    }
    text::lemma_split_concat(Seq::empty(), '/', Seq::empty());
    text::lemma_split_one(Seq::empty(), '/');
    assert(Seq::<char>::empty().push('/') + Seq::<char>::empty() =~= root);
    let nothing = seq![Seq::<char>::empty()];
    assert((nothing + nothing).drop_last() =~= nothing);
    assert(nothing.drop_last() =~= Seq::<Seq<char>>::empty());
    reveal_with_fuel(kept_segments, 3);
    assert(kept_segments(nothing) =~= Seq::<Seq<char>>::empty());
    assert(kept_segments(nothing + nothing) =~= Seq::<Seq<char>>::empty());
    assert(components(root) =~= seq![root]);
}

} // verus!
