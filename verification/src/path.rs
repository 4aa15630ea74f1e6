//! Paths: their segments, and how a path given at a prompt becomes absolute.

use vstd::prelude::*;
use vstd::string::StringExecFns;
use crate::text::{same_text, spec_fields, spec_string_views, split_fields, starts_with_char, Separator};

verus! {

/// The character that separates the segments of a path.
pub const SEPARATOR: char = '/';

/// The segments of a path: its maximal runs of characters other than `/`, in
/// order. Empty segments do not count, so `//a//b/` has the segments `a` and
/// `b`.
pub open spec fn spec_segments(path: Seq<char>) -> Seq<Seq<char>> {
    spec_fields(path, Separator::Slash)
}

/// Splits a path into its segments.
pub fn path_segments(path: &str) -> (r: Vec<String>)
    ensures
        spec_string_views(r@) == spec_segments(path@),
{
    split_fields(path, Separator::Slash)
}

/// The components of a path after `part` has been taken in: an empty part
/// and `.` change nothing, `..` drops the last component where there is one,
/// and any other part is added at the end.
pub open spec fn spec_push_component(components: Seq<Seq<char>>, part: Seq<char>) -> Seq<
    Seq<char>,
> {
    if part.len() == 0 || part == seq!['.'] {
        components
    } else if part == seq!['.', '.'] {
        if components.len() > 0 {
            components.drop_last()
        } else {
            components
        }
    } else {
        components.push(part)
    }
}

/// The components after each of `parts` has been taken in, in order.
pub open spec fn spec_push_components(components: Seq<Seq<char>>, parts: Seq<Seq<char>>) -> Seq<
    Seq<char>,
>
    decreases parts.len(),
{
    if parts.len() == 0 {
        components
    } else {
        spec_push_components(spec_push_component(components, parts[0]), parts.drop_first())
    }
}

/// The components written as a path: a `/` before each of them.
pub open spec fn spec_join(components: Seq<Seq<char>>) -> Seq<char>
    decreases components.len(),
{
    if components.len() == 0 {
        Seq::empty()
    } else {
        spec_join(components.drop_last()) + seq![SEPARATOR] + components.last()
    }
}

/// The absolute path that `path` means in the directory `current`: `path`
/// itself where it is absolute, else `path` appended to `current`; in both
/// cases with `.` taken out and `..` followed.
pub open spec fn spec_resolve_path(current: Seq<char>, path: Seq<char>) -> Seq<char> {
    let base = if path.len() > 0 && path[0] == SEPARATOR {
        Seq::empty()
    } else {
        spec_push_components(Seq::empty(), spec_segments(current))
    };
    let components = spec_push_components(base, spec_segments(path));
    if components.len() == 0 {
        seq![SEPARATOR]
    } else {
        spec_join(components)
    }
}

/// A joined path starts with `/` unless it has no component.
pub proof fn lemma_join_absolute(components: Seq<Seq<char>>)
    ensures
        components.len() > 0 ==> spec_join(components).len() > 0 && spec_join(components)[0]
            == SEPARATOR,
    decreases components.len(),
{
    if components.len() > 1 {
        lemma_join_absolute(components.drop_last());
    } else if components.len() == 1 {
        assert(spec_join(components.drop_last()).len() == 0);
    }
}

/// Whatever is typed, the path it resolves to is absolute.
pub proof fn lemma_resolve_path_absolute(current: Seq<char>, path: Seq<char>)
    ensures
        spec_resolve_path(current, path).len() > 0,
        spec_resolve_path(current, path)[0] == SEPARATOR,
{
    let base = if path.len() > 0 && path[0] == SEPARATOR {
        Seq::empty()
    } else {
        spec_push_components(Seq::empty(), spec_segments(current))
    };
    lemma_join_absolute(spec_push_components(base, spec_segments(path)));
}

/// Takes one part of a path into the list of components.
pub fn push_component(components: &mut Vec<String>, part: &str)
    ensures
        spec_string_views(final(components)@) == spec_push_component(
            spec_string_views(old(components)@),
            part@,
        ),
{
    proof {
        reveal_strlit(".");
        reveal_strlit("..");
        assert("."@ =~= seq!['.']);
        assert(".."@ =~= seq!['.', '.']);
    }
    if part.is_empty() || same_text(part, ".") {
        return;
    }
    if same_text(part, "..") {
        components.pop();
    } else {
        components.push(part.to_owned());
    }
}

/// Takes the segments of `path` into the list of components, in order.
pub fn push_segments(components: &mut Vec<String>, path: &str)
    ensures
        spec_string_views(final(components)@) == spec_push_components(
            spec_string_views(old(components)@),
            spec_segments(path@),
        ),
{
    let parts = path_segments(path);
    let ghost segments = spec_segments(path@);
    let ghost whole = spec_push_components(spec_string_views(components@), segments);
    let mut i: usize = 0;
    proof {
        assert(segments.skip(0) =~= segments);
    }
    while i < parts.len()
        invariant
            i <= parts@.len(),
            segments == spec_string_views(parts@),
            whole == spec_push_components(
                spec_string_views(components@),
                segments.skip(i as int),
            ),
        decreases parts@.len() - i,
    {
        proof {
            assert(segments.skip(i as int).drop_first() =~= segments.skip(i + 1));
        }
        push_component(components, parts[i].as_str());
        i += 1;
    }
}

/// Resolves a path typed at a prompt against the current directory.
pub fn resolve_path(current: &str, path: &str) -> (r: String)
    ensures
        r@ == spec_resolve_path(current@, path@),
        r@.len() > 0 && r@[0] == SEPARATOR,
{
    let mut components: Vec<String> = Vec::new();
    proof {
        assert(spec_string_views(components@) =~= Seq::<Seq<char>>::empty());
        lemma_resolve_path_absolute(current@, path@);
    }
    if !starts_with_char(path, SEPARATOR) {
        push_segments(&mut components, current);
    }
    push_segments(&mut components, path);

    let mut result = String::new();
    if components.len() == 0 {
        result.push(SEPARATOR);
        return result;
    }
    let ghost views = spec_string_views(components@);
    let mut i: usize = 0;
    while i < components.len()
        invariant
            i <= components@.len(),
            views == spec_string_views(components@),
            result@ == spec_join(views.take(i as int)),
        decreases components@.len() - i,
    {
        proof {
            assert(views.take(i + 1).drop_last() =~= views.take(i as int));
        }
        result.push(SEPARATOR);
        result.append(components[i].as_str());
        i += 1;
    }
    proof {
        assert(views.take(components@.len() as int) =~= views);
    }
    result
}

} // verus!
