//! Paths as texts whose components are separated by `/`.
//!
//! A path is read as the sequence of its components: the pieces between
//! separators, empty pieces left out. The library is meant for absolute
//! paths, and reads a path that does not begin with a separator as if it did.

use vstd::prelude::*;
use crate::text::{push_char, text_views};

verus! {

/// The character that separates the components of a path.
pub const SEPARATOR: char = '/';

/// A path cut at its separators from the left: the components that are
/// closed by a separator, and the characters after the last separator.
pub open spec fn cut(path: Seq<char>) -> (Seq<Seq<char>>, Seq<char>)
    decreases path.len(),
{
    if path.len() == 0 {
        (Seq::empty(), Seq::empty())
    } else {
        let (closed, open) = cut(path.drop_last());
        if path.last() == SEPARATOR {
            if open.len() > 0 {
                (closed.push(open), Seq::empty())
            } else {
                (closed, open)
            }
        } else {
            (closed, open.push(path.last()))
        }
    }
}

/// The components of a path, in their order.
pub open spec fn components(path: Seq<char>) -> Seq<Seq<char>> {
    let (closed, open) = cut(path);
    if open.len() > 0 {
        closed.push(open)
    } else {
        closed
    }
}

/// Whether the components `inner` lie at or below `outer`: `outer` is the
/// beginning of `inner`.
pub open spec fn begins_with(inner: Seq<Seq<char>>, outer: Seq<Seq<char>>) -> bool {
    outer.len() <= inner.len() && inner.take(outer.len() as int) == outer
}

/// A path with one more component: `name` after `base`, with a separator
/// between them unless `base` is empty or ends in one.
pub open spec fn joined(base: Seq<char>, name: Seq<char>) -> Seq<char> {
    if base.len() == 0 || base.last() == SEPARATOR {
        base + name
    } else {
        base.push(SEPARATOR) + name
    }
}

/// A path with more components, joined to `base` one after the other.
pub open spec fn joined_all(base: Seq<char>, names: Seq<Seq<char>>) -> Seq<char>
    decreases names.len(),
{
    if names.len() == 0 {
        base
    } else {
        joined(joined_all(base, names.drop_last()), names.last())
    }
}

/// Cuts a path into its components.
pub fn split_path(path: &str) -> (parts: Vec<String>)
    ensures
        text_views(parts@) == components(path@),
{
    let mut parts: Vec<String> = Vec::new();
    let mut open = String::new();
    let mut open_len: usize = 0;
    for c in it: path.chars()
        invariant
            it.seq() == path@,
            (text_views(parts@), open@) == cut(path@.take(it.index() as int)),
            (open_len == 0) == (open@.len() == 0),
    {
        proof {
            assert(path@.take(it.index() + 1).drop_last() =~= path@.take(it.index() as int));
        }
        if c == SEPARATOR {
            if open_len > 0 {
                parts.push(open);
                open = String::new();
                open_len = 0;
            }
        } else {
            push_char(&mut open, c);
            open_len = 1;
        }
    }
    assert(path@.take(path@.len() as int) =~= path@);
    if open_len > 0 {
        parts.push(open);
    }
    parts
}

/// Appends a component to a path, as `joined` says.
pub fn push_component(path: &mut String, name: &str)
    ensures
        final(path)@ == joined(old(path)@, name@),
{
    let mut ends_open = false;
    for c in it: path.as_str().chars()
        invariant
            it.seq() == path@,
            ends_open == (it.index() > 0 && path@[it.index() - 1] != SEPARATOR),
    {
        ends_open = c != SEPARATOR;
    }
    if ends_open {
        push_char(path, SEPARATOR);
    }
    path.append(name);
}

} // verus!
