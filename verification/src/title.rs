//! Titles as keys: an advisory is recognised in the tracker by its title
//! alone, so a title has to tell advisories apart.

use crate::Advisory;
use vstd::prelude::*;

verus! {

/// A package name that a title can be read back from: it holds neither `:`
/// nor `[`.
pub open spec fn plain_name(name: Seq<char>) -> bool {
    !name.contains(':') && !name.contains('[')
}

/// An advisory id that a title can be read back from: it holds no `]`.
pub open spec fn plain_id(id: Seq<char>) -> bool {
    !id.contains(']')
}

/// Two sequences cut at the first `mark` are equal only where the parts
/// before the mark are equal, and the parts after it.
pub proof fn lemma_cut_is_unique(
    head: Seq<char>,
    tail: Seq<char>,
    other_head: Seq<char>,
    other_tail: Seq<char>,
    mark: char,
)
    requires
        !head.contains(mark),
        !other_head.contains(mark),
        head + seq![mark] + tail == other_head + seq![mark] + other_tail,
    ensures
        head == other_head,
        tail == other_tail,
{
    let whole = head + seq![mark] + tail;
    let other = other_head + seq![mark] + other_tail;
    assert(whole[head.len() as int] == mark);
    assert(other[other_head.len() as int] == mark);
    if head.len() < other_head.len() {
        assert(other[head.len() as int] == other_head[head.len() as int]);
        assert(other_head.contains(other_head[head.len() as int]));
    }
    if other_head.len() < head.len() {
        assert(whole[other_head.len() as int] == head[other_head.len() as int]);
        assert(head.contains(head[other_head.len() as int]));
    }
    assert(head =~= whole.take(head.len() as int));
    assert(other_head =~= other.take(head.len() as int));
    assert(tail =~= whole.skip(head.len() as int + 1));
    assert(other_tail =~= other.skip(head.len() as int + 1));
}

/// The same progenitor, id and message always give the same title.
pub proof fn lemma_title_is_determined(
    root: Option<Seq<char>>,
    id: Seq<char>,
    message: Seq<char>,
    other_root: Option<Seq<char>>,
    other_id: Seq<char>,
    other_message: Seq<char>,
)
    requires
        root == other_root,
        id == other_id,
        message == other_message,
    ensures
        Advisory::title_of(root, id, message) == Advisory::title_of(
            other_root,
            other_id,
            other_message,
        ),
{
}

/// Titles tell advisories apart: where the package names hold neither `:`
/// nor `[` and the ids hold no `]`, two advisories with one title have the
/// same progenitor, the same id and the same message.
pub proof fn lemma_title_tells_apart(
    root: Option<Seq<char>>,
    id: Seq<char>,
    message: Seq<char>,
    other_root: Option<Seq<char>>,
    other_id: Seq<char>,
    other_message: Seq<char>,
)
    requires
        root matches Some(name) ==> plain_name(name),
        other_root matches Some(name) ==> plain_name(name),
        plain_id(id),
        plain_id(other_id),
        Advisory::title_of(root, id, message) == Advisory::title_of(
            other_root,
            other_id,
            other_message,
        ),
    ensures
        root == other_root,
        id == other_id,
        message == other_message,
{
    let title = Advisory::title_of(root, id, message);
    let other = Advisory::title_of(other_root, other_id, other_message);
    let rest = seq![' '] + message;
    let other_rest = seq![' '] + other_message;
    match (root, other_root) {
        (None, None) => {
            assert(title =~= seq!['['] + (id + seq![']'] + rest));
            assert(other =~= seq!['['] + (other_id + seq![']'] + other_rest));
            assert(id + seq![']'] + rest =~= title.skip(1));
            assert(other_id + seq![']'] + other_rest =~= other.skip(1));
            lemma_cut_is_unique(id, rest, other_id, other_rest, ']');
            assert(message =~= rest.skip(1));
            assert(other_message =~= other_rest.skip(1));
        },
        (Some(name), Some(other_name)) => {
            let after = seq![' ', '['] + id + seq![']'] + rest;
            let other_after = seq![' ', '['] + other_id + seq![']'] + other_rest;
            assert(title =~= name + seq![':'] + after);
            assert(other =~= other_name + seq![':'] + other_after);
            lemma_cut_is_unique(name, after, other_name, other_after, ':');
            assert(id + seq![']'] + rest =~= after.skip(2));
            assert(other_id + seq![']'] + other_rest =~= other_after.skip(2));
            lemma_cut_is_unique(id, rest, other_id, other_rest, ']');
            assert(message =~= rest.skip(1));
            assert(other_message =~= other_rest.skip(1));
        },
        (Some(name), None) => {
            assert(other[0] == '[');
            if name.len() > 0 {
                assert(title[0] == name[0]);
                assert(name.contains(name[0]));
            } else {
                assert(title[0] == ':');
            }
        },
        (None, Some(other_name)) => {
            assert(title[0] == '[');
            if other_name.len() > 0 {
                assert(other[0] == other_name[0]);
                assert(other_name.contains(other_name[0]));
            } else {
                assert(other[0] == ':');
            }
        },
    }
}

/// The length of a title: that of its parts and of what stands between
/// them.
pub proof fn lemma_title_len(root: Option<Seq<char>>, id: Seq<char>, message: Seq<char>)
    ensures
        Advisory::title_of(root, id, message).len() == id.len() + message.len() + match root {
            Some(name) => name.len() + 5,
            None => 3,
        },
{
}

/// A change to one part changes the title, whatever characters the parts
/// hold: two advisories that agree in two of progenitor, id and message and
/// have one title agree in the third as well.
pub proof fn lemma_one_part_changes_title(
    root: Option<Seq<char>>,
    id: Seq<char>,
    message: Seq<char>,
    other_root: Option<Seq<char>>,
    other_id: Seq<char>,
    other_message: Seq<char>,
)
    requires
        Advisory::title_of(root, id, message) == Advisory::title_of(
            other_root,
            other_id,
            other_message,
        ),
        (root == other_root && id == other_id) || (root == other_root && message == other_message)
            || (id == other_id && message == other_message),
    ensures
        root == other_root,
        id == other_id,
        message == other_message,
{
    let title = Advisory::title_of(root, id, message);
    let other = Advisory::title_of(other_root, other_id, other_message);
    lemma_title_len(root, id, message);
    lemma_title_len(other_root, other_id, other_message);
    let lead: int = match root {
        Some(name) => name.len() as int + 3,
        None => 1,
    };
    if root == other_root && id == other_id {
        assert(message =~= title.skip(lead + id.len() + 2));
        assert(other_message =~= other.skip(lead + id.len() + 2));
    } else if root == other_root && message == other_message {
        assert(id.len() == other_id.len());
        assert(id =~= title.subrange(lead as int, lead + id.len()));
        assert(other_id =~= other.subrange(lead as int, lead + id.len()));
    } else {
        match (root, other_root) {
            (Some(name), Some(other_name)) => {
                assert(name.len() == other_name.len());
                assert(name =~= title.take(name.len() as int));
                assert(other_name =~= other.take(name.len() as int));
            },
            _ => {},
        }
    }
}

} // verus!
