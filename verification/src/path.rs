//! Containment of file paths: whether a path, once resolved, stays inside a
//! root directory. Paths are text with `/` between their components; nothing
//! here touches a file system.

use vstd::prelude::*;

use crate::router::texts;
use crate::text::{all_within, chars_of, cut, pieces, same_text, slice_text, split};

verus! {

/// The components `stack` after the component `part` is followed: an empty
/// component and `.` lead nowhere, `..` leads one component up, but not above
/// the top, and any other component leads down into it.
pub open spec fn stepped(stack: Seq<Seq<char>>, part: Seq<char>) -> Seq<Seq<char>> {
    if part.len() == 0 || part == "."@ {
        stack
    } else if part == ".."@ {
        if stack.len() > 0 {
            stack.drop_last()
        } else {
            stack
        }
    } else {
        stack.push(part)
    }
}

/// The components `stack` after the components `parts` are followed in order.
pub open spec fn resolved(stack: Seq<Seq<char>>, parts: Seq<Seq<char>>) -> Seq<Seq<char>>
    decreases parts.len(),
{
    if parts.len() == 0 {
        stack
    } else {
        resolved(stepped(stack, parts[0]), parts.skip(1))
    }
}

/// Whether `path` starts at the top of the file system.
pub open spec fn is_absolute(path: Seq<char>) -> bool {
    path.len() > 0 && path[0] == '/'
}

/// The components of the directory `root`, resolved from the top.
pub open spec fn root_of(root: Seq<char>) -> Seq<Seq<char>> {
    resolved(Seq::empty(), pieces(root, '/'))
}

/// The components of `path`, resolved from the top if it is absolute and from
/// `root` if it is not.
pub open spec fn target_of(root: Seq<char>, path: Seq<char>) -> Seq<Seq<char>> {
    if is_absolute(path) {
        resolved(Seq::empty(), pieces(path, '/'))
    } else {
        resolved(root_of(root), pieces(path, '/'))
    }
}

/// Whether `path` stays inside the directory `root`: resolved, it is `root` or
/// lies below it.
pub open spec fn contained(root: Seq<char>, path: Seq<char>) -> bool {
    root_of(root).is_prefix_of(target_of(root, path))
}

/// A component that is a name: not empty, not `.` and not `..`.
pub open spec fn is_name(part: Seq<char>) -> bool {
    part.len() > 0 && part != "."@ && part != ".."@
}

/// Following names leads down through each of them.
pub proof fn lemma_names_lead_down(stack: Seq<Seq<char>>, parts: Seq<Seq<char>>)
    requires
        forall|i: int| 0 <= i < parts.len() ==> is_name(#[trigger] parts[i]),
    ensures
        resolved(stack, parts) == stack + parts,
    decreases parts.len(),
{
    if parts.len() > 0 {
        let rest = parts.skip(1);
        assert forall|i: int| 0 <= i < rest.len() implies is_name(#[trigger] rest[i]) by {}
        lemma_names_lead_down(stack.push(parts[0]), rest);
    }
}

/// A path that is made of names stays inside every root.
pub proof fn lemma_names_are_contained(root: Seq<char>, path: Seq<char>)
    requires
        forall|i: int|
            0 <= i < pieces(path, '/').len() ==> is_name(#[trigger] pieces(path, '/')[i]),
    ensures
        contained(root, path),
{
    let parts = pieces(path, '/');
    lemma_names_lead_down(root_of(root), parts);
    crate::text::lemma_occurrence(path, seq!['/']);
    if is_absolute(path) {
        crate::text::lemma_occurs_single(path, '/', 0);
    }
}

/// The parent directory lies outside every root but the top of the file
/// system.
pub proof fn lemma_parent_is_outside(root: Seq<char>)
    requires
        root_of(root).len() > 0,
    ensures
        !contained(root, ".."@),
{
    reveal_strlit("..");
    reveal_strlit(".");
    let path = ".."@;
    assert(!path.contains('/')) by {
        if path.contains('/') {
            let i = choose|i: int| 0 <= i < path.len() && path[i] == '/';
            assert(path[i] == '.');
        }
    }
    crate::text::lemma_pieces_one(path, '/');
    let parts = pieces(path, '/');
    let base = root_of(root);
    assert(resolved(base, parts) == resolved(base.drop_last(), parts.skip(1)));
}

/// Follows the components of `path` from `stack`.
fn resolve<'a>(stack: Vec<&'a str>, path: &'a str) -> (out: Vec<&'a str>)
    ensures
        texts(out@) == resolved(texts(stack@), pieces(path@, '/')),
{
    let mut out = stack;
    let chars = chars_of(path);
    let spans = split(chars.as_slice(), '/');
    let ghost parts = pieces(path@, '/');
    let ghost start = texts(stack@);
    let mut k: usize = 0;
    assert(parts.skip(0) =~= parts);
    while k < spans.len()
        invariant
            k <= spans@.len(),
            chars@ == path@,
            parts == pieces(path@, '/'),
            parts == cut(chars@, spans@),
            all_within(spans@, chars@.len()),
            resolved(start, parts) == resolved(texts(out@), parts.skip(k as int)),
        decreases spans@.len() - k,
    {
        let span = spans[k];
        let part = slice_text(path, span);
        let ghost before = texts(out@);
        proof {
            let rest = parts.skip(k as int);
            assert(rest.skip(1) =~= parts.skip(k + 1));
        }
        if span.start == span.end || same_text(part, ".") {
            // an empty component and `.` lead nowhere
        } else if same_text(part, "..") {
            if out.len() > 0 {
                out.pop();
                assert(texts(out@) =~= before.drop_last());
            }
        } else {
            out.push(part);
            assert(texts(out@) =~= before.push(part@));
        }
        k += 1;
    }
    out
}

/// Whether the components `prefix` are the first components of `whole`.
fn starts_with(whole: &Vec<&str>, prefix: &Vec<&str>) -> (r: bool)
    ensures
        r == texts(prefix@).is_prefix_of(texts(whole@)),
{
    if prefix.len() > whole.len() {
        return false;
    }
    let mut i: usize = 0;
    while i < prefix.len()
        invariant
            i <= prefix@.len() <= whole@.len(),
            forall|j: int| 0 <= j < i ==> texts(prefix@)[j] == texts(whole@)[j],
        decreases prefix@.len() - i,
    {
        if !same_text(prefix[i], whole[i]) {
            assert(texts(prefix@)[i as int] != texts(whole@)[i as int]);
            return false;
        }
        i += 1;
    }
    true
}

/// Whether `path` stays inside the directory `root`.
pub fn is_contained(root: &str, path: &str) -> (r: bool)
    ensures
        r == contained(root@, path@),
{
    let base = resolve(Vec::new(), root);
    assert(texts(Seq::<&str>::empty()) =~= Seq::empty());
    let chars = chars_of(path);
    let target = if chars.len() > 0 && chars[0] == '/' {
        resolve(Vec::new(), path)
    } else {
        let again = resolve(Vec::new(), root);
        resolve(again, path)
    };
    starts_with(&target, &base)
}

} // verus!
