//! The routing tree: path patterns on the way in, handlers and captured text on
//! the way out.

use vstd::prelude::*;
use vstd::slice::slice_subrange;
use vstd::string::StringExecFns;

use crate::error::Error;
use crate::fields::{
    distinct_names, lemma_position, lemma_position_is, lemma_position_none, lemma_stored_all,
    position, stored_all, TextMap,
};
use crate::text::{all_within, chars_of, cut, pieces, same_text, slice_text, split, Span};
use crate::trusted::{pattern_captures, pattern_compiles, regex_captures, regex_compiles};

verus! {

/// The text that the pattern segments of a matched route captured, by the name
/// of the capture group.
pub type Context = TextMap;

/// The handler of a route.
#[derive(Clone, Copy, Debug, PartialEq, Eq, Structural)]
pub enum RouteHandler {
    Home,
    Echo,
    UserAgent,
    Files,
}

/// The routing tree as a value: what a node answers with when the path ends at
/// it, its children for literal segments, and its children for pattern segments
/// in the order in which they are tried.
pub struct Tree {
    pub endpoint: Option<RouteHandler>,
    pub statics: Seq<(Seq<char>, Tree)>,
    pub patterns: Seq<(Seq<char>, Tree)>,
}

/// The texts of `parts`.
pub open spec fn texts(parts: Seq<&str>) -> Seq<Seq<char>> {
    Seq::new(parts.len(), |i: int| parts[i]@)
}

/// The parts of `parts` that are not empty.
pub open spec fn nonempty(parts: Seq<Seq<char>>) -> Seq<Seq<char>>
    decreases parts.len(),
{
    if parts.len() == 0 {
        Seq::empty()
    } else if parts.last().len() > 0 {
        nonempty(parts.drop_last()).push(parts.last())
    } else {
        nonempty(parts.drop_last())
    }
}

/// The segments of `path`: what stands between its slashes, without the empty
/// parts.
pub open spec fn segments_of(path: Seq<char>) -> Seq<Seq<char>> {
    nonempty(pieces(path, '/'))
}

/// The groups of `groups` that have a name and took part in the match, each
/// with the text that it matched.
pub open spec fn named_groups(groups: Seq<(Option<Seq<char>>, Option<Seq<char>>)>) -> Seq<
    (Seq<char>, Seq<char>),
>
    decreases groups.len(),
{
    if groups.len() == 0 {
        Seq::empty()
    } else {
        match groups.last() {
            (Some(name), Some(text)) => named_groups(groups.drop_last()).push((name, text)),
            _ => named_groups(groups.drop_last()),
        }
    }
}

/// Whether `segment` is a pattern segment: a regular expression in braces.
pub open spec fn is_pattern(segment: Seq<char>) -> bool {
    segment.len() >= 2 && segment[0] == '{' && segment.last() == '}'
}

/// The regular expression of a pattern segment: what stands between its braces.
pub open spec fn pattern_of(segment: Seq<char>) -> Seq<char> {
    segment.subrange(1, segment.len() - 1)
}

/// The children `children` after the route that goes on with `rest` to `handler`
/// is added below the child `key`, which is made at the end if it is new.
pub open spec fn grafted(
    children: Seq<(Seq<char>, Tree)>,
    key: Seq<char>,
    rest: Seq<Seq<char>>,
    handler: RouteHandler,
) -> Seq<(Seq<char>, Tree)>
    decreases rest.len(), 1nat,
{
    match position(children, key) {
        Some(i) => {
            if 0 <= i < children.len() {
                children.update(i, (key, children[i].1.planted(rest, handler)))
            } else {
                children
            }
        },
        None => children.push((key, Tree::empty().planted(rest, handler))),
    }
}

/// Whether every pattern segment of `segments` is a regular expression.
pub open spec fn compiles(segments: Seq<Seq<char>>) -> bool {
    forall|i: int|
        0 <= i < segments.len() && is_pattern(#[trigger] segments[i]) ==> regex_compiles(
            pattern_of(segments[i]),
        )
}

impl Tree {
    /// The tree without routes.
    pub open spec fn empty() -> Tree {
        Tree { endpoint: None, statics: Seq::empty(), patterns: Seq::empty() }
    }

    /// Whether the tree holds no broken pattern: the key of every pattern child,
    /// here and below, is a regular expression.
    pub open spec fn sound(self) -> bool
        decreases self,
    {
        &&& forall|i: int| 0 <= i < self.statics.len() ==> (#[trigger] self.statics[i]).1.sound()
        &&& forall|i: int|
            0 <= i < self.patterns.len() ==> regex_compiles((#[trigger] self.patterns[i]).0)
                && self.patterns[i].1.sound()
    }

    /// The tree after the route `segments` to `handler` is added at this node.
    ///
    /// A route without segments sets the node's endpoint, replacing an earlier
    /// one. Otherwise the route goes on below the child for its first segment:
    /// a pattern child, keyed by the regular expression, if the segment is a
    /// pattern, and a literal child if not.
    pub open spec fn planted(self, segments: Seq<Seq<char>>, handler: RouteHandler) -> Tree
        decreases segments.len(), 0nat,
    {
        if segments.len() == 0 {
            Tree { endpoint: Some(handler), statics: self.statics, patterns: self.patterns }
        } else if is_pattern(segments[0]) {
            Tree {
                endpoint: self.endpoint,
                statics: self.statics,
                patterns: grafted(
                    self.patterns,
                    pattern_of(segments[0]),
                    segments.skip(1),
                    handler,
                ),
            }
        } else {
            Tree {
                endpoint: self.endpoint,
                statics: grafted(self.statics, segments[0], segments.skip(1), handler),
                patterns: self.patterns,
            }
        }
    }

    /// The handler that the path `segments` leads to from this node, with what
    /// the pattern segments on the way captured: first what was captured below,
    /// then what was captured here.
    ///
    /// A path that ends here leads to the node's endpoint. Otherwise the child
    /// for the first segment as a literal decides alone, if there is one. If
    /// there is none, the pattern children are tried in order: the first whose
    /// pattern matches the segment and whose subtree leads somewhere decides.
    pub open spec fn found(self, segments: Seq<Seq<char>>) -> Option<
        (RouteHandler, Seq<(Seq<char>, Seq<char>)>),
    >
        decreases segments.len(), self.patterns.len() + 1,
    {
        if segments.len() == 0 {
            match self.endpoint {
                Some(handler) => Some((handler, Seq::empty())),
                None => None,
            }
        } else {
            match position(self.statics, segments[0]) {
                Some(i) => {
                    if 0 <= i < self.statics.len() {
                        self.statics[i].1.found(segments.skip(1))
                    } else {
                        None
                    }
                },
                None => found_by_pattern(self.patterns, segments),
            }
        }
    }
}

/// The handler that the path `segments`, which is not empty, leads to through
/// the first of the pattern children `patterns` that matches its first segment
/// and whose subtree leads somewhere from there.
pub open spec fn found_by_pattern(
    patterns: Seq<(Seq<char>, Tree)>,
    segments: Seq<Seq<char>>,
) -> Option<(RouteHandler, Seq<(Seq<char>, Seq<char>)>)>
    decreases segments.len(), patterns.len(),
{
    if patterns.len() == 0 || segments.len() == 0 {
        None
    } else {
        let rest = found_by_pattern(patterns.skip(1), segments);
        match regex_captures(patterns[0].0, segments[0]) {
            Some(groups) => match patterns[0].1.found(segments.skip(1)) {
                Some((handler, below)) => Some((handler, below + named_groups(groups))),
                None => rest,
            },
            None => rest,
        }
    }
}

/// Adding a route whose pattern segments are regular expressions to a tree
/// that holds no broken pattern gives a tree that holds none.
pub proof fn lemma_planted_route_is_sound(
    tree: Tree,
    segments: Seq<Seq<char>>,
    handler: RouteHandler,
)
    requires
        tree.sound(),
        compiles(segments),
    ensures
        tree.planted(segments, handler).sound(),
    decreases segments.len(),
{
    if segments.len() > 0 {
        let first = segments[0];
        let rest = segments.skip(1);
        assert forall|i: int| 0 <= i < rest.len() && is_pattern(#[trigger] rest[i]) implies
            regex_compiles(pattern_of(rest[i])) by {
            assert(rest[i] == segments[i + 1]);
        }
        let children = if is_pattern(first) {
            tree.patterns
        } else {
            tree.statics
        };
        let key = if is_pattern(first) {
            pattern_of(first)
        } else {
            first
        };
        let after = grafted(children, key, rest, handler);
        lemma_position(children, key);
        match position(children, key) {
            Some(i) => {
                lemma_planted_route_is_sound(children[i].1, rest, handler);
                assert forall|j: int| 0 <= j < after.len() implies (#[trigger] after[j]).1.sound()
                    && (is_pattern(first) ==> regex_compiles(after[j].0)) by {
                    if j != i {
                        assert(after[j] == children[j]);
                    }
                }
            },
            None => {
                lemma_planted_route_is_sound(Tree::empty(), rest, handler);
                assert forall|j: int| 0 <= j < after.len() implies (#[trigger] after[j]).1.sound()
                    && (is_pattern(first) ==> regex_compiles(after[j].0)) by {
                    if j < children.len() {
                        assert(after[j] == children[j]);
                    }
                }
            },
        }
    }
}

/// A route of literal segments leads to its handler once it is added, whatever
/// the tree held before: literal children are found before any pattern is
/// tried.
pub proof fn lemma_planted_route_is_found(
    tree: Tree,
    segments: Seq<Seq<char>>,
    handler: RouteHandler,
)
    requires
        forall|i: int| 0 <= i < segments.len() ==> !is_pattern(#[trigger] segments[i]),
    ensures
        tree.planted(segments, handler).found(segments) == Some(
            (handler, Seq::<(Seq<char>, Seq<char>)>::empty()),
        ),
    decreases segments.len(),
{
    if segments.len() > 0 {
        let key = segments[0];
        let rest = segments.skip(1);
        assert forall|i: int| 0 <= i < rest.len() implies !is_pattern(#[trigger] rest[i]) by {}
        let children = grafted(tree.statics, key, rest, handler);
        lemma_position(tree.statics, key);
        match position(tree.statics, key) {
            Some(i) => {
                lemma_position_is(children, key, i);
                lemma_planted_route_is_found(tree.statics[i].1, rest, handler);
            },
            None => {
                assert forall|j: int| 0 <= j < tree.statics.len() implies (#[trigger] children[j]).0
                    != key by {}
                lemma_position_is(children, key, tree.statics.len() as int);
                lemma_planted_route_is_found(Tree::empty(), rest, handler);
            },
        }
    }
}

/// Where a node has a child for the first segment of a path as a literal, that
/// child decides where the path leads: no pattern is tried, neither before nor
/// after.
pub proof fn lemma_literal_child_decides(tree: Tree, segments: Seq<Seq<char>>, i: int)
    requires
        segments.len() > 0,
        position(tree.statics, segments[0]) == Some(i),
    ensures
        0 <= i < tree.statics.len(),
        tree.statics[i].0 == segments[0],
        tree.found(segments) == tree.statics[i].1.found(segments.skip(1)),
{
    lemma_position(tree.statics, segments[0]);
}

/// A tree without pattern segments: neither this node nor any node below it
/// has a pattern child.
pub open spec fn literal(tree: Tree) -> bool
    decreases tree,
{
    tree.patterns.len() == 0 && forall|i: int|
        0 <= i < tree.statics.len() ==> literal(#[trigger] tree.statics[i].1)
}

/// An empty tree leads nowhere.
pub proof fn lemma_empty_tree_finds_nothing(segments: Seq<Seq<char>>)
    ensures
        Tree::empty().found(segments) is None,
{
    if segments.len() > 0 {
        lemma_position_none(Tree::empty().statics, segments[0]);
        assert(found_by_pattern(Tree::empty().patterns, segments) is None);
    }
}

/// Adding a route of literal segments to a tree without pattern segments gives
/// a tree without pattern segments, in which every other path leads where it
/// led before.
pub proof fn lemma_planted_route_keeps_others(
    tree: Tree,
    segments: Seq<Seq<char>>,
    handler: RouteHandler,
    path: Seq<Seq<char>>,
)
    requires
        literal(tree),
        forall|i: int| 0 <= i < segments.len() ==> !is_pattern(#[trigger] segments[i]),
    ensures
        literal(tree.planted(segments, handler)),
        path != segments ==> tree.planted(segments, handler).found(path) == tree.found(path),
    decreases segments.len(),
{
    if segments.len() == 0 {
        if path.len() == 0 {
            assert(path =~= segments);
        }
    } else {
        let key = segments[0];
        let rest = segments.skip(1);
        assert forall|i: int| 0 <= i < rest.len() implies !is_pattern(#[trigger] rest[i]) by {}
        let children = grafted(tree.statics, key, rest, handler);
        lemma_position(tree.statics, key);
        let at = match position(tree.statics, key) {
            Some(i) => i,
            None => tree.statics.len() as int,
        };
        let child = match position(tree.statics, key) {
            Some(i) => tree.statics[i].1,
            None => Tree::empty(),
        };
        assert forall|j: int| 0 <= j < children.len() && j != at implies #[trigger] children[j]
            == tree.statics[j] by {}
        lemma_position_is(children, key, at);
        assert forall|j: int| 0 <= j < children.len() implies literal(
            #[trigger] children[j].1,
        ) by {
            if j == at {
                lemma_planted_route_keeps_others(child, rest, handler, rest);
            }
        }
        if path.len() > 0 && path != segments {
            let first = path[0];
            let tail = path.skip(1);
            assert(found_by_pattern(tree.patterns, path) is None);
            if first == key {
                if tail == rest {
                    assert forall|i: int| 0 <= i < path.len() implies path[i] == segments[i] by {
                        if i > 0 {
                            assert(path[i] == tail[i - 1]);
                        }
                    }
                    assert(path =~= segments);
                }
                lemma_planted_route_keeps_others(child, rest, handler, tail);
                lemma_empty_tree_finds_nothing(tail);
            } else {
                lemma_position(tree.statics, first);
                match position(tree.statics, first) {
                    Some(j) => {
                        lemma_position_is(children, first, j);
                    },
                    None => {
                        lemma_position_none(children, first);
                    },
                }
            }
        }
    }
}

/// A node of the routing tree.
#[derive(Debug)]
pub struct Node {
    endpoint: Option<RouteHandler>,
    static_paths: Vec<(String, Node)>,
    pattern_paths: Vec<(String, Node)>,
}

impl Node {
    /// The node as a value.
    pub closed spec fn view(&self) -> Tree
        decreases self,
    {
        Tree {
            endpoint: self.endpoint,
            statics: Seq::new(
                self.static_paths@.len(),
                |i: int|
                    if 0 <= i < self.static_paths@.len() {
                        (self.static_paths@[i].0@, self.static_paths@[i].1.view())
                    } else {
                        (Seq::empty(), Tree::empty())
                    },
            ),
            patterns: Seq::new(
                self.pattern_paths@.len(),
                |i: int|
                    if 0 <= i < self.pattern_paths@.len() {
                        (self.pattern_paths@[i].0@, self.pattern_paths@[i].1.view())
                    } else {
                        (Seq::empty(), Tree::empty())
                    },
            ),
        }
    }

    /// A node without endpoint and without children.
    pub fn new() -> (r: Node)
        ensures
            r@ == Tree::empty(),
    {
        let r = Node { endpoint: None, static_paths: Vec::new(), pattern_paths: Vec::new() };
        assert(r@.statics =~= Seq::empty());
        r
    }

    /// The view of a node is made of the views of its children.
    proof fn lemma_view(&self)
        ensures
            self@.endpoint == self.endpoint,
            self@.statics == branches(self.static_paths@),
            self@.patterns == branches(self.pattern_paths@),
    {
    }

    /// Finds the handler that the path `sections` leads to from this node, and
    /// stores in `context` what the pattern segments on the way captured. A path
    /// that leads nowhere leaves `context` as it was.
    pub fn get(&self, sections: &[&str], context: &mut Context) -> (r: Option<RouteHandler>)
        ensures
            match r {
                Some(handler) => self@.found(texts(sections@)) matches Some((h, captured))
                    && h == handler && final(context)@ == stored_all(old(context)@, captured),
                None => self@.found(texts(sections@)) is None && final(context)@ == old(
                    context,
                )@,
            },
            distinct_names(old(context)@) ==> distinct_names(final(context)@),
        decreases sections.len(),
    {
        proof {
            self.lemma_view();
        }
        if sections.len() == 0 {
            return self.endpoint;
        }
        let ghost segments = texts(sections@);
        let first = sections[0];
        let rest = slice_subrange(sections, 1, sections.len());
        assert(texts(rest@) =~= segments.skip(1));
        match find_child(&self.static_paths, first) {
            Some(i) => {
                return self.static_paths[i].1.get(rest, context);
            },
            None => {},
        }
        let ghost patterns = self@.patterns;
        let mut k: usize = 0;
        assert(patterns.skip(0) =~= patterns);
        while k < self.pattern_paths.len()
            invariant
                k <= self.pattern_paths@.len(),
                sections@.len() > 0,
                segments == texts(sections@),
                segments[0] == first@,
                rest@.len() < sections@.len(),
                texts(rest@) == segments.skip(1),
                patterns == branches(self.pattern_paths@),
                self@.found(segments) == found_by_pattern(patterns, segments),
                found_by_pattern(patterns, segments) == found_by_pattern(
                    patterns.skip(k as int),
                    segments,
                ),
                context@ == old(context)@,
            decreases self.pattern_paths@.len() - k,
        {
            let ghost here = patterns.skip(k as int);
            assert(here.skip(1) =~= patterns.skip(k + 1));
            match pattern_captures(self.pattern_paths[k].0.as_str(), first) {
                Some(groups) => {
                    match self.pattern_paths[k].1.get(rest, context) {
                        Some(handler) => {
                            proof {
                                let below = match here[0].1.found(segments.skip(1)) {
                                    Some((_, captured)) => captured,
                                    None => Seq::empty(),
                                };
                                lemma_stored_all(
                                    old(context)@,
                                    below,
                                    named_groups(groups.deep_view()),
                                );
                            }
                            store_groups(context, &groups);
                            return Some(handler);
                        },
                        None => {},
                    }
                },
                None => {},
            }
            k += 1;
        }
        None
    }

    /// Adds the route `sections` to `handler` at this node. Every pattern
    /// segment of the route must be a regular expression, so that no broken
    /// pattern gets into a tree.
    pub fn apply(&mut self, sections: &[&str], handler: RouteHandler)
        requires
            compiles(texts(sections@)),
        ensures
            final(self)@ == old(self)@.planted(texts(sections@), handler),
            old(self)@.sound() ==> final(self)@.sound(),
        decreases sections.len(), 0nat,
    {
        proof {
            if self@.sound() {
                lemma_planted_route_is_sound(self@, texts(sections@), handler);
            }
        }
        proof {
            self.lemma_view();
        }
        if sections.len() == 0 {
            self.endpoint = Some(handler);
            proof {
                self.lemma_view();
            }
            return ;
        }
        let ghost segments = texts(sections@);
        let first = sections[0];
        let rest = slice_subrange(sections, 1, sections.len());
        assert(texts(rest@) =~= segments.skip(1));
        assert forall|i: int|
            0 <= i < texts(rest@).len() && is_pattern(#[trigger] texts(rest@)[i]) implies
            regex_compiles(pattern_of(texts(rest@)[i])) by {
            assert(texts(rest@)[i] == segments[i + 1]);
        }
        match pattern_in(first) {
            Some(pattern) => {
                graft(&mut self.pattern_paths, pattern, rest, handler);
            },
            None => {
                graft(&mut self.static_paths, first, rest, handler);
            },
        }
        proof {
            self.lemma_view();
        }
    }
}

/// Copies the children `children`.
fn clone_children(children: &Vec<(String, Node)>) -> (out: Vec<(String, Node)>)
    ensures
        branches(out@) == branches(children@),
    decreases children, 0nat,
{
    let mut out: Vec<(String, Node)> = Vec::new();
    let mut i: usize = 0;
    while i < children.len()
        invariant
            i <= children@.len(),
            out@.len() == i,
            forall|j: int| 0 <= j < i ==> (#[trigger] branches(out@)[j]) == branches(children@)[j],
        decreases children@.len() - i,
    {
        let ghost before = out@;
        let key = children[i].0.clone();
        let child = children[i].1.clone();
        out.push((key, child));
        proof {
            assert forall|j: int| 0 <= j < i + 1 implies (#[trigger] branches(out@)[j])
                == branches(children@)[j] by {
                if j < i {
                    assert(branches(before)[j] == branches(children@)[j]);
                }
            }
        }
        i += 1;
    }
    out
}

impl Clone for Node {
    fn clone(&self) -> (r: Node)
        ensures
            r@ == self@,
        decreases self, 1nat,
    {
        let r = Node {
            endpoint: self.endpoint,
            static_paths: clone_children(&self.static_paths),
            pattern_paths: clone_children(&self.pattern_paths),
        };
        proof {
            self.lemma_view();
            r.lemma_view();
        }
        r
    }
}

impl Clone for Router {
    fn clone(&self) -> (r: Router)
        ensures
            r@ == self@,
    {
        Router { root: self.root.clone() }
    }
}

/// The children `children` as values.
spec fn branches(children: Seq<(String, Node)>) -> Seq<(Seq<char>, Tree)> {
    Seq::new(children.len(), |i: int| (children[i].0@, children[i].1@))
}

/// Finds the child that is keyed by `key`.
fn find_child(children: &Vec<(String, Node)>, key: &str) -> (r: Option<usize>)
    ensures
        match r {
            Some(i) => position(branches(children@), key@) == Some(i as int) && i
                < children@.len(),
            None => position(branches(children@), key@) is None,
        },
{
    let mut i: usize = 0;
    while i < children.len()
        invariant
            i <= children@.len(),
            forall|j: int| 0 <= j < i ==> (#[trigger] branches(children@)[j]).0 != key@,
        decreases children@.len() - i,
    {
        if same_text(children[i].0.as_str(), key) {
            proof {
                lemma_position_is(branches(children@), key@, i as int);
            }
            return Some(i);
        }
        i += 1;
    }
    proof {
        lemma_position_none(branches(children@), key@);
    }
    None
}

/// Adds the route that goes on with `rest` to `handler` below the child `key` of
/// `children`.
fn graft(children: &mut Vec<(String, Node)>, key: &str, rest: &[&str], handler: RouteHandler)
    requires
        compiles(texts(rest@)),
    ensures
        branches(final(children)@) == grafted(
            branches(old(children)@),
            key@,
            texts(rest@),
            handler,
        ),
    decreases rest.len(), 1nat,
{
    match find_child(children, key) {
        Some(i) => {
            let ghost before = children@;
            proof {
                lemma_position(branches(before), key@);
            }
            let child = &mut children[i];
            child.1.apply(rest, handler);
        },
        None => {
            let mut child = Node::new();
            child.apply(rest, handler);
            children.push((String::from_str(key), child));
        },
    }
}

/// The regular expression of `segment`, if it is a pattern segment.
fn pattern_in(segment: &str) -> (r: Option<&str>)
    ensures
        match r {
            Some(pattern) => is_pattern(segment@) && pattern@ == pattern_of(segment@),
            None => !is_pattern(segment@),
        },
{
    let chars = chars_of(segment);
    let length = chars.len();
    if length >= 2 && chars[0] == '{' && chars[length - 1] == '}' {
        Some(slice_text(segment, Span { start: 1, end: length - 1 }))
    } else {
        None
    }
}

/// Stores in `context` what the groups of a match captured. `groups` holds, for
/// every group of the pattern, its name, if it has one, and the text that it
/// matched, if it took part in the match; only a group with both is stored. A
/// later group replaces an earlier one of the same name.
pub fn store_groups(context: &mut Context, groups: &Vec<(Option<String>, Option<String>)>)
    ensures
        final(context)@ == stored_all(old(context)@, named_groups(groups.deep_view())),
        distinct_names(old(context)@) ==> distinct_names(final(context)@),
{
    let ghost all = groups.deep_view();
    let mut k: usize = 0;
    while k < groups.len()
        invariant
            k <= groups@.len(),
            all == groups.deep_view(),
            all.len() == groups@.len(),
            context@ == stored_all(old(context)@, named_groups(all.take(k as int))),
            distinct_names(old(context)@) ==> distinct_names(context@),
        decreases groups@.len() - k,
    {
        let ghost done = named_groups(all.take(k as int));
        proof {
            let next = all.take(k + 1);
            assert(next.drop_last() =~= all.take(k as int));
        }
        match (&groups[k].0, &groups[k].1) {
            (Some(name), Some(text)) => {
                context.insert(name.clone(), text.clone());
                proof {
                    let pair = (name@, text@);
                    assert(done.push(pair).drop_last() =~= done);
                }
            },
            _ => {},
        }
        k += 1;
    }
    assert(all.take(k as int) =~= all);
}

/// Whether every pattern segment of every route of `routes` is a regular
/// expression.
pub open spec fn all_compile(routes: Seq<(&str, RouteHandler)>) -> bool {
    forall|k: int| 0 <= k < routes.len() ==> compiles(segments_of((#[trigger] routes[k]).0@))
}

/// The tree `tree` after the routes of `routes` are added in order.
pub open spec fn grown(tree: Tree, routes: Seq<(&str, RouteHandler)>) -> Tree
    decreases routes.len(),
{
    if routes.len() == 0 {
        tree
    } else {
        grown(tree, routes.drop_last()).planted(segments_of(routes.last().0@), routes.last().1)
    }
}

/// The last route of a table leads to its handler if its segments are literals.
pub proof fn lemma_last_route_is_found(tree: Tree, routes: Seq<(&str, RouteHandler)>)
    requires
        routes.len() > 0,
        forall|i: int|
            0 <= i < segments_of(routes.last().0@).len() ==> !is_pattern(
                #[trigger] segments_of(routes.last().0@)[i],
            ),
    ensures
        grown(tree, routes).found(segments_of(routes.last().0@)) == Some(
            (routes.last().1, Seq::<(Seq<char>, Seq<char>)>::empty()),
        ),
{
    lemma_planted_route_is_found(
        grown(tree, routes.drop_last()),
        segments_of(routes.last().0@),
        routes.last().1,
    );
}

/// The handler of the last route of `routes` whose segments are `path`.
pub open spec fn last_route(routes: Seq<(&str, RouteHandler)>, path: Seq<Seq<char>>) -> Option<
    RouteHandler,
>
    decreases routes.len(),
{
    if routes.len() == 0 {
        None
    } else if segments_of(routes.last().0@) == path {
        Some(routes.last().1)
    } else {
        last_route(routes.drop_last(), path)
    }
}

/// Whether no route of `routes` has a pattern segment.
pub open spec fn literal_table(routes: Seq<(&str, RouteHandler)>) -> bool {
    forall|k: int, i: int|
        0 <= k < routes.len() && 0 <= i < segments_of(routes[k].0@).len() ==> !is_pattern(
            #[trigger] segments_of(routes[k].0@)[i],
        )
}

/// The tree of a route table without pattern segments is a map from paths to
/// handlers: a path leads to the handler of the last route that has its
/// segments, and nowhere if no route has them.
pub proof fn lemma_literal_table_is_a_map(
    routes: Seq<(&str, RouteHandler)>,
    path: Seq<Seq<char>>,
)
    requires
        literal_table(routes),
    ensures
        literal(grown(Tree::empty(), routes)),
        grown(Tree::empty(), routes).found(path) == match last_route(routes, path) {
            Some(handler) => Some((handler, Seq::<(Seq<char>, Seq<char>)>::empty())),
            None => None,
        },
    decreases routes.len(),
{
    if routes.len() == 0 {
        lemma_empty_tree_finds_nothing(path);
    } else {
        let before = routes.drop_last();
        let segments = segments_of(routes.last().0@);
        assert forall|k: int, i: int|
            0 <= k < before.len() && 0 <= i < segments_of(before[k].0@).len() implies !is_pattern(
            #[trigger] segments_of(before[k].0@)[i],
        ) by {}
        lemma_literal_table_is_a_map(before, path);
        let tree = grown(Tree::empty(), before);
        assert forall|i: int| 0 <= i < segments.len() implies !is_pattern(
            #[trigger] segments[i],
        ) by {}
        lemma_planted_route_keeps_others(tree, segments, routes.last().1, path);
        lemma_planted_route_is_found(tree, segments, routes.last().1);
    }
}

/// Splits `path` into its segments.
pub fn segments(path: &str) -> (out: Vec<&str>)
    ensures
        texts(out@) == segments_of(path@),
{
    let chars = chars_of(path);
    let spans = split(chars.as_slice(), '/');
    let ghost parts = pieces(path@, '/');
    let mut out: Vec<&str> = Vec::new();
    let mut k: usize = 0;
    while k < spans.len()
        invariant
            k <= spans@.len(),
            chars@ == path@,
            parts == cut(chars@, spans@),
            all_within(spans@, chars@.len()),
            texts(out@) == nonempty(parts.take(k as int)),
        decreases spans@.len() - k,
    {
        let span = spans[k];
        proof {
            let next = parts.take(k + 1);
            assert(next.drop_last() =~= parts.take(k as int));
        }
        if span.start < span.end {
            out.push(slice_text(path, span));
        }
        k += 1;
    }
    assert(parts.take(k as int) =~= parts);
    out
}

/// Whether every pattern segment of `sections` is a regular expression.
fn check_patterns(sections: &Vec<&str>) -> (r: bool)
    ensures
        r == compiles(texts(sections@)),
{
    let mut i: usize = 0;
    while i < sections.len()
        invariant
            i <= sections@.len(),
            forall|j: int|
                0 <= j < i && is_pattern(#[trigger] texts(sections@)[j]) ==> regex_compiles(
                    pattern_of(texts(sections@)[j]),
                ),
        decreases sections@.len() - i,
    {
        assert(texts(sections@)[i as int] == sections@[i as int]@);
        match pattern_in(sections[i]) {
            Some(pattern) => {
                if !pattern_compiles(pattern) {
                    return false;
                }
            },
            None => {},
        }
        i += 1;
    }
    true
}

/// The routing tree of a server.
#[derive(Debug)]
pub struct Router {
    root: Node,
}

impl Router {
    /// The router as a value.
    pub closed spec fn view(&self) -> Tree {
        self.root@
    }

    /// Builds the routing tree of the route table `routes`, adding its routes in
    /// order. A route is a path whose segments are literals or, in braces,
    /// regular expressions, and the handler it leads to.
    ///
    /// Fails with `InvalidPattern` if a pattern segment is no regular
    /// expression: no router is built that holds a broken pattern.
    pub fn build(routes: &[(&str, RouteHandler)]) -> (r: Result<Router, Error>)
        ensures
            match r {
                Ok(router) => all_compile(routes@) && router@ == grown(Tree::empty(), routes@)
                    && router@.sound(),
                Err(e) => e == Error::InvalidPattern && !all_compile(routes@),
            },
    {
        let mut root = Node::new();
        let mut k: usize = 0;
        while k < routes.len()
            invariant
                k <= routes@.len(),
                all_compile(routes@.take(k as int)),
                root@ == grown(Tree::empty(), routes@.take(k as int)),
                root@.sound(),
            decreases routes@.len() - k,
        {
            let (path, handler) = routes[k];
            let sections = segments(path);
            if !check_patterns(&sections) {
                return Err(Error::InvalidPattern);
            }
            root.apply(sections.as_slice(), handler);
            proof {
                let next = routes@.take(k + 1);
                assert(next.drop_last() =~= routes@.take(k as int));
                assert forall|j: int| 0 <= j < next.len() implies compiles(
                    segments_of((#[trigger] next[j]).0@),
                ) by {}
            }
            k += 1;
        }
        assert(routes@.take(k as int) =~= routes@);
        Ok(Router { root })
    }

    /// Finds the handler that the path `uri` leads to, and what the pattern
    /// segments on the way captured.
    pub fn get(&self, uri: &str) -> (r: Option<(RouteHandler, Context)>)
        ensures
            match r {
                Some((handler, context)) => self@.found(segments_of(uri@)) matches Some(
                    (h, captured),
                ) && h == handler && context@ == stored_all(Seq::empty(), captured)
                    && distinct_names(context@),
                None => self@.found(segments_of(uri@)) is None,
            },
    {
        let sections = segments(uri);
        let mut context = Context::new();
        match self.root.get(sections.as_slice(), &mut context) {
            Some(handler) => Some((handler, context)),
            None => None,
        }
    }
}

} // verus!
