//! The document tree: the source files of a site, in the order in which they are read.
//!
//! The order is depth first, each directory's entries in the order in which they were added,
//! and only files are handed out. Sections, equations and figures are numbered in this order.

use crate::build::compile::{
    clock_error, compile_page, get_footer, is_footer, page_compiled, with_page,
};
use crate::build::file_queue::{FileQueue, QueueView, with_file};
use crate::build::refs::{RefMap, Tables, file_scanned, no_tables};
use crate::root::Root;
use crate::text::{
    chars_of, concat2, ends_with, has_suffix, push_range, skip_chars, skip_of, texts,
};
use vstd::prelude::*;
use vstd::string::*;

verus! {

broadcast use vstd::string::group_string_axioms;

/// A directory or a file of the source tree, as plain values.
pub struct Tree {
    pub name: Seq<char>,
    pub children: Seq<Tree>,
    pub is_leaf: bool,
}

/// Whether no file of `tree` has entries below it.
pub open spec fn well_formed(tree: Tree) -> bool
    decreases tree,
{
    &&& tree.is_leaf ==> tree.children.len() == 0
    &&& forall|i: int| 0 <= i < tree.children.len() ==> well_formed(#[trigger] tree.children[i])
}

/// The paths of the files of `tree`, each behind `prefix`, in reading order. A directory with
/// nothing in it has none.
pub open spec fn leaf_paths(tree: Tree, prefix: Seq<char>) -> Seq<Seq<char>>
    decreases tree,
{
    if tree.children.len() == 0 {
        if tree.is_leaf {
            seq![prefix + tree.name]
        } else {
            Seq::empty()
        }
    } else {
        paths_of(tree.children, prefix + tree.name + "/"@)
    }
}

/// The paths of the files of `trees`, one tree after the other.
pub open spec fn paths_of(trees: Seq<Tree>, prefix: Seq<char>) -> Seq<Seq<char>>
    decreases trees,
{
    if trees.len() == 0 {
        Seq::empty()
    } else {
        leaf_paths(trees[0], prefix) + paths_of(trees.subrange(1, trees.len() as int), prefix)
    }
}

/// The number of steps that reading `tree` takes.
pub open spec fn steps(tree: Tree) -> nat
    decreases tree,
{
    if tree.children.len() == 0 {
        1
    } else {
        2 + steps_of(tree.children)
    }
}

/// The number of steps that reading `trees` takes.
pub open spec fn steps_of(trees: Seq<Tree>) -> nat
    decreases trees,
{
    if trees.len() == 0 {
        0
    } else {
        steps(trees[0]) + steps_of(trees.subrange(1, trees.len() as int))
    }
}

/// A directory that is being read: its entries, how many of them were read, and the text that
/// stands before the name of each.
pub struct Level {
    pub children: Seq<Tree>,
    pub next: int,
    pub prefix: Seq<char>,
}

/// The paths that are still to come from the directories `levels`, the innermost last.
pub open spec fn paths_left(levels: Seq<Level>) -> Seq<Seq<char>>
    decreases levels.len(),
{
    if levels.len() == 0 {
        Seq::empty()
    } else {
        let top = levels.last();
        paths_of(top.children.subrange(top.next, top.children.len() as int), top.prefix)
            + paths_left(levels.drop_last())
    }
}

/// The number of steps that are still to come from the directories `levels`.
pub open spec fn steps_left(levels: Seq<Level>) -> nat
    decreases levels.len(),
{
    if levels.len() == 0 {
        0
    } else {
        let top = levels.last();
        1 + steps_of(top.children.subrange(top.next, top.children.len() as int)) + steps_left(
            levels.drop_last(),
        )
    }
}

/// The paths of the entries from the `i`th on: those of the `i`th, then those of the rest.
pub proof fn lemma_paths_from(trees: Seq<Tree>, i: int, prefix: Seq<char>)
    requires
        0 <= i <= trees.len(),
    ensures
        i < trees.len() ==> paths_of(trees.subrange(i, trees.len() as int), prefix) == leaf_paths(
            trees[i],
            prefix,
        ) + paths_of(trees.subrange(i + 1, trees.len() as int), prefix),
        i < trees.len() ==> steps_of(trees.subrange(i, trees.len() as int)) == steps(trees[i])
            + steps_of(trees.subrange(i + 1, trees.len() as int)),
        i == trees.len() ==> paths_of(trees.subrange(i, trees.len() as int), prefix)
            == Seq::<Seq<char>>::empty(),
        i == trees.len() ==> steps_of(trees.subrange(i, trees.len() as int)) == 0,
{
    let tail = trees.subrange(i, trees.len() as int);
    if i < trees.len() {
        assert(tail[0] == trees[i]);
        assert(tail.subrange(1, tail.len() as int) == trees.subrange(i + 1, trees.len() as int));
    }
}

/// What is left to read with one more directory opened.
pub proof fn lemma_left_push(levels: Seq<Level>, top: Level)
    ensures
        paths_left(levels.push(top)) == paths_of(
            top.children.subrange(top.next, top.children.len() as int),
            top.prefix,
        ) + paths_left(levels),
        steps_left(levels.push(top)) == 1 + steps_of(
            top.children.subrange(top.next, top.children.len() as int),
        ) + steps_left(levels),
{
    assert(levels.push(top).drop_last() == levels);
}

/// The files of the entries `x` come before those of the entries `y` that follow them.
pub proof fn law_entries_in_order(x: Seq<Tree>, y: Seq<Tree>, prefix: Seq<char>)
    ensures
        paths_of(x + y, prefix) == paths_of(x, prefix) + paths_of(y, prefix),
    decreases x.len(),
{
    if x.len() == 0 {
        assert(x + y == y);
        assert(paths_of(x, prefix) + paths_of(y, prefix) == paths_of(y, prefix));
    } else {
        let rest = x.subrange(1, x.len() as int);
        assert((x + y)[0] == x[0]);
        assert((x + y).subrange(1, (x + y).len() as int) == rest + y);
        law_entries_in_order(rest, y, prefix);
        assert(leaf_paths(x[0], prefix) + (paths_of(rest, prefix) + paths_of(y, prefix)) == (
        leaf_paths(x[0], prefix) + paths_of(rest, prefix)) + paths_of(y, prefix));
    }
}

/// An entry that is added to a directory is read last: its files come behind those that the
/// directory had.
pub proof fn law_added_entry_is_last(tree: Tree, child: Tree, prefix: Seq<char>)
    requires
        !tree.is_leaf,
    ensures
        leaf_paths(Tree { children: tree.children.push(child), ..tree }, prefix) == leaf_paths(
            tree,
            prefix,
        ) + leaf_paths(child, prefix + tree.name + "/"@),
{
    let inner = prefix + tree.name + "/"@;
    let one = seq![child];
    assert(tree.children.push(child) == tree.children + one);
    law_entries_in_order(tree.children, one, inner);
    assert(one.subrange(1, one.len() as int) == Seq::<Tree>::empty());
    assert(paths_of(Seq::<Tree>::empty(), inner) == Seq::<Seq<char>>::empty());
    assert(paths_of(one, inner) == leaf_paths(child, inner) + Seq::<Seq<char>>::empty());
    assert(leaf_paths(child, inner) + Seq::<Seq<char>>::empty() == leaf_paths(child, inner));
    if tree.children.len() == 0 {
        assert(paths_of(tree.children, inner) == Seq::<Seq<char>>::empty());
        assert(Seq::<Seq<char>>::empty() + leaf_paths(child, inner) == leaf_paths(child, inner));
    }
}

/// How an entry of a source directory enters the tree.
#[derive(Clone, Copy, Debug, PartialEq, Eq, Structural)]
pub struct Entry {
    /// The entry is a source file.
    pub leaf: bool,
    /// The entry is a directory to read.
    pub dir: bool,
}

/// Whether a directory of this name is left out of the tree.
pub open spec fn is_reserved(name: Seq<char>) -> bool {
    name == ".git"@ || name == "html"@ || name == ".wikid"@
}

/// Whether a file of this name is a source file: it has the extension `md`.
pub open spec fn is_source(name: Seq<char>) -> bool {
    has_suffix(name, ".md"@) && name.len() > 3
}

/// A directory or a file of the source tree.
#[derive(Debug)]
pub struct Node {
    children: Vec<Node>,
    name: String,
    is_leaf: bool,
}

/// The plain value of a node.
spec fn tree_of(node: Node) -> Tree
    decreases node,
{
    Tree {
        name: node.name@,
        children: Seq::new(
            node.children@.len(),
            |i: int|
                if 0 <= i < node.children@.len() {
                    tree_of(node.children@[i])
                } else {
                    arbitrary()
                },
        ),
        is_leaf: node.is_leaf,
    }
}

impl View for Node {
    type V = Tree;

    closed spec fn view(&self) -> Tree {
        tree_of(*self)
    }
}

struct Frame<'a> {
    node: &'a Node,
    next: usize,
    prefix: String,
}

impl<'a> Frame<'a> {
    spec fn level(&self) -> Level {
        Level { children: self.node@.children, next: self.next as int, prefix: self.prefix@ }
    }
}

spec fn levels(stack: Seq<Frame>) -> Seq<Level> {
    Seq::new(stack.len(), |i: int| stack[i].level())
}

/// A walk over the files of a tree, which hands out one path at a time.
pub struct TreeIter<'a> {
    pending: Option<String>,
    stack: Vec<Frame<'a>>,
}

impl<'a> TreeIter<'a> {
    /// The walk keeps count of what it has read.
    pub closed spec fn wf(&self) -> bool {
        forall|i: int|
            0 <= i < self.stack@.len() ==> (#[trigger] self.stack@[i]).next
                <= self.stack@[i].node@.children.len()
    }

    /// The paths that the walk has still to hand out, in order.
    pub closed spec fn remaining(&self) -> Seq<Seq<char>> {
        (match self.pending {
            Some(p) => seq![p@],
            None => Seq::empty(),
        }) + paths_left(levels(self.stack@))
    }

    spec fn work(&self) -> nat {
        steps_left(levels(self.stack@))
    }

    /// A walk over the files of `root_node`, from the first.
    pub fn new(root_node: &'a Node) -> (res: Self)
        ensures
            res.wf(),
            res.remaining() == leaf_paths(root_node@, Seq::empty()),
    {
        proof {
            root_node.lemma_view();
        }
        let mut stack: Vec<Frame<'a>> = Vec::new();
        if root_node.children.len() == 0 {
            let pending = if root_node.is_leaf {
                Some(root_node.name.clone())
            } else {
                None
            };
            let res = TreeIter { pending, stack };
            assert(levels(res.stack@) =~= Seq::empty());
            assert(Seq::<char>::empty() + root_node.name@ == root_node.name@);
            return res;
        }
        let mut prefix = root_node.name.clone();
        prefix.append("/");
        let frame = Frame { node: root_node, next: 0, prefix };
        let ghost top = frame.level();
        stack.push(frame);
        let res = TreeIter { pending: None, stack };
        proof {
            assert(levels(res.stack@) =~= Seq::<Level>::empty().push(top));
            lemma_left_push(Seq::empty(), top);
            assert(top.children.subrange(0, top.children.len() as int) == top.children);
            assert(Seq::<char>::empty() + root_node.name@ + "/"@ == root_node.name@ + "/"@);
        }
        res
    }

    /// Hands out the next path, or `None` when the walk is over.
    pub fn next(&mut self) -> (res: Option<String>)
        requires
            old(self).wf(),
        ensures
            final(self).wf(),
            match res {
                Some(path) => old(self).remaining().len() > 0 && path@ == old(self).remaining()[0]
                    && final(self).remaining() == old(self).remaining().subrange(
                    1,
                    old(self).remaining().len() as int,
                ),
                None => old(self).remaining().len() == 0 && final(self).remaining().len() == 0,
            },
    {
        if self.pending.is_some() {
            let path = self.pending.take();
            assert(self.remaining() =~= old(self).remaining().subrange(
                1,
                old(self).remaining().len() as int,
            ));
            return path;
        }
        loop
            invariant
                self.wf(),
                self.pending is None,
                self.remaining() == old(self).remaining(),
            decreases self.work(),
        {
            if self.stack.len() == 0 {
                assert(levels(self.stack@) =~= Seq::empty());
                return None;
            }
            let ghost before = levels(self.stack@);
            let mut frame = self.stack.pop().unwrap();
            let ghost below = levels(self.stack@);
            let ghost was = frame.level();
            let ghost kids = frame.node@.children;
            let ghost at = frame.next as int;
            proof {
                assert(before =~= below.push(was));
                lemma_left_push(below, was);
                lemma_paths_from(kids, at, frame.prefix@);
                frame.node.lemma_view();
            }
            if frame.next < frame.node.children.len() {
                let child: &'a Node = &frame.node.children[frame.next];
                proof {
                    child.lemma_view();
                    assert(kids[at] == child@);
                }
                frame.next += 1;
                let ghost upper = frame.level();
                proof {
                    lemma_left_push(below, upper);
                }
                if child.children.len() == 0 {
                    if child.is_leaf {
                        let mut path = frame.prefix.clone();
                        path.append(child.name.as_str());
                        self.stack.push(frame);
                        proof {
                            assert(levels(self.stack@) =~= below.push(upper));
                            assert(self.remaining() =~= old(self).remaining().subrange(
                                1,
                                old(self).remaining().len() as int,
                            ));
                        }
                        return Some(path);
                    }
                    self.stack.push(frame);
                    proof {
                        assert(levels(self.stack@) =~= below.push(upper));
                        assert(self.remaining() =~= old(self).remaining());
                    }
                } else {
                    let mut prefix = frame.prefix.clone();
                    prefix.append(child.name.as_str());
                    prefix.append("/");
                    self.stack.push(frame);
                    let inner = Frame { node: child, next: 0, prefix };
                    let ghost lower = inner.level();
                    self.stack.push(inner);
                    proof {
                        assert(levels(self.stack@) =~= below.push(upper).push(lower));
                        lemma_left_push(below.push(upper), lower);
                        assert(lower.children.subrange(0, lower.children.len() as int)
                            == lower.children);
                        assert(self.remaining() =~= old(self).remaining());
                    }
                }
            } else {
                proof {
                    assert(self.remaining() =~= old(self).remaining());
                }
            }
        }
    }
}

impl Node {
    /// What the view of a node is made of.
    proof fn lemma_view(&self)
        ensures
            self@.name == self.name@,
            self@.is_leaf == self.is_leaf,
            self@.children.len() == self.children@.len(),
            forall|i: int|
                0 <= i < self.children@.len() ==> #[trigger] self@.children[i]
                    == self.children@[i]@,
    {
    }

    /// The root of a tree: the directory `.`, with nothing in it.
    pub fn new() -> (res: Node)
        ensures
            res@ == (Tree { name: "."@, children: Seq::empty(), is_leaf: false }),
            well_formed(res@),
    {
        let res = Node { children: Vec::new(), name: ".".to_owned(), is_leaf: false };
        proof {
            res.lemma_view();
        }
        assert(res@.children =~= Seq::empty());
        res
    }

    /// A node with nothing below it: a file where `is_leaf`, else a directory.
    pub fn new_node(name: String, is_leaf: bool) -> (res: Node)
        ensures
            res@ == (Tree { name: name@, children: Seq::empty(), is_leaf }),
            well_formed(res@),
    {
        let res = Node { children: Vec::new(), name, is_leaf };
        proof {
            res.lemma_view();
        }
        assert(res@.children =~= Seq::empty());
        res
    }

    /// Adds `child` as the last entry of this directory. A file takes no entries: it stays as it
    /// is, and the result is false.
    pub fn push_child(&mut self, child: Node) -> (res: bool)
        ensures
            res == !old(self)@.is_leaf,
            final(self)@ == if res {
                Tree { children: old(self)@.children.push(child@), ..old(self)@ }
            } else {
                old(self)@
            },
            well_formed(old(self)@) && well_formed(child@) ==> well_formed(final(self)@),
    {
        if self.is_leaf {
            return false;
        }
        self.children.push(child);
        proof {
            self.lemma_view();
            old(self).lemma_view();
        }
        assert(self@.children =~= old(self)@.children.push(child@));
        proof {
            if well_formed(old(self)@) && well_formed(child@) {
                assert forall|i: int| 0 <= i < self@.children.len() implies well_formed(
                    #[trigger] self@.children[i],
                ) by {
                    if i < old(self)@.children.len() {
                        assert(self@.children[i] == old(self)@.children[i]);
                    }
                }
            }
        }
        true
    }

    /// How the directory entry `name` enters the tree: a file with the extension `md` is a
    /// source file, a directory is read, but for the reserved ones.
    pub fn entry(name: &str, is_dir: bool) -> (res: Entry)
        ensures
            res.leaf == (!is_reserved(name@) && is_source(name@)),
            res.dir == (!is_reserved(name@) && is_dir),
    {
        let chars = chars_of(name);
        let reserved = same_text(name, ".git") || same_text(name, "html") || same_text(
            name,
            ".wikid",
        );
        if reserved {
            return Entry { leaf: false, dir: false };
        }
        Entry { leaf: ends_with(&chars, ".md") && chars.len() > 3, dir: is_dir }
    }

    /// A walk over the files of the tree.
    pub fn iter<'a>(&'a self) -> (res: TreeIter<'a>)
        ensures
            res.wf(),
            res.remaining() == leaf_paths(self@, Seq::empty()),
    {
        TreeIter::new(self)
    }

    /// The paths of the files of the tree, in reading order.
    pub fn paths(&self) -> (res: Vec<String>)
        ensures
            crate::text::texts(res@) == leaf_paths(self@, Seq::empty()),
    {
        let mut out: Vec<String> = Vec::new();
        let mut walk = self.iter();
        let ghost all = leaf_paths(self@, Seq::empty());
        assert(crate::text::texts(out@) =~= Seq::empty());
        loop
            invariant
                walk.wf(),
                all == leaf_paths(self@, Seq::empty()),
                crate::text::texts(out@) + walk.remaining() == all,
            decreases walk.remaining().len(),
        {
            match walk.next() {
                Some(path) => {
                    proof {
                        crate::text::lemma_texts_push(out@, path);
                    }
                    out.push(path);
                    assert(crate::text::texts(out@) + walk.remaining() =~= all);
                },
                None => {
                    assert(crate::text::texts(out@) + walk.remaining() =~= crate::text::texts(
                        out@,
                    ));
                    return out;
                },
            }
        }
    }

    /// The number of files of the tree, or the largest number where it is too large for one.
    pub fn size(&self) -> (res: usize)
        ensures
            res == if leaf_paths(self@, Seq::empty()).len() <= usize::MAX {
                leaf_paths(self@, Seq::empty()).len()
            } else {
                usize::MAX as nat
            },
    {
        let mut i: usize = 0;
        let mut walk = self.iter();
        let ghost all = leaf_paths(self@, Seq::empty());
        loop
            invariant
                walk.wf(),
                all == leaf_paths(self@, Seq::empty()),
                i < usize::MAX ==> i + walk.remaining().len() == all.len(),
                i == usize::MAX ==> all.len() >= usize::MAX,
            decreases walk.remaining().len(),
        {
            match walk.next() {
                Some(_) => {
                    if i < usize::MAX {
                        i += 1;
                    }
                },
                None => {
                    return i;
                },
            }
        }
    }
}

fn same_text(a: &str, b: &str) -> (res: bool)
    ensures
        res == (a@ == b@),
{
    let x = a.to_owned();
    let y = b.to_owned();
    x == y
}

/// A source file that was read: its path from the site's directory, and its lines.
#[derive(Debug)]
pub struct SourceFile {
    pub path: String,
    pub lines: Vec<String>,
}

/// The lines of the first of `sources` with the path `path`.
pub open spec fn source_lines(sources: Seq<SourceFile>, path: Seq<char>) -> Option<
    Seq<Seq<char>>,
>
    decreases sources.len(),
{
    if sources.len() == 0 {
        None
    } else if sources[0].path@ == path {
        Some(texts(sources[0].lines@))
    } else {
        source_lines(sources.subrange(1, sources.len() as int), path)
    }
}

/// Finds `source_lines(sources, path)`.
pub fn find_source<'a>(sources: &'a Vec<SourceFile>, path: &String) -> (res: Option<
    &'a Vec<String>,
>)
    ensures
        match res {
            Some(lines) => source_lines(sources@, path@) == Some(texts(lines@)),
            None => source_lines(sources@, path@) is None,
        },
{
    let mut i: usize = 0;
    assert(sources@.subrange(0, sources@.len() as int) == sources@);
    while i < sources.len()
        invariant
            i <= sources.len(),
            source_lines(sources@, path@) == source_lines(
                sources@.subrange(i as int, sources@.len() as int),
                path@,
            ),
        decreases sources.len() - i,
    {
        let ghost tail = sources@.subrange(i as int, sources@.len() as int);
        assert(tail[0] == sources@[i as int]);
        assert(tail.subrange(1, tail.len() as int) == sources@.subrange(
            i + 1,
            sources@.len() as int,
        ));
        if sources[i].path == *path {
            return Some(&sources[i].lines);
        }
        i += 1;
    }
    None
}

/// The path of the source file that the tree hands out as `path`: under `text/`, without the
/// root's `./`.
pub open spec fn source_path(path: Seq<char>) -> Seq<char> {
    "text/"@ + skip_chars(path, 2)
}

/// The message for a file of the tree that was not read.
pub open spec fn missing_source(root: Root, path: Seq<char>, pass: Seq<char>) -> Seq<char> {
    "Compile tree was corrupted in "@ + pass + ": path "@ + root.path(source_path(path))
}

/// The tables after the files `paths` were scanned, one after the other, up to the first
/// error.
pub open spec fn refs_fold(
    tables: Tables,
    paths: Seq<Seq<char>>,
    sources: Seq<SourceFile>,
    root: Root,
    public: bool,
) -> (Tables, Option<Seq<char>>)
    decreases paths.len(),
{
    if paths.len() == 0 {
        (tables, None)
    } else {
        let (before, error) = refs_fold(tables, paths.drop_last(), sources, root, public);
        if error is None {
            match source_lines(sources, source_path(paths.last())) {
                Some(lines) => file_scanned(before, source_path(paths.last()), lines, root, public),
                None => (before, Some(missing_source(root, paths.last(), "refs"@))),
            }
        } else {
            (before, error)
        }
    }
}

pub proof fn lemma_refs_fold_stops(
    tables: Tables,
    paths: Seq<Seq<char>>,
    k: int,
    sources: Seq<SourceFile>,
    root: Root,
    public: bool,
)
    requires
        0 <= k <= paths.len(),
        refs_fold(tables, paths.take(k), sources, root, public).1 is Some,
    ensures
        refs_fold(tables, paths, sources, root, public) == refs_fold(
            tables,
            paths.take(k),
            sources,
            root,
            public,
        ),
    decreases paths.len() - k,
{
    if k < paths.len() {
        assert(paths.take(k + 1).drop_last() == paths.take(k));
        lemma_refs_fold_stops(tables, paths, k + 1, sources, root, public);
    } else {
        assert(paths.take(k) == paths);
    }
}

/// The name of the page of the file that the tree hands out as `path`: the path without the
/// root's `./` and with `html` for `md`; a table of contents, `_toc.md`, becomes `index.html`.
/// `None` where the path is too short to be one of a source file.
pub open spec fn page_name(path: Seq<char>) -> Option<Seq<char>> {
    if has_suffix(path, "_toc.md"@) {
        if path.len() >= 9 {
            Some(path.subrange(2, path.len() - 7) + "index.html"@)
        } else {
            None
        }
    } else if path.len() >= 5 {
        Some(path.subrange(2, path.len() - 3) + ".html"@)
    } else {
        None
    }
}

/// The queue after the files `paths` were rendered, one after the other, up to the first error.
pub open spec fn pages_fold(
    queue: QueueView,
    paths: Seq<Seq<char>>,
    sources: Seq<SourceFile>,
    files: Seq<Seq<char>>,
    root: Root,
    refs: Tables,
    public: bool,
    footer: Seq<char>,
) -> (QueueView, Option<Seq<char>>)
    decreases paths.len(),
{
    if paths.len() == 0 {
        (queue, None)
    } else {
        let (before, error) = pages_fold(
            queue,
            paths.drop_last(),
            sources,
            files,
            root,
            refs,
            public,
            footer,
        );
        let path = paths.last();
        if error is Some {
            (before, error)
        } else if page_name(path) is None || source_lines(sources, source_path(path)) is None {
            (before, Some(missing_source(root, path, "main"@)))
        } else {
            match page_compiled(
                root,
                source_path(path),
                source_lines(sources, source_path(path))->0,
                files,
                refs,
                public,
                footer,
            ) {
                Ok((page, text)) => (
                    QueueView {
                        files: with_file(before.files, page_name(path)->0, text),
                        ..with_page(before, page)
                    },
                    None,
                ),
                Err(e) => (before, Some(e)),
            }
        }
    }
}

pub proof fn lemma_pages_fold_stops(
    queue: QueueView,
    paths: Seq<Seq<char>>,
    k: int,
    sources: Seq<SourceFile>,
    files: Seq<Seq<char>>,
    root: Root,
    refs: Tables,
    public: bool,
    footer: Seq<char>,
)
    requires
        0 <= k <= paths.len(),
        pages_fold(queue, paths.take(k), sources, files, root, refs, public, footer).1 is Some,
    ensures
        pages_fold(queue, paths, sources, files, root, refs, public, footer) == pages_fold(
            queue,
            paths.take(k),
            sources,
            files,
            root,
            refs,
            public,
            footer,
        ),
    decreases paths.len() - k,
{
    if k < paths.len() {
        assert(paths.take(k + 1).drop_last() == paths.take(k));
        lemma_pages_fold_stops(queue, paths, k + 1, sources, files, root, refs, public, footer);
    } else {
        assert(paths.take(k) == paths);
    }
}

/// Computes `source_path(path)`.
pub fn source_path_of(path: &str) -> (res: String)
    ensures
        res@ == source_path(path@),
{
    local_path_of(&chars_of(path))
}

fn local_path_of(path: &Vec<char>) -> (res: String)
    ensures
        res@ == source_path(path@),
{
    let mut local = String::new();
    local.append("text/");
    local.append(skip_of(path, 2).as_str());
    local
}

fn page_name_of(path: &Vec<char>) -> (res: Option<String>)
    ensures
        match res {
            Some(name) => page_name(path@) == Some(name@),
            None => page_name(path@) is None,
        },
{
    let mut out = String::new();
    if ends_with(path, "_toc.md") {
        if path.len() < 9 {
            return None;
        }
        push_range(&mut out, path, 2, path.len() - 7);
        out.append("index.html");
    } else {
        if path.len() < 5 {
            return None;
        }
        push_range(&mut out, path, 2, path.len() - 3);
        out.append(".html");
    }
    Some(out)
}

fn missing(root: &Root, local: &str, pass: &str) -> (res: String)
    ensures
        res@ == "Compile tree was corrupted in "@ + pass@ + ": path "@ + root.path(local@),
{
    let mut e = String::new();
    e.append("Compile tree was corrupted in ");
    e.append(pass);
    e.append(": path ");
    e.append(root.get_path_from_local(local).as_str());
    e
}

impl Node {
    /// Scans every file of the tree, in reading order, into a new reference map. `sources` are
    /// the files as they were read. The scan ends at the first error.
    pub fn ref_map(&self, root: &Root, sources: &Vec<SourceFile>, public: bool) -> (res: Result<
        RefMap,
        String,
    >)
        ensures
            match res {
                Ok(map) => map.is_public() == public && refs_fold(
                    no_tables(),
                    leaf_paths(self@, Seq::empty()),
                    sources@,
                    *root,
                    public,
                ) == (map@, None::<Seq<char>>),
                Err(e) => refs_fold(
                    no_tables(),
                    leaf_paths(self@, Seq::empty()),
                    sources@,
                    *root,
                    public,
                ).1 == Some(e@),
            },
    {
        let mut ref_map = RefMap::new(public);
        let paths = self.paths();
        let ghost all = texts(paths@);
        assert(all.take(0) == Seq::<Seq<char>>::empty());
        let mut k: usize = 0;
        while k < paths.len()
            invariant
                k <= paths.len(),
                all == texts(paths@),
                all == leaf_paths(self@, Seq::empty()),
                ref_map.is_public() == public,
                refs_fold(no_tables(), all.take(k as int), sources@, *root, public) == (
                    ref_map@,
                    None::<Seq<char>>,
                ),
            decreases paths.len() - k,
        {
            proof {
                assert(all.take(k + 1).drop_last() == all.take(k as int));
                assert(all.take(k + 1).last() == paths@[k as int]@);
            }
            let path = chars_of(paths[k].as_str());
            let local = local_path_of(&path);
            let failed = match find_source(sources, &local) {
                Some(lines) => ref_map.add_file(root, local.as_str(), lines),
                None => Err(missing(root, local.as_str(), "refs")),
            };
            match failed {
                Ok(_) => {},
                Err(e) => {
                    proof {
                        lemma_refs_fold_stops(no_tables(), all, k + 1, sources@, *root, public);
                    }
                    return Err(e);
                },
            }
            k += 1;
        }
        assert(all.take(all.len() as int) == all);
        Ok(ref_map)
    }

    /// Renders every file of the tree, in reading order, and queues each page under its name.
    /// `sources` are the files as they were read, `files` the paths of the files that are on
    /// disk. The pages are dated today. The work ends at the first error. Where the system
    /// clock gives no date, nothing is rendered and the queue stays as it is.
    pub fn compile(
        &self,
        root: &Root,
        sources: &Vec<SourceFile>,
        files: &Vec<String>,
        file_queue: &mut FileQueue,
        ref_map: &RefMap,
        public: bool,
    ) -> (res: Result<(), String>)
        ensures
            (res matches Err(e) && e@ == clock_error() && final(file_queue)@ == old(file_queue)@)
                || exists|footer: Seq<char>|
                is_footer(*root, footer) && final(file_queue)@ == (#[trigger] pages_fold(
                    old(file_queue)@,
                    leaf_paths(self@, Seq::empty()),
                    sources@,
                    texts(files@),
                    *root,
                    ref_map@,
                    public,
                    footer,
                )).0 && match res {
                    Ok(_) => pages_fold(
                        old(file_queue)@,
                        leaf_paths(self@, Seq::empty()),
                        sources@,
                        texts(files@),
                        *root,
                        ref_map@,
                        public,
                        footer,
                    ).1 is None,
                    Err(e) => pages_fold(
                        old(file_queue)@,
                        leaf_paths(self@, Seq::empty()),
                        sources@,
                        texts(files@),
                        *root,
                        ref_map@,
                        public,
                        footer,
                    ).1 == Some(e@),
                },
    {
        let footer = match get_footer(root) {
            Ok(footer) => footer,
            Err(e) => {
                return Err(e);
            },
        };
        let paths = self.paths();
        let ghost all = texts(paths@);
        let ghost start = file_queue@;
        assert(all.take(0) == Seq::<Seq<char>>::empty());
        let mut k: usize = 0;
        while k < paths.len()
            invariant
                k <= paths.len(),
                all == texts(paths@),
                all == leaf_paths(self@, Seq::empty()),
                is_footer(*root, footer@),
                start == old(file_queue)@,
                pages_fold(
                    start,
                    all.take(k as int),
                    sources@,
                    texts(files@),
                    *root,
                    ref_map@,
                    public,
                    footer@,
                ) == (file_queue@, None::<Seq<char>>),
            decreases paths.len() - k,
        {
            proof {
                assert(all.take(k + 1).drop_last() == all.take(k as int));
                assert(all.take(k + 1).last() == paths@[k as int]@);
            }
            let path = chars_of(paths[k].as_str());
            let local = local_path_of(&path);
            let made = match (page_name_of(&path), find_source(sources, &local)) {
                (Some(name), Some(lines)) => {
                    match compile_page(
                        root,
                        local.as_str(),
                        lines,
                        files,
                        file_queue,
                        ref_map,
                        public,
                        footer.as_str(),
                    ) {
                        Ok(text) => {
                            file_queue.add(name, text);
                            Ok(())
                        },
                        Err(e) => Err(e),
                    }
                },
                _ => Err(missing(root, local.as_str(), "main")),
            };
            match made {
                Ok(_) => {},
                Err(e) => {
                    proof {
                        lemma_pages_fold_stops(
                            start,
                            all,
                            k + 1,
                            sources@,
                            texts(files@),
                            *root,
                            ref_map@,
                            public,
                            footer@,
                        );
                    }
                    return Err(e);
                },
            }
            k += 1;
        }
        assert(all.take(all.len() as int) == all);
        Ok(())
    }
}

} // verus!
