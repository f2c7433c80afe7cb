use wikid::build::compile_tree::{
    find_source, source_path_of, Entry, Node, SourceFile, TreeIter,
};
use wikid::build::file_queue::FileQueue;
use wikid::root::Root;

fn site() -> Root {
    Root::new("Notes".to_owned(), "/site".to_owned(), "1".to_owned(), "2".to_owned())
}

fn dir(name: &str, children: Vec<Node>) -> Node {
    let mut node = Node::new_node(name.to_owned(), false);
    for child in children {
        assert!(node.push_child(child));
    }
    node
}

fn file(name: &str) -> Node {
    Node::new_node(name.to_owned(), true)
}

fn tree() -> Node {
    let mut root = Node::new();
    for child in [
        file("_toc.md"),
        dir("phys", vec![file("waves.md"), dir("deep", vec![file("x.md")]), file("_toc.md")]),
        dir("empty", vec![]),
        dir("math", vec![dir("none", vec![]), file("sets.md")]),
        file("last.md"),
    ] {
        assert!(root.push_child(child));
    }
    root
}

fn source(path: &str, text: &str) -> SourceFile {
    SourceFile { path: path.to_owned(), lines: text.lines().map(|l| l.to_owned()).collect() }
}

#[test]
fn files_come_depth_first_in_the_order_of_the_entries() {
    assert_eq!(
        tree().paths(),
        vec![
            "./_toc.md",
            "./phys/waves.md",
            "./phys/deep/x.md",
            "./phys/_toc.md",
            "./math/sets.md",
            "./last.md"
        ]
    );
}

#[test]
fn walk_hands_out_one_path_at_a_time() {
    let tree = tree();
    let mut walk = TreeIter::new(&tree);
    assert_eq!(walk.next(), Some("./_toc.md".to_owned()));
    assert_eq!(walk.next(), Some("./phys/waves.md".to_owned()));
    let mut rest = Vec::new();
    while let Some(path) = walk.next() {
        rest.push(path);
    }
    assert_eq!(rest, vec!["./phys/deep/x.md", "./phys/_toc.md", "./math/sets.md", "./last.md"]);
    assert_eq!(walk.next(), None);
    assert_eq!(walk.next(), None);
}

#[test]
fn two_walks_give_the_same_order() {
    let tree = tree();
    assert_eq!(tree.paths(), tree.paths());
    let mut a = tree.iter();
    let mut b = tree.iter();
    loop {
        let x = a.next();
        assert_eq!(x, b.next());
        if x.is_none() {
            break;
        }
    }
}

#[test]
fn size_counts_the_files() {
    assert_eq!(tree().size(), 6);
    assert_eq!(Node::new().size(), 0);
    assert_eq!(file("a.md").size(), 1);
    assert_eq!(dir("d", vec![dir("e", vec![])]).size(), 0);
}

#[test]
fn root_alone() {
    assert!(Node::new().paths().is_empty());
    assert_eq!(file("only.md").paths(), vec!["only.md"]);
    let root = Node::new();
    assert_eq!(TreeIter::new(&root).next(), None);
}

#[test]
fn file_takes_no_entries() {
    let mut leaf = file("a.md");
    assert!(!leaf.push_child(file("b.md")));
    assert_eq!(leaf.paths(), vec!["a.md"]);
}

#[test]
fn entries_of_a_source_directory() {
    assert_eq!(Node::entry("waves.md", false), Entry { leaf: true, dir: false });
    assert_eq!(Node::entry("notes.txt", false), Entry { leaf: false, dir: false });
    assert_eq!(Node::entry("phys", true), Entry { leaf: false, dir: true });
    assert_eq!(Node::entry("old.md", true), Entry { leaf: true, dir: true });
    assert_eq!(Node::entry(".git", true), Entry { leaf: false, dir: false });
    assert_eq!(Node::entry("html", true), Entry { leaf: false, dir: false });
    assert_eq!(Node::entry(".wikid", true), Entry { leaf: false, dir: false });
    assert_eq!(Node::entry(".md", false), Entry { leaf: false, dir: false });
    assert_eq!(Node::entry("md", false), Entry { leaf: false, dir: false });
    assert_eq!(Node::entry("a.b.md", false), Entry { leaf: true, dir: false });
}

#[test]
fn source_is_found_by_its_path() {
    let sources = vec![source("text/a.md", "one"), source("text/b.md", "two"), source("text/a.md", "x")];
    assert_eq!(find_source(&sources, &"text/a.md".to_owned()), Some(&vec!["one".to_owned()]));
    assert_eq!(find_source(&sources, &"text/b.md".to_owned()), Some(&vec!["two".to_owned()]));
    assert_eq!(find_source(&sources, &"text/c.md".to_owned()), None);
}

fn small_site() -> (Node, Vec<SourceFile>) {
    let mut root = Node::new();
    root.push_child(file("_toc.md"));
    root.push_child(dir("phys", vec![file("waves.md")]));
    let sources = vec![
        source("text/_toc.md", "# Contents\n* [Waves]{phys/waves}\n* [The intro]{intro}\n"),
        source("text/phys/waves.md", "~intro\n## Intro\nSee []{_toc}.\n![Cap]{fig.png?50}\n"),
    ];
    (root, sources)
}

#[test]
fn reference_pass_reads_every_file_in_order() {
    let (tree, sources) = small_site();
    let refs = tree.ref_map(&site(), &sources, false).unwrap();
    assert_eq!(
        refs.get_link("_toc"),
        Some(("_toc.md".to_owned(), "file:///site/html/index%2ehtml".to_owned()))
    );
    assert_eq!(
        refs.get_link("intro"),
        Some((
            "Intro".to_owned(),
            "file:///site/html/phys/waves%2ehtml%2dsec%2d0%2d1%2d0%2d0%2d0%2d".to_owned()
        ))
    );
    assert!(!refs.public());
}

#[test]
fn reference_pass_fails_on_a_file_that_was_not_read() {
    let (tree, mut sources) = small_site();
    sources.pop();
    assert_eq!(
        tree.ref_map(&site(), &sources, false).err(),
        Some("Compile tree was corrupted in refs: path /site/text/phys/waves.md".to_owned())
    );
}

#[test]
fn render_pass_queues_a_page_for_each_file() {
    let (tree, sources) = small_site();
    let root = site();
    let refs = tree.ref_map(&root, &sources, false).unwrap();
    let mut queue = FileQueue::new();
    let files = vec!["/site/text/phys/fig.png".to_owned()];
    tree.compile(&root, &sources, &files, &mut queue, &refs, false).unwrap();
    assert_eq!(queue.size(), 2);
    let pages = queue.files();
    assert_eq!(pages[0].0, "index.html");
    assert_eq!(pages[1].0, "phys/waves.html");
    assert!(pages[0].1.contains("<h1>Contents</h1>\n<ul><li> <a href=file:///site/html/phys/waves%2ehtml>Waves</a></li>\n<li> <a href=file:///site/html/phys/waves%2ehtml%2dsec%2d0%2d1%2d0%2d0%2d0%2d>The intro</a></li>\n</ul></div><div id=\"footer\">\nCopyright &copy; "));
    assert!(pages[1].1.contains("<h2><a href=\"file:///site/html/index%2ehtml\">Home</a> > <a href=\"file:///site/html/phys/index%2ehtml\">phys</a></h2>\n<button class=\"collapsible\"><h2>Intro</h2></button><div class=\"section\">\n<p>See <a href=file:///site/html/index%2ehtml>_toc.md</a>.\n<center><a href=\"file:///site/html/phys/fig%2epng\">"));
    assert_eq!(
        queue.images(),
        &vec![("/site/text/phys/fig.png".to_owned(), "/site/html/phys/fig.png".to_owned())]
    );
}

#[test]
fn render_pass_stops_at_the_first_error() {
    let (tree, sources) = small_site();
    let root = site();
    let refs = tree.ref_map(&root, &sources, false).unwrap();
    let mut queue = FileQueue::new();
    assert_eq!(
        tree.compile(&root, &sources, &vec![], &mut queue, &refs, false),
        Err("File text/phys/waves.md line 4: Could not find image /site/text/phys/fig.png".to_owned())
    );
    assert_eq!(queue.size(), 1);
    assert!(queue.images().is_empty());
}

#[test]
fn render_pass_fails_on_a_path_that_is_no_source_file() {
    let mut tree = Node::new();
    tree.push_child(file("a"));
    let mut queue = FileQueue::new();
    let root = site();
    let refs = wikid::build::refs::RefMap::new(false);
    assert_eq!(
        tree.compile(&root, &vec![source("text/a", "x")], &vec![], &mut queue, &refs, false),
        Err("Compile tree was corrupted in main: path /site/text/a".to_owned())
    );
    assert_eq!(
        tree.ref_map(&root, &vec![source("text/a", "x")], false).err(),
        Some("Compile tree was corrupted in refs: path /site/text/a".to_owned())
    );
}

#[test]
fn source_path_is_under_text() {
    assert_eq!(source_path_of("./phys/waves.md"), "text/phys/waves.md");
    assert_eq!(source_path_of("./a.md"), "text/a.md");
    assert_eq!(source_path_of("x"), "text/");
}
