use wikid::build::links::PossibleLink;
use wikid::build::refs::{advance_section, scan_line, trim_from, RefMap};
use wikid::build::compile::{parse_line, CommandTypes, ParseState};
use wikid::root::Root;

fn site() -> Root {
    Root::new("Notes".to_owned(), "/site".to_owned(), "1".to_owned(), "2".to_owned())
}

fn lines(text: &str) -> Vec<String> {
    text.lines().map(|l| l.to_owned()).collect()
}

fn scanned(path: &str, text: &str) -> RefMap {
    let mut refs = RefMap::new(false);
    refs.add_file(&site(), path, &lines(text)).unwrap();
    refs
}

#[test]
fn empty_map_knows_no_label() {
    let refs = RefMap::new(true);
    assert_eq!(refs.get_link("anything"), None);
    assert!(refs.public());
    assert!(refs.dropped().is_empty());
}

#[test]
fn section_counters_follow_the_header_levels() {
    let mut numbers = [0u32; 5];
    let mut seen = Vec::new();
    for level in [1u8, 2, 2, 3, 2] {
        advance_section(&mut numbers, level);
        seen.push(numbers);
    }
    assert_eq!(
        seen,
        vec![[1, 0, 0, 0, 0], [1, 1, 0, 0, 0], [1, 2, 0, 0, 0], [1, 2, 1, 0, 0], [1, 3, 0, 0, 0]]
    );
}

#[test]
fn deepest_level_and_skipped_levels() {
    let mut numbers = [4, 3, 2, 1, 7];
    advance_section(&mut numbers, 5);
    assert_eq!(numbers, [4, 3, 2, 1, 8]);
    advance_section(&mut numbers, 3);
    assert_eq!(numbers, [4, 3, 3, 0, 0]);
    advance_section(&mut numbers, 1);
    assert_eq!(numbers, [5, 0, 0, 0, 0]);
}

#[test]
fn file_is_registered_as_a_page() {
    let refs = scanned("text/phys/waves.md", "plain\n");
    assert_eq!(
        refs.get_link("phys/waves"),
        Some(("waves.md".to_owned(), "file:///site/html/phys/waves%2ehtml".to_owned()))
    );
    assert_eq!(refs.get_link("waves"), None);
}

#[test]
fn table_of_contents_becomes_the_index() {
    let refs = scanned("text/phys/_toc.md", "");
    assert_eq!(
        refs.get_link("phys/_toc"),
        Some(("_toc.md".to_owned(), "file:///site/html/phys/index%2ehtml".to_owned()))
    );
}

#[test]
fn public_links_start_with_the_public_url() {
    let mut root = site();
    root.public_url = "https://notes.example".to_owned();
    let mut refs = RefMap::new(true);
    refs.add_file(&root, "text/a b.md", &vec![]).unwrap();
    assert_eq!(
        refs.get_link("a b"),
        Some(("a b.md".to_owned(), "https://notes.example/html/a%20b%2ehtml".to_owned()))
    );
}

#[test]
fn label_names_the_section_that_follows() {
    let refs = scanned("text/phys/waves.md", "# Top\n~mylabel\n## Intro duction\ntext\n");
    assert_eq!(
        refs.get_link("mylabel"),
        Some((
            "Introduction".to_owned(),
            "file:///site/html/phys/waves%2ehtml%2dsec%2d1%2d1%2d0%2d0%2d0%2d".to_owned()
        ))
    );
}

#[test]
fn reference_to_a_labelled_section_resolves_in_a_line() {
    let root = site();
    let refs = scanned("text/a.md", "~mylabel\n# Intro\n");
    let mut state = ParseState::new("text/b.md", vec![]);
    assert_eq!(
        parse_line("[see]{mylabel}", &root, &refs, &mut state, false),
        Ok("<p><a href=file:///site/html/a%2ehtml%2dsec%2d1%2d0%2d0%2d0%2d0%2d>see</a>".to_owned())
    );
    assert_eq!(
        parse_line("[]{mylabel}", &root, &refs, &mut state, false),
        Ok("<a href=file:///site/html/a%2ehtml%2dsec%2d1%2d0%2d0%2d0%2d0%2d>Intro</a>".to_owned())
    );
    let mut link = PossibleLink::new();
    for c in "[]{mylabel}".chars() {
        link.try_add(c).unwrap();
    }
    assert!(link.make(&refs).unwrap().ends_with(">Intro</a>"));
}

#[test]
fn labels_name_equations_and_figures_by_their_number() {
    let refs = scanned(
        "text/m.md",
        "$$ a $$\n~second\n$$ b $$\n![one]{f.png}\n~fig\n![two]{g.png}\n~third\n$$ c $$\n",
    );
    assert_eq!(
        refs.get_link("second"),
        Some(("Eq. 2".to_owned(), "file:///site/html/m%2ehtml#eq2".to_owned()))
    );
    assert_eq!(
        refs.get_link("third"),
        Some(("Eq. 3".to_owned(), "file:///site/html/m%2ehtml#eq3".to_owned()))
    );
    assert_eq!(
        refs.get_link("fig"),
        Some(("Fig. 2".to_owned(), "file:///site/html/m%2ehtml#fig2".to_owned()))
    );
}

#[test]
fn label_is_trimmed() {
    let refs = scanned("text/m.md", "~   spaced out  \n# T\n");
    assert!(refs.get_link("spaced out").is_some());
    assert_eq!(trim_from(&"~  a b  ".chars().collect(), 1), "a b");
    assert_eq!(trim_from(&"~".chars().collect(), 1), "");
    assert_eq!(trim_from(&"    ".chars().collect(), 0), "");
}

#[test]
fn label_with_nothing_to_name_is_dropped() {
    let refs = scanned("text/m.md", "~lost\nplain text\n# T\n~also\n\n# U\n~last\n");
    assert_eq!(refs.get_link("lost"), None);
    assert_eq!(refs.get_link("also"), None);
    assert_eq!(refs.get_link("last"), None);
    assert_eq!(refs.dropped(), &vec!["lost".to_owned(), "also".to_owned()]);
}

#[test]
fn label_after_label_drops_the_first() {
    let refs = scanned("text/m.md", "~one\n~two\n# T\n");
    assert_eq!(refs.get_link("one"), None);
    assert!(refs.get_link("two").is_some());
    assert_eq!(refs.dropped(), &vec!["one".to_owned()]);
}

#[test]
fn empty_label_line_is_an_error() {
    let mut refs = RefMap::new(false);
    assert_eq!(
        refs.add_file(&site(), "text/m.md", &lines("# T\n~   \n")),
        Err("File text/m.md line 2: Label line was empty".to_owned())
    );
    assert_eq!(
        refs.add_file(&site(), "text/m.md", &lines("~")),
        Err("File text/m.md line 1: Label line was empty".to_owned())
    );
}

#[test]
fn path_too_short_for_a_source_file_is_an_error() {
    let mut refs = RefMap::new(false);
    assert_eq!(
        refs.add_file(&site(), "a.md", &vec![]),
        Err("Compile tree was corrupted in refs: path /site/a.md".to_owned())
    );
}

#[test]
fn later_label_replaces_an_earlier_one() {
    let mut refs = RefMap::new(false);
    refs.add_file(&site(), "text/a.md", &lines("~same\n# First\n")).unwrap();
    refs.add_file(&site(), "text/b.md", &lines("~same\n# Second\n")).unwrap();
    assert_eq!(refs.get_link("same").unwrap().0, "Second");
}

#[test]
fn pages_come_before_sections() {
    let mut refs = RefMap::new(false);
    refs.add_file(&site(), "text/a.md", &lines("~b\n# Section\n")).unwrap();
    assert_eq!(refs.get_link("b").unwrap().0, "Section");
    refs.add_file(&site(), "text/b.md", &vec![]).unwrap();
    assert_eq!(refs.get_link("b").unwrap().0, "b.md");
}

#[test]
fn counters_start_again_in_each_file() {
    let mut refs = RefMap::new(false);
    refs.add_file(&site(), "text/a.md", &lines("# A\n# B\n$$x$$\n")).unwrap();
    refs.add_file(&site(), "text/b.md", &lines("~s\n# C\n~e\n$$y$$\n")).unwrap();
    assert!(refs.get_link("s").unwrap().1.ends_with("%2dsec%2d1%2d0%2d0%2d0%2d0%2d"));
    assert_eq!(refs.get_link("e").unwrap().0, "Eq. 1");
}

#[test]
fn scan_line_gives_command_and_argument() {
    let (command, arg) = scan_line(&"## My Title".chars().collect());
    assert_eq!(command.c_type, CommandTypes::Header(2));
    assert_eq!(arg, "MyTitle");
    let (plain, text) = scan_line(&"a b".chars().collect());
    assert_eq!(plain.c_type, CommandTypes::NoCommand);
    assert_eq!(text, "ab");
    let (none, empty) = scan_line(&Vec::new());
    assert_eq!(none.c_type, CommandTypes::Evaluating);
    assert_eq!(empty, "");
}
