use wikid::build::compile::ParseState;
use wikid::build::file_queue::FileQueue;
use wikid::build::links::{to_camel_case, LinkReturn, Modifiers, PossibleLink};
use wikid::build::refs::RefMap;
use wikid::root::Root;

fn site() -> Root {
    Root::new("Notes".to_owned(), "/site".to_owned(), "1".to_owned(), "2".to_owned())
}

fn feed(link: &mut PossibleLink, text: &str) -> Vec<LinkReturn> {
    text.chars().map(|c| link.try_add(c).unwrap()).collect()
}

fn all_pushed(signals: &[LinkReturn]) -> bool {
    signals.iter().all(|s| matches!(s, LinkReturn::Pushed))
}

#[test]
fn modifier_tags_open_and_close() {
    let mut m = Modifiers::new();
    assert_eq!(m.check('*'), Ok(Some("<b>".to_owned())));
    assert_eq!(m.check('*'), Ok(Some("</b>".to_owned())));
    assert_eq!(m.check('_'), Ok(Some("<i>".to_owned())));
    assert_eq!(m.check('_'), Ok(Some("</i>".to_owned())));
    assert_eq!(m.check('`'), Ok(Some("<code>".to_owned())));
    assert_eq!(m.check('`'), Ok(Some("</code>".to_owned())));
    assert_eq!(m.check('$'), Ok(Some("\\(".to_owned())));
    assert_eq!(m.check('$'), Ok(Some("\\)".to_owned())));
}

#[test]
fn ordinary_character_is_no_modifier() {
    let mut m = Modifiers::new();
    assert_eq!(m.check('x'), Ok(None));
    assert_eq!(m.check('['), Ok(None));
    assert_eq!(m.check(' '), Ok(None));
}

#[test]
fn modifiers_nest_in_lifo_order() {
    let mut m = Modifiers::new();
    let mut out = String::new();
    for c in "*_`$$`_*".chars() {
        out.push_str(&m.check(c).unwrap().unwrap());
    }
    assert_eq!(out, "<b><i><code>\\(\\)</code></i></b>");
    assert!(!m.is_latex());
    // The stack is empty again: each marker opens anew.
    assert_eq!(m.check('_'), Ok(Some("<i>".to_owned())));
}

#[test]
fn same_marker_opens_and_closes_in_turn() {
    let mut m = Modifiers::new();
    let mut out = String::new();
    for c in "******".chars() {
        out.push_str(&m.check(c).unwrap().unwrap());
    }
    assert_eq!(out, "<b></b><b></b><b></b>");
}

#[test]
fn close_out_of_order_is_an_error() {
    let mut m = Modifiers::new();
    m.check('*').unwrap();
    m.check('_').unwrap();
    assert_eq!(m.check('*'), Err("Modifier misformatting".to_owned()));
    // The stack is as it was: the italic span can still be closed.
    assert_eq!(m.check('_'), Ok(Some("</i>".to_owned())));
    assert_eq!(m.check('*'), Ok(Some("</b>".to_owned())));
}

#[test]
fn closing_bracket_that_closes_nothing_is_an_error() {
    let mut m = Modifiers::new();
    assert_eq!(m.check(']'), Err("Unknown modifier ]".to_owned()));
    assert_eq!(m.check(']'), Ok(Some("</div>".to_owned())));
}

#[test]
fn is_latex_tells_an_open_math_span() {
    let mut m = Modifiers::new();
    assert!(!m.is_latex());
    m.check('*').unwrap();
    m.check('$').unwrap();
    assert!(m.is_latex());
    m.check('$').unwrap();
    assert!(!m.is_latex());
}

#[test]
fn idle_parser_passes_what_opens_no_link() {
    let mut l = PossibleLink::new();
    for c in "ab(c) {d} x".chars() {
        assert!(matches!(l.try_add(c), Ok(LinkReturn::Pass)));
    }
}

#[test]
fn external_link_is_parsed_and_made() {
    let mut l = PossibleLink::new();
    assert!(all_pushed(&feed(&mut l, "[a b](http://x.y/z")));
    assert!(matches!(l.try_add(')'), Ok(LinkReturn::Done)));
    let refs = RefMap::new(false);
    assert_eq!(l.make(&refs), Ok("<a href=http://x.y/z>a b</a>".to_owned()));
    // The parser is empty again.
    assert!(matches!(l.try_add('q'), Ok(LinkReturn::Pass)));
}

#[test]
fn display_text_takes_modifiers() {
    let mut l = PossibleLink::new();
    assert!(all_pushed(&feed(&mut l, "[a *b* c](u")));
    assert_eq!(l.display_text, "a <b>b</b> c");
    assert!(matches!(l.try_add(')'), Ok(LinkReturn::Done)));
    assert_eq!(l.make(&RefMap::new(false)), Ok("<a href=u>a <b>b</b> c</a>".to_owned()));
}

#[test]
fn modifier_closed_out_of_order_in_display_text_is_an_error() {
    let mut l = PossibleLink::new();
    assert!(all_pushed(&feed(&mut l, "[*a_b")));
    assert_eq!(l.try_add('*').err(), Some("Modifier misformatting".to_owned()));
}

#[test]
fn bracket_inside_a_link_is_a_child() {
    let mut l = PossibleLink::new();
    feed(&mut l, "[ab");
    assert!(matches!(l.try_add('['), Ok(LinkReturn::Child)));
    feed(&mut l, "](u");
    assert!(matches!(l.try_add('['), Ok(LinkReturn::Child)));
}

#[test]
fn bracket_pair_without_target_is_a_footnote() {
    let mut l = PossibleLink::new();
    assert!(all_pushed(&feed(&mut l, "[a note]")));
    match l.try_add(' ') {
        Ok(LinkReturn::Footnote(text)) => assert_eq!(text, "a note"),
        _ => panic!("no footnote"),
    }
    assert!(matches!(l.try_add('x'), Ok(LinkReturn::Pass)));
}

#[test]
fn footnote_before_a_character_of_several_bytes() {
    let mut l = PossibleLink::new();
    feed(&mut l, "[n]");
    match l.try_add('é') {
        Ok(LinkReturn::Footnote(text)) => assert_eq!(text, "n"),
        _ => panic!("no footnote"),
    }
}

#[test]
fn empty_bracket_pair_fails_with_the_next_character() {
    let mut l = PossibleLink::new();
    feed(&mut l, "[]");
    match l.try_add('x') {
        Ok(LinkReturn::Failed(text)) => assert_eq!(text, "[]x"),
        _ => panic!("no failure"),
    }
    assert_eq!(l.held(), "");
    assert!(matches!(l.try_add('y'), Ok(LinkReturn::Pass)));
}

#[test]
fn prep_for_footnote_strips_both_ends() {
    let mut l = PossibleLink::new();
    feed(&mut l, "[abc]");
    match l.prep_for_footnote('.') {
        LinkReturn::Footnote(text) => assert_eq!(text, "abc"),
        _ => panic!("no footnote"),
    }
    let mut empty = PossibleLink::new();
    match empty.prep_for_footnote('.') {
        LinkReturn::Failed(text) => assert_eq!(text, "."),
        _ => panic!("no failure"),
    }
    let mut pair = PossibleLink::new();
    feed(&mut pair, "[]");
    match pair.prep_for_footnote('.') {
        LinkReturn::Failed(text) => assert_eq!(text, "[]."),
        _ => panic!("no failure"),
    }
    let mut aimed = PossibleLink::new();
    feed(&mut aimed, "[ab](cd");
    match aimed.prep_for_footnote('.') {
        LinkReturn::Footnote(text) => assert_eq!(text, "ab(cd"),
        _ => panic!("no footnote"),
    }
}

#[test]
fn clear_returns_what_was_buffered() {
    let mut l = PossibleLink::new();
    feed(&mut l, "[ab](cd");
    assert_eq!(l.held(), "[ab](cd");
    assert_eq!(l.clear('!'), "[ab](cd!");
    assert_eq!(l.held(), "");
    assert_eq!(l.display_text, "");
    let mut m = PossibleLink::new();
    feed(&mut m, "[ab]{cd");
    assert_eq!(m.clear('!'), "[ab]{cd!");
    let mut n = PossibleLink::new();
    feed(&mut n, "[ab");
    assert_eq!(n.clear('!'), "[ab!");
    let mut o = PossibleLink::new();
    feed(&mut o, "[]");
    assert_eq!(o.clear('!'), "[]!");
    assert_eq!(PossibleLink::new().clear('!'), "!");
}

#[test]
fn internal_link_closes_on_brace() {
    let mut l = PossibleLink::new();
    assert!(all_pushed(&feed(&mut l, "[see]{intro")));
    assert!(matches!(l.try_add('}'), Ok(LinkReturn::Done)));
}

#[test]
fn wrong_closer_goes_into_the_target() {
    let mut l = PossibleLink::new();
    assert!(all_pushed(&feed(&mut l, "[a](b}c")));
    assert!(matches!(l.try_add(')'), Ok(LinkReturn::Done)));
    assert_eq!(l.make(&RefMap::new(false)), Ok("<a href=b}c>a</a>".to_owned()));
}

#[test]
fn internal_link_to_unknown_label_is_an_error() {
    let mut l = PossibleLink::new();
    feed(&mut l, "[see]{nowhere}");
    assert_eq!(l.make(&RefMap::new(false)), Err("Could not find link nowhere".to_owned()));
    // The parser kept the link.
    assert_eq!(l.display_text, "see");
}

#[test]
fn make_without_a_link_is_an_error() {
    let mut l = PossibleLink::new();
    assert_eq!(l.make(&RefMap::new(false)), Err("Internal link parsing error".to_owned()));
}

#[test]
fn internal_link_resolves_page_and_takes_its_title() {
    let root = site();
    let mut refs = RefMap::new(false);
    refs.add_file(&root, "text/phys/waves.md", &vec![]).unwrap();
    let mut l = PossibleLink::new();
    feed(&mut l, "[]{phys/waves}");
    assert_eq!(
        l.make(&refs),
        Ok("<a href=file:///site/html/phys/waves%2ehtml>waves.md</a>".to_owned())
    );
    let mut m = PossibleLink::new();
    feed(&mut m, "[Waves]{phys/waves}");
    assert_eq!(
        m.make(&refs),
        Ok("<a href=file:///site/html/phys/waves%2ehtml>Waves</a>".to_owned())
    );
}

#[test]
fn unchecked_add_and_splice_extend_the_display_text() {
    let mut l = PossibleLink::new();
    feed(&mut l, "[a");
    l.unchecked_add('*');
    l.splice("<i>x</i>");
    assert_eq!(l.display_text, "a*<i>x</i>");
    assert!(!l.modifiers_is_latex());
    feed(&mut l, "$");
    assert!(l.modifiers_is_latex());
}

fn image_state() -> ParseState {
    ParseState::new(
        "text/sec/page.md",
        vec!["/site/text/sec/fig.png".to_owned(), "/site/text/sec/other.png".to_owned()],
    )
}

#[test]
fn image_with_width_is_figure_one_and_is_copied() {
    let root = site();
    let mut state = image_state();
    let mut l = PossibleLink::new();
    feed(&mut l, "[Cap]{fig.png?50}");
    let html = l.make_img(&mut state, &root, false).unwrap();
    assert_eq!(
        html,
        "<center><a href=\"file:///site/html/sec/fig%2epng\"><img width=50% src=\"file:///site/html/sec/fig%2epng\" alt=\"Cap\" /></a>\n        <div class=\"caption\" id=\"fig1\"><b>Figure 1:</b> Cap</div></center>"
    );
    let mut queue = FileQueue::new();
    state.terminal(&mut queue);
    assert_eq!(
        queue.images(),
        &vec![("/site/text/sec/fig.png".to_owned(), "/site/html/sec/fig.png".to_owned())]
    );
}

#[test]
fn image_without_width_is_full_width_and_figures_count_up() {
    let root = site();
    let mut state = image_state();
    let mut l = PossibleLink::new();
    feed(&mut l, "[A]{fig.png}");
    let first = l.make_img(&mut state, &root, true).unwrap();
    assert!(first.contains("<img width=100% src=\"/html/sec/fig%2epng\""));
    assert!(first.contains("id=\"fig1\"><b>Figure 1:</b> A</div>"));
    feed(&mut l, "[B]{other.png?-5}");
    let second = l.make_img(&mut state, &root, true).unwrap();
    assert!(second.contains("<img width=-5% "));
    assert!(second.contains("id=\"fig2\"><b>Figure 2:</b> B</div>"));
}

#[test]
fn image_errors() {
    let root = site();
    let mut state = image_state();
    let mut l = PossibleLink::new();
    feed(&mut l, "[A]{fig.png?wide}");
    assert_eq!(
        l.make_img(&mut state, &root, false),
        Err("Argument wide was not an integer".to_owned())
    );
    let mut m = PossibleLink::new();
    feed(&mut m, "[A]{fig.png?1?2}");
    assert_eq!(
        m.make_img(&mut state, &root, false),
        Err("Image had too many question marks in it. fig.png?1?2".to_owned())
    );
    let mut n = PossibleLink::new();
    feed(&mut n, "[A]{missing.png}");
    assert_eq!(
        n.make_img(&mut state, &root, false),
        Err("Could not find image /site/text/sec/missing.png".to_owned())
    );
    let mut o = PossibleLink::new();
    feed(&mut o, "[A](fig.png");
    assert_eq!(
        o.make_img(&mut state, &root, false),
        Err("Internal link parsing error".to_owned())
    );
    // None of the failures counted a figure or registered a copy.
    assert_eq!(state.figure(), 1);
    let mut queue = FileQueue::new();
    state.terminal(&mut queue);
    assert!(queue.images().is_empty());
}

#[test]
fn width_argument_is_a_32_bit_integer() {
    let root = site();
    let mut state = image_state();
    let mut l = PossibleLink::new();
    feed(&mut l, "[A]{fig.png?+2147483647}");
    assert!(l.make_img(&mut state, &root, false).unwrap().contains("width=2147483647%"));
    feed(&mut l, "[A]{fig.png?-2147483648}");
    assert!(l.make_img(&mut state, &root, false).unwrap().contains("width=-2147483648%"));
    feed(&mut l, "[A]{fig.png?2147483648}");
    assert_eq!(
        l.make_img(&mut state, &root, false),
        Err("Argument 2147483648 was not an integer".to_owned())
    );
    let mut m = PossibleLink::new();
    feed(&mut m, "[A]{fig.png?}");
    assert_eq!(m.make_img(&mut state, &root, false), Err("Argument  was not an integer".to_owned()));
}

#[test]
fn camel_case_uses_upper_case_of_first_letters() {
    assert_eq!(to_camel_case("my_applet"), "MyApplet");
    assert_eq!(to_camel_case("orbit"), "Orbit");
    assert_eq!(to_camel_case("a__b_"), "AB");
    assert_eq!(to_camel_case("ßeta_x"), "SSetaX");
    assert_eq!(to_camel_case(""), "");
}

#[test]
fn applet_is_embedded_and_registered() {
    let root = site();
    let mut state = image_state();
    let mut l = PossibleLink::new();
    feed(&mut l, "[Orbits]{sims/two_body?800?600}");
    let html = l.make_applet(&mut state, &root, false).unwrap();
    assert!(html.starts_with(
        "<center><canvas id=\"two_body\"></canvas>\n        <div class=\"caption\"><b>Applet:</b> Orbits</div></center>\n<script type=\"module\">\n    import init, {TwoBody} from \"file:///site/bin/two%5fbody%2ejs\";\n    await init();\n\n    const two_body = TwoBody.new(\"two_body\");\n"
    ));
    assert!(html.ends_with("    requestAnimationFrame(renderLoop);\n\n</script>"));
    assert!(html.contains("            two_body.tick();\n            two_body.render();\n"));
    let mut queue = FileQueue::new();
    state.terminal(&mut queue);
    let applets = queue.applets();
    assert_eq!(applets.len(), 1);
    assert_eq!(applets[0].path, "/site/code/sims/two_body");
    assert_eq!(applets[0].name, "two_body");
    assert_eq!(applets[0].camel_name, "TwoBody");
    assert_eq!(applets[0].width, 800);
    assert_eq!(applets[0].height, 600);
}

#[test]
fn applet_defaults_and_errors() {
    let root = site();
    let mut state = image_state();
    let mut l = PossibleLink::new();
    feed(&mut l, "[A]{orbit}");
    l.make_applet(&mut state, &root, false).unwrap();
    let mut m = PossibleLink::new();
    feed(&mut m, "[A]{orbit?5}");
    assert_eq!(
        m.make_applet(&mut state, &root, false),
        Err("Applet had too many question marks in it. orbit?5".to_owned())
    );
    let mut n = PossibleLink::new();
    feed(&mut n, "[A]{orbit?5?x}");
    assert_eq!(
        n.make_applet(&mut state, &root, false),
        Err("Argument x was not an integer".to_owned())
    );
    let mut o = PossibleLink::new();
    feed(&mut o, "[A]{orbit/}");
    assert_eq!(
        o.make_applet(&mut state, &root, false),
        Err("Applet path /site/code/orbit/ has no name".to_owned())
    );
    let mut queue = FileQueue::new();
    state.terminal(&mut queue);
    assert_eq!(queue.applets().len(), 1);
    assert_eq!(queue.applets()[0].width, 640);
    assert_eq!(queue.applets()[0].height, 480);
}

#[test]
fn external_target_is_opened_only_behind_the_display_text() {
    let mut l = PossibleLink::new();
    assert!(!l.open_external());
    feed(&mut l, "[cap");
    assert!(!l.open_external());
    feed(&mut l, "]");
    assert!(l.open_external());
    assert!(all_pushed(&feed(&mut l, "img/a(1).png")));
    assert_eq!(l.held(), "[cap][img/a(1).png");
    assert!(matches!(l.try_add(']'), Ok(LinkReturn::Done)));
    let mut state = image_state();
    let html = l.make_img(&mut state, &site(), false).unwrap();
    assert!(html.starts_with("<center><a href=\"img/a(1).png\"><img width=100% src=\"img/a(1).png\" alt=\"cap\" /></a>"));
    let mut queue = FileQueue::new();
    state.terminal(&mut queue);
    assert!(queue.images().is_empty());
}
