use wikid::build::compile::{
    compile_file, compile_page, footer_on, get_footer, parse_line, Command, CommandTypes,
    ListType, ParseState,
};
use wikid::build::file_queue::FileQueue;
use wikid::build::refs::RefMap;
use wikid::root::Root;

fn site() -> Root {
    Root::new("Notes".to_owned(), "/site".to_owned(), "1".to_owned(), "2".to_owned())
}

fn command_of(text: &str) -> (CommandTypes, String) {
    let mut command = Command::new();
    let mut rest = String::new();
    for c in text.chars() {
        if !command.parse_command(c) {
            rest.push(c);
        }
    }
    (command.c_type, rest)
}

fn render(state: &mut ParseState, line: &str) -> Result<String, String> {
    parse_line(line, &site(), &RefMap::new(false), state, false)
}

fn fresh() -> ParseState {
    ParseState::new("text/sec/page.md", vec!["/site/text/sec/fig.png".to_owned()])
}

#[test]
fn new_command_is_evaluating() {
    assert_eq!(Command::new().c_type, CommandTypes::Evaluating);
}

#[test]
fn headers_of_level_one_to_five() {
    assert_eq!(command_of("# T"), (CommandTypes::Header(1), "T".to_owned()));
    assert_eq!(command_of("## T"), (CommandTypes::Header(2), "T".to_owned()));
    assert_eq!(command_of("### T"), (CommandTypes::Header(3), "T".to_owned()));
    assert_eq!(command_of("#### T"), (CommandTypes::Header(4), "T".to_owned()));
    assert_eq!(command_of("##### T"), (CommandTypes::Header(5), "T".to_owned()));
}

#[test]
fn sixth_hash_fails_the_header() {
    assert_eq!(command_of("###### T"), (CommandTypes::Failed, " T".to_owned()));
    assert_eq!(command_of("######## T"), (CommandTypes::Failed, "## T".to_owned()));
}

#[test]
fn header_takes_the_character_behind_the_hashes() {
    assert_eq!(command_of("#Title"), (CommandTypes::Header(1), "itle".to_owned()));
    assert_eq!(command_of("##"), (CommandTypes::HeaderProgress(2), "".to_owned()));
}

#[test]
fn immediate_commands() {
    assert_eq!(command_of(">q"), (CommandTypes::BlockQuote, "q".to_owned()));
    assert_eq!(command_of("*i"), (CommandTypes::List(ListType::Unordered), "i".to_owned()));
    assert_eq!(command_of("![c]"), (CommandTypes::Image, "[c]".to_owned()));
    assert_eq!(command_of("?[c]"), (CommandTypes::Applet, "[c]".to_owned()));
    assert_eq!(command_of("%c"), (CommandTypes::Comment, "c".to_owned()));
    assert_eq!(command_of("~l"), (CommandTypes::Label, "l".to_owned()));
    assert_eq!(command_of("plain"), (CommandTypes::NoCommand, "plain".to_owned()));
}

#[test]
fn code_fence_is_exactly_three_backticks() {
    assert_eq!(command_of("```x"), (CommandTypes::Code, "".to_owned()));
    assert_eq!(command_of("``` x"), (CommandTypes::Code, "x".to_owned()));
    assert_eq!(command_of("``x"), (CommandTypes::Failed, "".to_owned()));
    assert_eq!(command_of("`x"), (CommandTypes::Failed, "".to_owned()));
    assert_eq!(command_of("````x"), (CommandTypes::Failed, "x".to_owned()));
    assert_eq!(command_of("```"), (CommandTypes::CodeProgress(3), "".to_owned()));
}

#[test]
fn ordered_list_needs_the_dot() {
    assert_eq!(command_of("1. a"), (CommandTypes::List(ListType::Ordered), " a".to_owned()));
    assert_eq!(command_of("12"), (CommandTypes::Failed, "".to_owned()));
    assert_eq!(command_of("1"), (CommandTypes::OrderedListProgress, "".to_owned()));
}

#[test]
fn display_math_needs_two_dollars_and_takes_every_dollar() {
    assert_eq!(command_of("$$x=1$$"), (CommandTypes::MultiLatex, "x=1".to_owned()));
    assert_eq!(command_of("$x$"), (CommandTypes::Failed, "$".to_owned()));
}

#[test]
fn settled_command_takes_nothing_more() {
    let mut command = Command::new();
    assert!(command.parse_command('>'));
    assert!(!command.parse_command('>'));
    assert!(!command.parse_command('#'));
    assert_eq!(command.c_type, CommandTypes::BlockQuote);
    let mut plain = Command::new();
    assert!(!plain.parse_command('a'));
    assert!(!plain.parse_command('#'));
    assert_eq!(plain.c_type, CommandTypes::NoCommand);
}

#[test]
fn prefix_and_postfix_of_each_command() {
    let pairs = [
        (CommandTypes::Header(1), "<h1>", "</h1>"),
        (
            CommandTypes::Header(2),
            "<button class=\"collapsible\"><h2>",
            "</h2></button><div class=\"section\">",
        ),
        (CommandTypes::Header(3), "<h3>", "</h3>"),
        (CommandTypes::Header(4), "<h4>", "</h4>"),
        (CommandTypes::Header(5), "<h5>", "</h5>"),
        (CommandTypes::BlockQuote, "<blockquote>", "</blockquote>"),
        (CommandTypes::Code, "<code>", "</code>"),
        (CommandTypes::List(ListType::Ordered), "<li>", "</li>"),
        (CommandTypes::List(ListType::Unordered), "<li>", "</li>"),
        (CommandTypes::MultiLatex, "\\[", "\\]"),
        (CommandTypes::Image, "", ""),
        (CommandTypes::Applet, "", ""),
        (CommandTypes::NoCommand, "", ""),
        (CommandTypes::Failed, "", ""),
        (CommandTypes::Comment, "", ""),
        (CommandTypes::Label, "", ""),
        (CommandTypes::Evaluating, "", ""),
    ];
    for (c_type, prefix, postfix) in pairs {
        let command = Command { c_type };
        assert_eq!(command.prefix(), prefix);
        assert_eq!(command.postfix(), postfix);
    }
}

#[test]
fn title_then_paragraph_with_bold() {
    let mut state = fresh();
    assert_eq!(render(&mut state, "# Title"), Ok("<h1>Title</h1>".to_owned()));
    assert_eq!(render(&mut state, ""), Ok("".to_owned()));
    assert_eq!(
        render(&mut state, "Some *bold* text."),
        Ok("<p>Some <b>bold</b> text.".to_owned())
    );
    assert_eq!(render(&mut state, ""), Ok("</p>".to_owned()));
}

#[test]
fn page_of_title_and_paragraph() {
    let root = site();
    let lines: Vec<String> =
        "# Title\n\nSome *bold* text.\n".lines().map(|l| l.to_owned()).collect();
    let mut queue = FileQueue::new();
    let page = compile_page(
        &root,
        "text/sec/page.md",
        &lines,
        &vec![],
        &mut queue,
        &RefMap::new(false),
        false,
        "FOOT",
    )
    .unwrap();
    assert!(page.starts_with("<html>\n<head>\n    <meta charset=\"utf-8\">\n    <link rel=\"stylesheet\" type = \"text/css\" href = \"file:///site/html/css/sec%2ecss\">\n"));
    assert!(page.contains("    <title>Notes</title>\n</head><body><div id=\"content\"><h2><a href=\"file:///site/html/index%2ehtml\">Home</a> > <a href=\"file:///site/html/sec/index%2ehtml\">sec</a></h2><h1>Title</h1>\n\n<p>Some <b>bold</b> text.\n</p></div><div id=\"footer\">\nFOOT</div></body>\n<script>\nvar coll = document.getElementsByClassName(\"collapsible\");\n"));
    assert!(page.contains("            braces: [\"\\\\left\\{ #1 \\\\right\\}\", 1],\n"));
    assert!(page.ends_with("    }});\n}}\n</script></html>\n"));
}

#[test]
fn plain_lines_make_one_paragraph() {
    let mut state = fresh();
    assert_eq!(render(&mut state, "first (line)"), Ok("<p>first (line)".to_owned()));
    assert_eq!(render(&mut state, "second {line}"), Ok("second {line}".to_owned()));
    assert_eq!(render(&mut state, ""), Ok("</p>".to_owned()));
    assert_eq!(render(&mut state, "third"), Ok("<p>third".to_owned()));
}

#[test]
fn external_link_in_a_line() {
    let mut state = fresh();
    assert_eq!(render(&mut state, "[a](b)"), Ok("<p><a href=b>a</a>".to_owned()));
    assert_eq!(
        render(&mut state, "see [the site](http://x.org/a?b=1) now"),
        Ok("see <a href=http://x.org/a?b=1>the site</a> now".to_owned())
    );
}

#[test]
fn footnotes_are_numbered_from_one() {
    let mut state = fresh();
    assert_eq!(
        render(&mut state, "A[first] and B[second]."),
        Ok("<p>A<sup><a href=\"#footnote1\">1</a></sup> and B<sup><a href=\"#footnote2\">2</a></sup>.".to_owned())
    );
    assert_eq!(
        render(&mut state, "C[third] end"),
        Ok("C<sup><a href=\"#footnote3\">3</a></sup> end".to_owned())
    );
    let mut queue = FileQueue::new();
    assert_eq!(
        state.terminal(&mut queue),
        "</p><div id=\"footnote1\" class=\"footnote\"><sup>1</sup> first</div><div id=\"footnote2\" class=\"footnote\"><sup>2</sup> second</div><div id=\"footnote3\" class=\"footnote\"><sup>3</sup> third</div>"
    );
}

#[test]
fn footnote_method_returns_the_mark() {
    let mut state = fresh();
    assert_eq!(
        state.footnote("one".to_owned(), '!'),
        "<sup><a href=\"#footnote1\">1</a></sup>!"
    );
    assert_eq!(
        state.footnote("two".to_owned(), ' '),
        "<sup><a href=\"#footnote2\">2</a></sup> "
    );
}

#[test]
fn lists_open_change_and_close() {
    let mut state = fresh();
    assert_eq!(render(&mut state, "*one"), Ok("<ul><li>one</li>".to_owned()));
    assert_eq!(render(&mut state, "*two"), Ok("<li>two</li>".to_owned()));
    assert_eq!(render(&mut state, "1.three"), Ok("</ul><ol><li>three</li>".to_owned()));
    assert_eq!(render(&mut state, "*four"), Ok("</ol><ul><li>four</li>".to_owned()));
    assert_eq!(render(&mut state, "text"), Ok("</ul><p>text".to_owned()));
    assert_eq!(render(&mut state, "1.five"), Ok("<ol><li>five</li>".to_owned()));
    let mut queue = FileQueue::new();
    assert_eq!(state.terminal(&mut queue), "</p></ol>");
}

#[test]
fn level_two_header_opens_a_section() {
    let mut state = fresh();
    assert_eq!(
        render(&mut state, "## One"),
        Ok("<button class=\"collapsible\"><h2>One</h2></button><div class=\"section\">".to_owned())
    );
    assert_eq!(render(&mut state, "### Sub"), Ok("<h3>Sub</h3>".to_owned()));
    assert_eq!(
        render(&mut state, "## Two"),
        Ok("</div> <button class=\"collapsible\"><h2>Two</h2></button><div class=\"section\">".to_owned())
    );
    assert_eq!(render(&mut state, "# Top"), Ok("</div> <h1>Top</h1>".to_owned()));
    let mut queue = FileQueue::new();
    assert_eq!(state.terminal(&mut queue), "</div>");
}

#[test]
fn comment_and_label_lines_give_nothing() {
    let mut state = fresh();
    assert_eq!(render(&mut state, "% a *comment"), Ok("".to_owned()));
    assert_eq!(render(&mut state, "~label"), Ok("".to_owned()));
    assert_eq!(render(&mut state, "%"), Ok("".to_owned()));
}

#[test]
fn math_is_passed_through() {
    let mut state = fresh();
    assert_eq!(render(&mut state, "$$ a_b*c [x] $$"), Ok("\\[ a_b*c [x] \\]".to_owned()));
    assert_eq!(
        render(&mut state, "so $a_1 * [b]$ holds"),
        Ok("<p>so \\(a_1 * [b]\\) holds".to_owned())
    );
}

#[test]
fn backslash_escapes_the_next_character() {
    let mut state = fresh();
    assert_eq!(render(&mut state, "a \\*b\\* \\[c\\] \\\\"), Ok("<p>a *b* [c] \\".to_owned()));
}

#[test]
fn block_quote_code_and_failed_command() {
    let mut state = fresh();
    assert_eq!(render(&mut state, ">quoted _text_"), Ok("<blockquote>quoted <i>text</i></blockquote>".to_owned()));
    assert_eq!(render(&mut state, "``` let x"), Ok("<code>let x</code>".to_owned()));
    assert_eq!(render(&mut state, "12 apples"), Ok("<p> apples".to_owned()));
}

#[test]
fn modifier_errors_fail_the_line() {
    let mut state = fresh();
    assert_eq!(render(&mut state, "a *b _c* d"), Err("Modifier misformatting".to_owned()));
    assert_eq!(render(&mut state, "a ] b"), Err("Unknown modifier ]".to_owned()));
    assert_eq!(render(&mut state, "[*b _c* d](x)"), Err("Modifier misformatting".to_owned()));
    assert_eq!(render(&mut state, "[a]{nowhere}"), Err("Could not find link nowhere".to_owned()));
}

#[test]
fn inner_link_is_spliced_into_the_outer_display_text() {
    let mut state = fresh();
    assert_eq!(
        render(&mut state, "[see [x](u) here](v)"),
        Ok("<p><a href=v>see <a href=u>x</a> here</a>".to_owned())
    );
}

#[test]
fn image_line_makes_a_figure() {
    let mut state = fresh();
    let html = render(&mut state, "![Cap]{fig.png?50}").unwrap();
    assert_eq!(
        html,
        "<center><a href=\"file:///site/html/sec/fig%2epng\"><img width=50% src=\"file:///site/html/sec/fig%2epng\" alt=\"Cap\" /></a>\n        <div class=\"caption\" id=\"fig1\"><b>Figure 1:</b> Cap</div></center>"
    );
    let mut queue = FileQueue::new();
    state.terminal(&mut queue);
    assert_eq!(
        queue.images(),
        &vec![("/site/text/sec/fig.png".to_owned(), "/site/html/sec/fig.png".to_owned())]
    );
}

#[test]
fn failing_line_is_reported_with_file_and_line() {
    let root = site();
    let lines = vec!["fine".to_owned(), "also fine".to_owned(), "[a]{nowhere}".to_owned()];
    let mut queue = FileQueue::new();
    assert_eq!(
        compile_page(
            &root,
            "text/sec/page.md",
            &lines,
            &vec![],
            &mut queue,
            &RefMap::new(false),
            false,
            "F"
        ),
        Err("File text/sec/page.md line 3: Could not find link nowhere".to_owned())
    );
}

#[test]
fn page_state_starts_in_the_files_directory() {
    assert_eq!(ParseState::new("text/sec/page.md", vec![]).local_path, "text/sec");
    assert_eq!(ParseState::new("./text/sec/page.md", vec![]).local_path, "text/sec");
    assert_eq!(ParseState::new("page.md", vec![]).local_path, "");
}

#[test]
fn move_img_needs_the_file() {
    let root = site();
    let mut state = fresh();
    assert_eq!(state.move_img(&root, "fig.png"), Ok(()));
    assert_eq!(
        state.move_img(&root, "nope.png"),
        Err("Could not find image /site/text/sec/nope.png".to_owned())
    );
    assert_eq!(state.figure(), 1);
    assert_eq!(state.figure(), 2);
}

#[test]
fn footer_names_the_month() {
    let root = site();
    assert_eq!(
        footer_on(&root, 2024, 3, 7),
        "Copyright &copy; 2024 Jack Dinsmore. &emsp;Updated March 7. &emsp;Version 1.2"
    );
    let names = [
        "January", "February", "March", "April", "May", "June", "July", "August", "September",
        "October", "November", "December",
    ];
    for (i, name) in names.iter().enumerate() {
        assert!(footer_on(&root, 1999, i as u32 + 1, 31).contains(&format!("Updated {} 31.", name)));
    }
}

#[test]
fn todays_footer_has_the_shape_of_a_footer() {
    let footer = get_footer(&site()).unwrap();
    assert!(footer.starts_with("Copyright &copy; 2"));
    assert!(footer.ends_with(". &emsp;Version 1.2"));
    assert!(footer.contains(" Jack Dinsmore. &emsp;Updated "));
}

#[test]
fn page_is_dated_today() {
    let root = site();
    let mut queue = FileQueue::new();
    let lines = vec!["text".to_owned()];
    let page =
        compile_file(&root, "text/page.md", &lines, &vec![], &mut queue, &RefMap::new(false), false)
            .unwrap();
    assert!(page.contains("<div id=\"content\"><h2><a href=\"file:///site/html/index%2ehtml\">Home</a></h2><p>text\n</p></div><div id=\"footer\">\nCopyright &copy; "));
    assert!(page.contains(". &emsp;Version 1.2</div></body>\n<script>"));
    assert_eq!(
        compile_file(
            &root,
            "text/page.md",
            &vec!["a ] b".to_owned()],
            &vec![],
            &mut queue,
            &RefMap::new(false),
            false
        ),
        Err("File text/page.md line 1: Unknown modifier ]".to_owned())
    );
}

#[test]
fn empty_line_without_a_paragraph_closes_the_list() {
    let mut state = fresh();
    assert_eq!(render(&mut state, "*one"), Ok("<ul><li>one</li>".to_owned()));
    assert_eq!(render(&mut state, ""), Ok("</ul>".to_owned()));
    assert_eq!(render(&mut state, ""), Ok("".to_owned()));
}

#[test]
fn unfinished_link_is_written_as_it_was() {
    let mut state = fresh();
    assert_eq!(
        render(&mut state, "before [never closed"),
        Ok("<p>before [never closed".to_owned())
    );
    assert_eq!(render(&mut state, "x []y"), Ok("x []y".to_owned()));
    assert_eq!(render(&mut state, "[abc"), Ok("[abc".to_owned()));
    assert_eq!(render(&mut state, "[a *b"), Ok("[a <b>b".to_owned()));
    assert_eq!(render(&mut state, "[a](b"), Ok("[a](b".to_owned()));
    assert_eq!(render(&mut state, "[a]{b"), Ok("[a]{b".to_owned()));
    assert_eq!(render(&mut state, "[a [b](c"), Ok("[a [b](c".to_owned()));
    assert_eq!(render(&mut state, "[a [b](c) d"), Ok("[a <a href=c>b</a> d".to_owned()));
}

#[test]
fn failed_line_keeps_the_state_before_the_failure() {
    let mut state = fresh();
    assert!(render(&mut state, "a[note] then [x]{nowhere}").is_err());
    // The footnote before the failure was taken in.
    assert_eq!(state.footnote("next".to_owned(), ' '), "<sup><a href=\"#footnote2\">2</a></sup> ");
}

#[test]
fn two_links_in_one_line() {
    let mut state = fresh();
    assert_eq!(
        render(&mut state, "[a](b) [c](d)"),
        Ok("<p><a href=b>a</a> <a href=d>c</a>".to_owned())
    );
}

#[test]
fn link_in_a_list_item() {
    let mut state = fresh();
    assert_eq!(
        render(&mut state, "* [a](b)"),
        Ok("<ul><li> <a href=b>a</a></li>".to_owned())
    );
}

#[test]
fn footnote_needs_a_character_behind_it() {
    let mut state = fresh();
    assert_eq!(render(&mut state, "text [note]"), Ok("<p>text [note]".to_owned()));
    assert_eq!(
        render(&mut state, "text [note]."),
        Ok("text <sup><a href=\"#footnote1\">1</a></sup>.".to_owned())
    );
}

#[test]
fn footnote_inside_a_link_goes_to_the_line() {
    let mut state = fresh();
    assert_eq!(
        render(&mut state, "[a [b] c](d)"),
        Ok("<p><sup><a href=\"#footnote1\">1</a></sup> <a href=d>a c</a>".to_owned())
    );
}

#[test]
fn link_on_an_image_line_needs_braces() {
    let mut state = fresh();
    assert_eq!(
        render(&mut state, "![Cap](fig.png)"),
        Err("Internal link parsing error".to_owned())
    );
}

#[test]
fn applet_line_embeds_the_applet() {
    let mut state = fresh();
    let html = render(&mut state, "?[Orbit]{sims/orbit}").unwrap();
    assert!(html.starts_with("<center><canvas id=\"orbit\"></canvas>"));
    assert!(html.contains("import init, {Orbit} from \"file:///site/bin/orbit%2ejs\";"));
}

#[test]
fn plain_file_is_one_closed_paragraph() {
    let root = site();
    let lines = vec!["plain prose".to_owned(), "on two lines".to_owned()];
    let mut queue = FileQueue::new();
    let page = compile_page(
        &root,
        "text/page.md",
        &lines,
        &vec![],
        &mut queue,
        &RefMap::new(false),
        false,
        "F",
    )
    .unwrap();
    assert!(page.contains(
        "Home</a></h2><p>plain prose\non two lines\n</p></div><div id=\"footer\">\nF</div></body>"
    ));
    assert_eq!(page.matches("<p>").count(), 1);
    assert_eq!(page.matches("</p>").count(), 1);
}

#[test]
fn paragraph_closed_by_an_empty_line_is_not_closed_again() {
    let mut state = fresh();
    assert_eq!(render(&mut state, "text"), Ok("<p>text".to_owned()));
    assert_eq!(render(&mut state, ""), Ok("</p>".to_owned()));
    let mut queue = FileQueue::new();
    assert_eq!(state.terminal(&mut queue), "");
}

#[test]
fn image_with_an_external_target() {
    let mut state = fresh();
    assert_eq!(
        render(&mut state, "![Cap][http://x.org/a.png?30]"),
        Ok("<center><a href=\"http://x.org/a.png\"><img width=30% src=\"http://x.org/a.png\" alt=\"Cap\" /></a>\n        <div class=\"caption\" id=\"fig1\"><b>Figure 1:</b> Cap</div></center>".to_owned())
    );
    let mut queue = FileQueue::new();
    state.terminal(&mut queue);
    assert!(queue.images().is_empty());
}

#[test]
fn applet_with_an_external_target() {
    let mut state = fresh();
    let html = render(&mut state, "?[Orbit][/opt/sims/two_body]").unwrap();
    assert!(html.starts_with("<center><canvas id=\"two_body\"></canvas>"));
    let mut queue = FileQueue::new();
    state.terminal(&mut queue);
    assert_eq!(queue.applets()[0].path, "/opt/sims/two_body");
}

#[test]
fn bracket_behind_a_link_text_opens_an_inner_link_on_other_lines() {
    let mut state = fresh();
    assert_eq!(
        render(&mut state, "[a][b] c"),
        Ok("<p><sup><a href=\"#footnote1\">1</a></sup> <sup><a href=\"#footnote2\">2</a></sup>c".to_owned())
    );
    let mut queue = FileQueue::new();
    assert!(state.terminal(&mut queue).contains("<sup>1</sup> b</div>"));
}
