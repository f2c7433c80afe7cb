use wikid::build::css::{build_css, css_text, Shades, Style};
use wikid::build::file_queue::{AppletBuild, FileQueue};
use wikid::build::BuildSettings;
use wikid::constants::Color;
use wikid::root::{push_escaped, Root};
use wikid::section::{AddSettings, SaveSection, Section};
use wikid::text::{chars_of, ends_with, file_name_of, parent_of, parse_i32, push_decimal, push_signed, skip_of, split_on, starts_with};

fn site() -> Root {
    Root::new("Notes".to_owned(), "/site".to_owned(), "1".to_owned(), "2".to_owned())
}

fn shades() -> Shades {
    Shades { light: "#eeeeee".to_owned(), text: "#111111".to_owned(), bg: "#222222".to_owned() }
}

#[test]
fn new_root_has_the_default_settings() {
    let root = site();
    assert_eq!(root.name, "Notes");
    assert_eq!(root.root_dir, "/site");
    assert_eq!(root.wikid_version_major, "1");
    assert_eq!(root.wikid_version_minor, "2");
    assert_eq!(root.public_url, "");
    assert_eq!(root.bg_image, None);
    assert_eq!(root.fonts, None);
    assert!(root.dark_mode);
    assert_eq!(root.font_size, 16);
    assert_eq!(root.main_color, "#cccccc");
}

#[test]
fn punctuation_is_escaped_in_links() {
    let mut out = String::new();
    push_escaped(&mut out, " !\"$%&'()*+,-.");
    assert_eq!(out, "%20%21%22%24%25%26%27%28%29%2a%2b%2c%2d%2e");
    let mut two = String::new();
    push_escaped(&mut two, ":;<=>?@[\\]^_`{|}~");
    assert_eq!(two, "%3a%3b%3c%3d%3e%3f%40%5b%5c%5d%5e%5f%60%7b%7c%7d%7e");
}

#[test]
fn letters_digits_slash_and_hash_stay() {
    let mut out = String::new();
    push_escaped(&mut out, "abc/XYZ/019#top/é\u{7f}");
    assert_eq!(out, "abc/XYZ/019#top/é\u{7f}");
}

#[test]
fn local_and_public_links() {
    let mut root = site();
    assert_eq!(root.get_link_from_local("html/a b.html", false), "file:///site/html/a%20b%2ehtml");
    root.public_url = "https://x.org".to_owned();
    assert_eq!(root.get_link_from_local("html/a.html#eq1", true), "https://x.org/html/a%2ehtml#eq1");
    assert_eq!(root.get_path_from_local("text/a b.md"), "/site/text/a b.md");
}

#[test]
fn section_of_a_path_is_its_last_directory() {
    let root = site();
    assert_eq!(root.get_section("text/phys/waves.md"), "phys");
    assert_eq!(root.get_section("text/waves.md"), "text");
    assert_eq!(root.get_section("text/a/b/c.md"), "b");
    assert_eq!(root.get_section("waves.md"), "");
}

#[test]
fn colour_is_read_and_written() {
    let c = Color::from_str("#1a2B3c").ok().unwrap();
    assert_eq!(c.rgb(), (0x1a, 0x2b, 0x3c));
    assert_eq!(c.to_string(), "#1a2b3c");
    assert_eq!(Color::new(0, 9, 255).to_string(), "#0009ff");
    assert_eq!(Color::from_str("#+f+0+a").ok().unwrap().rgb(), (15, 0, 10));
}

#[test]
fn colour_errors() {
    assert_eq!(Color::from_str("").err(), Some("Color must be 7 characters long"));
    assert_eq!(Color::from_str("abcdef0").err(), Some("Color must start with #"));
    assert_eq!(Color::from_str("a").err(), Some("Color must start with #"));
    assert_eq!(Color::from_str("#abc").err(), Some("Color must be 7 characters long"));
    assert_eq!(Color::from_str("#abcdef0").err(), Some("Color must be 7 characters long"));
    assert_eq!(Color::from_str("#gg0000").err(), Some("Could not parse the red value"));
    assert_eq!(Color::from_str("#00-100").err(), Some("Could not parse the green value"));
    assert_eq!(Color::from_str("#0000f+").err(), Some("Could not parse the blue value"));
}

#[test]
fn black_or_white_goes_by_the_sum() {
    assert_eq!(Color::new(129, 129, 129).bw().rgb(), (255, 255, 255));
    assert_eq!(Color::new(130, 129, 129).bw().rgb(), (0, 0, 0));
    assert_eq!(Color::new(255, 255, 255).bw().rgb(), (0, 0, 0));
    assert_eq!(Color::new(0, 0, 0).bw().rgb(), (255, 255, 255));
    assert_eq!(Color::new(255, 132, 0).bw().rgb(), (255, 255, 255));
}

#[test]
fn section_is_saved_without_its_name() {
    let section = Section::new("phys".to_owned(), &Color::new(1, 2, 3));
    assert_eq!(section.name, "phys");
    assert_eq!(section.color, "#010203");
    assert!(!section.ignore);
    let saved = section.save_section();
    assert_eq!(saved.color, "#010203");
    assert!(!saved.ignore);
    let back = Section::from_save_section(SaveSection { color: "#ffffff".to_owned(), ignore: true }, "math");
    assert_eq!(back.name, "math");
    assert_eq!(back.color, "#ffffff");
    assert!(back.ignore);
}

#[test]
fn added_section_has_a_colour_and_a_line_in_the_contents() {
    let add = AddSettings { name: "phys".to_owned(), color: "#aabbcc \n".to_owned() };
    assert_eq!(add.parse_color().ok().unwrap().rgb(), (0xaa, 0xbb, 0xcc));
    assert_eq!(add.toc_entry(), "* [phys]{phys/_toc}\n");
    let bad = AddSettings { name: "phys".to_owned(), color: " #aabbcc".to_owned() };
    assert_eq!(
        bad.parse_color().err(),
        Some("Please give a proper hex-formatted color (e.g., #abcdef).".to_owned())
    );
}

#[test]
fn build_begins_with_checked_settings() {
    let mut root = site();
    let mut queue = FileQueue::new();
    let local = BuildSettings { public: false, run: false, verbose: false };
    let public = BuildSettings { public: true, run: false, verbose: false };
    assert_eq!(local.begin(&root, &mut queue), Ok(()));
    assert!(queue.images().is_empty());
    assert_eq!(public.begin(&root, &mut queue), Err("You must first set the public url".to_owned()));
    root.public_url = "https://x.org".to_owned();
    root.bg_image = Some("back.jpg".to_owned());
    assert_eq!(
        public.begin(&root, &mut queue),
        Err("The background image back.jpg is not a PNG".to_owned())
    );
    root.bg_image = Some("back.png".to_owned());
    assert_eq!(public.begin(&root, &mut queue), Ok(()));
    assert_eq!(
        queue.images(),
        &vec![("back.png".to_owned(), "html/css/background_image.png".to_owned())]
    );
}

#[test]
fn queue_keeps_one_page_for_each_name() {
    let mut queue = FileQueue::new();
    assert_eq!(queue.size(), 0);
    queue.add("a.html".to_owned(), "one".to_owned());
    queue.add("b.html".to_owned(), "two".to_owned());
    queue.add("a.html".to_owned(), "three".to_owned());
    assert_eq!(queue.size(), 2);
    assert_eq!(
        queue.files(),
        &vec![("a.html".to_owned(), "three".to_owned()), ("b.html".to_owned(), "two".to_owned())]
    );
    queue.append_imgs(vec![("x".to_owned(), "y".to_owned())]);
    queue.append_imgs(vec![("z".to_owned(), "w".to_owned())]);
    assert_eq!(queue.images().len(), 2);
    assert_eq!(queue.images()[1].0, "z");
    queue.append_applets(vec![AppletBuild {
        path: "code/a".to_owned(),
        name: "a".to_owned(),
        camel_name: "A".to_owned(),
        width: 1,
        height: 2,
    }]);
    assert_eq!(queue.applets().len(), 1);
    assert_eq!(queue.size(), 2);
}

#[test]
fn style_sheet_of_a_colour() {
    let root = site();
    let css = css_text(&root, "#336699", &shades(), false).unwrap();
    assert!(css.starts_with("\n\nbody {\n    font-size: 16px;\n    font-family: 'DM Sans', 'Nunito Sans', sans-serif;\n    color: #111111;\n    background: #222222;\n}\n"));
    assert!(css.contains("a:hover {\n    background: #336699;\n    color: #ffffff;\n}\n"));
    assert!(css.contains(".collapsible:hover {\n    background-color: #eeeeee;\n}\n"));
    assert!(css.ends_with(".eqnum {\n    width: 5%;\n    text-align: right;\n}\n\n"));
    assert_eq!(css_text(&root, "336699", &shades(), false), Err("Color was corrupted".to_owned()));
}

#[test]
fn style_sheet_with_fonts_and_background_image() {
    let mut root = site();
    root.bg_image = Some("back.png".to_owned());
    root.fonts = Some(vec!["fonts/a.ttf".to_owned(), "Georgia".to_owned(), "b.ttf".to_owned()]);
    root.font_size = 12;
    let css = css_text(&root, "#eeeeee", &shades(), false).unwrap();
    assert!(css.starts_with("\n\n@font-face {\n    font-family: \"font1\";\n    src: url(\"file:///site/fonts/a%2ettf\");\n}\n@font-face {\n    font-family: \"font2\";\n    src: url(\"file:///site/b%2ettf\");\n}\nbody {\n    font-size: 12px;\n    font-family:  'font1',  'Georgia',  'font2',  'sans-serif';\n    color: #111111;\n    background-image: url(../css/background_image.png);\n    background-repeat: no-repeat;\n    background-attachment: fixed;\n    background-size: 100% 100%;\n}\n"));
    assert!(css.contains("    color: #000000;\n"));
}

#[test]
fn style_sheets_of_the_sections_and_the_site() {
    let root = site();
    let mut queue = FileQueue::new();
    let styles = vec![
        Style { name: "phys".to_owned(), color: "#102030".to_owned(), shades: shades() },
        Style { name: "math".to_owned(), color: "#405060".to_owned(), shades: shades() },
    ];
    assert_eq!(build_css(&root, &styles, &shades(), &mut queue, false), Ok(()));
    let names: Vec<&str> = queue.files().iter().map(|f| f.0.as_str()).collect();
    assert_eq!(names, vec!["css/phys.css", "css/math.css", "css/text.css"]);
    assert!(queue.files()[1].1.contains("a {\n    color: #405060;\n"));
    assert!(queue.files()[2].1.contains("a {\n    color: #cccccc;\n"));
    let broken = vec![Style { name: "x".to_owned(), color: "red".to_owned(), shades: shades() }];
    assert_eq!(
        build_css(&root, &broken, &shades(), &mut queue, false),
        Err("Color was corrupted".to_owned())
    );
    assert_eq!(queue.size(), 3);
}

#[test]
fn integers_are_read_as_rust_reads_them() {
    let read = |s: &str| parse_i32(&s.chars().collect());
    for text in ["0", "7", "-7", "+7", "007", "2147483647", "-2147483648", "-0", "+0"] {
        assert_eq!(read(text), text.parse::<i32>().ok(), "{}", text);
        assert!(read(text).is_some());
    }
    for text in ["", "+", "-", "1a", " 1", "1 ", "--1", "2147483648", "-2147483649", "99999999999999999999", "١"] {
        assert_eq!(read(text), None, "{}", text);
        assert!(text.parse::<i32>().is_err());
    }
}

#[test]
fn numbers_are_written_in_decimal() {
    let mut out = String::new();
    push_decimal(&mut out, 0);
    out.push(' ');
    push_decimal(&mut out, 9);
    out.push(' ');
    push_decimal(&mut out, 10);
    out.push(' ');
    push_decimal(&mut out, 18446744073709551615);
    out.push(' ');
    push_signed(&mut out, -2147483648);
    out.push(' ');
    push_signed(&mut out, 305);
    assert_eq!(out, "0 9 10 18446744073709551615 -2147483648 305");
}

#[test]
fn text_is_split_and_cut() {
    let parts = split_on(&"a?bc??d".chars().collect(), '?');
    let texts: Vec<String> = parts.iter().map(|p| p.iter().collect()).collect();
    assert_eq!(texts, vec!["a", "bc", "", "d"]);
    assert_eq!(split_on(&Vec::new(), '?'), vec![Vec::<char>::new()]);
    let path = chars_of("text/phys/waves.md");
    assert_eq!(parent_of(&path), "text/phys");
    assert_eq!(file_name_of(&path), "waves.md");
    assert_eq!(skip_of(&path, 5), "phys/waves.md");
    assert_eq!(skip_of(&path, 50), "");
    assert!(ends_with(&path, ".md"));
    assert!(!ends_with(&path, ".mdx"));
    assert!(starts_with(&path, "text/"));
    assert!(!starts_with(&chars_of("te"), "text/"));
}

#[test]
fn directories_above_the_queued_pages() {
    let mut queue = FileQueue::new();
    queue.add("index.html".to_owned(), "".to_owned());
    queue.add("phys/deep/x.html".to_owned(), "".to_owned());
    queue.add("./css/text.css".to_owned(), "".to_owned());
    assert_eq!(
        queue.directories("/site/html/"),
        vec![
            "",
            "/site",
            "/site/html",
            "",
            "/site",
            "/site/html",
            "/site/html/phys",
            "/site/html/phys/deep",
            "",
            "/site",
            "/site/html",
            "/site/html/css"
        ]
    );
    assert_eq!(FileQueue::new().directories("out/"), Vec::<String>::new());
    let mut flat = FileQueue::new();
    flat.add("a.html".to_owned(), "".to_owned());
    assert_eq!(flat.directories(""), Vec::<String>::new());
    assert_eq!(flat.directories("./out/./"), vec!["out"]);
}
