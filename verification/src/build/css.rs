//! The style sheets of a site: one for each section, and one for the top of the site.

use crate::build::file_queue::{FileQueue, QueueView, with_file};
use crate::constants::{Color, color_parsed, color_text};
use crate::root::Root;
use crate::text::{chars_of, decimal, ends_with, has_suffix, push_decimal, texts};
use vstd::prelude::*;
use vstd::string::*;

verus! {

broadcast use vstd::string::group_string_axioms;

/// The shades that go with a colour in a style sheet, each as it is written.
#[derive(Debug)]
pub struct Shades {
    /// The colour under the pointer.
    pub light: String,
    /// The colour of text.
    pub text: String,
    /// The colour of the page.
    pub bg: String,
}

/// A section's name and colour, with the colour's shades.
#[derive(Debug)]
pub struct Style {
    pub name: String,
    pub color: String,
    pub shades: Shades,
}

/// The rule for the page's background: the background image where the site has one, else the
/// colour `bg`.
pub open spec fn background_rule(root: Root, bg: Seq<char>) -> Seq<char> {
    if root.bg_image is Some {
        "background-image: url(../css/background_image.png);\n    background-repeat: no-repeat;\n    background-attachment: fixed;\n    background-size: 100% 100%;"@
    } else {
        "background: "@ + bg + ";"@
    }
}

/// The font faces and the font family that the first fonts of a site give, and the number of
/// font files among them. A font that ends in `.ttf` is a file: it gets a face of its own,
/// named by its number.
pub open spec fn fonts_fold(root: Root, fonts: Seq<Seq<char>>, public: bool) -> (
    Seq<char>,
    Seq<char>,
    nat,
)
    decreases fonts.len(),
{
    if fonts.len() == 0 {
        (Seq::empty(), Seq::empty(), 0)
    } else {
        let (faces, family, count) = fonts_fold(root, fonts.drop_last(), public);
        let item = fonts.last();
        if has_suffix(item, ".ttf"@) {
            (
                faces + "\n@font-face {\n    font-family: \"font"@ + decimal(count + 1)
                    + "\";\n    src: url(\""@ + root.link(item, public) + "\");\n}"@,
                family + " 'font"@ + decimal(count + 1) + "', "@,
                count + 1,
            )
        } else {
            (faces, family + " '"@ + item + "', "@, count)
        }
    }
}

/// The font faces of a site.
pub open spec fn font_faces(root: Root, public: bool) -> Seq<char> {
    match root.fonts {
        Some(fonts) => fonts_fold(root, texts(fonts@), public).0,
        None => Seq::empty(),
    }
}

/// The font family of a site.
pub open spec fn font_family(root: Root, public: bool) -> Seq<char> {
    match root.fonts {
        Some(fonts) => fonts_fold(root, texts(fonts@), public).1 + " 'sans-serif'"@,
        None => "'DM Sans', 'Nunito Sans', sans-serif"@,
    }
}

/// A style sheet, from its parts.
pub open spec fn sheet(
    preamble: Seq<char>,
    font_size: Seq<char>,
    font_family: Seq<char>,
    text: Seq<char>,
    bg_image: Seq<char>,
    main: Seq<char>,
    bw: Seq<char>,
    bg: Seq<char>,
    light: Seq<char>,
) -> Seq<char> {
    "\n"@
        + preamble
        + "\nbody {\n    font-size: "@
        + font_size
        + "px;\n    font-family: "@
        + font_family
        + ";\n    color: "@
        + text
        + ";\n    "@
        + bg_image
        + "\n}\n\nh1, h2, h3, h4, h5 {\n    color: "@
        + text
        + ";\n}\n\na {\n    color: "@
        + main
        + ";\n    font-weight: bold;\n    text-decoration: none;\n}\n\na:visited {\n    color: "@
        + main
        + ";\n    font-weight: normal;\n}\n\na:hover {\n    background: "@
        + main
        + ";\n    color: "@
        + bw
        + ";\n}\n\n#content {\n    padding-top: 100px;\n    width: 50em;\n    margin: auto;\n    line-height: 150%;\n    padding-bottom: 3em;\n}\n\n#footer {\n    border-top: solid "@
        + text
        + " 2px;\n    padding-top: 1em;\n    padding-bottom: 1em;\n    padding-left: 15em;\n    padding-right: 15em;\n    margin: auto;\n    width: 50em;\n}\n\n.footnote {\n    font-size: 14px;\n}\n\n.collapsible {\n    background-color: "@
        + bg
        + ";\n    color: white;\n    cursor: pointer;\n    width: 100%;\n    padding-left: 5px;\n    line-height: 100%;\n    border: none;\n    text-align: left;\n    outline: none;\n    font-family: "@
        + font_family
        + ";\n}\n  \n.collapsible:hover {\n    background-color: "@
        + light
        + ";\n}\n\n.section {\n    padding-left: 18px;\n    padding-top: 0px;\n    overflow: hidden;\n    transition: max-height 0.2s ease-out;\n}\n\n.caption {\n    font-size: 14px;\n    padding-top: 1em;\n    padding-bottom: 1em;\n}\n\n.tooltip .tooltiptext {\n    visibility: hidden;\n    width: 120px;\n    background-color: black;\n    color: #fff;\n    text-align: left;\n    border-radius: 6px;\n    padding: 15px;\n\n    /* Position the tooltip */\n    position: absolute;\n    z-index: 1;\n}\n\n.eq {\n    display: flex;\n    flex-direction: row;\n    align-items: center;\n}\n.eqtext {\n    width: 95%;\n}\n\n.eqnum {\n    width: 5%;\n    text-align: right;\n}\n\n"@
}

/// The colour of text on the colour `c`, as it is written.
pub open spec fn contrast(c: (u8, u8, u8)) -> Seq<char> {
    color_text(
        if c.0 + c.1 + c.2 > 387 {
            (0u8, 0u8, 0u8)
        } else {
            (255u8, 255u8, 255u8)
        },
    )
}

/// The style sheet for the colour `c` with the shades `shades`, or the error where `c` is no
/// colour.
pub open spec fn css_made(root: Root, c: Seq<char>, shades: Shades, public: bool) -> Result<
    Seq<char>,
    Seq<char>,
> {
    match color_parsed(c) {
        Err(_) => Err("Color was corrupted"@),
        Ok(color) => Ok(
            sheet(
                font_faces(root, public),
                decimal(root.font_size as nat),
                font_family(root, public),
                shades.text@,
                background_rule(root, shades.bg@),
                c,
                contrast(color),
                shades.bg@,
                shades.light@,
            ),
        ),
    }
}

fn write_sheet(
    preamble: &str,
    font_size: &str,
    font_family: &str,
    text: &str,
    bg_image: &str,
    main: &str,
    bw: &str,
    bg: &str,
    light: &str,
) -> (out: String)
    ensures
        out@ == sheet(
            preamble@,
            font_size@,
            font_family@,
            text@,
            bg_image@,
            main@,
            bw@,
            bg@,
            light@,
        ),
{
    let mut out = String::new();
    out.append("\n");
    out.append(preamble);
    out.append("\nbody {\n    font-size: ");
    out.append(font_size);
    out.append("px;\n    font-family: ");
    out.append(font_family);
    out.append(";\n    color: ");
    out.append(text);
    out.append(";\n    ");
    out.append(bg_image);
    out.append("\n}\n\nh1, h2, h3, h4, h5 {\n    color: ");
    out.append(text);
    out.append(";\n}\n\na {\n    color: ");
    out.append(main);
    out.append(";\n    font-weight: bold;\n    text-decoration: none;\n}\n\na:visited {\n    color: ");
    out.append(main);
    out.append(";\n    font-weight: normal;\n}\n\na:hover {\n    background: ");
    out.append(main);
    out.append(";\n    color: ");
    out.append(bw);
    out.append(";\n}\n\n#content {\n    padding-top: 100px;\n    width: 50em;\n    margin: auto;\n    line-height: 150%;\n    padding-bottom: 3em;\n}\n\n#footer {\n    border-top: solid ");
    out.append(text);
    out.append(" 2px;\n    padding-top: 1em;\n    padding-bottom: 1em;\n    padding-left: 15em;\n    padding-right: 15em;\n    margin: auto;\n    width: 50em;\n}\n\n.footnote {\n    font-size: 14px;\n}\n\n.collapsible {\n    background-color: ");
    out.append(bg);
    out.append(";\n    color: white;\n    cursor: pointer;\n    width: 100%;\n    padding-left: 5px;\n    line-height: 100%;\n    border: none;\n    text-align: left;\n    outline: none;\n    font-family: ");
    out.append(font_family);
    out.append(";\n}\n  \n.collapsible:hover {\n    background-color: ");
    out.append(light);
    out.append(";\n}\n\n.section {\n    padding-left: 18px;\n    padding-top: 0px;\n    overflow: hidden;\n    transition: max-height 0.2s ease-out;\n}\n\n.caption {\n    font-size: 14px;\n    padding-top: 1em;\n    padding-bottom: 1em;\n}\n\n.tooltip .tooltiptext {\n    visibility: hidden;\n    width: 120px;\n    background-color: black;\n    color: #fff;\n    text-align: left;\n    border-radius: 6px;\n    padding: 15px;\n\n    /* Position the tooltip */\n    position: absolute;\n    z-index: 1;\n}\n\n.eq {\n    display: flex;\n    flex-direction: row;\n    align-items: center;\n}\n.eqtext {\n    width: 95%;\n}\n\n.eqnum {\n    width: 5%;\n    text-align: right;\n}\n\n");
    out
}

fn write_fonts(root: &Root, fonts: &Vec<String>, public: bool) -> (res: (String, String))
    ensures
        res.0@ == fonts_fold(*root, texts(fonts@), public).0,
        res.1@ == fonts_fold(*root, texts(fonts@), public).1,
{
    let mut faces = String::new();
    let mut family = String::new();
    let mut count: usize = 0;
    let ghost all = texts(fonts@);
    assert(all.take(0) == Seq::<Seq<char>>::empty());
    let mut i: usize = 0;
    while i < fonts.len()
        invariant
            i <= fonts.len(),
            count <= i,
            all == texts(fonts@),
            (faces@, family@, count as nat) == fonts_fold(*root, all.take(i as int), public),
        decreases fonts.len() - i,
    {
        proof {
            assert(all.take(i + 1).drop_last() == all.take(i as int));
            assert(all.take(i + 1).last() == fonts@[i as int]@);
        }
        let item = chars_of(fonts[i].as_str());
        if ends_with(&item, ".ttf") {
            count += 1;
            let link = root.get_link_from_local(fonts[i].as_str(), public);
            faces.append("\n@font-face {\n    font-family: \"font");
            push_decimal(&mut faces, count as u64);
            faces.append("\";\n    src: url(\"");
            faces.append(link.as_str());
            faces.append("\");\n}");
            family.append(" 'font");
            push_decimal(&mut family, count as u64);
            family.append("', ");
        } else {
            family.append(" '");
            family.append(fonts[i].as_str());
            family.append("', ");
        }
        i += 1;
    }
    assert(all.take(all.len() as int) == all);
    (faces, family)
}

/// Writes the style sheet for the colour `c` with the shades `shades`.
pub fn css_text(root: &Root, c: &str, shades: &Shades, public: bool) -> (res: Result<
    String,
    String,
>)
    ensures
        crate::build::links::is_text(res, css_made(*root, c@, *shades, public)),
{
    let bw = match Color::from_str(c) {
        Ok(color) => color.bw().to_string(),
        Err(_) => {
            return Err("Color was corrupted".to_owned());
        },
    };
    let mut bg_image = String::new();
    match &root.bg_image {
        Some(_) => {
            bg_image.append("background-image: url(../css/background_image.png);\n    background-repeat: no-repeat;\n    background-attachment: fixed;\n    background-size: 100% 100%;");
        },
        None => {
            bg_image.append("background: ");
            bg_image.append(shades.bg.as_str());
            bg_image.append(";");
        },
    }
    let (preamble, family) = match &root.fonts {
        Some(fonts) => {
            let (faces, mut family) = write_fonts(root, fonts, public);
            family.append(" 'sans-serif'");
            (faces, family)
        },
        None => (String::new(), "'DM Sans', 'Nunito Sans', sans-serif".to_owned()),
    };
    let mut font_size = String::new();
    push_decimal(&mut font_size, root.font_size as u64);
    Ok(
        write_sheet(
            preamble.as_str(),
            font_size.as_str(),
            family.as_str(),
            shades.text.as_str(),
            bg_image.as_str(),
            c,
            bw.as_str(),
            shades.bg.as_str(),
            shades.light.as_str(),
        ),
    )
}

/// The name of the style sheet of the section `name`.
pub open spec fn sheet_name(name: Seq<char>) -> Seq<char> {
    "css/"@ + name + ".css"@
}

/// The pages after the style sheets of the first sections were queued, up to the first whose
/// colour is none.
pub open spec fn sheets_fold(
    files: Seq<(Seq<char>, Seq<char>)>,
    styles: Seq<Style>,
    root: Root,
    public: bool,
) -> (Seq<(Seq<char>, Seq<char>)>, Option<Seq<char>>)
    decreases styles.len(),
{
    if styles.len() == 0 {
        (files, None)
    } else {
        let (before, error) = sheets_fold(files, styles.drop_last(), root, public);
        let style = styles.last();
        if error is Some {
            (before, error)
        } else {
            match css_made(root, style.color@, style.shades, public) {
                Ok(text) => (with_file(before, sheet_name(style.name@), text), None),
                Err(e) => (before, Some(e)),
            }
        }
    }
}

pub proof fn lemma_sheets_fold_stops(
    files: Seq<(Seq<char>, Seq<char>)>,
    styles: Seq<Style>,
    k: int,
    root: Root,
    public: bool,
)
    requires
        0 <= k <= styles.len(),
        sheets_fold(files, styles.take(k), root, public).1 is Some,
    ensures
        sheets_fold(files, styles, root, public) == sheets_fold(
            files,
            styles.take(k),
            root,
            public,
        ),
    decreases styles.len() - k,
{
    if k < styles.len() {
        assert(styles.take(k + 1).drop_last() == styles.take(k));
        lemma_sheets_fold_stops(files, styles, k + 1, root, public);
    } else {
        assert(styles.take(k) == styles);
    }
}

/// The pages after all style sheets were queued: one for each of `styles`, then `css/text.css`
/// for the site's main colour with the shades `main`.
pub open spec fn css_built(
    files: Seq<(Seq<char>, Seq<char>)>,
    styles: Seq<Style>,
    main: Shades,
    root: Root,
    public: bool,
) -> (Seq<(Seq<char>, Seq<char>)>, Option<Seq<char>>) {
    let (before, error) = sheets_fold(files, styles, root, public);
    if error is Some {
        (before, error)
    } else {
        match css_made(root, root.main_color@, main, public) {
            Ok(text) => (with_file(before, "css/text.css"@, text), None),
            Err(e) => (before, Some(e)),
        }
    }
}

/// Queues the style sheets of the site. The work ends at the first colour that is none.
pub fn build_css(
    root: &Root,
    styles: &Vec<Style>,
    main: &Shades,
    file_queue: &mut FileQueue,
    public: bool,
) -> (res: Result<(), String>)
    ensures
        final(file_queue)@ == (QueueView {
            files: css_built(old(file_queue)@.files, styles@, *main, *root, public).0,
            ..old(file_queue)@
        }),
        match res {
            Ok(_) => css_built(old(file_queue)@.files, styles@, *main, *root, public).1 is None,
            Err(e) => css_built(old(file_queue)@.files, styles@, *main, *root, public).1 == Some(
                e@,
            ),
        },
{
    let ghost start = file_queue@.files;
    assert(styles@.take(0) == Seq::<Style>::empty());
    let mut i: usize = 0;
    while i < styles.len()
        invariant
            i <= styles.len(),
            start == old(file_queue)@.files,
            file_queue@ == (QueueView { files: file_queue@.files, ..old(file_queue)@ }),
            sheets_fold(start, styles@.take(i as int), *root, public) == (
                file_queue@.files,
                None::<Seq<char>>,
            ),
        decreases styles.len() - i,
    {
        proof {
            assert(styles@.take(i + 1).drop_last() == styles@.take(i as int));
            assert(styles@.take(i + 1).last() == styles@[i as int]);
        }
        let style = &styles[i];
        match css_text(root, style.color.as_str(), &style.shades, public) {
            Ok(text) => {
                let mut name = String::new();
                name.append("css/");
                name.append(style.name.as_str());
                name.append(".css");
                file_queue.add(name, text);
            },
            Err(e) => {
                proof {
                    lemma_sheets_fold_stops(start, styles@, i + 1, *root, public);
                }
                return Err(e);
            },
        }
        i += 1;
    }
    assert(styles@.take(styles@.len() as int) == styles@);
    match css_text(root, root.main_color.as_str(), main, public) {
        Ok(text) => {
            file_queue.add("css/text.css".to_owned(), text);
            Ok(())
        },
        Err(e) => Err(e),
    }
}

} // verus!
