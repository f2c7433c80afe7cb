//! Inline markup: the stack of open modifiers and the bracketed-link parser.

use crate::build::compile::{
    PageState, ParseState, image_source, published_image, with_image,
};
use crate::build::file_queue::{AppletBuild, AppletRequest};
use crate::build::refs::{RefMap, Tables, resolve};
use crate::root::Root;
use crate::text::{
    chars_of, concat2, concat3, decimal, file_name, file_name_of, parse_i32, parse_int,
    push_decimal, push_signed, signed_decimal, split, split_on, string_of, string_of_range,
};
use vstd::prelude::*;
use vstd::string::*;

verus! {

broadcast use vstd::string::group_string_axioms;

/// Whether `c` toggles an inline modifier.
pub open spec fn is_modifier(c: char) -> bool {
    c == '*' || c == '_' || c == '`' || c == '$' || c == ']'
}

/// The markup that opens the span of modifier `c`.
pub open spec fn opening_tag(c: char) -> Seq<char> {
    if c == '*' {
        "<b>"@
    } else if c == '_' {
        "<i>"@
    } else if c == '`' {
        "<code>"@
    } else {
        "\\("@
    }
}

/// The markup that closes the span of modifier `c`.
pub open spec fn closing_tag(c: char) -> Seq<char> {
    if c == '*' {
        "</b>"@
    } else if c == '_' {
        "</i>"@
    } else if c == '`' {
        "</code>"@
    } else if c == '$' {
        "\\)"@
    } else {
        "</div>"@
    }
}

/// The stack of open modifiers after `c` was checked against `stack`.
///
/// A modifier that is not open is pushed; one that is open and on top is popped; one that is
/// open below the top leaves the stack as it is.
pub open spec fn toggled(stack: Seq<char>, c: char) -> Seq<char> {
    if !is_modifier(c) {
        stack
    } else if !stack.contains(c) {
        stack.push(c)
    } else if stack.last() == c {
        stack.drop_last()
    } else {
        stack
    }
}

/// What checking `c` against `stack` yields: no markup for an ordinary character, the opening or
/// closing markup for a modifier, an error for a modifier closed out of order and for a `]`
/// that closes nothing.
pub open spec fn toggle_output(stack: Seq<char>, c: char) -> Result<Option<Seq<char>>, Seq<char>> {
    if !is_modifier(c) {
        Ok(None)
    } else if !stack.contains(c) {
        if c == ']' {
            Err("Unknown modifier ]"@)
        } else {
            Ok(Some(opening_tag(c)))
        }
    } else if stack.last() == c {
        Ok(Some(closing_tag(c)))
    } else {
        Err("Modifier misformatting"@)
    }
}

/// Whether `res` is the outcome `expected`, text compared by its characters.
pub open spec fn is_outcome(
    res: Result<Option<String>, String>,
    expected: Result<Option<Seq<char>>, Seq<char>>,
) -> bool {
    match res {
        Ok(Some(s)) => expected == Ok::<Option<Seq<char>>, Seq<char>>(Some(s@)),
        Ok(None) => expected == Ok::<Option<Seq<char>>, Seq<char>>(None),
        Err(e) => expected == Err::<Option<Seq<char>>, Seq<char>>(e@),
    }
}

/// The inline modifiers that are open, innermost last.
#[derive(Debug)]
pub struct Modifiers {
    modifiers: Vec<char>,
}

impl View for Modifiers {
    type V = Seq<char>;

    closed spec fn view(&self) -> Seq<char> {
        self.modifiers@
    }
}

fn holds(v: &Vec<char>, c: char) -> (res: bool)
    ensures
        res == v@.contains(c),
{
    let mut i: usize = 0;
    while i < v.len()
        invariant
            i <= v.len(),
            forall|j: int| 0 <= j < i ==> v@[j] != c,
        decreases v.len() - i,
    {
        if v[i] == c {
            return true;
        }
        i += 1;
    }
    false
}

fn tag(c: char, closing: bool) -> (res: String)
    requires
        is_modifier(c),
    ensures
        res@ == if closing {
            closing_tag(c)
        } else {
            opening_tag(c)
        },
{
    let text = if closing {
        if c == '*' {
            "</b>"
        } else if c == '_' {
            "</i>"
        } else if c == '`' {
            "</code>"
        } else if c == '$' {
            "\\)"
        } else {
            "</div>"
        }
    } else {
        if c == '*' {
            "<b>"
        } else if c == '_' {
            "<i>"
        } else if c == '`' {
            "<code>"
        } else {
            "\\("
        }
    };
    text.to_owned()
}

impl Modifiers {
    pub fn new() -> (res: Modifiers)
        ensures
            res@ == Seq::<char>::empty(),
    {
        Modifiers { modifiers: Vec::new() }
    }

    /// Checks one character against the open modifiers.
    pub fn check(&mut self, c: char) -> (res: Result<Option<String>, String>)
        ensures
            final(self)@ == toggled(old(self)@, c),
            is_outcome(res, toggle_output(old(self)@, c)),
    {
        if c == '*' || c == '_' || c == '`' || c == '$' || c == ']' {
            if holds(&self.modifiers, c) {
                if self.modifiers[self.modifiers.len() - 1] == c {
                    self.modifiers.pop();
                    return Ok(Some(tag(c, true)));
                } else {
                    return Err("Modifier misformatting".to_owned());
                }
            }
            self.modifiers.push(c);
            if c == ']' {
                return Err("Unknown modifier ]".to_owned());
            }
            return Ok(Some(tag(c, false)));
        }
        Ok(None)
    }

    /// Whether an inline-math span is open.
    pub fn is_latex(&self) -> (res: bool)
        ensures
            res == self@.contains('$'),
    {
        holds(&self.modifiers, '$')
    }
}

/// How far a link attempt has come.
#[derive(Clone, Copy, Debug)]
pub enum Progress {
    /// No link is open.
    Idle,
    /// Inside the display text, after `[`.
    Display,
    /// After the display text's `]`, waiting for `(` or `{`.
    Opener,
    /// Inside the target, after `(` or `{`.
    Target,
}

/// What a link parser holds.
pub struct LinkState {
    pub display: Seq<char>,
    pub target: Seq<char>,
    pub opener: char,
    pub modifiers: Seq<char>,
    pub progress: Progress,
}

/// What the link parser tells its caller about one character.
pub enum LinkSignal {
    Pushed,
    Child,
    Failed(Seq<char>),
    Footnote(Seq<char>),
    Done,
    Pass,
}

/// The state of a link parser that holds nothing.
pub open spec fn idle_link() -> LinkState {
    LinkState {
        display: Seq::empty(),
        target: Seq::empty(),
        opener: '.',
        modifiers: Seq::empty(),
        progress: Progress::Idle,
    }
}

/// `s` with its buffers emptied; the open modifiers stay.
pub open spec fn cleared(s: LinkState) -> LinkState {
    LinkState { modifiers: s.modifiers, ..idle_link() }
}

/// The text that the attempt `s` has taken in, written out again: `[` and the display text,
/// `]` once the display text has ended, the opener and the target once the target has begun.
pub open spec fn consumed(s: LinkState) -> Seq<char> {
    match s.progress {
        Progress::Idle => Seq::<char>::empty(),
        Progress::Display => seq!['['] + s.display,
        Progress::Opener => seq!['['] + s.display + seq![']'],
        Progress::Target => seq!['['] + s.display + seq![']', s.opener] + s.target,
    }
}

/// What `s` has taken in, followed by `c`.
pub open spec fn buffered(s: LinkState, c: char) -> Seq<char> {
    consumed(s).push(c)
}

/// The text of the footnote that the attempt `s` becomes: its display text, with the opener
/// and the target behind it where a target was begun.
pub open spec fn note_text(s: LinkState) -> Seq<char> {
    if s.progress is Target {
        s.display + seq![s.opener] + s.target
    } else {
        s.display
    }
}

/// What a bracket pair with no target behind it becomes when `c` follows: a footnote of its
/// display text, or, where it has none, a failure that hands back all that was taken in,
/// followed by `c`.
pub open spec fn footnote_signal(s: LinkState, c: char) -> LinkSignal {
    if s.display.len() > 0 {
        LinkSignal::Footnote(note_text(s))
    } else {
        LinkSignal::Failed(buffered(s, c))
    }
}

/// `s` with `[` taken as the opener of its target: the target of an image or an applet that
/// is given as it is to be written, between `[` and `]`.
pub open spec fn external_opened(s: LinkState) -> LinkState {
    LinkState { opener: '[', progress: Progress::Target, ..s }
}

/// The link parser's transition on `c`: the next state, and the signal or the error.
///
/// A target that was opened with `(` ends at `)`, one opened with `{` at `}`, and an external
/// target, opened with `[`, at `]`.
pub open spec fn link_step(s: LinkState, c: char) -> (LinkState, Result<LinkSignal, Seq<char>>) {
    if c == '[' {
        if s.progress is Idle {
            (
                LinkState { display: Seq::empty(), progress: Progress::Display, ..s },
                Ok(LinkSignal::Pushed),
            )
        } else {
            (s, Ok(LinkSignal::Child))
        }
    } else if (c == '(' || c == '{') && s.progress is Opener {
        (LinkState { opener: c, progress: Progress::Target, ..s }, Ok(LinkSignal::Pushed))
    } else if c == ']' && s.progress is Display {
        (LinkState { progress: Progress::Opener, ..s }, Ok(LinkSignal::Pushed))
    } else if c == ')' && s.progress is Target && s.opener == '(' {
        (s, Ok(LinkSignal::Done))
    } else if c == ']' && s.progress is Target && s.opener == '[' {
        (s, Ok(LinkSignal::Done))
    } else if c == '}' && s.progress is Target && s.opener == '{' {
        (LinkState { progress: Progress::Opener, ..s }, Ok(LinkSignal::Done))
    } else {
        match s.progress {
            Progress::Idle => (s, Ok(LinkSignal::Pass)),
            Progress::Display => match toggle_output(s.modifiers, c) {
                Ok(Some(markup)) => (
                    LinkState {
                        display: s.display + markup,
                        modifiers: toggled(s.modifiers, c),
                        ..s
                    },
                    Ok(LinkSignal::Pushed),
                ),
                Ok(None) => (
                    LinkState { display: s.display.push(c), ..s },
                    Ok(LinkSignal::Pushed),
                ),
                Err(e) => (LinkState { modifiers: toggled(s.modifiers, c), ..s }, Err(e)),
            },
            Progress::Opener => (cleared(s), Ok(footnote_signal(s, c))),
            Progress::Target => (
                LinkState { target: s.target.push(c), ..s },
                Ok(LinkSignal::Pushed),
            ),
        }
    }
}

/// The outcome of feeding one character to a link parser.
#[derive(Clone, Debug)]
pub enum LinkReturn {
    /// The character was taken into the link.
    Pushed,
    /// The character opens a link inside this one.
    Child,
    /// The character makes the link invalid; the text is to be written out.
    Failed(String),
    /// The bracket pair was a footnote with this text.
    Footnote(String),
    /// The link is complete.
    Done,
    /// No link is open and the character starts none.
    Pass,
}

impl View for LinkReturn {
    type V = LinkSignal;

    open spec fn view(&self) -> LinkSignal {
        match self {
            LinkReturn::Pushed => LinkSignal::Pushed,
            LinkReturn::Child => LinkSignal::Child,
            LinkReturn::Failed(s) => LinkSignal::Failed(s@),
            LinkReturn::Footnote(s) => LinkSignal::Footnote(s@),
            LinkReturn::Done => LinkSignal::Done,
            LinkReturn::Pass => LinkSignal::Pass,
        }
    }
}

/// Whether `res` is the outcome `expected`, text compared by its characters.
pub open spec fn is_signal(
    res: Result<LinkReturn, String>,
    expected: Result<LinkSignal, Seq<char>>,
) -> bool {
    match res {
        Ok(r) => expected == Ok::<LinkSignal, Seq<char>>(r@),
        Err(e) => expected == Err::<LinkSignal, Seq<char>>(e@),
    }
}

/// A parser for one bracketed link.
#[derive(Debug)]
pub struct PossibleLink {
    pub display_text: String,
    link_text: String,
    link_type: char,
    modifiers: Modifiers,
    progress: Progress,
}

impl View for PossibleLink {
    type V = LinkState;

    closed spec fn view(&self) -> LinkState {
        LinkState {
            display: self.display_text@,
            target: self.link_text@,
            opener: self.link_type,
            modifiers: self.modifiers@,
            progress: self.progress,
        }
    }
}

impl PossibleLink {
    pub fn new() -> (res: PossibleLink)
        ensures
            res@ == idle_link(),
    {
        PossibleLink {
            display_text: String::new(),
            link_text: String::new(),
            link_type: '.',
            modifiers: Modifiers::new(),
            progress: Progress::Idle,
        }
    }

    /// Feeds one character to the parser.
    pub fn try_add(&mut self, c: char) -> (res: Result<LinkReturn, String>)
        ensures
            final(self)@ == link_step(old(self)@, c).0,
            is_signal(res, link_step(old(self)@, c).1),
    {
        if c == '[' {
            match self.progress {
                Progress::Idle => {
                    self.display_text = String::new();
                    self.progress = Progress::Display;
                    return Ok(LinkReturn::Pushed);
                },
                _ => {
                    return Ok(LinkReturn::Child);
                },
            }
        }
        match self.progress {
            Progress::Idle => Ok(LinkReturn::Pass),
            Progress::Display => {
                if c == ']' {
                    self.progress = Progress::Opener;
                    return Ok(LinkReturn::Pushed);
                }
                match self.modifiers.check(c) {
                    Ok(Some(markup)) => {
                        self.display_text.append(markup.as_str());
                        Ok(LinkReturn::Pushed)
                    },
                    Ok(None) => {
                        self.display_text.push(c);
                        Ok(LinkReturn::Pushed)
                    },
                    Err(e) => Err(e),
                }
            },
            Progress::Opener => {
                if c == '(' || c == '{' {
                    self.link_type = c;
                    self.progress = Progress::Target;
                    return Ok(LinkReturn::Pushed);
                }
                Ok(self.prep_for_footnote(c))
            },
            Progress::Target => {
                if (c == ')' && self.link_type == '(') || (c == ']' && self.link_type == '[') {
                    return Ok(LinkReturn::Done);
                }
                if c == '}' && self.link_type == '{' {
                    self.progress = Progress::Opener;
                    return Ok(LinkReturn::Done);
                }
                self.link_text.push(c);
                Ok(LinkReturn::Pushed)
            },
        }
    }

    /// Ends a bracket pair that no target follows.
    pub fn prep_for_footnote(&mut self, c: char) -> (res: LinkReturn)
        ensures
            final(self)@ == cleared(old(self)@),
            res@ == footnote_signal(old(self)@, c),
    {
        if self.display_text.as_str().is_empty() {
            return LinkReturn::Failed(self.clear(c));
        }
        let mut note = String::new();
        note.append(self.display_text.as_str());
        if let Progress::Target = self.progress {
            note.push(self.link_type);
            note.append(self.link_text.as_str());
        }
        assert(note@ =~= note_text(self@));
        self.progress = Progress::Idle;
        self.display_text = String::new();
        self.link_text = String::new();
        self.link_type = '.';
        LinkReturn::Footnote(note)
    }

    /// What the parser has taken in, written out again.
    pub fn held(&self) -> (res: String)
        ensures
            res@ == consumed(self@),
    {
        let mut out = String::new();
        match self.progress {
            Progress::Idle => {},
            Progress::Display => {
                out.push('[');
                out.append(self.display_text.as_str());
            },
            Progress::Opener => {
                out.push('[');
                out.append(self.display_text.as_str());
                out.push(']');
            },
            Progress::Target => {
                out.push('[');
                out.append(self.display_text.as_str());
                out.push(']');
                out.push(self.link_type);
                out.append(self.link_text.as_str());
            },
        }
        assert(out@ =~= consumed(self@));
        out
    }

    /// Empties the parser and returns what it had taken in, followed by `c`.
    pub fn clear(&mut self, c: char) -> (res: String)
        ensures
            final(self)@ == cleared(old(self)@),
            res@ == buffered(old(self)@, c),
    {
        let mut out = self.held();
        out.push(c);
        self.progress = Progress::Idle;
        self.display_text = String::new();
        self.link_text = String::new();
        self.link_type = '.';
        out
    }

    /// Takes `[` as the opener of the target, where the parser waits for an opener: the target
    /// of an image or an applet that is given as it is to be written. Elsewhere the parser stays
    /// as it is, and the result is false.
    pub fn open_external(&mut self) -> (res: bool)
        ensures
            res == (old(self)@.progress is Opener),
            final(self)@ == if res {
                external_opened(old(self)@)
            } else {
                old(self)@
            },
    {
        match self.progress {
            Progress::Opener => {
                self.link_type = '[';
                self.progress = Progress::Target;
                true
            },
            _ => false,
        }
    }

    /// Whether an inline-math span is open inside the display text.
    pub fn modifiers_is_latex(&self) -> (res: bool)
        ensures
            res == self@.modifiers.contains('$'),
    {
        self.modifiers.is_latex()
    }

    /// Appends `c` to the display text as it is.
    pub fn unchecked_add(&mut self, c: char)
        ensures
            final(self)@ == (LinkState { display: old(self)@.display.push(c), ..old(self)@ }),
    {
        self.display_text.push(c)
    }

    /// Appends `markup` to the display text as it is.
    pub fn splice(&mut self, markup: &str)
        ensures
            final(self)@ == (LinkState { display: old(self)@.display + markup@, ..old(self)@ }),
    {
        self.display_text.append(markup)
    }
}

/// The anchor that shows `text` and leads to `href`.
pub open spec fn anchor(href: Seq<char>, text: Seq<char>) -> Seq<char> {
    "<a href="@ + href + ">"@ + text + "</a>"@
}

/// The markup of a complete link, or why it cannot be made.
///
/// A `(` link leads to its target as written. A `{` link leads to what its target names in
/// `refs`, and shows that reference's title where it has no display text of its own.
pub open spec fn link_made(link: LinkState, refs: Tables) -> Result<Seq<char>, Seq<char>> {
    if link.opener == '(' {
        Ok(anchor(link.target, link.display))
    } else if link.opener == '{' {
        match resolve(refs, link.target) {
            Some((title, href)) => Ok(
                anchor(
                    href,
                    if link.display.len() == 0 {
                        title
                    } else {
                        link.display
                    },
                ),
            ),
            None => Err("Could not find link "@ + link.target),
        }
    } else {
        Err("Internal link parsing error"@)
    }
}

/// The path and the width in percent that an image's target gives: the width stands behind a
/// `?`, and is 100 where there is none.
pub open spec fn image_args(target: Seq<char>) -> Result<(Seq<char>, int), Seq<char>> {
    let parts = split(target, '?');
    if parts.len() == 1 {
        Ok((parts[0], 100))
    } else if parts.len() == 2 {
        match parse_int(parts[1]) {
            Some(width) => Ok((parts[0], width)),
            None => Err("Argument "@ + parts[1] + " was not an integer"@),
        }
    } else {
        Err("Image had too many question marks in it. "@ + target)
    }
}

/// The markup of figure number `n`.
pub open spec fn figure_markup(href: Seq<char>, width: int, n: nat, caption: Seq<char>) -> Seq<
    char,
> {
    "<center><a href=\""@ + href + "\"><img width="@ + signed_decimal(width) + "% src=\""@ + href
        + "\" alt=\""@ + caption + "\" /></a>\n        <div class=\"caption\" id=\"fig"@ + decimal(n)
        + "\"><b>Figure "@ + decimal(n) + ":</b> "@ + caption + "</div></center>"@
}

/// The page state and the markup that a complete image link gives, or why it gives none.
///
/// A `{` image is one of the page's own: it has to be on disk, its copy is registered, and
/// the markup leads to the published copy. A `[` image is external: the markup leads to the
/// target as it is written, and nothing is copied. Every image takes the next figure number.
pub open spec fn image_made(link: LinkState, page: PageState, root: Root, public: bool) -> Result<
    (PageState, Seq<char>),
    Seq<char>,
> {
    match image_args(link.target) {
        Err(e) => Err(e),
        Ok((name, width)) => if link.opener != '[' && link.opener != '{' {
            Err("Internal link parsing error"@)
        } else if page.figures >= u32::MAX {
            Err("Too many figures"@)
        } else if link.opener == '[' {
            Ok(
                (
                    PageState { figures: page.figures + 1, ..page },
                    figure_markup(name, width, page.figures + 1, link.display),
                ),
            )
        } else if !page.files.contains(image_source(root, page, name)) {
            Err("Could not find image "@ + image_source(root, page, name))
        } else {
            Ok(
                (
                    PageState { figures: page.figures + 1, ..with_image(root, page, name) },
                    figure_markup(
                        root.link(published_image(page, name), public),
                        width,
                        page.figures + 1,
                        link.display,
                    ),
                ),
            )
        },
    }
}

/// The upper-case form of `c`, as `char::to_uppercase` gives it.
pub uninterp spec fn upper_case(c: char) -> Seq<char>;

/// `char::to_uppercase`, collected into a string: the upper-case mapping of `c`, which may be
/// more than one character.
#[verifier::external_body]
fn to_upper(c: char) -> (res: String)
    ensures
        res@ == upper_case(c),
{
    c.to_uppercase().collect()
}

/// The camel-case form of the beginning of a name, and whether the next letter is a first
/// letter.
pub open spec fn camel_fold(name: Seq<char>) -> (Seq<char>, bool)
    decreases name.len(),
{
    if name.len() == 0 {
        (Seq::empty(), true)
    } else {
        let (out, first) = camel_fold(name.drop_last());
        let c = name.last();
        if c == '_' {
            (out, true)
        } else if first {
            (out + upper_case(c), false)
        } else {
            (out.push(c), false)
        }
    }
}

/// A name in camel case: the underscores leave, and the first letter and each letter behind
/// an underscore is in upper case.
pub open spec fn camel_case(name: Seq<char>) -> Seq<char> {
    camel_fold(name).0
}

/// Computes `camel_case(name)`.
pub fn to_camel_case(name: &str) -> (res: String)
    ensures
        res@ == camel_case(name@),
{
    let chars = chars_of(name);
    let mut out = String::new();
    let mut first = true;
    let mut i: usize = 0;
    assert(chars@.take(0) == Seq::<char>::empty());
    while i < chars.len()
        invariant
            i <= chars.len(),
            (out@, first) == camel_fold(chars@.take(i as int)),
        decreases chars.len() - i,
    {
        let c = chars[i];
        proof {
            assert(chars@.take(i + 1).drop_last() == chars@.take(i as int));
            assert(chars@.take(i + 1).last() == c);
        }
        if c == '_' {
            first = true;
        } else if first {
            out.append(to_upper(c).as_str());
            first = false;
        } else {
            out.push(c);
            first = false;
        }
        i += 1;
    }
    assert(chars@.take(chars@.len() as int) == chars@);
    out
}

/// The path, the width and the height that an applet's target gives: width and height stand
/// behind a `?` each, and are 640 and 480 where there are none.
pub open spec fn applet_args(target: Seq<char>) -> Result<(Seq<char>, int, int), Seq<char>> {
    let parts = split(target, '?');
    if parts.len() == 1 {
        Ok((parts[0], 640, 480))
    } else if parts.len() == 3 {
        match parse_int(parts[1]) {
            None => Err("Argument "@ + parts[1] + " was not an integer"@),
            Some(width) => match parse_int(parts[2]) {
                None => Err("Argument "@ + parts[2] + " was not an integer"@),
                Some(height) => Ok((parts[0], width, height)),
            },
        }
    } else {
        Err("Applet had too many question marks in it. "@ + target)
    }
}

/// The markup that embeds the applet `name`, whose script is at `bin`.
pub open spec fn applet_markup(
    name: Seq<char>,
    camel: Seq<char>,
    caption: Seq<char>,
    bin: Seq<char>,
) -> Seq<char> {
    "<center><canvas id=\""@
    + name
    + "\"></canvas>\n        <div class=\"caption\"><b>Applet:</b> "@
    + caption
    + "</div></center>\n<script type=\"module\">\n    import init, {"@
    + camel
    + "} from \""@
    + bin
    + "\";\n    await init();\n\n    const "@
    + name
    + " = "@
    + camel
    + ".new(\""@
    + name
    + "\");\n    let last = Date.now();\n\n    const renderLoop = () => {\n        let now = Date.now();\n        requestAnimationFrame(renderLoop);\n        if (now - last > 17) {\n            last = now;\n            "@
    + name
    + ".tick();\n            "@
    + name
    + ".render();\n        }\n    };\n    document.getElementById(\""@
    + name
    + "\").addEventListener(\"mousedown\", function(event) {\n        "@
    + name
    + ".mouse_button_down(event.offsetX, event.offsetY)\n    });\n    document.getElementById(\""@
    + name
    + "\").addEventListener(\"mouseup\", function(event) {\n        "@
    + name
    + ".mouse_button_up(event.offsetX, event.offsetY)\n    });\n    document.getElementById(\""@
    + name
    + "\").addEventListener(\"mousemove\", function(event) {\n        "@
    + name
    + ".mouse_move(event.offsetX, event.offsetY)\n    });\n    requestAnimationFrame(renderLoop);\n\n</script>"@
}

fn write_applet_markup(name: &str, camel: &str, caption: &str, bin: &str) -> (out: String)
    ensures
        out@ == applet_markup(name@, camel@, caption@, bin@),
{
    let mut out = String::new();
    out.append("<center><canvas id=\"");
    out.append(name);
    out.append("\"></canvas>\n        <div class=\"caption\"><b>Applet:</b> ");
    out.append(caption);
    out.append("</div></center>\n<script type=\"module\">\n    import init, {");
    out.append(camel);
    out.append("} from \"");
    out.append(bin);
    out.append("\";\n    await init();\n\n    const ");
    out.append(name);
    out.append(" = ");
    out.append(camel);
    out.append(".new(\"");
    out.append(name);
    out.append("\");\n    let last = Date.now();\n\n    const renderLoop = () => {\n        let now = Date.now();\n        requestAnimationFrame(renderLoop);\n        if (now - last > 17) {\n            last = now;\n            ");
    out.append(name);
    out.append(".tick();\n            ");
    out.append(name);
    out.append(".render();\n        }\n    };\n    document.getElementById(\"");
    out.append(name);
    out.append("\").addEventListener(\"mousedown\", function(event) {\n        ");
    out.append(name);
    out.append(".mouse_button_down(event.offsetX, event.offsetY)\n    });\n    document.getElementById(\"");
    out.append(name);
    out.append("\").addEventListener(\"mouseup\", function(event) {\n        ");
    out.append(name);
    out.append(".mouse_button_up(event.offsetX, event.offsetY)\n    });\n    document.getElementById(\"");
    out.append(name);
    out.append("\").addEventListener(\"mousemove\", function(event) {\n        ");
    out.append(name);
    out.append(".mouse_move(event.offsetX, event.offsetY)\n    });\n    requestAnimationFrame(renderLoop);\n\n</script>");
    out
}

/// Where the crate of the applet at `path` lies: a `[` path is taken as written, a `{` path
/// lies under `code/` in the site's directory.
pub open spec fn applet_dir(opener: char, path: Seq<char>, root: Root) -> Seq<char> {
    if opener == '[' {
        path
    } else {
        root.path("code/"@ + path)
    }
}

/// The page state and the markup that a complete applet link gives, or why it gives none.
/// The applet is registered to be built; its script is published under `bin/`.
pub open spec fn applet_made(link: LinkState, page: PageState, root: Root, public: bool) -> Result<
    (PageState, Seq<char>),
    Seq<char>,
> {
    match applet_args(link.target) {
        Err(e) => Err(e),
        Ok((path, width, height)) => {
            let dir = applet_dir(link.opener, path, root);
            let name = file_name(dir);
            if link.opener != '[' && link.opener != '{' {
                Err("Internal link parsing error"@)
            } else if name.len() == 0 {
                Err("Applet path "@ + dir + " has no name"@)
            } else {
                Ok(
                    (
                        PageState {
                            applets: page.applets.push(
                                AppletRequest {
                                    path: dir,
                                    name,
                                    camel_name: camel_case(name),
                                    width,
                                    height,
                                },
                            ),
                            ..page
                        },
                        applet_markup(
                            name,
                            camel_case(name),
                            link.display,
                            root.link("bin/"@ + name + ".js"@, public),
                        ),
                    ),
                )
            }
        },
    }
}

/// Whether `res` is the text or the error `expected`.
pub open spec fn is_text(res: Result<String, String>, expected: Result<Seq<char>, Seq<char>>) -> bool {
    match res {
        Ok(s) => expected == Ok::<Seq<char>, Seq<char>>(s@),
        Err(e) => expected == Err::<Seq<char>, Seq<char>>(e@),
    }
}

impl PossibleLink {
    fn reset(&mut self)
        ensures
            final(self)@ == cleared(old(self)@),
    {
        self.progress = Progress::Idle;
        self.display_text = String::new();
        self.link_text = String::new();
        self.link_type = '.';
    }

    /// Makes the markup of the link that was completed, and empties the parser. Where the link
    /// cannot be made, the parser stays as it is.
    pub fn make(&mut self, ref_map: &RefMap) -> (res: Result<String, String>)
        ensures
            is_text(res, link_made(old(self)@, ref_map@)),
            final(self)@ == if res is Ok {
                cleared(old(self)@)
            } else {
                old(self)@
            },
    {
        let mut out = String::new();
        if self.link_type == '(' {
            out.append("<a href=");
            out.append(self.link_text.as_str());
            out.append(">");
            out.append(self.display_text.as_str());
            out.append("</a>");
        } else if self.link_type == '{' {
            match ref_map.get_link(self.link_text.as_str()) {
                Some((title, href)) => {
                    out.append("<a href=");
                    out.append(href.as_str());
                    out.append(">");
                    if self.display_text.as_str().is_empty() {
                        out.append(title.as_str());
                    } else {
                        out.append(self.display_text.as_str());
                    }
                    out.append("</a>");
                },
                None => {
                    return Err(concat2("Could not find link ", self.link_text.as_str()));
                },
            }
        } else {
            return Err("Internal link parsing error".to_owned());
        }
        self.reset();
        Ok(out)
    }

    /// Makes the markup of the image whose link was completed, counts it as a figure, and
    /// empties the parser. Where the image cannot be made, parser and page state stay as
    /// they are.
    pub fn make_img(&mut self, parse_state: &mut ParseState, root: &Root, public: bool) -> (res:
        Result<String, String>)
        ensures
            match image_made(old(self)@, old(parse_state)@, *root, public) {
                Ok((page, markup)) => res is Ok && res->Ok_0@ == markup && final(parse_state)@
                    == page && final(self)@ == cleared(old(self)@),
                Err(e) => res is Err && res->Err_0@ == e && final(parse_state)@ == old(
                    parse_state,
                )@ && final(self)@ == old(self)@,
            },
    {
        let target = chars_of(self.link_text.as_str());
        let parts = split_on(&target, '?');
        let (image_path, image_width): (String, i32) = if parts.len() == 1 {
            (string_of(&parts[0]), 100)
        } else if parts.len() == 2 {
            match parse_i32(&parts[1]) {
                Some(i) => (string_of(&parts[0]), i),
                None => {
                    return Err(
                        concat3("Argument ", string_of(&parts[1]).as_str(), " was not an integer"),
                    );
                },
            }
        } else {
            return Err(
                concat2("Image had too many question marks in it. ", self.link_text.as_str()),
            );
        };
        if self.link_type != '[' && self.link_type != '{' {
            return Err("Internal link parsing error".to_owned());
        }
        if !parse_state.has_figure_left() {
            return Err("Too many figures".to_owned());
        }
        let href = if self.link_type == '[' {
            image_path
        } else {
            let ghost page = parse_state@;
            match parse_state.move_img(root, image_path.as_str()) {
                Ok(_) => {},
                Err(e) => {
                    return Err(e);
                },
            }
            assert(published_image(parse_state@, image_path@) == published_image(
                page,
                image_path@,
            ));
            parse_state.published_link(root, image_path.as_str(), public)
        };
        let n = parse_state.figure();
        let mut out = String::new();
        out.append("<center><a href=\"");
        out.append(href.as_str());
        out.append("\"><img width=");
        push_signed(&mut out, image_width);
        out.append("% src=\"");
        out.append(href.as_str());
        out.append("\" alt=\"");
        out.append(self.display_text.as_str());
        out.append("\" /></a>\n        <div class=\"caption\" id=\"fig");
        push_decimal(&mut out, n as u64);
        out.append("\"><b>Figure ");
        push_decimal(&mut out, n as u64);
        out.append(":</b> ");
        out.append(self.display_text.as_str());
        out.append("</div></center>");
        self.reset();
        Ok(out)
    }

    /// Makes the markup that embeds the applet whose link was completed, registers the applet
    /// to be built, and empties the parser. Where the applet cannot be made, parser and page
    /// state stay as they are.
    pub fn make_applet(&mut self, parse_state: &mut ParseState, root: &Root, public: bool) -> (res:
        Result<String, String>)
        ensures
            match applet_made(old(self)@, old(parse_state)@, *root, public) {
                Ok((page, markup)) => res is Ok && res->Ok_0@ == markup && final(parse_state)@
                    == page && final(self)@ == cleared(old(self)@),
                Err(e) => res is Err && res->Err_0@ == e && final(parse_state)@ == old(
                    parse_state,
                )@ && final(self)@ == old(self)@,
            },
    {
        let target = chars_of(self.link_text.as_str());
        let parts = split_on(&target, '?');
        let (applet_path, width, height): (String, i32, i32) = if parts.len() == 1 {
            (string_of(&parts[0]), 640, 480)
        } else if parts.len() == 3 {
            let width = match parse_i32(&parts[1]) {
                Some(i) => i,
                None => {
                    return Err(
                        concat3("Argument ", string_of(&parts[1]).as_str(), " was not an integer"),
                    );
                },
            };
            let height = match parse_i32(&parts[2]) {
                Some(i) => i,
                None => {
                    return Err(
                        concat3("Argument ", string_of(&parts[2]).as_str(), " was not an integer"),
                    );
                },
            };
            (string_of(&parts[0]), width, height)
        } else {
            return Err(
                concat2("Applet had too many question marks in it. ", self.link_text.as_str()),
            );
        };
        let rust_path = if self.link_type == '[' {
            applet_path
        } else if self.link_type == '{' {
            root.get_path_from_local(concat2("code/", applet_path.as_str()).as_str())
        } else {
            return Err("Internal link parsing error".to_owned());
        };
        let path_chars = chars_of(rust_path.as_str());
        let name = file_name_of(&path_chars);
        if name.as_str().is_empty() {
            return Err(concat3("Applet path ", rust_path.as_str(), " has no name"));
        }
        let camel = to_camel_case(name.as_str());
        let bin = root.get_link_from_local(concat3("bin/", name.as_str(), ".js").as_str(), public);
        let out = write_applet_markup(
            name.as_str(),
            camel.as_str(),
            self.display_text.as_str(),
            bin.as_str(),
        );
        parse_state.add_applet(
            AppletBuild { path: rust_path, name, camel_name: camel, width, height },
        );
        self.reset();
        Ok(out)
    }
}

} // verus!
