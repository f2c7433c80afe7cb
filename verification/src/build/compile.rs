//! Block commands, and the line parser that renders one source line.

use crate::build::file_queue::{AppletBuild, AppletRequest, FileQueue, QueueView, lemma_requests_push, requests};
use crate::build::links::{
    LinkReturn, LinkSignal, LinkState, Modifiers, PossibleLink, applet_made, consumed,
    external_opened, idle_link, image_made, is_text, link_made, link_step, toggle_output, toggled,
};
use crate::build::refs::{RefMap, Tables, at_line};
use crate::root::Root;
use crate::text::{
    chars_of, concat2, decimal, file_name, has_prefix, lemma_text_pairs_push, lemma_texts_push,
    parent_dir, parent_of, push_decimal, push_signed, signed_decimal, skip_chars, skip_of,
    starts_with, string_of_range, text_pairs, texts,
};
use vstd::prelude::*;
use vstd::string::*;

verus! {

broadcast use vstd::string::group_string_axioms;

/// The two kinds of list.
#[derive(Copy, Clone, Debug, PartialEq, Eq, Structural)]
pub enum ListType {
    Ordered,
    Unordered,
}

/// What the leading characters of a line say the line is.
///
/// The `..Progress` states and `Evaluating` occur only while the leading characters are read.
#[derive(Copy, Clone, Debug, PartialEq, Eq, Structural)]
pub enum CommandTypes {
    NoCommand,
    Evaluating,
    Header(u8),
    HeaderProgress(u8),
    BlockQuote,
    List(ListType),
    OrderedListProgress,
    Code,
    CodeProgress(u8),
    Image,
    Applet,
    MultiLatex,
    MultiLatexProgress,
    Comment,
    Label,
    Failed,
}

impl CommandTypes {
    /// Header levels run from 1 to 5, and a code fence has at most 3 backticks.
    pub open spec fn wf(self) -> bool {
        match self {
            CommandTypes::Header(i) => 1 <= i <= 5,
            CommandTypes::HeaderProgress(i) => 1 <= i <= 5,
            CommandTypes::CodeProgress(i) => 1 <= i <= 3,
            _ => true,
        }
    }

    /// Whether the state still reads leading characters.
    pub open spec fn is_progressive(self) -> bool {
        match self {
            CommandTypes::Evaluating => true,
            CommandTypes::HeaderProgress(_) => true,
            CommandTypes::CodeProgress(_) => true,
            CommandTypes::OrderedListProgress => true,
            CommandTypes::MultiLatexProgress => true,
            _ => false,
        }
    }
}

/// The command that the first character of a line begins.
pub open spec fn first_step(c: char) -> CommandTypes {
    if c == '#' {
        CommandTypes::HeaderProgress(1)
    } else if c == '>' {
        CommandTypes::BlockQuote
    } else if c == '`' {
        CommandTypes::CodeProgress(1)
    } else if c == '1' {
        CommandTypes::OrderedListProgress
    } else if c == '*' {
        CommandTypes::List(ListType::Unordered)
    } else if c == '!' {
        CommandTypes::Image
    } else if c == '?' {
        CommandTypes::Applet
    } else if c == '$' {
        CommandTypes::MultiLatexProgress
    } else if c == '%' {
        CommandTypes::Comment
    } else if c == '~' {
        CommandTypes::Label
    } else {
        CommandTypes::NoCommand
    }
}

/// The recognizer's state after `c`.
///
/// A header counts up to five `#` and is settled by the next other character; a sixth `#`
/// fails. A code fence is three backticks and is settled by the next other character; a fourth
/// backtick fails. `1` needs `.` behind it, `$` a second `$`. A settled state stays.
pub open spec fn command_step(t: CommandTypes, c: char) -> CommandTypes {
    match t {
        CommandTypes::Evaluating => first_step(c),
        CommandTypes::HeaderProgress(i) => if c == '#' {
            if 1 <= i < 5 {
                CommandTypes::HeaderProgress((i + 1) as u8)
            } else {
                CommandTypes::Failed
            }
        } else if 1 <= i <= 5 {
            CommandTypes::Header(i)
        } else {
            CommandTypes::Failed
        },
        CommandTypes::CodeProgress(i) => if c == '`' {
            if 1 <= i < 3 {
                CommandTypes::CodeProgress((i + 1) as u8)
            } else {
                CommandTypes::Failed
            }
        } else if i == 3 {
            CommandTypes::Code
        } else {
            CommandTypes::Failed
        },
        CommandTypes::OrderedListProgress => if c == '.' {
            CommandTypes::List(ListType::Ordered)
        } else {
            CommandTypes::Failed
        },
        CommandTypes::MultiLatexProgress => if c == '$' {
            CommandTypes::MultiLatex
        } else {
            CommandTypes::Failed
        },
        _ => t,
    }
}

/// Whether the recognizer in state `t` takes `c` for itself: every character read while the
/// command is not settled, but the one that shows that the line has no command; and every `$`
/// of a display-math line.
pub open spec fn command_takes(t: CommandTypes, c: char) -> bool {
    if t is MultiLatex {
        c == '$'
    } else {
        t.is_progressive() && !(command_step(t, c) is NoCommand)
    }
}

/// The markup that goes before the body of a line with command `t`.
pub open spec fn prefix_text(t: CommandTypes) -> Seq<char> {
    match t {
        CommandTypes::Header(i) => if i == 1 {
            "<h1>"@
        } else if i == 2 {
            "<button class=\"collapsible\"><h2>"@
        } else if i == 3 {
            "<h3>"@
        } else if i == 4 {
            "<h4>"@
        } else {
            "<h5>"@
        },
        CommandTypes::BlockQuote => "<blockquote>"@,
        CommandTypes::Code => "<code>"@,
        CommandTypes::List(_) => "<li>"@,
        CommandTypes::MultiLatex => "\\["@,
        _ => ""@,
    }
}

/// The markup that goes behind the body of a line with command `t`. A level-2 header leaves a
/// section block open.
pub open spec fn postfix_text(t: CommandTypes) -> Seq<char> {
    match t {
        CommandTypes::Header(i) => if i == 1 {
            "</h1>"@
        } else if i == 2 {
            "</h2></button><div class=\"section\">"@
        } else if i == 3 {
            "</h3>"@
        } else if i == 4 {
            "</h4>"@
        } else {
            "</h5>"@
        },
        CommandTypes::BlockQuote => "</blockquote>"@,
        CommandTypes::Code => "</code>"@,
        CommandTypes::List(_) => "</li>"@,
        CommandTypes::MultiLatex => "\\]"@,
        _ => ""@,
    }
}

/// The recognizer of a line's block command.
pub struct Command {
    pub c_type: CommandTypes,
}

impl Command {
    pub fn new() -> (res: Command)
        ensures
            res.c_type == CommandTypes::Evaluating,
    {
        Command { c_type: CommandTypes::Evaluating }
    }

    /// Reads one character. Returns true where the recognizer took the character for itself,
    /// false where it is the line parser's.
    pub fn parse_command(&mut self, c: char) -> (res: bool)
        ensures
            final(self).c_type == command_step(old(self).c_type, c),
            res == command_takes(old(self).c_type, c),
            old(self).c_type.wf() ==> final(self).c_type.wf(),
    {
        let next = match self.c_type {
            CommandTypes::Evaluating => match c {
                '#' => CommandTypes::HeaderProgress(1),
                '>' => CommandTypes::BlockQuote,
                '`' => CommandTypes::CodeProgress(1),
                '1' => CommandTypes::OrderedListProgress,
                '*' => CommandTypes::List(ListType::Unordered),
                '!' => CommandTypes::Image,
                '?' => CommandTypes::Applet,
                '$' => CommandTypes::MultiLatexProgress,
                '%' => CommandTypes::Comment,
                '~' => CommandTypes::Label,
                _ => CommandTypes::NoCommand,
            },
            CommandTypes::HeaderProgress(i) => if c == '#' {
                if 1 <= i && i < 5 {
                    CommandTypes::HeaderProgress(i + 1)
                } else {
                    CommandTypes::Failed
                }
            } else if 1 <= i && i <= 5 {
                CommandTypes::Header(i)
            } else {
                CommandTypes::Failed
            },
            CommandTypes::CodeProgress(i) => if c == '`' {
                if 1 <= i && i < 3 {
                    CommandTypes::CodeProgress(i + 1)
                } else {
                    CommandTypes::Failed
                }
            } else if i == 3 {
                CommandTypes::Code
            } else {
                CommandTypes::Failed
            },
            CommandTypes::OrderedListProgress => if c == '.' {
                CommandTypes::List(ListType::Ordered)
            } else {
                CommandTypes::Failed
            },
            CommandTypes::MultiLatexProgress => if c == '$' {
                CommandTypes::MultiLatex
            } else {
                CommandTypes::Failed
            },
            CommandTypes::MultiLatex => {
                return c == '$';
            },
            _ => {
                return false;
            },
        };
        self.c_type = next;
        match next {
            CommandTypes::NoCommand => false,
            _ => true,
        }
    }

    /// The markup that goes before the line's body.
    pub fn prefix(&self) -> (res: String)
        requires
            self.c_type.wf(),
        ensures
            res@ == prefix_text(self.c_type),
    {
        let text = match self.c_type {
            CommandTypes::Header(i) => if i == 1 {
                "<h1>"
            } else if i == 2 {
                "<button class=\"collapsible\"><h2>"
            } else if i == 3 {
                "<h3>"
            } else if i == 4 {
                "<h4>"
            } else {
                "<h5>"
            },
            CommandTypes::BlockQuote => "<blockquote>",
            CommandTypes::Code => "<code>",
            CommandTypes::List(_) => "<li>",
            CommandTypes::MultiLatex => "\\[",
            _ => "",
        };
        text.to_owned()
    }

    /// The markup that goes behind the line's body.
    pub fn postfix(&self) -> (res: String)
        requires
            self.c_type.wf(),
        ensures
            res@ == postfix_text(self.c_type),
    {
        let text = match self.c_type {
            CommandTypes::Header(i) => if i == 1 {
                "</h1>"
            } else if i == 2 {
                "</h2></button><div class=\"section\">"
            } else if i == 3 {
                "</h3>"
            } else if i == 4 {
                "</h4>"
            } else {
                "</h5>"
            },
            CommandTypes::BlockQuote => "</blockquote>",
            CommandTypes::Code => "</code>",
            CommandTypes::List(_) => "</li>",
            CommandTypes::MultiLatex => "\\]",
            _ => "",
        };
        text.to_owned()
    }
}

/// What is carried from line to line while one file is rendered.
pub struct PageState {
    /// The list that is open, if any.
    pub list: Option<ListType>,
    /// Whether a paragraph is open.
    pub paragraph: bool,
    /// Whether the block of a level-2 header is open.
    pub section: bool,
    /// The directory of the file, from the site's directory.
    pub local_path: Seq<char>,
    /// The images to copy: from where, to where.
    pub images: Seq<(Seq<char>, Seq<char>)>,
    /// The number of figures so far.
    pub figures: nat,
    /// The footnotes so far.
    pub footnotes: Seq<Seq<char>>,
    /// The paths of the files that are on disk.
    pub files: Seq<Seq<char>>,
    /// The applets to build.
    pub applets: Seq<AppletRequest>,
}

/// The directory of the file at `path`, without a leading `./`.
pub open spec fn page_dir(path: Seq<char>) -> Seq<char> {
    let dir = parent_dir(path);
    if has_prefix(dir, "./"@) {
        dir.subrange(2, dir.len() as int)
    } else {
        dir
    }
}

/// The state at the start of the file at `path`.
pub open spec fn first_page_state(path: Seq<char>, files: Seq<Seq<char>>) -> PageState {
    PageState {
        list: None,
        paragraph: false,
        section: false,
        local_path: page_dir(path),
        images: Seq::empty(),
        figures: 0,
        footnotes: Seq::empty(),
        files,
        applets: Seq::empty(),
    }
}

/// The name by which a page refers to its footnote number `n`.
pub open spec fn footnote_id(n: nat) -> Seq<char> {
    "footnote"@ + decimal(n)
}

/// The superscript that refers to footnote number `n`, followed by `c`.
pub open spec fn footnote_mark(n: nat, c: char) -> Seq<char> {
    ("<sup><a href=\"#"@ + footnote_id(n) + "\">"@ + decimal(n) + "</a></sup>"@).push(c)
}

/// The block that shows footnote number `n`.
pub open spec fn footnote_block(n: nat, text: Seq<char>) -> Seq<char> {
    "<div id=\""@ + footnote_id(n) + "\" class=\"footnote\"><sup>"@ + decimal(n) + "</sup> "@ + text
        + "</div>"@
}

/// The blocks of all footnotes, numbered from 1 in the order in which they were met.
pub open spec fn footnote_blocks(footnotes: Seq<Seq<char>>) -> Seq<char>
    decreases footnotes.len(),
{
    if footnotes.len() == 0 {
        Seq::empty()
    } else {
        footnote_blocks(footnotes.drop_last()) + footnote_block(footnotes.len(), footnotes.last())
    }
}

/// The markup that closes the list `list`.
pub open spec fn list_end(list: Option<ListType>) -> Seq<char> {
    match list {
        Some(ListType::Ordered) => "</ol>"@,
        Some(ListType::Unordered) => "</ul>"@,
        None => ""@,
    }
}

/// The markup that ends a page's body: what is open is closed, the paragraph first, then the
/// list and the section; then the footnotes follow.
pub open spec fn closing_text(page: PageState) -> Seq<char> {
    (if page.paragraph {
        "</p>"@
    } else {
        ""@
    }) + list_end(page.list) + (if page.section {
        "</div>"@
    } else {
        ""@
    }) + footnote_blocks(page.footnotes)
}

/// Where the image `name` of the page lies on disk.
pub open spec fn image_source(root: Root, page: PageState, name: Seq<char>) -> Seq<char> {
    root.path(page.local_path + "/"@ + name)
}

/// The local path of the published copy of the image `name`: under `html/`, in the page's
/// directory without its first five characters.
pub open spec fn published_image(page: PageState, name: Seq<char>) -> Seq<char> {
    "html/"@ + skip_chars(page.local_path, 5) + "/"@ + name
}

/// The state after footnote `text` was taken in.
pub open spec fn with_footnote(page: PageState, text: Seq<char>) -> PageState {
    PageState { footnotes: page.footnotes.push(text), ..page }
}

/// The state after the copy of image `name` was registered.
pub open spec fn with_image(root: Root, page: PageState, name: Seq<char>) -> PageState {
    PageState {
        images: page.images.push(
            (image_source(root, page, name), root.path(published_image(page, name))),
        ),
        ..page
    }
}

/// The state of the line parser that outlives a line.
pub struct ParseState {
    list: Option<ListType>,
    previous_paragraph: bool,
    section_open: bool,
    pub local_path: String,
    imgs: Vec<(String, String)>,
    fig_num: u32,
    footnotes: Vec<String>,
    files: Vec<String>,
    applets: Vec<AppletBuild>,
}

impl View for ParseState {
    type V = PageState;

    closed spec fn view(&self) -> PageState {
        PageState {
            list: self.list,
            paragraph: self.previous_paragraph,
            section: self.section_open,
            local_path: self.local_path@,
            images: text_pairs(self.imgs@),
            figures: self.fig_num as nat,
            footnotes: texts(self.footnotes@),
            files: texts(self.files@),
            applets: requests(self.applets@),
        }
    }
}

fn holds_text(v: &Vec<String>, s: &String) -> (res: bool)
    ensures
        res == texts(v@).contains(s@),
{
    let mut i: usize = 0;
    while i < v.len()
        invariant
            i <= v.len(),
            forall|j: int| 0 <= j < i ==> texts(v@)[j] != s@,
        decreases v.len() - i,
    {
        if v[i] == *s {
            assert(texts(v@)[i as int] == s@);
            return true;
        }
        i += 1;
    }
    false
}

impl ParseState {
    /// The state at the start of the file at `path`. `files` are the paths of the files that
    /// are on disk: an image has to be among them.
    pub fn new(path: &str, files: Vec<String>) -> (res: ParseState)
        ensures
            res@ == first_page_state(path@, texts(files@)),
    {
        let chars = chars_of(path);
        let dir = parent_of(&chars);
        let dir_chars = chars_of(dir.as_str());
        let local_path = if starts_with(&dir_chars, "./") {
            proof {
                reveal_strlit("./");
            }
            string_of_range(&dir_chars, 2, dir_chars.len())
        } else {
            dir
        };
        let res = ParseState {
            list: None,
            previous_paragraph: false,
            section_open: false,
            local_path,
            imgs: Vec::new(),
            fig_num: 0,
            footnotes: Vec::new(),
            files,
            applets: Vec::new(),
        };
        assert(res@.images =~= Seq::empty());
        assert(res@.footnotes =~= Seq::empty());
        assert(res@.applets =~= Seq::empty());
        res
    }

    /// Ends the page: returns the markup that closes what is open and shows the footnotes, and
    /// hands the image copies and the applets to the queue.
    pub fn terminal(self, file_queue: &mut FileQueue) -> (res: String)
        ensures
            res@ == closing_text(self@),
            final(file_queue)@ == (QueueView {
                images: old(file_queue)@.images + self@.images,
                applets: old(file_queue)@.applets + self@.applets,
                ..old(file_queue)@
            }),
    {
        let mut out = String::new();
        if self.previous_paragraph {
            out.append("</p>");
        } else {
            out.append("");
        }
        match self.list {
            Some(ListType::Ordered) => out.append("</ol>"),
            Some(ListType::Unordered) => out.append("</ul>"),
            None => out.append(""),
        }
        if self.section_open {
            out.append("</div>");
        } else {
            out.append("");
        }
        let ghost head = out@;
        let ghost notes = texts(self.footnotes@);
        let mut i: usize = 0;
        assert(notes.take(0) == Seq::<Seq<char>>::empty());
        assert(out@ == head + footnote_blocks(notes.take(0)));
        while i < self.footnotes.len()
            invariant
                i <= self.footnotes.len(),
                notes == texts(self.footnotes@),
                out@ == head + footnote_blocks(notes.take(i as int)),
            decreases self.footnotes.len() - i,
        {
            let ghost before = out@;
            out.append("<div id=\"");
            out.append("footnote");
            push_decimal(&mut out, (i + 1) as u64);
            out.append("\" class=\"footnote\"><sup>");
            push_decimal(&mut out, (i + 1) as u64);
            out.append("</sup> ");
            out.append(self.footnotes[i].as_str());
            out.append("</div>");
            proof {
                assert(notes.take(i + 1).drop_last() == notes.take(i as int));
                assert(notes.take(i + 1).last() == self.footnotes[i as int]@);
                assert(out@ == before + footnote_block((i + 1) as nat, self.footnotes[i as int]@));
            }
            i += 1;
        }
        assert(notes.take(notes.len() as int) == notes);
        file_queue.append_imgs(self.imgs);
        file_queue.append_applets(self.applets);
        out
    }

    /// Registers the copy of the page's image `link_text` to where the site is published.
    /// Fails, and registers nothing, where the image is not on disk.
    pub fn move_img(&mut self, root: &Root, link_text: &str) -> (res: Result<(), String>)
        ensures
            match res {
                Ok(_) => old(self)@.files.contains(image_source(*root, old(self)@, link_text@))
                    && final(self)@ == with_image(*root, old(self)@, link_text@),
                Err(e) => !old(self)@.files.contains(image_source(*root, old(self)@, link_text@))
                    && final(self)@ == old(self)@ && e@ == "Could not find image "@ + image_source(
                    *root,
                    old(self)@,
                    link_text@,
                ),
            },
    {
        let mut local_from = String::new();
        local_from.append(self.local_path.as_str());
        local_from.append("/");
        local_from.append(link_text);
        let path_from = root.get_path_from_local(local_from.as_str());
        let local_chars = chars_of(self.local_path.as_str());
        let mut local_to = String::new();
        local_to.append("html/");
        local_to.append(skip_of(&local_chars, 5).as_str());
        local_to.append("/");
        local_to.append(link_text);
        let path_to = root.get_path_from_local(local_to.as_str());
        if !holds_text(&self.files, &path_from) {
            let mut e = String::new();
            e.append("Could not find image ");
            e.append(path_from.as_str());
            return Err(e);
        }
        proof {
            lemma_text_pairs_push(self.imgs@, (path_from, path_to));
        }
        self.imgs.push((path_from, path_to));
        Ok(())
    }

    /// The link to the published copy of the page's image `name`.
    pub fn published_link(&self, root: &Root, name: &str, public: bool) -> (res: String)
        ensures
            res@ == root.link(published_image(self@, name@), public),
    {
        let local_chars = chars_of(self.local_path.as_str());
        let mut local = String::new();
        local.append("html/");
        local.append(skip_of(&local_chars, 5).as_str());
        local.append("/");
        local.append(name);
        root.get_link_from_local(local.as_str(), public)
    }

    /// Whether the figures can still be counted.
    pub fn has_figure_left(&self) -> (res: bool)
        ensures
            res == (self@.figures < u32::MAX),
    {
        self.fig_num < u32::MAX
    }

    /// Counts one more figure and returns its number.
    pub fn figure(&mut self) -> (res: u32)
        requires
            old(self)@.figures < u32::MAX,
        ensures
            res == old(self)@.figures + 1,
            final(self)@ == (PageState { figures: old(self)@.figures + 1, ..old(self)@ }),
    {
        self.fig_num += 1;
        self.fig_num
    }

    /// Takes in a footnote that `c` follows, and returns the superscript that refers to it.
    pub fn footnote(&mut self, text: String, c: char) -> (res: String)
        ensures
            final(self)@ == with_footnote(old(self)@, text@),
            res@ == footnote_mark(old(self)@.footnotes.len() + 1, c),
    {
        proof {
            lemma_texts_push(self.footnotes@, text);
        }
        self.footnotes.push(text);
        let n = self.footnotes.len() as u64;
        let mut out = String::new();
        out.append("<sup><a href=\"#");
        out.append("footnote");
        push_decimal(&mut out, n);
        out.append("\">");
        push_decimal(&mut out, n);
        out.append("</a></sup>");
        out.push(c);
        out
    }

    /// Registers an applet to build.
    pub fn add_applet(&mut self, applet: AppletBuild)
        ensures
            final(self)@ == (PageState { applets: old(self)@.applets.push(applet@), ..old(self)@ }),
    {
        proof {
            lemma_requests_push(self.applets@, applet);
        }
        self.applets.push(applet);
    }
}

/// What the line parser holds while it reads a line.
pub struct LineState {
    /// The line's block command, as far as it is known.
    pub command: CommandTypes,
    /// The modifiers that are open in the line's body.
    pub modifiers: Seq<char>,
    /// The link attempts, the innermost last; there is always one.
    pub links: Seq<LinkState>,
    /// Whether the last character was a backslash that escapes the next one.
    pub escaped: bool,
    /// The markup of the body so far.
    pub result: Seq<char>,
    /// The state that outlives the line.
    pub page: PageState,
}

/// How the reading of a line stands.
pub enum LineOutcome {
    /// The line is read on.
    Open,
    /// The line is a comment or a label: it gives no markup.
    Dropped,
    /// The line cannot be rendered.
    Failed(Seq<char>),
}

/// The state at the start of a line.
pub open spec fn line_start(page: PageState) -> LineState {
    LineState {
        command: CommandTypes::Evaluating,
        modifiers: Seq::empty(),
        links: seq![idle_link()],
        escaped: false,
        result: Seq::empty(),
        page,
    }
}

/// The link attempts after the innermost has ended: it leaves, unless it is the only one.
pub open spec fn settle(links: Seq<LinkState>) -> Seq<LinkState> {
    if links.len() > 1 {
        links.drop_last()
    } else {
        links
    }
}

/// The markup of the outermost link when it is complete: an image on an image line, an applet
/// on an applet line, else a link.
pub open spec fn outer_made(
    command: CommandTypes,
    link: LinkState,
    page: PageState,
    root: Root,
    refs: Tables,
    public: bool,
) -> Result<(PageState, Seq<char>), Seq<char>> {
    if command is Image {
        image_made(link, page, root, public)
    } else if command is Applet {
        applet_made(link, page, root, public)
    } else {
        match link_made(link, refs) {
            Ok(markup) => Ok((page, markup)),
            Err(e) => Err(e),
        }
    }
}

/// Whether a `[` that the only link attempt meets opens an external target: on the line of an
/// image or an applet, behind the caption, `[` and `]` hold the target as it is to be written.
pub open spec fn takes_external(s: LineState) -> bool {
    (s.command is Image || s.command is Applet) && s.links.len() == 1
        && s.links.last().progress is Opener
}

/// What the link attempts that are open hold, written out again, the outermost first.
pub open spec fn open_text(links: Seq<LinkState>) -> Seq<char>
    decreases links.len(),
{
    if links.len() == 0 {
        Seq::empty()
    } else {
        open_text(links.drop_last()) + consumed(links.last())
    }
}

/// One character of the body that is neither math nor escaped: it goes to the innermost link
/// attempt, and what that attempt signals decides where the character's markup goes.
pub open spec fn link_char(s: LineState, c: char, root: Root, refs: Tables, public: bool) -> (
    LineState,
    LineOutcome,
) {
    let (top, signal) = link_step(s.links.last(), c);
    let links = s.links.drop_last().push(top);
    match signal {
        Err(e) => (s, LineOutcome::Failed(e)),
        Ok(LinkSignal::Pushed) => (LineState { links, ..s }, LineOutcome::Open),
        Ok(LinkSignal::Child) => if takes_external(s) {
            (
                LineState { links: s.links.drop_last().push(external_opened(top)), ..s },
                LineOutcome::Open,
            )
        } else {
            (LineState { links: links.push(link_step(idle_link(), c).0), ..s }, LineOutcome::Open)
        },
        Ok(LinkSignal::Failed(text)) => (
            LineState { links: settle(links), result: s.result + text, ..s },
            LineOutcome::Open,
        ),
        Ok(LinkSignal::Footnote(text)) => (
            LineState {
                links: settle(links),
                result: s.result + footnote_mark(s.page.footnotes.len() + 1, c),
                page: with_footnote(s.page, text),
                ..s
            },
            LineOutcome::Open,
        ),
        Ok(LinkSignal::Done) => if s.links.len() == 1 {
            match outer_made(s.command, top, s.page, root, refs, public) {
                Ok((page, markup)) => (
                    LineState {
                        links: seq![crate::build::links::cleared(top)],
                        result: s.result + markup,
                        page,
                        ..s
                    },
                    LineOutcome::Open,
                ),
                Err(e) => (s, LineOutcome::Failed(e)),
            }
        } else {
            match link_made(top, refs) {
                Ok(markup) => {
                    let parent = s.links[s.links.len() - 2];
                    (
                        LineState {
                            links: s.links.take(s.links.len() - 2).push(
                                LinkState { display: parent.display + markup, ..parent },
                            ),
                            ..s
                        },
                        LineOutcome::Open,
                    )
                },
                Err(e) => (s, LineOutcome::Failed(e)),
            }
        },
        Ok(LinkSignal::Pass) => match toggle_output(s.modifiers, c) {
            Ok(Some(markup)) => (
                LineState {
                    links,
                    modifiers: toggled(s.modifiers, c),
                    result: s.result + markup,
                    ..s
                },
                LineOutcome::Open,
            ),
            Ok(None) => (LineState { links, result: s.result.push(c), ..s }, LineOutcome::Open),
            Err(e) => (s, LineOutcome::Failed(e)),
        },
    }
}

/// The line parser's transition on one character.
///
/// The block command has the first say. A comment or a label drops the line at the first
/// character behind its marker. Inside inline math and on a display-math line the character is
/// passed on as it is, and so is a character behind a backslash.
pub open spec fn line_step(s: LineState, c: char, root: Root, refs: Tables, public: bool) -> (
    LineState,
    LineOutcome,
) {
    let s1 = LineState { command: command_step(s.command, c), ..s };
    if command_takes(s.command, c) {
        (s1, LineOutcome::Open)
    } else if s1.command is Comment || s1.command is Label {
        (s1, LineOutcome::Dropped)
    } else if (c != '$' && s1.modifiers.contains('$')) || s1.command is MultiLatex {
        (LineState { result: s1.result.push(c), ..s1 }, LineOutcome::Open)
    } else if s1.escaped {
        (LineState { result: s1.result.push(c), escaped: false, ..s1 }, LineOutcome::Open)
    } else if c == '\\' {
        (LineState { escaped: true, ..s1 }, LineOutcome::Open)
    } else {
        link_char(s1, c, root, refs, public)
    }
}

/// The state after the characters of `text`, read from `s` as long as the line stays open.
pub open spec fn line_fold(s: LineState, text: Seq<char>, root: Root, refs: Tables, public: bool) -> (
    LineState,
    LineOutcome,
)
    decreases text.len(),
{
    if text.len() == 0 {
        (s, LineOutcome::Open)
    } else {
        let (before, outcome) = line_fold(s, text.drop_last(), root, refs, public);
        if outcome is Open {
            line_step(before, text.last(), root, refs, public)
        } else {
            (before, outcome)
        }
    }
}

/// The markup in front of a list item of kind `kind`, or of a line that is none: it opens,
/// closes or changes the list.
pub open spec fn list_tags(command: CommandTypes, list: Option<ListType>) -> Seq<char> {
    match command {
        CommandTypes::List(ListType::Ordered) => match list {
            Some(ListType::Ordered) => ""@,
            Some(ListType::Unordered) => "</ul><ol>"@,
            None => "<ol>"@,
        },
        CommandTypes::List(ListType::Unordered) => match list {
            Some(ListType::Unordered) => ""@,
            Some(ListType::Ordered) => "</ol><ul>"@,
            None => "<ul>"@,
        },
        _ => list_end(list),
    }
}

/// The list that is open behind a line with command `command`.
pub open spec fn list_after(command: CommandTypes) -> Option<ListType> {
    match command {
        CommandTypes::List(kind) => Some(kind),
        _ => None,
    }
}

/// Whether the line is plain text.
pub open spec fn is_paragraph(command: CommandTypes) -> bool {
    command is NoCommand || command is Failed
}

/// Whether a header of level 1 or 2 stands on the line.
pub open spec fn ends_section(command: CommandTypes) -> bool {
    command == CommandTypes::Header(1) || command == CommandTypes::Header(2)
}

/// The page state behind a line with command `command` and body `body`, and the line's markup:
/// the list and section markup, the command's prefix, the body (behind `<p>` where it starts a
/// paragraph) and the command's postfix.
pub open spec fn line_closed(command: CommandTypes, body: Seq<char>, page: PageState) -> (
    PageState,
    Seq<char>,
) {
    let section_end = if ends_section(command) && page.section {
        "</div> "@
    } else {
        ""@
    };
    let starts_paragraph = is_paragraph(command) && !page.paragraph;
    let shown = if starts_paragraph {
        "<p>"@ + body
    } else {
        body
    };
    (
        PageState {
            list: list_after(command),
            section: page.section || command == CommandTypes::Header(2),
            paragraph: page.paragraph || is_paragraph(command),
            ..page
        },
        list_tags(command, page.list) + section_end + prefix_text(command) + shown + postfix_text(
            command,
        ),
    )
}

/// The page state behind a line that was read to its end, and the line's markup. What link
/// attempts still hold at the end of the line is no link: it goes to the body as it was
/// written, behind what the body has.
pub open spec fn line_finish(s: LineState) -> (PageState, Seq<char>) {
    line_closed(s.command, s.result + open_text(s.links), s.page)
}

/// The page state behind the line `line`, and the line's markup or the reason why it has none.
///
/// An empty line ends an open paragraph. A line that fails leaves the page state as it was
/// before the character that failed.
pub open spec fn line_parsed(
    line: Seq<char>,
    page: PageState,
    root: Root,
    refs: Tables,
    public: bool,
) -> (PageState, Result<Seq<char>, Seq<char>>) {
    if line.len() == 0 && page.paragraph {
        (PageState { paragraph: false, ..page }, Ok("</p>"@))
    } else {
        let (s, outcome) = line_fold(line_start(page), line, root, refs, public);
        match outcome {
            LineOutcome::Open => (line_finish(s).0, Ok(line_finish(s).1)),
            LineOutcome::Dropped => (s.page, Ok(Seq::empty())),
            LineOutcome::Failed(e) => (s.page, Err(e)),
        }
    }
}

/// Once a line is dropped or has failed, the rest of it changes nothing.
pub proof fn lemma_line_fold_stops(
    s: LineState,
    text: Seq<char>,
    k: int,
    root: Root,
    refs: Tables,
    public: bool,
)
    requires
        0 <= k <= text.len(),
        !(line_fold(s, text.take(k), root, refs, public).1 is Open),
    ensures
        line_fold(s, text, root, refs, public) == line_fold(s, text.take(k), root, refs, public),
    decreases text.len() - k,
{
    if k < text.len() {
        assert(text.take(k + 1).drop_last() == text.take(k));
        lemma_line_fold_stops(s, text, k + 1, root, refs, public);
    } else {
        assert(text.take(k) == text);
    }
}

/// The states of a stack of link parsers.
pub open spec fn link_states(stack: Seq<PossibleLink>) -> Seq<LinkState> {
    Seq::new(stack.len(), |i: int| stack[i]@)
}

impl ParseState {
    fn end_paragraph(&mut self) -> (res: bool)
        ensures
            res == old(self)@.paragraph,
            final(self)@ == (PageState { paragraph: false, ..old(self)@ }),
    {
        let was = self.previous_paragraph;
        self.previous_paragraph = false;
        was
    }

    fn is_paragraph_open(&self) -> (res: bool)
        ensures
            res == self@.paragraph,
    {
        self.previous_paragraph
    }

    /// Ends a line with command `command` and body `result`.
    fn finish_line(&mut self, command: &Command, result: String) -> (res: String)
        requires
            command.c_type.wf(),
        ensures
            (final(self)@, res@) == line_closed(command.c_type, result@, old(self)@),
    {
        let mut out = String::new();
        match command.c_type {
            CommandTypes::List(ListType::Ordered) => {
                match self.list {
                    Some(ListType::Ordered) => out.append(""),
                    Some(ListType::Unordered) => out.append("</ul><ol>"),
                    None => out.append("<ol>"),
                }
                self.list = Some(ListType::Ordered);
            },
            CommandTypes::List(ListType::Unordered) => {
                match self.list {
                    Some(ListType::Unordered) => out.append(""),
                    Some(ListType::Ordered) => out.append("</ol><ul>"),
                    None => out.append("<ul>"),
                }
                self.list = Some(ListType::Unordered);
            },
            _ => {
                match self.list {
                    Some(ListType::Ordered) => out.append("</ol>"),
                    Some(ListType::Unordered) => out.append("</ul>"),
                    None => out.append(""),
                }
                self.list = None;
            },
        }
        let level: u8 = match command.c_type {
            CommandTypes::Header(i) => i,
            _ => 0,
        };
        if (level == 1 || level == 2) && self.section_open {
            out.append("</div> ");
        } else {
            out.append("");
        }
        if level == 2 {
            self.section_open = true;
        }
        out.append(command.prefix().as_str());
        let plain = match command.c_type {
            CommandTypes::NoCommand => true,
            CommandTypes::Failed => true,
            _ => false,
        };
        if plain {
            if !self.previous_paragraph {
                out.append("<p>");
                out.append(result.as_str());
            } else {
                out.append(result.as_str());
            }
            self.previous_paragraph = true;
        } else {
            out.append(result.as_str());
        }
        out.append(command.postfix().as_str());
        out
    }
}

/// Renders one line of a source file.
///
/// On success the page state is the one behind the line. On failure it is the one before the
/// character that failed.
pub fn parse_line(
    uncompiled_line: &str,
    root: &Root,
    ref_map: &RefMap,
    parse_state: &mut ParseState,
    public: bool,
) -> (res: Result<String, String>)
    ensures
        final(parse_state)@ == line_parsed(
            uncompiled_line@,
            old(parse_state)@,
            *root,
            ref_map@,
            public,
        ).0,
        is_text(res, line_parsed(uncompiled_line@, old(parse_state)@, *root, ref_map@, public).1),
{
    let chars = chars_of(uncompiled_line);
    if chars.len() == 0 && parse_state.is_paragraph_open() {
        parse_state.end_paragraph();
        return Ok("</p>".to_owned());
    }
    let mut escaped = false;
    let mut stack: Vec<PossibleLink> = Vec::new();
    stack.push(PossibleLink::new());
    let mut result = String::new();
    let mut command = Command::new();
    let mut modifiers = Modifiers::new();
    let ghost start = line_start(parse_state@);
    let ghost line = chars@;
    assert(link_states(stack@) =~= seq![idle_link()]);
    assert(line.take(0) == Seq::<char>::empty());
    let mut i: usize = 0;
    while i < chars.len()
        invariant
            i <= chars.len(),
            line == chars@,
            line == uncompiled_line@,
            start == line_start(old(parse_state)@),
            stack.len() >= 1,
            command.c_type.wf(),
            line_fold(start, line.take(i as int), *root, ref_map@, public) == (
                LineState {
                    command: command.c_type,
                    modifiers: modifiers@,
                    links: link_states(stack@),
                    escaped,
                    result: result@,
                    page: parse_state@,
                },
                LineOutcome::Open,
            ),
        decreases chars.len() - i,
    {
        let c = chars[i];
        let ghost s = LineState {
            command: command.c_type,
            modifiers: modifiers@,
            links: link_states(stack@),
            escaped,
            result: result@,
            page: parse_state@,
        };
        proof {
            assert(line.take(i + 1).drop_last() == line.take(i as int));
            assert(line.take(i + 1).last() == c);
            assert(line_fold(start, line.take(i + 1), *root, ref_map@, public) == line_step(
                s,
                c,
                *root,
                ref_map@,
                public,
            ));
        }
        if command.parse_command(c) {
        } else if is_dropped(&command) {
            proof {
                lemma_line_fold_stops(start, line, i + 1, *root, ref_map@, public);
            }
            return Ok(String::new());
        } else if (c != '$' && modifiers.is_latex()) || is_display_math(&command) {
            result.push(c);
        } else if escaped {
            result.push(c);
            escaped = false;
        } else if c == '\\' {
            escaped = true;
        } else {
            let ghost links = link_states(stack@);
            let depth = stack.len();
            let mut top = stack.pop().unwrap();
            assert(top@ == links.last());
            assert(link_states(stack@) =~= links.drop_last());
            let signal = match top.try_add(c) {
                Ok(signal) => signal,
                Err(e) => {
                    proof {
                        lemma_line_fold_stops(start, line, i + 1, *root, ref_map@, public);
                    }
                    return Err(e);
                },
            };
            match signal {
                LinkReturn::Pushed => {
                    stack.push(top);
                    assert(link_states(stack@) =~= links.drop_last().push(top@));
                },
                LinkReturn::Child => {
                    if depth == 1 && is_figure_line(&command) && top.open_external() {
                        stack.push(top);
                        assert(link_states(stack@) =~= links.drop_last().push(top@));
                    } else {
                        let mut child = PossibleLink::new();
                        let _ = child.try_add(c);
                        stack.push(top);
                        stack.push(child);
                        assert(link_states(stack@) =~= links.drop_last().push(top@).push(child@));
                    }
                },
                LinkReturn::Failed(text) => {
                    result.append(text.as_str());
                    if depth == 1 {
                        stack.push(top);
                    }
                    assert(link_states(stack@) =~= settle(links.drop_last().push(top@)));
                },
                LinkReturn::Footnote(text) => {
                    let mark = parse_state.footnote(text, c);
                    result.append(mark.as_str());
                    if depth == 1 {
                        stack.push(top);
                    }
                    assert(link_states(stack@) =~= settle(links.drop_last().push(top@)));
                },
                LinkReturn::Done => {
                    let ghost done = top@;
                    if depth == 1 {
                        let made = match command.c_type {
                            CommandTypes::Image => top.make_img(parse_state, root, public),
                            CommandTypes::Applet => top.make_applet(parse_state, root, public),
                            _ => top.make(ref_map),
                        };
                        match made {
                            Ok(markup) => {
                                result.append(markup.as_str());
                                stack.push(top);
                                assert(link_states(stack@) =~= seq![
                                    crate::build::links::cleared(done),
                                ]);
                            },
                            Err(e) => {
                                proof {
                                    lemma_line_fold_stops(
                                        start,
                                        line,
                                        i + 1,
                                        *root,
                                        ref_map@,
                                        public,
                                    );
                                }
                                return Err(e);
                            },
                        }
                    } else {
                        match top.make(ref_map) {
                            Ok(markup) => {
                                let mut parent = stack.pop().unwrap();
                                assert(parent@ == links[links.len() - 2]);
                                parent.splice(markup.as_str());
                                stack.push(parent);
                                assert(link_states(stack@) =~= links.take(links.len() - 2).push(
                                    parent@,
                                ));
                            },
                            Err(e) => {
                                proof {
                                    lemma_line_fold_stops(
                                        start,
                                        line,
                                        i + 1,
                                        *root,
                                        ref_map@,
                                        public,
                                    );
                                }
                                return Err(e);
                            },
                        }
                    }
                },
                LinkReturn::Pass => {
                    stack.push(top);
                    assert(link_states(stack@) =~= links.drop_last().push(top@));
                    match modifiers.check(c) {
                        Ok(Some(markup)) => {
                            result.append(markup.as_str());
                        },
                        Ok(None) => {
                            result.push(c);
                        },
                        Err(e) => {
                            proof {
                                lemma_line_fold_stops(start, line, i + 1, *root, ref_map@, public);
                            }
                            return Err(e);
                        },
                    }
                },
            }
        }
        i += 1;
    }
    assert(line.take(line.len() as int) == line);
    // What the link attempts still hold goes to the body as it was written.
    let ghost body = result@;
    let mut k: usize = 0;
    assert(link_states(stack@).take(0) == Seq::<LinkState>::empty());
    assert(body + open_text(Seq::<LinkState>::empty()) == body);
    while k < stack.len()
        invariant
            k <= stack.len(),
            result@ == body + open_text(link_states(stack@).take(k as int)),
        decreases stack.len() - k,
    {
        proof {
            let all = link_states(stack@);
            assert(all.take(k + 1).drop_last() == all.take(k as int));
            assert(all.take(k + 1).last() == stack@[k as int]@);
        }
        result.append(stack[k].held().as_str());
        k += 1;
    }
    assert(link_states(stack@).take(stack@.len() as int) == link_states(stack@));
    Ok(parse_state.finish_line(&command, result))
}

fn is_figure_line(command: &Command) -> (res: bool)
    ensures
        res == (command.c_type is Image || command.c_type is Applet),
{
    match command.c_type {
        CommandTypes::Image => true,
        CommandTypes::Applet => true,
        _ => false,
    }
}

fn is_dropped(command: &Command) -> (res: bool)
    ensures
        res == (command.c_type is Comment || command.c_type is Label),
{
    match command.c_type {
        CommandTypes::Comment => true,
        CommandTypes::Label => true,
        _ => false,
    }
}

fn is_display_math(command: &Command) -> (res: bool)
    ensures
        res == (command.c_type is MultiLatex),
{
    match command.c_type {
        CommandTypes::MultiLatex => true,
        _ => false,
    }
}

/// The English name of month number `month`.
pub open spec fn month_text(month: int) -> Seq<char> {
    if month == 1 {
        "January"@
    } else if month == 2 {
        "February"@
    } else if month == 3 {
        "March"@
    } else if month == 4 {
        "April"@
    } else if month == 5 {
        "May"@
    } else if month == 6 {
        "June"@
    } else if month == 7 {
        "July"@
    } else if month == 8 {
        "August"@
    } else if month == 9 {
        "September"@
    } else if month == 10 {
        "October"@
    } else if month == 11 {
        "November"@
    } else {
        "December"@
    }
}

/// `std::time::SystemTime::now`, measured from `UNIX_EPOCH` with `duration_since`: the whole
/// seconds and the nanoseconds since the start of 1970, or `None` where the clock stands
/// before it.
#[verifier::external_body]
fn time_since_epoch() -> (res: Option<(u64, u32)>)
{
    match std::time::SystemTime::now().duration_since(std::time::UNIX_EPOCH) {
        Ok(since) => Some((since.as_secs(), since.subsec_nanos())),
        Err(_) => None,
    }
}

/// `chrono::DateTime::from_timestamp`, read through `Datelike::year`, `month` and `day`: the
/// date in UTC of a time given in seconds and nanoseconds since the start of 1970, or `None`
/// where there is no such date. The month runs from 1 to 12 and the day from 1 to 31.
#[verifier::external_body]
fn date_of(secs: i64, nanos: u32) -> (res: Option<(i32, u32, u32)>)
    ensures
        res matches Some(date) ==> 1 <= date.1 <= 12 && 1 <= date.2 <= 31,
{
    match chrono::DateTime::from_timestamp(secs, nanos) {
        Some(at) => Some(
            (chrono::Datelike::year(&at), chrono::Datelike::month(&at), chrono::Datelike::day(&at)),
        ),
        None => None,
    }
}

/// `chrono::Month::name` of the month that `num_traits::FromPrimitive::from_u32` gives for
/// `month`: there is one for each number from 1 to 12, and its name is the English one.
#[verifier::external_body]
fn month_name(month: u32) -> (res: Option<String>)
    ensures
        res is Some <==> 1 <= month <= 12,
        res matches Some(name) ==> name@ == month_text(month as int),
{
    match <chrono::Month as num_traits::FromPrimitive>::from_u32(month) {
        Some(m) => Some(m.name().to_owned()),
        None => None,
    }
}

/// The line at the foot of each page, written on the given day.
pub open spec fn footer_text(root: Root, year: int, month: int, day: int) -> Seq<char> {
    "Copyright &copy; "@ + signed_decimal(year) + " Jack Dinsmore. &emsp;Updated "@ + month_text(
        month,
    ) + " "@ + decimal(day as nat) + ". &emsp;Version "@ + root.wikid_version_major@ + "."@
        + root.wikid_version_minor@
}

/// Writes the line at the foot of a page for the given day.
pub fn footer_on(root: &Root, year: i32, month: u32, day: u32) -> (res: String)
    requires
        1 <= month <= 12,
    ensures
        res@ == footer_text(*root, year as int, month as int, day as int),
{
    let mut out = String::new();
    out.append("Copyright &copy; ");
    push_signed(&mut out, year);
    out.append(" Jack Dinsmore. &emsp;Updated ");
    match month_name(month) {
        Some(name) => out.append(name.as_str()),
        None => {},
    }
    out.append(" ");
    push_decimal(&mut out, day as u64);
    out.append(". &emsp;Version ");
    out.append(root.wikid_version_major.as_str());
    out.append(".");
    out.append(root.wikid_version_minor.as_str());
    out
}

/// Whether `text` is the line at the foot of a page for some day.
pub open spec fn is_footer(root: Root, text: Seq<char>) -> bool {
    exists|year: int, month: int, day: int|
        i32::MIN <= year <= i32::MAX && 1 <= month <= 12 && 1 <= day <= 31 && text == #[trigger] footer_text(
            root,
            year,
            month,
            day,
        )
}

/// The message where the system clock gives no date.
pub open spec fn clock_error() -> Seq<char> {
    "The system clock gives no date"@
}

/// Writes the line at the foot of a page for today. Fails where the system clock gives
/// no date.
pub fn get_footer(root: &Root) -> (res: Result<String, String>)
    ensures
        match res {
            Ok(footer) => is_footer(*root, footer@),
            Err(e) => e@ == clock_error(),
        },
{
    let date = match time_since_epoch() {
        Some((secs, nanos)) => if secs <= 0x7fff_ffff_ffff_ffff {
            date_of(secs as i64, nanos)
        } else {
            None
        },
        None => None,
    };
    match date {
        Some((year, month, day)) => {
            let res = footer_on(root, year, month, day);
            assert(res@ == footer_text(*root, year as int, month as int, day as int));
            Ok(res)
        },
        None => Err("The system clock gives no date".to_owned()),
    }
}

/// The navigation at the head of the page of the file at `path`: a link home, and one to the
/// file's section unless that is the top one, `text`.
pub open spec fn page_header(root: Root, path: Seq<char>, public: bool) -> Seq<char> {
    let section = file_name(parent_dir(path));
    if section != "text"@ {
        "<h2><a href=\""@ + root.link("html/index.html"@, public) + "\">Home</a> > <a href=\""@
            + root.link("html/"@ + section + "/index.html"@, public) + "\">"@ + section
            + "</a></h2>"@
    } else {
        "<h2><a href=\""@ + root.link("html/index.html"@, public) + "\">Home</a></h2>"@
    }
}

/// What stands in a page before its body.
pub open spec fn page_head(css: Seq<char>, title: Seq<char>, header: Seq<char>) -> Seq<char> {
    "<html>\n<head>\n    <meta charset=\"utf-8\">\n    <link rel=\"stylesheet\" type = \"text/css\" href = \""@
        + css
        + "\">\n    <script src=\"https://polyfill.io/v3/polyfill.min.js?features=es6\"></script>\n    <script id=\"MathJax-script\" async\n            src=\"https://cdn.jsdelivr.net/npm/mathjax@3/es5/tex-mml-chtml.js\">\n    </script>\n    <script>\nwindow.MathJax = {\n    tex: {\n        macros: {\n            bm: [\"\\\\mathbf {#1}\",1],\n            parens: [\"\\\\left( #1 \\\\right)\", 1],\n            braces: [\"\\\\left\\{ #1 \\\\right\\}\", 1],\n            brackets: [\"\\\\left[ #1 \\\\right]\", 1],\n            eval: [\"\\\\left. #1 \\\\right|\", 1],\n            fraci: [\"{#1} / {#2}\", 2],\n            expp: [\"\\\\exp\\\\left( #1 \\right)\", 1],\n            bra: [\"\\\\left\\\\langle #1 \\\\right|\", 1],\n            ket: [\"\\\\left| #1 \\\\right\\\\rangle\", 1],\n            braket: [\"\\\\langle {#1} | {#2} \\\\rangle\", 2],\n        }\n    }\n}\n    </script>\n    <title>"@
        + title
        + "</title>\n</head><body><div id=\"content\">"@
        + header
        + ""@
}

/// What stands in a page behind its footer.
pub open spec fn page_tail() -> Seq<char> {
    "</div></body>\n<script>\nvar coll = document.getElementsByClassName(\"collapsible\");\nvar i;\n\nfor (i = 0; i < coll.length; i++) {{\n    coll[i].addEventListener(\"click\", function() {{\n        this.classList.toggle(\"active\");\n        var content = this.nextElementSibling;\n        if (content.style.maxHeight === \"0px\"){{\n            content.style.maxHeight = content.scrollHeight+\"px\";\n        }} else {{\n            content.style.maxHeight = \"0px\";\n        }}\n    }});\n}}\n</script></html>\n"@
}

/// What stands in the page of the file at `path` before its body.
pub open spec fn page_start(root: Root, path: Seq<char>, public: bool) -> Seq<char> {
    page_head(
        root.link("html/css/"@ + file_name(parent_dir(path)) + ".css"@, public),
        root.name@,
        page_header(root, path, public),
    )
}

/// The page state and the body after `lines`, rendered from `page` up to the first line that
/// fails, and the error of that line with its place.
pub open spec fn lines_fold(
    page: PageState,
    lines: Seq<Seq<char>>,
    path: Seq<char>,
    root: Root,
    refs: Tables,
    public: bool,
) -> (PageState, Seq<char>, Option<Seq<char>>)
    decreases lines.len(),
{
    if lines.len() == 0 {
        (page, Seq::empty(), None)
    } else {
        let (before, body, error) = lines_fold(page, lines.drop_last(), path, root, refs, public);
        if error is None {
            let (after, markup) = line_parsed(lines.last(), before, root, refs, public);
            match markup {
                Ok(text) => (after, body + text + "\n"@, None),
                Err(e) => (after, body, Some(at_line(path, lines.len()) + e)),
            }
        } else {
            (before, body, error)
        }
    }
}

/// After a line that fails, the rest of the file changes nothing.
pub proof fn lemma_lines_fold_stops(
    page: PageState,
    lines: Seq<Seq<char>>,
    k: int,
    path: Seq<char>,
    root: Root,
    refs: Tables,
    public: bool,
)
    requires
        0 <= k <= lines.len(),
        lines_fold(page, lines.take(k), path, root, refs, public).2 is Some,
    ensures
        lines_fold(page, lines, path, root, refs, public) == lines_fold(
            page,
            lines.take(k),
            path,
            root,
            refs,
            public,
        ),
    decreases lines.len() - k,
{
    if k < lines.len() {
        assert(lines.take(k + 1).drop_last() == lines.take(k));
        lemma_lines_fold_stops(page, lines, k + 1, path, root, refs, public);
    } else {
        assert(lines.take(k) == lines);
    }
}

/// The page of the file at `path` with the lines `lines` and the footer `footer`, with the
/// state at the end of the file; or the error of the first line that fails.
pub open spec fn page_compiled(
    root: Root,
    path: Seq<char>,
    lines: Seq<Seq<char>>,
    files: Seq<Seq<char>>,
    refs: Tables,
    public: bool,
    footer: Seq<char>,
) -> Result<(PageState, Seq<char>), Seq<char>> {
    let (page, body, error) = lines_fold(
        first_page_state(path, files),
        lines,
        path,
        root,
        refs,
        public,
    );
    match error {
        Some(e) => Err(e),
        None => Ok(
            (
                page,
                page_start(root, path, public) + body + closing_text(page)
                    + "</div><div id=\"footer\">\n"@ + footer + page_tail(),
            ),
        ),
    }
}

/// The queue after the page state `page` was ended into it.
pub open spec fn with_page(queue: QueueView, page: PageState) -> QueueView {
    QueueView {
        images: queue.images + page.images,
        applets: queue.applets + page.applets,
        ..queue
    }
}

/// A copy of `v`.
pub fn copy_texts(v: &Vec<String>) -> (res: Vec<String>)
    ensures
        texts(res@) == texts(v@),
{
    let mut out: Vec<String> = Vec::new();
    let mut i: usize = 0;
    while i < v.len()
        invariant
            i <= v.len(),
            out@.len() == i,
            forall|j: int| 0 <= j < i ==> out@[j]@ == v@[j]@,
        decreases v.len() - i,
    {
        out.push(v[i].clone());
        i += 1;
    }
    assert(texts(out@) =~= texts(v@));
    out
}

fn write_page_start(root: &Root, local_path: &str, public: bool) -> (out: String)
    ensures
        out@ == page_start(*root, local_path@, public),
{
    let section = root.get_section(local_path);
    let home = root.get_link_from_local("html/index.html", public);
    let mut header_text = String::new();
    if !same(section.as_str(), "text") {
        let mut local = String::new();
        local.append("html/");
        local.append(section.as_str());
        local.append("/index.html");
        let section_home = root.get_link_from_local(local.as_str(), public);
        header_text.append("<h2><a href=\"");
        header_text.append(home.as_str());
        header_text.append("\">Home</a> > <a href=\"");
        header_text.append(section_home.as_str());
        header_text.append("\">");
        header_text.append(section.as_str());
        header_text.append("</a></h2>");
    } else {
        header_text.append("<h2><a href=\"");
        header_text.append(home.as_str());
        header_text.append("\">Home</a></h2>");
    }
    let mut css_local = String::new();
    css_local.append("html/css/");
    css_local.append(section.as_str());
    css_local.append(".css");
    let css_link = root.get_link_from_local(css_local.as_str(), public);
    let css = css_link.as_str();
    let title = root.name.as_str();
    let header = header_text.as_str();
    let mut out = String::new();
    out.append("<html>\n<head>\n    <meta charset=\"utf-8\">\n    <link rel=\"stylesheet\" type = \"text/css\" href = \"");
    out.append(css);
    out.append("\">\n    <script src=\"https://polyfill.io/v3/polyfill.min.js?features=es6\"></script>\n    <script id=\"MathJax-script\" async\n            src=\"https://cdn.jsdelivr.net/npm/mathjax@3/es5/tex-mml-chtml.js\">\n    </script>\n    <script>\nwindow.MathJax = {\n    tex: {\n        macros: {\n            bm: [\"\\\\mathbf {#1}\",1],\n            parens: [\"\\\\left( #1 \\\\right)\", 1],\n            braces: [\"\\\\left\\{ #1 \\\\right\\}\", 1],\n            brackets: [\"\\\\left[ #1 \\\\right]\", 1],\n            eval: [\"\\\\left. #1 \\\\right|\", 1],\n            fraci: [\"{#1} / {#2}\", 2],\n            expp: [\"\\\\exp\\\\left( #1 \\right)\", 1],\n            bra: [\"\\\\left\\\\langle #1 \\\\right|\", 1],\n            ket: [\"\\\\left| #1 \\\\right\\\\rangle\", 1],\n            braket: [\"\\\\langle {#1} | {#2} \\\\rangle\", 2],\n        }\n    }\n}\n    </script>\n    <title>");
    out.append(title);
    out.append("</title>\n</head><body><div id=\"content\">");
    out.append(header);
    out.append("");
    out
}

fn same(a: &str, b: &str) -> (res: bool)
    ensures
        res == (a@ == b@),
{
    let x = a.to_owned();
    let y = b.to_owned();
    x == y
}

/// Renders the file at `local_path` with the lines `lines` into a page with the footer
/// `footer`, and hands its image copies and applets to the queue. `files` are the paths of the
/// files that are on disk. Where a line fails, the queue stays as it is.
pub fn compile_page(
    root: &Root,
    local_path: &str,
    lines: &Vec<String>,
    files: &Vec<String>,
    file_queue: &mut FileQueue,
    ref_map: &RefMap,
    public: bool,
    footer: &str,
) -> (res: Result<String, String>)
    ensures
        match page_compiled(
            *root,
            local_path@,
            texts(lines@),
            texts(files@),
            ref_map@,
            public,
            footer@,
        ) {
            Ok((page, text)) => res is Ok && res->Ok_0@ == text && final(file_queue)@ == with_page(
                old(file_queue)@,
                page,
            ),
            Err(e) => res is Err && res->Err_0@ == e && final(file_queue)@ == old(file_queue)@,
        },
{
    let mut compiled_text = write_page_start(root, local_path, public);
    let ghost head = compiled_text@;
    let mut parse_state = ParseState::new(local_path, copy_texts(files));
    let ghost first = parse_state@;
    let ghost all = texts(lines@);
    assert(all.take(0) == Seq::<Seq<char>>::empty());
    assert(head + Seq::<char>::empty() == head);
    let mut k: usize = 0;
    while k < lines.len()
        invariant
            k <= lines.len(),
            all == texts(lines@),
            *file_queue == *old(file_queue),
            first == first_page_state(local_path@, texts(files@)),
            head == page_start(*root, local_path@, public),
            lines_fold(first, all.take(k as int), local_path@, *root, ref_map@, public).0
                == parse_state@,
            lines_fold(first, all.take(k as int), local_path@, *root, ref_map@, public).2 is None,
            compiled_text@ == head + lines_fold(
                first,
                all.take(k as int),
                local_path@,
                *root,
                ref_map@,
                public,
            ).1,
        decreases lines.len() - k,
    {
        proof {
            assert(all.take(k + 1).drop_last() == all.take(k as int));
            assert(all.take(k + 1).last() == lines@[k as int]@);
        }
        let ghost body = lines_fold(first, all.take(k as int), local_path@, *root, ref_map@, public).1;
        match parse_line(lines[k].as_str(), root, ref_map, &mut parse_state, public) {
            Ok(text) => {
                compiled_text.append(text.as_str());
                compiled_text.append("\n");
                assert(compiled_text@ == head + (body + text@ + "\n"@));
            },
            Err(m) => {
                proof {
                    lemma_lines_fold_stops(
                        first,
                        all,
                        k + 1,
                        local_path@,
                        *root,
                        ref_map@,
                        public,
                    );
                }
                let mut e = String::new();
                e.append("File ");
                e.append(local_path);
                e.append(" line ");
                push_decimal(&mut e, (k + 1) as u64);
                e.append(": ");
                e.append(m.as_str());
                assert(e@ == at_line(local_path@, (k + 1) as nat) + m@);
                return Err(e);
            },
        }
        k += 1;
    }
    assert(all.take(all.len() as int) == all);
    let closing = parse_state.terminal(file_queue);
    compiled_text.append(closing.as_str());
    compiled_text.append("</div><div id=\"footer\">\n");
    compiled_text.append(footer);
    compiled_text.append("</div></body>\n<script>\nvar coll = document.getElementsByClassName(\"collapsible\");\nvar i;\n\nfor (i = 0; i < coll.length; i++) {{\n    coll[i].addEventListener(\"click\", function() {{\n        this.classList.toggle(\"active\");\n        var content = this.nextElementSibling;\n        if (content.style.maxHeight === \"0px\"){{\n            content.style.maxHeight = content.scrollHeight+\"px\";\n        }} else {{\n            content.style.maxHeight = \"0px\";\n        }}\n    }});\n}}\n</script></html>\n");
    Ok(compiled_text)
}

/// Renders the file at `local_path` with the lines `lines` into a page that is dated today.
/// Where the system clock gives no date, nothing is rendered and the queue stays as it is.
pub fn compile_file(
    root: &Root,
    local_path: &str,
    lines: &Vec<String>,
    files: &Vec<String>,
    file_queue: &mut FileQueue,
    ref_map: &RefMap,
    public: bool,
) -> (res: Result<String, String>)
    ensures
        (res matches Err(e) && e@ == clock_error() && final(file_queue)@ == old(file_queue)@) || (
        exists|footer: Seq<char>|
            is_footer(*root, footer) && match #[trigger] page_compiled(
                *root,
                local_path@,
                texts(lines@),
                texts(files@),
                ref_map@,
                public,
                footer,
            ) {
                Ok((page, text)) => res is Ok && res->Ok_0@ == text && final(file_queue)@
                    == with_page(old(file_queue)@, page),
                Err(e) => res is Err && res->Err_0@ == e && final(file_queue)@ == old(
                    file_queue,
                )@,
            }),
{
    let footer = match get_footer(root) {
        Ok(footer) => footer,
        Err(e) => {
            return Err(e);
        },
    };
    compile_page(root, local_path, lines, files, file_queue, ref_map, public, footer.as_str())
}

} // verus!
