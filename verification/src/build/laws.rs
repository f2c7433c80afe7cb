//! What holds of the parsers for every input: statements over the models of the line parser,
//! the link parser and the modifier stack, each proved from their definitions.

use crate::build::compile::{
    CommandTypes, LineOutcome, LineState, PageState, closing_text, first_page_state, first_step,
    footnote_block, footnote_blocks, page_compiled, page_start, page_tail,
    footnote_id, footnote_mark, line_finish, line_fold, line_parsed, line_start, line_step,
    lines_fold, list_end, open_text, with_footnote,
};
use crate::build::links::{
    LinkSignal, LinkState, Progress, anchor, cleared, closing_tag, consumed, external_opened,
    figure_markup, idle_link, image_args, image_made, is_modifier, link_step, opening_tag,
    toggle_output, toggled,
};
use crate::text::split;
use crate::build::refs::{
    Scan, SectionEntry, Tables, bumped, command_fold, counted, number_suffix, resolve, scan_fold,
    scan_step, trimmed,
};
use crate::root::Root;
use vstd::prelude::*;
use vstd::string::*;

verus! {

broadcast use vstd::string::group_string_axioms;

/// Whether `c` is an ordinary character of a line: it opens no link, toggles no modifier and
/// escapes nothing.
pub open spec fn is_plain_char(c: char) -> bool {
    c != '[' && c != '\\' && !is_modifier(c)
}

/// Whether `text` is made of ordinary characters.
pub open spec fn is_plain(text: Seq<char>) -> bool {
    forall|i: int| 0 <= i < text.len() ==> is_plain_char(#[trigger] text[i])
}

/// The character that closes a link opened with `opener`.
pub open spec fn closer(opener: char) -> char {
    if opener == '(' {
        ')'
    } else if opener == '[' {
        ']'
    } else {
        '}'
    }
}

/// Whether `c` can stand in the target of a link opened with `opener`: it opens no link,
/// escapes nothing and does not close the link.
pub open spec fn is_target_char(c: char, opener: char) -> bool {
    c != '[' && c != '\\' && c != closer(opener)
}

/// Whether `text` can be the target of a link opened with `opener`.
pub open spec fn is_target(text: Seq<char>, opener: char) -> bool {
    forall|i: int| 0 <= i < text.len() ==> is_target_char(#[trigger] text[i], opener)
}

/// Whether the command is settled and leaves the line's characters to the body.
pub open spec fn reads_body(command: CommandTypes) -> bool {
    !command.is_progressive() && !(command is MultiLatex) && !(command is Comment) && !(command is Label)
}

/// Reading `x + y` is reading `x` and then, if the line is still open, `y`.
pub proof fn lemma_line_fold_concat(
    s: LineState,
    x: Seq<char>,
    y: Seq<char>,
    root: Root,
    refs: Tables,
    public: bool,
)
    ensures
        line_fold(s, x + y, root, refs, public) == if line_fold(s, x, root, refs, public).1 is Open {
            line_fold(line_fold(s, x, root, refs, public).0, y, root, refs, public)
        } else {
            line_fold(s, x, root, refs, public)
        },
    decreases y.len(),
{
    if y.len() == 0 {
        assert(x + y == x);
    } else {
        assert((x + y).drop_last() == x + y.drop_last());
        assert((x + y).last() == y.last());
        lemma_line_fold_concat(s, x, y.drop_last(), root, refs, public);
    }
}

/// Reading one character is one step.
pub proof fn lemma_line_fold_one(s: LineState, c: char, root: Root, refs: Tables, public: bool)
    ensures
        line_fold(s, seq![c], root, refs, public) == line_step(s, c, root, refs, public),
{
    assert(seq![c].drop_last() == Seq::<char>::empty());
    assert(seq![c].last() == c);
    assert(line_fold(s, Seq::<char>::empty(), root, refs, public) == (s, LineOutcome::Open));
}

/// Ordinary characters, read where no link and no math is open, go to the body as they are.
pub proof fn lemma_plain_run(s: LineState, text: Seq<char>, root: Root, refs: Tables, public: bool)
    requires
        reads_body(s.command),
        !s.modifiers.contains('$'),
        !s.escaped,
        s.links.len() >= 1,
        s.links.last().progress is Idle,
        is_plain(text),
    ensures
        line_fold(s, text, root, refs, public) == (
            LineState { result: s.result + text, ..s },
            LineOutcome::Open,
        ),
    decreases text.len(),
{
    if text.len() == 0 {
        assert(s.result + text == s.result);
    } else {
        let head = text.drop_last();
        let c = text.last();
        assert(is_plain(head)) by {
            assert forall|i: int| 0 <= i < head.len() implies is_plain_char(#[trigger] head[i]) by {
                assert(head[i] == text[i]);
            }
        }
        lemma_plain_run(s, head, root, refs, public);
        let mid = LineState { result: s.result + head, ..s };
        assert(is_plain_char(text[text.len() - 1]));
        assert(mid.links.drop_last().push(mid.links.last()) == mid.links);
        assert((s.result + head).push(c) == s.result + text);
    }
}

/// Ordinary characters, read inside the display text of the innermost link, go to that text
/// as they are.
pub proof fn lemma_display_run(
    s: LineState,
    text: Seq<char>,
    root: Root,
    refs: Tables,
    public: bool,
)
    requires
        reads_body(s.command),
        !s.modifiers.contains('$'),
        !s.escaped,
        s.links.len() >= 1,
        s.links.last().progress is Display,
        is_plain(text),
    ensures
        line_fold(s, text, root, refs, public) == (
            LineState {
                links: s.links.drop_last().push(
                    LinkState { display: s.links.last().display + text, ..s.links.last() },
                ),
                ..s
            },
            LineOutcome::Open,
        ),
    decreases text.len(),
{
    let top = s.links.last();
    if text.len() == 0 {
        assert(top.display + text == top.display);
        assert(s.links.drop_last().push(top) == s.links);
    } else {
        let head = text.drop_last();
        let c = text.last();
        assert(is_plain(head)) by {
            assert forall|i: int| 0 <= i < head.len() implies is_plain_char(#[trigger] head[i]) by {
                assert(head[i] == text[i]);
            }
        }
        lemma_display_run(s, head, root, refs, public);
        let mid_top = LinkState { display: top.display + head, ..top };
        let mid = LineState { links: s.links.drop_last().push(mid_top), ..s };
        assert(is_plain_char(text[text.len() - 1]));
        assert(mid.links.last() == mid_top);
        assert(mid.links.drop_last() == s.links.drop_last());
        assert((top.display + head).push(c) == top.display + text);
    }
}

/// Characters of a target, read inside the target of the innermost link, go to the target as
/// they are.
pub proof fn lemma_target_run(s: LineState, text: Seq<char>, root: Root, refs: Tables, public: bool)
    requires
        reads_body(s.command),
        !s.modifiers.contains('$'),
        !s.escaped,
        s.links.len() >= 1,
        s.links.last().progress is Target,
        s.links.last().opener == '(' || s.links.last().opener == '{' || s.links.last().opener
            == '[',
        is_target(text, s.links.last().opener),
    ensures
        line_fold(s, text, root, refs, public) == (
            LineState {
                links: s.links.drop_last().push(
                    LinkState { target: s.links.last().target + text, ..s.links.last() },
                ),
                ..s
            },
            LineOutcome::Open,
        ),
    decreases text.len(),
{
    let top = s.links.last();
    if text.len() == 0 {
        assert(top.target + text == top.target);
        assert(s.links.drop_last().push(top) == s.links);
    } else {
        let head = text.drop_last();
        let c = text.last();
        assert(is_target(head, top.opener)) by {
            assert forall|i: int| 0 <= i < head.len() implies is_target_char(
                #[trigger] head[i],
                top.opener,
            ) by {
                assert(head[i] == text[i]);
            }
        }
        lemma_target_run(s, head, root, refs, public);
        let mid_top = LinkState { target: top.target + head, ..top };
        let mid = LineState { links: s.links.drop_last().push(mid_top), ..s };
        assert(is_target_char(text[text.len() - 1], top.opener));
        assert(mid.links.last() == mid_top);
        assert(mid.links.drop_last() == s.links.drop_last());
        assert((top.target + head).push(c) == top.target + text);
    }
}

/// Link attempts in which no link is open hold nothing.
pub proof fn lemma_nothing_open(links: Seq<LinkState>)
    requires
        forall|i: int| 0 <= i < links.len() ==> (#[trigger] links[i]).progress is Idle,
    ensures
        open_text(links) == Seq::<char>::empty(),
    decreases links.len(),
{
    if links.len() > 0 {
        assert(links.last() == links[links.len() - 1]);
        assert forall|i: int| 0 <= i < links.drop_last().len() implies (
        #[trigger] links.drop_last()[i]).progress is Idle by {
            assert(links.drop_last()[i] == links[i]);
        }
        lemma_nothing_open(links.drop_last());
        assert(Seq::<char>::empty() + Seq::<char>::empty() == Seq::<char>::empty());
    }
}

/// What a line of plain text or with one link gives around its body: the end of an open list,
/// and `<p>` unless a paragraph is open.
pub open spec fn paragraph_start(page: PageState) -> Seq<char> {
    list_end(page.list) + if page.paragraph {
        Seq::<char>::empty()
    } else {
        "<p>"@
    }
}

/// The state of a line without a command that holds one link attempt.
pub open spec fn link_line(page: PageState, top: LinkState, result: Seq<char>) -> LineState {
    LineState {
        command: CommandTypes::NoCommand,
        modifiers: Seq::empty(),
        links: seq![top],
        escaped: false,
        result,
        page,
    }
}

/// The link attempt of a `(` link with display text `a` and target `b`, at `progress`.
pub open spec fn attempt(a: Seq<char>, b: Seq<char>, opener: char, progress: Progress) -> LinkState {
    LinkState { display: a, target: b, opener, modifiers: Seq::empty(), progress }
}

proof fn lemma_link_opens(page: PageState, root: Root, refs: Tables, public: bool)
    ensures
        line_fold(line_start(page), seq!['['], root, refs, public) == (
            link_line(
                page,
                attempt(Seq::empty(), Seq::empty(), '.', Progress::Display),
                Seq::empty(),
            ),
            LineOutcome::Open,
        ),
{
    let s0 = line_start(page);
    lemma_line_fold_one(s0, '[', root, refs, public);
    let opened = attempt(Seq::empty(), Seq::empty(), '.', Progress::Display);
    assert(link_step(s0.links.last(), '[') == (
        opened,
        Ok::<LinkSignal, Seq<char>>(LinkSignal::Pushed),
    ));
    assert(s0.links.drop_last().push(opened) == seq![opened]);
}

proof fn lemma_link_shown(a: Seq<char>, page: PageState, root: Root, refs: Tables, public: bool)
    requires
        is_plain(a),
    ensures
        line_fold(line_start(page), seq!['['] + a, root, refs, public) == (
            link_line(page, attempt(a, Seq::empty(), '.', Progress::Display), Seq::empty()),
            LineOutcome::Open,
        ),
{
    lemma_link_opens(page, root, refs, public);
    let opened = attempt(Seq::empty(), Seq::empty(), '.', Progress::Display);
    let s1 = link_line(page, opened, Seq::empty());
    lemma_display_run(s1, a, root, refs, public);
    let shown = attempt(a, Seq::empty(), '.', Progress::Display);
    assert(opened.display + a == a);
    assert(s1.links.drop_last().push(shown) == seq![shown]);
    lemma_line_fold_concat(line_start(page), seq!['['], a, root, refs, public);
}

proof fn lemma_link_aimed(
    a: Seq<char>,
    opener: char,
    page: PageState,
    root: Root,
    refs: Tables,
    public: bool,
)
    requires
        opener == '(' || opener == '{',
    ensures
        line_fold(
            link_line(page, attempt(a, Seq::empty(), '.', Progress::Display), Seq::empty()),
            seq![']', opener],
            root,
            refs,
            public,
        ) == (
            link_line(page, attempt(a, Seq::empty(), opener, Progress::Target), Seq::empty()),
            LineOutcome::Open,
        ),
{
    let shown = attempt(a, Seq::empty(), '.', Progress::Display);
    let closed = attempt(a, Seq::empty(), '.', Progress::Opener);
    let aimed = attempt(a, Seq::empty(), opener, Progress::Target);
    let s2 = link_line(page, shown, Seq::empty());
    let s3 = link_line(page, closed, Seq::empty());
    assert(line_step(s2, ']', root, refs, public) == (s3, LineOutcome::Open)) by {
        assert(link_step(shown, ']') == (closed, Ok::<LinkSignal, Seq<char>>(LinkSignal::Pushed)));
        assert(s2.links.drop_last().push(closed) == seq![closed]);
    }
    assert(line_step(s3, opener, root, refs, public) == (
        link_line(page, aimed, Seq::empty()),
        LineOutcome::Open,
    )) by {
        assert(link_step(closed, opener) == (
            aimed,
            Ok::<LinkSignal, Seq<char>>(LinkSignal::Pushed),
        ));
        assert(s3.links.drop_last().push(aimed) == seq![aimed]);
    }
    lemma_line_fold_one(s2, ']', root, refs, public);
    lemma_line_fold_one(s3, opener, root, refs, public);
    lemma_line_fold_concat(s2, seq![']'], seq![opener], root, refs, public);
    assert(seq![']'] + seq![opener] == seq![']', opener]);
}

proof fn lemma_link_targeted(
    a: Seq<char>,
    b: Seq<char>,
    opener: char,
    page: PageState,
    root: Root,
    refs: Tables,
    public: bool,
)
    requires
        opener == '(' || opener == '{',
        is_target(b, opener),
    ensures
        line_fold(
            link_line(page, attempt(a, Seq::empty(), opener, Progress::Target), Seq::empty()),
            b,
            root,
            refs,
            public,
        ) == (
            link_line(page, attempt(a, b, opener, Progress::Target), Seq::empty()),
            LineOutcome::Open,
        ),
{
    let aimed = attempt(a, Seq::empty(), opener, Progress::Target);
    let s4 = link_line(page, aimed, Seq::empty());
    lemma_target_run(s4, b, root, refs, public);
    let full = attempt(a, b, opener, Progress::Target);
    assert(aimed.target + b == b);
    assert(s4.links.drop_last().push(full) == seq![full]);
}

/// The line up to the character that closes the link.
proof fn lemma_link_read(
    a: Seq<char>,
    b: Seq<char>,
    opener: char,
    page: PageState,
    root: Root,
    refs: Tables,
    public: bool,
)
    requires
        opener == '(' || opener == '{',
        is_plain(a),
        is_target(b, opener),
    ensures
        line_fold(line_start(page), seq!['['] + a + seq![']', opener] + b, root, refs, public) == (
            link_line(page, attempt(a, b, opener, Progress::Target), Seq::empty()),
            LineOutcome::Open,
        ),
{
    let s0 = line_start(page);
    lemma_link_shown(a, page, root, refs, public);
    lemma_link_aimed(a, opener, page, root, refs, public);
    lemma_line_fold_concat(s0, seq!['['] + a, seq![']', opener], root, refs, public);
    lemma_link_targeted(a, b, opener, page, root, refs, public);
    lemma_line_fold_concat(s0, seq!['['] + a + seq![']', opener], b, root, refs, public);
}

proof fn lemma_link_done(
    a: Seq<char>,
    b: Seq<char>,
    page: PageState,
    root: Root,
    refs: Tables,
    public: bool,
)
    ensures
        line_fold(
            link_line(page, attempt(a, b, '(', Progress::Target), Seq::empty()),
            seq![')'],
            root,
            refs,
            public,
        ) == (link_line(page, idle_link(), anchor(b, a)), LineOutcome::Open),
{
    let full = attempt(a, b, '(', Progress::Target);
    let s5 = link_line(page, full, Seq::empty());
    lemma_line_fold_one(s5, ')', root, refs, public);
    assert(link_step(full, ')') == (full, Ok::<LinkSignal, Seq<char>>(LinkSignal::Done)));
    assert(s5.result + anchor(b, a) == anchor(b, a));
    assert(cleared(full) == idle_link());
    assert(seq![cleared(full)] == seq![idle_link()]);
}

/// What an internal link shows: its own display text, or the title of what it leads to where
/// it has none.
pub open spec fn shown_text(a: Seq<char>, title: Seq<char>) -> Seq<char> {
    if a.len() == 0 {
        title
    } else {
        a
    }
}

proof fn lemma_reference_done(
    a: Seq<char>,
    b: Seq<char>,
    page: PageState,
    root: Root,
    refs: Tables,
    public: bool,
)
    ensures
        line_fold(
            link_line(page, attempt(a, b, '{', Progress::Target), Seq::empty()),
            seq!['}'],
            root,
            refs,
            public,
        ) == match resolve(refs, b) {
            Some((title, href)) => (
                link_line(page, idle_link(), anchor(href, shown_text(a, title))),
                LineOutcome::Open,
            ),
            None => (
                link_line(page, attempt(a, b, '{', Progress::Target), Seq::empty()),
                LineOutcome::Failed("Could not find link "@ + b),
            ),
        },
{
    let full = attempt(a, b, '{', Progress::Target);
    let ended = attempt(a, b, '{', Progress::Opener);
    let s5 = link_line(page, full, Seq::empty());
    lemma_line_fold_one(s5, '}', root, refs, public);
    assert(link_step(full, '}') == (ended, Ok::<LinkSignal, Seq<char>>(LinkSignal::Done)));
    assert(cleared(ended) == idle_link());
    assert(seq![cleared(ended)] == seq![idle_link()]);
    match resolve(refs, b) {
        Some((title, href)) => {
            assert(s5.result + anchor(href, shown_text(a, title)) == anchor(
                href,
                shown_text(a, title),
            ));
        },
        None => {},
    }
}

proof fn lemma_link_finished(markup: Seq<char>, page: PageState)
    ensures
        line_finish(link_line(page, idle_link(), markup)) == (
            PageState { list: None, paragraph: true, ..page },
            paragraph_start(page) + markup,
        ),
{
    reveal_strlit("");
    lemma_nothing_open(seq![idle_link()]);
    assert(markup + Seq::<char>::empty() == markup);
    assert(line_finish(link_line(page, idle_link(), markup)).1 =~= paragraph_start(page) + markup);
}

/// A line that consists of a well-formed external link `[a](b)` is rendered as exactly
/// `<a href=b>a</a>`, inside the paragraph that the line starts or goes on with.
pub proof fn law_external_link(
    a: Seq<char>,
    b: Seq<char>,
    page: PageState,
    root: Root,
    refs: Tables,
    public: bool,
)
    requires
        is_plain(a),
        is_target(b, '('),
    ensures
        line_parsed(seq!['['] + a + seq![']', '('] + b + seq![')'], page, root, refs, public) == (
            PageState { list: None, paragraph: true, ..page },
            Ok::<Seq<char>, Seq<char>>(paragraph_start(page) + anchor(b, a)),
        ),
{
    let s0 = line_start(page);
    let line = seq!['['] + a + seq![']', '('] + b + seq![')'];
    lemma_link_read(a, b, '(', page, root, refs, public);
    lemma_link_done(a, b, page, root, refs, public);
    lemma_line_fold_concat(s0, seq!['['] + a + seq![']', '('] + b, seq![')'], root, refs, public);
    lemma_link_finished(anchor(b, a), page);
    assert(line.len() > 0);
}

/// A line that consists of a well-formed internal link `[a]{b}` leads to what the label `b`
/// stands for, and shows `a`, or the title of what it leads to where `a` is empty. Where the
/// label stands for nothing, the line fails and the page state stays as it is.
pub proof fn law_internal_link(
    a: Seq<char>,
    b: Seq<char>,
    page: PageState,
    root: Root,
    refs: Tables,
    public: bool,
)
    requires
        is_plain(a),
        is_target(b, '{'),
    ensures
        line_parsed(seq!['['] + a + seq![']', '{'] + b + seq!['}'], page, root, refs, public)
            == match resolve(refs, b) {
            Some((title, href)) => (
                PageState { list: None, paragraph: true, ..page },
                Ok::<Seq<char>, Seq<char>>(
                    paragraph_start(page) + anchor(href, shown_text(a, title)),
                ),
            ),
            None => (page, Err::<Seq<char>, Seq<char>>("Could not find link "@ + b)),
        },
{
    let s0 = line_start(page);
    let line = seq!['['] + a + seq![']', '{'] + b + seq!['}'];
    lemma_link_read(a, b, '{', page, root, refs, public);
    lemma_reference_done(a, b, page, root, refs, public);
    lemma_line_fold_concat(s0, seq!['['] + a + seq![']', '{'] + b, seq!['}'], root, refs, public);
    match resolve(refs, b) {
        Some((title, href)) => {
            lemma_link_finished(anchor(href, shown_text(a, title)), page);
        },
        None => {},
    }
    assert(line.len() > 0);
}

/// A line of ordinary characters that begins no block command is rendered as itself, inside
/// the paragraph that the line starts or goes on with. Link punctuation that opens no link
/// is among the ordinary characters: it is not lost.
pub proof fn law_plain_line(line: Seq<char>, page: PageState, root: Root, refs: Tables, public: bool)
    requires
        line.len() > 0,
        first_step(line[0]) is NoCommand,
        is_plain(line),
    ensures
        line_parsed(line, page, root, refs, public) == (
            PageState { list: None, paragraph: true, ..page },
            Ok::<Seq<char>, Seq<char>>(paragraph_start(page) + line),
        ),
{
    reveal_strlit("");
    let s0 = line_start(page);
    let c = line[0];
    let rest = line.subrange(1, line.len() as int);
    assert(seq![c] + rest == line);
    assert(is_plain_char(line[0]));
    lemma_line_fold_one(s0, c, root, refs, public);
    let s1 = LineState { command: CommandTypes::NoCommand, result: seq![c], ..s0 };
    assert(s0.links.drop_last().push(s0.links.last()) == s0.links);
    assert(s0.result.push(c) == seq![c]);
    assert(line_fold(s0, seq![c], root, refs, public) == (s1, LineOutcome::Open));
    assert(is_plain(rest)) by {
        assert forall|i: int| 0 <= i < rest.len() implies is_plain_char(#[trigger] rest[i]) by {
            assert(rest[i] == line[i + 1]);
        }
    }
    lemma_plain_run(s1, rest, root, refs, public);
    lemma_line_fold_concat(s0, seq![c], rest, root, refs, public);
    let s2 = LineState { result: line, ..s1 };
    assert(line_fold(s0, line, root, refs, public) == (s2, LineOutcome::Open));
    lemma_nothing_open(s2.links);
    assert(line + Seq::<char>::empty() == line);
    assert(line_finish(s2).1 =~= paragraph_start(page) + line);
}

/// A link parser in which no link is open passes every character but `[` on, and stays as
/// it is: what opens no link is left to the line.
pub proof fn law_idle_passes(s: LinkState, c: char)
    requires
        s.progress is Idle,
        c != '[',
    ensures
        link_step(s, c) == (s, Ok::<LinkSignal, Seq<char>>(LinkSignal::Pass)),
{
}

/// A link attempt fails only on the character behind an empty bracket pair, and hands back
/// all that it had taken in, followed by that character: `[`, `]` and the character. Nothing
/// of the text is lost, and the attempt holds nothing afterwards.
pub proof fn law_failure_hands_back(s: LinkState, c: char)
    ensures
        link_step(s, c).1 matches Ok(LinkSignal::Failed(text)) ==> text == seq!['[', ']', c]
            && text == consumed(s).push(c) && s.progress is Opener && s.display.len() == 0
            && link_step(s, c).0 == cleared(s),
{
    if link_step(s, c).1 matches Ok(LinkSignal::Failed(text)) {
        assert(s.progress is Opener);
        assert(s.display.len() == 0);
        assert(consumed(s).push(c) =~= seq!['[', ']', c]);
    }
}

/// What checking the characters of `text` one after the other gives: the stack behind them
/// and their markup, up to the first error.
pub open spec fn modifiers_fold(stack: Seq<char>, text: Seq<char>) -> (
    Seq<char>,
    Seq<char>,
    Option<Seq<char>>,
)
    decreases text.len(),
{
    if text.len() == 0 {
        (stack, Seq::empty(), None)
    } else {
        let (before, markup, error) = modifiers_fold(stack, text.drop_last());
        if error is Some {
            (before, markup, error)
        } else {
            match toggle_output(before, text.last()) {
                Ok(Some(tag)) => (toggled(before, text.last()), markup + tag, None),
                Ok(None) => (before, markup.push(text.last()), None),
                Err(e) => (toggled(before, text.last()), markup, Some(e)),
            }
        }
    }
}

/// Checking `x + y` is checking `x` and then, if there was no error, `y`.
pub proof fn lemma_modifiers_fold_concat(stack: Seq<char>, x: Seq<char>, y: Seq<char>)
    requires
        modifiers_fold(stack, x).2 is None,
    ensures
        modifiers_fold(stack, x + y) == (
            modifiers_fold(modifiers_fold(stack, x).0, y).0,
            modifiers_fold(stack, x).1 + modifiers_fold(modifiers_fold(stack, x).0, y).1,
            modifiers_fold(modifiers_fold(stack, x).0, y).2,
        ),
    decreases y.len(),
{
    if y.len() == 0 {
        assert(x + y == x);
        assert(modifiers_fold(stack, x).1 + Seq::<char>::empty() == modifiers_fold(stack, x).1);
    } else {
        assert((x + y).drop_last() == x + y.drop_last());
        assert((x + y).last() == y.last());
        lemma_modifiers_fold_concat(stack, x, y.drop_last());
        let inner = modifiers_fold(modifiers_fold(stack, x).0, y.drop_last());
        let outer = modifiers_fold(stack, x).1;
        if inner.2 is None {
            match toggle_output(inner.0, y.last()) {
                Ok(Some(tag)) => {
                    assert((outer + inner.1) + tag == outer + (inner.1 + tag));
                },
                Ok(None) => {
                    assert((outer + inner.1).push(y.last()) == outer + inner.1.push(y.last()));
                },
                Err(e) => {},
            }
        }
    }
}

/// Whether `c` opens and closes a span: one of `*`, `_`, the backtick and `$`.
pub open spec fn is_marker(c: char) -> bool {
    c == '*' || c == '_' || c == '`' || c == '$'
}

/// Whether `markers` are markers that differ from each other and from those in `stack`.
pub open spec fn fresh_markers(stack: Seq<char>, markers: Seq<char>) -> bool {
    &&& forall|i: int| 0 <= i < markers.len() ==> is_marker(#[trigger] markers[i])
    &&& forall|i: int| 0 <= i < markers.len() ==> !stack.contains(#[trigger] markers[i])
    &&& forall|i: int, j: int|
        0 <= i < j < markers.len() ==> #[trigger] markers[i] != #[trigger] markers[j]
}

/// The opening markup of `markers`, in order.
pub open spec fn opening_tags(markers: Seq<char>) -> Seq<char>
    decreases markers.len(),
{
    if markers.len() == 0 {
        Seq::empty()
    } else {
        opening_tags(markers.drop_last()) + opening_tag(markers.last())
    }
}

/// The closing markup of `markers`, the last first.
pub open spec fn closing_tags(markers: Seq<char>) -> Seq<char>
    decreases markers.len(),
{
    if markers.len() == 0 {
        Seq::empty()
    } else {
        closing_tag(markers.last()) + closing_tags(markers.drop_last())
    }
}

/// Opening the markers of `markers` one inside the other gives their opening markup in order
/// and puts them on the stack.
pub proof fn lemma_open_all(stack: Seq<char>, markers: Seq<char>)
    requires
        fresh_markers(stack, markers),
    ensures
        modifiers_fold(stack, markers) == (
            stack + markers,
            opening_tags(markers),
            None::<Seq<char>>,
        ),
    decreases markers.len(),
{
    if markers.len() == 0 {
        assert(stack + markers == stack);
    } else {
        let head = markers.drop_last();
        let m = markers.last();
        assert(fresh_markers(stack, head)) by {
            assert forall|i: int| 0 <= i < head.len() implies is_marker(#[trigger] head[i])
                && !stack.contains(head[i]) by {
                assert(head[i] == markers[i]);
            }
            assert forall|i: int, j: int| 0 <= i < j < head.len() implies #[trigger] head[i]
                != #[trigger] head[j] by {
                assert(head[i] == markers[i]);
                assert(head[j] == markers[j]);
            }
        }
        lemma_open_all(stack, head);
        let on = stack + head;
        assert(is_marker(markers[markers.len() - 1]));
        assert(!stack.contains(markers[markers.len() - 1]));
        assert(!on.contains(m)) by {
            if on.contains(m) {
                let k = choose|k: int| 0 <= k < on.len() && on[k] == m;
                if k < stack.len() {
                    assert(stack[k] == m);
                    assert(stack.contains(m));
                } else {
                    assert(head[k - stack.len()] == m);
                    assert(markers[k - stack.len()] == markers[markers.len() - 1]);
                }
            }
        }
        assert(on.push(m) == stack + markers);
    }
}

/// Closing the markers of `markers` from the innermost out gives their closing markup, the
/// last first, and takes them off the stack.
pub proof fn lemma_close_all(stack: Seq<char>, markers: Seq<char>)
    requires
        fresh_markers(stack, markers),
    ensures
        modifiers_fold(stack + markers, markers.reverse()) == (
            stack,
            closing_tags(markers),
            None::<Seq<char>>,
        ),
    decreases markers.len(),
{
    if markers.len() == 0 {
        assert(stack + markers == stack);
        assert(markers.reverse() =~= Seq::<char>::empty());
    } else {
        let head = markers.drop_last();
        let m = markers.last();
        assert(fresh_markers(stack, head)) by {
            assert forall|i: int| 0 <= i < head.len() implies is_marker(#[trigger] head[i])
                && !stack.contains(head[i]) by {
                assert(head[i] == markers[i]);
            }
            assert forall|i: int, j: int| 0 <= i < j < head.len() implies #[trigger] head[i]
                != #[trigger] head[j] by {
                assert(head[i] == markers[i]);
                assert(head[j] == markers[j]);
            }
        }
        lemma_close_all(stack, head);
        let on = stack + markers;
        assert(markers.reverse() =~= seq![m] + head.reverse());
        // The innermost marker is on top: it closes.
        assert(on.last() == m);
        assert(on.contains(m)) by {
            assert(on[on.len() - 1] == m);
        }
        assert(is_marker(markers[markers.len() - 1]));
        assert(on.drop_last() == stack + head);
        assert(seq![m].drop_last() == Seq::<char>::empty());
        assert(seq![m].last() == m);
        assert(modifiers_fold(on, Seq::<char>::empty()) == (
            on,
            Seq::<char>::empty(),
            None::<Seq<char>>,
        ));
        assert(toggle_output(on, m) == Ok::<Option<Seq<char>>, Seq<char>>(Some(closing_tag(m))));
        assert(toggled(on, m) == stack + head);
        assert(modifiers_fold(on, seq![m]) == (
            stack + head,
            Seq::<char>::empty() + closing_tag(m),
            None::<Seq<char>>,
        ));
        lemma_modifiers_fold_concat(on, seq![m], head.reverse());
        assert((Seq::<char>::empty() + closing_tag(m)) + closing_tags(head) == closing_tag(m)
            + closing_tags(head));
    }
}

/// Markers that are opened one inside the other and closed in the opposite order give as many
/// opening as closing tags, nested as the markers are, and leave the stack of open modifiers
/// as it was.
pub proof fn law_balanced_modifiers(stack: Seq<char>, markers: Seq<char>)
    requires
        fresh_markers(stack, markers),
    ensures
        modifiers_fold(stack, markers + markers.reverse()) == (
            stack,
            opening_tags(markers) + closing_tags(markers),
            None::<Seq<char>>,
        ),
{
    lemma_open_all(stack, markers);
    lemma_close_all(stack, markers);
    lemma_modifiers_fold_concat(stack, markers, markers.reverse());
}

/// A span of one marker, opened and closed `n` times, gives `n` times its opening tag followed
/// by its closing tag.
pub open spec fn spans(marker: char, n: nat) -> Seq<char>
    decreases n,
{
    if n == 0 {
        Seq::empty()
    } else {
        spans(marker, (n - 1) as nat) + opening_tag(marker) + closing_tag(marker)
    }
}

/// One marker, `2 * n` times.
pub open spec fn repeated(marker: char, n: nat) -> Seq<char>
    decreases n,
{
    if n == 0 {
        Seq::empty()
    } else {
        repeated(marker, (n - 1) as nat).push(marker).push(marker)
    }
}

/// One marker written `2 * n` times opens and closes `n` spans, and leaves the stack of open
/// modifiers as it was.
pub proof fn law_repeated_marker(stack: Seq<char>, marker: char, n: nat)
    requires
        is_marker(marker),
        !stack.contains(marker),
    ensures
        modifiers_fold(stack, repeated(marker, n)) == (
            stack,
            spans(marker, n),
            None::<Seq<char>>,
        ),
    decreases n,
{
    if n > 0 {
        law_repeated_marker(stack, marker, (n - 1) as nat);
        let before = repeated(marker, (n - 1) as nat);
        let opened = before.push(marker);
        assert(opened.drop_last() == before);
        assert(repeated(marker, n).drop_last() == opened);
        let on = stack.push(marker);
        assert(on.last() == marker);
        assert(on.contains(marker)) by {
            assert(on[on.len() - 1] == marker);
        }
        assert(on.drop_last() == stack);
        assert(opened.last() == marker);
        assert(repeated(marker, n).last() == marker);
        assert(toggle_output(stack, marker) == Ok::<Option<Seq<char>>, Seq<char>>(
            Some(opening_tag(marker)),
        ));
        assert(toggled(stack, marker) == on);
        assert(modifiers_fold(stack, opened) == (
            on,
            spans(marker, (n - 1) as nat) + opening_tag(marker),
            None::<Seq<char>>,
        ));
        assert(toggle_output(on, marker) == Ok::<Option<Seq<char>>, Seq<char>>(
            Some(closing_tag(marker)),
        ));
        assert(toggled(on, marker) == stack);
    }
}

/// Whether every character of `text` is a marker.
pub open spec fn all_markers(text: Seq<char>) -> bool {
    forall|i: int| 0 <= i < text.len() ==> is_marker(#[trigger] text[i])
}

/// The number of spans that the characters of `text` open, and the number that they close,
/// when they are checked one after the other against `stack`.
pub open spec fn spans_moved(stack: Seq<char>, text: Seq<char>) -> (nat, nat)
    decreases text.len(),
{
    if text.len() == 0 {
        (0, 0)
    } else {
        let (opened, closed) = spans_moved(stack, text.drop_last());
        let (before, _, error) = modifiers_fold(stack, text.drop_last());
        if error is Some || !is_modifier(text.last()) {
            (opened, closed)
        } else if !before.contains(text.last()) {
            (opened + 1, closed)
        } else if before.last() == text.last() {
            (opened, closed + 1)
        } else {
            (opened, closed)
        }
    }
}

/// A tag that closes a span closes the innermost span that is open: spans end in the opposite
/// order of their beginning.
pub proof fn law_close_is_innermost(stack: Seq<char>, c: char)
    requires
        is_marker(c),
        toggle_output(stack, c) == Ok::<Option<Seq<char>>, Seq<char>>(Some(closing_tag(c))),
    ensures
        stack.len() > 0,
        stack.last() == c,
        toggled(stack, c) == stack.drop_last(),
{
    reveal_strlit("<b>");
    reveal_strlit("<i>");
    reveal_strlit("<code>");
    reveal_strlit("\\(");
    reveal_strlit("</b>");
    reveal_strlit("</i>");
    reveal_strlit("</code>");
    reveal_strlit("\\)");
    if !stack.contains(c) {
        assert(opening_tag(c) == closing_tag(c));
        assert(opening_tag(c)[1] == closing_tag(c)[1]);
    }
}

/// Markers that are checked without an error each give a tag, and the stack of open modifiers
/// keeps count of them: it has grown by the spans that were opened and not closed.
pub proof fn law_markers_counted(stack: Seq<char>, text: Seq<char>)
    requires
        all_markers(text),
        modifiers_fold(stack, text).2 is None,
    ensures
        ({
            let (opened, closed) = spans_moved(stack, text);
            let after = modifiers_fold(stack, text).0;
            &&& opened + closed == text.len()
            &&& after.len() + closed == stack.len() + opened
        }),
    decreases text.len(),
{
    if text.len() > 0 {
        let head = text.drop_last();
        let c = text.last();
        assert(is_marker(text[text.len() - 1]));
        assert(all_markers(head)) by {
            assert forall|i: int| 0 <= i < head.len() implies is_marker(#[trigger] head[i]) by {
                assert(head[i] == text[i]);
            }
        }
        law_markers_counted(stack, head);
        let before = modifiers_fold(stack, head).0;
        if before.contains(c) {
            assert(before.len() > 0);
        }
    }
}

/// Markers of which every one is closed again, in the opposite order of the opening, give as
/// many opening tags as closing tags: where `text` is checked without an error and leaves the
/// stack of open modifiers as it was, every character of it gave a tag, half of them opened
/// a span and half of them closed one.
pub proof fn law_balanced_run(stack: Seq<char>, text: Seq<char>)
    requires
        all_markers(text),
        modifiers_fold(stack, text).2 is None,
        modifiers_fold(stack, text).0 == stack,
    ensures
        spans_moved(stack, text).0 == spans_moved(stack, text).1,
        text.len() == 2 * spans_moved(stack, text).0,
{
    law_markers_counted(stack, text);
}

/// A modifier that is closed while another one is open inside it is an error.
pub proof fn law_unmatched_close(stack: Seq<char>, c: char)
    requires
        is_modifier(c),
        stack.contains(c),
        stack.last() != c,
    ensures
        toggle_output(stack, c) == Err::<Option<Seq<char>>, Seq<char>>("Modifier misformatting"@),
        toggled(stack, c) == stack,
{
}

/// The footnote that is taken in as number `n` is referred to by the name of number `n`, and
/// its block, which is the last at the end of the page, carries that name and its text. The
/// number is one more than the number of footnotes before: the first is number 1.
pub proof fn law_footnote_numbers(page: PageState, text: Seq<char>, c: char)
    ensures
        ({
            let n = page.footnotes.len() + 1;
            let after = with_footnote(page, text);
            &&& after.footnotes.len() == n
            &&& footnote_mark(n, c) == ("<sup><a href=\"#"@ + footnote_id(n) + "\">"@
                + crate::text::decimal(n) + "</a></sup>"@).push(c)
            &&& footnote_blocks(after.footnotes) == footnote_blocks(page.footnotes)
                + footnote_block(n, text)
            &&& footnote_block(n, text) == "<div id=\""@ + footnote_id(n)
                + "\" class=\"footnote\"><sup>"@ + crate::text::decimal(n) + "</sup> "@ + text
                + "</div>"@
        }),
{
    let after = with_footnote(page, text);
    assert(after.footnotes.drop_last() == page.footnotes);
}

/// Whether `line` is a line of ordinary characters that begins no block command.
pub open spec fn is_plain_line(line: Seq<char>) -> bool {
    line.len() > 0 && first_step(line[0]) is NoCommand && is_plain(line)
}

/// The lines of `lines`, each with a line break behind it.
pub open spec fn joined(lines: Seq<Seq<char>>) -> Seq<char>
    decreases lines.len(),
{
    if lines.len() == 0 {
        Seq::empty()
    } else {
        joined(lines.drop_last()) + lines.last() + "\n"@
    }
}

/// The lines of a file of plain lines, with no empty line among them, are rendered as one
/// paragraph: the lines as they are behind one `<p>`, with no other markup between them, and
/// the paragraph is open behind them.
pub proof fn law_plain_file(
    lines: Seq<Seq<char>>,
    page: PageState,
    path: Seq<char>,
    root: Root,
    refs: Tables,
    public: bool,
)
    requires
        lines.len() > 0,
        forall|i: int| 0 <= i < lines.len() ==> is_plain_line(#[trigger] lines[i]),
    ensures
        lines_fold(page, lines, path, root, refs, public) == (
            PageState { list: None, paragraph: true, ..page },
            paragraph_start(page) + joined(lines),
            None::<Seq<char>>,
        ),
    decreases lines.len(),
{
    reveal_strlit("");
    let head = lines.drop_last();
    let line = lines.last();
    assert(is_plain_line(lines[lines.len() - 1]));
    if head.len() == 0 {
        law_plain_line(line, page, root, refs, public);
        assert(lines_fold(page, head, path, root, refs, public) == (
            page,
            Seq::<char>::empty(),
            None::<Seq<char>>,
        ));
        assert(joined(head) == Seq::<char>::empty());
        assert(Seq::<char>::empty() + (paragraph_start(page) + line) + "\n"@ == paragraph_start(
            page,
        ) + (Seq::<char>::empty() + line + "\n"@));
    } else {
        assert forall|i: int| 0 <= i < head.len() implies is_plain_line(#[trigger] head[i]) by {
            assert(head[i] == lines[i]);
        }
        law_plain_file(head, page, path, root, refs, public);
        let mid = PageState { list: None, paragraph: true, ..page };
        law_plain_line(line, mid, root, refs, public);
        assert(paragraph_start(mid) == Seq::<char>::empty());
        assert((paragraph_start(page) + joined(head)) + (paragraph_start(mid) + line) + "\n"@
            == paragraph_start(page) + (joined(head) + line + "\n"@));
    }
}

/// A line that begins with `~` is a label line, whatever follows.
pub proof fn lemma_label_line(text: Seq<char>)
    ensures
        command_fold(seq!['~'] + text).0 == CommandTypes::Label,
    decreases text.len(),
{
    let line = seq!['~'] + text;
    if text.len() == 0 {
        assert(line.drop_last() == Seq::<char>::empty());
        assert(line.last() == '~');
        assert(command_fold(Seq::<char>::empty()).0 == CommandTypes::Evaluating);
    } else {
        assert(line.drop_last() == seq!['~'] + text.drop_last());
        lemma_label_line(text.drop_last());
    }
}

/// A label names the header that follows it: after a label line and a header line, the label
/// stands for the section with the header's text as its title, the section counters as they
/// are behind the header, and the anchor that is made of them. A reference to the label then
/// resolves to that title and anchor, unless a page goes by the same name.
pub proof fn law_label_names_section(
    s: Scan,
    label: Seq<char>,
    header: Seq<char>,
    level: u8,
    n: nat,
    path: Seq<char>,
    page: Seq<char>,
    root: Root,
    public: bool,
)
    requires
        s.label.len() == 0,
        s.sections.len() == 5,
        trimmed(label).len() > 0,
        header.len() > 0,
        header[0] == '#',
        command_fold(header).0 == CommandTypes::Header(level),
        1 <= level <= 5,
        s.sections[level - 1] < u32::MAX,
    ensures
        ({
            let first = scan_step(s, seq!['~'] + label, n, path, page, root, public);
            let second = scan_step(first.0, header, n + 1, path, page, root, public);
            let numbers = bumped(s.sections, level as int);
            let entry = SectionEntry {
                title: command_fold(header).1,
                number: numbers,
                link: root.link(page + "-sec-"@ + number_suffix(numbers), public),
            };
            &&& first.1 is None
            &&& second.1 is None
            &&& second.0.label.len() == 0
            &&& second.0.sections == numbers
            &&& second.0.tables.sections == s.tables.sections.insert(trimmed(label), entry)
            &&& !s.tables.posts.dom().contains(trimmed(label)) ==> resolve(
                second.0.tables,
                trimmed(label),
            ) == Some((entry.title, entry.link))
        }),
{
    let line = seq!['~'] + label;
    lemma_label_line(label);
    assert(line.subrange(1, line.len() as int) == label);
    assert(line[0] == '~');
}

/// The line parser never runs out of link attempts: where it holds one before a character, it
/// holds one behind it, and so to the end of the line.
pub proof fn law_link_attempt_stays(
    s: LineState,
    text: Seq<char>,
    root: Root,
    refs: Tables,
    public: bool,
)
    requires
        s.links.len() >= 1,
    ensures
        line_fold(s, text, root, refs, public).0.links.len() >= 1,
    decreases text.len(),
{
    if text.len() > 0 {
        law_link_attempt_stays(s, text.drop_last(), root, refs, public);
    }
}

/// Footnotes and figures are only ever added: behind a line, whether it failed or not, the
/// page holds the footnotes it held before as the first of its footnotes, and has counted no
/// fewer figures.
pub proof fn law_page_only_grows(
    s: LineState,
    text: Seq<char>,
    root: Root,
    refs: Tables,
    public: bool,
)
    ensures
        ({
            let after = line_fold(s, text, root, refs, public).0.page;
            &&& after.footnotes.len() >= s.page.footnotes.len()
            &&& after.footnotes.take(s.page.footnotes.len() as int) == s.page.footnotes
            &&& after.figures >= s.page.figures
        }),
    decreases text.len(),
{
    if text.len() == 0 {
        assert(s.page.footnotes.take(s.page.footnotes.len() as int) == s.page.footnotes);
    } else {
        law_page_only_grows(s, text.drop_last(), root, refs, public);
        let before = line_fold(s, text.drop_last(), root, refs, public);
        let after = line_fold(s, text, root, refs, public).0.page;
        let n = s.page.footnotes.len() as int;
        if after.footnotes.len() > before.0.page.footnotes.len() {
            assert(after.footnotes.take(n) =~= before.0.page.footnotes.take(n));
        }
    }
}

/// A file of plain lines, with no empty line among them, becomes a page whose body is one
/// paragraph and nothing else: `<p>`, the lines as they are, and `</p>`, between what stands
/// at the head of every page and the footer.
pub proof fn law_plain_page(
    lines: Seq<Seq<char>>,
    path: Seq<char>,
    files: Seq<Seq<char>>,
    root: Root,
    refs: Tables,
    public: bool,
    footer: Seq<char>,
)
    requires
        lines.len() > 0,
        forall|i: int| 0 <= i < lines.len() ==> is_plain_line(#[trigger] lines[i]),
    ensures
        page_compiled(root, path, lines, files, refs, public, footer) == Ok::<
            (PageState, Seq<char>),
            Seq<char>,
        >(
            (
                PageState { paragraph: true, ..first_page_state(path, files) },
                page_start(root, path, public) + "<p>"@ + joined(lines) + "</p>"@
                    + "</div><div id=\"footer\">\n"@ + footer + page_tail(),
            ),
        ),
{
    reveal_strlit("");
    let first = first_page_state(path, files);
    law_plain_file(lines, first, path, root, refs, public);
    let page = PageState { paragraph: true, ..first };
    assert(PageState { list: None, paragraph: true, ..first } == page);
    assert(paragraph_start(first) =~= "<p>"@);
    assert(footnote_blocks(page.footnotes) == Seq::<char>::empty());
    assert(closing_text(page) =~= "</p>"@);
    assert(page_start(root, path, public) + ("<p>"@ + joined(lines)) == page_start(
        root,
        path,
        public,
    ) + "<p>"@ + joined(lines));
}

/// A line on which a link is opened and never closed is rendered as it was written: what the
/// link attempt holds at the end of the line goes to the body, bracket and all.
pub proof fn law_unfinished_link(
    a: Seq<char>,
    page: PageState,
    root: Root,
    refs: Tables,
    public: bool,
)
    requires
        is_plain(a),
    ensures
        line_parsed(seq!['['] + a, page, root, refs, public) == (
            PageState { list: None, paragraph: true, ..page },
            Ok::<Seq<char>, Seq<char>>(paragraph_start(page) + (seq!['['] + a)),
        ),
{
    reveal_strlit("");
    lemma_link_shown(a, page, root, refs, public);
    let shown = attempt(a, Seq::empty(), '.', Progress::Display);
    let s = link_line(page, shown, Seq::empty());
    assert(seq![shown].drop_last() == Seq::<LinkState>::empty());
    assert(seq![shown].last() == shown);
    assert(open_text(Seq::<LinkState>::empty()) == Seq::<char>::empty());
    assert(open_text(seq![shown]) == Seq::<char>::empty() + consumed(shown));
    assert(s.result + open_text(s.links) =~= seq!['['] + a);
    assert((seq!['['] + a).len() > 0);
    assert(line_finish(s).1 =~= paragraph_start(page) + (seq!['['] + a));
}

/// The link attempt behind the characters of `text`, fed to an attempt that holds nothing,
/// and the characters that were fed to it since its link was opened.
pub open spec fn link_fold(text: Seq<char>) -> (LinkState, Seq<char>)
    decreases text.len(),
{
    if text.len() == 0 {
        (idle_link(), Seq::empty())
    } else {
        let (s, raw) = link_fold(text.drop_last());
        let next = link_step(s, text.last()).0;
        (
            next,
            if next.progress is Idle {
                Seq::empty()
            } else {
                raw.push(text.last())
            },
        )
    }
}

/// Whether the attempt took or passed on every character of `text`: no link and no footnote
/// was completed, no inner link was opened and nothing failed.
pub open spec fn is_quiet(text: Seq<char>) -> bool
    decreases text.len(),
{
    text.len() == 0 || (is_quiet(text.drop_last()) && (link_step(
        link_fold(text.drop_last()).0,
        text.last(),
    ).1 matches Ok(signal) && (signal is Pushed || signal is Pass)))
}

/// As long as the attempt has no display text, what it holds is what was fed to it.
proof fn lemma_holds_what_was_fed(text: Seq<char>)
    requires
        is_quiet(text),
    ensures
        ({
            let (s, raw) = link_fold(text);
            &&& s.progress is Idle ==> s.display.len() == 0 && raw.len() == 0
            &&& !(s.progress is Target) ==> s.target.len() == 0
            &&& s.display.len() == 0 ==> raw == consumed(s)
        }),
    decreases text.len(),
{
    reveal_strlit("<b>");
    reveal_strlit("<i>");
    reveal_strlit("<code>");
    reveal_strlit("\\(");
    reveal_strlit("</b>");
    reveal_strlit("</i>");
    reveal_strlit("</code>");
    reveal_strlit("\\)");
    reveal_strlit("</div>");
    if text.len() > 0 {
        lemma_holds_what_was_fed(text.drop_last());
        let (s, raw) = link_fold(text.drop_last());
        let c = text.last();
        let next = link_step(s, c).0;
        if next.display.len() == 0 && !(next.progress is Idle) {
            assert(raw.push(c) =~= consumed(next));
        }
    }
}

/// Where a link attempt fails, the text that it hands back is exactly what was fed to it since
/// its link was opened, followed by the character on which it fails; and it holds nothing
/// afterwards.
pub proof fn law_failure_returns_input(text: Seq<char>, c: char)
    requires
        is_quiet(text),
    ensures
        link_step(link_fold(text).0, c).1 matches Ok(LinkSignal::Failed(handed)) ==> handed
            == link_fold(text).1.push(c) && link_step(link_fold(text).0, c).0 == cleared(
            link_fold(text).0,
        ) && link_step(link_fold(text).0, c).0.progress is Idle,
{
    lemma_holds_what_was_fed(text);
    law_failure_hands_back(link_fold(text).0, c);
}

/// A header line moves the section counters: the counter of its level counts one more, the
/// deeper levels start again at zero, the levels above stay.
pub proof fn law_header_moves_counters(
    s: Scan,
    line: Seq<char>,
    level: u8,
    n: nat,
    path: Seq<char>,
    page: Seq<char>,
    root: Root,
    public: bool,
)
    requires
        s.sections.len() == 5,
        command_fold(line).0 == CommandTypes::Header(level),
        1 <= level <= 5,
        s.sections[level - 1] < u32::MAX,
    ensures
        ({
            let after = scan_step(s, line, n, path, page, root, public).0.sections;
            &&& after.len() == 5
            &&& after[level - 1] == s.sections[level - 1] + 1
            &&& forall|j: int| level <= j < 5 ==> after[j] == 0
            &&& forall|j: int| 0 <= j < level - 1 ==> after[j] == s.sections[j]
        }),
{
    let t = command_fold(line).0;
    assert(counted(s, t) == Some(Scan { sections: bumped(s.sections, level as int), ..s }));
}

/// In a file, a label line that is directly followed by a header line names that header's
/// section: where the lines before them were scanned without an error and left no label
/// waiting, the scan behind the two lines has no error, and the label stands for the section
/// with the header's text as its title and the anchor of the section counters behind the
/// header; not for an earlier header.
pub proof fn law_label_in_file(
    start: Scan,
    before: Seq<Seq<char>>,
    label: Seq<char>,
    header: Seq<char>,
    level: u8,
    path: Seq<char>,
    page: Seq<char>,
    root: Root,
    public: bool,
)
    requires
        scan_fold(start, before, path, page, root, public).1 is None,
        scan_fold(start, before, path, page, root, public).0.label.len() == 0,
        scan_fold(start, before, path, page, root, public).0.sections.len() == 5,
        trimmed(label).len() > 0,
        header.len() > 0,
        header[0] == '#',
        command_fold(header).0 == CommandTypes::Header(level),
        1 <= level <= 5,
        scan_fold(start, before, path, page, root, public).0.sections[level - 1] < u32::MAX,
    ensures
        ({
            let s = scan_fold(start, before, path, page, root, public).0;
            let after = scan_fold(
                start,
                before.push(seq!['~'] + label).push(header),
                path,
                page,
                root,
                public,
            );
            let numbers = bumped(s.sections, level as int);
            let entry = SectionEntry {
                title: command_fold(header).1,
                number: numbers,
                link: root.link(page + "-sec-"@ + number_suffix(numbers), public),
            };
            &&& after.1 is None
            &&& after.0.tables.sections == s.tables.sections.insert(trimmed(label), entry)
            &&& !s.tables.posts.dom().contains(trimmed(label)) ==> resolve(
                after.0.tables,
                trimmed(label),
            ) == Some((entry.title, entry.link))
        }),
{
    let s = scan_fold(start, before, path, page, root, public).0;
    let one = before.push(seq!['~'] + label);
    let two = one.push(header);
    assert(one.drop_last() == before);
    assert(one.last() == seq!['~'] + label);
    assert(two.drop_last() == one);
    assert(two.last() == header);
    law_label_names_section(
        s,
        label,
        header,
        level,
        (before.len() + 1) as nat,
        path,
        page,
        root,
        public,
    );
    let n = (before.len() + 1) as nat;
    assert(one.len() == n);
    assert(two.len() == n + 1);
    let first = scan_step(s, seq!['~'] + label, n, path, page, root, public);
    assert(scan_fold(start, one, path, page, root, public) == first);
    assert(first.1 is None);
    let second = scan_step(first.0, header, n + 1, path, page, root, public);
    assert(scan_fold(start, two, path, page, root, public) == second);
}

/// A text that holds no `sep` is its own single piece.
pub proof fn lemma_split_whole(text: Seq<char>, sep: char)
    requires
        forall|i: int| 0 <= i < text.len() ==> #[trigger] text[i] != sep,
    ensures
        split(text, sep) == seq![text],
    decreases text.len(),
{
    if text.len() == 0 {
        assert(text == Seq::<char>::empty());
    } else {
        let head = text.drop_last();
        assert forall|i: int| 0 <= i < head.len() implies #[trigger] head[i] != sep by {
            assert(head[i] == text[i]);
        }
        lemma_split_whole(head, sep);
        assert(text[text.len() - 1] != sep);
        assert(head.push(text.last()) == text);
        assert(seq![head].drop_last().push(text) =~= seq![text]);
    }
}

/// The state of an image line that holds one link attempt.
pub open spec fn figure_line(page: PageState, top: LinkState, result: Seq<char>) -> LineState {
    LineState {
        command: CommandTypes::Image,
        modifiers: Seq::empty(),
        links: seq![top],
        escaped: false,
        result,
        page,
    }
}

/// Whether `text` can be the external target of an image that is shown in full width: it
/// opens no link, escapes nothing, and holds neither `]` nor `?`.
pub open spec fn is_external_path(text: Seq<char>) -> bool {
    forall|i: int|
        0 <= i < text.len() ==> (#[trigger] text[i]) != '[' && text[i] != ']' && text[i] != '\\'
            && text[i] != '?'
}

proof fn lemma_figure_caption(cap: Seq<char>, page: PageState, root: Root, refs: Tables, public: bool)
    requires
        is_plain(cap),
    ensures
        line_fold(line_start(page), seq!['!', '['] + cap + seq![']', '['], root, refs, public) == (
            figure_line(page, attempt(cap, Seq::empty(), '[', Progress::Target), Seq::empty()),
            LineOutcome::Open,
        ),
{
    let s0 = line_start(page);
    let idle = figure_line(page, idle_link(), Seq::empty());
    let opened = attempt(Seq::empty(), Seq::empty(), '.', Progress::Display);
    let shown = attempt(cap, Seq::empty(), '.', Progress::Display);
    let closed = attempt(cap, Seq::empty(), '.', Progress::Opener);
    let aimed = attempt(cap, Seq::empty(), '[', Progress::Target);
    lemma_line_fold_one(s0, '!', root, refs, public);
    assert(line_step(s0, '!', root, refs, public) == (idle, LineOutcome::Open));
    assert(line_step(idle, '[', root, refs, public) == (
        figure_line(page, opened, Seq::empty()),
        LineOutcome::Open,
    )) by {
        assert(link_step(idle_link(), '[') == (
            opened,
            Ok::<LinkSignal, Seq<char>>(LinkSignal::Pushed),
        ));
        assert(idle.links.drop_last().push(opened) == seq![opened]);
    }
    lemma_line_fold_one(idle, '[', root, refs, public);
    lemma_line_fold_concat(s0, seq!['!'], seq!['['], root, refs, public);
    assert(seq!['!'] + seq!['['] == seq!['!', '[']);
    let s1 = figure_line(page, opened, Seq::empty());
    lemma_display_run(s1, cap, root, refs, public);
    assert(opened.display + cap == cap);
    assert(s1.links.drop_last().push(shown) == seq![shown]);
    lemma_line_fold_concat(s0, seq!['!', '['], cap, root, refs, public);
    let s2 = figure_line(page, shown, Seq::empty());
    let s3 = figure_line(page, closed, Seq::empty());
    assert(line_step(s2, ']', root, refs, public) == (s3, LineOutcome::Open)) by {
        assert(link_step(shown, ']') == (closed, Ok::<LinkSignal, Seq<char>>(LinkSignal::Pushed)));
        assert(s2.links.drop_last().push(closed) == seq![closed]);
    }
    assert(line_step(s3, '[', root, refs, public) == (
        figure_line(page, aimed, Seq::empty()),
        LineOutcome::Open,
    )) by {
        assert(link_step(closed, '[') == (closed, Ok::<LinkSignal, Seq<char>>(LinkSignal::Child)));
        assert(external_opened(closed) == aimed);
        assert(s3.links.drop_last().push(aimed) == seq![aimed]);
    }
    lemma_line_fold_one(s2, ']', root, refs, public);
    lemma_line_fold_one(s3, '[', root, refs, public);
    lemma_line_fold_concat(s2, seq![']'], seq!['['], root, refs, public);
    assert(seq![']'] + seq!['['] == seq![']', '[']);
    lemma_line_fold_concat(s0, seq!['!', '['] + cap, seq![']', '['], root, refs, public);
}

/// On the line of an image, a caption between `[` and `]` with a target between `[` and `]`
/// behind it gives an external image: the figure leads to the target as it is written, in
/// full width, and no copy is registered.
pub proof fn law_external_image(
    cap: Seq<char>,
    path: Seq<char>,
    page: PageState,
    root: Root,
    refs: Tables,
    public: bool,
)
    requires
        is_plain(cap),
        is_external_path(path),
        page.figures < u32::MAX,
    ensures
        line_parsed(
            seq!['!', '['] + cap + seq![']', '['] + path + seq![']'],
            page,
            root,
            refs,
            public,
        ) == (
            PageState { list: None, figures: page.figures + 1, ..page },
            Ok::<Seq<char>, Seq<char>>(
                list_end(page.list) + figure_markup(path, 100, page.figures + 1, cap),
            ),
        ),
{
    reveal_strlit("");
    let s0 = line_start(page);
    let front = seq!['!', '['] + cap + seq![']', '['];
    let line = front + path + seq![']'];
    let aimed = attempt(cap, Seq::empty(), '[', Progress::Target);
    let full = attempt(cap, path, '[', Progress::Target);
    lemma_figure_caption(cap, page, root, refs, public);
    let s4 = figure_line(page, aimed, Seq::empty());
    assert(is_target(path, '[')) by {
        assert forall|i: int| 0 <= i < path.len() implies is_target_char(#[trigger] path[i], '[') by {}
    }
    lemma_target_run(s4, path, root, refs, public);
    assert(aimed.target + path == path);
    assert(s4.links.drop_last().push(full) == seq![full]);
    lemma_line_fold_concat(s0, front, path, root, refs, public);
    let s5 = figure_line(page, full, Seq::empty());
    let markup = figure_markup(path, 100, page.figures + 1, cap);
    let counted = PageState { figures: page.figures + 1, ..page };
    lemma_split_whole(path, '?');
    assert(image_args(path) == Ok::<(Seq<char>, int), Seq<char>>((path, 100)));
    assert(image_made(full, page, root, public) == Ok::<(PageState, Seq<char>), Seq<char>>(
        (counted, markup),
    ));
    let s6 = figure_line(counted, idle_link(), markup);
    assert(line_step(s5, ']', root, refs, public) == (s6, LineOutcome::Open)) by {
        assert(link_step(full, ']') == (full, Ok::<LinkSignal, Seq<char>>(LinkSignal::Done)));
        assert(cleared(full) == idle_link());
        assert(s5.result + markup == markup);
    }
    lemma_line_fold_one(s5, ']', root, refs, public);
    lemma_line_fold_concat(s0, front + path, seq![']'], root, refs, public);
    lemma_nothing_open(seq![idle_link()]);
    assert(markup + Seq::<char>::empty() == markup);
    assert(line.len() > 0);
    assert(line_finish(s6).1 =~= list_end(page.list) + markup);
}

} // verus!
