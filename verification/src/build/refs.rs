//! The reference map: what each label of the site stands for.
//!
//! The map is filled by one scan over every source file, before any page is rendered.

use crate::build::compile::{Command, CommandTypes, command_step, command_takes};
use crate::root::Root;
use crate::text::{
    chars_of, concat2, decimal, ends_with, file_name, file_name_of, has_suffix, lemma_texts_push,
    push_decimal, push_range, string_of_range, texts,
};
use vstd::prelude::*;
use vstd::string::*;

verus! {

broadcast use vstd::string::group_string_axioms;

/// A page or a project: its name and its link.
#[derive(Debug)]
pub struct PostRef {
    pub name: String,
    pub link: String,
}

/// A section: its title, its number at each of the five header levels, and its link.
#[derive(Debug)]
pub struct SectionRef {
    pub title: String,
    pub number: [u32; 5],
    pub link: String,
}

/// An equation or a figure: its number in its file and its link.
#[derive(Debug)]
pub struct NumberRef {
    pub number: u32,
    pub link: String,
}

/// A section, as plain values.
pub struct SectionEntry {
    pub title: Seq<char>,
    pub number: Seq<u32>,
    pub link: Seq<char>,
}

/// The lookup tables of a reference map, each keyed by label.
pub struct Tables {
    /// Pages, by path: name and link.
    pub posts: Map<Seq<char>, (Seq<char>, Seq<char>)>,
    /// Sections.
    pub sections: Map<Seq<char>, SectionEntry>,
    /// Equations: number and link.
    pub equations: Map<Seq<char>, (nat, Seq<char>)>,
    /// Figures: number and link.
    pub figures: Map<Seq<char>, (nat, Seq<char>)>,
    /// Projects: name and link.
    pub projects: Map<Seq<char>, (Seq<char>, Seq<char>)>,
    /// Glossary terms: link.
    pub vocabulary: Map<Seq<char>, Seq<char>>,
    /// The labels that were dropped because nothing they could name followed them.
    pub dropped: Seq<Seq<char>>,
}

/// Tables without labels.
pub open spec fn no_tables() -> Tables {
    Tables {
        posts: Map::empty(),
        sections: Map::empty(),
        equations: Map::empty(),
        figures: Map::empty(),
        projects: Map::empty(),
        vocabulary: Map::empty(),
        dropped: Seq::empty(),
    }
}

/// The title and the link that `label` stands for. Pages come first, then sections,
/// equations, projects, glossary terms and figures.
pub open spec fn resolve(tables: Tables, label: Seq<char>) -> Option<(Seq<char>, Seq<char>)> {
    if tables.posts.dom().contains(label) {
        Some(tables.posts[label])
    } else if tables.sections.dom().contains(label) {
        Some((tables.sections[label].title, tables.sections[label].link))
    } else if tables.equations.dom().contains(label) {
        Some(("Eq. "@ + decimal(tables.equations[label].0), tables.equations[label].1))
    } else if tables.projects.dom().contains(label) {
        Some(tables.projects[label])
    } else if tables.vocabulary.dom().contains(label) {
        Some((label, tables.vocabulary[label]))
    } else if tables.figures.dom().contains(label) {
        Some(("Fig. "@ + decimal(tables.figures[label].0), tables.figures[label].1))
    } else {
        None
    }
}

/// The value that `entries` holds for `label`: that of the last entry with this label.
pub open spec fn lookup<T>(entries: Seq<(String, T)>, label: Seq<char>) -> Option<T>
    decreases entries.len(),
{
    if entries.len() == 0 {
        None
    } else if entries.last().0@ == label {
        Some(entries.last().1)
    } else {
        lookup(entries.drop_last(), label)
    }
}

/// The table that `entries` stand for, each value seen through `f`.
pub open spec fn table<T, V>(entries: Seq<(String, T)>, f: spec_fn(T) -> V) -> Map<Seq<char>, V> {
    Map::new(|l: Seq<char>| lookup(entries, l) is Some, |l: Seq<char>| f(lookup(entries, l)->0))
}

/// A new entry takes the place of an older one with its label.
pub proof fn lemma_table_push<T, V>(
    entries: Seq<(String, T)>,
    f: spec_fn(T) -> V,
    label: String,
    value: T,
)
    ensures
        table(entries.push((label, value)), f) == table(entries, f).insert(label@, f(value)),
{
    let after = entries.push((label, value));
    assert(after.drop_last() == entries);
    assert forall|l: Seq<char>| #[trigger]
        lookup(after, l) == (if l == label@ {
            Some(value)
        } else {
            lookup(entries, l)
        }) by {}
    assert(table(after, f) =~= table(entries, f).insert(label@, f(value)));
}

/// No entries make the empty table.
pub proof fn lemma_table_empty<T, V>(f: spec_fn(T) -> V)
    ensures
        table(Seq::<(String, T)>::empty(), f) == Map::<Seq<char>, V>::empty(),
{
    assert(table(Seq::<(String, T)>::empty(), f) =~= Map::<Seq<char>, V>::empty());
}

/// Finds `lookup(entries, label)`.
pub fn find<'a, T>(entries: &'a Vec<(String, T)>, label: &str) -> (res: Option<&'a T>)
    ensures
        match res {
            Some(v) => lookup(entries@, label@) == Some(*v),
            None => lookup(entries@, label@) is None,
        },
{
    let key = label.to_owned();
    let mut i: usize = entries.len();
    assert(entries@.take(entries@.len() as int) == entries@);
    while i > 0
        invariant
            i <= entries.len(),
            key@ == label@,
            lookup(entries@, label@) == lookup(entries@.take(i as int), label@),
        decreases i,
    {
        if entries[i - 1].0 == key {
            return Some(&entries[i - 1].1);
        }
        assert(entries@.take(i as int).drop_last() == entries@.take(i - 1));
        i -= 1;
    }
    None
}

pub open spec fn post_entry(p: PostRef) -> (Seq<char>, Seq<char>) {
    (p.name@, p.link@)
}

pub open spec fn section_entry(s: SectionRef) -> SectionEntry {
    SectionEntry { title: s.title@, number: s.number@, link: s.link@ }
}

pub open spec fn number_entry(n: NumberRef) -> (nat, Seq<char>) {
    (n.number as nat, n.link@)
}

pub open spec fn term_entry(t: String) -> Seq<char> {
    t@
}

/// The labels of a site, each with what it names.
#[derive(Debug)]
pub struct RefMap {
    posts: Vec<(String, PostRef)>,
    secs: Vec<(String, SectionRef)>,
    eqs: Vec<(String, NumberRef)>,
    figures: Vec<(String, NumberRef)>,
    projects: Vec<(String, PostRef)>,
    vocab: Vec<(String, String)>,
    dropped: Vec<String>,
    public: bool,
}

impl View for RefMap {
    type V = Tables;

    closed spec fn view(&self) -> Tables {
        Tables {
            posts: table(self.posts@, |p: PostRef| post_entry(p)),
            sections: table(self.secs@, |s: SectionRef| section_entry(s)),
            equations: table(self.eqs@, |n: NumberRef| number_entry(n)),
            figures: table(self.figures@, |n: NumberRef| number_entry(n)),
            projects: table(self.projects@, |p: PostRef| post_entry(p)),
            vocabulary: table(self.vocab@, |t: String| term_entry(t)),
            dropped: texts(self.dropped@),
        }
    }
}

/// The five section counters after a header of level `level`: that level counts one more, the
/// deeper levels start again at zero.
pub open spec fn bumped(numbers: Seq<u32>, level: int) -> Seq<u32> {
    Seq::new(
        5,
        |j: int|
            if j < level - 1 {
                numbers[j]
            } else if j == level - 1 {
                (numbers[j] + 1) as u32
            } else {
                0u32
            },
    )
}

/// The five counters of a section as they stand in its anchor: each followed by `-`.
pub open spec fn number_suffix(numbers: Seq<u32>) -> Seq<char> {
    decimal(numbers[0] as nat) + "-"@ + decimal(numbers[1] as nat) + "-"@ + decimal(
        numbers[2] as nat,
    ) + "-"@ + decimal(numbers[3] as nat) + "-"@ + decimal(numbers[4] as nat) + "-"@
}

/// `s` without the spaces at its start.
pub open spec fn trim_start(s: Seq<char>) -> Seq<char>
    decreases s.len(),
{
    if s.len() > 0 && s[0] == ' ' {
        trim_start(s.subrange(1, s.len() as int))
    } else {
        s
    }
}

/// `s` without the spaces at its end.
pub open spec fn trim_end(s: Seq<char>) -> Seq<char>
    decreases s.len(),
{
    if s.len() > 0 && s.last() == ' ' {
        trim_end(s.drop_last())
    } else {
        s
    }
}

/// `s` without the spaces around it.
pub open spec fn trimmed(s: Seq<char>) -> Seq<char> {
    trim_end(trim_start(s))
}

/// Computes `trimmed(v[from..])`.
pub fn trim_from(v: &Vec<char>, from: usize) -> (res: String)
    requires
        from <= v.len(),
    ensures
        res@ == trimmed(v@.subrange(from as int, v.len() as int)),
{
    let n = v.len();
    let mut a: usize = from;
    while a < n && v[a] == ' '
        invariant
            from <= a <= n,
            n == v.len(),
            trim_start(v@.subrange(from as int, n as int)) == trim_start(
                v@.subrange(a as int, n as int),
            ),
        decreases n - a,
    {
        assert(v@.subrange(a as int, n as int).subrange(1, n - a) == v@.subrange(
            a + 1,
            n as int,
        ));
        a += 1;
    }
    assert(trim_start(v@.subrange(a as int, n as int)) == v@.subrange(a as int, n as int));
    let mut b: usize = n;
    while b > a && v[b - 1] == ' '
        invariant
            a <= b <= n,
            n == v.len(),
            trim_end(v@.subrange(a as int, n as int)) == trim_end(v@.subrange(a as int, b as int)),
        decreases b,
    {
        assert(v@.subrange(a as int, b as int).drop_last() == v@.subrange(a as int, b - 1));
        b -= 1;
    }
    assert(trim_end(v@.subrange(a as int, b as int)) == v@.subrange(a as int, b as int));
    string_of_range(v, a, b)
}

/// The block command of a line, and the line's argument: the characters that the command did
/// not take, without the spaces.
pub open spec fn command_fold(text: Seq<char>) -> (CommandTypes, Seq<char>)
    decreases text.len(),
{
    if text.len() == 0 {
        (CommandTypes::Evaluating, Seq::empty())
    } else {
        let (t, arg) = command_fold(text.drop_last());
        let c = text.last();
        (
            command_step(t, c),
            if command_takes(t, c) || c == ' ' {
                arg
            } else {
                arg.push(c)
            },
        )
    }
}

/// What the scan of one file holds between two lines.
pub struct Scan {
    pub tables: Tables,
    /// The label that waits for what it names; empty where none waits.
    pub label: Seq<char>,
    /// The section counters of the five header levels.
    pub sections: Seq<u32>,
    /// The number of equations so far.
    pub equations: nat,
    /// The number of figures so far.
    pub figures: nat,
}

/// The scan after the line's command was counted: a header moves the section counters, a
/// display-math line is one more equation, an image line one more figure. `None` where a
/// counter is full.
pub open spec fn counted(s: Scan, t: CommandTypes) -> Option<Scan> {
    match t {
        CommandTypes::Header(i) => if 1 <= i <= 5 {
            if s.sections[i - 1] == u32::MAX {
                None
            } else {
                Some(Scan { sections: bumped(s.sections, i as int), ..s })
            }
        } else {
            Some(s)
        },
        CommandTypes::MultiLatex => if s.equations >= u32::MAX {
            None
        } else {
            Some(Scan { equations: s.equations + 1, ..s })
        },
        CommandTypes::Image => if s.figures >= u32::MAX {
            None
        } else {
            Some(Scan { figures: s.figures + 1, ..s })
        },
        _ => Some(s),
    }
}

/// The scan after the waiting label was given to the line: it names the line's section,
/// equation or figure, or is dropped where the line is none of these.
pub open spec fn attached(
    s: Scan,
    t: CommandTypes,
    arg: Seq<char>,
    page: Seq<char>,
    root: Root,
    public: bool,
) -> Scan {
    if s.label.len() == 0 {
        s
    } else {
        let tables = match t {
            CommandTypes::Header(_) => Tables {
                sections: s.tables.sections.insert(
                    s.label,
                    SectionEntry {
                        title: arg,
                        number: s.sections,
                        link: root.link(page + "-sec-"@ + number_suffix(s.sections), public),
                    },
                ),
                ..s.tables
            },
            CommandTypes::MultiLatex => Tables {
                equations: s.tables.equations.insert(
                    s.label,
                    (s.equations, root.link(page + "#eq"@ + decimal(s.equations), public)),
                ),
                ..s.tables
            },
            CommandTypes::Image => Tables {
                figures: s.tables.figures.insert(
                    s.label,
                    (s.figures, root.link(page + "#fig"@ + decimal(s.figures), public)),
                ),
                ..s.tables
            },
            _ => Tables { dropped: s.tables.dropped.push(s.label), ..s.tables },
        };
        Scan { tables, label: Seq::empty(), ..s }
    }
}

/// The label that a line gives: the text behind `~`, trimmed. `None` where the line gives none.
pub open spec fn label_of(line: Seq<char>) -> Option<Seq<char>> {
    if line.len() > 0 && line[0] == '~' {
        Some(trimmed(line.subrange(1, line.len() as int)))
    } else {
        None
    }
}

/// The text in front of a message about line `n` of the file at `path`.
pub open spec fn at_line(path: Seq<char>, n: nat) -> Seq<char> {
    "File "@ + path + " line "@ + decimal(n) + ": "@
}

/// The scan after line number `n`, and the error if the line has one.
pub open spec fn scan_step(
    s: Scan,
    line: Seq<char>,
    n: nat,
    path: Seq<char>,
    page: Seq<char>,
    root: Root,
    public: bool,
) -> (Scan, Option<Seq<char>>) {
    let (t, arg) = command_fold(line);
    match counted(s, t) {
        None => (s, Some(at_line(path, n) + "Too many numbered items"@)),
        Some(s1) => {
            let s2 = attached(s1, t, arg, page, root, public);
            match label_of(line) {
                None => (s2, None),
                Some(label) => if label.len() == 0 {
                    (s2, Some(at_line(path, n) + "Label line was empty"@))
                } else {
                    (Scan { label, ..s2 }, None)
                },
            }
        },
    }
}

/// The scan after `lines`, read from `s` up to the first line with an error.
pub open spec fn scan_fold(
    s: Scan,
    lines: Seq<Seq<char>>,
    path: Seq<char>,
    page: Seq<char>,
    root: Root,
    public: bool,
) -> (Scan, Option<Seq<char>>)
    decreases lines.len(),
{
    if lines.len() == 0 {
        (s, None)
    } else {
        let (before, error) = scan_fold(s, lines.drop_last(), path, page, root, public);
        if error is None {
            scan_step(before, lines.last(), lines.len(), path, page, root, public)
        } else {
            (before, error)
        }
    }
}

/// After a line with an error, the rest of the file changes nothing.
pub proof fn lemma_scan_fold_stops(
    s: Scan,
    lines: Seq<Seq<char>>,
    k: int,
    path: Seq<char>,
    page: Seq<char>,
    root: Root,
    public: bool,
)
    requires
        0 <= k <= lines.len(),
        scan_fold(s, lines.take(k), path, page, root, public).1 is Some,
    ensures
        scan_fold(s, lines, path, page, root, public) == scan_fold(
            s,
            lines.take(k),
            path,
            page,
            root,
            public,
        ),
    decreases lines.len() - k,
{
    if k < lines.len() {
        assert(lines.take(k + 1).drop_last() == lines.take(k));
        lemma_scan_fold_stops(s, lines, k + 1, path, page, root, public);
    } else {
        assert(lines.take(k) == lines);
    }
}

/// The path of a source file without `text/` in front and `.md` behind: the label of its page.
pub open spec fn stem(path: Seq<char>) -> Seq<char> {
    path.subrange(5, path.len() - 3)
}

/// The local path of the page of the file with stem `stem`; a table of contents, whose stem
/// ends in `_toc`, becomes its directory's `index`.
pub open spec fn page_of(stem: Seq<char>) -> Seq<char> {
    let bare = "html/"@ + stem;
    (if has_suffix(bare, "_toc"@) {
        bare.subrange(0, bare.len() - 4) + "index"@
    } else {
        bare
    }) + ".html"@
}

/// The tables after the file at `path` with the lines `lines` was scanned, and the error if
/// one was found.
///
/// The file is registered as a page under its stem. A path too short to have a stem is an
/// error, and leaves the tables as they are.
pub open spec fn file_scanned(
    tables: Tables,
    path: Seq<char>,
    lines: Seq<Seq<char>>,
    root: Root,
    public: bool,
) -> (Tables, Option<Seq<char>>) {
    if path.len() < 8 {
        (tables, Some("Compile tree was corrupted in refs: path "@ + root.path(path)))
    } else {
        let page = page_of(stem(path));
        let start = Scan {
            tables: Tables {
                posts: tables.posts.insert(
                    stem(path),
                    (file_name(root.path(path)), root.link(page, public)),
                ),
                ..tables
            },
            label: Seq::empty(),
            sections: seq![0u32, 0u32, 0u32, 0u32, 0u32],
            equations: 0,
            figures: 0,
        };
        let (s, error) = scan_fold(start, lines, path, page, root, public);
        (s.tables, error)
    }
}

fn push_line_prefix(out: &mut String, path: &str, n: usize)
    ensures
        final(out)@ == old(out)@ + at_line(path@, n as nat),
{
    let mut head = String::new();
    head.append("File ");
    head.append(path);
    head.append(" line ");
    push_decimal(&mut head, n as u64);
    head.append(": ");
    out.append(head.as_str());
}

impl RefMap {
    /// Whether links are made for a public build.
    pub closed spec fn is_public(&self) -> bool {
        self.public
    }

    /// A map without labels.
    pub fn new(public: bool) -> (res: RefMap)
        ensures
            res.is_public() == public,
            res@ == no_tables(),
    {
        let res = RefMap {
            posts: Vec::new(),
            secs: Vec::new(),
            eqs: Vec::new(),
            figures: Vec::new(),
            projects: Vec::new(),
            vocab: Vec::new(),
            dropped: Vec::new(),
            public,
        };
        proof {
            lemma_table_empty(|p: PostRef| post_entry(p));
            lemma_table_empty(|s: SectionRef| section_entry(s));
            lemma_table_empty(|n: NumberRef| number_entry(n));
            lemma_table_empty(|t: String| term_entry(t));
            assert(res.posts@ == Seq::<(String, PostRef)>::empty());
            assert(res.secs@ == Seq::<(String, SectionRef)>::empty());
            assert(res.eqs@ == Seq::<(String, NumberRef)>::empty());
            assert(res.figures@ == Seq::<(String, NumberRef)>::empty());
            assert(res.projects@ == Seq::<(String, PostRef)>::empty());
            assert(res.vocab@ == Seq::<(String, String)>::empty());
            assert(texts(res.dropped@) =~= Seq::<Seq<char>>::empty());
        }
        res
    }

    /// The title and the link that `label` stands for.
    pub fn get_link(&self, label: &str) -> (res: Option<(String, String)>)
        ensures
            match res {
                Some((title, link)) => resolve(self@, label@) == Some((title@, link@)),
                None => resolve(self@, label@) is None,
            },
    {
        if let Some(p) = find(&self.posts, label) {
            return Some((p.name.clone(), p.link.clone()));
        }
        if let Some(s) = find(&self.secs, label) {
            return Some((s.title.clone(), s.link.clone()));
        }
        if let Some(e) = find(&self.eqs, label) {
            let mut title = "Eq. ".to_owned();
            push_decimal(&mut title, e.number as u64);
            return Some((title, e.link.clone()));
        }
        if let Some(p) = find(&self.projects, label) {
            return Some((p.name.clone(), p.link.clone()));
        }
        if let Some(t) = find(&self.vocab, label) {
            return Some((label.to_owned(), t.clone()));
        }
        if let Some(f) = find(&self.figures, label) {
            let mut title = "Fig. ".to_owned();
            push_decimal(&mut title, f.number as u64);
            return Some((title, f.link.clone()));
        }
        None
    }

    /// Whether the map was made for a public build.
    pub fn public(&self) -> (res: bool)
        ensures
            res == self.is_public(),
    {
        self.public
    }

    /// The labels that were dropped, in the order in which they were met.
    pub fn dropped(&self) -> (res: &Vec<String>)
        ensures
            texts(res@) == self@.dropped,
    {
        &self.dropped
    }

    fn add_post(&mut self, label: String, name: String, link: String)
        ensures
            final(self).is_public() == old(self).is_public(),
            final(self)@ == (Tables {
                posts: old(self)@.posts.insert(label@, (name@, link@)),
                ..old(self)@
            }),
    {
        proof {
            lemma_table_push(
                self.posts@,
                |p: PostRef| post_entry(p),
                label,
                PostRef { name, link },
            );
        }
        self.posts.push((label, PostRef { name, link }));
    }

    fn add_section(&mut self, label: String, title: String, number: [u32; 5], link: String)
        ensures
            final(self).is_public() == old(self).is_public(),
            final(self)@ == (Tables {
                sections: old(self)@.sections.insert(
                    label@,
                    SectionEntry { title: title@, number: number@, link: link@ },
                ),
                ..old(self)@
            }),
    {
        proof {
            lemma_table_push(
                self.secs@,
                |s: SectionRef| section_entry(s),
                label,
                SectionRef { title, number, link },
            );
        }
        self.secs.push((label, SectionRef { title, number, link }));
    }

    fn add_equation(&mut self, label: String, number: u32, link: String)
        ensures
            final(self).is_public() == old(self).is_public(),
            final(self)@ == (Tables {
                equations: old(self)@.equations.insert(label@, (number as nat, link@)),
                ..old(self)@
            }),
    {
        proof {
            lemma_table_push(
                self.eqs@,
                |n: NumberRef| number_entry(n),
                label,
                NumberRef { number, link },
            );
        }
        self.eqs.push((label, NumberRef { number, link }));
    }

    fn add_figure(&mut self, label: String, number: u32, link: String)
        ensures
            final(self).is_public() == old(self).is_public(),
            final(self)@ == (Tables {
                figures: old(self)@.figures.insert(label@, (number as nat, link@)),
                ..old(self)@
            }),
    {
        proof {
            lemma_table_push(
                self.figures@,
                |n: NumberRef| number_entry(n),
                label,
                NumberRef { number, link },
            );
        }
        self.figures.push((label, NumberRef { number, link }));
    }

    fn drop_label(&mut self, label: String)
        ensures
            final(self).is_public() == old(self).is_public(),
            final(self)@ == (Tables { dropped: old(self)@.dropped.push(label@), ..old(self)@ }),
    {
        proof {
            lemma_texts_push(self.dropped@, label);
        }
        self.dropped.push(label);
    }

    /// Scans one source file: registers its page, and gives each label to the section, equation
    /// or figure that follows it.
    ///
    /// `local_path` is the file's path from the site's directory, `lines` are its lines. After an
    /// error the map holds what was registered up to the line of the error.
    pub fn add_file(&mut self, root: &Root, local_path: &str, lines: &Vec<String>) -> (res: Result<
        (),
        String,
    >)
        ensures
            final(self).is_public() == old(self).is_public(),
            final(self)@ == file_scanned(
                old(self)@,
                local_path@,
                texts(lines@),
                *root,
                old(self).is_public(),
            ).0,
            match res {
                Ok(_) => file_scanned(
                    old(self)@,
                    local_path@,
                    texts(lines@),
                    *root,
                    old(self).is_public(),
                ).1 is None,
                Err(e) => file_scanned(
                    old(self)@,
                    local_path@,
                    texts(lines@),
                    *root,
                    old(self).is_public(),
                ).1 == Some(e@),
            },
    {
        let public = self.public;
        let path = chars_of(local_path);
        let global_path = root.get_path_from_local(local_path);
        if path.len() < 8 {
            return Err(
                concat2("Compile tree was corrupted in refs: path ", global_path.as_str()),
            );
        }
        let global_chars = chars_of(global_path.as_str());
        let name = file_name_of(&global_chars);
        let label = string_of_range(&path, 5, path.len() - 3);
        let mut bare = String::new();
        bare.append("html/");
        bare.append(label.as_str());
        let bare_chars = chars_of(bare.as_str());
        let mut page = String::new();
        if ends_with(&bare_chars, "_toc") {
            proof {
                reveal_strlit("_toc");
            }
            push_range(&mut page, &bare_chars, 0, bare_chars.len() - 4);
            page.append("index");
        } else {
            page.append(bare.as_str());
        }
        page.append(".html");
        assert(page@ == page_of(stem(local_path@)));
        let link = root.get_link_from_local(page.as_str(), public);
        self.add_post(label, name, link);

        let mut scanner = Scanner {
            pending: String::new(),
            eq_num: 0,
            fig_num: 0,
            sec_num: [0, 0, 0, 0, 0],
        };
        let ghost start = scanner.scan(self@);
        let ghost all = texts(lines@);
        assert(scanner.sec_num@ =~= seq![0u32, 0u32, 0u32, 0u32, 0u32]);
        assert(all.take(0) == Seq::<Seq<char>>::empty());
        let mut k: usize = 0;
        while k < lines.len()
            invariant
                k <= lines.len(),
                all == texts(lines@),
                public == self.is_public(),
                self.is_public() == old(self).is_public(),
                local_path@.len() >= 8,
                page@ == page_of(stem(local_path@)),
                start == (Scan {
                    tables: Tables {
                        posts: old(self)@.posts.insert(
                            stem(local_path@),
                            (file_name(root.path(local_path@)), root.link(page@, public)),
                        ),
                        ..old(self)@
                    },
                    label: Seq::empty(),
                    sections: seq![0u32, 0u32, 0u32, 0u32, 0u32],
                    equations: 0,
                    figures: 0,
                }),
                scan_fold(start, all.take(k as int), local_path@, page@, *root, public) == (
                    scanner.scan(self@),
                    None::<Seq<char>>,
                ),
            decreases lines.len() - k,
        {
            let line = chars_of(lines[k].as_str());
            proof {
                assert(all.take(k + 1).drop_last() == all.take(k as int));
                assert(all.take(k + 1).last() == line@);
            }
            match self.scan_one(&mut scanner, root, local_path, page.as_str(), &line, k + 1) {
                Ok(_) => {},
                Err(e) => {
                    proof {
                        lemma_scan_fold_stops(
                            start,
                            all,
                            k + 1,
                            local_path@,
                            page@,
                            *root,
                            public,
                        );
                    }
                    return Err(e);
                },
            }
            k += 1;
        }
        assert(all.take(all.len() as int) == all);
        Ok(())
    }

    /// Scans line number `n`.
    fn scan_one(
        &mut self,
        scanner: &mut Scanner,
        root: &Root,
        local_path: &str,
        page: &str,
        line: &Vec<char>,
        n: usize,
    ) -> (res: Result<(), String>)
        ensures
            final(self).is_public() == old(self).is_public(),
            final(scanner).scan(final(self)@) == scan_step(
                old(scanner).scan(old(self)@),
                line@,
                n as nat,
                local_path@,
                page@,
                *root,
                old(self).is_public(),
            ).0,
            match res {
                Ok(_) => scan_step(
                    old(scanner).scan(old(self)@),
                    line@,
                    n as nat,
                    local_path@,
                    page@,
                    *root,
                    old(self).is_public(),
                ).1 is None,
                Err(e) => scan_step(
                    old(scanner).scan(old(self)@),
                    line@,
                    n as nat,
                    local_path@,
                    page@,
                    *root,
                    old(self).is_public(),
                ).1 == Some(e@),
            },
    {
        let (command, arg) = scan_line(line);
        if !scanner.count(command.c_type, Ghost(self@)) {
            let mut e = String::new();
            push_line_prefix(&mut e, local_path, n);
            e.append("Too many numbered items");
            return Err(e);
        }
        self.attach(scanner, command.c_type, arg, page, root);
        if line.len() > 0 && line[0] == '~' {
            let label = trim_from(line, 1);
            if label.as_str().is_empty() {
                let mut e = String::new();
                push_line_prefix(&mut e, local_path, n);
                e.append("Label line was empty");
                return Err(e);
            }
            scanner.pending = label;
        }
        Ok(())
    }

    /// Gives the waiting label to a line with command `t` and argument `arg`.
    fn attach(&mut self, scanner: &mut Scanner, t: CommandTypes, arg: String, page: &str, root: &Root)
        ensures
            final(self).is_public() == old(self).is_public(),
            final(scanner).scan(final(self)@) == attached(
                old(scanner).scan(old(self)@),
                t,
                arg@,
                page@,
                *root,
                old(self).is_public(),
            ),
    {
        if scanner.pending.as_str().is_empty() {
            return ;
        }
        let public = self.public;
        let mut pending = String::new();
        std::mem::swap(&mut pending, &mut scanner.pending);
        let mut local = String::new();
        local.append(page);
        match t {
            CommandTypes::Header(_) => {
                local.append("-sec-");
                push_decimal(&mut local, scanner.sec_num[0] as u64);
                local.append("-");
                push_decimal(&mut local, scanner.sec_num[1] as u64);
                local.append("-");
                push_decimal(&mut local, scanner.sec_num[2] as u64);
                local.append("-");
                push_decimal(&mut local, scanner.sec_num[3] as u64);
                local.append("-");
                push_decimal(&mut local, scanner.sec_num[4] as u64);
                local.append("-");
                assert(local@ == page@ + "-sec-"@ + number_suffix(scanner.sec_num@));
                let link = root.get_link_from_local(local.as_str(), public);
                self.add_section(pending, arg, scanner.sec_num, link);
            },
            CommandTypes::MultiLatex => {
                local.append("#eq");
                push_decimal(&mut local, scanner.eq_num as u64);
                let link = root.get_link_from_local(local.as_str(), public);
                self.add_equation(pending, scanner.eq_num, link);
            },
            CommandTypes::Image => {
                local.append("#fig");
                push_decimal(&mut local, scanner.fig_num as u64);
                let link = root.get_link_from_local(local.as_str(), public);
                self.add_figure(pending, scanner.fig_num, link);
            },
            _ => {
                self.drop_label(pending);
            },
        }
    }
}

/// The counters and the waiting label of a scan.
struct Scanner {
    pending: String,
    eq_num: u32,
    fig_num: u32,
    sec_num: [u32; 5],
}

impl Scanner {
    spec fn scan(&self, tables: Tables) -> Scan {
        Scan {
            tables,
            label: self.pending@,
            sections: self.sec_num@,
            equations: self.eq_num as nat,
            figures: self.fig_num as nat,
        }
    }

    /// Counts a line with command `t`. Returns false, and counts nothing, where the counter
    /// is full.
    fn count(&mut self, t: CommandTypes, tables: Ghost<Tables>) -> (res: bool)
        requires
            t.wf(),
        ensures
            match counted(old(self).scan(tables@), t) {
                Some(s) => res && final(self).scan(tables@) == s,
                None => !res && final(self).scan(tables@) == old(self).scan(tables@),
            },
    {
        match t {
            CommandTypes::Header(i) => {
                if self.sec_num[(i - 1) as usize] == u32::MAX {
                    return false;
                }
                advance_section(&mut self.sec_num, i);
            },
            CommandTypes::MultiLatex => {
                if self.eq_num == u32::MAX {
                    return false;
                }
                self.eq_num += 1;
            },
            CommandTypes::Image => {
                if self.fig_num == u32::MAX {
                    return false;
                }
                self.fig_num += 1;
            },
            _ => {},
        }
        true
    }
}

/// Moves the section counters on at a header of level `level`: that level counts one more,
/// the deeper levels start again at zero, the levels above stay.
pub fn advance_section(numbers: &mut [u32; 5], level: u8)
    requires
        1 <= level <= 5,
        old(numbers)@[level - 1] < u32::MAX,
    ensures
        final(numbers)@ == bumped(old(numbers)@, level as int),
        final(numbers)@[level - 1] == old(numbers)@[level - 1] + 1,
        forall|j: int| 0 <= j < level - 1 ==> final(numbers)@[j] == old(numbers)@[j],
        forall|j: int| level <= j < 5 ==> final(numbers)@[j] == 0,
{
    let at = (level - 1) as usize;
    let next = numbers[at] + 1;
    numbers[at] = next;
    let mut j: usize = at + 1;
    while j < 5
        invariant
            at < j <= 5,
            at == level - 1,
            numbers@.len() == 5,
            numbers@[at as int] == old(numbers)@[at as int] + 1,
            forall|m: int| 0 <= m < at ==> numbers@[m] == old(numbers)@[m],
            forall|m: int| at < m < j ==> numbers@[m] == 0,
        decreases 5 - j,
    {
        numbers[j] = 0;
        j += 1;
    }
    assert(numbers@ =~= bumped(old(numbers)@, level as int));
}

/// Reads a line for its block command and its argument.
pub fn scan_line(line: &Vec<char>) -> (res: (Command, String))
    ensures
        (res.0.c_type, res.1@) == command_fold(line@),
        res.0.c_type.wf(),
{
    let mut command = Command::new();
    let mut arg = String::new();
    let mut i: usize = 0;
    assert(line@.take(0) == Seq::<char>::empty());
    while i < line.len()
        invariant
            i <= line.len(),
            (command.c_type, arg@) == command_fold(line@.take(i as int)),
            command.c_type.wf(),
        decreases line.len() - i,
    {
        let c = line[i];
        proof {
            assert(line@.take(i + 1).drop_last() == line@.take(i as int));
            assert(line@.take(i + 1).last() == c);
        }
        if !command.parse_command(c) {
            if c != ' ' {
                arg.push(c);
            }
        }
        i += 1;
    }
    assert(line@.take(line@.len() as int) == line@);
    (command, arg)
}

} // verus!
