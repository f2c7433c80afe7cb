//! The project root: the site's settings, and how local paths become paths on disk and links.

use crate::text::{chars_of, file_name, file_name_of, parent_dir, parent_of};
use vstd::prelude::*;
use vstd::string::*;

verus! {

broadcast use vstd::string::group_string_axioms;

/// Whether `c` is written as `%` and two hex digits inside a link: the ASCII punctuation
/// but `#`, `/` and the characters `0` to `9`, and the space.
pub open spec fn needs_escape(c: char) -> bool {
    let n = c as int;
    (32 <= n < 47 && n != 35) || (58 <= n < 65) || (91 <= n < 97) || (123 <= n < 127)
}

/// The lower-case hex digit of `d`.
pub open spec fn hex_digit(d: int) -> char {
    if d < 10 {
        (('0' as int) + d) as char
    } else {
        (('a' as int) + d - 10) as char
    }
}

/// One character as it stands inside a link.
pub open spec fn escape_char(c: char) -> Seq<char> {
    if needs_escape(c) {
        seq!['%', hex_digit((c as int) / 16), hex_digit((c as int) % 16)]
    } else {
        seq![c]
    }
}

/// A local path as it stands inside a link: each character escaped by itself.
pub open spec fn escape(s: Seq<char>) -> Seq<char>
    decreases s.len(),
{
    if s.len() == 0 {
        Seq::empty()
    } else {
        escape(s.drop_last()) + escape_char(s.last())
    }
}

fn hex(d: u32) -> (c: char)
    requires
        d < 16,
    ensures
        c == hex_digit(d as int),
{
    if d < 10 {
        (48u8 + d as u8) as char
    } else {
        (87u8 + d as u8) as char
    }
}

/// Appends `escape(local)` to `out`.
pub fn push_escaped(out: &mut String, local: &str)
    ensures
        final(out)@ == old(out)@ + escape(local@),
{
    let chars = chars_of(local);
    let mut i: usize = 0;
    assert(chars@.take(0) == Seq::<char>::empty());
    while i < chars.len()
        invariant
            i <= chars.len(),
            chars@ == local@,
            out@ == old(out)@ + escape(chars@.take(i as int)),
        decreases chars.len() - i,
    {
        let c = chars[i];
        proof {
            assert(chars@.take(i + 1).drop_last() == chars@.take(i as int));
            assert(chars@.take(i + 1).last() == c);
        }
        let ghost before = out@;
        if (' ' <= c && c < '/' && c != '#') || (':' <= c && c < 'A') || ('[' <= c && c < 'a') || ('{'
            <= c && c < '\u{7f}') {
            let n = c as u32;
            assert(needs_escape(c));
            out.push('%');
            out.push(hex(n / 16));
            out.push(hex(n % 16));
            assert(out@ == before.push('%').push(hex_digit(n as int / 16)).push(hex_digit(n as int % 16)));
            assert(out@ =~= before + escape_char(c));
        } else {
            out.push(c);
            assert(out@ == before + escape_char(c));
        }
        i += 1;
    }
    assert(chars@.take(chars@.len() as int) == chars@);
}

/// The settings of a site, and the directory it lives in.
#[derive(Debug)]
pub struct Root {
    /// The directory on disk that holds the site.
    pub root_dir: String,
    pub wikid_version_major: String,
    pub wikid_version_minor: String,
    pub name: String,
    pub public_url: String,
    pub bg_image: Option<String>,
    pub fonts: Option<Vec<String>>,
    pub main_color: String,
    pub dark_mode: bool,
    pub font_size: u32,
}

impl Root {
    /// The link to `local`: under the public URL for a public build, else a `file://` link into
    /// the site's directory.
    pub open spec fn link(&self, local: Seq<char>, public: bool) -> Seq<char> {
        if public {
            self.public_url@ + "/"@ + escape(local)
        } else {
            "file://"@ + self.root_dir@ + "/"@ + escape(local)
        }
    }

    /// The path on disk of `local`.
    pub open spec fn path(&self, local: Seq<char>) -> Seq<char> {
        self.root_dir@ + "/"@ + local
    }

    /// A site named `name` in `root_dir`, with the default settings.
    pub fn new(name: String, root_dir: String, version_major: String, version_minor: String) -> (res:
        Root)
        ensures
            res.name == name,
            res.root_dir == root_dir,
            res.wikid_version_major == version_major,
            res.wikid_version_minor == version_minor,
            res.public_url@ == Seq::<char>::empty(),
            res.bg_image is None,
            res.fonts is None,
            res.dark_mode,
            res.font_size == 16,
            res.main_color@ == "#cccccc"@,
    {
        Root {
            root_dir,
            wikid_version_major: version_major,
            wikid_version_minor: version_minor,
            name,
            public_url: String::new(),
            bg_image: None,
            fonts: None,
            dark_mode: true,
            font_size: 16,
            main_color: "#cccccc".to_owned(),
        }
    }

    /// The link to a file inside the site.
    pub fn get_link_from_local(&self, local_dir: &str, public: bool) -> (res: String)
        ensures
            res@ == self.link(local_dir@, public),
    {
        let mut out = String::new();
        if public {
            out.append(self.public_url.as_str());
        } else {
            out.append("file://");
            out.append(self.root_dir.as_str());
        }
        out.append("/");
        push_escaped(&mut out, local_dir);
        out
    }

    /// The path on disk of a file inside the site.
    pub fn get_path_from_local(&self, local_dir: &str) -> (res: String)
        ensures
            res@ == self.path(local_dir@),
    {
        let mut out = String::new();
        out.append(self.root_dir.as_str());
        out.append("/");
        out.append(local_dir);
        out
    }

    /// The name of the section that the file at `path` stands in: the last directory of the path.
    pub fn get_section(&self, path: &str) -> (res: String)
        ensures
            res@ == file_name(parent_dir(path@)),
    {
        let chars = chars_of(path);
        let parent = parent_of(&chars);
        let parent_chars = chars_of(parent.as_str());
        file_name_of(&parent_chars)
    }
}

/// What `wikid init` is told.
#[derive(Debug)]
pub struct InitSettings {
    /// Name of the wiki
    pub name: String,
    /// Set to turn off git init
    pub nogit: bool,
    /// Verbosity
    pub verbose: bool,
}

} // verus!
