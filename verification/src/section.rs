//! Sections of a site, and what the commands about them are told.

use crate::constants::{Color, color_parsed};
use vstd::prelude::*;
use vstd::string::*;

verus! {

broadcast use vstd::string::group_string_axioms;

/// What `wikid add` is told.
#[derive(Debug)]
pub struct AddSettings {
    /// Name of the section to add
    pub name: String,
    /// Color of the section
    pub color: String,
}

/// What `wikid rm` is told.
#[derive(Debug)]
pub struct RmSettings {
    /// Name of the section to remove
    pub name: String,
    /// Set to true to force removal
    pub force: bool,
}

/// What `wikid mv` is told.
#[derive(Debug)]
pub struct MvSettings {
    /// Name of the section to move
    pub name: String,
}

/// A section of the site.
#[derive(Debug)]
pub struct Section {
    pub name: String,
    pub color: String,
    pub ignore: bool,
}

/// A section as it is saved in its directory: without its name, which is the directory's.
#[derive(Debug)]
pub struct SaveSection {
    pub color: String,
    pub ignore: bool,
}

/// `s` without the white space at its end, as `str::trim_end` gives it.
pub uninterp spec fn trimmed_end(s: Seq<char>) -> Seq<char>;

/// `str::trim_end` returns the string without its trailing white space.
pub assume_specification[ str::trim_end ](s: &str) -> (res: &str)
    ensures
        res@ == trimmed_end(s@),
;

impl Section {
    /// A section that is not ignored.
    pub fn new(name: String, color: &Color) -> (res: Section)
        ensures
            res.name == name,
            res.color@ == crate::constants::color_text(color@),
            !res.ignore,
    {
        Section { name, color: color.to_string(), ignore: false }
    }

    /// What is saved of the section.
    pub fn save_section(&self) -> (res: SaveSection)
        ensures
            res.color@ == self.color@,
            res.ignore == self.ignore,
    {
        SaveSection { color: self.color.clone(), ignore: self.ignore }
    }

    /// The section named `name` that was saved as `sec`.
    pub fn from_save_section(sec: SaveSection, name: &str) -> (res: Section)
        ensures
            res.name@ == name@,
            res.color@ == sec.color@,
            res.ignore == sec.ignore,
    {
        Section { name: name.to_owned(), color: sec.color.clone(), ignore: sec.ignore }
    }
}

/// The line that lists the section `name` in the table of contents: a list item with a link
/// to the section's own table of contents.
pub open spec fn toc_line(name: Seq<char>) -> Seq<char> {
    "* ["@ + name + "]{"@ + name + "/_toc}\n"@
}

impl AddSettings {
    /// The colour that was given, read without the white space behind it.
    pub fn parse_color(&self) -> (res: Result<Color, String>)
        ensures
            match res {
                Ok(c) => color_parsed(trimmed_end(self.color@)) == Ok::<(u8, u8, u8), Seq<char>>(
                    c@,
                ),
                Err(e) => color_parsed(trimmed_end(self.color@)) is Err && e@
                    == "Please give a proper hex-formatted color (e.g., #abcdef)."@,
            },
    {
        match Color::from_str(self.color.as_str().trim_end()) {
            Ok(c) => Ok(c),
            Err(_) => Err("Please give a proper hex-formatted color (e.g., #abcdef).".to_owned()),
        }
    }

    /// The line that lists the new section in the table of contents.
    pub fn toc_entry(&self) -> (res: String)
        ensures
            res@ == toc_line(self.name@),
    {
        let mut out = String::new();
        out.append("* [");
        out.append(self.name.as_str());
        out.append("]{");
        out.append(self.name.as_str());
        out.append("/_toc}\n");
        out
    }
}

} // verus!
