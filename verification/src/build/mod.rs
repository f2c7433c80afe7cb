//! The two passes of a build: collecting references, then rendering pages.

pub mod compile;
pub mod compile_tree;
pub mod css;
pub mod file_queue;
pub mod laws;
pub mod links;
pub mod refs;

use crate::build::file_queue::{FileQueue, QueueView};
use crate::root::Root;
use crate::text::{chars_of, ends_with, has_suffix, text_pairs};
use vstd::prelude::*;
use vstd::string::*;

verus! {

broadcast use vstd::string::group_string_axioms;

/// What `wikid build` is told.
#[derive(Debug)]
pub struct BuildSettings {
    /// Compile with public links
    pub public: bool,
    /// Open HTML after build
    pub run: bool,
    /// Verbosity
    pub verbose: bool,
}

/// Why a build of the site `root` cannot begin, if it cannot: a public build needs the public
/// URL, and a background image has to be a PNG.
pub open spec fn build_refused(root: Root, public: bool) -> Option<Seq<char>> {
    if public && root.public_url@.len() == 0 {
        Some("You must first set the public url"@)
    } else if root.bg_image matches Some(image) && !has_suffix(image@, ".png"@) {
        Some("The background image "@ + root.bg_image->0@ + " is not a PNG"@)
    } else {
        None
    }
}

/// The image copies that a build begins with: the background image, where the site has one.
pub open spec fn first_images(root: Root) -> Seq<(Seq<char>, Seq<char>)> {
    match root.bg_image {
        Some(image) => seq![(image@, "html/css/background_image.png"@)],
        None => Seq::empty(),
    }
}

impl BuildSettings {
    /// Begins a build: checks the site's settings and queues the copy of the background image.
    /// Where the build cannot begin, the queue stays as it is.
    pub fn begin(&self, root: &Root, file_queue: &mut FileQueue) -> (res: Result<(), String>)
        ensures
            match res {
                Ok(_) => build_refused(*root, self.public) is None && final(file_queue)@ == (
                QueueView {
                    images: old(file_queue)@.images + first_images(*root),
                    ..old(file_queue)@
                }),
                Err(e) => build_refused(*root, self.public) == Some(e@) && final(file_queue)@
                    == old(file_queue)@,
            },
    {
        if self.public && root.public_url.as_str().is_empty() {
            return Err("You must first set the public url".to_owned());
        }
        let mut imgs: Vec<(String, String)> = Vec::new();
        match &root.bg_image {
            Some(image) => {
                let chars = chars_of(image.as_str());
                if !ends_with(&chars, ".png") {
                    let mut e = String::new();
                    e.append("The background image ");
                    e.append(image.as_str());
                    e.append(" is not a PNG");
                    return Err(e);
                }
                imgs.push((image.clone(), "html/css/background_image.png".to_owned()));
            },
            None => {},
        }
        assert(text_pairs(imgs@) =~= first_images(*root));
        file_queue.append_imgs(imgs);
        Ok(())
    }
}

} // verus!
