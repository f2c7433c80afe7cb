//! What a build hands to the file writer: pages, image copies and applets to build.

use crate::text::{
    chars_of, lemma_text_pairs_add, lemma_text_pairs_push, lemma_texts_push, push_range, split,
    split_on, text_pairs, texts,
};
use vstd::prelude::*;
use vstd::string::*;

verus! {

broadcast use vstd::string::group_string_axioms;

/// An applet that a page embeds and that has to be built before the site is written.
#[derive(Debug)]
pub struct AppletBuild {
    /// The directory of the applet's crate.
    pub path: String,
    /// The applet's name: the last part of its path.
    pub name: String,
    /// The applet's name in camel case.
    pub camel_name: String,
    pub width: i32,
    pub height: i32,
}

/// An applet to build, as plain values.
pub struct AppletRequest {
    pub path: Seq<char>,
    pub name: Seq<char>,
    pub camel_name: Seq<char>,
    pub width: int,
    pub height: int,
}

impl View for AppletBuild {
    type V = AppletRequest;

    open spec fn view(&self) -> AppletRequest {
        AppletRequest {
            path: self.path@,
            name: self.name@,
            camel_name: self.camel_name@,
            width: self.width as int,
            height: self.height as int,
        }
    }
}

/// The requests of a list of applets.
pub open spec fn requests(v: Seq<AppletBuild>) -> Seq<AppletRequest> {
    Seq::new(v.len(), |i: int| v[i]@)
}

pub proof fn lemma_requests_push(v: Seq<AppletBuild>, a: AppletBuild)
    ensures
        requests(v.push(a)) == requests(v).push(a@),
{
    assert(requests(v.push(a)) =~= requests(v).push(a@));
}

pub proof fn lemma_requests_add(v: Seq<AppletBuild>, w: Seq<AppletBuild>)
    ensures
        requests(v + w) == requests(v) + requests(w),
{
    assert(requests(v + w) =~= requests(v) + requests(w));
}

/// The position of the file named `name` in `files`, or `-1` where there is none.
pub open spec fn position(files: Seq<(Seq<char>, Seq<char>)>, name: Seq<char>) -> int
    decreases files.len(),
{
    if files.len() == 0 {
        -1
    } else if position(files.drop_last(), name) >= 0 {
        position(files.drop_last(), name)
    } else if files.last().0 == name {
        files.len() - 1
    } else {
        -1
    }
}

pub proof fn lemma_position(files: Seq<(Seq<char>, Seq<char>)>, name: Seq<char>)
    ensures
        -1 <= position(files, name) < files.len(),
        position(files, name) >= 0 ==> files[position(files, name)].0 == name,
        position(files, name) < 0 ==> forall|i: int|
            0 <= i < files.len() ==> (#[trigger] files[i]).0 != name,
    decreases files.len(),
{
    if files.len() > 0 {
        let t = files.drop_last();
        lemma_position(t, name);
        if position(files, name) < 0 {
            assert forall|i: int| 0 <= i < files.len() implies (#[trigger] files[i]).0 != name by {
                if i < t.len() {
                    assert(t[i] == files[i]);
                }
            }
        }
    }
}

/// The files after `text` was queued under `name`: it takes the place of a file of that name,
/// or comes last.
pub open spec fn with_file(
    files: Seq<(Seq<char>, Seq<char>)>,
    name: Seq<char>,
    text: Seq<char>,
) -> Seq<(Seq<char>, Seq<char>)> {
    if position(files, name) >= 0 {
        files.update(position(files, name), (name, text))
    } else {
        files.push((name, text))
    }
}

/// Whether no two files have one name.
pub open spec fn distinct_names(files: Seq<(Seq<char>, Seq<char>)>) -> bool {
    forall|i: int, j: int|
        0 <= i < j < files.len() ==> (#[trigger] files[i]).0 != (#[trigger] files[j]).0
}

/// Queuing a file keeps the names distinct.
pub proof fn lemma_with_file_distinct(
    files: Seq<(Seq<char>, Seq<char>)>,
    name: Seq<char>,
    text: Seq<char>,
)
    requires
        distinct_names(files),
    ensures
        distinct_names(with_file(files, name, text)),
{
    lemma_position(files, name);
    let after = with_file(files, name, text);
    let p = position(files, name);
    assert forall|i: int, j: int| 0 <= i < j < after.len() implies (#[trigger] after[i]).0 != (
    #[trigger] after[j]).0 by {
        if p >= 0 {
            assert(after[i].0 == files[i].0);
            assert(after[j].0 == files[j].0);
        } else if j == files.len() {
            assert(after[i] == files[i]);
        } else {
            assert(after[i] == files[i]);
            assert(after[j] == files[j]);
        }
    }
}

/// What a queue holds.
pub struct QueueView {
    /// The pages, each with its name; no two have one name.
    pub files: Seq<(Seq<char>, Seq<char>)>,
    /// The images to copy: from where, to where.
    pub images: Seq<(Seq<char>, Seq<char>)>,
    /// The applets to build.
    pub applets: Seq<AppletRequest>,
}

/// The output of a build, waiting to be written.
#[derive(Debug)]
pub struct FileQueue {
    map: Vec<(String, String)>,
    imgs: Vec<(String, String)>,
    applets: Vec<AppletBuild>,
}

impl View for FileQueue {
    type V = QueueView;

    closed spec fn view(&self) -> QueueView {
        QueueView {
            files: text_pairs(self.map@),
            images: text_pairs(self.imgs@),
            applets: requests(self.applets@),
        }
    }
}

impl FileQueue {
    pub fn new() -> (res: FileQueue)
        ensures
            res@.files == Seq::<(Seq<char>, Seq<char>)>::empty(),
            distinct_names(res@.files),
            res@.images == Seq::<(Seq<char>, Seq<char>)>::empty(),
            res@.applets == Seq::<AppletRequest>::empty(),
    {
        let res = FileQueue { map: Vec::new(), imgs: Vec::new(), applets: Vec::new() };
        assert(res@.files =~= Seq::empty());
        assert(res@.images =~= Seq::empty());
        assert(res@.applets =~= Seq::empty());
        res
    }

    /// Queues images to copy, behind those that are queued.
    pub fn append_imgs(&mut self, imgs: Vec<(String, String)>)
        ensures
            final(self)@ == (QueueView {
                images: old(self)@.images + text_pairs(imgs@),
                ..old(self)@
            }),
    {
        let mut imgs = imgs;
        proof {
            lemma_text_pairs_add(self.imgs@, imgs@);
        }
        self.imgs.append(&mut imgs);
    }

    /// Queues applets to build, behind those that are queued.
    pub fn append_applets(&mut self, applets: Vec<AppletBuild>)
        ensures
            final(self)@ == (QueueView {
                applets: old(self)@.applets + requests(applets@),
                ..old(self)@
            }),
    {
        let mut applets = applets;
        proof {
            lemma_requests_add(self.applets@, applets@);
        }
        self.applets.append(&mut applets);
    }

    /// Queues the page `text` under `name`, in place of a page of that name if there is one.
    pub fn add(&mut self, name: String, text: String)
        ensures
            final(self)@ == (QueueView {
                files: with_file(old(self)@.files, name@, text@),
                ..old(self)@
            }),
            distinct_names(old(self)@.files) ==> distinct_names(final(self)@.files),
    {
        proof {
            if distinct_names(text_pairs(self.map@)) {
                lemma_with_file_distinct(text_pairs(self.map@), name@, text@);
            }
        }
        let ghost files = text_pairs(self.map@);
        let mut i: usize = 0;
        assert(files.take(0) == Seq::<(Seq<char>, Seq<char>)>::empty());
        while i < self.map.len()
            invariant
                i <= self.map.len(),
                *self == *old(self),
                files == text_pairs(self.map@),
                position(files.take(i as int), name@) == -1,
            decreases self.map.len() - i,
        {
            proof {
                assert(files.take(i + 1).drop_last() == files.take(i as int));
                assert(files.take(i + 1).last() == files[i as int]);
            }
            if self.map[i].0 == name {
                proof {
                    lemma_position_extends(files, i as int, name@);
                }
                self.map.set(i, (name, text));
                assert(text_pairs(self.map@) =~= with_file(files, name@, text@));
                return ;
            }
            i += 1;
        }
        assert(files.take(files.len() as int) == files);
        proof {
            lemma_text_pairs_push(self.map@, (name, text));
        }
        self.map.push((name, text));
    }

    /// The number of pages queued.
    pub fn size(&self) -> (res: usize)
        ensures
            res == self@.files.len(),
    {
        self.map.len()
    }

    /// The pages queued, each with its name.
    pub fn files(&self) -> (res: &Vec<(String, String)>)
        ensures
            text_pairs(res@) == self@.files,
    {
        &self.map
    }

    /// The images to copy: from where, to where.
    pub fn images(&self) -> (res: &Vec<(String, String)>)
        ensures
            text_pairs(res@) == self@.images,
    {
        &self.imgs
    }

    /// The applets to build.
    pub fn applets(&self) -> (res: &Vec<AppletBuild>)
        ensures
            requests(res@) == self@.applets,
    {
        &self.applets
    }
}

/// A file found at `i` with none of its name before it is the file's position.
proof fn lemma_position_extends(files: Seq<(Seq<char>, Seq<char>)>, i: int, name: Seq<char>)
    requires
        0 <= i < files.len(),
        position(files.take(i), name) == -1,
        files[i].0 == name,
    ensures
        position(files, name) == i,
    decreases files.len() - i,
{
    assert(files.take(i + 1).drop_last() == files.take(i));
    assert(position(files.take(i + 1), name) == i);
    lemma_position_stays(files, i + 1, name);
}

proof fn lemma_position_stays(files: Seq<(Seq<char>, Seq<char>)>, k: int, name: Seq<char>)
    requires
        0 <= k <= files.len(),
        position(files.take(k), name) >= 0,
    ensures
        position(files, name) == position(files.take(k), name),
    decreases files.len() - k,
{
    if k < files.len() {
        assert(files.take(k + 1).drop_last() == files.take(k));
        lemma_position_stays(files, k + 1, name);
    } else {
        assert(files.take(k) == files);
    }
}

/// The parts of a path without those that are `.`.
pub open spec fn without_dots(parts: Seq<Seq<char>>) -> Seq<Seq<char>>
    decreases parts.len(),
{
    if parts.len() == 0 {
        Seq::empty()
    } else if parts.last() == seq!['.'] {
        without_dots(parts.drop_last())
    } else {
        without_dots(parts.drop_last()).push(parts.last())
    }
}

/// The parts of a path put together again, with `/` between them.
pub open spec fn joined(parts: Seq<Seq<char>>) -> Seq<char>
    decreases parts.len(),
{
    if parts.len() == 0 {
        Seq::empty()
    } else if parts.len() == 1 {
        parts[0]
    } else {
        joined(parts.drop_last()) + seq!['/'] + parts.last()
    }
}

/// The directories above the file at `path`, the outermost first: what stands before each `/`
/// of the path, the parts that are `.` left out.
pub open spec fn directories_above(path: Seq<char>) -> Seq<Seq<char>> {
    let parts = without_dots(split(path, '/'));
    if parts.len() == 0 {
        Seq::empty()
    } else {
        Seq::new((parts.len() - 1) as nat, |i: int| joined(parts.take(i + 1)))
    }
}

/// The directories above all of `files` when they are written below `target`, file after file.
pub open spec fn directories_of(files: Seq<(Seq<char>, Seq<char>)>, target: Seq<char>) -> Seq<
    Seq<char>,
>
    decreases files.len(),
{
    if files.len() == 0 {
        Seq::empty()
    } else {
        directories_of(files.drop_last(), target) + directories_above(target + files.last().0)
    }
}

/// The texts of a list of rows of characters.
pub open spec fn rows(v: Seq<Vec<char>>) -> Seq<Seq<char>> {
    Seq::new(v.len(), |i: int| v[i]@)
}

/// Computes `directories_above(path)` and appends it to `out`.
pub fn push_directories_above(out: &mut Vec<String>, path: &str)
    ensures
        texts(final(out)@) == texts(old(out)@) + directories_above(path@),
{
    let chars = chars_of(path);
    let all = split_on(&chars, '/');
    let ghost parts = split(path@, '/');
    assert(rows(all@) =~= parts);
    // Leave out the parts that are `.`.
    let mut kept: Vec<Vec<char>> = Vec::new();
    let mut j: usize = 0;
    assert(parts.take(0) == Seq::<Seq<char>>::empty());
    assert(rows(kept@) =~= Seq::<Seq<char>>::empty());
    while j < all.len()
        invariant
            j <= all.len(),
            rows(all@) == parts,
            rows(kept@) == without_dots(parts.take(j as int)),
        decreases all.len() - j,
    {
        proof {
            assert(parts.take(j + 1).drop_last() == parts.take(j as int));
            assert(parts.take(j + 1).last() == all@[j as int]@);
        }
        let part = &all[j];
        let dot = part.len() == 1 && part[0] == '.';
        proof {
            if dot {
                assert(part@ =~= seq!['.']);
            } else if part@ == seq!['.'] {
                assert(part@.len() == 1 && part@[0] == '.');
            }
        }
        if !dot {
            let mut copy: Vec<char> = Vec::new();
            let mut m: usize = 0;
            while m < part.len()
                invariant
                    m <= part.len(),
                    copy@ == part@.take(m as int),
                decreases part.len() - m,
            {
                copy.push(part[m]);
                m += 1;
                assert(part@.take(m as int) == part@.take(m - 1).push(part@[m - 1]));
            }
            assert(part@.take(part@.len() as int) == part@);
            let ghost before = rows(kept@);
            kept.push(copy);
            assert(rows(kept@) =~= before.push(part@));
        }
        j += 1;
    }
    assert(parts.take(parts.len() as int) == parts);
    let ghost names = without_dots(parts);
    if kept.len() == 0 {
        assert(texts(out@) + directories_above(path@) == texts(out@));
        return ;
    }
    // Put the parts together again, one more each time.
    let mut current = String::new();
    let mut i: usize = 0;
    let ghost start = texts(out@);
    assert(start + directories_above(path@).take(0) == start);
    while i + 1 < kept.len()
        invariant
            i < kept.len(),
            rows(kept@) == names,
            names == without_dots(split(path@, '/')),
            i == 0 ==> current@ == Seq::<char>::empty(),
            i > 0 ==> current@ == joined(names.take(i as int)),
            texts(out@) == start + directories_above(path@).take(i as int),
        decreases kept.len() - i,
    {
        if i > 0 {
            current.push('/');
        }
        push_range(&mut current, &kept[i], 0, kept[i].len());
        proof {
            assert(kept@[i as int]@.subrange(0, kept@[i as int]@.len() as int) == kept@[i as int]@);
            assert(names.take(i + 1).drop_last() == names.take(i as int));
            assert(names.take(i + 1).last() == kept@[i as int]@);
            if i == 0 {
                assert(current@ == Seq::<char>::empty() + kept@[0]@);
                assert(Seq::<char>::empty() + kept@[0]@ == kept@[0]@);
                assert(names.take(1)[0] == kept@[0]@);
            } else {
                assert(joined(names.take(i as int)).push('/') == joined(names.take(i as int))
                    + seq!['/']);
            }
            assert(current@ == joined(names.take(i + 1)));
            lemma_texts_push(out@, current);
            assert(directories_above(path@).take(i + 1) == directories_above(path@).take(
                i as int,
            ).push(current@));
        }
        out.push(current.clone());
        i += 1;
    }
    assert(directories_above(path@).take(i as int) == directories_above(path@));
}

impl FileQueue {
    /// The directories that have to be there before the pages can be written below
    /// `target_dir`, in the order in which they are to be made. A directory may come
    /// more than once.
    pub fn directories(&self, target_dir: &str) -> (res: Vec<String>)
        ensures
            texts(res@) == directories_of(self@.files, target_dir@),
    {
        let mut out: Vec<String> = Vec::new();
        let ghost files = text_pairs(self.map@);
        assert(files.take(0) == Seq::<(Seq<char>, Seq<char>)>::empty());
        assert(texts(out@) =~= Seq::<Seq<char>>::empty());
        let mut k: usize = 0;
        while k < self.map.len()
            invariant
                k <= self.map.len(),
                files == text_pairs(self.map@),
                texts(out@) == directories_of(files.take(k as int), target_dir@),
            decreases self.map.len() - k,
        {
            proof {
                assert(files.take(k + 1).drop_last() == files.take(k as int));
                assert(files.take(k + 1).last() == files[k as int]);
            }
            let mut path = String::new();
            path.append(target_dir);
            path.append(self.map[k].0.as_str());
            push_directories_above(&mut out, path.as_str());
            k += 1;
        }
        assert(files.take(files.len() as int) == files);
        out
    }
}

} // verus!
