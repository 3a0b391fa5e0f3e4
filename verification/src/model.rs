//! The book model: volumes, chapters, chapter selection and download progress.
use vstd::prelude::*;

use crate::text::{
    chars_of, filename_chars, push_char, push_xml_escaped, trim, trimmed, xml_escaped,
};

verus! {

/// The abstract form of a chapter.
pub struct ChapterV {
    pub title: Seq<char>,
    pub url: Seq<char>,
}

/// The abstract form of a volume.
pub struct VolumeV {
    pub name: Seq<char>,
    pub chapters: Seq<ChapterV>,
}

/// A book as the downloader sees it.
#[derive(Debug)]
pub struct Book {
    /// Title.
    pub title: String,
    /// Author.
    pub author: String,
    /// Library (publisher) the book belongs to.
    pub library: String,
    /// Synopsis.
    pub intro: String,
    /// Cover image bytes, once fetched.
    pub cover: Option<Vec<u8>>,
    /// Cover URL found on the book page.
    pub cover_url: Option<String>,
    /// URL of the table of contents.
    pub toc_url: Option<String>,
    /// The volumes, in order.
    pub volumes: Vec<Volume>,
    /// Images to include: file name and source URL, names distinct.
    pub images: Vec<(String, String)>,
}

/// One volume: a name and its chapters.
#[derive(Debug)]
pub struct Volume {
    /// Volume name.
    pub name: String,
    /// Chapters, in order.
    pub chapters: Vec<Chapter>,
}

/// One chapter: its title and page URL.
#[derive(Debug)]
pub struct Chapter {
    /// Chapter title.
    pub title: String,
    /// Chapter page URL.
    pub url: String,
}

impl View for Chapter {
    type V = ChapterV;

    open spec fn view(&self) -> ChapterV {
        ChapterV { title: self.title@, url: self.url@ }
    }
}

impl View for Volume {
    type V = VolumeV;

    open spec fn view(&self) -> VolumeV {
        VolumeV { name: self.name@, chapters: self.chapters@.map_values(|c: Chapter| c@) }
    }
}

/// The abstract form of a list of volumes.
pub open spec fn volumes_view(vols: Seq<Volume>) -> Seq<VolumeV> {
    vols.map_values(|v: Volume| v@)
}

impl Clone for Chapter {
    fn clone(&self) -> (r: Self)
        ensures
            r == *self,
    {
        Chapter { title: self.title.clone(), url: self.url.clone() }
    }
}

impl Chapter {
    /// A chapter with the given title and URL.
    pub fn new(title: String, url: String) -> (c: Chapter)
        ensures
            c.title == title,
            c.url == url,
    {
        Chapter { title, url }
    }
}

impl Book {
    /// A book with every field empty.
    pub fn empty() -> (b: Book)
        ensures
            b.title@.len() == 0,
            b.author@.len() == 0,
            b.library@.len() == 0,
            b.intro@.len() == 0,
            b.cover is None,
            b.cover_url is None,
            b.toc_url is None,
            b.volumes@.len() == 0,
            b.images@.len() == 0,
    {
        Book {
            title: String::new(),
            author: String::new(),
            library: String::new(),
            intro: String::new(),
            cover: None,
            cover_url: None,
            toc_url: None,
            volumes: Vec::new(),
            images: Vec::new(),
        }
    }
}

impl Default for Book {
    fn default() -> (b: Book)
        ensures
            b.title@.len() == 0,
            b.author@.len() == 0,
            b.library@.len() == 0,
            b.intro@.len() == 0,
            b.cover is None,
            b.cover_url is None,
            b.toc_url is None,
            b.volumes@.len() == 0,
            b.images@.len() == 0,
    {
        Book::empty()
    }
}

/// How a book's title is written: whole, or one part of a bracketed title.
#[derive(Debug, Clone, Copy, PartialEq, Eq, Structural)]
pub enum TitleStyle {
    /// The whole title, brackets included.
    Full,
    /// The part inside the first pair of brackets.
    InBracket,
    /// The part before the first pair of brackets.
    BeforeBracket,
}

/// Which chapters to download: all, a 1-based inclusive range, or listed ones.
#[derive(Debug)]
pub enum Selection {
    All,
    Range { start: usize, end: usize },
    Chapters(Vec<usize>),
}

/// The abstract form of a selection.
pub enum SelectionV {
    All,
    Range { start: nat, end: nat },
    Chapters(Seq<usize>),
}

impl View for Selection {
    type V = SelectionV;

    open spec fn view(&self) -> SelectionV {
        match self {
            Selection::All => SelectionV::All,
            Selection::Range { start, end } => SelectionV::Range {
                start: *start as nat,
                end: *end as nat,
            },
            Selection::Chapters(ids) => SelectionV::Chapters(ids@),
        }
    }
}

impl Default for Selection {
    fn default() -> (s: Self)
        ensures
            s is All,
    {
        Selection::All
    }
}

impl Clone for Selection {
    fn clone(&self) -> (r: Self)
        ensures
            r@ == self@,
    {
        match self {
            Selection::All => Selection::All,
            Selection::Range { start, end } => Selection::Range { start: *start, end: *end },
            Selection::Chapters(ids) => Selection::Chapters(ids.clone()),
        }
    }
}

/// One file of an EPUB archive: its path inside the archive and its bytes.
#[derive(Debug)]
pub struct EpubFile {
    /// Path inside the archive, such as `OEBPS/Text/0_0.xhtml`.
    pub path: String,
    /// File contents.
    pub bytes: Vec<u8>,
}

/// The stage a download is in.
#[derive(Debug, Clone, Copy, PartialEq, Eq, Structural)]
pub enum Stage {
    FetchBook,
    ParseToc,
    DownloadChapters,
    DownloadImages,
    Pack,
}

/// The stage that a stored code stands for; codes above 3 stand for `Pack`.
pub open spec fn stage_of_code(v: u8) -> Stage {
    if v == 0 {
        Stage::FetchBook
    } else if v == 1 {
        Stage::ParseToc
    } else if v == 2 {
        Stage::DownloadChapters
    } else if v == 3 {
        Stage::DownloadImages
    } else {
        Stage::Pack
    }
}

/// The code under which a stage is stored.
pub open spec fn code_of_stage(s: Stage) -> u8 {
    match s {
        Stage::FetchBook => 0,
        Stage::ParseToc => 1,
        Stage::DownloadChapters => 2,
        Stage::DownloadImages => 3,
        Stage::Pack => 4,
    }
}

impl Stage {
    /// The code under which this stage is stored.
    pub fn code(self) -> (v: u8)
        ensures
            v == code_of_stage(self),
    {
        match self {
            Stage::FetchBook => 0,
            Stage::ParseToc => 1,
            Stage::DownloadChapters => 2,
            Stage::DownloadImages => 3,
            Stage::Pack => 4,
        }
    }
}

impl vstd::std_specs::convert::FromSpecImpl<u8> for Stage {
    open spec fn obeys_from_spec() -> bool {
        true
    }

    open spec fn from_spec(v: u8) -> Stage {
        stage_of_code(v)
    }
}

impl From<u8> for Stage {
    fn from(v: u8) -> (s: Stage) {
        if v == 0 {
            Stage::FetchBook
        } else if v == 1 {
            Stage::ParseToc
        } else if v == 2 {
            Stage::DownloadChapters
        } else if v == 3 {
            Stage::DownloadImages
        } else {
            Stage::Pack
        }
    }
}

/// The stored code of a stage reads back as that stage.
pub proof fn law_stage_code_round_trip(s: Stage)
    ensures
        stage_of_code(code_of_stage(s)) == s,
{
}

/// The progress of one book's download.
#[derive(Debug)]
pub struct Progress {
    pub chapters_done: usize,
    pub chapters_total: usize,
    pub images_done: usize,
    pub images_total: usize,
    pub cancel: bool,
    /// The code of the current stage (see [`stage_of_code`]); read it through `get_stage`.
    pub stage: u8,
}

impl Progress {
    /// The stage the progress is in.
    pub open spec fn stage_view(&self) -> Stage {
        stage_of_code(self.stage)
    }

    /// Progress at the start: all counters zero, not cancelled, fetching the book page.
    pub fn new() -> (p: Progress)
        ensures
            p.chapters_done == 0,
            p.chapters_total == 0,
            p.images_done == 0,
            p.images_total == 0,
            !p.cancel,
            p.stage_view() == Stage::FetchBook,
    {
        Progress {
            chapters_done: 0,
            chapters_total: 0,
            images_done: 0,
            images_total: 0,
            cancel: false,
            stage: 0,
        }
    }

    /// Moves the progress to `stage`, leaving the counters as they are.
    pub fn set_stage(&mut self, stage: Stage)
        ensures
            final(self).stage_view() == stage,
            final(self).chapters_done == old(self).chapters_done,
            final(self).chapters_total == old(self).chapters_total,
            final(self).images_done == old(self).images_done,
            final(self).images_total == old(self).images_total,
            final(self).cancel == old(self).cancel,
    {
        self.stage = stage.code();
    }

    /// The stage the progress is in.
    pub fn get_stage(&self) -> (s: Stage)
        ensures
            s == self.stage_view(),
    {
        Stage::from(self.stage)
    }
}

impl Default for Progress {
    fn default() -> (p: Progress)
        ensures
            p.chapters_done == 0,
            p.chapters_total == 0,
            p.images_done == 0,
            p.images_total == 0,
            !p.cancel,
            p.stage_view() == Stage::FetchBook,
    {
        Progress::new()
    }
}

/// The XML escape of `s`: `&`, `<`, `>`, `"`, `'` become entity references.
pub fn escape_xml(s: &str) -> (res: String)
    ensures
        res@ == xml_escaped(s@),
{
    let mut res = String::new();
    push_xml_escaped(&mut res, s);
    assert(res@ =~= xml_escaped(s@));
    res
}

/// `title` with the characters `< > : " / \ | ? *` replaced by `_`, then trimmed.
pub fn sanitize_filename(title: &str) -> (res: String)
    ensures
        res@ == trimmed(filename_chars(title@)),
{
    let v = chars_of(title);
    let mut mapped = String::new();
    let mut i: usize = 0;
    while i < v.len()
        invariant
            i <= v.len(),
            v@ == title@,
            mapped@ == filename_chars(v@.take(i as int)),
        decreases v.len() - i,
    {
        let c = v[i];
        if c == '<' || c == '>' || c == ':' || c == '"' || c == '/' || c == '\\' || c == '|' || c
            == '?' || c == '*' {
            push_char(&mut mapped, '_');
        } else {
            push_char(&mut mapped, c);
        }
        i += 1;
        assert(mapped@ =~= filename_chars(v@.take(i as int)));
    }
    assert(v@.take(i as int) =~= title@);
    trim(mapped.as_str())
}

} // verus!
