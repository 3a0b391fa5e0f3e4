//! The book model of the standalone downloader.
use vstd::prelude::*;

use crate::book::flat_chapters;
use crate::model::{ChapterV, VolumeV};

verus! {

/// A book as the standalone downloader fills it in.
#[derive(Debug)]
pub struct Book {
    /// Title.
    pub title: String,
    /// Author.
    pub author: String,
    /// Synopsis.
    pub intro: String,
    /// Local cover bytes, when a cover file was found.
    pub cover: Option<Vec<u8>>,
    /// URL of the table of contents, from the book page.
    pub toc_url: Option<String>,
    /// The volumes, in order.
    pub volumes: Vec<Volume>,
    /// The downloaded images: file name (such as `0_0_0.jpg`) and bytes, names distinct.
    pub images: Vec<(String, Vec<u8>)>,
}

/// One volume.
#[derive(Debug)]
pub struct Volume {
    /// Volume name.
    pub name: String,
    /// Chapters, in order.
    pub chapters: Vec<Chapter>,
}

/// One chapter.
#[derive(Debug)]
pub struct Chapter {
    /// Chapter title.
    pub title: String,
    /// Chapter page URL.
    pub url: String,
    /// The chapter's XHTML page, once downloaded.
    pub xhtml: Option<String>,
}

impl View for Chapter {
    type V = ChapterV;

    open spec fn view(&self) -> ChapterV {
        ChapterV { title: self.title@, url: self.url@ }
    }
}

impl View for Volume {
    type V = VolumeV;

    open spec fn view(&self) -> VolumeV {
        VolumeV { name: self.name@, chapters: self.chapters@.map_values(|c: Chapter| c@) }
    }
}

/// The abstract form of a list of volumes.
pub open spec fn volumes_of(vols: Seq<Volume>) -> Seq<VolumeV> {
    vols.map_values(|v: Volume| v@)
}

/// The names of a list of images.
pub open spec fn image_names_of(images: Seq<(String, Vec<u8>)>) -> Seq<Seq<char>> {
    images.map_values(|p: (String, Vec<u8>)| p.0@)
}

/// Whether no two images share a name.
pub open spec fn distinct_names(images: Seq<(String, Vec<u8>)>) -> bool {
    forall|i: int, j: int|
        0 <= i < j < images.len() ==> #[trigger] images[i].0@ != #[trigger] images[j].0@
}

impl Book {
    /// A book with every field empty.
    pub fn empty() -> (b: Book)
        ensures
            b.title@.len() == 0,
            b.author@.len() == 0,
            b.intro@.len() == 0,
            b.cover is None,
            b.toc_url is None,
            b.volumes@.len() == 0,
            b.images@.len() == 0,
    {
        Book {
            title: String::new(),
            author: String::new(),
            intro: String::new(),
            cover: None,
            toc_url: None,
            volumes: Vec::new(),
            images: Vec::new(),
        }
    }

    /// Every chapter with its volume and chapter index, in reading order.
    pub fn chapters(&self) -> (res: Vec<(usize, usize, &Chapter)>)
        ensures
            res@.map_values(|t: (usize, usize, &Chapter)| (t.0 as int, t.1 as int, t.2@))
                == flat_chapters(volumes_of(self.volumes@)),
            forall|k: int|
                0 <= k < res@.len() ==> {
                    let t = #[trigger] res@[k];
                    &&& t.0 < self.volumes@.len()
                    &&& t.1 < self.volumes@[t.0 as int].chapters@.len()
                    &&& *t.2 == self.volumes@[t.0 as int].chapters@[t.1 as int]
                },
    {
        let ghost all = volumes_of(self.volumes@);
        let mut res: Vec<(usize, usize, &Chapter)> = Vec::new();
        let mut vi: usize = 0;
        while vi < self.volumes.len()
            invariant
                vi <= self.volumes.len(),
                all == volumes_of(self.volumes@),
                res@.map_values(|t: (usize, usize, &Chapter)| (t.0 as int, t.1 as int, t.2@))
                    == flat_chapters(all.take(vi as int)),
                forall|k: int|
                    0 <= k < res@.len() ==> {
                        let t = #[trigger] res@[k];
                        &&& t.0 < self.volumes@.len()
                        &&& t.1 < self.volumes@[t.0 as int].chapters@.len()
                        &&& *t.2 == self.volumes@[t.0 as int].chapters@[t.1 as int]
                    },
            decreases self.volumes.len() - vi,
        {
            let vol = &self.volumes[vi];
            let ghost chs = vol@.chapters;
            let ghost f = |ci: int, c: ChapterV| (vi as int, ci, c);
            assert(all.take(vi + 1).drop_last() =~= all.take(vi as int));
            assert(all.take(vi + 1).last() == vol@);
            let ghost start = res@.map_values(
                |t: (usize, usize, &Chapter)| (t.0 as int, t.1 as int, t.2@),
            );
            let mut ci: usize = 0;
            while ci < vol.chapters.len()
                invariant
                    vi < self.volumes.len(),
                    *vol == self.volumes@[vi as int],
                    ci <= vol.chapters.len(),
                    chs == vol@.chapters,
                    chs.len() == vol.chapters.len(),
                    f == (|ci: int, c: ChapterV| (vi as int, ci, c)),
                    res@.map_values(|t: (usize, usize, &Chapter)| (t.0 as int, t.1 as int, t.2@))
                        == start + chs.take(ci as int).map(f),
                    forall|k: int|
                        0 <= k < res@.len() ==> {
                            let t = #[trigger] res@[k];
                            &&& t.0 < self.volumes@.len()
                            &&& t.1 < self.volumes@[t.0 as int].chapters@.len()
                            &&& *t.2 == self.volumes@[t.0 as int].chapters@[t.1 as int]
                        },
                decreases vol.chapters.len() - ci,
            {
                let ghost before = res@.map_values(
                    |t: (usize, usize, &Chapter)| (t.0 as int, t.1 as int, t.2@),
                );
                res.push((vi, ci, &vol.chapters[ci]));
                assert(chs.take(ci + 1).map(f) =~= chs.take(ci as int).map(f).push(
                    f(ci as int, chs[ci as int]),
                ));
                assert(res@.map_values(|t: (usize, usize, &Chapter)| (t.0 as int, t.1 as int, t.2@))
                    =~= before.push((vi as int, ci as int, vol.chapters@[ci as int]@)));
                ci += 1;
            }
            assert(chs.take(ci as int) =~= chs);
            assert(res@.map_values(|t: (usize, usize, &Chapter)| (t.0 as int, t.1 as int, t.2@))
                =~= flat_chapters(all.take(vi + 1)));
            vi += 1;
        }
        assert(all.take(vi as int) =~= all);
        res
    }
}

/// The settings the caller gives the downloader.
#[derive(Debug, Clone)]
pub struct DownloaderConfig {
    /// How many images download at once.
    pub image_concurrency: usize,
    /// Whether to pause before each request.
    pub delay_enabled: bool,
    /// How many times a request is tried.
    pub max_retries: u32,
    /// The user agents requests take turns with; empty means the default ones.
    pub user_agents: Vec<String>,
}

impl Default for DownloaderConfig {
    fn default() -> (c: Self)
        ensures
            c.image_concurrency == 3,
            !c.delay_enabled,
            c.max_retries == 3,
            c.user_agents@.len() == 1,
            c.user_agents@[0]@ == "Mozilla/5.0 (Windows NT 10.0; Win64; x64)"@,
    {
        DownloaderConfig {
            image_concurrency: 3,
            delay_enabled: false,
            max_retries: 3,
            user_agents: vec!["Mozilla/5.0 (Windows NT 10.0; Win64; x64)".to_owned()],
        }
    }
}

} // verus!
