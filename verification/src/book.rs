//! The steps of turning a book into an EPUB: chapter selection, chapter pages,
//! image naming and the list of archive files.
use vstd::prelude::*;

use crate::archive::file_views;
use crate::error::{error_of, Error, ErrorKind};
use crate::html::document_tokens;
use crate::package::{lemma_wrapped_has_item, push_text_id, push_xml_wrapped, string_views, text_id, xml_wrapped_all};
use crate::parser::{apply_title_style, chapter_page, parse_chapter, parse_title, title_split};
use crate::text::{
    contains_seq, lemma_contains_middle, lemma_contains_trans,
    lemma_contains_within, lemma_decimal_plain, lemma_escape_plain, lemma_plain_concat, xml_plain,
    decimal, filename_chars, push_decimal, push_str, push_xml_escaped, trimmed, utf8_of,
    xml_escaped,
};
use crate::model::{
    sanitize_filename, volumes_view, Book, Chapter, ChapterV, EpubFile, Selection, SelectionV,
    TitleStyle, Volume, VolumeV,
};

verus! {

/// The EPUB version to generate.
#[derive(Debug, Clone, Copy, PartialEq, Eq, Structural)]
pub enum EpubVersion {
    V2,
    V3,
}

/// The outcome of downloading one book.
#[derive(Debug)]
pub struct BookResult {
    /// Path of the EPUB file written.
    pub path: String,
    /// How many images could not be downloaded.
    pub failed_images: usize,
}

// ---------------------------------------------------------------------------
// Chapter selection
// ---------------------------------------------------------------------------

/// Whether the chapter with 1-based position `idx` (counted over the whole book) is selected.
pub open spec fn is_selected(sel: SelectionV, idx: nat) -> bool {
    match sel {
        SelectionV::All => true,
        SelectionV::Range { start, end } => start <= idx <= end,
        SelectionV::Chapters(ids) => exists|k: int| 0 <= k < ids.len() && ids[k] as nat == idx,
    }
}

/// The selected chapters of one volume whose chapters come after `base` earlier ones.
pub open spec fn kept_chapters(chs: Seq<ChapterV>, sel: SelectionV, base: nat) -> Seq<ChapterV>
    decreases chs.len(),
{
    if chs.len() == 0 {
        Seq::empty()
    } else {
        let prev = kept_chapters(chs.drop_last(), sel, base);
        if is_selected(sel, base + chs.len()) {
            prev.push(chs.last())
        } else {
            prev
        }
    }
}

/// The number of chapters in `vols`.
pub open spec fn chapter_count(vols: Seq<VolumeV>) -> nat
    decreases vols.len(),
{
    if vols.len() == 0 {
        0
    } else {
        chapter_count(vols.drop_last()) + vols.last().chapters.len()
    }
}

/// Each volume with only its selected chapters; volumes left without chapters are dropped.
pub open spec fn selected_volumes(vols: Seq<VolumeV>, sel: SelectionV) -> Seq<VolumeV>
    decreases vols.len(),
{
    if vols.len() == 0 {
        Seq::empty()
    } else {
        let prev = selected_volumes(vols.drop_last(), sel);
        let last = vols.last();
        let kept = kept_chapters(last.chapters, sel, chapter_count(vols.drop_last()));
        if kept.len() > 0 {
            prev.push(VolumeV { name: last.name, chapters: kept })
        } else {
            prev
        }
    }
}

/// A range selection that starts at 0 or ends before it starts.
pub open spec fn invalid_range(sel: SelectionV) -> bool {
    match sel {
        SelectionV::Range { start, end } => start == 0 || end < start,
        _ => false,
    }
}

/// The volumes a selection leaves: all of them as they are for `All`.
pub open spec fn selection_result(vols: Seq<VolumeV>, sel: SelectionV) -> Seq<VolumeV> {
    match sel {
        SelectionV::All => vols,
        _ => selected_volumes(vols, sel),
    }
}

/// A book has at most `vols.len() * usize::MAX` chapters.
pub proof fn lemma_chapter_count_bound(vols: Seq<VolumeV>)
    requires
        forall|i: int| 0 <= i < vols.len() ==> (#[trigger] vols[i]).chapters.len() <= usize::MAX,
    ensures
        chapter_count(vols) <= vols.len() * (usize::MAX as nat),
    decreases vols.len(),
{
    if vols.len() > 0 {
        lemma_chapter_count_bound(vols.drop_last());
        assert(vols.last().chapters.len() <= usize::MAX);
        assert(chapter_count(vols) <= (vols.len() - 1) * (usize::MAX as nat) + usize::MAX);
        assert((vols.len() - 1) * (usize::MAX as nat) + usize::MAX == vols.len() * (
        usize::MAX as nat)) by (nonlinear_arith);
    }
}

/// The chapters of a prefix of the volumes are no more than those of all volumes.
pub proof fn lemma_chapter_count_prefix(vols: Seq<VolumeV>, k: int)
    requires
        0 <= k <= vols.len(),
    ensures
        chapter_count(vols.take(k)) <= chapter_count(vols),
    decreases vols.len(),
{
    if k < vols.len() {
        assert(vols.drop_last().take(k) =~= vols.take(k));
        lemma_chapter_count_prefix(vols.drop_last(), k);
    } else {
        assert(vols.take(k) =~= vols);
    }
}

/// Whether the chapter at 1-based position `idx` is selected.
fn selected(sel: &Selection, idx: u128) -> (b: bool)
    ensures
        b == is_selected(sel@, idx as nat),
{
    match sel {
        Selection::All => true,
        Selection::Range { start, end } => (*start as u128) <= idx && idx <= (*end as u128),
        Selection::Chapters(ids) => {
            let mut k: usize = 0;
            assert(sel@ == SelectionV::Chapters(ids@));
            while k < ids.len()
                invariant
                    k <= ids.len(),
                    sel@ == SelectionV::Chapters(ids@),
                    forall|j: int| 0 <= j < k ==> ids@[j] != idx,
                decreases ids.len() - k,
            {
                if ids[k] as u128 == idx {
                    let ghost ki = k as int;
                    assert(0 <= ki < ids@.len() && ids@[ki] == idx as nat);
                    let ghost sv = SelectionV::Chapters(ids@);
                    assert(sv->0[ki] as nat == idx as nat);
                    assert(is_selected(sv, idx as nat));
                    return true;
                }
                k += 1;
            }
            false
        },
    }
}

/// The selected chapters of `chs`, whose first chapter has 1-based position `base + 1`.
fn filter_chapters(chs: &Vec<Chapter>, sel: &Selection, base: u128) -> (res: Vec<Chapter>)
    requires
        base + chs@.len() <= u128::MAX,
    ensures
        res@.map_values(|c: Chapter| c@) == kept_chapters(
            chs@.map_values(|c: Chapter| c@),
            sel@,
            base as nat,
        ),
{
    let ghost all = chs@.map_values(|c: Chapter| c@);
    let mut res: Vec<Chapter> = Vec::new();
    let mut j: usize = 0;
    while j < chs.len()
        invariant
            j <= chs.len(),
            base + chs@.len() <= u128::MAX,
            all == chs@.map_values(|c: Chapter| c@),
            res@.map_values(|c: Chapter| c@) == kept_chapters(all.take(j as int), sel@, base as nat),
        decreases chs.len() - j,
    {
        let ghost before = res@.map_values(|c: Chapter| c@);
        assert(all.take(j + 1).drop_last() =~= all.take(j as int));
        if selected(sel, base + (j as u128) + 1) {
            res.push(chs[j].clone());
            assert(res@.map_values(|c: Chapter| c@) =~= before.push(all[j as int]));
        }
        j += 1;
    }
    assert(all.take(j as int) =~= all);
    res
}

/// The volumes that remain after keeping only the selected chapters.
fn filter_volumes(vols: &Vec<Volume>, sel: &Selection) -> (res: Vec<Volume>)
    ensures
        volumes_view(res@) == selected_volumes(volumes_view(vols@), sel@),
{
    let ghost all = volumes_view(vols@);
    let mut res: Vec<Volume> = Vec::new();
    let mut count: u128 = 0;
    let mut i: usize = 0;
    proof {
        assert forall|k: int| 0 <= k < all.len() implies (#[trigger] all[k]).chapters.len()
            <= usize::MAX by {
            assert(all[k].chapters.len() == vols@[k].chapters@.len());
            assert(vols@[k].chapters@.len() == vols@[k].chapters.len());
        }
        lemma_chapter_count_bound(all);
    }
    while i < vols.len()
        invariant
            i <= vols.len(),
            all == volumes_view(vols@),
            count as nat == chapter_count(all.take(i as int)),
            chapter_count(all.take(i as int)) <= i * (usize::MAX as nat),
            volumes_view(res@) == selected_volumes(all.take(i as int), sel@),
        decreases vols.len() - i,
    {
        let vol = &vols[i];
        assert(all.take(i + 1).drop_last() =~= all.take(i as int));
        assert(all.take(i + 1).last() == vol@);
        assert(count + vol.chapters@.len() <= u128::MAX) by {
            let c = count as nat;
            let l = vol.chapters@.len();
            assert(l == vol.chapters.len());
            assert(c + l <= u128::MAX) by (nonlinear_arith)
                requires
                    c <= i * (usize::MAX as nat),
                    i < usize::MAX,
                    l <= usize::MAX,
                    usize::MAX <= 0xffff_ffff_ffff_ffff,
            ;
        }
        let kept = filter_chapters(&vol.chapters, sel, count);
        let ghost before = volumes_view(res@);
        if kept.len() > 0 {
            let name = vol.name.clone();
            res.push(Volume { name, chapters: kept });
            assert(volumes_view(res@) =~= before.push(
                VolumeV {
                    name: vol.name@,
                    chapters: kept_chapters(vol@.chapters, sel@, count as nat),
                },
            ));
        }
        count = count + vol.chapters.len() as u128;
        assert(i * (usize::MAX as nat) + usize::MAX == (i + 1) * (usize::MAX as nat))
            by (nonlinear_arith);
        i += 1;
    }
    assert(all.take(i as int) =~= all);
    res
}

/// Keeps only the selected chapters of `book`.
///
/// A range must start at 1 or later and not end before it starts; after selection at
/// least one volume must remain. `All` keeps every volume as it is.
pub fn apply_selection(book: Book, selection: &Selection) -> (res: Result<Book, Error>)
    ensures
        res is Ok <==> !invalid_range(selection@) && selection_result(
            volumes_view(book.volumes@),
            selection@,
        ).len() > 0,
        res matches Ok(b) ==> {
            &&& volumes_view(b.volumes@) == selection_result(
                volumes_view(book.volumes@),
                selection@,
            )
            &&& b.title == book.title
            &&& b.author == book.author
            &&& b.library == book.library
            &&& b.intro == book.intro
            &&& b.cover == book.cover
            &&& b.cover_url == book.cover_url
            &&& b.toc_url == book.toc_url
            &&& b.images == book.images
        },
        res matches Err(e) ==> {
            &&& e.kind == ErrorKind::NotFound
            &&& invalid_range(selection@) ==> e.message@ == "无效的章节区间"@
            &&& !invalid_range(selection@) ==> e.message@ == "选择范围后没有可下载的章节"@
        },
{
    let mut book = book;
    match selection {
        Selection::All => {},
        Selection::Range { start, end } => {
            if *start == 0 || *end < *start {
                return Err(error_of(ErrorKind::NotFound, "无效的章节区间"));
            }
            book.volumes = filter_volumes(&book.volumes, selection);
        },
        Selection::Chapters(_) => {
            book.volumes = filter_volumes(&book.volumes, selection);
        },
    }
    if book.volumes.len() == 0 {
        return Err(error_of(ErrorKind::NotFound, "选择范围后没有可下载的章节"));
    }
    Ok(book)
}

// ---------------------------------------------------------------------------
// Chapter pages
// ---------------------------------------------------------------------------

/// The XHTML page of one chapter: its title as heading, one paragraph per text
/// paragraph, then the images by file name.
pub open spec fn chapter_xhtml(title: Seq<char>, paragraphs: Seq<Seq<char>>, images: Seq<Seq<char>>) -> Seq<char> {
    "<?xml version=\"1.0\" encoding=\"utf-8\"?>\n<!DOCTYPE html>\n<html xmlns=\"http://www.w3.org/1999/xhtml\">\n<head>\n  <title>"@
        + xml_escaped(title) + "</title>\n</head>\n<body>\n  <section>\n"@ + "<h3>"@ + xml_escaped(
        title,
    ) + "</h3>\n"@ + xml_wrapped_all(paragraphs, "<p>"@, "</p>\n"@) + xml_wrapped_all(
        images,
        "<img src=\"../Image/"@,
        "\" alt=\"\" />\n"@,
    ) + "  </section>\n</body>\n</html>\n"@
}

/// The XHTML page of one chapter, images referred to by file name under `../Image/`.
pub fn build_chapter_xhtml(title: &str, paragraphs: &[String], image_names: &[String]) -> (res:
    String)
    ensures
        res@ == chapter_xhtml(title@, string_views(paragraphs@), string_views(image_names@)),
{
    let mut body = String::new();
    push_str(&mut body, "<h3>");
    push_xml_escaped(&mut body, title);
    push_str(&mut body, "</h3>\n");
    push_xml_wrapped(&mut body, paragraphs, "<p>", "</p>\n");
    push_xml_wrapped(&mut body, image_names, "<img src=\"../Image/", "\" alt=\"\" />\n");
    let mut out = String::new();
    push_str(
        &mut out,
        "<?xml version=\"1.0\" encoding=\"utf-8\"?>\n<!DOCTYPE html>\n<html xmlns=\"http://www.w3.org/1999/xhtml\">\n<head>\n  <title>",
    );
    push_xml_escaped(&mut out, title);
    push_str(&mut out, "</title>\n</head>\n<body>\n  <section>\n");
    push_str(&mut out, body.as_str());
    push_str(&mut out, "  </section>\n</body>\n</html>\n");
    assert(out@ =~= chapter_xhtml(title@, string_views(paragraphs@), string_views(image_names@)));
    out
}


// ---------------------------------------------------------------------------
// Steps of generating a book
// ---------------------------------------------------------------------------

/// The title `t` written in style `style`: whole, or the part inside or before its
/// first pair of brackets when there is one.
pub open spec fn restyled(t: Seq<char>, style: TitleStyle) -> Seq<char> {
    match style {
        TitleStyle::Full => t,
        TitleStyle::InBracket => match title_split(t).0 {
            Some(s) => s,
            None => t,
        },
        TitleStyle::BeforeBracket => match title_split(t).1 {
            Some(s) => s,
            None => t,
        },
    }
}

/// Rewrites the book's title in the chosen style; nothing else changes.
pub fn restyle_title(book: &mut Book, style: TitleStyle)
    ensures
        final(book).title@ == restyled(old(book).title@, style),
        final(book).author == old(book).author,
        final(book).library == old(book).library,
        final(book).intro == old(book).intro,
        final(book).cover == old(book).cover,
        final(book).cover_url == old(book).cover_url,
        final(book).toc_url == old(book).toc_url,
        final(book).volumes == old(book).volumes,
        final(book).images == old(book).images,
{
    let parts = parse_title(book.title.as_str());
    book.title = apply_title_style(&parts, style);
}

/// The table-of-contents URL found on the book page; a `NotFound` error when there is none.
pub fn toc_link(book: &Book) -> (res: Result<String, Error>)
    ensures
        match book.toc_url {
            Some(t) => res matches Ok(u) && u@ == t@,
            None => res matches Err(e) && e.kind == ErrorKind::NotFound && e.message@
                == "未找到目录链接"@,
        },
{
    match &book.toc_url {
        Some(t) => Ok(t.clone()),
        None => Err(error_of(ErrorKind::NotFound, "未找到目录链接")),
    }
}

/// Every chapter of `vols` with its volume and chapter index, volume by volume.
pub open spec fn flat_chapters(vols: Seq<VolumeV>) -> Seq<(int, int, ChapterV)>
    decreases vols.len(),
{
    if vols.len() == 0 {
        Seq::empty()
    } else {
        flat_chapters(vols.drop_last()) + vols.last().chapters.map(
            |ci: int, c: ChapterV| (vols.len() - 1, ci, c),
        )
    }
}

/// The abstract form of a list of indexed chapters.
pub open spec fn indexed_view(items: Seq<(usize, usize, Chapter)>) -> Seq<(int, int, ChapterV)> {
    items.map_values(|t: (usize, usize, Chapter)| (t.0 as int, t.1 as int, t.2@))
}

/// Every chapter of the book with its volume and chapter index, in reading order.
pub fn chapter_list(book: &Book) -> (res: Vec<(usize, usize, Chapter)>)
    ensures
        indexed_view(res@) == flat_chapters(volumes_view(book.volumes@)),
{
    let ghost all = volumes_view(book.volumes@);
    let mut res: Vec<(usize, usize, Chapter)> = Vec::new();
    let mut vi: usize = 0;
    while vi < book.volumes.len()
        invariant
            vi <= book.volumes.len(),
            all == volumes_view(book.volumes@),
            indexed_view(res@) == flat_chapters(all.take(vi as int)),
        decreases book.volumes.len() - vi,
    {
        let vol = &book.volumes[vi];
        let ghost chs = vol@.chapters;
        let ghost f = |ci: int, c: ChapterV| (vi as int, ci, c);
        assert(all.take(vi + 1).drop_last() =~= all.take(vi as int));
        assert(all.take(vi + 1).last() == vol@);
        let ghost start = indexed_view(res@);
        let mut ci: usize = 0;
        while ci < vol.chapters.len()
            invariant
                ci <= vol.chapters.len(),
                chs == vol@.chapters,
                chs.len() == vol.chapters.len(),
                f == (|ci: int, c: ChapterV| (vi as int, ci, c)),
                indexed_view(res@) == start + chs.take(ci as int).map(f),
            decreases vol.chapters.len() - ci,
        {
            let ghost before = indexed_view(res@);
            res.push((vi, ci, vol.chapters[ci].clone()));
            assert(chs.take(ci + 1).map(f) =~= chs.take(ci as int).map(f).push(f(ci as int, chs[ci as int])));
            assert(indexed_view(res@) =~= before.push((vi as int, ci as int, vol.chapters@[ci as int]@)));
            ci += 1;
        }
        assert(chs.take(ci as int) =~= chs);
        assert(indexed_view(res@) =~= flat_chapters(all.take(vi + 1)));
        vi += 1;
    }
    assert(all.take(vi as int) =~= all);
    res
}

/// The file name of image `j` of chapter `ci` of volume `vi`.
pub open spec fn image_name(vi: nat, ci: nat, j: nat) -> Seq<char> {
    decimal(vi) + "_"@ + decimal(ci) + "_"@ + decimal(j) + ".jpg"@
}

/// The images of chapter `ci` of volume `vi`: each URL with its file name.
pub open spec fn named_images(vi: nat, ci: nat, urls: Seq<Seq<char>>) -> Seq<(Seq<char>, Seq<char>)> {
    urls.map(|j: int, u: Seq<char>| (image_name(vi, ci, j as nat), u))
}

/// The abstract form of a list of string pairs.
pub open spec fn pair_views(items: Seq<(String, String)>) -> Seq<(Seq<char>, Seq<char>)> {
    items.map_values(|p: (String, String)| (p.0@, p.1@))
}

/// The file name of image `j` of chapter `ci` of volume `vi`, such as `0_3_1.jpg`.
pub fn image_file_name(vi: usize, ci: usize, j: usize) -> (s: String)
    ensures
        s@ == image_name(vi as nat, ci as nat, j as nat),
{
    let mut s = String::new();
    push_decimal(&mut s, vi);
    push_str(&mut s, "_");
    push_decimal(&mut s, ci);
    push_str(&mut s, "_");
    push_decimal(&mut s, j);
    push_str(&mut s, ".jpg");
    assert(s@ =~= image_name(vi as nat, ci as nat, j as nat));
    s
}

/// Names the images of chapter `ci` of volume `vi`: (file name, URL) in page order.
pub fn image_entries(vi: usize, ci: usize, urls: &Vec<String>) -> (res: Vec<(String, String)>)
    ensures
        pair_views(res@) == named_images(vi as nat, ci as nat, string_views(urls@)),
{
    let ghost us = string_views(urls@);
    let mut res: Vec<(String, String)> = Vec::new();
    let mut j: usize = 0;
    while j < urls.len()
        invariant
            j <= urls.len(),
            us == string_views(urls@),
            pair_views(res@) == named_images(vi as nat, ci as nat, us.take(j as int)),
        decreases urls.len() - j,
    {
        let ghost before = pair_views(res@);
        let name = image_file_name(vi, ci, j);
        res.push((name, urls[j].clone()));
        let ghost f = |k: int, u: Seq<char>| (image_name(vi as nat, ci as nat, k as nat), u);
        assert(us[j as int] == urls@[j as int]@);
        assert(us.take(j + 1) =~= us.take(j as int).push(us[j as int]));
        assert(us.take(j + 1).map(f) =~= us.take(j as int).map(f).push(f(j as int, us[j as int])));
        assert(pair_views(res@) =~= before.push(f(j as int, us[j as int])));
        j += 1;
    }
    assert(us.take(j as int) =~= us);
    res
}

/// The file names of a list of named images.
pub open spec fn image_names(vi: nat, ci: nat, n: nat) -> Seq<Seq<char>> {
    Seq::new(n, |j: int| image_name(vi, ci, j as nat))
}

/// Turns a downloaded chapter page into its XHTML page and its named images: the page of
/// `url` is read (see [`parse_chapter`]), its images are named after volume `vi`,
/// chapter `ci` and their order, and the page is built with `title` as heading.
pub fn render_chapter(title: &str, vi: usize, ci: usize, html: &str, url: &str) -> (res: Result<(String, Vec<(String, String)>), Error>)
    ensures
        match chapter_page(document_tokens(html@), url@) {
            Err((k, m)) => res matches Err(e) && e.kind == k && e.message@ == m,
            Ok((ps, us)) => res matches Ok(r) && r.0@ == chapter_xhtml(
                title@,
                ps,
                image_names(vi as nat, ci as nat, us.len()),
            ) && pair_views(r.1@) == named_images(vi as nat, ci as nat, us),
        },
        res matches Ok(r) ==> forall|j: int|
            0 <= j < r.1@.len() ==> {
                &&& #[trigger] r.1@[j].0@ == decimal(vi as nat) + "_"@ + decimal(ci as nat) + "_"@
                    + decimal(j as nat) + ".jpg"@
                &&& contains_seq(r.0@, "<img src=\"../Image/"@ + r.1@[j].0@ + "\" alt=\"\" />"@)
            },
{
    let (paragraphs, urls) = match parse_chapter(html, url) {
        Ok(p) => p,
        Err(e) => {
            return Err(e);
        },
    };
    let imgs = image_entries(vi, ci, &urls);
    assert(pair_views(imgs@).len() == imgs@.len());
    assert(string_views(urls@).len() == urls@.len());
    let mut names: Vec<String> = Vec::new();
    let mut j: usize = 0;
    while j < imgs.len()
        invariant
            j <= imgs.len(),
            imgs@.len() == urls@.len(),
            pair_views(imgs@) == named_images(vi as nat, ci as nat, string_views(urls@)),
            string_views(names@) == image_names(vi as nat, ci as nat, urls@.len()).take(j as int),
        decreases imgs.len() - j,
    {
        assert(pair_views(imgs@)[j as int].0 == imgs@[j as int].0@);
        assert(named_images(vi as nat, ci as nat, string_views(urls@))[j as int].0 == image_name(
            vi as nat,
            ci as nat,
            j as nat,
        ));
        let ghost before = string_views(names@);
        names.push(imgs[j].0.clone());
        assert(string_views(names@) =~= before.push(image_name(vi as nat, ci as nat, j as nat)));
        assert(string_views(names@) =~= image_names(vi as nat, ci as nat, urls@.len()).take(j + 1));
        j += 1;
    }
    assert(image_names(vi as nat, ci as nat, urls@.len()).take(j as int) =~= image_names(
        vi as nat,
        ci as nat,
        urls@.len(),
    ));
    let xhtml = build_chapter_xhtml(title, paragraphs.as_slice(), names.as_slice());
    proof {
        let us = string_views(urls@);
        assert forall|j: int| 0 <= j < imgs@.len() implies {
            &&& #[trigger] imgs@[j].0@ == decimal(vi as nat) + "_"@ + decimal(ci as nat) + "_"@
                + decimal(j as nat) + ".jpg"@
            &&& contains_seq(xhtml@, "<img src=\"../Image/"@ + imgs@[j].0@ + "\" alt=\"\" />"@)
        } by {
            assert(pair_views(imgs@)[j].0 == imgs@[j].0@);
            law_chapter_page_shows_every_image(
                title@,
                string_views(paragraphs@),
                vi as nat,
                ci as nat,
                us,
                j,
            );
            assert("<img src=\"../Image/"@ + imgs@[j].0@ + "\" alt=\"\" />"@ =~= "<img src=\"../Image/"@
                + decimal(vi as nat) + "_"@ + decimal(ci as nat) + "_"@ + decimal(j as nat) + ".jpg"@
                + "\" alt=\"\" />"@);
        }
    }
    Ok((xhtml, imgs))
}

/// A chapter page shows every image found on the chapter's page, in page order: the
/// chapter's images are the page's image URLs in order, image `j` of chapter `ci` of
/// volume `vi` is named `{vi}_{ci}_{j}.jpg`, and the page holds
/// `<img src="../Image/{vi}_{ci}_{j}.jpg" alt="" />` for it.
pub proof fn law_chapter_page_shows_every_image(
    title: Seq<char>,
    paragraphs: Seq<Seq<char>>,
    vi: nat,
    ci: nat,
    urls: Seq<Seq<char>>,
    j: int,
)
    requires
        0 <= j < urls.len(),
    ensures
        named_images(vi, ci, urls).len() == urls.len(),
        named_images(vi, ci, urls)[j].1 == urls[j],
        named_images(vi, ci, urls)[j].0 == decimal(vi) + "_"@ + decimal(ci) + "_"@ + decimal(
            j as nat,
        ) + ".jpg"@,
        contains_seq(
            chapter_xhtml(title, paragraphs, image_names(vi, ci, urls.len())),
            "<img src=\"../Image/"@ + decimal(vi) + "_"@ + decimal(ci) + "_"@ + decimal(j as nat)
                + ".jpg"@ + "\" alt=\"\" />"@,
        ),
{
    let name = decimal(vi) + "_"@ + decimal(ci) + "_"@ + decimal(j as nat) + ".jpg"@;
    let names = image_names(vi, ci, urls.len());
    assert(names[j] == name);
    lemma_image_name_plain(vi, ci, j as nat);
    let pre = "<img src=\"../Image/"@;
    let post = "\" alt=\"\" />\n"@;
    let img = pre + name + "\" alt=\"\" />"@;
    let w = xml_wrapped_all(names, pre, post);
    assert(contains_seq(w, img)) by {
        lemma_wrapped_has_item(names, pre, post, j);
        reveal_strlit("\" alt=\"\" />\n");
        reveal_strlit("\" alt=\"\" />");
        reveal_strlit("\n");
        assert(pre + xml_escaped(names[j]) + post =~= Seq::<char>::empty() + img + "\n"@);
        lemma_contains_middle(Seq::empty(), img, "\n"@);
        lemma_contains_trans(w, Seq::<char>::empty() + img + "\n"@, img);
    }
    let head = "<?xml version=\"1.0\" encoding=\"utf-8\"?>\n<!DOCTYPE html>\n<html xmlns=\"http://www.w3.org/1999/xhtml\">\n<head>\n  <title>"@
        + xml_escaped(title) + "</title>\n</head>\n<body>\n  <section>\n"@ + "<h3>"@ + xml_escaped(
        title,
    ) + "</h3>\n"@ + xml_wrapped_all(paragraphs, "<p>"@, "</p>\n"@);
    let tail = "  </section>\n</body>\n</html>\n"@;
    assert(chapter_xhtml(title, paragraphs, names) =~= head + w + tail);
    lemma_contains_within(w, img, head, tail);
    assert(img =~= "<img src=\"../Image/"@ + decimal(vi) + "_"@ + decimal(ci) + "_"@ + decimal(
        j as nat,
    ) + ".jpg"@ + "\" alt=\"\" />"@);
}

/// A chapter page carries the chapter's title as its document title and heading, and
/// every paragraph, escaped, as a `<p>` element.
pub proof fn law_chapter_page_shows_text(
    title: Seq<char>,
    paragraphs: Seq<Seq<char>>,
    images: Seq<Seq<char>>,
    k: int,
)
    ensures
        contains_seq(
            chapter_xhtml(title, paragraphs, images),
            "<title>"@ + xml_escaped(title) + "</title>"@,
        ),
        contains_seq(
            chapter_xhtml(title, paragraphs, images),
            "<h3>"@ + xml_escaped(title) + "</h3>"@,
        ),
        0 <= k < paragraphs.len() ==> contains_seq(
            chapter_xhtml(title, paragraphs, images),
            "<p>"@ + xml_escaped(paragraphs[k]) + "</p>"@,
        ),
{
    let page = chapter_xhtml(title, paragraphs, images);
    reveal_strlit("<?xml version=\"1.0\" encoding=\"utf-8\"?>\n<!DOCTYPE html>\n<html xmlns=\"http://www.w3.org/1999/xhtml\">\n<head>\n  <title>");
    reveal_strlit("<?xml version=\"1.0\" encoding=\"utf-8\"?>\n<!DOCTYPE html>\n<html xmlns=\"http://www.w3.org/1999/xhtml\">\n<head>\n  ");
    reveal_strlit("<title>");
    reveal_strlit("</title>\n</head>\n<body>\n  <section>\n");
    reveal_strlit("</title>");
    reveal_strlit("\n</head>\n<body>\n  <section>\n");
    reveal_strlit("</h3>\n");
    reveal_strlit("</h3>");
    reveal_strlit("\n");
    let h = "<?xml version=\"1.0\" encoding=\"utf-8\"?>\n<!DOCTYPE html>\n<html xmlns=\"http://www.w3.org/1999/xhtml\">\n<head>\n  "@;
    let t = "<title>"@ + xml_escaped(title) + "</title>"@;
    let wp = xml_wrapped_all(paragraphs, "<p>"@, "</p>\n"@);
    let wi = xml_wrapped_all(images, "<img src=\"../Image/"@, "\" alt=\"\" />\n"@);
    let end = "  </section>\n</body>\n</html>\n"@;
    let hd = "<h3>"@ + xml_escaped(title) + "</h3>"@;
    let after_t = "\n</head>\n<body>\n  <section>\n"@ + hd + "\n"@ + wp + wi + end;
    assert(page =~= h + t + after_t);
    lemma_contains_middle(h, t, after_t);
    let before_h = h + t + "\n</head>\n<body>\n  <section>\n"@;
    let after_h = "\n"@ + wp + wi + end;
    assert(page =~= before_h + hd + after_h);
    lemma_contains_middle(before_h, hd, after_h);
    if 0 <= k < paragraphs.len() {
        let p = "<p>"@ + xml_escaped(paragraphs[k]) + "</p>"@;
        lemma_wrapped_has_item(paragraphs, "<p>"@, "</p>\n"@, k);
        reveal_strlit("</p>\n");
        reveal_strlit("</p>");
        assert("<p>"@ + xml_escaped(paragraphs[k]) + "</p>\n"@ =~= p + "\n"@);
        crate::package::lemma_line_holds(p);
        lemma_contains_trans(wp, p + "\n"@, p);
        let pre = h + t + "\n</head>\n<body>\n  <section>\n"@ + hd + "\n"@;
        assert(page =~= pre + wp + (wi + end));
        lemma_contains_within(wp, p, pre, wi + end);
    }
}

/// An image file name holds no markup characters, so escaping leaves it as it is.
proof fn lemma_image_name_plain(vi: nat, ci: nat, j: nat)
    ensures
        xml_escaped(image_name(vi, ci, j)) == image_name(vi, ci, j),
{
    reveal_strlit("_");
    reveal_strlit(".jpg");
    lemma_decimal_plain(vi);
    lemma_decimal_plain(ci);
    lemma_decimal_plain(j);
    assert(forall|i: int| 0 <= i < "_"@.len() ==> xml_plain(#[trigger] "_"@[i]));
    assert(forall|i: int| 0 <= i < ".jpg"@.len() ==> xml_plain(#[trigger] ".jpg"@[i]));
    lemma_plain_concat(decimal(vi), "_"@);
    lemma_plain_concat(decimal(vi) + "_"@, decimal(ci));
    lemma_plain_concat(decimal(vi) + "_"@ + decimal(ci), "_"@);
    lemma_plain_concat(decimal(vi) + "_"@ + decimal(ci) + "_"@, decimal(j));
    lemma_plain_concat(decimal(vi) + "_"@ + decimal(ci) + "_"@ + decimal(j), ".jpg"@);
    lemma_escape_plain(image_name(vi, ci, j));
}

/// The archive file of chapter `ci` of volume `vi`: `OEBPS/Text/{vi}_{ci}.xhtml`.
pub fn chapter_file(vi: usize, ci: usize, xhtml: &str) -> (f: EpubFile)
    ensures
        f.path@ == "OEBPS/"@ + text_id(vi as nat, ci as nat),
        f.path@ == "OEBPS/Text/"@ + decimal(vi as nat) + "_"@ + decimal(ci as nat) + ".xhtml"@,
        f.bytes@ == vstd::utf8::encode_utf8(xhtml@),
{
    let mut path = "OEBPS/".to_owned();
    push_text_id(&mut path, vi, ci);
    proof {
        reveal_strlit("OEBPS/");
        reveal_strlit("OEBPS/Text/");
        reveal_strlit("Text/");
        assert(path@ =~= "OEBPS/Text/"@ + decimal(vi as nat) + "_"@ + decimal(ci as nat) + ".xhtml"@);
    }
    EpubFile { path, bytes: utf8_of(xhtml) }
}

/// The container document that points readers to the package document.
pub open spec fn container_xml() -> Seq<char> {
    "<?xml version=\"1.0\" encoding=\"UTF-8\"?>\n<container version=\"1.0\" xmlns=\"urn:oasis:names:tc:opendocument:xmlns:container\">\n    <rootfiles>\n        <rootfile full-path=\"OEBPS/content.opf\" media-type=\"application/oebps-package+xml\"/>\n   </rootfiles>\n</container>\n"@
}

/// The package files of `book` for the chosen EPUB version.
pub open spec fn package_files(book: &Book, version: EpubVersion) -> Seq<(Seq<char>, Seq<u8>)> {
    match version {
        EpubVersion::V3 => seq![
            ("OEBPS/content.opf"@, vstd::utf8::encode_utf8(crate::gen_v3::opf_text(book))),
            ("OEBPS/nav.xhtml"@, vstd::utf8::encode_utf8(crate::gen_v3::nav_text(book))),
        ],
        EpubVersion::V2 => seq![
            ("OEBPS/content.opf"@, vstd::utf8::encode_utf8(crate::gen_v2::opf_text(book))),
            ("OEBPS/toc.ncx"@, vstd::utf8::encode_utf8(crate::gen_v2::ncx_text(book))),
        ],
    }
}

/// The archive files of the downloaded images, under `OEBPS/Image/`.
pub open spec fn image_files(images: Seq<(String, Vec<u8>)>) -> Seq<(Seq<char>, Seq<u8>)> {
    images.map_values(|p: (String, Vec<u8>)| ("OEBPS/Image/"@ + p.0@, p.1@))
}

/// The cover file, when the book has a cover.
pub open spec fn cover_files(cover: Option<Vec<u8>>) -> Seq<(Seq<char>, Seq<u8>)> {
    match cover {
        Some(c) => seq![("OEBPS/Image/cover.jpg"@, c@)],
        None => Seq::empty(),
    }
}

/// Everything an EPUB of `book` holds, in archive order: the `mimetype`, the container,
/// the package files of `version`, the chapter pages, the images and the cover.
pub open spec fn book_files(book: &Book, version: EpubVersion, chapters: Seq<EpubFile>, images: Seq<(String, Vec<u8>)>) -> Seq<(Seq<char>, Seq<u8>)> {
    seq![
        ("mimetype"@, vstd::utf8::encode_utf8("application/epub+zip"@)),
        ("META-INF/container.xml"@, vstd::utf8::encode_utf8(container_xml())),
    ] + package_files(book, version) + file_views(chapters) + image_files(images) + cover_files(
        book.cover,
    )
}

/// Lists the files of the EPUB of `book`: `mimetype` first, the container, the package
/// files of `version`, then `chapters`, the downloaded `images` and the cover.
pub fn epub_files(book: &Book, version: EpubVersion, chapters: Vec<EpubFile>, images: &Vec<(String, Vec<u8>)>) -> (res: Result<Vec<EpubFile>, Error>)
    ensures
        res matches Ok(files) && file_views(files@) == book_files(book, version, chapters@, images@),
{
    let mut files: Vec<EpubFile> = Vec::new();
    files.push(EpubFile { path: "mimetype".to_owned(), bytes: utf8_of("application/epub+zip") });
    files.push(
        EpubFile {
            path: "META-INF/container.xml".to_owned(),
            bytes: utf8_of(
                "<?xml version=\"1.0\" encoding=\"UTF-8\"?>\n<container version=\"1.0\" xmlns=\"urn:oasis:names:tc:opendocument:xmlns:container\">\n    <rootfiles>\n        <rootfile full-path=\"OEBPS/content.opf\" media-type=\"application/oebps-package+xml\"/>\n   </rootfiles>\n</container>\n",
            ),
        },
    );
    let generated = match version {
        EpubVersion::V3 => crate::gen_v3::generate(book),
        EpubVersion::V2 => crate::gen_v2::generate(book),
    };
    let mut generated = match generated {
        Ok(g) => g,
        Err(e) => {
            return Err(e);
        },
    };
    let ghost head = file_views(files@);
    let ghost gen = file_views(generated@);
    assert(gen =~= package_files(book, version));
    files.append(&mut generated);
    assert(file_views(files@) =~= head + gen);
    let ghost with_gen = file_views(files@);
    let ghost chapters0 = chapters@;
    let mut chapters = chapters;
    let ghost chs = file_views(chapters@);
    files.append(&mut chapters);
    assert(file_views(files@) =~= with_gen + chs);
    let mut k: usize = 0;
    let ghost with_chs = file_views(files@);
    while k < images.len()
        invariant
            k <= images.len(),
            file_views(files@) == with_chs + image_files(images@.take(k as int)),
        decreases images.len() - k,
    {
        let ghost before = file_views(files@);
        let mut path = "OEBPS/Image/".to_owned();
        push_str(&mut path, images[k].0.as_str());
        files.push(EpubFile { path, bytes: images[k].1.clone() });
        assert(image_files(images@.take(k + 1)) =~= image_files(images@.take(k as int)).push(
            ("OEBPS/Image/"@ + images@[k as int].0@, images@[k as int].1@),
        ));
        assert(file_views(files@) =~= before.push(
            ("OEBPS/Image/"@ + images@[k as int].0@, images@[k as int].1@),
        ));
        k += 1;
    }
    assert(images@.take(k as int) =~= images@);
    let ghost with_imgs = file_views(files@);
    match &book.cover {
        Some(c) => {
            files.push(EpubFile { path: "OEBPS/Image/cover.jpg".to_owned(), bytes: c.clone() });
            assert(file_views(files@) =~= with_imgs + cover_files(book.cover));
        },
        None => {
            assert(file_views(files@) =~= with_imgs + cover_files(book.cover));
        },
    }
    assert(file_views(files@) =~= book_files(book, version, chapters0, images@));
    Ok(files)
}

/// The path the EPUB of a book titled `title` is written to: the title with characters
/// that file names cannot hold replaced and whitespace trimmed, then `.epub`.
pub fn output_path(title: &str) -> (p: String)
    ensures
        p@ == trimmed(filename_chars(title@)) + ".epub"@,
{
    let mut p = sanitize_filename(title);
    push_str(&mut p, ".epub");
    p
}


// ---------------------------------------------------------------------------
// Laws
// ---------------------------------------------------------------------------

/// Selecting everything keeps every volume and chapter as it was.
pub proof fn law_select_all_keeps_book(vols: Seq<VolumeV>)
    ensures
        selection_result(vols, SelectionV::All) == vols,
{
}

/// A selection never keeps a volume without chapters, and keeps volumes in order
/// with names unchanged.
pub proof fn law_selection_drops_empty_volumes(vols: Seq<VolumeV>, sel: SelectionV)
    ensures
        forall|i: int|
            0 <= i < selected_volumes(vols, sel).len() ==> (#[trigger] selected_volumes(
                vols,
                sel,
            )[i]).chapters.len() > 0,
        selected_volumes(vols, sel).len() <= vols.len(),
    decreases vols.len(),
{
    if vols.len() > 0 {
        law_selection_drops_empty_volumes(vols.drop_last(), sel);
    }
}

/// The chapters of the volumes, in reading order.
pub open spec fn all_chapters(vols: Seq<VolumeV>) -> Seq<ChapterV>
    decreases vols.len(),
{
    if vols.len() == 0 {
        Seq::empty()
    } else {
        all_chapters(vols.drop_last()) + vols.last().chapters
    }
}

/// The chapters `chs`, each with its 1-based number over the whole book, the first one
/// coming after `base` others.
pub open spec fn numbered_from(chs: Seq<ChapterV>, base: nat) -> Seq<(nat, ChapterV)> {
    Seq::new(chs.len(), |i: int| ((base + i + 1) as nat, chs[i]))
}

/// There are as many chapters in reading order as the count says.
proof fn lemma_all_chapters_len(vols: Seq<VolumeV>)
    ensures
        all_chapters(vols).len() == chapter_count(vols),
    decreases vols.len(),
{
    if vols.len() > 0 {
        lemma_all_chapters_len(vols.drop_last());
    }
}

/// The chapters one volume keeps are its numbered chapters whose number is selected.
proof fn lemma_kept_chapters_filter(chs: Seq<ChapterV>, sel: SelectionV, base: nat)
    ensures
        kept_chapters(chs, sel, base) == numbered_from(chs, base).filter(
            |p: (nat, ChapterV)| is_selected(sel, p.0),
        ).map_values(|p: (nat, ChapterV)| p.1),
    decreases chs.len(),
{
    let pred = |p: (nat, ChapterV)| is_selected(sel, p.0);
    let snd = |p: (nat, ChapterV)| p.1;
    if chs.len() == 0 {
        reveal(Seq::filter);
        assert(numbered_from(chs, base).filter(pred) =~= Seq::<(nat, ChapterV)>::empty());
        assert(numbered_from(chs, base).filter(pred).map_values(snd) =~= Seq::<ChapterV>::empty());
    } else {
        let front = chs.drop_last();
        lemma_kept_chapters_filter(front, sel, base);
        let x = ((base + chs.len()) as nat, chs.last());
        assert(numbered_from(chs, base) =~= numbered_from(front, base).push(x));
        numbered_from(front, base).lemma_filter_push(x, pred);
        let f0 = numbered_from(front, base).filter(pred);
        if pred(x) {
            assert(f0.push(x).map_values(snd) =~= f0.map_values(snd).push(chs.last()));
        }
    }
}

/// The chapters a selection keeps, in reading order, are the book's numbered chapters
/// whose number is selected.
proof fn lemma_selected_chapters_filter(vols: Seq<VolumeV>, sel: SelectionV)
    ensures
        all_chapters(selected_volumes(vols, sel)) == numbered_from(all_chapters(vols), 0).filter(
            |p: (nat, ChapterV)| is_selected(sel, p.0),
        ).map_values(|p: (nat, ChapterV)| p.1),
    decreases vols.len(),
{
    let pred = |p: (nat, ChapterV)| is_selected(sel, p.0);
    let snd = |p: (nat, ChapterV)| p.1;
    if vols.len() == 0 {
        reveal(Seq::filter);
        assert(numbered_from(all_chapters(vols), 0).filter(pred) =~= Seq::<(nat, ChapterV)>::empty());
        assert(numbered_from(all_chapters(vols), 0).filter(pred).map_values(snd)
            =~= Seq::<ChapterV>::empty());
    } else {
        let front = vols.drop_last();
        let last = vols.last();
        lemma_selected_chapters_filter(front, sel);
        lemma_all_chapters_len(front);
        let base = chapter_count(front);
        lemma_kept_chapters_filter(last.chapters, sel, base);
        let a = numbered_from(all_chapters(front), 0);
        let b = numbered_from(last.chapters, base);
        assert(numbered_from(all_chapters(vols), 0) =~= a + b);
        Seq::filter_distributes_over_add(a, b, pred);
        assert((a.filter(pred) + b.filter(pred)).map_values(snd) =~= a.filter(pred).map_values(snd)
            + b.filter(pred).map_values(snd));
        let kept = kept_chapters(last.chapters, sel, base);
        let prev = selected_volumes(front, sel);
        if kept.len() > 0 {
            let sv = prev.push(VolumeV { name: last.name, chapters: kept });
            assert(sv.drop_last() =~= prev);
            assert(all_chapters(sv) =~= all_chapters(prev) + kept);
        } else {
            assert(all_chapters(prev) + kept =~= all_chapters(prev));
        }
    }
}

/// A chapter number is selected by a list exactly when the list holds it.
proof fn lemma_listed_selected(ids: Seq<usize>, n: nat)
    ensures
        is_selected(SelectionV::Chapters(ids), n) == ids.map_values(|x: usize| x as nat).contains(n),
{
    let m = ids.map_values(|x: usize| x as nat);
    assert(m.len() == ids.len());
    let sv = SelectionV::Chapters(ids);
    if is_selected(sv, n) {
        let k = choose|k: int| 0 <= k < sv->0.len() && sv->0[k] as nat == n;
        assert(m[k] == n);
    }
    if m.contains(n) {
        let k = choose|k: int| 0 <= k < m.len() && m[k] == n;
        assert(0 <= k < ids.len() && ids[k] as nat == n);
        lemma_listed_number_selected(ids, n, k);
    }
}

/// A number at some position of the list is selected by it.
proof fn lemma_listed_number_selected(ids: Seq<usize>, n: nat, k: int)
    requires
        0 <= k < ids.len(),
        ids[k] as nat == n,
    ensures
        is_selected(SelectionV::Chapters(ids), n),
{
    let sv = SelectionV::Chapters(ids);
    assert(sv->0[k] as nat == n);
}

/// With a list of chapter numbers, the chapters kept are exactly those whose 1-based
/// number over the whole book is in the list, in reading order: every listed chapter
/// is kept, however many numbers the list has and in whatever order, and no other.
pub proof fn law_listed_chapters_kept(vols: Seq<VolumeV>, ids: Seq<usize>)
    ensures
        all_chapters(selection_result(vols, SelectionV::Chapters(ids))) == Seq::new(
            all_chapters(vols).len(),
            |i: int| ((i + 1) as nat, all_chapters(vols)[i]),
        ).filter(|p: (nat, ChapterV)| ids.map_values(|x: usize| x as nat).contains(p.0)).map_values(
            |p: (nat, ChapterV)| p.1,
        ),
{
    let sel = SelectionV::Chapters(ids);
    lemma_selected_chapters_filter(vols, sel);
    let listed = |p: (nat, ChapterV)| ids.map_values(|x: usize| x as nat).contains(p.0);
    let pred = |p: (nat, ChapterV)| is_selected(sel, p.0);
    let m = ids.map_values(|x: usize| x as nat);
    assert forall|n: nat| #[trigger] is_selected(sel, n) == m.contains(n) by {
        lemma_listed_selected(ids, n);
    }
    assert forall|p: (nat, ChapterV)| #[trigger] pred(p) == listed(p) by {
        assert(is_selected(sel, p.0) == m.contains(p.0));
    }
    assert(pred =~= listed);
    assert(numbered_from(all_chapters(vols), 0) =~= Seq::new(
        all_chapters(vols).len(),
        |i: int| ((i + 1) as nat, all_chapters(vols)[i]),
    ));
}

/// The list of chapters to download holds every chapter of the book once, in reading
/// order, each with its own volume and chapter index: there are as many entries as
/// chapters, and the entry after the chapters of the earlier volumes and `ci` more is
/// `(vi, ci, chapter ci of volume vi)`.
pub proof fn law_chapter_list_indexes(vols: Seq<VolumeV>, vi: int, ci: int)
    ensures
        flat_chapters(vols).len() == chapter_count(vols),
        0 <= vi < vols.len() && 0 <= ci < vols[vi].chapters.len() ==> flat_chapters(vols)[chapter_count(
            vols.take(vi),
        ) + ci] == (vi, ci, vols[vi].chapters[ci]),
    decreases vols.len(),
{
    if vols.len() > 0 {
        let front = vols.drop_last();
        law_chapter_list_indexes(front, vi, ci);
        let tail = vols.last().chapters.map(|c: int, ch: ChapterV| (vols.len() - 1, c, ch));
        assert(flat_chapters(vols) =~= flat_chapters(front) + tail);
        if 0 <= vi < vols.len() && 0 <= ci < vols[vi].chapters.len() {
            if vi == vols.len() - 1 {
                assert(front =~= vols.take(vi));
                assert(tail[ci] == (vi, ci, vols[vi].chapters[ci]));
            } else {
                assert(front.take(vi) =~= vols.take(vi));
                assert(front[vi] == vols[vi]);
                lemma_chapter_count_prefix(front, vi + 1);
                assert(front.take(vi + 1).drop_last() =~= front.take(vi));
                assert(front.take(vi + 1).last() == front[vi]);
            }
        }
    }
}

/// With a range of chapter numbers, the chapters kept are exactly those whose 1-based
/// number over the whole book lies in the range, bounds included, in reading order.
pub proof fn law_range_chapters_kept(vols: Seq<VolumeV>, start: nat, end: nat)
    ensures
        all_chapters(selection_result(vols, SelectionV::Range { start, end })) == Seq::new(
            all_chapters(vols).len(),
            |i: int| ((i + 1) as nat, all_chapters(vols)[i]),
        ).filter(|p: (nat, ChapterV)| start <= p.0 <= end).map_values(|p: (nat, ChapterV)| p.1),
{
    let sel = SelectionV::Range { start, end };
    lemma_selected_chapters_filter(vols, sel);
    let inside = |p: (nat, ChapterV)| start <= p.0 <= end;
    let pred = |p: (nat, ChapterV)| is_selected(sel, p.0);
    assert(pred =~= inside);
    assert(numbered_from(all_chapters(vols), 0) =~= Seq::new(
        all_chapters(vols).len(),
        |i: int| ((i + 1) as nat, all_chapters(vols)[i]),
    ));
}

/// The EPUB holds, besides its package files, every chapter page it was given, every
/// downloaded image at `OEBPS/Image/{name}`, and the cover, when there is one, at
/// `OEBPS/Image/cover.jpg`.
pub proof fn law_epub_holds_pages_images_cover(
    book: &Book,
    version: EpubVersion,
    chapters: Seq<EpubFile>,
    images: Seq<(String, Vec<u8>)>,
)
    ensures
        forall|k: int|
            0 <= k < chapters.len() ==> book_files(book, version, chapters, images).contains(
                ((#[trigger] chapters[k]).path@, chapters[k].bytes@),
            ),
        forall|k: int|
            0 <= k < images.len() ==> book_files(book, version, chapters, images).contains(
                ("OEBPS/Image/"@ + (#[trigger] images[k]).0@, images[k].1@),
            ),
        book.cover matches Some(c) ==> book_files(book, version, chapters, images).contains(
            ("OEBPS/Image/cover.jpg"@, c@),
        ),
{
    let head = seq![
        ("mimetype"@, vstd::utf8::encode_utf8("application/epub+zip"@)),
        ("META-INF/container.xml"@, vstd::utf8::encode_utf8(container_xml())),
    ] + package_files(book, version);
    let cf = file_views(chapters);
    let imf = image_files(images);
    let all = book_files(book, version, chapters, images);
    assert(all =~= head + cf + imf + cover_files(book.cover));
    assert forall|k: int| 0 <= k < chapters.len() implies all.contains(
        ((#[trigger] chapters[k]).path@, chapters[k].bytes@),
    ) by {
        assert(cf[k] == (chapters[k].path@, chapters[k].bytes@));
        assert(all[head.len() + k] == cf[k]);
    }
    assert forall|k: int| 0 <= k < images.len() implies all.contains(
        ("OEBPS/Image/"@ + (#[trigger] images[k]).0@, images[k].1@),
    ) by {
        assert(imf[k] == ("OEBPS/Image/"@ + images[k].0@, images[k].1@));
        assert(all[head.len() + cf.len() + k] == imf[k]);
    }
    if let Some(c) = book.cover {
        assert(all[(head.len() + cf.len() + imf.len()) as int] == ("OEBPS/Image/cover.jpg"@, c@));
    }
}

/// Every EPUB starts with its `mimetype` file, and that file alone is stored
/// uncompressed in the archive.
pub proof fn law_mimetype_first_and_stored(book: &Book, version: EpubVersion, chapters: Seq<EpubFile>, images: Seq<(String, Vec<u8>)>)
    ensures
        ({
            let e = crate::archive::entries_of(book_files(book, version, chapters, images));
            &&& e[0].0 == "mimetype"@ && e[0].1
            &&& forall|i: int| 0 < i < e.len() ==> !(#[trigger] e[i]).1
        }),
{
}

// ---------------------------------------------------------------------------
// Running a download
// ---------------------------------------------------------------------------

/// Before each chapter or image is fetched: go on, or stop with the `Cancelled` error
/// "用户取消下载" once the user cancelled the download.
pub fn check_cancelled(cancelled: bool) -> (res: Result<(), Error>)
    ensures
        !cancelled ==> res is Ok,
        cancelled ==> (res matches Err(e) && e.kind == ErrorKind::Cancelled && e.message@
            == "用户取消下载"@),
{
    if cancelled {
        Err(error_of(ErrorKind::Cancelled, "用户取消下载"))
    } else {
        Ok(())
    }
}

/// The images whose download succeeded, in order, each with its name.
pub open spec fn kept_images(rs: Seq<(String, Result<Vec<u8>, Error>)>) -> Seq<(Seq<char>, Seq<u8>)>
    decreases rs.len(),
{
    if rs.len() == 0 {
        Seq::empty()
    } else {
        let prev = kept_images(rs.drop_last());
        match rs.last().1 {
            Ok(b) => prev.push((rs.last().0@, b@)),
            Err(_) => prev,
        }
    }
}

/// How many image downloads failed.
pub open spec fn failed_count(rs: Seq<(String, Result<Vec<u8>, Error>)>) -> nat
    decreases rs.len(),
{
    if rs.len() == 0 {
        0
    } else {
        failed_count(rs.drop_last()) + if rs.last().1 is Err {
            1nat
        } else {
            0nat
        }
    }
}

/// The abstract form of a list of named images.
pub open spec fn named_bytes(v: Seq<(String, Vec<u8>)>) -> Seq<(Seq<char>, Seq<u8>)> {
    v.map_values(|p: (String, Vec<u8>)| (p.0@, p.1@))
}

/// Sorts the outcomes of the image downloads (name and bytes or error, in the order
/// they came in): the images that downloaded, kept in that order, and how many failed,
/// which are skipped.
pub fn collect_images(results: &Vec<(String, Result<Vec<u8>, Error>)>) -> (r: (Vec<(String, Vec<u8>)>, usize))
    ensures
        named_bytes(r.0@) == kept_images(results@),
        r.1 == failed_count(results@),
{
    let mut kept: Vec<(String, Vec<u8>)> = Vec::new();
    let mut failed: usize = 0;
    let mut i: usize = 0;
    while i < results.len()
        invariant
            i <= results.len(),
            failed <= i,
            named_bytes(kept@) == kept_images(results@.take(i as int)),
            failed == failed_count(results@.take(i as int)),
        decreases results.len() - i,
    {
        assert(results@.take(i + 1).drop_last() =~= results@.take(i as int));
        let ghost before = named_bytes(kept@);
        match &results[i].1 {
            Ok(b) => {
                let name = results[i].0.clone();
                kept.push((name, b.clone()));
                assert(named_bytes(kept@) =~= before.push((results@[i as int].0@, b@)));
            },
            Err(_) => {
                failed = failed + 1;
            },
        }
        i += 1;
    }
    assert(results@.take(i as int) =~= results@);
    (kept, failed)
}

} // verus!
