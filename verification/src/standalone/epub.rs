//! The EPUB writer of the standalone downloader: chapter pages with a stylesheet, the
//! package and navigation documents, and the archive.
use vstd::prelude::*;

use crate::archive::{
    contents_fit, distinct_paths, entries_of, entry_limit, file_views, fits_in_zip, pack_files,
    paths_fit, zip_archive, PackError,
};
use crate::book::{container_xml, cover_files};
use crate::model::{volumes_view, Chapter as PlainChapter, EpubFile, Volume as PlainVolume};
use crate::package::{
    lemma_attr_wrapped_has_item, lemma_line_holds, lemma_wrapped_has_item,
    lemma_each_chapter_has, lemma_image_item_shape, lemma_image_items_has,
    lemma_nav_chapter_shape, lemma_nav_items_has, lemma_spine_item_shape, lemma_text_item_shape,
    manifest_image_item, nav_chapter,
    attr_wrapped_all, each_chapter, image_items, manifest_text_item, names_of, nav_items,
    push_attr_wrapped, push_image_items, push_nav_items, push_text_id, push_text_items,
    push_xml_wrapped, spine_item, string_views, text_id, xml_wrapped_all,
};
use crate::standalone::error::DownloadError;
use crate::standalone::model::{volumes_of, Book, Volume};
use crate::text::{
    contains_seq, decimal, lemma_contains_after, lemma_contains_middle, lemma_contains_trans,
    lemma_contains_within,
    attr_escaped, filename_chars, push_attr_escaped, push_str, push_xml_escaped, trimmed,
    utf8_of, xml_escaped,
};

verus! {

/// The XHTML page of one chapter: its title as heading, one paragraph per text
/// paragraph, then the images by file name; the page links the book's stylesheet.
pub open spec fn page_xhtml(title: Seq<char>, paragraphs: Seq<Seq<char>>, images: Seq<Seq<char>>) -> Seq<char> {
    "<?xml version=\"1.0\" encoding=\"utf-8\"?>\n<!DOCTYPE html>\n<html xmlns=\"http://www.w3.org/1999/xhtml\">\n<head>\n  <title>"@
        + xml_escaped(title)
        + "</title>\n  <link rel=\"stylesheet\" type=\"text/css\" href=\"../Style/style.css\" />\n</head>\n<body>\n  <section>\n"@
        + "<h3>"@ + xml_escaped(title) + "</h3>\n"@ + xml_wrapped_all(paragraphs, "<p>"@, "</p>\n"@)
        + attr_wrapped_all(images, "<img src=\"../Image/"@, "\" alt=\"\" />\n"@)
        + "  </section>\n</body>\n</html>\n"@
}

/// The XHTML page of one chapter, images referred to by file name under `../Image/`.
pub fn build_chapter_xhtml(title: &str, paragraphs: &[String], image_names: &[String]) -> (res: String)
    ensures
        res@ == page_xhtml(title@, string_views(paragraphs@), string_views(image_names@)),
{
    let mut body = String::new();
    push_str(&mut body, "<h3>");
    push_xml_escaped(&mut body, title);
    push_str(&mut body, "</h3>\n");
    push_xml_wrapped(&mut body, paragraphs, "<p>", "</p>\n");
    push_attr_wrapped(&mut body, image_names, "<img src=\"../Image/", "\" alt=\"\" />\n");
    let mut out = String::new();
    push_str(
        &mut out,
        "<?xml version=\"1.0\" encoding=\"utf-8\"?>\n<!DOCTYPE html>\n<html xmlns=\"http://www.w3.org/1999/xhtml\">\n<head>\n  <title>",
    );
    push_xml_escaped(&mut out, title);
    push_str(
        &mut out,
        "</title>\n  <link rel=\"stylesheet\" type=\"text/css\" href=\"../Style/style.css\" />\n</head>\n<body>\n  <section>\n",
    );
    push_str(&mut out, body.as_str());
    push_str(&mut out, "  </section>\n</body>\n</html>\n");
    assert(out@ =~= page_xhtml(title@, string_views(paragraphs@), string_views(image_names@)));
    out
}

/// `s` with the five XML special characters escaped.
pub fn escape_xml(s: &str) -> (res: String)
    ensures
        res@ == xml_escaped(s@),
{
    let mut res = String::new();
    push_xml_escaped(&mut res, s);
    res
}

/// `s` escaped for an attribute value: `&` and `"`.
pub fn escape_attr(s: &str) -> (res: String)
    ensures
        res@ == attr_escaped(s@),
{
    let mut res = String::new();
    push_attr_escaped(&mut res, s);
    res
}

/// The volumes as names and chapter titles and URLs.
fn plain_volumes(vols: &Vec<Volume>) -> (res: Vec<PlainVolume>)
    ensures
        volumes_view(res@) == volumes_of(vols@),
{
    let mut res: Vec<PlainVolume> = Vec::new();
    let mut i: usize = 0;
    while i < vols.len()
        invariant
            i <= vols.len(),
            volumes_view(res@) == volumes_of(vols@).take(i as int),
        decreases vols.len() - i,
    {
        let vol = &vols[i];
        let mut chapters: Vec<PlainChapter> = Vec::new();
        let mut j: usize = 0;
        while j < vol.chapters.len()
            invariant
                j <= vol.chapters.len(),
                chapters@.map_values(|c: PlainChapter| c@) == vol@.chapters.take(j as int),
            decreases vol.chapters.len() - j,
        {
            let ch = &vol.chapters[j];
            let ghost before = chapters@.map_values(|c: PlainChapter| c@);
            chapters.push(PlainChapter::new(ch.title.clone(), ch.url.clone()));
            assert(chapters@.map_values(|c: PlainChapter| c@) =~= before.push(ch@));
            assert(vol@.chapters.take(j + 1) =~= vol@.chapters.take(j as int).push(ch@));
            j += 1;
        }
        assert(vol@.chapters.take(j as int) =~= vol@.chapters);
        let ghost before = volumes_view(res@);
        res.push(PlainVolume { name: vol.name.clone(), chapters });
        assert(volumes_view(res@) =~= before.push(vol@));
        assert(volumes_of(vols@).take(i + 1) =~= volumes_of(vols@).take(i as int).push(vol@));
        i += 1;
    }
    assert(volumes_of(vols@).take(i as int) =~= volumes_of(vols@));
    res
}

/// The manifest of the package document: cover, stylesheet and navigation entries,
/// then every chapter page and every image.
pub open spec fn manifest_of(book: &Book) -> Seq<char> {
    "  <item id=\"cover\" href=\"Image/cover.jpg\" media-type=\"image/jpeg\" properties=\"cover-image\" />"@
        + "\n"@ + "  <item id=\"style\" href=\"Style/style.css\" media-type=\"text/css\" />"@ + "\n"@
        + "  <item id=\"nav\" href=\"nav.xhtml\" media-type=\"application/xhtml+xml\" properties=\"nav\" />"@
        + "\n"@ + each_chapter(
        volumes_of(book.volumes@),
        |vi: nat, ci: nat| manifest_text_item(vi, ci),
    ) + image_items(names_of(book.images@))
}

/// The package document (`content.opf`) of `book`.
pub open spec fn package_text(book: &Book) -> Seq<char> {
    "<?xml version=\"1.0\" encoding=\"utf-8\"?>\n<package xmlns=\"http://www.idpf.org/2007/opf\" version=\"3.0\" unique-identifier=\"PrimaryID\">\n  <metadata xmlns:dc=\"http://purl.org/dc/elements/1.1/\" xmlns:opf=\"http://www.idpf.org/2007/opf\">\n    <dc:title>"@
        + xml_escaped(book.title@)
        + "</dc:title>\n    <dc:identifier opf:scheme=\"ISBN\"/>\n    <dc:language>zh-CN</dc:language>\n    <dc:creator>"@
        + xml_escaped(book.author@) + "</dc:creator>\n    <dc:description>"@ + xml_escaped(
        book.intro@,
    ) + "</dc:description>\n  </metadata>\n  <manifest>\n"@ + manifest_of(book)
        + "  </manifest>\n  <spine toc=\"ncx\">\n"@ + each_chapter(
        volumes_of(book.volumes@),
        |vi: nat, ci: nat| spine_item(vi, ci),
    ) + "  </spine>\n</package>\n"@
}

/// The package document (`content.opf`) of `book`.
pub fn build_opf(book: &Book) -> (res: String)
    ensures
        res@ == package_text(book),
{
    let vols = plain_volumes(&book.volumes);
    let mut manifest = String::new();
    let mut spine = String::new();
    push_str(
        &mut manifest,
        "  <item id=\"cover\" href=\"Image/cover.jpg\" media-type=\"image/jpeg\" properties=\"cover-image\" />",
    );
    push_str(&mut manifest, "\n");
    push_str(&mut manifest, "  <item id=\"style\" href=\"Style/style.css\" media-type=\"text/css\" />");
    push_str(&mut manifest, "\n");
    push_str(
        &mut manifest,
        "  <item id=\"nav\" href=\"nav.xhtml\" media-type=\"application/xhtml+xml\" properties=\"nav\" />",
    );
    push_str(&mut manifest, "\n");
    push_text_items(&mut manifest, &mut spine, &vols);
    push_image_items(&mut manifest, &book.images);
    assert(manifest@ =~= manifest_of(book));
    let mut out = String::new();
    push_str(
        &mut out,
        "<?xml version=\"1.0\" encoding=\"utf-8\"?>\n<package xmlns=\"http://www.idpf.org/2007/opf\" version=\"3.0\" unique-identifier=\"PrimaryID\">\n  <metadata xmlns:dc=\"http://purl.org/dc/elements/1.1/\" xmlns:opf=\"http://www.idpf.org/2007/opf\">\n    <dc:title>",
    );
    push_xml_escaped(&mut out, book.title.as_str());
    push_str(
        &mut out,
        "</dc:title>\n    <dc:identifier opf:scheme=\"ISBN\"/>\n    <dc:language>zh-CN</dc:language>\n    <dc:creator>",
    );
    push_xml_escaped(&mut out, book.author.as_str());
    push_str(&mut out, "</dc:creator>\n    <dc:description>");
    push_xml_escaped(&mut out, book.intro.as_str());
    push_str(&mut out, "</dc:description>\n  </metadata>\n  <manifest>\n");
    push_str(&mut out, manifest.as_str());
    push_str(&mut out, "  </manifest>\n  <spine toc=\"ncx\">\n");
    push_str(&mut out, spine.as_str());
    push_str(&mut out, "  </spine>\n</package>\n");
    assert(out@ =~= package_text(book));
    out
}

/// The navigation document (`nav.xhtml`) of `book`.
pub open spec fn nav_page(book: &Book) -> Seq<char> {
    "<?xml version=\"1.0\" encoding=\"utf-8\"?>\n<!DOCTYPE html>\n<html xmlns=\"http://www.w3.org/1999/xhtml\" xmlns:epub=\"http://www.idpf.org/2007/ops\" lang=\"zh-CN\" xml:lang=\"zh-CN\">\n  <head>\n    <meta charset=\"utf-8\" />\n    <title>ePub Nav</title>\n    <style type=\"text/css\">\n      ol { list-style-type: none; margin: 0; padding: 0; }\n      li { margin: 0.2em 0; }\n    </style>\n  </head>\n  <body epub:type=\"frontmatter\">\n    <nav epub:type=\"toc\" id=\"toc\">\n      <ol>\n"@
        + nav_items(volumes_of(book.volumes@))
        + "      </ol>\n    </nav>\n  </body>\n</html>\n"@
}

/// The navigation document of `book`: one entry per volume, its chapters nested.
pub fn build_nav(book: &Book) -> (res: String)
    ensures
        res@ == nav_page(book),
{
    let vols = plain_volumes(&book.volumes);
    let mut items = String::new();
    push_nav_items(&mut items, &vols);
    let mut out = String::new();
    push_str(
        &mut out,
        "<?xml version=\"1.0\" encoding=\"utf-8\"?>\n<!DOCTYPE html>\n<html xmlns=\"http://www.w3.org/1999/xhtml\" xmlns:epub=\"http://www.idpf.org/2007/ops\" lang=\"zh-CN\" xml:lang=\"zh-CN\">\n  <head>\n    <meta charset=\"utf-8\" />\n    <title>ePub Nav</title>\n    <style type=\"text/css\">\n      ol { list-style-type: none; margin: 0; padding: 0; }\n      li { margin: 0.2em 0; }\n    </style>\n  </head>\n  <body epub:type=\"frontmatter\">\n    <nav epub:type=\"toc\" id=\"toc\">\n      <ol>\n",
    );
    push_str(&mut out, items.as_str());
    push_str(&mut out, "      </ol>\n    </nav>\n  </body>\n</html>\n");
    assert(out@ =~= nav_page(book));
    out
}

/// A title turned into a file name: characters file names cannot hold become `_`, and
/// surrounding whitespace is trimmed.
pub fn sanitize_filename(title: &str) -> (res: String)
    ensures
        res@ == trimmed(filename_chars(title@)),
{
    crate::model::sanitize_filename(title)
}

/// The chapter pages that were downloaded, volume by volume: path and page.
pub open spec fn page_files(vols: Seq<Volume>) -> Seq<(Seq<char>, Seq<u8>)>
    decreases vols.len(),
{
    if vols.len() == 0 {
        Seq::empty()
    } else {
        page_files(vols.drop_last()) + pages_of(
            (vols.len() - 1) as nat,
            vols.last().chapters@,
        )
    }
}

/// The downloaded pages of the chapters `chs` of volume `vi`.
pub open spec fn pages_of(vi: nat, chs: Seq<crate::standalone::model::Chapter>) -> Seq<(Seq<char>, Seq<u8>)>
    decreases chs.len(),
{
    if chs.len() == 0 {
        Seq::empty()
    } else {
        pages_of(vi, chs.drop_last()) + match chs.last().xhtml {
            Some(x) => seq![
                ("OEBPS/"@ + text_id(vi, (chs.len() - 1) as nat), vstd::utf8::encode_utf8(x@)),
            ],
            None => Seq::empty(),
        }
    }
}

/// Everything the EPUB of `book` holds, in archive order: the `mimetype`, the container,
/// the package and navigation documents, the downloaded chapter pages, the images and
/// the cover.
pub open spec fn archive_files(book: &Book) -> Seq<(Seq<char>, Seq<u8>)> {
    seq![
        ("mimetype"@, vstd::utf8::encode_utf8("application/epub+zip"@)),
        ("META-INF/container.xml"@, vstd::utf8::encode_utf8(container_xml())),
        ("OEBPS/content.opf"@, vstd::utf8::encode_utf8(package_text(book))),
        ("OEBPS/nav.xhtml"@, vstd::utf8::encode_utf8(nav_page(book))),
    ] + page_files(book.volumes@) + book.images@.map_values(
        |p: (String, Vec<u8>)| ("OEBPS/Image/"@ + p.0@, p.1@),
    ) + cover_files(book.cover)
}

/// Lists the files of the EPUB of `book` (see [`archive_files`]).
fn archive_file_list(book: &Book) -> (files: Vec<EpubFile>)
    ensures
        file_views(files@) == archive_files(book),
{
    let mut files: Vec<EpubFile> = Vec::new();
    files.push(EpubFile { path: "mimetype".to_owned(), bytes: utf8_of("application/epub+zip") });
    files.push(
        EpubFile {
            path: "META-INF/container.xml".to_owned(),
            bytes: utf8_of(
                "<?xml version=\"1.0\" encoding=\"UTF-8\"?>\n<container version=\"1.0\" xmlns=\"urn:oasis:names:tc:opendocument:xmlns:container\">\n    <rootfiles>\n        <rootfile full-path=\"OEBPS/content.opf\" media-type=\"application/oebps-package+xml\"/>\n   </rootfiles>\n</container>\n",
            ),
        },
    );
    let opf = build_opf(book);
    files.push(EpubFile { path: "OEBPS/content.opf".to_owned(), bytes: utf8_of(opf.as_str()) });
    let nav = build_nav(book);
    files.push(EpubFile { path: "OEBPS/nav.xhtml".to_owned(), bytes: utf8_of(nav.as_str()) });
    let ghost head = file_views(files@);
    let mut vi: usize = 0;
    while vi < book.volumes.len()
        invariant
            vi <= book.volumes.len(),
            file_views(files@) == head + page_files(book.volumes@.take(vi as int)),
        decreases book.volumes.len() - vi,
    {
        let vol = &book.volumes[vi];
        let ghost f0 = file_views(files@);
        let mut ci: usize = 0;
        while ci < vol.chapters.len()
            invariant
                ci <= vol.chapters.len(),
                file_views(files@) == f0 + pages_of(vi as nat, vol.chapters@.take(ci as int)),
            decreases vol.chapters.len() - ci,
        {
            let ghost before = file_views(files@);
            assert(vol.chapters@.take(ci + 1).drop_last() =~= vol.chapters@.take(ci as int));
            match &vol.chapters[ci].xhtml {
                Some(x) => {
                    let mut path = "OEBPS/".to_owned();
                    push_text_id(&mut path, vi, ci);
                    files.push(EpubFile { path, bytes: utf8_of(x.as_str()) });
                    assert(file_views(files@) =~= before + pages_of(
                        vi as nat,
                        vol.chapters@.take(ci + 1),
                    ).subrange(pages_of(vi as nat, vol.chapters@.take(ci as int)).len() as int, pages_of(vi as nat, vol.chapters@.take(ci + 1)).len() as int));
                },
                None => {},
            }
            assert(file_views(files@) =~= f0 + pages_of(vi as nat, vol.chapters@.take(ci + 1)));
            ci += 1;
        }
        assert(vol.chapters@.take(ci as int) =~= vol.chapters@);
        assert(book.volumes@.take(vi + 1).drop_last() =~= book.volumes@.take(vi as int));
        assert(file_views(files@) =~= head + page_files(book.volumes@.take(vi + 1)));
        vi += 1;
    }
    assert(book.volumes@.take(vi as int) =~= book.volumes@);
    let ghost with_pages = file_views(files@);
    let mut k: usize = 0;
    while k < book.images.len()
        invariant
            k <= book.images.len(),
            file_views(files@) == with_pages + book.images@.take(k as int).map_values(
                |p: (String, Vec<u8>)| ("OEBPS/Image/"@ + p.0@, p.1@),
            ),
        decreases book.images.len() - k,
    {
        let ghost before = file_views(files@);
        let mut path = "OEBPS/Image/".to_owned();
        push_str(&mut path, book.images[k].0.as_str());
        files.push(EpubFile { path, bytes: book.images[k].1.clone() });
        assert(file_views(files@) =~= before.push(
            ("OEBPS/Image/"@ + book.images@[k as int].0@, book.images@[k as int].1@),
        ));
        assert(book.images@.take(k + 1).map_values(
            |p: (String, Vec<u8>)| ("OEBPS/Image/"@ + p.0@, p.1@),
        ) =~= book.images@.take(k as int).map_values(
            |p: (String, Vec<u8>)| ("OEBPS/Image/"@ + p.0@, p.1@),
        ).push(("OEBPS/Image/"@ + book.images@[k as int].0@, book.images@[k as int].1@)));
        k += 1;
    }
    assert(book.images@.take(k as int) =~= book.images@);
    let ghost with_imgs = file_views(files@);
    let ghost cover_part = cover_files(book.cover);
    match &book.cover {
        Some(c) => {
            files.push(EpubFile { path: "OEBPS/Image/cover.jpg".to_owned(), bytes: c.clone() });
            assert(file_views(files@) =~= with_imgs + cover_part);
        },
        None => {
            assert(file_views(files@) =~= with_imgs + cover_part);
        },
    }
    assert(file_views(files@) =~= archive_files(book));
    files
}

/// Whether every archive path of `book` fits a zip entry name (at most 65535 UTF-8
/// bytes), which [`epub_archive`] needs.
pub fn archive_fits(book: &Book) -> (b: bool)
    ensures
        b == paths_fit(archive_files(book)),
{
    let files = archive_file_list(book);
    fits_in_zip(&files)
}

/// The EPUB of `book`: the path to write it to (the sanitized title and `.epub`) and
/// the archive's bytes. A book without a title gives `NotFound`; a packing failure gives
/// `Parse` with the `zip` crate's message; packing succeeds when no two archive paths
/// are the same and no file holds more than [`entry_limit`] bytes.
pub fn epub_archive(book: &Book) -> (res: Result<(String, Vec<u8>), DownloadError>)
    requires
        book.title@.len() > 0 ==> paths_fit(archive_files(book)),
    ensures
        book.title@.len() > 0 && distinct_paths(archive_files(book)) && contents_fit(
            archive_files(book),
        ) ==> res is Ok,
        book.title@.len() == 0 ==> (res matches Err(DownloadError::NotFound(m)) && m@
            == "书名缺失，无法打包"@),
        book.title@.len() > 0 ==> match res {
            Ok((path, bytes)) => path@ == trimmed(filename_chars(book.title@)) + ".epub"@
                && bytes@ == zip_archive(entries_of(archive_files(book))),
            Err(e) => e is Parse,
        },
{
    if book.title.as_str().is_empty() {
        return Err(DownloadError::NotFound("书名缺失，无法打包".to_owned()));
    }
    let files = archive_file_list(book);
    let bytes = match pack_files(&files) {
        Ok(b) => b,
        Err(PackError::Write(m)) => {
            return Err(DownloadError::Parse(m));
        },
        Err(PackError::Finish(m)) => {
            return Err(DownloadError::Parse(m));
        },
    };
    let mut path = sanitize_filename(book.title.as_str());
    push_str(&mut path, ".epub");
    Ok((path, bytes))
}

// ---------------------------------------------------------------------------
// Laws
// ---------------------------------------------------------------------------

/// What occurs in the manifest occurs in the package document.
proof fn lemma_manifest_in_package(book: &Book, p: Seq<char>)
    requires
        contains_seq(manifest_of(book), p),
    ensures
        contains_seq(package_text(book), p),
{
    let m = manifest_of(book);
    let t = package_text(book);
    let rest = "  </manifest>\n  <spine toc=\"ncx\">\n"@ + each_chapter(
        volumes_of(book.volumes@),
        |vi: nat, ci: nat| spine_item(vi, ci),
    ) + "  </spine>\n</package>\n"@;
    let k = t.len() - m.len() - rest.len();
    let pre = t.subrange(0, k);
    let post = t.subrange(k + m.len(), t.len() as int);
    assert(t =~= pre + m + post);
    lemma_contains_within(m, p, pre, post);
}

/// Every chapter is declared in the package document, read in its spine and linked
/// under its title from the navigation document, by its page `Text/{vi}_{ci}.xhtml`.
pub proof fn law_chapter_declared(book: &Book, vi: int, ci: int)
    requires
        0 <= vi < book.volumes@.len(),
        0 <= ci < book.volumes@[vi].chapters@.len(),
    ensures
        contains_seq(
            package_text(book),
            "<item id=\"Text/"@ + decimal(vi as nat) + "_"@ + decimal(ci as nat)
                + ".xhtml\" href=\"Text/"@ + decimal(vi as nat) + "_"@ + decimal(ci as nat)
                + ".xhtml\" media-type=\"application/xhtml+xml\" />"@,
        ),
        contains_seq(
            package_text(book),
            "<itemref idref=\"Text/"@ + decimal(vi as nat) + "_"@ + decimal(ci as nat)
                + ".xhtml\" />"@,
        ),
        contains_seq(
            nav_page(book),
            "<li><a href=\"Text/"@ + decimal(vi as nat) + "_"@ + decimal(ci as nat) + ".xhtml\">"@
                + xml_escaped(book.volumes@[vi].chapters@[ci].title@) + "</a></li>"@,
        ),
{
    let vols = volumes_of(book.volumes@);
    assert(vols[vi] == book.volumes@[vi]@);
    assert(vols[vi].chapters.len() == book.volumes@[vi].chapters@.len());
    assert(vols[vi].chapters[ci].title == book.volumes@[vi].chapters@[ci].title@);
    let (v, c) = (vi as nat, ci as nat);
    let mf = |a: nat, b: nat| manifest_text_item(a, b);
    lemma_each_chapter_has(vols, mf, vi, ci);
    let e = each_chapter(vols, mf);
    let m = manifest_of(book);
    let ipart = image_items(names_of(book.images@));
    let pre = m.subrange(0, m.len() - e.len() - ipart.len());
    assert(m =~= pre + e + ipart);
    lemma_contains_within(e, mf(v, c), pre, ipart);
    lemma_text_item_shape(v, c);
    let ip = "<item id=\"Text/"@ + decimal(v) + "_"@ + decimal(c) + ".xhtml\" href=\"Text/"@ + decimal(
        v,
    ) + "_"@ + decimal(c) + ".xhtml\" media-type=\"application/xhtml+xml\" />"@;
    lemma_contains_trans(m, mf(v, c), ip);
    lemma_manifest_in_package(book, ip);
    let sf = |a: nat, b: nat| spine_item(a, b);
    lemma_each_chapter_has(vols, sf, vi, ci);
    lemma_spine_item_shape(v, c);
    let sp = "<itemref idref=\"Text/"@ + decimal(v) + "_"@ + decimal(c) + ".xhtml\" />"@;
    let spine = each_chapter(vols, sf);
    lemma_contains_trans(spine, sf(v, c), sp);
    let t = package_text(book);
    let tail = "  </spine>\n</package>\n"@;
    let spre = t.subrange(0, t.len() - spine.len() - tail.len());
    assert(t =~= spre + spine + tail);
    lemma_contains_within(spine, sp, spre, tail);
    let title = vols[vi].chapters[ci].title;
    lemma_nav_items_has(vols, vi, ci);
    lemma_nav_chapter_shape(v, c, title);
    let np = "<li><a href=\"Text/"@ + decimal(v) + "_"@ + decimal(c) + ".xhtml\">"@ + xml_escaped(title)
        + "</a></li>"@;
    lemma_contains_trans(nav_items(vols), nav_chapter(v, c, title), np);
    let nt = nav_page(book);
    let ntail = "      </ol>\n    </nav>\n  </body>\n</html>\n"@;
    let npre = nt.subrange(0, nt.len() - nav_items(vols).len() - ntail.len());
    assert(nt =~= npre + nav_items(vols) + ntail);
    lemma_contains_within(nav_items(vols), np, npre, ntail);
}

/// Every image of the book is declared in the package document as a JPEG under
/// `Image/{name}`.
pub proof fn law_image_declared(book: &Book, k: int)
    requires
        0 <= k < book.images@.len(),
    ensures
        contains_seq(
            package_text(book),
            "<item id=\"Image/"@ + book.images@[k].0@ + "\" href=\"Image/"@ + book.images@[k].0@
                + "\" media-type=\"image/jpeg\" />"@,
        ),
{
    let names = names_of(book.images@);
    assert(names[k] == book.images@[k].0@);
    let name = names[k];
    let p = "<item id=\"Image/"@ + name + "\" href=\"Image/"@ + name + "\" media-type=\"image/jpeg\" />"@;
    lemma_image_items_has(names, k);
    lemma_image_item_shape(name);
    lemma_contains_trans(image_items(names), manifest_image_item(name), p);
    let m = manifest_of(book);
    let ipart = image_items(names);
    let pre = m.subrange(0, m.len() - ipart.len());
    assert(m =~= pre + ipart);
    lemma_contains_after(ipart, p, pre);
    lemma_manifest_in_package(book, p);
}

/// The downloaded page of a chapter lies in the archive at its own path.
proof fn lemma_pages_of_has(vi: nat, chs: Seq<crate::standalone::model::Chapter>, ci: int)
    requires
        0 <= ci < chs.len(),
        chs[ci].xhtml is Some,
    ensures
        pages_of(vi, chs).contains(
            (
                "OEBPS/Text/"@ + decimal(vi) + "_"@ + decimal(ci as nat) + ".xhtml"@,
                vstd::utf8::encode_utf8(chs[ci].xhtml->0@),
            ),
        ),
    decreases chs.len(),
{
    let item = (
        "OEBPS/Text/"@ + decimal(vi) + "_"@ + decimal(ci as nat) + ".xhtml"@,
        vstd::utf8::encode_utf8(chs[ci].xhtml->0@),
    );
    let prev = pages_of(vi, chs.drop_last());
    if ci == chs.len() - 1 {
        reveal_strlit("OEBPS/");
        reveal_strlit("OEBPS/Text/");
        reveal_strlit("Text/");
        assert("OEBPS/"@ + text_id(vi, ci as nat) =~= item.0);
        let last = seq![item];
        assert(pages_of(vi, chs) =~= prev + last);
        assert((prev + last)[prev.len() as int] == item);
    } else {
        assert(chs.drop_last()[ci] == chs[ci]);
        lemma_pages_of_has(vi, chs.drop_last(), ci);
        let j = choose|j: int| 0 <= j < prev.len() && prev[j] == item;
        assert(pages_of(vi, chs)[j] == item);
    }
}

/// The downloaded page of a chapter lies among the pages of the book.
proof fn lemma_page_files_has(vols: Seq<Volume>, vi: int, ci: int)
    requires
        0 <= vi < vols.len(),
        0 <= ci < vols[vi].chapters@.len(),
        vols[vi].chapters@[ci].xhtml is Some,
    ensures
        page_files(vols).contains(
            (
                "OEBPS/Text/"@ + decimal(vi as nat) + "_"@ + decimal(ci as nat) + ".xhtml"@,
                vstd::utf8::encode_utf8(vols[vi].chapters@[ci].xhtml->0@),
            ),
        ),
    decreases vols.len(),
{
    let item = (
        "OEBPS/Text/"@ + decimal(vi as nat) + "_"@ + decimal(ci as nat) + ".xhtml"@,
        vstd::utf8::encode_utf8(vols[vi].chapters@[ci].xhtml->0@),
    );
    let prev = page_files(vols.drop_last());
    let last = pages_of((vols.len() - 1) as nat, vols.last().chapters@);
    if vi == vols.len() - 1 {
        lemma_pages_of_has(vi as nat, vols.last().chapters@, ci);
        let j = choose|j: int| 0 <= j < last.len() && last[j] == item;
        assert((prev + last)[prev.len() + j] == item);
    } else {
        assert(vols.drop_last()[vi] == vols[vi]);
        lemma_page_files_has(vols.drop_last(), vi, ci);
        let j = choose|j: int| 0 <= j < prev.len() && prev[j] == item;
        assert((prev + last)[j] == item);
    }
}

/// Every downloaded chapter page is packed, as UTF-8, at its own path
/// `OEBPS/Text/{vi}_{ci}.xhtml`, and every image at `OEBPS/Image/{name}`.
pub proof fn law_pages_and_images_packed(book: &Book)
    ensures
        forall|vi: int, ci: int|
            0 <= vi < book.volumes@.len() && 0 <= ci < book.volumes@[vi].chapters@.len()
                && (#[trigger] book.volumes@[vi].chapters@[ci]).xhtml is Some ==> archive_files(
                book,
            ).contains(
                (
                    "OEBPS/Text/"@ + decimal(vi as nat) + "_"@ + decimal(ci as nat) + ".xhtml"@,
                    vstd::utf8::encode_utf8(book.volumes@[vi].chapters@[ci].xhtml->0@),
                ),
            ),
        forall|k: int|
            0 <= k < book.images@.len() ==> archive_files(book).contains(
                ("OEBPS/Image/"@ + (#[trigger] book.images@[k]).0@, book.images@[k].1@),
            ),
{
    let head = seq![
        ("mimetype"@, vstd::utf8::encode_utf8("application/epub+zip"@)),
        ("META-INF/container.xml"@, vstd::utf8::encode_utf8(container_xml())),
        ("OEBPS/content.opf"@, vstd::utf8::encode_utf8(package_text(book))),
        ("OEBPS/nav.xhtml"@, vstd::utf8::encode_utf8(nav_page(book))),
    ];
    let pages = page_files(book.volumes@);
    let imgs = book.images@.map_values(|p: (String, Vec<u8>)| ("OEBPS/Image/"@ + p.0@, p.1@));
    let all = archive_files(book);
    assert(all =~= head + pages + imgs + cover_files(book.cover));
    assert forall|vi: int, ci: int|
        0 <= vi < book.volumes@.len() && 0 <= ci < book.volumes@[vi].chapters@.len()
            && (#[trigger] book.volumes@[vi].chapters@[ci]).xhtml is Some implies all.contains(
        (
            "OEBPS/Text/"@ + decimal(vi as nat) + "_"@ + decimal(ci as nat) + ".xhtml"@,
            vstd::utf8::encode_utf8(book.volumes@[vi].chapters@[ci].xhtml->0@),
        ),
    ) by {
        lemma_page_files_has(book.volumes@, vi, ci);
        let item = (
            "OEBPS/Text/"@ + decimal(vi as nat) + "_"@ + decimal(ci as nat) + ".xhtml"@,
            vstd::utf8::encode_utf8(book.volumes@[vi].chapters@[ci].xhtml->0@),
        );
        let j = choose|j: int| 0 <= j < pages.len() && pages[j] == item;
        assert(all[head.len() + j] == item);
    }
    assert forall|k: int| 0 <= k < book.images@.len() implies all.contains(
        ("OEBPS/Image/"@ + (#[trigger] book.images@[k]).0@, book.images@[k].1@),
    ) by {
        assert(imgs[k] == ("OEBPS/Image/"@ + book.images@[k].0@, book.images@[k].1@));
        assert(all[head.len() + pages.len() + k] == imgs[k]);
    }
}

/// A chapter page carries its title as document title and heading, every paragraph,
/// escaped, as a `<p>` element, and every image `j` as
/// `<img src="../Image/{name}" alt="" />`, the name escaped for an attribute.
pub proof fn law_page_shows_content(
    title: Seq<char>,
    paragraphs: Seq<Seq<char>>,
    images: Seq<Seq<char>>,
    k: int,
    j: int,
)
    ensures
        contains_seq(page_xhtml(title, paragraphs, images), "<title>"@ + xml_escaped(title) + "</title>"@),
        contains_seq(page_xhtml(title, paragraphs, images), "<h3>"@ + xml_escaped(title) + "</h3>"@),
        0 <= k < paragraphs.len() ==> contains_seq(
            page_xhtml(title, paragraphs, images),
            "<p>"@ + xml_escaped(paragraphs[k]) + "</p>"@,
        ),
        0 <= j < images.len() ==> contains_seq(
            page_xhtml(title, paragraphs, images),
            "<img src=\"../Image/"@ + attr_escaped(images[j]) + "\" alt=\"\" />"@,
        ),
{
    let page = page_xhtml(title, paragraphs, images);
    reveal_strlit("<?xml version=\"1.0\" encoding=\"utf-8\"?>\n<!DOCTYPE html>\n<html xmlns=\"http://www.w3.org/1999/xhtml\">\n<head>\n  <title>");
    reveal_strlit("<?xml version=\"1.0\" encoding=\"utf-8\"?>\n<!DOCTYPE html>\n<html xmlns=\"http://www.w3.org/1999/xhtml\">\n<head>\n  ");
    reveal_strlit("<title>");
    reveal_strlit("</title>\n  <link rel=\"stylesheet\" type=\"text/css\" href=\"../Style/style.css\" />\n</head>\n<body>\n  <section>\n");
    reveal_strlit("</title>");
    reveal_strlit("\n  <link rel=\"stylesheet\" type=\"text/css\" href=\"../Style/style.css\" />\n</head>\n<body>\n  <section>\n");
    reveal_strlit("</h3>\n");
    reveal_strlit("</h3>");
    reveal_strlit("\n");
    let h = "<?xml version=\"1.0\" encoding=\"utf-8\"?>\n<!DOCTYPE html>\n<html xmlns=\"http://www.w3.org/1999/xhtml\">\n<head>\n  "@;
    let t = "<title>"@ + xml_escaped(title) + "</title>"@;
    let mid = "\n  <link rel=\"stylesheet\" type=\"text/css\" href=\"../Style/style.css\" />\n</head>\n<body>\n  <section>\n"@;
    let wp = xml_wrapped_all(paragraphs, "<p>"@, "</p>\n"@);
    let wi = attr_wrapped_all(images, "<img src=\"../Image/"@, "\" alt=\"\" />\n"@);
    let end = "  </section>\n</body>\n</html>\n"@;
    let hd = "<h3>"@ + xml_escaped(title) + "</h3>"@;
    assert(page =~= h + t + (mid + hd + "\n"@ + wp + wi + end));
    lemma_contains_middle(h, t, mid + hd + "\n"@ + wp + wi + end);
    assert(page =~= (h + t + mid) + hd + ("\n"@ + wp + wi + end));
    lemma_contains_middle(h + t + mid, hd, "\n"@ + wp + wi + end);
    if 0 <= k < paragraphs.len() {
        let p = "<p>"@ + xml_escaped(paragraphs[k]) + "</p>"@;
        lemma_wrapped_has_item(paragraphs, "<p>"@, "</p>\n"@, k);
        reveal_strlit("</p>\n");
        reveal_strlit("</p>");
        assert("<p>"@ + xml_escaped(paragraphs[k]) + "</p>\n"@ =~= p + "\n"@);
        lemma_line_holds(p);
        lemma_contains_trans(wp, p + "\n"@, p);
        let pre = h + t + mid + hd + "\n"@;
        assert(page =~= pre + wp + (wi + end));
        lemma_contains_within(wp, p, pre, wi + end);
    }
    if 0 <= j < images.len() {
        let im = "<img src=\"../Image/"@ + attr_escaped(images[j]) + "\" alt=\"\" />"@;
        lemma_attr_wrapped_has_item(images, "<img src=\"../Image/"@, "\" alt=\"\" />\n"@, j);
        reveal_strlit("\" alt=\"\" />\n");
        reveal_strlit("\" alt=\"\" />");
        assert("<img src=\"../Image/"@ + attr_escaped(images[j]) + "\" alt=\"\" />\n"@ =~= im + "\n"@);
        lemma_line_holds(im);
        lemma_contains_trans(wi, im + "\n"@, im);
        let pre = h + t + mid + hd + "\n"@ + wp;
        assert(page =~= pre + wi + end);
        lemma_contains_within(wi, im, pre, end);
    }
}


/// The package document names the book: its title, author and synopsis, escaped, as
/// `dc:title`, `dc:creator` and `dc:description`.
pub proof fn law_package_metadata(book: &Book)
    ensures
        contains_seq(package_text(book), "<dc:title>"@ + xml_escaped(book.title@) + "</dc:title>"@),
        contains_seq(package_text(book), "<dc:creator>"@ + xml_escaped(book.author@) + "</dc:creator>"@),
        contains_seq(
            package_text(book),
            "<dc:description>"@ + xml_escaped(book.intro@) + "</dc:description>"@,
        ),
{
    reveal_strlit("<?xml version=\"1.0\" encoding=\"utf-8\"?>\n<package xmlns=\"http://www.idpf.org/2007/opf\" version=\"3.0\" unique-identifier=\"PrimaryID\">\n  <metadata xmlns:dc=\"http://purl.org/dc/elements/1.1/\" xmlns:opf=\"http://www.idpf.org/2007/opf\">\n    <dc:title>");
    reveal_strlit("<?xml version=\"1.0\" encoding=\"utf-8\"?>\n<package xmlns=\"http://www.idpf.org/2007/opf\" version=\"3.0\" unique-identifier=\"PrimaryID\">\n  <metadata xmlns:dc=\"http://purl.org/dc/elements/1.1/\" xmlns:opf=\"http://www.idpf.org/2007/opf\">\n    ");
    reveal_strlit("<dc:title>");
    reveal_strlit("</dc:title>\n    <dc:identifier opf:scheme=\"ISBN\"/>\n    <dc:language>zh-CN</dc:language>\n    <dc:creator>");
    reveal_strlit("</dc:title>");
    reveal_strlit("\n    <dc:identifier opf:scheme=\"ISBN\"/>\n    <dc:language>zh-CN</dc:language>\n    ");
    reveal_strlit("<dc:creator>");
    reveal_strlit("</dc:description>\n  </metadata>\n  <manifest>\n");
    reveal_strlit("</dc:description>");
    reveal_strlit("\n  </metadata>\n  <manifest>\n");
    reveal_strlit("<dc:description>");
    reveal_strlit("</dc:creator>");
    reveal_strlit("</dc:creator>\n    <dc:description>");
    reveal_strlit("\n    ");
    let t = package_text(book);
    let h = "<?xml version=\"1.0\" encoding=\"utf-8\"?>\n<package xmlns=\"http://www.idpf.org/2007/opf\" version=\"3.0\" unique-identifier=\"PrimaryID\">\n  <metadata xmlns:dc=\"http://purl.org/dc/elements/1.1/\" xmlns:opf=\"http://www.idpf.org/2007/opf\">\n    "@;
    let pt = "<dc:title>"@ + xml_escaped(book.title@) + "</dc:title>"@;
    let pc = "<dc:creator>"@ + xml_escaped(book.author@) + "</dc:creator>"@;
    let pd = "<dc:description>"@ + xml_escaped(book.intro@) + "</dc:description>"@;
    let rest = t.subrange((h.len() + pt.len() + "\n    <dc:identifier opf:scheme=\"ISBN\"/>\n    <dc:language>zh-CN</dc:language>\n    "@.len() + pc.len() + ("\n    "@).len() + pd.len()) as int, t.len() as int);
    assert(t =~= h + pt + ("\n    <dc:identifier opf:scheme=\"ISBN\"/>\n    <dc:language>zh-CN</dc:language>\n    "@ + pc + "\n    "@ + pd + rest));
    lemma_contains_middle(h, pt, "\n    <dc:identifier opf:scheme=\"ISBN\"/>\n    <dc:language>zh-CN</dc:language>\n    "@ + pc + "\n    "@ + pd + rest);
    assert(t =~= (h + pt + "\n    <dc:identifier opf:scheme=\"ISBN\"/>\n    <dc:language>zh-CN</dc:language>\n    "@) + pc + ("\n    "@ + pd + rest));
    lemma_contains_middle(h + pt + "\n    <dc:identifier opf:scheme=\"ISBN\"/>\n    <dc:language>zh-CN</dc:language>\n    "@, pc, "\n    "@ + pd + rest);
    assert(t =~= (h + pt + "\n    <dc:identifier opf:scheme=\"ISBN\"/>\n    <dc:language>zh-CN</dc:language>\n    "@ + pc + "\n    "@) + pd + rest);
    lemma_contains_middle(h + pt + "\n    <dc:identifier opf:scheme=\"ISBN\"/>\n    <dc:language>zh-CN</dc:language>\n    "@ + pc + "\n    "@, pd, rest);
}


/// Every volume has an entry in the navigation document that links its first chapter
/// page, `Text/{vi}_0.xhtml`, under the volume's name.
pub proof fn law_volume_in_nav(book: &Book, vi: int)
    requires
        0 <= vi < book.volumes@.len(),
    ensures
        contains_seq(
            nav_page(book),
            "<li><a href=\"Text/"@ + decimal(vi as nat) + "_0.xhtml\">"@ + xml_escaped(
                book.volumes@[vi].name@,
            ) + "</a>"@,
        ),
{
    let vols = volumes_of(book.volumes@);
    assert(vols[vi].name == book.volumes@[vi].name@);
    crate::package::lemma_nav_items_has_volume(vols, vi);
    let p = "<li><a href=\"Text/"@ + decimal(vi as nat) + "_0.xhtml\">"@ + xml_escaped(vols[vi].name)
        + "</a>"@;
    let nt = nav_page(book);
    let ntail = "      </ol>\n    </nav>\n  </body>\n</html>\n"@;
    let npre = nt.subrange(0, nt.len() - nav_items(vols).len() - ntail.len());
    assert(nt =~= npre + nav_items(vols) + ntail);
    lemma_contains_within(nav_items(vols), p, npre, ntail);
}

} // verus!
