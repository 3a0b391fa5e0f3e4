//! The EPUB 3 package document (`content.opf`) and navigation document (`nav.xhtml`).
use vstd::prelude::*;

use crate::error::Error;
use crate::model::{volumes_view, Book, EpubFile};
use crate::package::{
    each_chapter, image_items, lemma_each_chapter_has, lemma_image_item_shape,
    lemma_image_items_has, lemma_nav_chapter_shape, lemma_nav_items_has, lemma_spine_item_shape,
    lemma_text_item_shape, manifest_image_item, manifest_text_item, names_of, nav_chapter,
    nav_items, push_image_items, push_nav_items, push_text_items, spine_item,
};
use crate::text::{
    contains_seq, decimal, lemma_contains_after, lemma_contains_middle,
    lemma_contains_trans, lemma_contains_within, push_str, push_xml_escaped, utf8_of, xml_escaped,
};

verus! {

/// The manifest of the EPUB 3 package document.
pub open spec fn opf_manifest(book: &Book) -> Seq<char> {
    (if book.cover is Some {
        "  <item id=\"cover\" href=\"Image/cover.jpg\" media-type=\"image/jpeg\" properties=\"cover-image\" />"@
            + "\n"@
    } else {
        Seq::empty()
    }) + "  <item id=\"nav\" href=\"nav.xhtml\" media-type=\"application/xhtml+xml\" properties=\"nav\" />"@
        + "\n"@ + each_chapter(
        volumes_view(book.volumes@),
        |vi: nat, ci: nat| manifest_text_item(vi, ci),
    ) + image_items(names_of(book.images@))
}

/// The EPUB 3 package document of `book`.
pub open spec fn opf_text(book: &Book) -> Seq<char> {
    "<?xml version=\"1.0\" encoding=\"utf-8\"?>\n<package xmlns=\"http://www.idpf.org/2007/opf\" version=\"3.0\" unique-identifier=\"PrimaryID\">\n  <metadata xmlns:dc=\"http://purl.org/dc/elements/1.1/\" xmlns:opf=\"http://www.idpf.org/2007/opf\">\n    <dc:title>"@
        + xml_escaped(book.title@)
        + "</dc:title>\n    <dc:identifier opf:scheme=\"ISBN\"/>\n    <dc:language>zh-CN</dc:language>\n    <dc:creator>"@
        + xml_escaped(book.author@) + "</dc:creator>\n    <dc:description>"@ + xml_escaped(
        book.intro@,
    ) + "</dc:description>\n  </metadata>\n  <manifest>\n"@ + opf_manifest(book)
        + "  </manifest>\n  <spine>\n"@ + each_chapter(
        volumes_view(book.volumes@),
        |vi: nat, ci: nat| spine_item(vi, ci),
    ) + "  </spine>\n</package>\n"@
}

/// The EPUB 3 navigation document of `book`.
pub open spec fn nav_text(book: &Book) -> Seq<char> {
    "<?xml version=\"1.0\" encoding=\"utf-8\"?>\n<!DOCTYPE html>\n<html xmlns=\"http://www.w3.org/1999/xhtml\" xmlns:epub=\"http://www.idpf.org/2007/ops\" lang=\"zh-CN\" xml:lang=\"zh-CN\">\n  <head>\n    <meta charset=\"utf-8\" />\n    <title>ePub Nav</title>\n    <style type=\"text/css\">\n      ol { list-style-type: none; margin: 0; padding: 0; }\n      li { margin: 0.2em 0; }\n    </style>\n  </head>\n  <body epub:type=\"frontmatter\">\n    <nav epub:type=\"toc\" id=\"toc\">\n      <ol>\n"@
        + nav_items(volumes_view(book.volumes@))
        + "      </ol>\n    </nav>\n  </body>\n</html>\n"@
}

/// The EPUB 3 package document and navigation document of `book`.
pub fn generate(book: &Book) -> (res: Result<Vec<EpubFile>, Error>)
    ensures
        res matches Ok(files) && files@.len() == 2 && files@[0].path@ == "OEBPS/content.opf"@
            && files@[0].bytes@ == vstd::utf8::encode_utf8(opf_text(book)) && files@[1].path@
            == "OEBPS/nav.xhtml"@ && files@[1].bytes@ == vstd::utf8::encode_utf8(nav_text(book)),
{
    let mut files: Vec<EpubFile> = Vec::new();
    let opf = build_opf(book);
    files.push(EpubFile { path: "OEBPS/content.opf".to_owned(), bytes: utf8_of(opf.as_str()) });
    let nav = build_nav(book);
    files.push(EpubFile { path: "OEBPS/nav.xhtml".to_owned(), bytes: utf8_of(nav.as_str()) });
    Ok(files)
}

/// The EPUB 3 package document of `book`.
pub fn build_opf(book: &Book) -> (res: String)
    ensures
        res@ == opf_text(book),
{
    let mut manifest = String::new();
    let mut spine = String::new();
    if book.cover.is_some() {
        push_str(
            &mut manifest,
            "  <item id=\"cover\" href=\"Image/cover.jpg\" media-type=\"image/jpeg\" properties=\"cover-image\" />",
        );
        push_str(&mut manifest, "\n");
    }
    push_str(
        &mut manifest,
        "  <item id=\"nav\" href=\"nav.xhtml\" media-type=\"application/xhtml+xml\" properties=\"nav\" />",
    );
    push_str(&mut manifest, "\n");
    push_text_items(&mut manifest, &mut spine, &book.volumes);
    push_image_items(&mut manifest, &book.images);
    assert(manifest@ =~= opf_manifest(book));
    let mut out = String::new();
    push_str(
        &mut out,
        "<?xml version=\"1.0\" encoding=\"utf-8\"?>\n<package xmlns=\"http://www.idpf.org/2007/opf\" version=\"3.0\" unique-identifier=\"PrimaryID\">\n  <metadata xmlns:dc=\"http://purl.org/dc/elements/1.1/\" xmlns:opf=\"http://www.idpf.org/2007/opf\">\n    <dc:title>",
    );
    push_xml_escaped(&mut out, book.title.as_str());
    push_str(
        &mut out,
        "</dc:title>\n    <dc:identifier opf:scheme=\"ISBN\"/>\n    <dc:language>zh-CN</dc:language>\n    <dc:creator>",
    );
    push_xml_escaped(&mut out, book.author.as_str());
    push_str(&mut out, "</dc:creator>\n    <dc:description>");
    push_xml_escaped(&mut out, book.intro.as_str());
    push_str(&mut out, "</dc:description>\n  </metadata>\n  <manifest>\n");
    push_str(&mut out, manifest.as_str());
    push_str(&mut out, "  </manifest>\n  <spine>\n");
    push_str(&mut out, spine.as_str());
    push_str(&mut out, "  </spine>\n</package>\n");
    assert(out@ =~= opf_text(book));
    out
}

/// The EPUB 3 navigation document of `book`: one entry per volume, its chapters nested.
pub fn build_nav(book: &Book) -> (res: String)
    ensures
        res@ == nav_text(book),
{
    let mut items = String::new();
    push_nav_items(&mut items, &book.volumes);
    let mut out = String::new();
    push_str(
        &mut out,
        "<?xml version=\"1.0\" encoding=\"utf-8\"?>\n<!DOCTYPE html>\n<html xmlns=\"http://www.w3.org/1999/xhtml\" xmlns:epub=\"http://www.idpf.org/2007/ops\" lang=\"zh-CN\" xml:lang=\"zh-CN\">\n  <head>\n    <meta charset=\"utf-8\" />\n    <title>ePub Nav</title>\n    <style type=\"text/css\">\n      ol { list-style-type: none; margin: 0; padding: 0; }\n      li { margin: 0.2em 0; }\n    </style>\n  </head>\n  <body epub:type=\"frontmatter\">\n    <nav epub:type=\"toc\" id=\"toc\">\n      <ol>\n",
    );
    push_str(&mut out, items.as_str());
    push_str(&mut out, "      </ol>\n    </nav>\n  </body>\n</html>\n");
    assert(out@ =~= nav_text(book));
    out
}

/// A book with a cover has it declared in its EPUB 3 package document: the manifest
/// lists `Image/cover.jpg` as a JPEG with the `cover-image` property.
pub proof fn law_cover_declared(book: &Book)
    requires
        book.cover is Some,
    ensures
        contains_seq(
            opf_text(book),
            "<item id=\"cover\" href=\"Image/cover.jpg\" media-type=\"image/jpeg\" properties=\"cover-image\" />"@,
        ),
{
    let p = "<item id=\"cover\" href=\"Image/cover.jpg\" media-type=\"image/jpeg\" properties=\"cover-image\" />"@;
    let line = "  <item id=\"cover\" href=\"Image/cover.jpg\" media-type=\"image/jpeg\" properties=\"cover-image\" />"@;
    reveal_strlit("<item id=\"cover\" href=\"Image/cover.jpg\" media-type=\"image/jpeg\" properties=\"cover-image\" />");
    reveal_strlit("  <item id=\"cover\" href=\"Image/cover.jpg\" media-type=\"image/jpeg\" properties=\"cover-image\" />");
    reveal_strlit("  ");
    assert(line =~= "  "@ + p);
    let m = opf_manifest(book);
    let rest = m.subrange(line.len() as int, m.len() as int);
    assert(m =~= "  "@ + p + rest);
    lemma_contains_middle("  "@, p, rest);
    let t = opf_text(book);
    let k = t.len() - m.len() - ("  </manifest>\n  <spine>\n"@ + each_chapter(
        volumes_view(book.volumes@),
        |vi: nat, ci: nat| spine_item(vi, ci),
    ) + "  </spine>\n</package>\n"@).len();
    let pre = t.subrange(0, k);
    let post = t.subrange(k + m.len(), t.len() as int);
    assert(t =~= pre + m + post);
    lemma_contains_within(m, p, pre, post);
}

/// What occurs in the manifest occurs in the package document.
proof fn lemma_manifest_in_opf(book: &Book, p: Seq<char>)
    requires
        contains_seq(opf_manifest(book), p),
    ensures
        contains_seq(opf_text(book), p),
{
    let m = opf_manifest(book);
    let t = opf_text(book);
    let rest = "  </manifest>\n  <spine>\n"@ + each_chapter(
        volumes_view(book.volumes@),
        |vi: nat, ci: nat| spine_item(vi, ci),
    ) + "  </spine>\n</package>\n"@;
    let k = t.len() - m.len() - rest.len();
    let pre = t.subrange(0, k);
    let post = t.subrange(k + m.len(), t.len() as int);
    assert(t =~= pre + m + post);
    lemma_contains_within(m, p, pre, post);
}

/// What occurs among the spine entries occurs in the package document.
proof fn lemma_spine_in_opf(book: &Book, p: Seq<char>)
    requires
        contains_seq(
            each_chapter(volumes_view(book.volumes@), |vi: nat, ci: nat| spine_item(vi, ci)),
            p,
        ),
    ensures
        contains_seq(opf_text(book), p),
{
    let sp = each_chapter(volumes_view(book.volumes@), |vi: nat, ci: nat| spine_item(vi, ci));
    let t = opf_text(book);
    let tail = "  </spine>\n</package>\n"@;
    let k = t.len() - sp.len() - tail.len();
    let pre = t.subrange(0, k);
    assert(t =~= pre + sp + tail);
    lemma_contains_within(sp, p, pre, tail);
}

/// Every chapter page is declared in the EPUB 3 package document, read in its spine
/// and linked under its title from the navigation document: the manifest lists
/// `Text/{vi}_{ci}.xhtml` as XHTML, the spine has an `itemref` to it, and the
/// navigation document has `<li><a href="Text/{vi}_{ci}.xhtml">title</a></li>`.
pub proof fn law_v3_chapter_declared(book: &Book, vi: int, ci: int)
    requires
        0 <= vi < book.volumes@.len(),
        0 <= ci < book.volumes@[vi].chapters@.len(),
    ensures
        contains_seq(
            opf_text(book),
            "<item id=\"Text/"@ + decimal(vi as nat) + "_"@ + decimal(ci as nat)
                + ".xhtml\" href=\"Text/"@ + decimal(vi as nat) + "_"@ + decimal(ci as nat)
                + ".xhtml\" media-type=\"application/xhtml+xml\" />"@,
        ),
        contains_seq(
            opf_text(book),
            "<itemref idref=\"Text/"@ + decimal(vi as nat) + "_"@ + decimal(ci as nat)
                + ".xhtml\" />"@,
        ),
        contains_seq(
            nav_text(book),
            "<li><a href=\"Text/"@ + decimal(vi as nat) + "_"@ + decimal(ci as nat) + ".xhtml\">"@
                + xml_escaped(book.volumes@[vi].chapters@[ci].title@) + "</a></li>"@,
        ),
{
    let vols = volumes_view(book.volumes@);
    assert(vols[vi].chapters.len() == book.volumes@[vi].chapters@.len());
    assert(vols[vi].chapters[ci].title == book.volumes@[vi].chapters@[ci].title@);
    let (v, c) = (vi as nat, ci as nat);
    // The manifest entry.
    let mf = |a: nat, b: nat| manifest_text_item(a, b);
    lemma_each_chapter_has(vols, mf, vi, ci);
    let e = each_chapter(vols, mf);
    let m = opf_manifest(book);
    let ipart = image_items(names_of(book.images@));
    let pre = m.subrange(0, m.len() - e.len() - ipart.len());
    assert(m =~= pre + e + ipart);
    lemma_contains_within(e, mf(v, c), pre, ipart);
    lemma_text_item_shape(v, c);
    lemma_contains_trans(
        m,
        mf(v, c),
        "<item id=\"Text/"@ + decimal(v) + "_"@ + decimal(c) + ".xhtml\" href=\"Text/"@ + decimal(v)
            + "_"@ + decimal(c) + ".xhtml\" media-type=\"application/xhtml+xml\" />"@,
    );
    lemma_manifest_in_opf(
        book,
        "<item id=\"Text/"@ + decimal(v) + "_"@ + decimal(c) + ".xhtml\" href=\"Text/"@ + decimal(v)
            + "_"@ + decimal(c) + ".xhtml\" media-type=\"application/xhtml+xml\" />"@,
    );
    // The spine entry.
    let sf = |a: nat, b: nat| spine_item(a, b);
    lemma_each_chapter_has(vols, sf, vi, ci);
    lemma_spine_item_shape(v, c);
    lemma_contains_trans(
        each_chapter(vols, sf),
        sf(v, c),
        "<itemref idref=\"Text/"@ + decimal(v) + "_"@ + decimal(c) + ".xhtml\" />"@,
    );
    lemma_spine_in_opf(book, "<itemref idref=\"Text/"@ + decimal(v) + "_"@ + decimal(c) + ".xhtml\" />"@);
    // The navigation entry.
    let title = vols[vi].chapters[ci].title;
    lemma_nav_items_has(vols, vi, ci);
    lemma_nav_chapter_shape(v, c, title);
    let np = "<li><a href=\"Text/"@ + decimal(v) + "_"@ + decimal(c) + ".xhtml\">"@ + xml_escaped(title)
        + "</a></li>"@;
    lemma_contains_trans(nav_items(vols), nav_chapter(v, c, title), np);
    let nt = nav_text(book);
    let ntail = "      </ol>\n    </nav>\n  </body>\n</html>\n"@;
    let npre = nt.subrange(0, nt.len() - nav_items(vols).len() - ntail.len());
    assert(nt =~= npre + nav_items(vols) + ntail);
    lemma_contains_within(nav_items(vols), np, npre, ntail);
}

/// Every downloaded image is declared in the EPUB 3 package document: the manifest
/// lists `Image/{name}` as a JPEG.
pub proof fn law_v3_image_declared(book: &Book, k: int)
    requires
        0 <= k < book.images@.len(),
    ensures
        contains_seq(
            opf_text(book),
            "<item id=\"Image/"@ + book.images@[k].0@ + "\" href=\"Image/"@ + book.images@[k].0@
                + "\" media-type=\"image/jpeg\" />"@,
        ),
{
    let names = names_of(book.images@);
    assert(names[k] == book.images@[k].0@);
    let name = names[k];
    let p = "<item id=\"Image/"@ + name + "\" href=\"Image/"@ + name + "\" media-type=\"image/jpeg\" />"@;
    lemma_image_items_has(names, k);
    lemma_image_item_shape(name);
    lemma_contains_trans(image_items(names), manifest_image_item(name), p);
    let m = opf_manifest(book);
    let ipart = image_items(names);
    let pre = m.subrange(0, m.len() - ipart.len());
    assert(m =~= pre + ipart);
    lemma_contains_after(ipart, p, pre);
    lemma_manifest_in_opf(book, p);
}


/// The package document names the book: its title, author and synopsis, escaped, as
/// `dc:title`, `dc:creator` and `dc:description`.
pub proof fn law_v3_metadata(book: &Book)
    ensures
        contains_seq(opf_text(book), "<dc:title>"@ + xml_escaped(book.title@) + "</dc:title>"@),
        contains_seq(opf_text(book), "<dc:creator>"@ + xml_escaped(book.author@) + "</dc:creator>"@),
        contains_seq(
            opf_text(book),
            "<dc:description>"@ + xml_escaped(book.intro@) + "</dc:description>"@,
        ),
{
    reveal_strlit("<?xml version=\"1.0\" encoding=\"utf-8\"?>\n<package xmlns=\"http://www.idpf.org/2007/opf\" version=\"3.0\" unique-identifier=\"PrimaryID\">\n  <metadata xmlns:dc=\"http://purl.org/dc/elements/1.1/\" xmlns:opf=\"http://www.idpf.org/2007/opf\">\n    <dc:title>");
    reveal_strlit("<?xml version=\"1.0\" encoding=\"utf-8\"?>\n<package xmlns=\"http://www.idpf.org/2007/opf\" version=\"3.0\" unique-identifier=\"PrimaryID\">\n  <metadata xmlns:dc=\"http://purl.org/dc/elements/1.1/\" xmlns:opf=\"http://www.idpf.org/2007/opf\">\n    ");
    reveal_strlit("<dc:title>");
    reveal_strlit("</dc:title>\n    <dc:identifier opf:scheme=\"ISBN\"/>\n    <dc:language>zh-CN</dc:language>\n    <dc:creator>");
    reveal_strlit("</dc:title>");
    reveal_strlit("\n    <dc:identifier opf:scheme=\"ISBN\"/>\n    <dc:language>zh-CN</dc:language>\n    ");
    reveal_strlit("<dc:creator>");
    reveal_strlit("</dc:description>\n  </metadata>\n  <manifest>\n");
    reveal_strlit("</dc:description>");
    reveal_strlit("\n  </metadata>\n  <manifest>\n");
    reveal_strlit("<dc:description>");
    reveal_strlit("</dc:creator>");
    reveal_strlit("</dc:creator>\n    <dc:description>");
    reveal_strlit("\n    ");
    let t = opf_text(book);
    let h = "<?xml version=\"1.0\" encoding=\"utf-8\"?>\n<package xmlns=\"http://www.idpf.org/2007/opf\" version=\"3.0\" unique-identifier=\"PrimaryID\">\n  <metadata xmlns:dc=\"http://purl.org/dc/elements/1.1/\" xmlns:opf=\"http://www.idpf.org/2007/opf\">\n    "@;
    let pt = "<dc:title>"@ + xml_escaped(book.title@) + "</dc:title>"@;
    let pc = "<dc:creator>"@ + xml_escaped(book.author@) + "</dc:creator>"@;
    let pd = "<dc:description>"@ + xml_escaped(book.intro@) + "</dc:description>"@;
    let rest = t.subrange((h.len() + pt.len() + "\n    <dc:identifier opf:scheme=\"ISBN\"/>\n    <dc:language>zh-CN</dc:language>\n    "@.len() + pc.len() + ("\n    "@).len() + pd.len()) as int, t.len() as int);
    assert(t =~= h + pt + ("\n    <dc:identifier opf:scheme=\"ISBN\"/>\n    <dc:language>zh-CN</dc:language>\n    "@ + pc + "\n    "@ + pd + rest));
    lemma_contains_middle(h, pt, "\n    <dc:identifier opf:scheme=\"ISBN\"/>\n    <dc:language>zh-CN</dc:language>\n    "@ + pc + "\n    "@ + pd + rest);
    assert(t =~= (h + pt + "\n    <dc:identifier opf:scheme=\"ISBN\"/>\n    <dc:language>zh-CN</dc:language>\n    "@) + pc + ("\n    "@ + pd + rest));
    lemma_contains_middle(h + pt + "\n    <dc:identifier opf:scheme=\"ISBN\"/>\n    <dc:language>zh-CN</dc:language>\n    "@, pc, "\n    "@ + pd + rest);
    assert(t =~= (h + pt + "\n    <dc:identifier opf:scheme=\"ISBN\"/>\n    <dc:language>zh-CN</dc:language>\n    "@ + pc + "\n    "@) + pd + rest);
    lemma_contains_middle(h + pt + "\n    <dc:identifier opf:scheme=\"ISBN\"/>\n    <dc:language>zh-CN</dc:language>\n    "@ + pc + "\n    "@, pd, rest);
}


/// Every volume has an entry in the navigation document that links its first chapter
/// page, `Text/{vi}_0.xhtml`, under the volume's name.
pub proof fn law_v3_volume_in_nav(book: &Book, vi: int)
    requires
        0 <= vi < book.volumes@.len(),
    ensures
        contains_seq(
            nav_text(book),
            "<li><a href=\"Text/"@ + decimal(vi as nat) + "_0.xhtml\">"@ + xml_escaped(
                book.volumes@[vi].name@,
            ) + "</a>"@,
        ),
{
    let vols = volumes_view(book.volumes@);
    assert(vols[vi].name == book.volumes@[vi].name@);
    crate::package::lemma_nav_items_has_volume(vols, vi);
    let p = "<li><a href=\"Text/"@ + decimal(vi as nat) + "_0.xhtml\">"@ + xml_escaped(vols[vi].name)
        + "</a>"@;
    let nt = nav_text(book);
    let ntail = "      </ol>\n    </nav>\n  </body>\n</html>\n"@;
    let npre = nt.subrange(0, nt.len() - nav_items(vols).len() - ntail.len());
    assert(nt =~= npre + nav_items(vols) + ntail);
    lemma_contains_within(nav_items(vols), p, npre, ntail);
}

} // verus!
