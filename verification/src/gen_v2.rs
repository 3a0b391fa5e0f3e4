//! The EPUB 2 package document (`content.opf`) and navigation control file (`toc.ncx`).
use vstd::prelude::*;

use crate::book::{chapter_count, lemma_chapter_count_bound, lemma_chapter_count_prefix};
use crate::error::Error;
use crate::model::{volumes_view, Book, ChapterV, EpubFile, VolumeV};
use crate::package::{
    each_chapter, image_items, lemma_each_chapter_has, lemma_image_item_shape,
    lemma_image_items_has, lemma_spine_item_shape, lemma_text_item_shape, manifest_image_item,
    manifest_text_item, names_of, push_image_items, push_text_id,
    push_text_items,
    spine_item, text_id,
};
use crate::text::{
    contains_seq, decimal, lemma_contains_after, lemma_contains_before, lemma_contains_middle,
    lemma_contains_trans, lemma_contains_within, push_decimal, push_decimal_wide, push_str, push_xml_escaped, utf8_of,
    xml_escaped,
};

verus! {

/// The manifest of the EPUB 2 package document.
pub open spec fn opf_manifest(book: &Book) -> Seq<char> {
    (if book.cover is Some {
        "  <item id=\"cover\" href=\"Image/cover.jpg\" media-type=\"image/jpeg\" />"@ + "\n"@
    } else {
        Seq::empty()
    }) + "  <item id=\"ncx\" href=\"toc.ncx\" media-type=\"application/x-dtbncx+xml\" />"@ + "\n"@
        + each_chapter(volumes_view(book.volumes@), |vi: nat, ci: nat| manifest_text_item(vi, ci))
        + image_items(names_of(book.images@))
}

/// The publisher line: empty when the library is unknown.
pub open spec fn publisher_line(library: Seq<char>) -> Seq<char> {
    if library.len() == 0 {
        Seq::empty()
    } else {
        "    <dc:publisher>"@ + xml_escaped(library) + "</dc:publisher>\n"@
    }
}

/// The EPUB 2 package document of `book`.
pub open spec fn opf_text(book: &Book) -> Seq<char> {
    "<?xml version=\"1.0\" encoding=\"utf-8\"?>\n<package xmlns=\"http://www.idpf.org/2007/opf\" version=\"2.0\" unique-identifier=\"PrimaryID\">\n  <metadata xmlns:dc=\"http://purl.org/dc/elements/1.1/\" xmlns:opf=\"http://www.idpf.org/2007/opf\">\n    <dc:title>"@
        + xml_escaped(book.title@)
        + "</dc:title>\n    <dc:identifier opf:scheme=\"ISBN\"/>\n    <dc:language>zh-CN</dc:language>\n    <dc:creator>"@
        + xml_escaped(book.author@) + "</dc:creator>\n"@ + publisher_line(book.library@)
        + "    <dc:description>"@ + xml_escaped(book.intro@)
        + "</dc:description>\n  </metadata>\n  <manifest>\n"@ + opf_manifest(book)
        + "  </manifest>\n  <spine toc=\"ncx\">\n"@ + each_chapter(
        volumes_view(book.volumes@),
        |vi: nat, ci: nat| spine_item(vi, ci),
    ) + "  </spine>\n</package>\n"@
}

/// The navigation point of chapter `ci` of volume `vi`, at play order `order`.
pub open spec fn ncx_chapter(vi: nat, ci: nat, order: nat, title: Seq<char>) -> Seq<char> {
    "      <navPoint id=\"v"@ + decimal(vi) + "_c"@ + decimal(ci) + "\" playOrder=\""@ + decimal(
        order,
    ) + "\">\n        <navLabel><text>"@ + xml_escaped(title)
        + "</text></navLabel>\n        <content src=\""@ + text_id(vi, ci)
        + "\" />\n      </navPoint>\n"@
}

/// The navigation points of the chapters of volume `vi`, whose own play order is `order`.
pub open spec fn ncx_chapters(vi: nat, chs: Seq<ChapterV>, order: nat) -> Seq<char>
    decreases chs.len(),
{
    if chs.len() == 0 {
        Seq::empty()
    } else {
        ncx_chapters(vi, chs.drop_last(), order) + ncx_chapter(
            vi,
            (chs.len() - 1) as nat,
            order + chs.len(),
            chs.last().title,
        )
    }
}

/// The navigation point of volume `vi` at play order `order`, its chapters nested.
pub open spec fn ncx_volume(vi: nat, vol: VolumeV, order: nat) -> Seq<char> {
    "    <navPoint id=\"v"@ + decimal(vi) + "\" playOrder=\""@ + decimal(order)
        + "\">\n      <navLabel><text>"@ + xml_escaped(vol.name)
        + "</text></navLabel>\n      <content src=\""@ + text_id(vi, 0) + "\" />\n"@
        + ncx_chapters(vi, vol.chapters, order) + "    </navPoint>\n"@
}

/// The navigation map: volumes and chapters numbered 1, 2, ... in reading order.
pub open spec fn nav_map(vols: Seq<VolumeV>) -> Seq<char>
    decreases vols.len(),
{
    if vols.len() == 0 {
        Seq::empty()
    } else {
        let vi = (vols.len() - 1) as nat;
        nav_map(vols.drop_last()) + ncx_volume(
            vi,
            vols.last(),
            vi + chapter_count(vols.drop_last()) + 1,
        )
    }
}

/// The navigation control file of `book`.
pub open spec fn ncx_text(book: &Book) -> Seq<char> {
    "<?xml version=\"1.0\" encoding=\"utf-8\"?>\n<ncx xmlns=\"http://www.daisy.org/z3986/2005/ncx/\" version=\"2005-1\">\n  <head>\n    <meta name=\"dtb:uid\" content=\"wenku2epub\" />\n  </head>\n  <docTitle><text>"@
        + xml_escaped(book.title@) + "</text></docTitle>\n  <navMap>\n"@ + nav_map(
        volumes_view(book.volumes@),
    ) + "  </navMap>\n</ncx>\n"@
}

/// The EPUB 2 package document and navigation control file of `book`.
pub fn generate(book: &Book) -> (res: Result<Vec<EpubFile>, Error>)
    ensures
        res matches Ok(files) && files@.len() == 2 && files@[0].path@ == "OEBPS/content.opf"@
            && files@[0].bytes@ == vstd::utf8::encode_utf8(opf_text(book)) && files@[1].path@
            == "OEBPS/toc.ncx"@ && files@[1].bytes@ == vstd::utf8::encode_utf8(ncx_text(book)),
{
    let mut files: Vec<EpubFile> = Vec::new();
    let opf = build_opf(book);
    files.push(EpubFile { path: "OEBPS/content.opf".to_owned(), bytes: utf8_of(opf.as_str()) });
    let ncx = build_ncx(book);
    files.push(EpubFile { path: "OEBPS/toc.ncx".to_owned(), bytes: utf8_of(ncx.as_str()) });
    Ok(files)
}

/// The EPUB 2 package document of `book`.
pub fn build_opf(book: &Book) -> (res: String)
    ensures
        res@ == opf_text(book),
{
    let mut manifest = String::new();
    let mut spine = String::new();
    if book.cover.is_some() {
        push_str(
            &mut manifest,
            "  <item id=\"cover\" href=\"Image/cover.jpg\" media-type=\"image/jpeg\" />",
        );
        push_str(&mut manifest, "\n");
    }
    push_str(
        &mut manifest,
        "  <item id=\"ncx\" href=\"toc.ncx\" media-type=\"application/x-dtbncx+xml\" />",
    );
    push_str(&mut manifest, "\n");
    push_text_items(&mut manifest, &mut spine, &book.volumes);
    push_image_items(&mut manifest, &book.images);
    assert(manifest@ =~= opf_manifest(book));
    let mut publisher = String::new();
    if !book.library.as_str().is_empty() {
        push_str(&mut publisher, "    <dc:publisher>");
        push_xml_escaped(&mut publisher, book.library.as_str());
        push_str(&mut publisher, "</dc:publisher>\n");
    }
    assert(publisher@ =~= publisher_line(book.library@));
    let mut out = String::new();
    push_str(
        &mut out,
        "<?xml version=\"1.0\" encoding=\"utf-8\"?>\n<package xmlns=\"http://www.idpf.org/2007/opf\" version=\"2.0\" unique-identifier=\"PrimaryID\">\n  <metadata xmlns:dc=\"http://purl.org/dc/elements/1.1/\" xmlns:opf=\"http://www.idpf.org/2007/opf\">\n    <dc:title>",
    );
    push_xml_escaped(&mut out, book.title.as_str());
    push_str(
        &mut out,
        "</dc:title>\n    <dc:identifier opf:scheme=\"ISBN\"/>\n    <dc:language>zh-CN</dc:language>\n    <dc:creator>",
    );
    push_xml_escaped(&mut out, book.author.as_str());
    push_str(&mut out, "</dc:creator>\n");
    push_str(&mut out, publisher.as_str());
    push_str(&mut out, "    <dc:description>");
    push_xml_escaped(&mut out, book.intro.as_str());
    push_str(&mut out, "</dc:description>\n  </metadata>\n  <manifest>\n");
    push_str(&mut out, manifest.as_str());
    push_str(&mut out, "  </manifest>\n  <spine toc=\"ncx\">\n");
    push_str(&mut out, spine.as_str());
    push_str(&mut out, "  </spine>\n</package>\n");
    assert(out@ =~= opf_text(book));
    out
}

/// The navigation control file of `book`.
pub fn build_ncx(book: &Book) -> (res: String)
    ensures
        res@ == ncx_text(book),
{
    let vols = &book.volumes;
    let ghost all = volumes_view(vols@);
    proof {
        assert forall|k: int| 0 <= k < all.len() implies (#[trigger] all[k]).chapters.len()
            <= usize::MAX by {
            assert(all[k].chapters.len() == vols@[k].chapters@.len());
            assert(vols@[k].chapters@.len() == vols@[k].chapters.len());
        }
        lemma_chapter_count_bound(all);
    }
    let mut map = String::new();
    let mut order: u128 = 0;
    let mut vi: usize = 0;
    while vi < vols.len()
        invariant
            vi <= vols.len(),
            all == volumes_view(vols@),
            chapter_count(all) <= all.len() * (usize::MAX as nat),
            order as nat == vi + chapter_count(all.take(vi as int)),
            map@ == nav_map(all.take(vi as int)),
        decreases vols.len() - vi,
    {
        let vol = &vols[vi];
        let ghost m0 = map@;
        assert(all.take(vi + 1).drop_last() =~= all.take(vi as int));
        assert(all.take(vi + 1).last() == vol@);
        proof {
            lemma_chapter_count_prefix(all, vi + 1);
            assert(order + 1 + vol.chapters@.len() <= u128::MAX) by {
                let c = chapter_count(all);
                assert(c <= all.len() * (usize::MAX as nat));
                assert(vi + c + 1 <= u128::MAX) by (nonlinear_arith)
                    requires
                        c <= all.len() * (usize::MAX as nat),
                        all.len() <= usize::MAX,
                        vi <= usize::MAX,
                        usize::MAX <= 0xffff_ffff_ffff_ffff,
                ;
            }
        }
        order = order + 1;
        let vol_order = order;
        push_str(&mut map, "    <navPoint id=\"v");
        push_decimal(&mut map, vi);
        push_str(&mut map, "\" playOrder=\"");
        push_decimal_wide(&mut map, vol_order);
        push_str(&mut map, "\">\n      <navLabel><text>");
        push_xml_escaped(&mut map, vol.name.as_str());
        push_str(&mut map, "</text></navLabel>\n      <content src=\"");
        push_text_id(&mut map, vi, 0);
        push_str(&mut map, "\" />\n");
        let ghost m1 = map@;
        let ghost chs = vol@.chapters;
        let mut ci: usize = 0;
        while ci < vol.chapters.len()
            invariant
                ci <= vol.chapters.len(),
                chs == vol@.chapters,
                order == vol_order + ci,
                vol_order + vol.chapters@.len() <= u128::MAX,
                map@ == m1 + ncx_chapters(vi as nat, chs.take(ci as int), vol_order as nat),
            decreases vol.chapters.len() - ci,
        {
            let ghost m2 = map@;
            order = order + 1;
            push_str(&mut map, "      <navPoint id=\"v");
            push_decimal(&mut map, vi);
            push_str(&mut map, "_c");
            push_decimal(&mut map, ci);
            push_str(&mut map, "\" playOrder=\"");
            push_decimal_wide(&mut map, order);
            push_str(&mut map, "\">\n        <navLabel><text>");
            push_xml_escaped(&mut map, vol.chapters[ci].title.as_str());
            push_str(&mut map, "</text></navLabel>\n        <content src=\"");
            push_text_id(&mut map, vi, ci);
            push_str(&mut map, "\" />\n      </navPoint>\n");
            assert(chs.take(ci + 1).drop_last() =~= chs.take(ci as int));
            assert(map@ =~= m2 + ncx_chapter(
                vi as nat,
                ci as nat,
                (vol_order + ci + 1) as nat,
                chs[ci as int].title,
            ));
            ci += 1;
        }
        push_str(&mut map, "    </navPoint>\n");
        assert(chs.take(ci as int) =~= chs);
        assert(map@ =~= m0 + ncx_volume(vi as nat, vol@, vol_order as nat));
        vi += 1;
    }
    assert(all.take(vi as int) =~= all);
    let mut out = String::new();
    push_str(
        &mut out,
        "<?xml version=\"1.0\" encoding=\"utf-8\"?>\n<ncx xmlns=\"http://www.daisy.org/z3986/2005/ncx/\" version=\"2005-1\">\n  <head>\n    <meta name=\"dtb:uid\" content=\"wenku2epub\" />\n  </head>\n  <docTitle><text>",
    );
    push_xml_escaped(&mut out, book.title.as_str());
    push_str(&mut out, "</text></docTitle>\n  <navMap>\n");
    push_str(&mut out, map.as_str());
    push_str(&mut out, "  </navMap>\n</ncx>\n");
    assert(out@ =~= ncx_text(book));
    out
}


// ---------------------------------------------------------------------------
// Laws
// ---------------------------------------------------------------------------

/// The navigation point of chapter `ci` of volume `vi`, from its id to its link:
/// play order `order`, label `title`, pointing at the page `Text/{vi}_{ci}.xhtml`.
pub open spec fn chapter_nav_point(vi: nat, ci: nat, order: nat, title: Seq<char>) -> Seq<char> {
    "<navPoint id=\"v"@ + decimal(vi) + "_c"@ + decimal(ci) + "\" playOrder=\""@ + decimal(order)
        + "\">\n        <navLabel><text>"@ + xml_escaped(title)
        + "</text></navLabel>\n        <content src=\"Text/"@ + decimal(vi) + "_"@ + decimal(ci)
        + ".xhtml\" />"@
}

proof fn lemma_ncx_chapter_has_point(vi: nat, ci: nat, order: nat, title: Seq<char>)
    ensures
        contains_seq(ncx_chapter(vi, ci, order, title), chapter_nav_point(vi, ci, order, title)),
{
    reveal_strlit("      <navPoint id=\"v");
    reveal_strlit("      ");
    reveal_strlit("<navPoint id=\"v");
    reveal_strlit("</text></navLabel>\n        <content src=\"");
    reveal_strlit("</text></navLabel>\n        <content src=\"Text/");
    reveal_strlit("Text/");
    reveal_strlit("\" />\n      </navPoint>\n");
    reveal_strlit(".xhtml");
    reveal_strlit(".xhtml\" />");
    reveal_strlit("\n      </navPoint>\n");
    let p = chapter_nav_point(vi, ci, order, title);
    assert(ncx_chapter(vi, ci, order, title) =~= "      "@ + p + "\n      </navPoint>\n"@);
    lemma_contains_middle("      "@, p, "\n      </navPoint>\n"@);
}

proof fn lemma_ncx_chapters_have_point(vi: nat, chs: Seq<ChapterV>, order: nat, ci: int)
    requires
        0 <= ci < chs.len(),
    ensures
        contains_seq(
            ncx_chapters(vi, chs, order),
            chapter_nav_point(vi, ci as nat, (order + ci + 1) as nat, chs[ci].title),
        ),
    decreases chs.len(),
{
    let p = chapter_nav_point(vi, ci as nat, (order + ci + 1) as nat, chs[ci].title);
    let last = ncx_chapter(vi, (chs.len() - 1) as nat, order + chs.len(), chs.last().title);
    if ci == chs.len() - 1 {
        lemma_ncx_chapter_has_point(vi, ci as nat, (order + ci + 1) as nat, chs[ci].title);
        lemma_contains_after(last, p, ncx_chapters(vi, chs.drop_last(), order));
    } else {
        lemma_ncx_chapters_have_point(vi, chs.drop_last(), order, ci);
        assert(chs.drop_last()[ci] == chs[ci]);
        lemma_contains_before(ncx_chapters(vi, chs.drop_last(), order), p, last);
    }
}

proof fn lemma_nav_map_has_point(vols: Seq<VolumeV>, vi: int, ci: int)
    requires
        0 <= vi < vols.len(),
        0 <= ci < vols[vi].chapters.len(),
    ensures
        contains_seq(
            nav_map(vols),
            chapter_nav_point(
                vi as nat,
                ci as nat,
                (vi + chapter_count(vols.take(vi)) + ci + 2) as nat,
                vols[vi].chapters[ci].title,
            ),
        ),
    decreases vols.len(),
{
    let p = chapter_nav_point(
        vi as nat,
        ci as nat,
        (vi + chapter_count(vols.take(vi)) + ci + 2) as nat,
        vols[vi].chapters[ci].title,
    );
    let n = (vols.len() - 1) as nat;
    let vol_order = n + chapter_count(vols.drop_last()) + 1;
    let vpart = ncx_volume(n, vols.last(), vol_order);
    if vi == vols.len() - 1 {
        assert(vols.drop_last() =~= vols.take(vi));
        lemma_ncx_chapters_have_point(vi as nat, vols.last().chapters, vol_order, ci);
        let head = "    <navPoint id=\"v"@ + decimal(n) + "\" playOrder=\""@ + decimal(vol_order)
            + "\">\n      <navLabel><text>"@ + xml_escaped(vols.last().name)
            + "</text></navLabel>\n      <content src=\""@ + text_id(n, 0) + "\" />\n"@;
        let chs = ncx_chapters(n, vols.last().chapters, vol_order);
        assert(vpart =~= head + chs + "    </navPoint>\n"@);
        lemma_contains_within(chs, p, head, "    </navPoint>\n"@);
        lemma_contains_after(vpart, p, nav_map(vols.drop_last()));
    } else {
        assert(vols.drop_last().take(vi) =~= vols.take(vi));
        assert(vols.drop_last()[vi] == vols[vi]);
        lemma_nav_map_has_point(vols.drop_last(), vi, ci);
        lemma_contains_before(nav_map(vols.drop_last()), p, vpart);
    }
}

/// Every chapter has its navigation point in the EPUB 2 navigation control file: the
/// point of chapter `ci` of volume `vi` has the id `v{vi}_c{ci}`, the chapter's title as
/// label, play order `vi + 2 + ci` plus the chapters of the earlier volumes (volumes and
/// chapters numbered 1, 2, … in reading order), and links to that chapter's own page
/// `Text/{vi}_{ci}.xhtml`.
pub proof fn law_ncx_links_each_chapter(book: &Book, vi: int, ci: int)
    requires
        0 <= vi < book.volumes@.len(),
        0 <= ci < book.volumes@[vi].chapters@.len(),
    ensures
        ({
            let order = vi + chapter_count(volumes_view(book.volumes@).take(vi)) + ci + 2;
            contains_seq(
                ncx_text(book),
                "<navPoint id=\"v"@ + decimal(vi as nat) + "_c"@ + decimal(ci as nat)
                    + "\" playOrder=\""@ + decimal(order as nat)
                    + "\">\n        <navLabel><text>"@ + xml_escaped(
                    book.volumes@[vi].chapters@[ci].title@,
                ) + "</text></navLabel>\n        <content src=\"Text/"@ + decimal(vi as nat) + "_"@
                    + decimal(ci as nat) + ".xhtml\" />"@,
            )
        }),
{
    let vols = volumes_view(book.volumes@);
    assert(vols[vi].chapters[ci].title == book.volumes@[vi].chapters@[ci].title@);
    lemma_nav_map_has_point(vols, vi, ci);
    let head = "<?xml version=\"1.0\" encoding=\"utf-8\"?>\n<ncx xmlns=\"http://www.daisy.org/z3986/2005/ncx/\" version=\"2005-1\">\n  <head>\n    <meta name=\"dtb:uid\" content=\"wenku2epub\" />\n  </head>\n  <docTitle><text>"@
        + xml_escaped(book.title@) + "</text></docTitle>\n  <navMap>\n"@;
    assert(ncx_text(book) =~= head + nav_map(vols) + "  </navMap>\n</ncx>\n"@);
    lemma_contains_within(
        nav_map(vols),
        chapter_nav_point(
            vi as nat,
            ci as nat,
            (vi + chapter_count(vols.take(vi)) + ci + 2) as nat,
            vols[vi].chapters[ci].title,
        ),
        head,
        "  </navMap>\n</ncx>\n"@,
    );
}

/// What occurs in the manifest occurs in the package document.
proof fn lemma_manifest_in_opf(book: &Book, p: Seq<char>)
    requires
        contains_seq(opf_manifest(book), p),
    ensures
        contains_seq(opf_text(book), p),
{
    let m = opf_manifest(book);
    let t = opf_text(book);
    let rest = "  </manifest>\n  <spine toc=\"ncx\">\n"@ + each_chapter(
        volumes_view(book.volumes@),
        |vi: nat, ci: nat| spine_item(vi, ci),
    ) + "  </spine>\n</package>\n"@;
    let k = t.len() - m.len() - rest.len();
    let pre = t.subrange(0, k);
    let post = t.subrange(k + m.len(), t.len() as int);
    assert(t =~= pre + m + post);
    lemma_contains_within(m, p, pre, post);
}

/// A book with a cover has it declared in its EPUB 2 package document: the manifest
/// lists `Image/cover.jpg` as a JPEG.
pub proof fn law_v2_cover_declared(book: &Book)
    requires
        book.cover is Some,
    ensures
        contains_seq(
            opf_text(book),
            "<item id=\"cover\" href=\"Image/cover.jpg\" media-type=\"image/jpeg\" />"@,
        ),
{
    let p = "<item id=\"cover\" href=\"Image/cover.jpg\" media-type=\"image/jpeg\" />"@;
    reveal_strlit("<item id=\"cover\" href=\"Image/cover.jpg\" media-type=\"image/jpeg\" />");
    reveal_strlit("  <item id=\"cover\" href=\"Image/cover.jpg\" media-type=\"image/jpeg\" />");
    reveal_strlit("  ");
    let m = opf_manifest(book);
    let rest = m.subrange((p.len() + 2) as int, m.len() as int);
    assert(m =~= "  "@ + p + rest);
    lemma_contains_middle("  "@, p, rest);
    lemma_manifest_in_opf(book, p);
}

/// Every chapter page is declared in the EPUB 2 package document and read in its
/// spine: the manifest lists `Text/{vi}_{ci}.xhtml` as XHTML and the spine has an
/// `itemref` to it.
pub proof fn law_v2_chapter_declared(book: &Book, vi: int, ci: int)
    requires
        0 <= vi < book.volumes@.len(),
        0 <= ci < book.volumes@[vi].chapters@.len(),
    ensures
        contains_seq(
            opf_text(book),
            "<item id=\"Text/"@ + decimal(vi as nat) + "_"@ + decimal(ci as nat)
                + ".xhtml\" href=\"Text/"@ + decimal(vi as nat) + "_"@ + decimal(ci as nat)
                + ".xhtml\" media-type=\"application/xhtml+xml\" />"@,
        ),
        contains_seq(
            opf_text(book),
            "<itemref idref=\"Text/"@ + decimal(vi as nat) + "_"@ + decimal(ci as nat)
                + ".xhtml\" />"@,
        ),
{
    let vols = volumes_view(book.volumes@);
    assert(vols[vi].chapters.len() == book.volumes@[vi].chapters@.len());
    let (v, c) = (vi as nat, ci as nat);
    let mf = |a: nat, b: nat| manifest_text_item(a, b);
    lemma_each_chapter_has(vols, mf, vi, ci);
    let e = each_chapter(vols, mf);
    let m = opf_manifest(book);
    let ipart = image_items(names_of(book.images@));
    let pre = m.subrange(0, m.len() - e.len() - ipart.len());
    assert(m =~= pre + e + ipart);
    lemma_contains_within(e, mf(v, c), pre, ipart);
    lemma_text_item_shape(v, c);
    let ip = "<item id=\"Text/"@ + decimal(v) + "_"@ + decimal(c) + ".xhtml\" href=\"Text/"@ + decimal(
        v,
    ) + "_"@ + decimal(c) + ".xhtml\" media-type=\"application/xhtml+xml\" />"@;
    lemma_contains_trans(m, mf(v, c), ip);
    lemma_manifest_in_opf(book, ip);
    let sf = |a: nat, b: nat| spine_item(a, b);
    lemma_each_chapter_has(vols, sf, vi, ci);
    lemma_spine_item_shape(v, c);
    let sp = "<itemref idref=\"Text/"@ + decimal(v) + "_"@ + decimal(c) + ".xhtml\" />"@;
    let spine = each_chapter(vols, sf);
    lemma_contains_trans(spine, sf(v, c), sp);
    let t = opf_text(book);
    let tail = "  </spine>\n</package>\n"@;
    let spre = t.subrange(0, t.len() - spine.len() - tail.len());
    assert(t =~= spre + spine + tail);
    lemma_contains_within(spine, sp, spre, tail);
}

/// Every downloaded image is declared in the EPUB 2 package document: the manifest
/// lists `Image/{name}` as a JPEG.
pub proof fn law_v2_image_declared(book: &Book, k: int)
    requires
        0 <= k < book.images@.len(),
    ensures
        contains_seq(
            opf_text(book),
            "<item id=\"Image/"@ + book.images@[k].0@ + "\" href=\"Image/"@ + book.images@[k].0@
                + "\" media-type=\"image/jpeg\" />"@,
        ),
{
    let names = names_of(book.images@);
    assert(names[k] == book.images@[k].0@);
    let name = names[k];
    let p = "<item id=\"Image/"@ + name + "\" href=\"Image/"@ + name + "\" media-type=\"image/jpeg\" />"@;
    lemma_image_items_has(names, k);
    lemma_image_item_shape(name);
    lemma_contains_trans(image_items(names), manifest_image_item(name), p);
    let m = opf_manifest(book);
    let ipart = image_items(names);
    let pre = m.subrange(0, m.len() - ipart.len());
    assert(m =~= pre + ipart);
    lemma_contains_after(ipart, p, pre);
    lemma_manifest_in_opf(book, p);
}


/// The package document names the book: its title, author and synopsis, escaped, as
/// `dc:title`, `dc:creator` and `dc:description`.
pub proof fn law_v2_metadata(book: &Book)
    ensures
        contains_seq(opf_text(book), "<dc:title>"@ + xml_escaped(book.title@) + "</dc:title>"@),
        contains_seq(opf_text(book), "<dc:creator>"@ + xml_escaped(book.author@) + "</dc:creator>"@),
        contains_seq(
            opf_text(book),
            "<dc:description>"@ + xml_escaped(book.intro@) + "</dc:description>"@,
        ),
{
    reveal_strlit("<?xml version=\"1.0\" encoding=\"utf-8\"?>\n<package xmlns=\"http://www.idpf.org/2007/opf\" version=\"2.0\" unique-identifier=\"PrimaryID\">\n  <metadata xmlns:dc=\"http://purl.org/dc/elements/1.1/\" xmlns:opf=\"http://www.idpf.org/2007/opf\">\n    <dc:title>");
    reveal_strlit("<?xml version=\"1.0\" encoding=\"utf-8\"?>\n<package xmlns=\"http://www.idpf.org/2007/opf\" version=\"2.0\" unique-identifier=\"PrimaryID\">\n  <metadata xmlns:dc=\"http://purl.org/dc/elements/1.1/\" xmlns:opf=\"http://www.idpf.org/2007/opf\">\n    ");
    reveal_strlit("<dc:title>");
    reveal_strlit("</dc:title>\n    <dc:identifier opf:scheme=\"ISBN\"/>\n    <dc:language>zh-CN</dc:language>\n    <dc:creator>");
    reveal_strlit("</dc:title>");
    reveal_strlit("\n    <dc:identifier opf:scheme=\"ISBN\"/>\n    <dc:language>zh-CN</dc:language>\n    ");
    reveal_strlit("<dc:creator>");
    reveal_strlit("</dc:description>\n  </metadata>\n  <manifest>\n");
    reveal_strlit("</dc:description>");
    reveal_strlit("\n  </metadata>\n  <manifest>\n");
    reveal_strlit("<dc:description>");
    reveal_strlit("</dc:creator>");
    reveal_strlit("</dc:creator>\n");
    reveal_strlit("    <dc:description>");
    reveal_strlit("    ");
    reveal_strlit("\n");
    let t = opf_text(book);
    let h = "<?xml version=\"1.0\" encoding=\"utf-8\"?>\n<package xmlns=\"http://www.idpf.org/2007/opf\" version=\"2.0\" unique-identifier=\"PrimaryID\">\n  <metadata xmlns:dc=\"http://purl.org/dc/elements/1.1/\" xmlns:opf=\"http://www.idpf.org/2007/opf\">\n    "@;
    let pt = "<dc:title>"@ + xml_escaped(book.title@) + "</dc:title>"@;
    let pc = "<dc:creator>"@ + xml_escaped(book.author@) + "</dc:creator>"@;
    let pd = "<dc:description>"@ + xml_escaped(book.intro@) + "</dc:description>"@;
    let rest = t.subrange((h.len() + pt.len() + "\n    <dc:identifier opf:scheme=\"ISBN\"/>\n    <dc:language>zh-CN</dc:language>\n    "@.len() + pc.len() + ("\n"@ + publisher_line(book.library@) + "    "@).len() + pd.len()) as int, t.len() as int);
    assert(t =~= h + pt + ("\n    <dc:identifier opf:scheme=\"ISBN\"/>\n    <dc:language>zh-CN</dc:language>\n    "@ + pc + "\n"@ + publisher_line(book.library@) + "    "@ + pd + rest));
    lemma_contains_middle(h, pt, "\n    <dc:identifier opf:scheme=\"ISBN\"/>\n    <dc:language>zh-CN</dc:language>\n    "@ + pc + "\n"@ + publisher_line(book.library@) + "    "@ + pd + rest);
    assert(t =~= (h + pt + "\n    <dc:identifier opf:scheme=\"ISBN\"/>\n    <dc:language>zh-CN</dc:language>\n    "@) + pc + ("\n"@ + publisher_line(book.library@) + "    "@ + pd + rest));
    lemma_contains_middle(h + pt + "\n    <dc:identifier opf:scheme=\"ISBN\"/>\n    <dc:language>zh-CN</dc:language>\n    "@, pc, "\n"@ + publisher_line(book.library@) + "    "@ + pd + rest);
    assert(t =~= (h + pt + "\n    <dc:identifier opf:scheme=\"ISBN\"/>\n    <dc:language>zh-CN</dc:language>\n    "@ + pc + "\n"@ + publisher_line(book.library@) + "    "@) + pd + rest);
    lemma_contains_middle(h + pt + "\n    <dc:identifier opf:scheme=\"ISBN\"/>\n    <dc:language>zh-CN</dc:language>\n    "@ + pc + "\n"@ + publisher_line(book.library@) + "    "@, pd, rest);
}


proof fn lemma_ncx_volume_has_point(n: nat, vol: VolumeV, order: nat)
    ensures
        contains_seq(
            ncx_volume(n, vol, order),
            "<navPoint id=\"v"@ + decimal(n) + "\" playOrder=\""@ + decimal(order)
                + "\">\n      <navLabel><text>"@ + xml_escaped(vol.name)
                + "</text></navLabel>\n      <content src=\"Text/"@ + decimal(n) + "_0.xhtml\" />"@,
        ),
{
    let p = "<navPoint id=\"v"@ + decimal(n) + "\" playOrder=\""@ + decimal(order)
        + "\">\n      <navLabel><text>"@ + xml_escaped(vol.name)
        + "</text></navLabel>\n      <content src=\"Text/"@ + decimal(n) + "_0.xhtml\" />"@;
    reveal_strlit("    <navPoint id=\"v");
    reveal_strlit("    ");
    reveal_strlit("<navPoint id=\"v");
    reveal_strlit("</text></navLabel>\n      <content src=\"");
    reveal_strlit("</text></navLabel>\n      <content src=\"Text/");
    reveal_strlit("Text/");
    reveal_strlit("_");
    reveal_strlit(".xhtml");
    reveal_strlit("\" />\n");
    reveal_strlit("_0.xhtml\" />");
    reveal_strlit("\n");
    assert(decimal(0) =~= seq!['0']);
    let rest = "\n"@ + ncx_chapters(n, vol.chapters, order) + "    </navPoint>\n"@;
    assert(ncx_volume(n, vol, order) =~= "    "@ + p + rest);
    lemma_contains_middle("    "@, p, rest);
}

proof fn lemma_nav_map_has_volume(vols: Seq<VolumeV>, vi: int)
    requires
        0 <= vi < vols.len(),
    ensures
        contains_seq(
            nav_map(vols),
            "<navPoint id=\"v"@ + decimal(vi as nat) + "\" playOrder=\""@ + decimal(
                (vi + chapter_count(vols.take(vi)) + 1) as nat,
            ) + "\">\n      <navLabel><text>"@ + xml_escaped(vols[vi].name)
                + "</text></navLabel>\n      <content src=\"Text/"@ + decimal(vi as nat)
                + "_0.xhtml\" />"@,
        ),
    decreases vols.len(),
{
    let n = (vols.len() - 1) as nat;
    let vol_order = n + chapter_count(vols.drop_last()) + 1;
    let vpart = ncx_volume(n, vols.last(), vol_order);
    let prev = nav_map(vols.drop_last());
    let p = "<navPoint id=\"v"@ + decimal(vi as nat) + "\" playOrder=\""@ + decimal(
        (vi + chapter_count(vols.take(vi)) + 1) as nat,
    ) + "\">\n      <navLabel><text>"@ + xml_escaped(vols[vi].name)
        + "</text></navLabel>\n      <content src=\"Text/"@ + decimal(vi as nat) + "_0.xhtml\" />"@;
    if vi == vols.len() - 1 {
        assert(vols.drop_last() =~= vols.take(vi));
        lemma_ncx_volume_has_point(n, vols.last(), vol_order);
        lemma_contains_after(vpart, p, prev);
    } else {
        assert(vols.drop_last().take(vi) =~= vols.take(vi));
        assert(vols.drop_last()[vi] == vols[vi]);
        lemma_nav_map_has_volume(vols.drop_last(), vi);
        lemma_contains_before(prev, p, vpart);
    }
}

/// Every volume has its navigation point in the EPUB 2 navigation control file: id
/// `v{vi}`, the volume's name as label, play order `vi + 1` plus the chapters of the
/// earlier volumes, linking the volume's first chapter page `Text/{vi}_0.xhtml`.
pub proof fn law_ncx_links_each_volume(book: &Book, vi: int)
    requires
        0 <= vi < book.volumes@.len(),
    ensures
        contains_seq(
            ncx_text(book),
            "<navPoint id=\"v"@ + decimal(vi as nat) + "\" playOrder=\""@ + decimal(
                (vi + chapter_count(volumes_view(book.volumes@).take(vi)) + 1) as nat,
            ) + "\">\n      <navLabel><text>"@ + xml_escaped(book.volumes@[vi].name@)
                + "</text></navLabel>\n      <content src=\"Text/"@ + decimal(vi as nat)
                + "_0.xhtml\" />"@,
        ),
{
    let vols = volumes_view(book.volumes@);
    assert(vols[vi].name == book.volumes@[vi].name@);
    lemma_nav_map_has_volume(vols, vi);
    let p = "<navPoint id=\"v"@ + decimal(vi as nat) + "\" playOrder=\""@ + decimal(
        (vi + chapter_count(vols.take(vi)) + 1) as nat,
    ) + "\">\n      <navLabel><text>"@ + xml_escaped(vols[vi].name)
        + "</text></navLabel>\n      <content src=\"Text/"@ + decimal(vi as nat) + "_0.xhtml\" />"@;
    let head = "<?xml version=\"1.0\" encoding=\"utf-8\"?>\n<ncx xmlns=\"http://www.daisy.org/z3986/2005/ncx/\" version=\"2005-1\">\n  <head>\n    <meta name=\"dtb:uid\" content=\"wenku2epub\" />\n  </head>\n  <docTitle><text>"@
        + xml_escaped(book.title@) + "</text></docTitle>\n  <navMap>\n"@;
    assert(ncx_text(book) =~= head + nav_map(vols) + "  </navMap>\n</ncx>\n"@);
    lemma_contains_within(nav_map(vols), p, head, "  </navMap>\n</ncx>\n"@);
}
} // verus!
