//! Pieces shared by the EPUB package documents: manifest and spine entries for
//! chapter pages and images, and the navigation list.
use vstd::prelude::*;

use crate::model::{volumes_view, Volume, VolumeV};
use crate::text::{
    attr_escaped, decimal, push_attr_escaped, push_decimal, push_str, push_xml_escaped,
    xml_escaped,
};

verus! {

/// The archive path of chapter `ci` of volume `vi`, relative to `OEBPS/`.
pub open spec fn text_id(vi: nat, ci: nat) -> Seq<char> {
    "Text/"@ + decimal(vi) + "_"@ + decimal(ci) + ".xhtml"@
}

/// The manifest entry of a chapter page.
pub open spec fn manifest_text_item(vi: nat, ci: nat) -> Seq<char> {
    "  <item id=\""@ + text_id(vi, ci) + "\" href=\""@ + text_id(vi, ci)
        + "\" media-type=\"application/xhtml+xml\" />\n"@
}

/// The spine entry of a chapter page.
pub open spec fn spine_item(vi: nat, ci: nat) -> Seq<char> {
    "    <itemref idref=\""@ + text_id(vi, ci) + "\" />\n"@
}

/// `f(vi, 0) + ... + f(vi, n - 1)`.
pub open spec fn each_index(vi: nat, n: nat, f: spec_fn(nat, nat) -> Seq<char>) -> Seq<char>
    decreases n,
{
    if n == 0 {
        Seq::empty()
    } else {
        each_index(vi, (n - 1) as nat, f) + f(vi, (n - 1) as nat)
    }
}

/// `f(vi, ci)` for every chapter `ci` of every volume `vi`, in order.
pub open spec fn each_chapter(vols: Seq<VolumeV>, f: spec_fn(nat, nat) -> Seq<char>) -> Seq<char>
    decreases vols.len(),
{
    if vols.len() == 0 {
        Seq::empty()
    } else {
        each_chapter(vols.drop_last(), f) + each_index(
            (vols.len() - 1) as nat,
            vols.last().chapters.len(),
            f,
        )
    }
}

/// The manifest entry of an image.
pub open spec fn manifest_image_item(name: Seq<char>) -> Seq<char> {
    "  <item id=\"Image/"@ + name + "\" href=\"Image/"@ + name + "\" media-type=\"image/jpeg\" />\n"@
}

/// The manifest entries of the named images, in order.
pub open spec fn image_items(names: Seq<Seq<char>>) -> Seq<char>
    decreases names.len(),
{
    if names.len() == 0 {
        Seq::empty()
    } else {
        image_items(names.drop_last()) + manifest_image_item(names.last())
    }
}

/// The names of a list of (name, value) pairs.
pub open spec fn names_of<T>(entries: Seq<(String, T)>) -> Seq<Seq<char>> {
    entries.map_values(|e: (String, T)| e.0@)
}

/// The navigation entry of one chapter.
pub open spec fn nav_chapter(vi: nat, ci: nat, title: Seq<char>) -> Seq<char> {
    "        <li><a href=\""@ + text_id(vi, ci) + "\">"@ + xml_escaped(title) + "</a></li>\n"@
}

/// The navigation entries of the first `chs.len()` chapters of volume `vi`.
pub open spec fn nav_chapters(vi: nat, chs: Seq<crate::model::ChapterV>) -> Seq<char>
    decreases chs.len(),
{
    if chs.len() == 0 {
        Seq::empty()
    } else {
        nav_chapters(vi, chs.drop_last()) + nav_chapter(
            vi,
            (chs.len() - 1) as nat,
            chs.last().title,
        )
    }
}

/// The navigation entry of volume `vi`, with its chapters nested in it.
pub open spec fn nav_volume(vi: nat, vol: VolumeV) -> Seq<char> {
    "    <li><a href=\""@ + text_id(vi, 0) + "\">"@ + xml_escaped(vol.name) + "</a>\n"@
        + "      <ol>\n"@ + nav_chapters(vi, vol.chapters) + "      </ol>\n    </li>\n"@
}

/// The navigation entries of all volumes, in order.
pub open spec fn nav_items(vols: Seq<VolumeV>) -> Seq<char>
    decreases vols.len(),
{
    if vols.len() == 0 {
        Seq::empty()
    } else {
        nav_items(vols.drop_last()) + nav_volume((vols.len() - 1) as nat, vols.last())
    }
}

/// Appends the archive path of chapter `ci` of volume `vi`.
pub fn push_text_id(out: &mut String, vi: usize, ci: usize)
    ensures
        final(out)@ == old(out)@ + text_id(vi as nat, ci as nat),
{
    push_str(out, "Text/");
    push_decimal(out, vi);
    push_str(out, "_");
    push_decimal(out, ci);
    push_str(out, ".xhtml");
    assert(out@ =~= old(out)@ + text_id(vi as nat, ci as nat));
}

/// Appends the manifest and spine entries of every chapter page.
pub fn push_text_items(manifest: &mut String, spine: &mut String, vols: &Vec<Volume>)
    ensures
        final(manifest)@ == old(manifest)@ + each_chapter(
            volumes_view(vols@),
            |vi: nat, ci: nat| manifest_text_item(vi, ci),
        ),
        final(spine)@ == old(spine)@ + each_chapter(
            volumes_view(vols@),
            |vi: nat, ci: nat| spine_item(vi, ci),
        ),
{
    let ghost all = volumes_view(vols@);
    let ghost fm = |vi: nat, ci: nat| manifest_text_item(vi, ci);
    let ghost fs = |vi: nat, ci: nat| spine_item(vi, ci);
    let mut vi: usize = 0;
    while vi < vols.len()
        invariant
            vi <= vols.len(),
            all == volumes_view(vols@),
            fm == (|vi: nat, ci: nat| manifest_text_item(vi, ci)),
            fs == (|vi: nat, ci: nat| spine_item(vi, ci)),
            manifest@ == old(manifest)@ + each_chapter(all.take(vi as int), fm),
            spine@ == old(spine)@ + each_chapter(all.take(vi as int), fs),
        decreases vols.len() - vi,
    {
        let n = vols[vi].chapters.len();
        let ghost m0 = manifest@;
        let ghost s0 = spine@;
        let mut ci: usize = 0;
        while ci < n
            invariant
                ci <= n,
                fm == (|vi: nat, ci: nat| manifest_text_item(vi, ci)),
                fs == (|vi: nat, ci: nat| spine_item(vi, ci)),
                manifest@ == m0 + each_index(vi as nat, ci as nat, fm),
                spine@ == s0 + each_index(vi as nat, ci as nat, fs),
            decreases n - ci,
        {
            let ghost m1 = manifest@;
            push_str(manifest, "  <item id=\"");
            push_text_id(manifest, vi, ci);
            push_str(manifest, "\" href=\"");
            push_text_id(manifest, vi, ci);
            push_str(manifest, "\" media-type=\"application/xhtml+xml\" />\n");
            assert(manifest@ =~= m1 + manifest_text_item(vi as nat, ci as nat));
            let ghost s1 = spine@;
            push_str(spine, "    <itemref idref=\"");
            push_text_id(spine, vi, ci);
            push_str(spine, "\" />\n");
            assert(spine@ =~= s1 + spine_item(vi as nat, ci as nat));
            ci += 1;
        }
        assert(all.take(vi + 1).drop_last() =~= all.take(vi as int));
        assert(all.take(vi + 1).last().chapters.len() == n);
        vi += 1;
    }
    assert(all.take(vi as int) =~= all);
}

/// Appends the manifest entries of the named images.
pub fn push_image_items<T>(manifest: &mut String, images: &Vec<(String, T)>)
    ensures
        final(manifest)@ == old(manifest)@ + image_items(names_of(images@)),
{
    let ghost names = names_of(images@);
    let mut i: usize = 0;
    while i < images.len()
        invariant
            i <= images.len(),
            names == names_of(images@),
            manifest@ == old(manifest)@ + image_items(names.take(i as int)),
        decreases images.len() - i,
    {
        let ghost m1 = manifest@;
        let name = images[i].0.as_str();
        push_str(manifest, "  <item id=\"Image/");
        push_str(manifest, name);
        push_str(manifest, "\" href=\"Image/");
        push_str(manifest, name);
        push_str(manifest, "\" media-type=\"image/jpeg\" />\n");
        assert(names.take(i + 1).drop_last() =~= names.take(i as int));
        assert(manifest@ =~= m1 + manifest_image_item(names[i as int]));
        i += 1;
    }
    assert(names.take(i as int) =~= names);
}

/// Appends the navigation entries of all volumes and their chapters.
pub fn push_nav_items(items: &mut String, vols: &Vec<Volume>)
    ensures
        final(items)@ == old(items)@ + nav_items(volumes_view(vols@)),
{
    let ghost all = volumes_view(vols@);
    let mut vi: usize = 0;
    while vi < vols.len()
        invariant
            vi <= vols.len(),
            all == volumes_view(vols@),
            items@ == old(items)@ + nav_items(all.take(vi as int)),
        decreases vols.len() - vi,
    {
        let vol = &vols[vi];
        let ghost i0 = items@;
        push_str(items, "    <li><a href=\"");
        push_text_id(items, vi, 0);
        push_str(items, "\">");
        push_xml_escaped(items, vol.name.as_str());
        push_str(items, "</a>\n");
        push_str(items, "      <ol>\n");
        let ghost i1 = items@;
        let ghost chs = vol@.chapters;
        let mut ci: usize = 0;
        while ci < vol.chapters.len()
            invariant
                ci <= vol.chapters.len(),
                chs == vol@.chapters,
                items@ == i1 + nav_chapters(vi as nat, chs.take(ci as int)),
            decreases vol.chapters.len() - ci,
        {
            let ghost i2 = items@;
            push_str(items, "        <li><a href=\"");
            push_text_id(items, vi, ci);
            push_str(items, "\">");
            push_xml_escaped(items, vol.chapters[ci].title.as_str());
            push_str(items, "</a></li>\n");
            assert(chs.take(ci + 1).drop_last() =~= chs.take(ci as int));
            assert(items@ =~= i2 + nav_chapter(vi as nat, ci as nat, chs[ci as int].title));
            ci += 1;
        }
        push_str(items, "      </ol>\n    </li>\n");
        assert(chs.take(ci as int) =~= chs);
        assert(items@ =~= i0 + nav_volume(vi as nat, vol@));
        assert(all.take(vi + 1).drop_last() =~= all.take(vi as int));
        vi += 1;
    }
    assert(all.take(vi as int) =~= all);
}

/// The views of a slice of strings.
pub open spec fn string_views(items: Seq<String>) -> Seq<Seq<char>> {
    items.map_values(|s: String| s@)
}

/// `pre + escape(item) + post` for every item, concatenated, with XML escaping.
pub open spec fn xml_wrapped_all(items: Seq<Seq<char>>, pre: Seq<char>, post: Seq<char>) -> Seq<
    char,
>
    decreases items.len(),
{
    if items.len() == 0 {
        Seq::empty()
    } else {
        xml_wrapped_all(items.drop_last(), pre, post) + pre + xml_escaped(items.last()) + post
    }
}

/// `f(vi, ci)` occurs in `f(vi, 0) + ... + f(vi, n - 1)` for each `ci < n`.
pub proof fn lemma_each_index_has(vi: nat, n: nat, f: spec_fn(nat, nat) -> Seq<char>, ci: nat)
    requires
        ci < n,
    ensures
        crate::text::contains_seq(each_index(vi, n, f), f(vi, ci)),
    decreases n,
{
    let prev = each_index(vi, (n - 1) as nat, f);
    if ci == n - 1 {
        crate::text::lemma_contains_middle(prev, f(vi, ci), Seq::empty());
        assert(prev + f(vi, ci) + Seq::<char>::empty() =~= each_index(vi, n, f));
    } else {
        lemma_each_index_has(vi, (n - 1) as nat, f, ci);
        crate::text::lemma_contains_before(prev, f(vi, ci), f(vi, (n - 1) as nat));
    }
}

/// `f(vi, ci)` occurs in `each_chapter(vols, f)` for every chapter `ci` of volume `vi`.
pub proof fn lemma_each_chapter_has(vols: Seq<VolumeV>, f: spec_fn(nat, nat) -> Seq<char>, vi: int, ci: int)
    requires
        0 <= vi < vols.len(),
        0 <= ci < vols[vi].chapters.len(),
    ensures
        crate::text::contains_seq(each_chapter(vols, f), f(vi as nat, ci as nat)),
    decreases vols.len(),
{
    let prev = each_chapter(vols.drop_last(), f);
    let last = each_index((vols.len() - 1) as nat, vols.last().chapters.len(), f);
    if vi == vols.len() - 1 {
        lemma_each_index_has(vi as nat, vols.last().chapters.len(), f, ci as nat);
        crate::text::lemma_contains_after(last, f(vi as nat, ci as nat), prev);
    } else {
        assert(vols.drop_last()[vi] == vols[vi]);
        lemma_each_chapter_has(vols.drop_last(), f, vi, ci);
        crate::text::lemma_contains_before(prev, f(vi as nat, ci as nat), last);
    }
}

/// The manifest entry of each named image occurs among the image entries.
pub proof fn lemma_image_items_has(names: Seq<Seq<char>>, k: int)
    requires
        0 <= k < names.len(),
    ensures
        crate::text::contains_seq(image_items(names), manifest_image_item(names[k])),
    decreases names.len(),
{
    let prev = image_items(names.drop_last());
    let item = manifest_image_item(names[k]);
    if k == names.len() - 1 {
        crate::text::lemma_contains_middle(prev, item, Seq::empty());
        assert(prev + item + Seq::<char>::empty() =~= image_items(names));
    } else {
        assert(names.drop_last()[k] == names[k]);
        lemma_image_items_has(names.drop_last(), k);
        crate::text::lemma_contains_before(prev, item, manifest_image_item(names.last()));
    }
}

/// The navigation entry of each chapter occurs among the navigation entries.
pub proof fn lemma_nav_items_has(vols: Seq<VolumeV>, vi: int, ci: int)
    requires
        0 <= vi < vols.len(),
        0 <= ci < vols[vi].chapters.len(),
    ensures
        crate::text::contains_seq(
            nav_items(vols),
            nav_chapter(vi as nat, ci as nat, vols[vi].chapters[ci].title),
        ),
    decreases vols.len(),
{
    let item = nav_chapter(vi as nat, ci as nat, vols[vi].chapters[ci].title);
    let prev = nav_items(vols.drop_last());
    let n = (vols.len() - 1) as nat;
    let vpart = nav_volume(n, vols.last());
    if vi == vols.len() - 1 {
        lemma_nav_chapters_has(n, vols.last().chapters, ci);
        let head = "    <li><a href=\""@ + text_id(n, 0) + "\">"@ + xml_escaped(vols.last().name)
            + "</a>\n"@ + "      <ol>\n"@;
        let chs = nav_chapters(n, vols.last().chapters);
        assert(vpart =~= head + chs + "      </ol>\n    </li>\n"@);
        crate::text::lemma_contains_within(chs, item, head, "      </ol>\n    </li>\n"@);
        crate::text::lemma_contains_after(vpart, item, prev);
    } else {
        assert(vols.drop_last()[vi] == vols[vi]);
        lemma_nav_items_has(vols.drop_last(), vi, ci);
        crate::text::lemma_contains_before(prev, item, vpart);
    }
}

/// The navigation entry of chapter `ci` occurs among those of its volume.
proof fn lemma_nav_chapters_has(vi: nat, chs: Seq<crate::model::ChapterV>, ci: int)
    requires
        0 <= ci < chs.len(),
    ensures
        crate::text::contains_seq(nav_chapters(vi, chs), nav_chapter(vi, ci as nat, chs[ci].title)),
    decreases chs.len(),
{
    let item = nav_chapter(vi, ci as nat, chs[ci].title);
    let prev = nav_chapters(vi, chs.drop_last());
    let last = nav_chapter(vi, (chs.len() - 1) as nat, chs.last().title);
    if ci == chs.len() - 1 {
        crate::text::lemma_contains_middle(prev, item, Seq::empty());
        assert(prev + item + Seq::<char>::empty() =~= nav_chapters(vi, chs));
    } else {
        assert(chs.drop_last()[ci] == chs[ci]);
        lemma_nav_chapters_has(vi, chs.drop_last(), ci);
        crate::text::lemma_contains_before(prev, item, last);
    }
}

/// The manifest entry of a chapter page declares `Text/{vi}_{ci}.xhtml` as XHTML.
pub proof fn lemma_text_item_shape(vi: nat, ci: nat)
    ensures
        crate::text::contains_seq(
            manifest_text_item(vi, ci),
            "<item id=\"Text/"@ + decimal(vi) + "_"@ + decimal(ci) + ".xhtml\" href=\"Text/"@
                + decimal(vi) + "_"@ + decimal(ci)
                + ".xhtml\" media-type=\"application/xhtml+xml\" />"@,
        ),
{
    reveal_strlit("  <item id=\"");
    reveal_strlit("  ");
    reveal_strlit("<item id=\"Text/");
    reveal_strlit("Text/");
    reveal_strlit("\" href=\"");
    reveal_strlit(".xhtml\" href=\"Text/");
    reveal_strlit(".xhtml");
    reveal_strlit("\" media-type=\"application/xhtml+xml\" />\n");
    reveal_strlit(".xhtml\" media-type=\"application/xhtml+xml\" />");
    reveal_strlit("\n");
    let p = "<item id=\"Text/"@ + decimal(vi) + "_"@ + decimal(ci) + ".xhtml\" href=\"Text/"@
        + decimal(vi) + "_"@ + decimal(ci) + ".xhtml\" media-type=\"application/xhtml+xml\" />"@;
    assert(manifest_text_item(vi, ci) =~= "  "@ + p + "\n"@);
    crate::text::lemma_contains_middle("  "@, p, "\n"@);
}

/// The spine entry of a chapter page reads `Text/{vi}_{ci}.xhtml`.
pub proof fn lemma_spine_item_shape(vi: nat, ci: nat)
    ensures
        crate::text::contains_seq(
            spine_item(vi, ci),
            "<itemref idref=\"Text/"@ + decimal(vi) + "_"@ + decimal(ci) + ".xhtml\" />"@,
        ),
{
    reveal_strlit("    <itemref idref=\"");
    reveal_strlit("    ");
    reveal_strlit("<itemref idref=\"Text/");
    reveal_strlit("Text/");
    reveal_strlit(".xhtml");
    reveal_strlit("\" />\n");
    reveal_strlit(".xhtml\" />");
    reveal_strlit("\n");
    let p = "<itemref idref=\"Text/"@ + decimal(vi) + "_"@ + decimal(ci) + ".xhtml\" />"@;
    assert(spine_item(vi, ci) =~= "    "@ + p + "\n"@);
    crate::text::lemma_contains_middle("    "@, p, "\n"@);
}

/// The manifest entry of an image declares `Image/{name}` as a JPEG.
pub proof fn lemma_image_item_shape(name: Seq<char>)
    ensures
        crate::text::contains_seq(
            manifest_image_item(name),
            "<item id=\"Image/"@ + name + "\" href=\"Image/"@ + name
                + "\" media-type=\"image/jpeg\" />"@,
        ),
{
    reveal_strlit("  <item id=\"Image/");
    reveal_strlit("  ");
    reveal_strlit("<item id=\"Image/");
    reveal_strlit("\" media-type=\"image/jpeg\" />\n");
    reveal_strlit("\" media-type=\"image/jpeg\" />");
    reveal_strlit("\n");
    let p = "<item id=\"Image/"@ + name + "\" href=\"Image/"@ + name
        + "\" media-type=\"image/jpeg\" />"@;
    assert(manifest_image_item(name) =~= "  "@ + p + "\n"@);
    crate::text::lemma_contains_middle("  "@, p, "\n"@);
}

/// The navigation entry of a chapter links `Text/{vi}_{ci}.xhtml` under its title.
pub proof fn lemma_nav_chapter_shape(vi: nat, ci: nat, title: Seq<char>)
    ensures
        crate::text::contains_seq(
            nav_chapter(vi, ci, title),
            "<li><a href=\"Text/"@ + decimal(vi) + "_"@ + decimal(ci) + ".xhtml\">"@ + xml_escaped(
                title,
            ) + "</a></li>"@,
        ),
{
    reveal_strlit("        <li><a href=\"");
    reveal_strlit("        ");
    reveal_strlit("<li><a href=\"Text/");
    reveal_strlit("Text/");
    reveal_strlit(".xhtml");
    reveal_strlit("\">");
    reveal_strlit(".xhtml\">");
    reveal_strlit("</a></li>\n");
    reveal_strlit("</a></li>");
    reveal_strlit("\n");
    let p = "<li><a href=\"Text/"@ + decimal(vi) + "_"@ + decimal(ci) + ".xhtml\">"@ + xml_escaped(
        title,
    ) + "</a></li>"@;
    assert(nav_chapter(vi, ci, title) =~= "        "@ + p + "\n"@);
    crate::text::lemma_contains_middle("        "@, p, "\n"@);
}

/// Each item, escaped and wrapped, occurs in the wrapped list.
pub proof fn lemma_wrapped_has_item(items: Seq<Seq<char>>, pre: Seq<char>, post: Seq<char>, j: int)
    requires
        0 <= j < items.len(),
    ensures
        crate::text::contains_seq(
            xml_wrapped_all(items, pre, post),
            pre + xml_escaped(items[j]) + post,
        ),
    decreases items.len(),
{
    let w = pre + xml_escaped(items[j]) + post;
    let prev = xml_wrapped_all(items.drop_last(), pre, post);
    if j == items.len() - 1 {
        assert(xml_wrapped_all(items, pre, post) =~= prev + w);
        crate::text::lemma_contains_middle(prev, w, Seq::empty());
        assert(prev + w + Seq::<char>::empty() =~= prev + w);
    } else {
        assert(items.drop_last()[j] == items[j]);
        lemma_wrapped_has_item(items.drop_last(), pre, post, j);
        let last = pre + xml_escaped(items.last()) + post;
        assert(xml_wrapped_all(items, pre, post) =~= prev + last);
        crate::text::lemma_contains_before(prev, w, last);
    }
}

/// `pre + escape(item) + post` for every item, concatenated, with attribute escaping.
pub open spec fn attr_wrapped_all(items: Seq<Seq<char>>, pre: Seq<char>, post: Seq<char>) -> Seq<
    char,
>
    decreases items.len(),
{
    if items.len() == 0 {
        Seq::empty()
    } else {
        attr_wrapped_all(items.drop_last(), pre, post) + pre + attr_escaped(items.last()) + post
    }
}

/// Appends `pre + escape(item) + post` for every item, with XML escaping.
pub fn push_xml_wrapped(out: &mut String, items: &[String], pre: &str, post: &str)
    ensures
        final(out)@ == old(out)@ + xml_wrapped_all(string_views(items@), pre@, post@),
{
    let ghost views = string_views(items@);
    let mut i: usize = 0;
    while i < items.len()
        invariant
            i <= items.len(),
            views == string_views(items@),
            out@ == old(out)@ + xml_wrapped_all(views.take(i as int), pre@, post@),
        decreases items.len() - i,
    {
        let ghost o = out@;
        push_str(out, pre);
        push_xml_escaped(out, items[i].as_str());
        push_str(out, post);
        assert(views.take(i + 1).drop_last() =~= views.take(i as int));
        assert(out@ =~= o + pre@ + xml_escaped(views[i as int]) + post@);
        i += 1;
    }
    assert(views.take(i as int) =~= views);
}

/// Appends `pre + escape(item) + post` for every item, with attribute escaping.
pub fn push_attr_wrapped(out: &mut String, items: &[String], pre: &str, post: &str)
    ensures
        final(out)@ == old(out)@ + attr_wrapped_all(string_views(items@), pre@, post@),
{
    let ghost views = string_views(items@);
    let mut i: usize = 0;
    while i < items.len()
        invariant
            i <= items.len(),
            views == string_views(items@),
            out@ == old(out)@ + attr_wrapped_all(views.take(i as int), pre@, post@),
        decreases items.len() - i,
    {
        let ghost o = out@;
        push_str(out, pre);
        push_attr_escaped(out, items[i].as_str());
        push_str(out, post);
        assert(views.take(i + 1).drop_last() =~= views.take(i as int));
        assert(out@ =~= o + pre@ + attr_escaped(views[i as int]) + post@);
        i += 1;
    }
    assert(views.take(i as int) =~= views);
}

/// Each item, attribute-escaped and wrapped, occurs in the wrapped list.
pub proof fn lemma_attr_wrapped_has_item(items: Seq<Seq<char>>, pre: Seq<char>, post: Seq<char>, j: int)
    requires
        0 <= j < items.len(),
    ensures
        crate::text::contains_seq(
            attr_wrapped_all(items, pre, post),
            pre + attr_escaped(items[j]) + post,
        ),
    decreases items.len(),
{
    let w = pre + attr_escaped(items[j]) + post;
    let prev = attr_wrapped_all(items.drop_last(), pre, post);
    if j == items.len() - 1 {
        assert(attr_wrapped_all(items, pre, post) =~= prev + w);
        crate::text::lemma_contains_middle(prev, w, Seq::empty());
        assert(prev + w + Seq::<char>::empty() =~= prev + w);
    } else {
        assert(items.drop_last()[j] == items[j]);
        lemma_attr_wrapped_has_item(items.drop_last(), pre, post, j);
        let last = pre + attr_escaped(items.last()) + post;
        assert(attr_wrapped_all(items, pre, post) =~= prev + last);
        crate::text::lemma_contains_before(prev, w, last);
    }
}

/// `pre + x + "\n"` holds `pre + x`.
pub proof fn lemma_line_holds(x: Seq<char>)
    ensures
        crate::text::contains_seq(x + "\n"@, x),
{
    crate::text::lemma_contains_middle(Seq::empty(), x, "\n"@);
    assert(Seq::<char>::empty() + x + "\n"@ =~= x + "\n"@);
}

/// The navigation entry of each volume occurs among the navigation entries, and
/// links the volume's first page under the volume's name.
pub proof fn lemma_nav_items_has_volume(vols: Seq<VolumeV>, vi: int)
    requires
        0 <= vi < vols.len(),
    ensures
        crate::text::contains_seq(
            nav_items(vols),
            "<li><a href=\"Text/"@ + decimal(vi as nat) + "_0.xhtml\">"@ + xml_escaped(vols[vi].name)
                + "</a>"@,
        ),
    decreases vols.len(),
{
    let p = "<li><a href=\"Text/"@ + decimal(vi as nat) + "_0.xhtml\">"@ + xml_escaped(vols[vi].name)
        + "</a>"@;
    let prev = nav_items(vols.drop_last());
    let n = (vols.len() - 1) as nat;
    let vpart = nav_volume(n, vols.last());
    if vi == vols.len() - 1 {
        reveal_strlit("    <li><a href=\"");
        reveal_strlit("    ");
        reveal_strlit("<li><a href=\"Text/");
        reveal_strlit("Text/");
        reveal_strlit("_");
        reveal_strlit(".xhtml");
        reveal_strlit("\">");
        reveal_strlit("_0.xhtml\">");
        reveal_strlit("</a>\n");
        reveal_strlit("</a>");
        reveal_strlit("\n");
        assert(decimal(0) =~= seq!['0']);
        let rest = "\n"@ + "      <ol>\n"@ + nav_chapters(n, vols.last().chapters)
            + "      </ol>\n    </li>\n"@;
        assert(vpart =~= "    "@ + p + rest);
        crate::text::lemma_contains_middle("    "@, p, rest);
        crate::text::lemma_contains_after(vpart, p, prev);
    } else {
        assert(vols.drop_last()[vi] == vols[vi]);
        lemma_nav_items_has_volume(vols.drop_last(), vi);
        crate::text::lemma_contains_before(prev, p, vpart);
    }
}

} // verus!
