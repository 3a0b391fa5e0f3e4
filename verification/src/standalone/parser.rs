//! Reading the book page, the table of contents and chapter pages for the standalone
//! downloader. Pages are split into tokens as in [`crate::html`]; the rules are the
//! standalone downloader's own: the title needs only two parts, the synopsis is plain
//! text with a fixed notice when missing, and unresolvable links are skipped.
use vstd::prelude::*;

use crate::html::{
    attr_at, class_at, push_trimmed_texts, document_tokens, element_text, first_from,
    is_tag, node_end, str_eq, subtree_end, tag_at, text_of, token_attr,
    tokenize, tokens_view, HtmlToken, TokenV,
};
use crate::model::{ChapterV, VolumeV};
use crate::package::string_views;
use crate::parser::{
    child_paragraphs, content_pos, find_content, find_intro_label, find_link_in,
    intro_label_pos, push_child_paragraphs, push_to_last, title_pos, toc_fold, volume_name,
    find_title,
};
use crate::standalone::error::DownloadError;
use crate::standalone::model::{volumes_of, Book, Chapter, Volume};
use crate::text::{push_str, split_on, split_str, trim, trimmed};
use crate::weburl::{join_url, parse_url, url_joined, url_parsed, UrlJoin, UrlJoinV};

verus! {

// ---------------------------------------------------------------------------
// Book page
// ---------------------------------------------------------------------------

/// Title and author from the page title `"title - author - ..."`; the author only when
/// there are at least two parts.
pub open spec fn title_author(text: Seq<char>) -> (Seq<char>, Option<Seq<char>>) {
    let parts = split_on(text, " - "@);
    if parts.len() >= 2 {
        (trimmed(parts[0]), Some(trimmed(parts[1])))
    } else {
        (trimmed(text), None)
    }
}

/// Whether position `k` holds a `span` styled `font-size:14px;`, the element the site
/// puts the synopsis in.
pub open spec fn is_intro_span(tv: Seq<TokenV>, k: int) -> bool {
    is_tag(tv[k], "span"@) && token_attr(tv[k], "style"@) == Some("font-size:14px;"@)
}

/// The position of the first synopsis element at or after position `from`.
pub open spec fn intro_span_from(tv: Seq<TokenV>, from: int) -> Option<int> {
    first_from(tv.len() as int, from, |k: int| is_intro_span(tv, k))
}

/// The position of the synopsis: the first `span` styled `font-size:14px;` after the
/// synopsis label, or in the whole page when there is no label (pages list other such
/// spans, such as the latest chapter, before the synopsis).
pub open spec fn intro_span_pos(tv: Seq<TokenV>) -> Option<int> {
    intro_span_from(
        tv,
        match intro_label_pos(tv) {
            Some(h) => h + 1,
            None => 0,
        },
    )
}

/// The synopsis: the trimmed text of its element; a fixed notice when that is empty or
/// there is none.
pub open spec fn plain_intro(tv: Seq<TokenV>) -> Seq<char> {
    let t = match intro_span_pos(tv) {
        Some(k) => trimmed(text_of(tv, k)),
        None => Seq::empty(),
    };
    if t.len() == 0 {
        "暂无简介"@
    } else {
        t
    }
}

/// The position of the first table-of-contents link that has an `href` resolving
/// against `url`.
pub open spec fn resolvable_toc_link(tv: Seq<TokenV>, url: Seq<char>) -> Option<int> {
    first_from(tv.len() as int, 0, |k: int| toc_candidate(tv, url, k))
}

/// Whether position `k` holds a table-of-contents link whose `href` resolves against `url`.
pub open spec fn toc_candidate(tv: Seq<TokenV>, url: Seq<char>, k: int) -> bool {
    &&& is_tag(tv[k], "a"@)
    &&& trimmed(text_of(tv, k)) == "小说目录"@
    &&& token_attr(tv[k], "href"@) matches Some(h)
    &&& url_joined(url, h) is Joined
}

/// What reading the book page does: `before` is the book as it was, `after` as it is.
pub open spec fn book_page_read(tv: Seq<TokenV>, url: Seq<char>, before: Book, after: Book, res: Result<(), DownloadError>) -> bool {
    &&& match title_pos(tv) {
        Some(t) => {
            let f = title_author(text_of(tv, t));
            &&& after.title@ == f.0
            &&& match f.1 {
                Some(a) => after.author@ == a,
                None => after.author == before.author,
            }
        },
        None => after.title == before.title && after.author == before.author,
    }
    &&& after.intro@ == plain_intro(tv)
    &&& after.cover == before.cover
    &&& after.volumes == before.volumes
    &&& after.images == before.images
    &&& match resolvable_toc_link(tv, url) {
        Some(a) => after.toc_url matches Some(t) && url_joined(
            url,
            token_attr(tv[a], "href"@)->0,
        ) == UrlJoinV::Joined(t@),
        None => after.toc_url == before.toc_url,
    }
    &&& if after.title@.len() == 0 {
        res matches Err(DownloadError::Parse(m)) && m@ == "未能获取书名，可能网址无效或页面结构变化"@
    } else {
        res is Ok
    }
}

/// The position of the first synopsis element at or after position `from`.
fn find_intro_span(toks: &Vec<HtmlToken>, from: usize) -> (r: Option<usize>)
    requires
        from <= toks.len(),
    ensures
        r matches Some(k) ==> k < toks.len() && intro_span_from(tokens_view(toks@), from as int)
            == Some(k as int),
        r is None ==> intro_span_from(tokens_view(toks@), from as int) is None,
{
    let ghost tv = tokens_view(toks@);
    let ghost p = |k: int| is_intro_span(tv, k);
    let mut k: usize = from;
    while k < toks.len()
        invariant
            from <= k <= toks.len(),
            tv == tokens_view(toks@),
            p == (|k: int| is_intro_span(tv, k)),
            first_from(tv.len() as int, from as int, p) == first_from(tv.len() as int, k as int, p),
        decreases toks.len() - k,
    {
        if tag_at(toks, k, "span") {
            match attr_at(toks, k, "style") {
                Some(v) => {
                    if str_eq(v.as_str(), "font-size:14px;") {
                        return Some(k);
                    }
                },
                None => {},
            }
        }
        k += 1;
    }
    None
}

/// The first table-of-contents link with an `href` that resolves against `url`, and
/// the URL it resolves to.
fn find_resolvable_toc_link(toks: &Vec<HtmlToken>, url: &str) -> (r: Option<(usize, String)>)
    ensures
        match r {
            Some((k, abs)) => k < toks.len() && resolvable_toc_link(tokens_view(toks@), url@)
                == Some(k as int) && url_joined(url@, token_attr(tokens_view(toks@)[k as int], "href"@)->0)
                == UrlJoinV::Joined(abs@),
            None => resolvable_toc_link(tokens_view(toks@), url@) is None,
        },
{
    let ghost tv = tokens_view(toks@);
    let ghost p = |k: int| toc_candidate(tv, url@, k);
    let mut k: usize = 0;
    while k < toks.len()
        invariant
            k <= toks.len(),
            tv == tokens_view(toks@),
            p == (|k: int| toc_candidate(tv, url@, k)),
            first_from(tv.len() as int, 0, p) == first_from(tv.len() as int, k as int, p),
        decreases toks.len() - k,
    {
        if tag_at(toks, k, "a") {
            let text = element_text(toks, k);
            let t = trim(text.as_str());
            if str_eq(t.as_str(), "小说目录") {
                match attr_at(toks, k, "href") {
                    Some(href) => match join_url(url, href.as_str()) {
                        UrlJoin::Joined(abs) => {
                            return Some((k, abs));
                        },
                        _ => {},
                    },
                    None => {},
                }
            }
        }
        k += 1;
    }
    None
}

/// Reads the book page already split into tokens: title and author from `<title>`, the
/// synopsis, and the first table-of-contents link that resolves against `url`.
pub fn book_page_from_tokens(toks: &Vec<HtmlToken>, url: &str, book: &mut Book) -> (res: Result<(), DownloadError>)
    ensures
        book_page_read(tokens_view(toks@), url@, *old(book), *final(book), res),
{
    let ghost tv = tokens_view(toks@);
    match find_title(toks) {
        Some(t) => {
            let text = element_text(toks, t);
            let parts = split_str(text.as_str(), " - ");
            proof {
                assert(parts@.map_values(|p: String| p@).len() == parts@.len());
            }
            if parts.len() >= 2 {
                assert(parts@[0]@ == split_on(text@, " - "@)[0]);
                assert(parts@[1]@ == split_on(text@, " - "@)[1]);
                book.title = trim(parts[0].as_str());
                book.author = trim(parts[1].as_str());
            } else {
                book.title = trim(text.as_str());
            }
        },
        None => {},
    }
    let from: usize = match find_intro_label(toks) {
        Some(h) => h + 1,
        None => 0,
    };
    let mut intro = String::new();
    match find_intro_span(toks, from) {
        Some(k) => {
            let text = element_text(toks, k);
            intro = trim(text.as_str());
        },
        None => {},
    }
    if intro.as_str().is_empty() {
        book.intro = "暂无简介".to_owned();
    } else {
        book.intro = intro;
    }
    match find_resolvable_toc_link(toks, url) {
        Some((_, abs)) => {
            book.toc_url = Some(abs);
        },
        None => {},
    }
    if book.title.as_str().is_empty() {
        return Err(DownloadError::Parse("未能获取书名，可能网址无效或页面结构变化".to_owned()));
    }
    Ok(())
}

/// Reads the book page `html` (see [`book_page_from_tokens`]).
pub fn parse_book_info(html: &str, url: &str, book: &mut Book) -> (res: Result<(), DownloadError>)
    ensures
        book_page_read(document_tokens(html@), url@, *old(book), *final(book), res),
{
    let toks = tokenize(html);
    book_page_from_tokens(&toks, url, book)
}

// ---------------------------------------------------------------------------
// Table of contents
// ---------------------------------------------------------------------------

/// Whether every chapter of the volumes from position `from` on has no page yet.
pub open spec fn pages_empty_from(vols: Seq<Volume>, from: int) -> bool {
    forall|i: int, j: int|
        from <= i < vols.len() && 0 <= j < vols[i].chapters@.len() ==> (
        #[trigger] vols[i].chapters@[j]).xhtml is None
}

/// What reading the table of contents does to the volumes, and its outcome: the
/// volumes found are added after the existing ones, which stay as they were.
pub open spec fn toc_page_read(tv: Seq<TokenV>, url: Seq<char>, before: Seq<Volume>, after: Seq<Volume>, res: Result<(), DownloadError>) -> bool {
    match url_parsed(url) {
        Err(m) => after == before && (res matches Err(DownloadError::Parse(x)) && x@ == m),
        Ok(_) => match toc_fold(tv, url, 0, volumes_of(before), false) {
            Err(m) => res matches Err(DownloadError::Parse(x)) && x@ == m,
            Ok(vols) => {
                &&& volumes_of(after) == vols
                &&& after.len() >= before.len()
                &&& after.take(before.len() as int) == before
                &&& pages_empty_from(after, before.len() as int)
                &&& if vols.len() == 0 {
                    res matches Err(DownloadError::Parse(x)) && x@ == "目录解析失败：未找到任何卷"@
                } else {
                    res is Ok
                }
            },
        },
    }
}

/// Reads the table of contents into `book.volumes`: `td.vcss` cells start volumes,
/// `td.ccss` cells add their first link as a chapter, resolved against `toc_url`.
pub fn toc_page_from_tokens(toks: &Vec<HtmlToken>, toc_url: &str, book: &mut Book) -> (res: Result<(), DownloadError>)
    ensures
        toc_page_read(tokens_view(toks@), toc_url@, old(book).volumes@, final(book).volumes@, res),
        final(book).title == old(book).title,
        final(book).author == old(book).author,
        final(book).intro == old(book).intro,
        final(book).cover == old(book).cover,
        final(book).toc_url == old(book).toc_url,
        final(book).images == old(book).images,
        final(book).volumes@.len() >= old(book).volumes@.len(),
        final(book).volumes@.take(old(book).volumes@.len() as int) == old(book).volumes@,
{
    let ghost tv = tokens_view(toks@);
    assert(book.volumes@.take(book.volumes@.len() as int) =~= book.volumes@);
    match parse_url(toc_url) {
        Err(m) => {
            return Err(DownloadError::Parse(m));
        },
        Ok(_) => {},
    }
    let ghost start = volumes_of(book.volumes@);
    let ghost n0 = book.volumes@.len();
    let mut seen = false;
    let mut k: usize = 0;
    while k < toks.len()
        invariant
            k <= toks.len(),
            tv == tokens_view(toks@),
            url_parsed(toc_url@) is Ok,
            start == volumes_of(old(book).volumes@),
            n0 == old(book).volumes@.len(),
            toc_fold(tv, toc_url@, 0, start, false) == toc_fold(
                tv,
                toc_url@,
                k as int,
                volumes_of(book.volumes@),
                seen,
            ),
            seen ==> book.volumes@.len() > n0,
            book.volumes@.len() >= n0,
            book.volumes@.take(n0 as int) == old(book).volumes@,
            pages_empty_from(book.volumes@, n0 as int),
            book.title == old(book).title,
            book.author == old(book).author,
            book.intro == old(book).intro,
            book.cover == old(book).cover,
            book.toc_url == old(book).toc_url,
            book.images == old(book).images,
        decreases toks.len() - k,
    {
        if tag_at(toks, k, "td") {
            if class_at(toks, k, "vcss") {
                let e = subtree_end(toks, k);
                let mut pieces = String::new();
                push_trimmed_texts(&mut pieces, toks, k + 1, e);
                let name = trim(pieces.as_str());
                let ghost before = volumes_of(book.volumes@);
                let ghost vb = book.volumes@;
                let vol = Volume { name, chapters: Vec::new() };
                assert(vol@.chapters =~= Seq::<ChapterV>::empty());
                book.volumes.push(vol);
                proof {
                    assert(volumes_of(book.volumes@) =~= before.push(
                        VolumeV { name: volume_name(tv, k as int), chapters: Seq::empty() },
                    ));
                    assert(book.volumes@.take(n0 as int) =~= vb.take(n0 as int));
                }
                seen = true;
            } else if class_at(toks, k, "ccss") && seen {
                let e = subtree_end(toks, k);
                match find_link_in(toks, k, e) {
                    Some(a) => match attr_at(toks, a, "href") {
                        Some(href) => match join_url(toc_url, href.as_str()) {
                            UrlJoin::Joined(abs) => {
                                let text = element_text(toks, a);
                                let t1 = trim(text.as_str());
                                let title = trim(t1.as_str());
                                let ghost before = volumes_of(book.volumes@);
                                let ghost vb = book.volumes@;
                                let ghost ch = ChapterV { title: title@, url: abs@ };
                                match book.volumes.pop() {
                                    Some(mut last) => {
                                        let ghost lv = last@;
                                        let ghost lc = last.chapters@;
                                        last.chapters.push(Chapter { title, url: abs, xhtml: None });
                                        assert(last@.chapters =~= lv.chapters.push(ch));
                                        book.volumes.push(last);
                                        proof {
                                            assert(book.volumes@.take(n0 as int) =~= vb.take(
                                                n0 as int,
                                            ));
                                            assert forall|i: int, j: int|
                                                n0 <= i < book.volumes@.len() && 0 <= j
                                                    < book.volumes@[i].chapters@.len() implies (
                                            #[trigger] book.volumes@[i].chapters@[j]).xhtml is None by {
                                                if i < book.volumes@.len() - 1 {
                                                    assert(book.volumes@[i] == vb[i]);
                                                } else if j < lc.len() {
                                                    assert(book.volumes@[i].chapters@[j] == lc[j]);
                                                    assert(vb[i].chapters@[j] == lc[j]);
                                                }
                                            }
                                        }
                                    },
                                    None => {},
                                }
                                proof {
                                    assert(volumes_of(book.volumes@) =~= push_to_last(
                                        before,
                                        ChapterV {
                                            title: trimmed(trimmed(text_of(tv, a as int))),
                                            url: abs@,
                                        },
                                    ));
                                }
                            },
                            UrlJoin::BadReference(m) => {
                                let mut x = "章节链接解析失败: ".to_owned();
                                push_str(&mut x, m.as_str());
                                return Err(DownloadError::Parse(x));
                            },
                            UrlJoin::BadBase(m) => {
                                let mut x = "目录页 URL 解析失败: ".to_owned();
                                push_str(&mut x, m.as_str());
                                return Err(DownloadError::Parse(x));
                            },
                        },
                        None => {},
                    },
                    None => {},
                }
            }
        }
        k += 1;
    }
    if book.volumes.len() == 0 {
        return Err(DownloadError::Parse("目录解析失败：未找到任何卷".to_owned()));
    }
    Ok(())
}

/// Reads the table of contents page `html` (see [`toc_page_from_tokens`]).
pub fn parse_toc(html: &str, toc_url: &str, book: &mut Book) -> (res: Result<(), DownloadError>)
    ensures
        toc_page_read(document_tokens(html@), toc_url@, old(book).volumes@, final(book).volumes@, res),
        final(book).title == old(book).title,
        final(book).author == old(book).author,
        final(book).intro == old(book).intro,
        final(book).cover == old(book).cover,
        final(book).toc_url == old(book).toc_url,
        final(book).images == old(book).images,
        final(book).volumes@.len() >= old(book).volumes@.len(),
        final(book).volumes@.take(old(book).volumes@.len() as int) == old(book).volumes@,
{
    let toks = tokenize(html);
    toc_page_from_tokens(&toks, toc_url, book)
}

// ---------------------------------------------------------------------------
// Chapter pages
// ---------------------------------------------------------------------------

/// The images among positions `k..stop`, after `acc`: each `<img src>` resolved against
/// `url`, those that do not resolve left out.
pub open spec fn resolvable_images(tv: Seq<TokenV>, url: Seq<char>, k: int, stop: int, acc: Seq<Seq<char>>) -> Seq<Seq<char>>
    decreases stop - k,
{
    if k < 0 || k >= stop || k >= tv.len() {
        acc
    } else {
        let next = if is_tag(tv[k], "img"@) {
            match token_attr(tv[k], "src"@) {
                Some(src) => match url_joined(url, src) {
                    UrlJoinV::Joined(abs) => acc.push(abs),
                    _ => acc,
                },
                None => acc,
            }
        } else {
            acc
        };
        resolvable_images(tv, url, k + 1, stop, next)
    }
}

/// What reading a chapter page gives: its paragraphs and the image URLs that resolve,
/// or the error.
pub open spec fn chapter_page_read(tv: Seq<TokenV>, url: Seq<char>, res: Result<(Vec<String>, Vec<String>), DownloadError>) -> bool {
    match url_parsed(url) {
        Err(m) => res matches Err(DownloadError::Parse(x)) && x@ == m,
        Ok(_) => match content_pos(tv) {
            None => res matches Err(DownloadError::NotFound(x)) && x@ == "未找到 #content 内容区"@,
            Some(c) => res matches Ok(r) && string_views(r.0@) == child_paragraphs(tv, c + 1)
                && string_views(r.1@) == resolvable_images(
                tv,
                url,
                c + 1,
                node_end(tv, c),
                Seq::empty(),
            ),
        },
    }
}

/// Reads a chapter page already split into tokens: the trimmed, non-empty text nodes
/// directly inside `#content`, and the images inside it that resolve against `url`.
pub fn chapter_page_from_tokens(toks: &Vec<HtmlToken>, url: &str) -> (res: Result<(Vec<String>, Vec<String>), DownloadError>)
    ensures
        chapter_page_read(tokens_view(toks@), url@, res),
{
    let ghost tv = tokens_view(toks@);
    match parse_url(url) {
        Err(m) => {
            return Err(DownloadError::Parse(m));
        },
        Ok(_) => {},
    }
    let c = match find_content(toks) {
        Some(c) => c,
        None => {
            return Err(DownloadError::NotFound("未找到 #content 内容区".to_owned()));
        },
    };
    let mut paragraphs: Vec<String> = Vec::new();
    push_child_paragraphs(&mut paragraphs, toks, c + 1);
    assert(string_views(paragraphs@) =~= child_paragraphs(tv, c + 1));
    let e = subtree_end(toks, c);
    let mut images: Vec<String> = Vec::new();
    assert(string_views(images@) =~= Seq::<Seq<char>>::empty());
    let mut k = c + 1;
    while k < e
        invariant
            c < k <= e || k == c + 1,
            e <= toks.len(),
            c < e,
            tv == tokens_view(toks@),
            resolvable_images(tv, url@, c + 1, e as int, Seq::empty()) == resolvable_images(
                tv,
                url@,
                k as int,
                e as int,
                string_views(images@),
            ),
        decreases e - k,
    {
        if tag_at(toks, k, "img") {
            match attr_at(toks, k, "src") {
                Some(src) => match join_url(url, src.as_str()) {
                    UrlJoin::Joined(abs) => {
                        let ghost before = string_views(images@);
                        images.push(abs);
                        assert(string_views(images@) =~= before.push(abs@));
                    },
                    _ => {},
                },
                None => {},
            }
        }
        k += 1;
    }
    Ok((paragraphs, images))
}

/// Reads the chapter page `html` (see [`chapter_page_from_tokens`]).
pub fn parse_chapter(html: &str, url: &str) -> (res: Result<(Vec<String>, Vec<String>), DownloadError>)
    ensures
        chapter_page_read(document_tokens(html@), url@, res),
{
    let toks = tokenize(html);
    chapter_page_from_tokens(&toks, url)
}

} // verus!
