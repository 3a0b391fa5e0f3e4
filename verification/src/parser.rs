//! Reading the book page, the table of contents and chapter pages, and the
//! structure of bracketed titles.
use vstd::prelude::*;

use crate::error::{error_of, error_with, Error, ErrorKind};
use crate::html::{
    attr_at, break_text, class_at, close_at, document_tokens, element_text, first_from, has_class,
    lemma_first_from,
    is_tag, lemma_node_end_bounds, node_end, str_eq, subtree_end, tag_at, text_of,
    push_trimmed_texts, text_with_breaks, token_attr, tokenize, tokens_view, trimmed_texts_in,
    HtmlToken, TokenV,
};
use crate::package::string_views;
use crate::model::{volumes_view, Book, Chapter, ChapterV, TitleStyle, Volume, VolumeV};
use crate::text::{
    lemma_first_char_at, lemma_first_char_from,
    chars_of, contains_seq, contains_str, find_from, first_occurrence, parse_uint, parsed_uint,
    push_char, push_str, split_on, split_str, string_of, trim, trim_bounds, trimmed,
};
use crate::weburl::{join_url, parse_url, url_joined, url_parsed, UrlJoin, UrlJoinV};

verus! {

/// A title taken apart at its first pair of brackets.
#[derive(Debug, PartialEq, Eq)]
pub struct TitleParts {
    /// The whole title, brackets included.
    pub full: String,
    /// The trimmed text inside the brackets, if there is a non-empty one.
    pub in_bracket: Option<String>,
    /// The trimmed text before the brackets, if non-empty.
    pub before_bracket: Option<String>,
}

/// Where the first `open ... close` pair of `s` stands: the position of the first
/// `open` and of the first `close` after it, when there is one.
pub open spec fn bracket_span(s: Seq<char>, open: char, close: char) -> Option<(int, int)> {
    match first_occurrence(s, seq![open]) {
        None => None,
        Some(start) => match first_occurrence(s.subrange(start + 1, s.len() as int), seq![close]) {
            None => None,
            Some(k) => Some((start, start + 1 + k)),
        },
    }
}

/// The first pair of brackets in `s`, full-width `（）` or ASCII `()`, whichever opens
/// first.
pub open spec fn first_bracket_pair(s: Seq<char>) -> Option<(int, int)> {
    match (bracket_span(s, '（', '）'), bracket_span(s, '(', ')')) {
        (Some(a), Some(b)) => if b.0 < a.0 {
            Some(b)
        } else {
            Some(a)
        },
        (Some(a), None) => Some(a),
        (None, b) => b,
    }
}

/// The in-bracket and before-bracket parts of a title, both trimmed, taken at its first
/// pair of brackets; a pair with nothing but blanks inside counts as no brackets.
pub open spec fn title_split(s: Seq<char>) -> (Option<Seq<char>>, Option<Seq<char>>) {
    match first_bracket_pair(s) {
        None => (None, None),
        Some((start, end)) => {
            let inner = trimmed(s.subrange(start + 1, end));
            let before = trimmed(s.subrange(0, start));
            if inner.len() == 0 {
                (None, None)
            } else {
                (
                    Some(inner),
                    if before.len() > 0 {
                        Some(before)
                    } else {
                        None
                    },
                )
            }
        },
    }
}

/// The view of an optional string.
pub open spec fn opt_view(o: Option<String>) -> Option<Seq<char>> {
    match o {
        Some(s) => Some(s@),
        None => None,
    }
}

/// The positions of the first `open` of `v` and of the first `close` after it.
fn find_bracket(v: &Vec<char>, open: char, close: char) -> (r: Option<(usize, usize)>)
    ensures
        match r {
            Some((start, end)) => bracket_span(v@, open, close) == Some((start as int, end as int)),
            None => bracket_span(v@, open, close) is None,
        },
        r matches Some((start, end)) ==> start < end < v.len(),
{
    let open_pat = vec![open];
    let close_pat = vec![close];
    assert(open_pat@ =~= seq![open]);
    assert(close_pat@ =~= seq![close]);
    assert(v@.subrange(0, v@.len() as int) =~= v@);
    match find_from(v, &open_pat, 0) {
        None => None,
        Some(start) => {
            proof {
                crate::text::lemma_first_occurrence_in(v@, seq![open]);
                assert(crate::text::occurs_at(v@, seq![open], start as int));
            }
            if start >= v.len() {
                return None;
            }
            let ghost after = v@.subrange(start + 1, v@.len() as int);
            match find_from(v, &close_pat, start + 1) {
                None => None,
                Some(k) => {
                    proof {
                        crate::text::lemma_first_occurrence_in(after, seq![close]);
                        assert(crate::text::occurs_at(after, seq![close], k - (start + 1)));
                    }
                    Some((start, k))
                },
            }
        },
    }
}

/// Takes a title apart at its first pair of brackets, `（）` or `()`, whichever opens
/// first; blank brackets count as none.
pub fn parse_title(title: &str) -> (parts: TitleParts)
    ensures
        parts.full@ == title@,
        (opt_view(parts.in_bracket), opt_view(parts.before_bracket)) == title_split(title@),
{
    let full = title.to_owned();
    let v = chars_of(title);
    let wide = find_bracket(&v, '（', '）');
    let ascii = find_bracket(&v, '(', ')');
    let pair = match (wide, ascii) {
        (Some(a), Some(b)) => if b.0 < a.0 {
            Some(b)
        } else {
            Some(a)
        },
        (Some(a), None) => Some(a),
        (None, b) => b,
    };
    match pair {
        None => TitleParts { full, in_bracket: None, before_bracket: None },
        Some((start, end)) => {
            let (lo, hi) = trim_bounds(&v, start + 1, end);
            if lo == hi {
                return TitleParts { full, in_bracket: None, before_bracket: None };
            }
            let inner = string_of(&v, lo, hi);
            let (blo, bhi) = trim_bounds(&v, 0, start);
            let before = string_of(&v, blo, bhi);
            let before_bracket = if blo == bhi {
                None
            } else {
                Some(before)
            };
            TitleParts { full, in_bracket: Some(inner), before_bracket }
        },
    }
}

/// The title written in `style`: the chosen part, or the whole title when it is absent.
pub open spec fn styled_title(parts: TitleParts, style: TitleStyle) -> Seq<char> {
    match style {
        TitleStyle::Full => parts.full@,
        TitleStyle::InBracket => match parts.in_bracket {
            Some(s) => s@,
            None => parts.full@,
        },
        TitleStyle::BeforeBracket => match parts.before_bracket {
            Some(s) => s@,
            None => parts.full@,
        },
    }
}

/// The title written in `style`; the whole title stands in for a missing part.
pub fn apply_title_style(parts: &TitleParts, style: TitleStyle) -> (res: String)
    ensures
        res@ == styled_title(*parts, style),
{
    match style {
        TitleStyle::Full => parts.full.clone(),
        TitleStyle::InBracket => match &parts.in_bracket {
            Some(s) => s.clone(),
            None => parts.full.clone(),
        },
        TitleStyle::BeforeBracket => match &parts.before_bracket {
            Some(s) => s.clone(),
            None => parts.full.clone(),
        },
    }
}

// ---------------------------------------------------------------------------
// Book page
// ---------------------------------------------------------------------------

/// The position of the first `<title>` element.
pub open spec fn title_pos(tv: Seq<TokenV>) -> Option<int> {
    first_from(tv.len() as int, 0, |k: int| is_tag(tv[k], "title"@))
}

/// The position of the first `span.hottext` whose text mentions the synopsis label.
pub open spec fn intro_label_pos(tv: Seq<TokenV>) -> Option<int> {
    first_from(
        tv.len() as int,
        0,
        |k: int|
            is_tag(tv[k], "span"@) && has_class(tv[k], "hottext"@) && contains_seq(
                text_of(tv, k),
                "内容简介"@,
            ),
    )
}

/// The position of the first link whose trimmed text is the table-of-contents label and
/// that has an `href`.
pub open spec fn toc_link_pos(tv: Seq<TokenV>) -> Option<int> {
    first_from(
        tv.len() as int,
        0,
        |k: int|
            is_tag(tv[k], "a"@) && trimmed(text_of(tv, k)) == "小说目录"@ && token_attr(
                tv[k],
                "href"@,
            ) is Some,
    )
}

/// The texts, with line breaks, of the element siblings from position `m` on, each
/// followed by `\n`.
pub open spec fn sibling_texts(tv: Seq<TokenV>, m: int) -> Seq<char>
    decreases tv.len() + 1 - m,
{
    if m < 0 || m >= tv.len() || tv[m] is Close {
        Seq::empty()
    } else {
        proof {
            lemma_node_end_bounds(tv, m);
        }
        (if tv[m] is Element {
            break_text(tv, m) + seq!['\n']
        } else {
            Seq::empty()
        }) + sibling_texts(tv, node_end(tv, m) + 1)
    }
}

/// The synopsis: the element siblings after the synopsis label, trimmed.
pub open spec fn intro_of(tv: Seq<TokenV>) -> Seq<char> {
    match intro_label_pos(tv) {
        Some(h) => trimmed(sibling_texts(tv, node_end(tv, h) + 1)),
        None => Seq::empty(),
    }
}

/// The width an image declares, 0 when absent or not a `u32`.
pub open spec fn declared_width(t: TokenV) -> nat {
    match token_attr(t, "width"@) {
        Some(w) => match parsed_uint(w, u32::MAX as nat) {
            Some(n) => n,
            None => 0,
        },
        None => 0,
    }
}

/// The widest cover image from position `k` on (the first of equal widths), starting
/// from `best`: images whose `src` has the cover path and resolves against `url`.
pub open spec fn cover_pick(tv: Seq<TokenV>, url: Seq<char>, k: int, best: Option<(nat, Seq<char>)>) -> Option<(nat, Seq<char>)>
    decreases tv.len() - k,
{
    if k < 0 || k >= tv.len() {
        best
    } else {
        let next = if is_tag(tv[k], "img"@) {
            match token_attr(tv[k], "src"@) {
                Some(src) => if contains_seq(src, "img.wenku8.com/image/"@) {
                    match url_joined(url, src) {
                        UrlJoinV::Joined(abs) => {
                            let w = declared_width(tv[k]);
                            match best {
                                None => Some((w, abs)),
                                Some(b) => if w > b.0 {
                                    Some((w, abs))
                                } else {
                                    best
                                },
                            }
                        },
                        _ => best,
                    }
                } else {
                    best
                },
                None => best,
            }
        } else {
            best
        };
        cover_pick(tv, url, k + 1, next)
    }
}

/// Title, author and library from the page title `"title - author - library - ..."`;
/// author and library only when there are at least three parts.
pub open spec fn title_fields(text: Seq<char>) -> (Seq<char>, Option<(Seq<char>, Seq<char>)>) {
    let parts = split_on(text, " - "@);
    if parts.len() >= 3 {
        (trimmed(parts[0]), Some((trimmed(parts[1]), trimmed(parts[2]))))
    } else {
        (trimmed(text), None)
    }
}

/// The position of the first `<title>` element.
pub(crate) fn find_title(toks: &Vec<HtmlToken>) -> (r: Option<usize>)
    ensures
        r matches Some(k) ==> k < toks.len() && title_pos(tokens_view(toks@)) == Some(k as int),
        r is None ==> title_pos(tokens_view(toks@)) is None,
{
    let ghost tv = tokens_view(toks@);
    let ghost p = |k: int| is_tag(tv[k], "title"@);
    let mut k: usize = 0;
    while k < toks.len()
        invariant
            k <= toks.len(),
            tv == tokens_view(toks@),
            p == (|k: int| is_tag(tv[k], "title"@)),
            first_from(tv.len() as int, 0, p) == first_from(tv.len() as int, k as int, p),
        decreases toks.len() - k,
    {
        if tag_at(toks, k, "title") {
            return Some(k);
        }
        k += 1;
    }
    None
}

/// The position of the first synopsis label.
pub(crate) fn find_intro_label(toks: &Vec<HtmlToken>) -> (r: Option<usize>)
    ensures
        r matches Some(k) ==> k < toks.len() && intro_label_pos(tokens_view(toks@)) == Some(
            k as int,
        ),
        r is None ==> intro_label_pos(tokens_view(toks@)) is None,
{
    let ghost tv = tokens_view(toks@);
    let ghost p = |k: int|
        is_tag(tv[k], "span"@) && has_class(tv[k], "hottext"@) && contains_seq(
            text_of(tv, k),
            "内容简介"@,
        );
    let mut k: usize = 0;
    while k < toks.len()
        invariant
            k <= toks.len(),
            tv == tokens_view(toks@),
            p == (|k: int|
                is_tag(tv[k], "span"@) && has_class(tv[k], "hottext"@) && contains_seq(
                    text_of(tv, k),
                    "内容简介"@,
                )),
            first_from(tv.len() as int, 0, p) == first_from(tv.len() as int, k as int, p),
        decreases toks.len() - k,
    {
        if tag_at(toks, k, "span") && class_at(toks, k, "hottext") {
            let label = element_text(toks, k);
            if contains_str(label.as_str(), "内容简介") {
                return Some(k);
            }
        }
        k += 1;
    }
    None
}

/// The position of the first table-of-contents link.
fn find_toc_link(toks: &Vec<HtmlToken>) -> (r: Option<usize>)
    ensures
        r matches Some(k) ==> k < toks.len() && toc_link_pos(tokens_view(toks@)) == Some(k as int),
        r is None ==> toc_link_pos(tokens_view(toks@)) is None,
{
    let ghost tv = tokens_view(toks@);
    let ghost p = |k: int|
        is_tag(tv[k], "a"@) && trimmed(text_of(tv, k)) == "小说目录"@ && token_attr(
            tv[k],
            "href"@,
        ) is Some;
    let mut k: usize = 0;
    while k < toks.len()
        invariant
            k <= toks.len(),
            tv == tokens_view(toks@),
            p == (|k: int|
                is_tag(tv[k], "a"@) && trimmed(text_of(tv, k)) == "小说目录"@ && token_attr(
                    tv[k],
                    "href"@,
                ) is Some),
            first_from(tv.len() as int, 0, p) == first_from(tv.len() as int, k as int, p),
        decreases toks.len() - k,
    {
        if tag_at(toks, k, "a") {
            let text = element_text(toks, k);
            let t = trim(text.as_str());
            if str_eq(t.as_str(), "小说目录") && attr_at(toks, k, "href").is_some() {
                return Some(k);
            }
        }
        k += 1;
    }
    None
}

/// Appends the texts with line breaks of the element siblings from position `m` on.
fn push_sibling_texts(out: &mut String, toks: &Vec<HtmlToken>, m: usize)
    requires
        m <= toks.len(),
    ensures
        final(out)@ == old(out)@ + sibling_texts(tokens_view(toks@), m as int),
{
    let ghost tv = tokens_view(toks@);
    let mut j = m;
    while j < toks.len() && !close_at(toks, j)
        invariant
            m <= j <= toks.len(),
            tv == tokens_view(toks@),
            old(out)@ + sibling_texts(tv, m as int) == out@ + sibling_texts(tv, j as int),
        decreases toks.len() - j,
    {
        proof {
            lemma_node_end_bounds(tv, j as int);
        }
        let ghost o = out@;
        match &toks[j] {
            HtmlToken::Element { .. } => {
                let t = text_with_breaks(toks, j);
                push_str(out, t.as_str());
                push_char(out, '\n');
            },
            _ => {},
        }
        let e = subtree_end(toks, j);
        if e >= toks.len() {
            assert(sibling_texts(tv, e + 1) =~= Seq::<char>::empty());
            assert(sibling_texts(tv, toks.len() as int) =~= Seq::<char>::empty());
            assert(out@ + sibling_texts(tv, toks.len() as int) =~= o + sibling_texts(tv, j as int));
            j = toks.len();
        } else {
            assert(out@ + sibling_texts(tv, e + 1) =~= o + sibling_texts(tv, j as int));
            j = e + 1;
        }
    }
    proof {
        if j < toks.len() {
            assert(tv[j as int] is Close);
        }
    }
    assert(out@ =~= old(out)@ + sibling_texts(tv, m as int));
}

/// The widest cover image, scanning the whole page.
fn pick_cover(toks: &Vec<HtmlToken>, url: &str) -> (r: Option<(u32, String)>)
    ensures
        match r {
            Some((w, u)) => cover_pick(tokens_view(toks@), url@, 0, None) == Some((w as nat, u@)),
            None => cover_pick(tokens_view(toks@), url@, 0, None) is None,
        },
{
    let ghost tv = tokens_view(toks@);
    let mut best: Option<(u32, String)> = None;
    let mut k: usize = 0;
    while k < toks.len()
        invariant
            k <= toks.len(),
            tv == tokens_view(toks@),
            cover_pick(tv, url@, 0, None) == cover_pick(
                tv,
                url@,
                k as int,
                match best {
                    Some((w, u)) => Some((w as nat, u@)),
                    None => None,
                },
            ),
        decreases toks.len() - k,
    {
        if tag_at(toks, k, "img") {
            match attr_at(toks, k, "src") {
                Some(src) => {
                    if contains_str(src.as_str(), "img.wenku8.com/image/") {
                        match join_url(url, src.as_str()) {
                            UrlJoin::Joined(abs) => {
                                let w: u32 = match attr_at(toks, k, "width") {
                                    Some(ws) => match parse_uint(ws.as_str(), 0xffff_ffff) {
                                        Some(n) => n as u32,
                                        None => 0,
                                    },
                                    None => 0,
                                };
                                assert(w as nat == declared_width(tv[k as int]));
                                let better = match &best {
                                    None => true,
                                    Some((bw, _)) => w > *bw,
                                };
                                if better {
                                    best = Some((w, abs));
                                }
                            },
                            _ => {},
                        }
                    }
                },
                None => {},
            }
        }
        k += 1;
    }
    best
}

/// What reading the book page does: `before` is the book as it was, `after` as it is.
pub open spec fn book_info_read(tv: Seq<TokenV>, url: Seq<char>, before: Book, after: Book, res: Result<(), Error>) -> bool {
        ({
            &&& match title_pos(tv) {
                Some(t) => {
                    let f = title_fields(text_of(tv, t));
                    &&& after.title@ == f.0
                    &&& match f.1 {
                        Some((a, l)) => after.author@ == a && after.library@ == l,
                        None => after.author == before.author && after.library
                            == before.library,
                    }
                },
                None => after.title == before.title && after.author == before.author && after.library == before.library,
            }
            &&& after.intro@ == intro_of(tv)
            &&& after.volumes == before.volumes
            &&& after.images == before.images
            &&& after.cover == before.cover
            &&& match toc_link_pos(tv) {
                Some(a) => match url_joined(url, token_attr(tv[a], "href"@)->0) {
                    UrlJoinV::Joined(abs) => {
                        &&& after.toc_url matches Some(t) && t@ == abs
                        &&& book_info_tail(tv, url, before.cover_url, after, res)
                    },
                    UrlJoinV::BadBase(m) => res matches Err(e) && e.kind == ErrorKind::Parse
                        && e.message@ == "书页 URL 解析失败: "@ + m,
                    UrlJoinV::BadReference(m) => res matches Err(e) && e.kind
                        == ErrorKind::Parse && e.message@ == "目录链接解析失败: "@ + m,
                },
                None => after.toc_url == before.toc_url && book_info_tail(
                    tv,
                    url,
                    before.cover_url,
                    after,
                    res,
                ),
            }
        })
}

/// Reads the book page: title, author and library from `<title>`, the synopsis, the
/// table-of-contents URL and the cover URL, resolved against `url`.
///
/// Fails when a table-of-contents link or the page URL cannot be resolved, or when no
/// title was found.
pub fn book_info_from_tokens(toks: &Vec<HtmlToken>, url: &str, book: &mut Book) -> (res: Result<(), Error>)
    ensures
        book_info_read(tokens_view(toks@), url@, *old(book), *final(book), res),
{
    let ghost tv = tokens_view(toks@);
    match find_title(toks) {
        Some(t) => {
            let text = element_text(toks, t);
            let parts = split_str(text.as_str(), " - ");
            proof {
                assert(parts@.map_values(|p: String| p@).len() == parts@.len());
            }
            if parts.len() >= 3 {
                assert(parts@[0]@ == split_on(text@, " - "@)[0]);
                assert(parts@[1]@ == split_on(text@, " - "@)[1]);
                assert(parts@[2]@ == split_on(text@, " - "@)[2]);
                book.title = trim(parts[0].as_str());
                book.author = trim(parts[1].as_str());
                book.library = trim(parts[2].as_str());
            } else {
                book.title = trim(text.as_str());
            }
        },
        None => {},
    }
    let mut intro_text = String::new();
    match find_intro_label(toks) {
        Some(h) => {
            let e = subtree_end(toks, h);
            if e < toks.len() {
                push_sibling_texts(&mut intro_text, toks, e + 1);
            } else {
                proof {
                    assert(sibling_texts(tv, e + 1) =~= Seq::<char>::empty());
                }
            }
        },
        None => {},
    }
    book.intro = trim(intro_text.as_str());
    proof {
        if intro_label_pos(tv) is None {
            assert(intro_text@ =~= Seq::<char>::empty());
        }
    }
    match find_toc_link(toks) {
        Some(a) => {
            proof {
                lemma_first_from(
                    tv.len() as int,
                    0,
                    |k: int|
                        is_tag(tv[k], "a"@) && trimmed(text_of(tv, k)) == "小说目录"@ && token_attr(
                            tv[k],
                            "href"@,
                        ) is Some,
                );
            }
            match attr_at(toks, a, "href") {
                Some(href) => match join_url(url, href.as_str()) {
                    UrlJoin::Joined(abs) => {
                        book.toc_url = Some(abs);
                    },
                    UrlJoin::BadBase(m) => {
                        return Err(error_with(ErrorKind::Parse, "书页 URL 解析失败: ", m.as_str()));
                    },
                    UrlJoin::BadReference(m) => {
                        return Err(error_with(ErrorKind::Parse, "目录链接解析失败: ", m.as_str()));
                    },
                },
                None => {},
            }
        },
        None => {},
    }
    match parse_url(url) {
        Err(m) => {
            return Err(error_with(ErrorKind::Parse, "书页 URL 解析失败: ", m.as_str()));
        },
        Ok(_) => {},
    }
    match pick_cover(toks, url) {
        Some((_, u)) => {
            book.cover_url = Some(u);
        },
        None => {},
    }
    if book.title.as_str().is_empty() {
        return Err(error_of(ErrorKind::Parse, "未能获取书名，可能网址无效或页面结构变化"));
    }
    Ok(())
}

/// What follows the table-of-contents link: the page URL must parse, the cover URL is the
/// widest cover image (left alone when there is none), and the title must not be empty.
pub open spec fn book_info_tail(tv: Seq<TokenV>, url: Seq<char>, old_cover_url: Option<String>, b: Book, res: Result<(), Error>) -> bool {
    match url_parsed(url) {
        Err(m) => res matches Err(e) && e.kind == ErrorKind::Parse && e.message@ == "书页 URL 解析失败: "@ + m,
        Ok(_) => {
            &&& match cover_pick(tv, url, 0, None) {
                Some((_, u)) => b.cover_url matches Some(c) && c@ == u,
                None => b.cover_url == old_cover_url,
            }
            &&& if b.title@.len() == 0 {
                res matches Err(e) && e.kind == ErrorKind::Parse && e.message@ == "未能获取书名，可能网址无效或页面结构变化"@
            } else {
                res is Ok
            }
        },
    }
}

/// Reads the book page `html` (see [`book_info_from_tokens`]).
pub fn parse_book_info(html: &str, url: &str, book: &mut Book) -> (res: Result<(), Error>)
    ensures
        book_info_read(document_tokens(html@), url@, *old(book), *final(book), res),
{
    let toks = tokenize(html);
    book_info_from_tokens(&toks, url, book)
}

// ---------------------------------------------------------------------------
// Table of contents
// ---------------------------------------------------------------------------

/// The position of the first `<a>` inside the element opened at `k`.
pub open spec fn first_link_in(tv: Seq<TokenV>, k: int) -> Option<int> {
    first_from(node_end(tv, k), k + 1, |j: int| is_tag(tv[j], "a"@))
}

/// The name of a volume heading cell: its text pieces trimmed, joined, and trimmed.
pub open spec fn volume_name(tv: Seq<TokenV>, k: int) -> Seq<char> {
    trimmed(trimmed_texts_in(tv, k + 1, node_end(tv, k)))
}

/// `vols` with `ch` added to its last volume.
pub open spec fn push_to_last(vols: Seq<VolumeV>, ch: ChapterV) -> Seq<VolumeV> {
    vols.update(
        vols.len() - 1,
        VolumeV { name: vols.last().name, chapters: vols.last().chapters.push(ch) },
    )
}

/// Reading table cells from position `k` on: a `td.vcss` cell starts a volume, a
/// `td.ccss` cell's first link adds a chapter to the latest volume started here (`seen`
/// tells whether there is one). Resolving a chapter link may fail with a message.
pub open spec fn toc_fold(tv: Seq<TokenV>, url: Seq<char>, k: int, vols: Seq<VolumeV>, seen: bool) -> Result<Seq<VolumeV>, Seq<char>>
    decreases tv.len() - k,
{
    if k < 0 || k >= tv.len() {
        Ok(vols)
    } else if !is_tag(tv[k], "td"@) {
        toc_fold(tv, url, k + 1, vols, seen)
    } else if has_class(tv[k], "vcss"@) {
        toc_fold(
            tv,
            url,
            k + 1,
            vols.push(VolumeV { name: volume_name(tv, k), chapters: Seq::empty() }),
            true,
        )
    } else if has_class(tv[k], "ccss"@) && seen {
        match first_link_in(tv, k) {
            Some(a) => match token_attr(tv[a], "href"@) {
                Some(href) => match url_joined(url, href) {
                    UrlJoinV::Joined(abs) => toc_fold(
                        tv,
                        url,
                        k + 1,
                        push_to_last(vols, ChapterV { title: trimmed(trimmed(text_of(tv, a))), url: abs }),
                        seen,
                    ),
                    UrlJoinV::BadReference(m) => Err("章节链接解析失败: "@ + m),
                    UrlJoinV::BadBase(m) => Err("目录页 URL 解析失败: "@ + m),
                },
                None => toc_fold(tv, url, k + 1, vols, seen),
            },
            None => toc_fold(tv, url, k + 1, vols, seen),
        }
    } else {
        toc_fold(tv, url, k + 1, vols, seen)
    }
}

/// What reading the table of contents does to the volumes, and its outcome.
pub open spec fn toc_read(tv: Seq<TokenV>, url: Seq<char>, before: Seq<VolumeV>, after: Seq<VolumeV>, res: Result<(), Error>) -> bool {
    match url_parsed(url) {
        Err(m) => after == before && (res matches Err(e) && e.kind == ErrorKind::Parse
            && e.message@ == "目录页 URL 解析失败: "@ + m),
        Ok(_) => match toc_fold(tv, url, 0, before, false) {
            Err(m) => res matches Err(e) && e.kind == ErrorKind::Parse && e.message@ == m,
            Ok(vols) => after == vols && (if vols.len() == 0 {
                res matches Err(e) && e.kind == ErrorKind::Parse && e.message@
                    == "目录解析失败：未找到任何卷"@
            } else {
                res is Ok
            }),
        },
    }
}

/// The position of the first `<a>` inside the element opened at `k`, which ends at `e`.
pub(crate) fn find_link_in(toks: &Vec<HtmlToken>, k: usize, e: usize) -> (r: Option<usize>)
    requires
        k < e <= toks.len(),
        e == node_end(tokens_view(toks@), k as int),
    ensures
        r matches Some(a) ==> a < toks.len() && first_link_in(tokens_view(toks@), k as int) == Some(
            a as int,
        ),
        r is None ==> first_link_in(tokens_view(toks@), k as int) is None,
{
    let ghost tv = tokens_view(toks@);
    let ghost p = |j: int| is_tag(tv[j], "a"@);
    let mut j = k + 1;
    while j < e
        invariant
            k < j <= e,
            e <= toks.len(),
            e == node_end(tokens_view(toks@), k as int),
            tv == tokens_view(toks@),
            p == (|j: int| is_tag(tv[j], "a"@)),
            first_from(e as int, k + 1, p) == first_from(e as int, j as int, p),
        decreases e - j,
    {
        if tag_at(toks, j, "a") {
            return Some(j);
        }
        j += 1;
    }
    None
}

/// Reads the table of contents into `book.volumes`: `td.vcss` cells start volumes,
/// `td.ccss` cells add their first link as a chapter, resolved against `toc_url`.
pub fn toc_from_tokens(toks: &Vec<HtmlToken>, toc_url: &str, book: &mut Book) -> (res: Result<(), Error>)
    ensures
        toc_read(tokens_view(toks@), toc_url@, volumes_view(old(book).volumes@), volumes_view(final(book).volumes@), res),
        final(book).title == old(book).title,
        final(book).author == old(book).author,
        final(book).library == old(book).library,
        final(book).intro == old(book).intro,
        final(book).cover == old(book).cover,
        final(book).cover_url == old(book).cover_url,
        final(book).toc_url == old(book).toc_url,
        final(book).images == old(book).images,
        final(book).volumes@.len() >= old(book).volumes@.len(),
        final(book).volumes@.take(old(book).volumes@.len() as int) == old(book).volumes@,
{
    let ghost tv = tokens_view(toks@);
    let ghost n0 = book.volumes@.len() as int;
    assert(book.volumes@.take(n0) =~= old(book).volumes@);
    match parse_url(toc_url) {
        Err(m) => {
            return Err(error_with(ErrorKind::Parse, "目录页 URL 解析失败: ", m.as_str()));
        },
        Ok(_) => {},
    }
    let ghost start = volumes_view(book.volumes@);
    let mut seen = false;
    let mut k: usize = 0;
    while k < toks.len()
        invariant
            k <= toks.len(),
            tv == tokens_view(toks@),
            url_parsed(toc_url@) is Ok,
            start == volumes_view(old(book).volumes@),
            toc_fold(tv, toc_url@, 0, start, false) == toc_fold(tv, toc_url@, k as int, volumes_view(book.volumes@), seen),
            n0 == old(book).volumes@.len(),
            n0 <= book.volumes@.len(),
            book.volumes@.take(n0) == old(book).volumes@,
            seen ==> book.volumes@.len() > n0,
            book.title == old(book).title,
            book.author == old(book).author,
            book.library == old(book).library,
            book.intro == old(book).intro,
            book.cover == old(book).cover,
            book.cover_url == old(book).cover_url,
            book.toc_url == old(book).toc_url,
            book.images == old(book).images,
        decreases toks.len() - k,
    {
        if tag_at(toks, k, "td") {
            if class_at(toks, k, "vcss") {
                let e = subtree_end(toks, k);
                let mut pieces = String::new();
                push_trimmed_texts(&mut pieces, toks, k + 1, e);
                let name = trim(pieces.as_str());
                let ghost before = volumes_view(book.volumes@);
                let ghost raw = book.volumes@;
                let vol = Volume { name, chapters: Vec::new() };
                assert(vol@.chapters =~= Seq::<ChapterV>::empty());
                book.volumes.push(vol);
                assert(book.volumes@.take(n0) =~= raw.take(n0));
                proof {
                    assert(volumes_view(book.volumes@) =~= before.push(
                        VolumeV { name: volume_name(tv, k as int), chapters: Seq::empty() },
                    ));
                }
                seen = true;
            } else if class_at(toks, k, "ccss") && seen {
                let e = subtree_end(toks, k);
                match find_link_in(toks, k, e) {
                    Some(a) => match attr_at(toks, a, "href") {
                        Some(href) => match join_url(toc_url, href.as_str()) {
                            UrlJoin::Joined(abs) => {
                                let text = element_text(toks, a);
                                let t1 = trim(text.as_str());
                                let title = trim(t1.as_str());
                                let ghost before = volumes_view(book.volumes@);
                                let ghost ch = ChapterV { title: title@, url: abs@ };
                                let ghost raw = book.volumes@;
                                match book.volumes.pop() {
                                    Some(mut last) => {
                                        let ghost lv = last@;
                                        last.chapters.push(Chapter::new(title, abs));
                                        assert(last@.chapters =~= lv.chapters.push(ch));
                                        book.volumes.push(last);
                                    },
                                    None => {},
                                }
                                assert(book.volumes@.take(n0) =~= raw.take(n0));
                                proof {
                                    assert(volumes_view(book.volumes@) =~= push_to_last(
                                        before,
                                        ChapterV { title: trimmed(trimmed(text_of(tv, a as int))), url: abs@ },
                                    ));
                                }
                            },
                            UrlJoin::BadReference(m) => {
                                return Err(error_with(ErrorKind::Parse, "章节链接解析失败: ", m.as_str()));
                            },
                            UrlJoin::BadBase(m) => {
                                return Err(error_with(ErrorKind::Parse, "目录页 URL 解析失败: ", m.as_str()));
                            },
                        },
                        None => {},
                    },
                    None => {},
                }
            }
        }
        k += 1;
    }
    if book.volumes.len() == 0 {
        return Err(error_of(ErrorKind::Parse, "目录解析失败：未找到任何卷"));
    }
    Ok(())
}

/// Reads the table of contents page `html` (see [`toc_from_tokens`]).
pub fn parse_toc(html: &str, toc_url: &str, book: &mut Book) -> (res: Result<(), Error>)
    ensures
        toc_read(document_tokens(html@), toc_url@, volumes_view(old(book).volumes@), volumes_view(final(book).volumes@), res),
        final(book).title == old(book).title,
        final(book).author == old(book).author,
        final(book).library == old(book).library,
        final(book).intro == old(book).intro,
        final(book).cover == old(book).cover,
        final(book).cover_url == old(book).cover_url,
        final(book).toc_url == old(book).toc_url,
        final(book).images == old(book).images,
        final(book).volumes@.len() >= old(book).volumes@.len(),
        final(book).volumes@.take(old(book).volumes@.len() as int) == old(book).volumes@,
{
    let toks = tokenize(html);
    toc_from_tokens(&toks, toc_url, book)
}


// ---------------------------------------------------------------------------
// Chapter pages
// ---------------------------------------------------------------------------

/// The position of the first element whose `id` is `content`.
pub open spec fn content_pos(tv: Seq<TokenV>) -> Option<int> {
    first_from(tv.len() as int, 0, |k: int| token_attr(tv[k], "id"@) == Some("content"@))
}

/// The trimmed, non-empty text nodes among the sibling nodes from position `m` on.
pub open spec fn child_paragraphs(tv: Seq<TokenV>, m: int) -> Seq<Seq<char>>
    decreases tv.len() + 1 - m,
{
    if m < 0 || m >= tv.len() || tv[m] is Close {
        Seq::empty()
    } else {
        proof {
            lemma_node_end_bounds(tv, m);
        }
        (match tv[m] {
            TokenV::Text(t) => if trimmed(t).len() > 0 {
                seq![trimmed(t)]
            } else {
                Seq::empty()
            },
            _ => Seq::empty(),
        }) + child_paragraphs(tv, node_end(tv, m) + 1)
    }
}

/// The images among positions `k..stop`, after `acc`: each `<img src>` resolved against
/// `url`; resolving may fail with a message.
pub open spec fn chapter_images(tv: Seq<TokenV>, url: Seq<char>, k: int, stop: int, acc: Seq<Seq<char>>) -> Result<Seq<Seq<char>>, Seq<char>>
    decreases stop - k,
{
    if k < 0 || k >= stop || k >= tv.len() {
        Ok(acc)
    } else if is_tag(tv[k], "img"@) {
        match token_attr(tv[k], "src"@) {
            Some(src) => match url_joined(url, src) {
                UrlJoinV::Joined(abs) => chapter_images(tv, url, k + 1, stop, acc.push(abs)),
                UrlJoinV::BadReference(m) => Err("图片链接解析失败: "@ + m),
                UrlJoinV::BadBase(m) => Err("章节页 URL 解析失败: "@ + m),
            },
            None => chapter_images(tv, url, k + 1, stop, acc),
        }
    } else {
        chapter_images(tv, url, k + 1, stop, acc)
    }
}

/// What reading a chapter page gives: its paragraphs and image URLs, or the kind and
/// message of the error.
pub open spec fn chapter_page(tv: Seq<TokenV>, url: Seq<char>) -> Result<(Seq<Seq<char>>, Seq<Seq<char>>), (ErrorKind, Seq<char>)> {
    match url_parsed(url) {
        Err(m) => Err((ErrorKind::Parse, "章节页 URL 解析失败: "@ + m)),
        Ok(_) => match content_pos(tv) {
            None => Err((ErrorKind::NotFound, "未找到 #content 内容区: "@ + url)),
            Some(c) => match chapter_images(tv, url, c + 1, node_end(tv, c), Seq::empty()) {
                Err(m) => Err((ErrorKind::Parse, m)),
                Ok(imgs) => Ok((child_paragraphs(tv, c + 1), imgs)),
            },
        },
    }
}

/// Whether `res` is what [`chapter_page`] gives for the page.
pub open spec fn chapter_read(tv: Seq<TokenV>, url: Seq<char>, res: Result<(Vec<String>, Vec<String>), Error>) -> bool {
    match chapter_page(tv, url) {
        Err((k, m)) => res matches Err(e) && e.kind == k && e.message@ == m,
        Ok((ps, imgs)) => res matches Ok(r) && string_views(r.0@) == ps && string_views(r.1@)
            == imgs,
    }
}

/// The position of the first element whose `id` is `content`.
pub(crate) fn find_content(toks: &Vec<HtmlToken>) -> (r: Option<usize>)
    ensures
        r matches Some(k) ==> k < toks.len() && content_pos(tokens_view(toks@)) == Some(k as int),
        r is None ==> content_pos(tokens_view(toks@)) is None,
{
    let ghost tv = tokens_view(toks@);
    let ghost p = |k: int| token_attr(tv[k], "id"@) == Some("content"@);
    let mut k: usize = 0;
    while k < toks.len()
        invariant
            k <= toks.len(),
            tv == tokens_view(toks@),
            p == (|k: int| token_attr(tv[k], "id"@) == Some("content"@)),
            first_from(tv.len() as int, 0, p) == first_from(tv.len() as int, k as int, p),
        decreases toks.len() - k,
    {
        match attr_at(toks, k, "id") {
            Some(v) => {
                if str_eq(v.as_str(), "content") {
                    return Some(k);
                }
            },
            None => {},
        }
        k += 1;
    }
    None
}

/// Appends the trimmed, non-empty text nodes among the sibling nodes from `m` on.
pub(crate) fn push_child_paragraphs(out: &mut Vec<String>, toks: &Vec<HtmlToken>, m: usize)
    requires
        m <= toks.len(),
    ensures
        string_views(final(out)@) == string_views(old(out)@) + child_paragraphs(tokens_view(toks@), m as int),
{
    let ghost tv = tokens_view(toks@);
    let mut j = m;
    while j < toks.len() && !close_at(toks, j)
        invariant
            m <= j <= toks.len(),
            tv == tokens_view(toks@),
            string_views(old(out)@) + child_paragraphs(tv, m as int) == string_views(out@)
                + child_paragraphs(tv, j as int),
        decreases toks.len() - j,
    {
        proof {
            lemma_node_end_bounds(tv, j as int);
        }
        let ghost o = string_views(out@);
        match &toks[j] {
            HtmlToken::Text(t) => {
                let tt = trim(t.as_str());
                if !tt.as_str().is_empty() {
                    out.push(tt);
                }
            },
            _ => {},
        }
        let ghost here = match tv[j as int] {
            TokenV::Text(t) => if trimmed(t).len() > 0 {
                seq![trimmed(t)]
            } else {
                Seq::empty()
            },
            _ => Seq::empty(),
        };
        assert(string_views(out@) =~= o + here);
        let e = subtree_end(toks, j);
        if e >= toks.len() {
            assert(child_paragraphs(tv, e + 1) =~= Seq::<Seq<char>>::empty());
            assert(child_paragraphs(tv, toks.len() as int) =~= Seq::<Seq<char>>::empty());
            assert(string_views(out@) + child_paragraphs(tv, toks.len() as int) =~= o
                + child_paragraphs(tv, j as int));
            j = toks.len();
        } else {
            assert(string_views(out@) + child_paragraphs(tv, e + 1) =~= o + child_paragraphs(
                tv,
                j as int,
            ));
            j = e + 1;
        }
    }
    proof {
        if j < toks.len() {
            assert(tv[j as int] is Close);
        }
    }
    assert(child_paragraphs(tv, j as int) =~= Seq::<Seq<char>>::empty());
    assert(string_views(out@) =~= string_views(old(out)@) + child_paragraphs(tv, m as int));
}

/// Reads a chapter page already split into tokens: the trimmed, non-empty text nodes
/// directly inside the `#content` element, and the URLs of the images inside it,
/// resolved against `url`.
pub fn chapter_from_tokens(toks: &Vec<HtmlToken>, url: &str) -> (res: Result<(Vec<String>, Vec<String>), Error>)
    ensures
        chapter_read(tokens_view(toks@), url@, res),
{
    let ghost tv = tokens_view(toks@);
    match parse_url(url) {
        Err(m) => {
            return Err(error_with(ErrorKind::Parse, "章节页 URL 解析失败: ", m.as_str()));
        },
        Ok(_) => {},
    }
    let c = match find_content(toks) {
        Some(c) => c,
        None => {
            return Err(error_with(ErrorKind::NotFound, "未找到 #content 内容区: ", url));
        },
    };
    let mut paragraphs: Vec<String> = Vec::new();
    push_child_paragraphs(&mut paragraphs, toks, c + 1);
    assert(string_views(paragraphs@) =~= child_paragraphs(tv, c + 1));
    let e = subtree_end(toks, c);
    let mut images: Vec<String> = Vec::new();
    assert(string_views(images@) =~= Seq::<Seq<char>>::empty());
    let mut k = c + 1;
    while k < e
        invariant
            c < k <= e || k == c + 1,
            e <= toks.len(),
            c < e,
            tv == tokens_view(toks@),
            url_parsed(url@) is Ok,
            content_pos(tv) == Some(c as int),
            e == node_end(tv, c as int),
            string_views(paragraphs@) == child_paragraphs(tv, c + 1),
            chapter_images(tv, url@, c + 1, e as int, Seq::empty()) == chapter_images(
                tv,
                url@,
                k as int,
                e as int,
                string_views(images@),
            ),
        decreases e - k,
    {
        if tag_at(toks, k, "img") {
            match attr_at(toks, k, "src") {
                Some(src) => match join_url(url, src.as_str()) {
                    UrlJoin::Joined(abs) => {
                        let ghost before = string_views(images@);
                        images.push(abs);
                        assert(string_views(images@) =~= before.push(abs@));
                    },
                    UrlJoin::BadReference(m) => {
                        return Err(error_with(ErrorKind::Parse, "图片链接解析失败: ", m.as_str()));
                    },
                    UrlJoin::BadBase(m) => {
                        return Err(error_with(ErrorKind::Parse, "章节页 URL 解析失败: ", m.as_str()));
                    },
                },
                None => {},
            }
        }
        k += 1;
    }
    Ok((paragraphs, images))
}

/// Reads the chapter page `html` (see [`chapter_from_tokens`]).
pub fn parse_chapter(html: &str, url: &str) -> (res: Result<(Vec<String>, Vec<String>), Error>)
    ensures
        chapter_read(document_tokens(html@), url@, res),
{
    let toks = tokenize(html);
    chapter_from_tokens(&toks, url)
}


// ---------------------------------------------------------------------------
// Laws
// ---------------------------------------------------------------------------

/// Empty brackets count as no brackets: a bracketed part of a title is never empty,
/// and when there is no bracketed part there is no part before the brackets either.
pub proof fn law_title_parts_not_empty(title: Seq<char>)
    ensures
        title_split(title).0 matches Some(inner) ==> inner.len() > 0,
        title_split(title).1 matches Some(before) ==> before.len() > 0,
        title_split(title).0 is None ==> title_split(title).1 is None,
{
}

/// A title is cut at its first pair of brackets, whichever kind opens first: when `a`
/// holds no opening bracket of either kind and `b` holds no closing bracket of the kind
/// that follows `a`, the title `a (b) c` (full-width or ASCII) gives `b` inside and
/// `a` before, both trimmed, whatever brackets `c` holds; when `b` is blank, the title
/// counts as having no brackets.
pub proof fn law_title_first_pair(a: Seq<char>, b: Seq<char>, c: Seq<char>, wide: bool)
    requires
        forall|i: int| 0 <= i < a.len() ==> a[i] != '（' && a[i] != '(',
        forall|i: int| 0 <= i < b.len() ==> b[i] != (if wide {
            '）'
        } else {
            ')'
        }),
    ensures
        ({
            let open = if wide {
                '（'
            } else {
                '('
            };
            let close = if wide {
                '）'
            } else {
                ')'
            };
            let t = a + seq![open] + b + seq![close] + c;
            &&& trimmed(b).len() > 0 ==> title_split(t).0 == Some(trimmed(b))
            &&& trimmed(b).len() > 0 && trimmed(a).len() > 0 ==> title_split(t).1 == Some(trimmed(a))
            &&& trimmed(b).len() > 0 && trimmed(a).len() == 0 ==> title_split(t).1 is None
            &&& trimmed(b).len() == 0 ==> title_split(t) == (None::<Seq<char>>, None::<Seq<char>>)
        }),
{
    let open = if wide {
        '（'
    } else {
        '('
    };
    let close = if wide {
        '）'
    } else {
        ')'
    };
    let other = if wide {
        '('
    } else {
        '（'
    };
    let other_close = if wide {
        ')'
    } else {
        '）'
    };
    let t = a + seq![open] + b + seq![close] + c;
    let n = a.len() as int;
    assert(t[n] == open);
    assert forall|j: int| 0 <= j < n implies t[j] != open && t[j] != other by {
        assert(t[j] == a[j]);
    }
    lemma_first_char_at(t, open, n);
    lemma_first_char_from(t, other, n + 1);
    let after = t.subrange(n + 1, t.len() as int);
    assert(after =~= b + seq![close] + c);
    assert(after[b.len() as int] == close);
    assert forall|j: int| 0 <= j < b.len() implies after[j] != close by {
        assert(after[j] == b[j]);
    }
    lemma_first_char_at(after, close, b.len() as int);
    let end = n + 1 + b.len();
    assert(bracket_span(t, open, close) == Some((n, end)));
    // The other kind of bracket, if it has a pair at all, opens later.
    match bracket_span(t, other, other_close) {
        Some(q) => {
            assert(q.0 > n);
        },
        None => {},
    }
    assert(first_bracket_pair(t) == Some((n, end)));
    assert(t.subrange(n + 1, end) =~= b);
    assert(t.subrange(0, n) =~= a);
}

/// Collecting image URLs keeps what was collected before and adds the URL of every
/// `<img>` in the range whose `src` resolves.
proof fn lemma_chapter_images_cover(tv: Seq<TokenV>, url: Seq<char>, k: int, stop: int, acc: Seq<Seq<char>>)
    requires
        0 <= k,
    ensures
        chapter_images(tv, url, k, stop, acc) matches Ok(r) ==> {
            &&& r.len() >= acc.len()
            &&& r.take(acc.len() as int) == acc
            &&& forall|p: int|
                k <= p < stop && p < tv.len() && is_tag(tv[p], "img"@) && (token_attr(tv[p], "src"@) matches Some(s)
                    && url_joined(url, s) matches UrlJoinV::Joined(abs)) ==> r.contains(
                    url_joined(url, token_attr(tv[p], "src"@)->0)->Joined_0,
                )
        },
    decreases stop - k,
{
    if k >= stop || k >= tv.len() {
        assert(acc.take(acc.len() as int) =~= acc);
    } else {
        let next = if is_tag(tv[k], "img"@) {
            match token_attr(tv[k], "src"@) {
                Some(src) => match url_joined(url, src) {
                    UrlJoinV::Joined(abs) => acc.push(abs),
                    _ => acc,
                },
                None => acc,
            }
        } else {
            acc
        };
        lemma_chapter_images_cover(tv, url, k + 1, stop, next);
        if let Ok(r) = chapter_images(tv, url, k, stop, acc) {
            assert(chapter_images(tv, url, k + 1, stop, next) == Ok::<Seq<Seq<char>>, Seq<char>>(r));
            assert(r.take(next.len() as int).take(acc.len() as int) =~= r.take(acc.len() as int));
            assert(next.take(acc.len() as int) =~= acc);
            if next.len() > acc.len() {
                assert(r.take(next.len() as int)[acc.len() as int] == next[acc.len() as int]);
                assert(r[acc.len() as int] == next.last());
            }
        }
    }
}

/// Reading a chapter page gives the URL of every `<img>` inside its `#content` area
/// whose `src` resolves against the page's URL.
pub proof fn law_chapter_page_has_every_image(tv: Seq<TokenV>, url: Seq<char>, p: int)
    ensures
        chapter_page(tv, url) matches Ok((ps, imgs)) ==> (content_pos(tv) matches Some(c) && c < p
            < node_end(tv, c) && p < tv.len() && is_tag(tv[p], "img"@) && (token_attr(tv[p], "src"@) matches Some(s)
            && url_joined(url, s) matches UrlJoinV::Joined(abs)) ==> imgs.contains(
            url_joined(url, token_attr(tv[p], "src"@)->0)->Joined_0,
        )),
{
    if let Some(c) = content_pos(tv) {
        lemma_first_from(tv.len() as int, 0, |k: int| token_attr(tv[k], "id"@) == Some("content"@));
        lemma_chapter_images_cover(tv, url, c + 1, node_end(tv, c), Seq::empty());
    }
}

/// Every style gives back the whole title when the title has no bracketed part.
pub proof fn law_unbracketed_title_unchanged(parts: TitleParts, style: TitleStyle)
    requires
        parts.in_bracket is None,
        parts.before_bracket is None,
    ensures
        styled_title(parts, style) == parts.full@,
{
}


/// Reading from position `k` on keeps the volumes before `n` as they are, and once a
/// volume has been started (`seen`) there are more than `n` volumes.
proof fn lemma_toc_fold_keeps_prefix(tv: Seq<TokenV>, url: Seq<char>, k: int, vols: Seq<VolumeV>, seen: bool, n: int)
    requires
        0 <= n <= vols.len(),
        seen ==> vols.len() > n,
    ensures
        toc_fold(tv, url, k, vols, seen) matches Ok(r) ==> r.len() >= n && r.take(n) == vols.take(n),
    decreases tv.len() - k,
{
    if 0 <= k < tv.len() && is_tag(tv[k], "td"@) {
        if has_class(tv[k], "vcss"@) {
            let next = vols.push(VolumeV { name: volume_name(tv, k), chapters: Seq::empty() });
            assert(next.take(n) =~= vols.take(n));
            lemma_toc_fold_keeps_prefix(tv, url, k + 1, next, true, n);
        } else if has_class(tv[k], "ccss"@) && seen {
            match first_link_in(tv, k) {
                Some(a) => match token_attr(tv[a], "href"@) {
                    Some(href) => match url_joined(url, href) {
                        UrlJoinV::Joined(abs) => {
                            let next = push_to_last(
                                vols,
                                ChapterV { title: trimmed(trimmed(text_of(tv, a))), url: abs },
                            );
                            assert(next.take(n) =~= vols.take(n));
                            lemma_toc_fold_keeps_prefix(tv, url, k + 1, next, seen, n);
                        },
                        _ => {},
                    },
                    None => lemma_toc_fold_keeps_prefix(tv, url, k + 1, vols, seen, n),
                },
                None => lemma_toc_fold_keeps_prefix(tv, url, k + 1, vols, seen, n),
            }
        } else {
            lemma_toc_fold_keeps_prefix(tv, url, k + 1, vols, seen, n);
        }
    } else if 0 <= k < tv.len() {
        lemma_toc_fold_keeps_prefix(tv, url, k + 1, vols, seen, n);
    }
}

/// Reading a table of contents only adds volumes: the volumes the book had before
/// stay first and unchanged, chapters going only to volumes the page starts.
pub proof fn law_toc_keeps_existing_volumes(tv: Seq<TokenV>, url: Seq<char>, before: Seq<VolumeV>)
    ensures
        toc_fold(tv, url, 0, before, false) matches Ok(vols) ==> vols.len() >= before.len()
            && vols.take(before.len() as int) == before,
{
    lemma_toc_fold_keeps_prefix(tv, url, 0, before, false, before.len() as int);
    assert(before.take(before.len() as int) =~= before);
}


/// The paragraphs read from a chapter page are never empty.
pub proof fn law_paragraphs_not_empty(tv: Seq<TokenV>, m: int)
    ensures
        forall|i: int|
            0 <= i < child_paragraphs(tv, m).len() ==> (#[trigger] child_paragraphs(tv, m)[i]).len()
                > 0,
    decreases tv.len() + 1 - m,
{
    if !(m < 0 || m >= tv.len() || tv[m] is Close) {
        lemma_node_end_bounds(tv, m);
        law_paragraphs_not_empty(tv, node_end(tv, m) + 1);
        let head: Seq<Seq<char>> = match tv[m] {
            TokenV::Text(t) => if trimmed(t).len() > 0 {
                seq![trimmed(t)]
            } else {
                Seq::empty()
            },
            _ => Seq::empty(),
        };
        let rest = child_paragraphs(tv, node_end(tv, m) + 1);
        assert(child_paragraphs(tv, m) == head + rest);
        assert forall|i: int| 0 <= i < child_paragraphs(tv, m).len() implies (
        #[trigger] child_paragraphs(tv, m)[i]).len() > 0 by {
            if i < head.len() {
                assert(child_paragraphs(tv, m)[i] == head[i]);
            } else {
                assert(child_paragraphs(tv, m)[i] == rest[i - head.len()]);
            }
        }
    }
}

} // verus!
