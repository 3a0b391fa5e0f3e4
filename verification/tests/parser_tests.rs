use wenku2epub::error::ErrorKind;
use wenku2epub::model::{Book, TitleStyle};
use wenku2epub::parser::{apply_title_style, parse_book_info, parse_chapter, parse_title, parse_toc};

const BOOK_URL: &str = "https://www.wenku8.net/book/1234.htm";
const TOC_URL: &str = "https://www.wenku8.net/novel/1/1234/index.htm";

fn book_page() -> String {
    [
        "<html><head><title>测试书名 - 作者甲 - 文库乙 - 轻小说文库</title></head><body>",
        "<div><span class=\"hottext\">内容简介：</span><span>  第一行  <br>第二行<br><br></span></div>",
        "<div><a href=\"/novel/1/1234/index.htm\"> 小说目录 </a></div>",
        "<img src=\"http://img.wenku8.com/image/1/9999/9999s.jpg\" width=\"90\">",
        "<img src=\"http://img.wenku8.com/image/1/1234/1234s.jpg\" width=\"168\">",
        "<img src=\"http://img.wenku8.com/image/1/5555/5555s.jpg\" width=\"168\">",
        "<img src=\"http://other.example.com/x.jpg\" width=\"500\">",
        "</body></html>"
    ].concat()
    .to_string()
}

fn toc_page() -> String {
    [
        "<html><body><table>",
        "<tr><td class=\"ccss\"><a href=\"0.htm\">孤立章节</a></td></tr>",
        "<tr><td class=\"vcss\" colspan=\"4\"> 第一卷 </td></tr>",
        "<tr><td class=\"ccss\"><a href=\"1.htm\">序章</a></td>",
        "<td class=\"ccss\"><a href=\"2.htm\"> 第一章 </a></td></tr>",
        "<tr><td class=\"vcss\">第二卷</td></tr>",
        "<tr><td class=\"ccss\"><a href=\"3.htm\">第二章</a></td><td class=\"ccss\">&nbsp;</td></tr>",
        "</table></body></html>"
    ].concat()
    .to_string()
}

#[test]
fn parse_title_doc_example() {
    let parts = parse_title("最强废渣皇子暗中活跃于帝位之争(最强出涸皇子的暗跃帝位争夺)");
    assert_eq!(parts.full, "最强废渣皇子暗中活跃于帝位之争(最强出涸皇子的暗跃帝位争夺)");
    assert_eq!(parts.in_bracket.as_deref(), Some("最强出涸皇子的暗跃帝位争夺"));
    assert_eq!(parts.before_bracket.as_deref(), Some("最强废渣皇子暗中活跃于帝位之争"));
}

#[test]
fn parse_title_takes_the_first_pair_of_either_kind() {
    let parts = parse_title("甲 (乙) （丙）（丁）");
    assert_eq!(parts.in_bracket.as_deref(), Some("乙"));
    assert_eq!(parts.before_bracket.as_deref(), Some("甲"));
    let parts = parse_title("A(B)C（D）");
    assert_eq!(parts.in_bracket.as_deref(), Some("B"));
    assert_eq!(parts.before_bracket.as_deref(), Some("A"));
    let parts = parse_title("A（B）C(D)");
    assert_eq!(parts.in_bracket.as_deref(), Some("B"));
    assert_eq!(parts.before_bracket.as_deref(), Some("A"));
    // An opening bracket without its closing one is passed over.
    let parts = parse_title("A（B (C)");
    assert_eq!(parts.in_bracket.as_deref(), Some("C"));
    assert_eq!(parts.before_bracket.as_deref(), Some("A（B"));
}

#[test]
fn parse_title_empty_brackets_count_as_none() {
    let parts = parse_title("书名（  ）");
    assert_eq!(parts.in_bracket, None);
    assert_eq!(parts.before_bracket, None);
    // The first pair decides, even when it is blank.
    let parts = parse_title("书名（ ）(译名)");
    assert_eq!(parts.in_bracket, None);
    assert_eq!(parts.before_bracket, None);
    let parts = parse_title("(译名)");
    assert_eq!(parts.in_bracket.as_deref(), Some("译名"));
    assert_eq!(parts.before_bracket, None);
}

#[test]
fn apply_title_style_each_style() {
    let parts = parse_title("原名(译名)");
    assert_eq!(apply_title_style(&parts, TitleStyle::Full), "原名(译名)");
    assert_eq!(apply_title_style(&parts, TitleStyle::InBracket), "译名");
    assert_eq!(apply_title_style(&parts, TitleStyle::BeforeBracket), "原名");
    let plain = parse_title("无括号");
    assert_eq!(apply_title_style(&plain, TitleStyle::InBracket), "无括号");
    assert_eq!(apply_title_style(&plain, TitleStyle::BeforeBracket), "无括号");
}

#[test]
fn parse_book_info_reads_fields_and_widest_cover() {
    let mut book = Book::empty();
    parse_book_info(&book_page(), BOOK_URL, &mut book).unwrap();
    assert_eq!(book.title, "测试书名");
    assert_eq!(book.author, "作者甲");
    assert_eq!(book.library, "文库乙");
    assert_eq!(book.intro, "第一行\n第二行");
    assert_eq!(book.toc_url.as_deref(), Some(TOC_URL));
    assert_eq!(
        book.cover_url.as_deref(),
        Some("http://img.wenku8.com/image/1/1234/1234s.jpg")
    );
}

#[test]
fn parse_book_info_short_title_keeps_author() {
    let mut book = Book::empty();
    book.author = "旧作者".to_string();
    parse_book_info("<title> 只有书名 </title>", BOOK_URL, &mut book).unwrap();
    assert_eq!(book.title, "只有书名");
    assert_eq!(book.author, "旧作者");
    assert_eq!(book.intro, "");
    assert_eq!(book.toc_url, None);
    assert_eq!(book.cover_url, None);
}

#[test]
fn parse_book_info_without_title_fails() {
    let mut book = Book::empty();
    let err = parse_book_info("<p>nothing</p>", BOOK_URL, &mut book).unwrap_err();
    assert_eq!(err.kind, ErrorKind::Parse);
    assert_eq!(err.message, "未能获取书名，可能网址无效或页面结构变化");
}

#[test]
fn parse_book_info_bad_page_url_fails() {
    let mut book = Book::empty();
    let err = parse_book_info("<title>书</title>", "not a url", &mut book).unwrap_err();
    assert_eq!(err.kind, ErrorKind::Parse);
    assert!(err.message.starts_with("书页 URL 解析失败: "));
}

#[test]
fn parse_toc_reads_volumes_and_chapters() {
    let mut book = Book::empty();
    parse_toc(&toc_page(), TOC_URL, &mut book).unwrap();
    assert_eq!(book.volumes.len(), 2);
    assert_eq!(book.volumes[0].name, "第一卷");
    let titles: Vec<&str> = book.volumes[0].chapters.iter().map(|c| c.title.as_str()).collect();
    assert_eq!(titles, vec!["序章", "第一章"]);
    assert_eq!(book.volumes[0].chapters[1].url, "https://www.wenku8.net/novel/1/1234/2.htm");
    assert_eq!(book.volumes[1].name, "第二卷");
    assert_eq!(book.volumes[1].chapters.len(), 1);
    assert_eq!(book.volumes[1].chapters[0].title, "第二章");
}

#[test]
fn parse_toc_without_volumes_fails() {
    let mut book = Book::empty();
    let err = parse_toc("<table><tr><td class=\"ccss\"><a href=\"1.htm\">x</a></td></tr></table>", TOC_URL, &mut book)
        .unwrap_err();
    assert_eq!(err.kind, ErrorKind::Parse);
    assert_eq!(err.message, "目录解析失败：未找到任何卷");
    assert!(book.volumes.is_empty());
}

#[test]
fn parse_toc_bad_url_fails() {
    let mut book = Book::empty();
    let err = parse_toc(&toc_page(), "::bad", &mut book).unwrap_err();
    assert_eq!(err.kind, ErrorKind::Parse);
    assert!(err.message.starts_with("目录页 URL 解析失败: "));
}

#[test]
fn parse_chapter_reads_direct_text_and_all_images() {
    let html = [
        "<html><body><div id=\"content\">  第一段  <br>第二段<br><br>   ",
        "<div class=\"divimage\"><a href=\"x\"><img src=\"http://pic.wenku8.com/pictures/1/1.jpg\"></a></div>",
        "<p>不是直接文本</p><img src=\"/a/b.jpg\"></div></body></html>"
    ].concat();
    let (paragraphs, images) =
        parse_chapter(&html, "https://www.wenku8.net/novel/1/1234/1.htm").unwrap();
    assert_eq!(paragraphs, vec!["第一段", "第二段"]);
    assert_eq!(
        images,
        vec!["http://pic.wenku8.com/pictures/1/1.jpg", "https://www.wenku8.net/a/b.jpg"]
    );
}

#[test]
fn parse_chapter_without_content_is_not_found() {
    let url = "https://www.wenku8.net/novel/1/1234/1.htm";
    let err = parse_chapter("<div id=\"other\">x</div>", url).unwrap_err();
    assert_eq!(err.kind, ErrorKind::NotFound);
    assert_eq!(err.message, format!("未找到 #content 内容区: {url}"));
}

#[test]
fn parse_chapter_bad_url_fails() {
    let err = parse_chapter("<div id=\"content\">x</div>", "nope").unwrap_err();
    assert_eq!(err.kind, ErrorKind::Parse);
    assert!(err.message.starts_with("章节页 URL 解析失败: "));
}

#[test]
fn parse_toc_keeps_existing_volumes_first() {
    let mut book = Book::empty();
    book.volumes.push(wenku2epub::model::Volume { name: "旧卷".to_string(), chapters: vec![] });
    parse_toc(&toc_page(), TOC_URL, &mut book).unwrap();
    let names: Vec<&str> = book.volumes.iter().map(|v| v.name.as_str()).collect();
    assert_eq!(names, vec!["旧卷", "第一卷", "第二卷"]);
    assert!(book.volumes[0].chapters.is_empty());
}
