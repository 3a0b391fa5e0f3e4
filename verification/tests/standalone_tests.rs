use std::sync::{Arc, Mutex};

use wenku2epub::standalone::client::{
    request_headers, decode_gbk, default_user_agents, pick_user_agent, referer_for, reply_step, request_delay,
    retries_exhausted, ReplyStep,
};
use wenku2epub::standalone::downloader::{
    add_image, chapter_plan, check_cancelled, store_page, toc_link, toc_summary,
};
use wenku2epub::standalone::epub::{
    archive_fits, build_chapter_xhtml, build_nav, build_opf, epub_archive, escape_attr,
    escape_xml, sanitize_filename,
};
use wenku2epub::standalone::error::DownloadError;
use wenku2epub::standalone::event::{emitter_from, DownloaderEvent, Event};
use wenku2epub::standalone::model::{Book, Chapter, DownloaderConfig, Volume};
use wenku2epub::standalone::parser::{parse_book_info, parse_chapter, parse_toc};

fn chapter(title: &str, xhtml: Option<&str>) -> Chapter {
    Chapter { title: title.to_string(), url: format!("u/{title}"), xhtml: xhtml.map(|s| s.to_string()) }
}

fn sample_book() -> Book {
    let mut b = Book::empty();
    b.title = "书名".to_string();
    b.author = "作者".to_string();
    b.intro = "简介".to_string();
    b.volumes = vec![
        Volume { name: "卷一".to_string(), chapters: vec![chapter("一", Some("<p/>")), chapter("二", None)] },
        Volume { name: "卷二".to_string(), chapters: vec![chapter("三", Some("x"))] },
    ];
    b
}

#[test]
fn standalone_book_page_two_part_title_and_plain_intro() {
    let html = [
        "<title>书名 - 作者 - 其他</title>",
        "<span style=\"font-size:14px;\"><a>最新章节</a></span>",
        "<div><span class=\"hottext\">内容简介：</span><br><span style=\"font-size:14px;\"> 第一行<br>第二行 </span></div>",
        "<a href=\"http://[bad\">小说目录</a><a href=\"/toc.htm\">小说目录</a>"
    ].concat();
    let mut book = Book::empty();
    parse_book_info(&html, "https://www.wenku8.net/book/1.htm", &mut book).unwrap();
    assert_eq!(book.title, "书名");
    assert_eq!(book.author, "作者");
    assert_eq!(book.intro, "第一行第二行");
    assert_eq!(book.toc_url.as_deref(), Some("https://www.wenku8.net/toc.htm"));
}

#[test]
fn standalone_book_page_intro_from_the_fourteen_pixel_span() {
    let html = "<title>X - Y</title><span style='font-size:14px;'>简介文字</span>";
    let mut book = Book::empty();
    parse_book_info(html, "https://www.wenku8.cc/book/1.htm", &mut book).unwrap();
    assert_eq!(book.title, "X");
    assert_eq!(book.author, "Y");
    assert_eq!(book.intro, "简介文字");
    assert_eq!(book.toc_url, None);
    // Other spans, and spans with another style, are not the synopsis.
    let html = "<title>X</title><span>别的</span><span style='font-size:12px;'>小字</span>";
    let mut book = Book::empty();
    parse_book_info(html, "https://www.wenku8.cc/book/1.htm", &mut book).unwrap();
    assert_eq!(book.intro, "暂无简介");
}

#[test]
fn standalone_book_page_intro_notice_and_errors() {
    let mut book = Book::empty();
    parse_book_info("<title>只有书名</title>", "https://a/b", &mut book).unwrap();
    assert_eq!(book.intro, "暂无简介");
    assert_eq!(book.toc_url, None);
    let mut book = Book::empty();
    match parse_book_info("<p></p>", "https://a/b", &mut book) {
        Err(DownloadError::Parse(m)) => assert_eq!(m, "未能获取书名，可能网址无效或页面结构变化"),
        other => panic!("unexpected {other:?}"),
    }
}

#[test]
fn standalone_toc_adds_chapters_without_pages() {
    let html = [
        "<table><tr><td class=\"vcss\">卷一</td></tr>",
        "<tr><td class=\"ccss\"><a href=\"1.htm\"> 第一章 </a></td></tr></table>"
    ].concat();
    let mut book = Book::empty();
    parse_toc(&html, "https://www.wenku8.net/novel/1/1/index.htm", &mut book).unwrap();
    assert_eq!(book.volumes.len(), 1);
    assert_eq!(book.volumes[0].chapters[0].title, "第一章");
    assert_eq!(book.volumes[0].chapters[0].url, "https://www.wenku8.net/novel/1/1/1.htm");
    assert!(book.volumes[0].chapters[0].xhtml.is_none());
    let mut empty = Book::empty();
    match parse_toc("<p/>", "https://a/b", &mut empty) {
        Err(DownloadError::Parse(m)) => assert_eq!(m, "目录解析失败：未找到任何卷"),
        other => panic!("unexpected {other:?}"),
    }
}

#[test]
fn standalone_chapter_skips_unresolvable_images() {
    let html = "<div id=\"content\">段落<img src=\"http://[bad\"><img src=\"/ok.jpg\"></div>";
    let (p, imgs) = parse_chapter(html, "https://www.wenku8.net/a/b.htm").unwrap();
    assert_eq!(p, vec!["段落"]);
    assert_eq!(imgs, vec!["https://www.wenku8.net/ok.jpg"]);
    match parse_chapter("<p/>", "https://a/b") {
        Err(DownloadError::NotFound(m)) => assert_eq!(m, "未找到 #content 内容区"),
        other => panic!("unexpected {other:?}"),
    }
    assert!(matches!(parse_chapter("<p/>", "rel"), Err(DownloadError::Parse(_))));
}

#[test]
fn standalone_chapter_page_links_stylesheet_and_escapes_attributes() {
    let out = build_chapter_xhtml("a'b", &["p".to_string()], &["x\"y&<.jpg".to_string()]);
    let expected = [
        "<?xml version=\"1.0\" encoding=\"utf-8\"?>\n<!DOCTYPE html>\n",
        "<html xmlns=\"http://www.w3.org/1999/xhtml\">\n<head>\n  <title>a&apos;b</title>\n",
        "  <link rel=\"stylesheet\" type=\"text/css\" href=\"../Style/style.css\" />\n</head>\n",
        "<body>\n  <section>\n<h3>a&apos;b</h3>\n<p>p</p>\n",
        "<img src=\"../Image/x&quot;y&amp;<.jpg\" alt=\"\" />\n  </section>\n</body>\n</html>\n"
    ].concat();
    assert_eq!(out, expected);
    assert_eq!(escape_attr("<&\">"), "<&amp;&quot;>");
    assert_eq!(escape_xml("<&>"), "&lt;&amp;&gt;");
    assert_eq!(sanitize_filename(" a:b "), "a_b");
}

#[test]
fn standalone_opf_and_nav() {
    let mut book = sample_book();
    book.images = vec![("0_0_0.jpg".to_string(), vec![1])];
    let opf = build_opf(&book);
    assert!(opf.contains("properties=\"cover-image\""));
    assert!(opf.contains("<item id=\"style\" href=\"Style/style.css\" media-type=\"text/css\" />"));
    assert!(opf.contains("<spine toc=\"ncx\">\n    <itemref idref=\"Text/0_0.xhtml\" />\n    <itemref idref=\"Text/0_1.xhtml\" />\n    <itemref idref=\"Text/1_0.xhtml\" />\n  </spine>"));
    assert!(opf.contains("<item id=\"Image/0_0_0.jpg\" href=\"Image/0_0_0.jpg\" media-type=\"image/jpeg\" />"));
    let nav = build_nav(&book);
    assert!(nav.contains("<li><a href=\"Text/0_1.xhtml\">二</a></li>"));
}

#[test]
fn standalone_archive_has_only_downloaded_pages() {
    let book = sample_book();
    let (path, bytes) = epub_archive(&book).unwrap();
    assert_eq!(path, "书名.epub");
    assert_eq!(&bytes[30..38], b"mimetype");
    let has = |name: &str| bytes.windows(name.len()).any(|w| w == name.as_bytes());
    assert!(has("OEBPS/Text/0_0.xhtml"));
    assert!(has("OEBPS/Text/1_0.xhtml"));
    assert!(!has("OEBPS/Text/0_1.xhtml"));
    assert!(archive_fits(&sample_book()));
    let mut long_image = sample_book();
    long_image.images.push(("x".repeat(70000), vec![1]));
    assert!(!archive_fits(&long_image));
    let mut untitled = sample_book();
    untitled.title = String::new();
    match epub_archive(&untitled) {
        Err(DownloadError::NotFound(m)) => assert_eq!(m, "书名缺失，无法打包"),
        other => panic!("unexpected {other:?}"),
    }
    long_image.title = String::new();
    match epub_archive(&long_image) {
        Err(DownloadError::NotFound(m)) => assert_eq!(m, "书名缺失，无法打包"),
        other => panic!("unexpected {other:?}"),
    }
}

#[test]
fn standalone_user_agents_from_config() {
    let mut config = DownloaderConfig::default();
    assert_eq!(config.image_concurrency, 3);
    assert!(!config.delay_enabled);
    assert_eq!(config.max_retries, 3);
    assert_eq!(pick_user_agent(&config, 7), "Mozilla/5.0 (Windows NT 10.0; Win64; x64)");
    config.user_agents.clear();
    assert_eq!(pick_user_agent(&config, 6), default_user_agents()[1]);
}

#[test]
fn standalone_referer_falls_back_to_prefix() {
    assert_eq!(referer_for("https://www.wenku8.net/a/b"), "https://www.wenku8.net/");
    assert_eq!(referer_for("www.wenku8.net/a/b"), "www.wenku8.net/");
    assert_eq!(referer_for("nohost"), "/");
}

#[test]
fn standalone_request_delay() {
    let mut config = DownloaderConfig::default();
    assert_eq!(request_delay(&config, 123_456_789), None);
    config.delay_enabled = true;
    assert_eq!(request_delay(&config, 123_456_789), Some(500 + 289));
}

#[test]
fn standalone_reply_steps() {
    assert!(matches!(reply_step("u", false, 0, 3, 200, "200 OK", None), ReplyStep::ReadBody));
    assert!(matches!(
        reply_step("u", false, 0, 3, 429, "429 Too Many Requests", Some("2")),
        ReplyStep::Retry { pause_secs: 2 }
    ));
    match reply_step("u", true, 2, 3, 429, "429 Too Many Requests", None) {
        ReplyStep::Fail(DownloadError::Http(m)) => assert_eq!(m, "图片 u 被限流（429）"),
        other => panic!("unexpected {other:?}"),
    }
    match reply_step("u", false, 0, 3, 404, "404 Not Found", None) {
        ReplyStep::Fail(DownloadError::Http(m)) => assert_eq!(m, "请求 u 返回状态码 404 Not Found"),
        other => panic!("unexpected {other:?}"),
    }
    match retries_exhausted("u", false, 0) {
        DownloadError::Http(m) => assert_eq!(m, "请求 u 重试 0 次后仍失败"),
        other => panic!("unexpected {other:?}"),
    }
    assert_eq!(decode_gbk(&[0xD6, 0xD0], "u").unwrap(), "中");
}

#[test]
fn standalone_error_messages() {
    assert_eq!(DownloadError::Http("x".to_string()).to_message(), "HTTP 错误: x");
    assert_eq!(DownloadError::Parse("x".to_string()).to_message(), "解析错误: x");
    assert_eq!(DownloadError::Encode("x".to_string()).to_message(), "编码错误: x");
    assert_eq!(DownloadError::NotFound("x".to_string()).to_message(), "未找到: x");
    assert_eq!(DownloadError::Cancelled.to_message(), "已取消");
}

#[test]
fn standalone_run_bookkeeping() {
    let mut book = sample_book();
    assert!(matches!(toc_link(&book), Err(DownloadError::NotFound(_))));
    assert!(matches!(toc_summary(&book), Event::ParseTocDone { volumes: 2, chapters: 3 }));
    assert!(matches!(check_cancelled(true), Err(DownloadError::Cancelled)));
    assert!(check_cancelled(false).is_ok());
    store_page(&mut book, 0, 1, "页".to_string());
    assert_eq!(book.volumes[0].chapters[1].xhtml.as_deref(), Some("页"));
    store_page(&mut book, 5, 0, "无".to_string());
    add_image(&mut book, "a.jpg".to_string(), vec![1]);
    add_image(&mut book, "b.jpg".to_string(), vec![2]);
    add_image(&mut book, "a.jpg".to_string(), vec![3]);
    assert_eq!(book.images, vec![("a.jpg".to_string(), vec![3]), ("b.jpg".to_string(), vec![2])]);
    let listed: Vec<(usize, usize, String)> =
        book.chapters().iter().map(|(v, c, ch)| (*v, *c, ch.title.clone())).collect();
    assert_eq!(listed, vec![(0, 0, "一".to_string()), (0, 1, "二".to_string()), (1, 0, "三".to_string())]);
}

#[test]
fn standalone_chapter_plan_names_images() {
    let (p, imgs) = chapter_plan("<div id=\"content\">t<img src=\"/i.jpg\"></div>", "https://h/x", 1, 4).unwrap();
    assert_eq!(p, vec!["t"]);
    assert_eq!(imgs, vec![("1_4_0.jpg".to_string(), "https://h/i.jpg".to_string())]);
}

struct Collect(Mutex<Vec<String>>);

impl DownloaderEvent for Collect {
    fn on_event(&self, event: Event) {
        self.0.lock().unwrap().push(format!("{event:?}"));
    }
}

#[test]
fn standalone_emitter_forwards_events() {
    let ui = Arc::new(Collect(Mutex::new(Vec::new())));
    let emitter = emitter_from(ui.clone());
    emitter.emit(Event::StartBook);
    emitter.emit(Event::ChapterDone { current: 1, total: 2 });
    assert_eq!(*ui.0.lock().unwrap(), vec!["StartBook", "ChapterDone { current: 1, total: 2 }"]);
}

#[test]
fn standalone_request_headers() {
    let config = DownloaderConfig::default();
    let page = request_headers(&config, "https://www.wenku8.net/a", 0, false);
    assert_eq!(page.len(), 6);
    assert_eq!(page[0].1, "Mozilla/5.0 (Windows NT 10.0; Win64; x64)");
    assert_eq!(page[1], ("referer".to_string(), "https://www.wenku8.net/".to_string()));
    assert_eq!(page[4], ("dnt".to_string(), "1".to_string()));
    let img = request_headers(&config, "https://img/x.jpg", 0, true);
    assert_eq!(img[2], ("accept".to_string(), "image/webp,image/apng,image/*,*/*;q=0.8".to_string()));
    assert_eq!(img.len(), 3);
}
