use wenku2epub::archive::{fits_in_zip, pack_epub};
use wenku2epub::book::{
    apply_selection, build_chapter_xhtml, chapter_file, chapter_list, check_cancelled,
    collect_images, epub_files, image_entries, image_file_name, output_path, render_chapter,
    restyle_title, toc_link, EpubVersion,
};
use wenku2epub::error::{Error, ErrorKind};
use wenku2epub::model::{Book, Chapter, EpubFile, Selection, TitleStyle, Volume};

fn sample_book() -> Book {
    let mut book = Book::empty();
    book.title = "书<名>".to_string();
    book.author = "作者".to_string();
    book.intro = "简介 & 更多".to_string();
    book.volumes = vec![
        Volume {
            name: "第一卷".to_string(),
            chapters: vec![
                Chapter::new("一".to_string(), "u1".to_string()),
                Chapter::new("二".to_string(), "u2".to_string()),
            ],
        },
        Volume {
            name: "第二卷".to_string(),
            chapters: vec![Chapter::new("三".to_string(), "u3".to_string())],
        },
    ];
    book
}

fn titles(book: &Book) -> Vec<Vec<String>> {
    book.volumes
        .iter()
        .map(|v| v.chapters.iter().map(|c| c.title.clone()).collect())
        .collect()
}

#[test]
fn select_all_keeps_book() {
    let book = apply_selection(sample_book(), &Selection::All).unwrap();
    assert_eq!(titles(&book), vec![vec!["一", "二"], vec!["三"]]);
}

#[test]
fn select_range_counts_over_whole_book() {
    let book = apply_selection(sample_book(), &Selection::Range { start: 2, end: 3 }).unwrap();
    assert_eq!(titles(&book), vec![vec!["二"], vec!["三"]]);
    assert_eq!(book.volumes[0].name, "第一卷");
}

#[test]
fn select_chapters_drops_empty_volumes() {
    let book = apply_selection(sample_book(), &Selection::Chapters(vec![3, 9])).unwrap();
    assert_eq!(book.volumes.len(), 1);
    assert_eq!(book.volumes[0].name, "第二卷");
    assert_eq!(titles(&book), vec![vec!["三"]]);
}

#[test]
fn select_invalid_range_fails() {
    for sel in [Selection::Range { start: 0, end: 2 }, Selection::Range { start: 3, end: 2 }] {
        let err = apply_selection(sample_book(), &sel).unwrap_err();
        assert_eq!(err.kind, ErrorKind::NotFound);
        assert_eq!(err.message, "无效的章节区间");
    }
}

#[test]
fn select_nothing_left_fails() {
    let err = apply_selection(sample_book(), &Selection::Range { start: 4, end: 9 }).unwrap_err();
    assert_eq!(err.kind, ErrorKind::NotFound);
    assert_eq!(err.message, "选择范围后没有可下载的章节");
}

#[test]
fn chapter_xhtml_exact_output() {
    let out = build_chapter_xhtml("标题&", &["段<1>".to_string()], &["0_0_0.jpg".to_string()]);
    let expected = [
        "<?xml version=\"1.0\" encoding=\"utf-8\"?>\n<!DOCTYPE html>\n",
        "<html xmlns=\"http://www.w3.org/1999/xhtml\">\n<head>\n  <title>标题&amp;</title>\n</head>\n",
        "<body>\n  <section>\n<h3>标题&amp;</h3>\n<p>段&lt;1&gt;</p>\n",
        "<img src=\"../Image/0_0_0.jpg\" alt=\"\" />\n  </section>\n</body>\n</html>\n"
    ].concat();
    assert_eq!(out, expected);
}

#[test]
fn restyle_title_and_toc_link() {
    let mut book = sample_book();
    book.title = "原名（译名）".to_string();
    restyle_title(&mut book, TitleStyle::InBracket);
    assert_eq!(book.title, "译名");
    let err = toc_link(&book).unwrap_err();
    assert_eq!(err.kind, ErrorKind::NotFound);
    assert_eq!(err.message, "未找到目录链接");
    book.toc_url = Some("https://x/toc".to_string());
    assert_eq!(toc_link(&book).unwrap(), "https://x/toc");
}

#[test]
fn chapter_list_in_reading_order() {
    let list = chapter_list(&sample_book());
    let got: Vec<(usize, usize, String)> = list.iter().map(|(v, c, ch)| (*v, *c, ch.title.clone())).collect();
    assert_eq!(
        got,
        vec![(0, 0, "一".to_string()), (0, 1, "二".to_string()), (1, 0, "三".to_string())]
    );
}

#[test]
fn image_names_follow_volume_chapter_order() {
    assert_eq!(image_file_name(0, 3, 1), "0_3_1.jpg");
    let entries = image_entries(2, 5, &vec!["a".to_string(), "b".to_string()]);
    assert_eq!(
        entries,
        vec![("2_5_0.jpg".to_string(), "a".to_string()), ("2_5_1.jpg".to_string(), "b".to_string())]
    );
}

#[test]
fn render_chapter_names_images_and_builds_page() {
    let html = "<div id=\"content\">正文<img src=\"/p/1.jpg\"></div>";
    let (xhtml, imgs) =
        render_chapter("章", 1, 2, html, "https://www.wenku8.net/novel/1/1/1.htm").unwrap();
    assert_eq!(imgs, vec![("1_2_0.jpg".to_string(), "https://www.wenku8.net/p/1.jpg".to_string())]);
    assert!(xhtml.contains("<p>正文</p>\n<img src=\"../Image/1_2_0.jpg\" alt=\"\" />\n"));
    let err = render_chapter("章", 0, 0, "<p>x</p>", "https://a/b").unwrap_err();
    assert_eq!(err.kind, ErrorKind::NotFound);
}

#[test]
fn chapter_file_path() {
    let f = chapter_file(3, 14, "页");
    assert_eq!(f.path, "OEBPS/Text/3_14.xhtml");
    assert_eq!(f.bytes, "页".as_bytes().to_vec());
}

#[test]
fn epub_files_in_archive_order() {
    let mut book = sample_book();
    book.cover = Some(vec![1, 2, 3]);
    let chapters = vec![chapter_file(0, 0, "x")];
    let images = vec![("0_0_0.jpg".to_string(), vec![9u8])];
    let files = epub_files(&book, EpubVersion::V3, chapters, &images).unwrap();
    let paths: Vec<&str> = files.iter().map(|f| f.path.as_str()).collect();
    assert_eq!(
        paths,
        vec![
            "mimetype",
            "META-INF/container.xml",
            "OEBPS/content.opf",
            "OEBPS/nav.xhtml",
            "OEBPS/Text/0_0.xhtml",
            "OEBPS/Image/0_0_0.jpg",
            "OEBPS/Image/cover.jpg"
        ]
    );
    assert_eq!(files[0].bytes, b"application/epub+zip".to_vec());
    let v2 = epub_files(&sample_book(), EpubVersion::V2, vec![], &vec![]).unwrap();
    let paths: Vec<&str> = v2.iter().map(|f| f.path.as_str()).collect();
    assert_eq!(paths, vec!["mimetype", "META-INF/container.xml", "OEBPS/content.opf", "OEBPS/toc.ncx"]);
}

#[test]
fn opf_v3_escapes_metadata_and_lists_chapters() {
    let files = epub_files(&sample_book(), EpubVersion::V3, vec![], &vec![]).unwrap();
    let opf = String::from_utf8(files[2].bytes.clone()).unwrap();
    assert!(opf.contains("<dc:title>书&lt;名&gt;</dc:title>"));
    assert!(opf.contains("<dc:description>简介 &amp; 更多</dc:description>"));
    assert!(opf.contains("    <itemref idref=\"Text/1_0.xhtml\" />\n"));
    assert!(!opf.contains("cover-image"));
    let nav = String::from_utf8(files[3].bytes.clone()).unwrap();
    assert!(nav.contains("    <li><a href=\"Text/1_0.xhtml\">第二卷</a>\n      <ol>\n        <li><a href=\"Text/1_0.xhtml\">三</a></li>\n"));
}

#[test]
fn output_path_is_sanitized_title() {
    assert_eq!(output_path(" a/b "), "a_b.epub");
}

#[test]
fn pack_epub_stores_mimetype_first() {
    let files = vec![
        EpubFile { path: "mimetype".to_string(), bytes: b"application/epub+zip".to_vec() },
        EpubFile { path: "OEBPS/a.txt".to_string(), bytes: vec![b'a'; 1000] },
    ];
    let zip = pack_epub(&files).unwrap();
    assert_eq!(&zip[0..4], b"PK\x03\x04");
    assert_eq!(&zip[8..10], &[0u8, 0u8]);
    assert_eq!(&zip[30..38], b"mimetype");
    let hay = zip.windows(20).any(|w| w == b"application/epub+zip");
    assert!(hay);
    assert!(zip.len() < 1000);
}

#[test]
fn zip_names_must_fit_sixteen_bits() {
    let ok = vec![EpubFile { path: "a".repeat(65535), bytes: vec![] }];
    assert!(fits_in_zip(&ok));
    let long = vec![
        EpubFile { path: "mimetype".to_string(), bytes: vec![] },
        EpubFile { path: "文".repeat(21846), bytes: vec![] },
    ];
    assert!(!fits_in_zip(&long));
}

#[test]
fn pack_epub_distinct_names_succeed() {
    let files = vec![
        EpubFile { path: "mimetype".to_string(), bytes: vec![] },
        EpubFile { path: "OEBPS/a".to_string(), bytes: vec![] },
        EpubFile { path: "OEBPS/b".to_string(), bytes: vec![1, 2, 3] },
    ];
    assert!(pack_epub(&files).is_ok());
}

#[test]
fn pack_epub_duplicate_name_fails() {
    let files = vec![
        EpubFile { path: "mimetype".to_string(), bytes: vec![] },
        EpubFile { path: "mimetype".to_string(), bytes: vec![] },
    ];
    let err = pack_epub(&files).unwrap_err();
    assert_eq!(err.kind, ErrorKind::Encode);
    assert!(err.message.starts_with("zip 写入失败: "));
}

#[test]
fn image_names_never_collide() {
    let mut names = Vec::new();
    for vi in 0..12 {
        for ci in 0..12 {
            for j in 0..3 {
                names.push(image_file_name(vi, ci, j));
            }
        }
    }
    let total = names.len();
    names.sort();
    names.dedup();
    assert_eq!(names.len(), total);
    assert_ne!(image_file_name(1, 11, 1), image_file_name(11, 1, 1));
}

#[test]
fn cancelled_download_stops_with_cancelled_error() {
    assert!(check_cancelled(false).is_ok());
    let e = check_cancelled(true).unwrap_err();
    assert_eq!(e.kind, ErrorKind::Cancelled);
    assert_eq!(e.message, "用户取消下载");
}

#[test]
fn failed_images_are_counted_and_skipped() {
    let results = vec![
        ("a.jpg".to_string(), Ok(vec![1u8])),
        ("b.jpg".to_string(), Err(Error::new(ErrorKind::Network, "x:10:404".to_string()))),
        ("c.jpg".to_string(), Ok(vec![2u8, 3])),
        ("d.jpg".to_string(), Err(Error::new(ErrorKind::Network, "y".to_string()))),
    ];
    let (kept, failed) = collect_images(&results);
    assert_eq!(kept, vec![("a.jpg".to_string(), vec![1u8]), ("c.jpg".to_string(), vec![2u8, 3])]);
    assert_eq!(failed, 2);
    let (kept, failed) = collect_images(&Vec::new());
    assert!(kept.is_empty());
    assert_eq!(failed, 0);
}
