use wenku2epub::book::EpubVersion;
use wenku2epub::cover::CoverSource;
use wenku2epub::error::ErrorKind;
use wenku2epub::menu::{cover_choice, stage_message, version_choice};
use wenku2epub::model::Stage;
use wenku2epub::protocol::{JobSnapshot, JobStatus};

fn snapshot(stage: Stage, cd: usize, ct: usize, id: usize, it: usize) -> JobSnapshot {
    JobSnapshot {
        job_id: 0,
        url: String::new(),
        status: JobStatus::Running,
        stage,
        percent: 0,
        chapters_done: cd,
        chapters_total: ct,
        images_done: id,
        images_total: it,
        result_path: None,
        error: None,
    }
}

#[test]
fn cover_menu_choices() {
    assert_eq!(cover_choice("").unwrap(), CoverSource::BookUrl);
    assert_eq!(cover_choice("1").unwrap(), CoverSource::BookUrl);
    assert_eq!(cover_choice("2").unwrap(), CoverSource::FirstImage);
    assert_eq!(cover_choice("3").unwrap(), CoverSource::LocalFile);
    let e = cover_choice("4").unwrap_err();
    assert_eq!(e.kind, ErrorKind::Parse);
    assert_eq!(e.message, "无效的封面选择");
}

#[test]
fn version_menu_choices() {
    assert_eq!(version_choice("").unwrap(), EpubVersion::V3);
    assert_eq!(version_choice("2").unwrap(), EpubVersion::V3);
    assert_eq!(version_choice("1").unwrap(), EpubVersion::V2);
    let e = version_choice("3").unwrap_err();
    assert_eq!(e.kind, ErrorKind::Parse);
    assert_eq!(e.message, "无效的版本选择");
}

#[test]
fn stage_messages() {
    assert_eq!(stage_message(&snapshot(Stage::FetchBook, 0, 0, 0, 0)), "抓取书页");
    assert_eq!(stage_message(&snapshot(Stage::ParseToc, 0, 0, 0, 0)), "解析目录");
    assert_eq!(stage_message(&snapshot(Stage::DownloadChapters, 0, 0, 0, 0)), "下载章节");
    assert_eq!(stage_message(&snapshot(Stage::DownloadChapters, 3, 12, 0, 0)), "下载章节 3/12");
    assert_eq!(stage_message(&snapshot(Stage::DownloadImages, 0, 0, 0, 0)), "下载图片");
    assert_eq!(stage_message(&snapshot(Stage::DownloadImages, 0, 0, 5, 7)), "下载图片 5/7");
    assert_eq!(stage_message(&snapshot(Stage::Pack, 0, 0, 0, 0)), "打包 EPUB");
}
