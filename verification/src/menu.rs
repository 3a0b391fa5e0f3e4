//! The decisions of the command-line front end: reading menu choices and describing a
//! job's progress.
use vstd::prelude::*;

use crate::book::EpubVersion;
use crate::cover::CoverSource;
use crate::error::{error_of, Error, ErrorKind};
use crate::model::Stage;
use crate::protocol::JobSnapshot;
use crate::text::{decimal, push_char, push_decimal};

verus! {

/// The cover source picked by the menu answer `choice` (already trimmed): `1` or an empty
/// answer for the book page's cover, `2` for the first image, `3` for a local file.
pub fn cover_choice(choice: &str) -> (r: Result<CoverSource, Error>)
    ensures
        (choice@ == ""@ || choice@ == "1"@) ==> r == Ok::<CoverSource, Error>(CoverSource::BookUrl),
        choice@ == "2"@ ==> r == Ok::<CoverSource, Error>(CoverSource::FirstImage),
        choice@ == "3"@ ==> r == Ok::<CoverSource, Error>(CoverSource::LocalFile),
        !(choice@ == ""@ || choice@ == "1"@ || choice@ == "2"@ || choice@ == "3"@) ==> (r matches Err(
            e,
        ) && e.kind == ErrorKind::Parse && e.message@ == "无效的封面选择"@),
{
    proof {
        reveal_strlit("");
        reveal_strlit("1");
        reveal_strlit("2");
        reveal_strlit("3");
        assert("2"@ != "1"@ && "3"@ != "1"@ && "3"@ != "2"@) by {
            assert("2"@[0] != "1"@[0] && "3"@[0] != "1"@[0] && "3"@[0] != "2"@[0]);
        }
        assert("2"@ != ""@ && "3"@ != ""@) by {
            assert("2"@.len() != ""@.len() && "3"@.len() != ""@.len());
        }
    }
    if crate::html::str_eq(choice, "") || crate::html::str_eq(choice, "1") {
        Ok(CoverSource::BookUrl)
    } else if crate::html::str_eq(choice, "2") {
        Ok(CoverSource::FirstImage)
    } else if crate::html::str_eq(choice, "3") {
        Ok(CoverSource::LocalFile)
    } else {
        Err(error_of(ErrorKind::Parse, "无效的封面选择"))
    }
}

/// The EPUB version picked by the menu answer `choice` (already trimmed): `2` or an empty
/// answer for EPUB 3, `1` for EPUB 2.
pub fn version_choice(choice: &str) -> (r: Result<EpubVersion, Error>)
    ensures
        (choice@ == ""@ || choice@ == "2"@) ==> r == Ok::<EpubVersion, Error>(EpubVersion::V3),
        choice@ == "1"@ ==> r == Ok::<EpubVersion, Error>(EpubVersion::V2),
        !(choice@ == ""@ || choice@ == "1"@ || choice@ == "2"@) ==> (r matches Err(e) && e.kind
            == ErrorKind::Parse && e.message@ == "无效的版本选择"@),
{
    proof {
        reveal_strlit("");
        reveal_strlit("1");
        reveal_strlit("2");
        assert("2"@ != "1"@) by {
            assert("2"@[0] != "1"@[0]);
        }
        assert("1"@ != ""@) by {
            assert("1"@.len() != ""@.len());
        }
    }
    if crate::html::str_eq(choice, "") || crate::html::str_eq(choice, "2") {
        Ok(EpubVersion::V3)
    } else if crate::html::str_eq(choice, "1") {
        Ok(EpubVersion::V2)
    } else {
        Err(error_of(ErrorKind::Parse, "无效的版本选择"))
    }
}

/// `label`, then, when `total` is not 0, a space and `done/total`.
pub open spec fn counted(label: Seq<char>, done: nat, total: nat) -> Seq<char> {
    if total == 0 {
        label
    } else {
        label + seq![' '] + decimal(done) + seq!['/'] + decimal(total)
    }
}

/// The progress line shown for a job in stage `stage` with these counters.
pub open spec fn stage_line(stage: Stage, chapters_done: nat, chapters_total: nat, images_done: nat, images_total: nat) -> Seq<char> {
    match stage {
        Stage::FetchBook => "抓取书页"@,
        Stage::ParseToc => "解析目录"@,
        Stage::DownloadChapters => counted("下载章节"@, chapters_done, chapters_total),
        Stage::DownloadImages => counted("下载图片"@, images_done, images_total),
        Stage::Pack => "打包 EPUB"@,
    }
}

/// `label`, followed by ` done/total` when `total` is not 0.
fn counted_line(label: &str, done: usize, total: usize) -> (s: String)
    ensures
        s@ == counted(label@, done as nat, total as nat),
{
    let mut s = label.to_owned();
    if total != 0 {
        push_char(&mut s, ' ');
        push_decimal(&mut s, done);
        push_char(&mut s, '/');
        push_decimal(&mut s, total);
    }
    s
}

/// The progress line of a job: its stage, with chapter or image counts while those
/// are being downloaded.
pub fn stage_message(job: &JobSnapshot) -> (s: String)
    ensures
        s@ == stage_line(
            job.stage,
            job.chapters_done as nat,
            job.chapters_total as nat,
            job.images_done as nat,
            job.images_total as nat,
        ),
{
    match job.stage {
        Stage::FetchBook => "抓取书页".to_owned(),
        Stage::ParseToc => "解析目录".to_owned(),
        Stage::DownloadChapters => counted_line("下载章节", job.chapters_done, job.chapters_total),
        Stage::DownloadImages => counted_line("下载图片", job.images_done, job.images_total),
        Stage::Pack => "打包 EPUB".to_owned(),
    }
}

} // verus!
