//! The error type of the standalone downloader.
use vstd::prelude::*;

use crate::text::push_str;

verus! {

/// What went wrong in the standalone downloader.
#[derive(Debug)]
pub enum DownloadError {
    /// A network request failed.
    Http(String),
    /// A page did not have the expected structure.
    Parse(String),
    /// Text could not be converted.
    Encode(String),
    /// A table of contents or chapter was not found.
    NotFound(String),
    /// The user cancelled.
    Cancelled,
}

/// The display form of an error: a label for its kind, then its message.
pub open spec fn error_text(e: DownloadError) -> Seq<char> {
    match e {
        DownloadError::Http(m) => "HTTP 错误: "@ + m@,
        DownloadError::Parse(m) => "解析错误: "@ + m@,
        DownloadError::Encode(m) => "编码错误: "@ + m@,
        DownloadError::NotFound(m) => "未找到: "@ + m@,
        DownloadError::Cancelled => "已取消"@,
    }
}

impl DownloadError {
    /// The display form of the error.
    pub fn to_message(&self) -> (s: String)
        ensures
            s@ == error_text(*self),
    {
        let mut s = String::new();
        match self {
            DownloadError::Http(m) => {
                push_str(&mut s, "HTTP 错误: ");
                push_str(&mut s, m.as_str());
            },
            DownloadError::Parse(m) => {
                push_str(&mut s, "解析错误: ");
                push_str(&mut s, m.as_str());
            },
            DownloadError::Encode(m) => {
                push_str(&mut s, "编码错误: ");
                push_str(&mut s, m.as_str());
            },
            DownloadError::NotFound(m) => {
                push_str(&mut s, "未找到: ");
                push_str(&mut s, m.as_str());
            },
            DownloadError::Cancelled => {
                push_str(&mut s, "已取消");
            },
        }
        s
    }
}

} // verus!
