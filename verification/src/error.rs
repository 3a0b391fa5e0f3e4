//! The error type shared by the downloader modules.
use vstd::prelude::*;

use crate::text::push_str;

verus! {

/// What kind of failure an [`Error`] reports.
#[derive(Debug, Clone, Copy, PartialEq, Eq, Structural)]
pub enum ErrorKind {
    /// A network failure.
    Network,
    /// A page or value could not be parsed.
    Parse,
    /// Encoding or packing failed.
    Encode,
    /// Something looked for was not there.
    NotFound,
    /// The user cancelled.
    Cancelled,
}

/// An error: its kind and a message.
#[derive(Debug)]
pub struct Error {
    /// The kind of failure.
    pub kind: ErrorKind,
    /// What went wrong.
    pub message: String,
}

/// The label that the display form of each error kind starts with.
pub open spec fn kind_label(kind: ErrorKind) -> Seq<char> {
    match kind {
        ErrorKind::Network => "网络错误: "@,
        ErrorKind::Parse => "解析错误: "@,
        ErrorKind::Encode => "编码错误: "@,
        ErrorKind::NotFound => "未找到: "@,
        ErrorKind::Cancelled => "已取消: "@,
    }
}

impl Error {
    /// An error of the given kind with the given message.
    pub fn new(kind: ErrorKind, message: String) -> (e: Self)
        ensures
            e.kind == kind,
            e.message == message,
    {
        Self { kind, message }
    }

    /// The display form: the kind's label, then the message.
    pub fn to_message(&self) -> (s: String)
        ensures
            s@ == kind_label(self.kind) + self.message@,
    {
        let mut s = String::new();
        match self.kind {
            ErrorKind::Network => push_str(&mut s, "网络错误: "),
            ErrorKind::Parse => push_str(&mut s, "解析错误: "),
            ErrorKind::Encode => push_str(&mut s, "编码错误: "),
            ErrorKind::NotFound => push_str(&mut s, "未找到: "),
            ErrorKind::Cancelled => push_str(&mut s, "已取消: "),
        }
        push_str(&mut s, self.message.as_str());
        s
    }
}

/// An error built from a kind and a literal message.
pub fn error_of(kind: ErrorKind, message: &str) -> (e: Error)
    ensures
        e.kind == kind,
        e.message@ == message@,
{
    Error::new(kind, message.to_owned())
}

/// An error whose message is `prefix` followed by `detail`.
pub fn error_with(kind: ErrorKind, prefix: &str, detail: &str) -> (e: Error)
    ensures
        e.kind == kind,
        e.message@ == prefix@ + detail@,
{
    let mut m = prefix.to_owned();
    push_str(&mut m, detail);
    Error::new(kind, m)
}

} // verus!
