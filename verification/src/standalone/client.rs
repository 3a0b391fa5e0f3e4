//! What the standalone downloader sends and how it reacts to replies: user agents from
//! the configuration, referers, request pauses, the handling of a reply's status, and
//! GBK decoding of pages.
use vstd::prelude::*;

use crate::client::{gbk_decode, gbk_decoded, retry_after_secs, user_agent_list};
use crate::package::string_views;
use crate::standalone::error::DownloadError;
use crate::standalone::model::DownloaderConfig;
use crate::text::{
    chars_of, decimal, find_from, first_occurrence, parse_uint, push_char, push_decimal,
    push_str, string_of,
};
use crate::weburl::{origin_of, url_origin};

verus! {

/// The default user agents, in the order requests use them.
pub fn default_user_agents() -> (r: Vec<String>)
    ensures
        string_views(r@) == user_agent_list(),
{
    crate::client::default_user_agents()
}

/// The user agents requests take turns with: the configured ones, or the defaults when
/// none are configured.
pub open spec fn agents_of(config: DownloaderConfig) -> Seq<Seq<char>> {
    if config.user_agents@.len() == 0 {
        user_agent_list()
    } else {
        string_views(config.user_agents@)
    }
}

/// The user agent of the request numbered `turn`: the agents are used in turn.
pub fn pick_user_agent(config: &DownloaderConfig, turn: u64) -> (r: String)
    ensures
        r@ == agents_of(*config)[(turn % (agents_of(*config).len() as u64)) as int],
{
    let list = if config.user_agents.len() == 0 {
        default_user_agents()
    } else {
        config.user_agents.clone()
    };
    assert(string_views(list@) == agents_of(*config)) by {
        if config.user_agents@.len() != 0 {
            assert(list@ =~= config.user_agents@);
        }
    }
    assert(user_agent_list().len() == 5);
    assert(string_views(list@).len() == list@.len());
    let idx = (turn % (list.len() as u64)) as usize;
    assert(list@[idx as int]@ == string_views(list@)[idx as int]);
    list[idx].clone()
}

/// What precedes the first `/` of `url`, or nothing when it has none.
pub open spec fn before_slash(url: Seq<char>) -> Seq<char> {
    match first_occurrence(url, seq!['/']) {
        Some(i) => url.take(i),
        None => Seq::empty(),
    }
}

/// The referer of a request for `url`: its origin, or what precedes its first `/`
/// when it does not parse, followed by `/`.
pub open spec fn referer_of(url: Seq<char>) -> Seq<char> {
    match url_origin(url) {
        Some(o) => o.push('/'),
        None => before_slash(url).push('/'),
    }
}

/// The referer sent with a request for `url`.
pub fn referer_for(url: &str) -> (r: String)
    ensures
        r@ == referer_of(url@),
{
    let mut r = match origin_of(url) {
        Some(o) => o,
        None => {
            let v = chars_of(url);
            let slash = vec!['/'];
            assert(slash@ =~= seq!['/']);
            assert(v@.subrange(0, v@.len() as int) =~= v@);
            match find_from(&v, &slash, 0) {
                Some(i) => {
                    proof {
                        crate::text::lemma_first_occurrence_in(v@, slash@);
                    }
                    let s = string_of(&v, 0, i);
                    assert(s@ =~= url@.take(i as int));
                    s
                },
                None => String::new(),
            }
        },
    };
    push_char(&mut r, '/');
    r
}

/// The headers of a request for `url` (an image when `images`), request number `turn`:
/// user agent and referer, then the image `accept` or the page headers.
pub open spec fn headers_of(config: DownloaderConfig, url: Seq<char>, turn: u64, images: bool) -> Seq<(Seq<char>, Seq<char>)> {
    seq![
        ("user-agent"@, agents_of(config)[(turn % (agents_of(config).len() as u64)) as int]),
        ("referer"@, referer_of(url)),
    ] + if images {
        seq![("accept"@, "image/webp,image/apng,image/*,*/*;q=0.8"@)]
    } else {
        seq![
            ("accept-language"@, "zh-CN,zh;q=0.9,en;q=0.8,en-GB;q=0.7,en-US;q=0.6"@),
            ("connection"@, "keep-alive"@),
            ("dnt"@, "1"@),
            ("upgrade-insecure-requests"@, "1"@),
        ]
    }
}

/// The headers (name, value) of a request for `url` (an image when `images`); `turn`
/// numbers the request and picks its user agent.
pub fn request_headers(config: &DownloaderConfig, url: &str, turn: u64, images: bool) -> (h: Vec<(String, String)>)
    ensures
        crate::client::header_views(h@) == headers_of(*config, url@, turn, images),
{
    let mut h = vec![
        ("user-agent".to_owned(), pick_user_agent(config, turn)),
        ("referer".to_owned(), referer_for(url)),
    ];
    if images {
        h.push(("accept".to_owned(), "image/webp,image/apng,image/*,*/*;q=0.8".to_owned()));
    } else {
        h.push(
            (
                "accept-language".to_owned(),
                "zh-CN,zh;q=0.9,en;q=0.8,en-GB;q=0.7,en-US;q=0.6".to_owned(),
            ),
        );
        h.push(("connection".to_owned(), "keep-alive".to_owned()));
        h.push(("dnt".to_owned(), "1".to_owned()));
        h.push(("upgrade-insecure-requests".to_owned(), "1".to_owned()));
    }
    assert(crate::client::header_views(h@) =~= headers_of(*config, url@, turn, images));
    h
}

/// The pause in milliseconds before a request: 500 plus `nanos` (the sub-second part
/// of the clock) modulo 500 when pauses are enabled; none otherwise.
pub fn request_delay(config: &DownloaderConfig, nanos: u32) -> (ms: Option<u64>)
    ensures
        config.delay_enabled ==> ms == Some((500 + nanos % 500) as u64),
        !config.delay_enabled ==> ms is None,
{
    if config.delay_enabled {
        Some(500 + (nanos % 500) as u64)
    } else {
        None
    }
}

/// What a request does after the server's status.
#[derive(Debug)]
pub enum ReplyStep {
    /// The status is a success: read the body.
    ReadBody,
    /// Try again after pausing this many seconds.
    Retry { pause_secs: u64 },
    /// Give up with this error.
    Fail(DownloadError),
}

/// How a page request or an image request names its target in messages.
pub open spec fn target_label(images: bool) -> Seq<char> {
    if images {
        "图片 "@
    } else {
        "请求 "@
    }
}

/// Whether `s` gives up with an `Http` error whose message is `m`.
pub open spec fn fails_with(s: ReplyStep, m: Seq<char>) -> bool {
    s matches ReplyStep::Fail(DownloadError::Http(x)) && x@ == m
}

/// The label of the target of a request.
fn push_target(out: &mut String, images: bool, url: &str)
    ensures
        final(out)@ == old(out)@ + target_label(images) + url@,
{
    if images {
        push_str(out, "图片 ");
    } else {
        push_str(out, "请求 ");
    }
    push_str(out, url);
}

/// A request to `url` (an image when `images`) got the status `code`, displayed as
/// `status`, at attempt `attempt` of `max_retries`. A success reads the body; too many
/// requests (429) retries after the wait the `Retry-After` header asks (5 seconds by
/// default) unless this was the last attempt; any other status gives up.
pub fn reply_step(url: &str, images: bool, attempt: u32, max_retries: u32, code: u16, status: &str, retry_after: Option<&str>) -> (s: ReplyStep)
    ensures
        200 <= code <= 299 ==> s is ReadBody,
        code == 429 && attempt + 1 < max_retries ==> (s matches ReplyStep::Retry { pause_secs }
            && pause_secs == retry_after_secs(crate::client::opt_str_view(retry_after))),
        code == 429 && attempt + 1 >= max_retries ==> fails_with(
            s,
            target_label(images) + url@ + " 被限流（429）"@,
        ),
        !(200 <= code <= 299) && code != 429 ==> fails_with(
            s,
            target_label(images) + url@ + " 返回状态码 "@ + status@,
        ),
{
    if 200 <= code && code <= 299 {
        return ReplyStep::ReadBody;
    }
    if code == 429 {
        if (attempt as u64) + 1 < max_retries as u64 {
            let pause = match retry_after {
                Some(v) => match parse_uint(v, u64::MAX) {
                    Some(n) => n,
                    None => 5,
                },
                None => 5,
            };
            return ReplyStep::Retry { pause_secs: pause };
        }
        let mut m = String::new();
        push_target(&mut m, images, url);
        push_str(&mut m, " 被限流（429）");
        return ReplyStep::Fail(DownloadError::Http(m));
    }
    let mut m = String::new();
    push_target(&mut m, images, url);
    push_str(&mut m, " 返回状态码 ");
    push_str(&mut m, status);
    ReplyStep::Fail(DownloadError::Http(m))
}

/// The error of a request to `url` that ran out of its `max_retries` attempts.
pub fn retries_exhausted(url: &str, images: bool, max_retries: u32) -> (e: DownloadError)
    ensures
        e matches DownloadError::Http(m) && m@ == target_label(images) + url@ + " 重试 "@
            + decimal(max_retries as nat) + " 次后仍失败"@,
{
    let mut m = String::new();
    push_target(&mut m, images, url);
    push_str(&mut m, " 重试 ");
    push_decimal(&mut m, max_retries as usize);
    push_str(&mut m, " 次后仍失败");
    DownloadError::Http(m)
}

/// The text of a page body, decoded as GBK; `url` names the page.
pub fn decode_gbk(bytes: &[u8], url: &str) -> (res: Result<String, DownloadError>)
    ensures
        res matches Ok(s) && s@ == gbk_decoded(bytes@),
{
    Ok(gbk_decode(bytes))
}

} // verus!
