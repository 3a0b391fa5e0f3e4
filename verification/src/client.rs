//! What the downloads send and how they retry: user agents, referers, request headers,
//! the retry policy of page and image requests, and GBK decoding of pages.
//!
//! The requests themselves are made by the caller; the types here say what to send,
//! how long to wait, and what a reply comes to.
use vstd::prelude::*;

use crate::error::{Error, ErrorKind};
use crate::package::string_views;
use crate::text::{decimal, parse_uint, parsed_uint, push_char, push_decimal, push_str};
use crate::weburl::{origin_of, url_origin};

verus! {

/// How many times a download is tried before it is given up.
pub const MAX_ATTEMPTS: u32 = 10;

/// The browser identities that requests take turns with.
pub open spec fn user_agent_list() -> Seq<Seq<char>> {
    seq![
        "Mozilla/5.0 (Windows NT 10.0; Win64; x64) AppleWebKit/537.36 (KHTML, like Gecko) Chrome/131.0.0.0 Safari/537.36"@,
        "Mozilla/5.0 (Windows NT 10.0; Win64; x64; rv:120.0) Gecko/20100101 Firefox/120.0"@,
        "Mozilla/5.0 (Macintosh; Intel Mac OS X 10_15_7) AppleWebKit/605.1.15 (KHTML, like Gecko) Version/17.1 Safari/605.1.15"@,
        "Mozilla/5.0 (Windows NT 10.0; Win64; x64) AppleWebKit/537.36 (KHTML, like Gecko) Edge/130.0.0.0 Safari/537.36"@,
        "Mozilla/5.0 (iPhone; CPU iPhone OS 17_0 like Mac OS X) AppleWebKit/605.1.15 (KHTML, like Gecko) Version/17.0 Mobile/15E148 Safari/604.1"@,
    ]
}

/// The default user agents, in the order requests use them.
pub fn default_user_agents() -> (r: Vec<String>)
    ensures
        string_views(r@) == user_agent_list(),
{
    let r = vec![
        "Mozilla/5.0 (Windows NT 10.0; Win64; x64) AppleWebKit/537.36 (KHTML, like Gecko) Chrome/131.0.0.0 Safari/537.36".to_owned(),
        "Mozilla/5.0 (Windows NT 10.0; Win64; x64; rv:120.0) Gecko/20100101 Firefox/120.0".to_owned(),
        "Mozilla/5.0 (Macintosh; Intel Mac OS X 10_15_7) AppleWebKit/605.1.15 (KHTML, like Gecko) Version/17.1 Safari/605.1.15".to_owned(),
        "Mozilla/5.0 (Windows NT 10.0; Win64; x64) AppleWebKit/537.36 (KHTML, like Gecko) Edge/130.0.0.0 Safari/537.36".to_owned(),
        "Mozilla/5.0 (iPhone; CPU iPhone OS 17_0 like Mac OS X) AppleWebKit/605.1.15 (KHTML, like Gecko) Version/17.0 Mobile/15E148 Safari/604.1".to_owned(),
    ];
    assert(string_views(r@) =~= user_agent_list());
    r
}

/// The user agent of the request numbered `turn`: the agents are used in turn.
pub fn pick_user_agent(turn: u64) -> (r: String)
    ensures
        r@ == user_agent_list()[(turn % 5) as int],
{
    let list = default_user_agents();
    let idx = (turn % 5) as usize;
    assert(user_agent_list().len() == 5);
    assert(string_views(list@).len() == list@.len());
    assert(list@[idx as int]@ == string_views(list@)[idx as int]);
    list[idx].clone()
}

/// The origin of `url` followed by `/`; just `/` when `url` does not parse.
pub open spec fn origin_slash(url: Seq<char>) -> Seq<char> {
    match url_origin(url) {
        Some(o) => o.push('/'),
        None => seq!['/'],
    }
}

/// The origin of `url` followed by `/`, sent as the referer of image requests.
pub fn origin_for(url: &str) -> (r: String)
    ensures
        r@ == origin_slash(url@),
{
    let mut r = match origin_of(url) {
        Some(o) => o,
        None => String::new(),
    };
    push_char(&mut r, '/');
    r
}

/// The referer sent with a request for `url`: its origin followed by `/`.
fn referer_for(url: &str) -> (r: String)
    ensures
        r@ == origin_slash(url@),
{
    origin_for(url)
}

/// The abstract form of a list of headers.
pub open spec fn header_views(h: Seq<(String, String)>) -> Seq<(Seq<char>, Seq<char>)> {
    h.map_values(|p: (String, String)| (p.0@, p.1@))
}

/// The headers of a browser-like page request for `url`, request number `turn`.
pub open spec fn page_headers(url: Seq<char>, turn: u64) -> Seq<(Seq<char>, Seq<char>)> {
    seq![
        ("user-agent"@, user_agent_list()[(turn % 5) as int]),
        ("referer"@, origin_slash(url)),
        ("accept-language"@, "zh-CN,zh;q=0.9,en;q=0.8,en-GB;q=0.7,en-US;q=0.6"@),
        ("accept"@, "text/html,application/xhtml+xml,application/xml;q=0.9,image/avif,image/webp,*/*;q=0.8"@),
        ("connection"@, "keep-alive"@),
        ("DNT"@, "1"@),
        ("Upgrade-Insecure-Requests"@, "1"@),
        ("Sec-Fetch-Dest"@, "document"@),
        ("Sec-Fetch-Mode"@, "navigate"@),
        ("Sec-Fetch-Site"@, "same-origin"@),
        ("Sec-Fetch-User"@, "?1"@),
    ]
}

/// The headers of a browser-like image request for `src`, request number `turn`.
pub open spec fn picture_headers(src: Seq<char>, turn: u64) -> Seq<(Seq<char>, Seq<char>)> {
    seq![
        ("user-agent"@, user_agent_list()[(turn % 5) as int]),
        ("referer"@, origin_slash(src)),
        ("accept"@, "image/webp,image/apng,image/*,*/*;q=0.8"@),
    ]
}

/// A header as a pair of owned strings.
fn header(name: &str, value: String) -> (h: (String, String))
    ensures
        h.0@ == name@,
        h.1@ == value@,
{
    (name.to_owned(), value)
}

/// The headers (name, value) of a page request for `url`; `turn` numbers the request
/// and picks its user agent.
pub fn html_headers(url: &str, turn: u64) -> (h: Vec<(String, String)>)
    ensures
        header_views(h@) == page_headers(url@, turn),
{
    let h = vec![
        header("user-agent", pick_user_agent(turn)),
        header("referer", referer_for(url)),
        header("accept-language", "zh-CN,zh;q=0.9,en;q=0.8,en-GB;q=0.7,en-US;q=0.6".to_owned()),
        header("accept", "text/html,application/xhtml+xml,application/xml;q=0.9,image/avif,image/webp,*/*;q=0.8".to_owned()),
        header("connection", "keep-alive".to_owned()),
        header("DNT", "1".to_owned()),
        header("Upgrade-Insecure-Requests", "1".to_owned()),
        header("Sec-Fetch-Dest", "document".to_owned()),
        header("Sec-Fetch-Mode", "navigate".to_owned()),
        header("Sec-Fetch-Site", "same-origin".to_owned()),
        header("Sec-Fetch-User", "?1".to_owned()),
    ];
    assert(header_views(h@) =~= page_headers(url@, turn));
    h
}

/// The headers (name, value) of an image request for `src`; `turn` numbers the request
/// and picks its user agent.
pub fn image_headers(src: &str, turn: u64) -> (h: Vec<(String, String)>)
    ensures
        header_views(h@) == picture_headers(src@, turn),
{
    let h = vec![
        header("user-agent", pick_user_agent(turn)),
        header("referer", referer_for(src)),
        header("accept", "image/webp,image/apng,image/*,*/*;q=0.8".to_owned()),
    ];
    assert(header_views(h@) =~= picture_headers(src@, turn));
    h
}

// ---------------------------------------------------------------------------
// Retry policy
// ---------------------------------------------------------------------------

/// The pause before page attempt `attempt`: none before the first, then 50, 100, 150,
/// 200, 300 and from then on 600 milliseconds.
pub open spec fn page_delay(attempt: nat) -> nat {
    if attempt == 0 {
        0
    } else if attempt == 1 {
        50
    } else if attempt == 2 {
        100
    } else if attempt == 3 {
        150
    } else if attempt == 4 {
        200
    } else if attempt == 5 {
        300
    } else {
        600
    }
}

/// The pause before image attempt `attempt`: none before the first, 50 milliseconds
/// before each retry.
pub open spec fn image_delay(attempt: nat) -> nat {
    if attempt == 0 {
        0
    } else {
        50
    }
}

/// The pause in milliseconds before page attempt `attempt`.
pub fn retry_delay(attempt: u32) -> (ms: u64)
    ensures
        ms == page_delay(attempt as nat),
{
    if attempt == 0 {
        0
    } else if attempt == 1 {
        50
    } else if attempt == 2 {
        100
    } else if attempt == 3 {
        150
    } else if attempt == 4 {
        200
    } else if attempt == 5 {
        300
    } else {
        600
    }
}

/// The wait a `Retry-After` header asks for, in seconds: its value as an integer, or 5
/// when it is absent or not one.
pub open spec fn retry_after_secs(header: Option<Seq<char>>) -> nat {
    match header {
        Some(v) => match parsed_uint(v, u64::MAX as nat) {
            Some(n) => n,
            None => 5,
        },
        None => 5,
    }
}

/// What a page request does after the server's status.
#[derive(Debug)]
pub enum StatusStep {
    /// The status is a success: read the body.
    ReadBody,
    /// Try again, after pausing this many seconds.
    Retry { pause_secs: u64 },
}

/// Whether `code` is a success status (2xx).
pub open spec fn is_success(code: u16) -> bool {
    200 <= code <= 299
}

/// The pause a 429 answer asks for at attempt `attempt`: none during the first six
/// attempts, then the `Retry-After` wait.
pub open spec fn too_many_pause(attempt: nat, retry_after: Option<Seq<char>>) -> nat {
    if attempt >= 6 {
        retry_after_secs(retry_after)
    } else {
        0
    }
}

/// The abstract form of an optional string.
pub open spec fn opt_str_view(o: Option<&str>) -> Option<Seq<char>> {
    match o {
        Some(v) => Some(v@),
        None => None,
    }
}

/// Whether `s` retries after pausing `pause` seconds.
pub open spec fn retried(s: StatusStep, pause: nat) -> bool {
    s matches StatusStep::Retry { pause_secs } && pause_secs == pause
}

/// The attempts of one download: how many were made and why the latest failed.
#[derive(Debug)]
pub struct Attempts {
    /// The number of attempts that have failed so far.
    pub attempt: u32,
    /// Why the latest attempt failed (empty before any failure).
    pub last_error: String,
}

impl Attempts {
    /// A download about to make its first attempt.
    pub fn new() -> (a: Attempts)
        ensures
            a.attempt == 0,
            a.last_error@ == Seq::<char>::empty(),
    {
        Attempts { attempt: 0, last_error: String::new() }
    }

    /// The error a download of `url` ends with once every attempt failed.
    pub open spec fn exhausted_message(url: Seq<char>, last_error: Seq<char>) -> Seq<char> {
        url + seq![':'] + decimal(MAX_ATTEMPTS as nat) + seq![':'] + last_error
    }

    /// Before an attempt: the pause in milliseconds before sending it, or, when all
    /// attempts are spent, the error the download of `url` ends with. `images` selects
    /// the image policy (fixed 50 ms pauses) over the page policy.
    pub fn next_delay(&self, url: &str, images: bool) -> (r: Result<u64, Error>)
        ensures
            self.attempt < MAX_ATTEMPTS ==> r == Ok::<u64, Error>(
                (if images {
                    image_delay(self.attempt as nat)
                } else {
                    page_delay(self.attempt as nat)
                }) as u64,
            ),
            self.attempt >= MAX_ATTEMPTS ==> (r matches Err(e) && e.kind == ErrorKind::Network
                && e.message@ == Self::exhausted_message(url@, self.last_error@)),
    {
        if self.attempt < MAX_ATTEMPTS {
            if images {
                if self.attempt == 0 {
                    Ok(0)
                } else {
                    Ok(50)
                }
            } else {
                Ok(retry_delay(self.attempt))
            }
        } else {
            let mut m = url.to_owned();
            push_char(&mut m, ':');
            push_decimal(&mut m, MAX_ATTEMPTS as usize);
            push_char(&mut m, ':');
            push_str(&mut m, self.last_error.as_str());
            assert(m@ =~= Self::exhausted_message(url@, self.last_error@));
            Err(Error::new(ErrorKind::Network, m))
        }
    }

    /// The attempt failed for `reason` (a send or read error's message, or a status).
    pub fn failed(&mut self, reason: String)
        requires
            old(self).attempt < MAX_ATTEMPTS,
        ensures
            final(self).attempt == old(self).attempt + 1,
            final(self).last_error == reason,
    {
        self.attempt = self.attempt + 1;
        self.last_error = reason;
    }

    /// A page request got the status `code`, with the `Retry-After` header
    /// `retry_after` when there is one. A success reads the body; every other status is
    /// recorded as the failure's reason and retried: too many requests (429) pausing as
    /// the header asks from the seventh attempt on, any other at once.
    pub fn page_status(&mut self, code: u16, retry_after: Option<&str>) -> (s: StatusStep)
        requires
            old(self).attempt < MAX_ATTEMPTS,
        ensures
            is_success(code) ==> s is ReadBody && *final(self) == *old(self),
            !is_success(code) ==> final(self).attempt == old(self).attempt + 1
                && final(self).last_error@ == decimal(code as nat),
            code == 429 ==> retried(
                s,
                too_many_pause(old(self).attempt as nat, opt_str_view(retry_after)),
            ),
            !is_success(code) && code != 429 ==> retried(s, 0),
    {
        if 200 <= code && code <= 299 {
            return StatusStep::ReadBody;
        }
        let mut pause: u64 = 0;
        if code == 429 && self.attempt >= 6 {
            pause = match retry_after {
                Some(v) => match parse_uint(v, u64::MAX) {
                    Some(n) => n,
                    None => 5,
                },
                None => 5,
            };
        }
        let mut reason = String::new();
        push_decimal(&mut reason, code as usize);
        self.failed(reason);
        StatusStep::Retry { pause_secs: pause }
    }

    /// An image request got the status `code`: a success reads the body (`true`); any
    /// other status is recorded as the failure's reason and the request is retried.
    pub fn image_status(&mut self, code: u16) -> (read: bool)
        requires
            old(self).attempt < MAX_ATTEMPTS,
        ensures
            read == is_success(code),
            read ==> *final(self) == *old(self),
            !read ==> final(self).attempt == old(self).attempt + 1 && final(self).last_error@
                == decimal(code as nat),
    {
        if 200 <= code && code <= 299 {
            return true;
        }
        let mut reason = String::new();
        push_decimal(&mut reason, code as usize);
        self.failed(reason);
        false
    }
}

// ---------------------------------------------------------------------------
// Page encoding
// ---------------------------------------------------------------------------

/// The text that `encoding_rs::GBK.decode` gives for `bytes`.
pub uninterp spec fn gbk_decoded(bytes: Seq<u8>) -> Seq<char>;

/// Decodes bytes as GBK with `encoding_rs::GBK.decode` (malformed sequences become
/// U+FFFD); the contract only ties the text to the name [`gbk_decoded`].
#[verifier::external_body]
pub(crate) fn gbk_decode(bytes: &[u8]) -> (s: String)
    ensures
        s@ == gbk_decoded(bytes@),
{
    let (text, _, _) = encoding_rs::GBK.decode(bytes);
    text.into_owned()
}

/// The text of a page body: the site serves GBK.
pub fn decode_page(bytes: &[u8]) -> (s: String)
    ensures
        s@ == gbk_decoded(bytes@),
{
    gbk_decode(bytes)
}


// ---------------------------------------------------------------------------
// Laws
// ---------------------------------------------------------------------------

/// The pauses between page attempts never shrink and never exceed 600 milliseconds.
pub proof fn law_page_delay_grows(a: nat, b: nat)
    requires
        a <= b,
    ensures
        page_delay(a) <= page_delay(b) <= 600,
{
}

/// Requests take the user agents in turn: request `turn + 5` uses the same agent as
/// request `turn`, and five consecutive requests use five different agents.
pub proof fn law_user_agents_rotate(turn: u64, k: u64)
    requires
        turn + 5 <= u64::MAX,
        0 < k < 5,
        turn + k <= u64::MAX,
    ensures
        user_agent_list()[((turn + 5) % 5) as int] == user_agent_list()[(turn % 5) as int],
        user_agent_list()[((turn + k) % 5) as int] != user_agent_list()[(turn % 5) as int],
{
    let l = user_agent_list();
    assert(((turn + 5) % 5) == turn % 5);
    let a = (turn % 5) as int;
    let b = ((turn + k) % 5) as int;
    assert(a != b);
    reveal_strlit("Mozilla/5.0 (Windows NT 10.0; Win64; x64) AppleWebKit/537.36 (KHTML, like Gecko) Chrome/131.0.0.0 Safari/537.36");
    reveal_strlit("Mozilla/5.0 (Windows NT 10.0; Win64; x64; rv:120.0) Gecko/20100101 Firefox/120.0");
    reveal_strlit("Mozilla/5.0 (Macintosh; Intel Mac OS X 10_15_7) AppleWebKit/605.1.15 (KHTML, like Gecko) Version/17.1 Safari/605.1.15");
    reveal_strlit("Mozilla/5.0 (Windows NT 10.0; Win64; x64) AppleWebKit/537.36 (KHTML, like Gecko) Edge/130.0.0.0 Safari/537.36");
    reveal_strlit("Mozilla/5.0 (iPhone; CPU iPhone OS 17_0 like Mac OS X) AppleWebKit/605.1.15 (KHTML, like Gecko) Version/17.0 Mobile/15E148 Safari/604.1");
    assert(forall|x: int, y: int| 0 <= x < y < 5 ==> #[trigger] l[x] != #[trigger] l[y]) by {
        assert(l[0][13] != l[2][13]);
        assert(l[0][13] != l[4][13]);
        assert(l[1][13] != l[2][13]);
        assert(l[1][13] != l[4][13]);
        assert(l[2][13] != l[3][13]);
        assert(l[2][13] != l[4][13]);
        assert(l[3][13] != l[4][13]);
        assert(l[0][100] != l[3][100]);
        assert(l[1].len() != l[3].len() || l[1][13] != l[3][13]);
    }
}

} // verus!
