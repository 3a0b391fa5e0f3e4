//! HTML documents as a flat stream of node tokens, and the queries the page readers
//! make on them.
//!
//! Parsing HTML is left to `scraper`; its document tree comes back as the sequence of
//! open and close edges of a depth-first walk: every node contributes an opening token
//! (an element, a text node, or another kind of node) and, after its descendants, a
//! `Close` token.
use vstd::prelude::*;

use crate::text::{chars_of, occurs_at_exec, push_str, trimmed, tidy_lines, tidy_lines_of};

verus! {

/// One edge of a depth-first walk of an HTML document.
#[derive(Debug)]
pub enum HtmlToken {
    /// An element opens: its local name and attributes (name, value).
    Element { name: String, attrs: Vec<(String, String)> },
    /// A text node opens.
    Text(String),
    /// Some other node (document root, comment, doctype, ...) opens.
    Other,
    /// The most recently opened node that is still open closes.
    Close,
}

/// The abstract form of a token.
pub enum TokenV {
    Element { name: Seq<char>, attrs: Seq<(Seq<char>, Seq<char>)> },
    Text(Seq<char>),
    Other,
    Close,
}

/// The abstract form of a list of attributes.
pub open spec fn attrs_view(attrs: Seq<(String, String)>) -> Seq<(Seq<char>, Seq<char>)> {
    attrs.map_values(|p: (String, String)| (p.0@, p.1@))
}

impl View for HtmlToken {
    type V = TokenV;

    open spec fn view(&self) -> TokenV {
        match self {
            HtmlToken::Element { name, attrs } => TokenV::Element {
                name: name@,
                attrs: attrs_view(attrs@),
            },
            HtmlToken::Text(t) => TokenV::Text(t@),
            HtmlToken::Other => TokenV::Other,
            HtmlToken::Close => TokenV::Close,
        }
    }
}

/// The abstract form of a token stream.
pub open spec fn tokens_view(toks: Seq<HtmlToken>) -> Seq<TokenV> {
    toks.map_values(|t: HtmlToken| t@)
}

/// The token stream of the HTML document `html`, as `scraper` parses it.
pub uninterp spec fn document_tokens(html: Seq<char>) -> Seq<TokenV>;

/// Parses `html` as a document with `scraper::Html::parse_document` and lists the edges
/// of `ego_tree`'s depth-first `traverse` from the root: the contract says only that the
/// result is the one named by [`document_tokens`] for this input.
#[verifier::external_body]
pub(crate) fn tokenize(html: &str) -> (toks: Vec<HtmlToken>)
    ensures
        tokens_view(toks@) == document_tokens(html@),
{
    let doc = scraper::Html::parse_document(html);
    doc.tree.root().traverse().map(|edge| match edge {
        ego_tree::iter::Edge::Open(n) => match n.value() {
            scraper::Node::Element(e) => HtmlToken::Element {
                name: e.name().to_string(),
                attrs: e.attrs().map(|(k, v)| (k.to_string(), v.to_string())).collect(),
            },
            scraper::Node::Text(t) => HtmlToken::Text(String::from(&**t)),
            _ => HtmlToken::Other,
        },
        ego_tree::iter::Edge::Close(_) => HtmlToken::Close,
    }).collect()
}

// ---------------------------------------------------------------------------
// Structure
// ---------------------------------------------------------------------------

/// Scanning from `k` with `d` nodes open, the position of the token that closes the
/// outermost of them, or the stream's length if it never closes.
pub open spec fn scan_end(tv: Seq<TokenV>, k: int, d: nat) -> int
    decreases tv.len() - k,
{
    if k < 0 || k >= tv.len() || d == 0 {
        tv.len() as int
    } else if tv[k] is Close {
        if d == 1 {
            k
        } else {
            scan_end(tv, k + 1, (d - 1) as nat)
        }
    } else {
        scan_end(tv, k + 1, d + 1)
    }
}

/// The position of the `Close` that ends the node opened at `i`.
pub open spec fn node_end(tv: Seq<TokenV>, i: int) -> int {
    scan_end(tv, i + 1, 1)
}

/// A scan ends at or after where it starts, and within the stream.
pub proof fn lemma_scan_end_bounds(tv: Seq<TokenV>, k: int, d: nat)
    requires
        0 <= k,
    ensures
        k <= scan_end(tv, k, d) <= tv.len() || (k > tv.len() && scan_end(tv, k, d) == tv.len()),
    decreases tv.len() - k,
{
    if k < tv.len() && d > 0 {
        if tv[k] is Close {
            if d > 1 {
                lemma_scan_end_bounds(tv, k + 1, (d - 1) as nat);
            }
        } else {
            lemma_scan_end_bounds(tv, k + 1, d + 1);
        }
    }
}

/// A node ends after it opens and within the stream.
pub proof fn lemma_node_end_bounds(tv: Seq<TokenV>, i: int)
    requires
        0 <= i < tv.len(),
    ensures
        i < node_end(tv, i) <= tv.len(),
{
    lemma_scan_end_bounds(tv, i + 1, 1);
}

/// The text of the text nodes among positions `a..b`, in order.
pub open spec fn texts_in(tv: Seq<TokenV>, a: int, b: int) -> Seq<char>
    decreases b - a,
{
    if b <= a || b > tv.len() {
        Seq::empty()
    } else {
        texts_in(tv, a, b - 1) + match tv[b - 1] {
            TokenV::Text(t) => t,
            _ => Seq::empty(),
        }
    }
}

/// The trimmed text of each text node among positions `a..b`, concatenated.
pub open spec fn trimmed_texts_in(tv: Seq<TokenV>, a: int, b: int) -> Seq<char>
    decreases b - a,
{
    if b <= a || b > tv.len() {
        Seq::empty()
    } else {
        trimmed_texts_in(tv, a, b - 1) + match tv[b - 1] {
            TokenV::Text(t) => trimmed(t),
            _ => Seq::empty(),
        }
    }
}

/// The text content of the element opened at `i`: all its descendant text, in order.
pub open spec fn text_of(tv: Seq<TokenV>, i: int) -> Seq<char> {
    texts_in(tv, i + 1, node_end(tv, i))
}

/// The value of the first attribute named `name`.
pub open spec fn attr_of(attrs: Seq<(Seq<char>, Seq<char>)>, name: Seq<char>) -> Option<Seq<char>>
    decreases attrs.len(),
{
    if attrs.len() == 0 {
        None
    } else if attrs[0].0 == name {
        Some(attrs[0].1)
    } else {
        attr_of(attrs.subrange(1, attrs.len() as int), name)
    }
}

/// The value of attribute `name` of the element token `t`.
pub open spec fn token_attr(t: TokenV, name: Seq<char>) -> Option<Seq<char>> {
    match t {
        TokenV::Element { attrs, .. } => attr_of(attrs, name),
        _ => None,
    }
}

/// Whether `t` opens an element named `name`.
pub open spec fn is_tag(t: TokenV, name: Seq<char>) -> bool {
    t matches TokenV::Element { name: n, .. } && n == name
}

/// ASCII whitespace, as `str::split_ascii_whitespace` splits on it.
pub open spec fn is_ascii_ws(c: char) -> bool {
    c == ' ' || c == '\t' || c == '\n' || c == '\x0C' || c == '\r'
}

/// Whether the whitespace-separated list `value` has the word `word`.
pub open spec fn has_word(value: Seq<char>, word: Seq<char>) -> bool {
    exists|i: int|
        #![trigger value.subrange(i, i + word.len())]
        0 <= i && i + word.len() <= value.len() && value.subrange(i, i + word.len()) == word && (
        i == 0 || is_ascii_ws(value[i - 1])) && (i + word.len() == value.len() || is_ascii_ws(
            value[i + word.len()],
        ))
}

/// Whether `t` opens an element that has the class `class`.
pub open spec fn has_class(t: TokenV, class: Seq<char>) -> bool {
    token_attr(t, "class"@) matches Some(v) && has_word(v, class)
}

/// The first position `k..n` that satisfies `p`.
pub open spec fn first_from(n: int, k: int, p: spec_fn(int) -> bool) -> Option<int>
    decreases n - k,
{
    if k < 0 || k >= n {
        None
    } else if p(k) {
        Some(k)
    } else {
        first_from(n, k + 1, p)
    }
}

/// What `first_from` finds satisfies the predicate and lies in `k..n`.
pub proof fn lemma_first_from(n: int, k: int, p: spec_fn(int) -> bool)
    ensures
        first_from(n, k, p) matches Some(r) ==> p(r) && k <= r < n,
    decreases n - k,
{
    if 0 <= k < n && !p(k) {
        lemma_first_from(n, k + 1, p);
    }
}

// ---------------------------------------------------------------------------
// Executable queries
// ---------------------------------------------------------------------------

/// Whether two strings are equal.
pub fn str_eq(a: &str, b: &str) -> (r: bool)
    ensures
        r == (a@ == b@),
{
    let va = chars_of(a);
    let vb = chars_of(b);
    if va.len() != vb.len() {
        return false;
    }
    let mut i: usize = 0;
    while i < va.len()
        invariant
            va.len() == vb.len(),
            va@ == a@,
            vb@ == b@,
            i <= va.len(),
            forall|k: int| 0 <= k < i ==> va@[k] == vb@[k],
        decreases va.len() - i,
    {
        if va[i] != vb[i] {
            return false;
        }
        i += 1;
    }
    assert(va@ =~= vb@);
    true
}

/// The position of the `Close` that ends the node opened at `i`.
pub fn subtree_end(toks: &Vec<HtmlToken>, i: usize) -> (e: usize)
    requires
        i < toks.len(),
    ensures
        e == node_end(tokens_view(toks@), i as int),
        i < e <= toks.len(),
{
    let ghost tv = tokens_view(toks@);
    proof {
        lemma_node_end_bounds(tv, i as int);
    }
    let mut k = i + 1;
    let mut d: usize = 1;
    while k < toks.len()
        invariant
            i < k <= toks.len(),
            1 <= d <= k - i,
            tv == tokens_view(toks@),
            scan_end(tv, k as int, d as nat) == node_end(tv, i as int),
        decreases toks.len() - k,
    {
        match &toks[k] {
            HtmlToken::Close => {
                if d == 1 {
                    return k;
                }
                d -= 1;
            },
            _ => {
                d += 1;
            },
        }
        k += 1;
    }
    k
}

/// Appends the text of the text nodes among positions `a..b`.
pub fn push_texts(out: &mut String, toks: &Vec<HtmlToken>, a: usize, b: usize)
    requires
        a <= b <= toks.len(),
    ensures
        final(out)@ == old(out)@ + texts_in(tokens_view(toks@), a as int, b as int),
{
    let ghost tv = tokens_view(toks@);
    let mut k = a;
    while k < b
        invariant
            a <= k <= b <= toks.len(),
            tv == tokens_view(toks@),
            out@ == old(out)@ + texts_in(tv, a as int, k as int),
        decreases b - k,
    {
        match &toks[k] {
            HtmlToken::Text(t) => push_str(out, t.as_str()),
            _ => {},
        }
        k += 1;
        assert(out@ =~= old(out)@ + texts_in(tv, a as int, k as int));
    }
}

/// Appends the trimmed text of each text node among positions `a..b`.
pub fn push_trimmed_texts(out: &mut String, toks: &Vec<HtmlToken>, a: usize, b: usize)
    requires
        a <= b <= toks.len(),
    ensures
        final(out)@ == old(out)@ + trimmed_texts_in(tokens_view(toks@), a as int, b as int),
{
    let ghost tv = tokens_view(toks@);
    let mut k = a;
    while k < b
        invariant
            a <= k <= b <= toks.len(),
            tv == tokens_view(toks@),
            out@ == old(out)@ + trimmed_texts_in(tv, a as int, k as int),
        decreases b - k,
    {
        match &toks[k] {
            HtmlToken::Text(t) => {
                let tt = crate::text::trim(t.as_str());
                push_str(out, tt.as_str());
            },
            _ => {},
        }
        k += 1;
        assert(out@ =~= old(out)@ + trimmed_texts_in(tv, a as int, k as int));
    }
}

/// The text content of the element opened at `i`.
pub fn element_text(toks: &Vec<HtmlToken>, i: usize) -> (s: String)
    requires
        i < toks.len(),
    ensures
        s@ == text_of(tokens_view(toks@), i as int),
{
    let e = subtree_end(toks, i);
    let mut s = String::new();
    push_texts(&mut s, toks, i + 1, e);
    assert(s@ =~= text_of(tokens_view(toks@), i as int));
    s
}

/// The value of the first attribute named `name`.
pub fn find_attr(attrs: &Vec<(String, String)>, name: &str) -> (r: Option<String>)
    ensures
        match r {
            Some(v) => attr_of(attrs_view(attrs@), name@) == Some(v@),
            None => attr_of(attrs_view(attrs@), name@) is None,
        },
{
    let ghost av = attrs_view(attrs@);
    assert(av.subrange(0, av.len() as int) =~= av);
    let mut k: usize = 0;
    while k < attrs.len()
        invariant
            k <= attrs.len(),
            av == attrs_view(attrs@),
            attr_of(av, name@) == attr_of(av.subrange(k as int, av.len() as int), name@),
        decreases attrs.len() - k,
    {
        let ghost rest = av.subrange(k as int, av.len() as int);
        assert(rest[0] == (attrs@[k as int].0@, attrs@[k as int].1@));
        if str_eq(attrs[k].0.as_str(), name) {
            return Some(attrs[k].1.clone());
        }
        assert(rest.subrange(1, rest.len() as int) =~= av.subrange(k + 1, av.len() as int));
        k += 1;
    }
    None
}

/// The value of attribute `name` of the token at `i`.
pub fn attr_at(toks: &Vec<HtmlToken>, i: usize, name: &str) -> (r: Option<String>)
    requires
        i < toks.len(),
    ensures
        match r {
            Some(v) => token_attr(tokens_view(toks@)[i as int], name@) == Some(v@),
            None => token_attr(tokens_view(toks@)[i as int], name@) is None,
        },
{
    match &toks[i] {
        HtmlToken::Element { attrs, .. } => find_attr(attrs, name),
        _ => None,
    }
}

/// Whether the token at `i` opens an element named `name`.
pub fn tag_at(toks: &Vec<HtmlToken>, i: usize, name: &str) -> (b: bool)
    requires
        i < toks.len(),
    ensures
        b == is_tag(tokens_view(toks@)[i as int], name@),
{
    match &toks[i] {
        HtmlToken::Element { name: n, .. } => str_eq(n.as_str(), name),
        _ => false,
    }
}

/// Whether `c` is ASCII whitespace.
fn ascii_ws(c: char) -> (b: bool)
    ensures
        b == is_ascii_ws(c),
{
    c == ' ' || c == '\t' || c == '\n' || c == '\x0C' || c == '\r'
}

/// Whether the whitespace-separated list `value` has the word `word`.
pub fn word_in(value: &str, word: &str) -> (b: bool)
    ensures
        b == has_word(value@, word@),
{
    let v = chars_of(value);
    let w = chars_of(word);
    let mut i: usize = 0;
    loop
        invariant
            i <= v.len(),
            v@ == value@,
            w@ == word@,
            forall|j: int|
                #![trigger v@.subrange(j, j + w@.len())]
                0 <= j < i ==> !(j + w@.len() <= v@.len() && v@.subrange(j, j + w@.len()) == w@
                    && (j == 0 || is_ascii_ws(v@[j - 1])) && (j + w@.len() == v@.len()
                    || is_ascii_ws(v@[j + w@.len()]))),
        decreases v.len() - i,
    {
        let hit = occurs_at_exec(&v, &w, i);
        if hit {
            let before_ok = i == 0 || ascii_ws(v[i - 1]);
            let after_ok = i + w.len() == v.len() || ascii_ws(v[i + w.len()]);
            if before_ok && after_ok {
                assert(v@.subrange(i as int, i + w@.len()) == w@);
                return true;
            }
        }
        if i == v.len() {
            return false;
        }
        i += 1;
    }
}

/// Whether the token at `i` opens an element that has the class `class`.
pub fn class_at(toks: &Vec<HtmlToken>, i: usize, class: &str) -> (b: bool)
    requires
        i < toks.len(),
    ensures
        b == has_class(tokens_view(toks@)[i as int], class@),
{
    match attr_at(toks, i, "class") {
        Some(v) => word_in(v.as_str(), class),
        None => false,
    }
}

// ---------------------------------------------------------------------------
// Text with line breaks
// ---------------------------------------------------------------------------

/// The text of the element opened at `i`, `<br>` read as a line break, with each
/// line trimmed and blank lines dropped (recursively, for every nested element).
pub open spec fn break_text(tv: Seq<TokenV>, i: int) -> Seq<char>
    decreases tv.len() + 1 - i, 1nat,
{
    if 0 <= i < tv.len() {
        tidy_lines(break_children(tv, i + 1, node_end(tv, i)))
    } else {
        Seq::empty()
    }
}

/// The contributions of the sibling nodes from position `k` up to `stop`: text as it
/// is, `<br>` as `\n`, other elements by [`break_text`].
pub open spec fn break_children(tv: Seq<TokenV>, k: int, stop: int) -> Seq<char>
    decreases tv.len() + 1 - k, 2nat,
{
    if k < 0 || k >= stop || k >= tv.len() || tv[k] is Close {
        Seq::empty()
    } else {
        proof {
            lemma_node_end_bounds(tv, k);
        }
        let piece = match tv[k] {
            TokenV::Text(t) => t,
            TokenV::Element { name, .. } => if name == "br"@ {
                seq!['\n']
            } else {
                break_text(tv, k)
            },
            _ => Seq::empty(),
        };
        piece + break_children(tv, node_end(tv, k) + 1, stop)
    }
}

/// Whether the token at `i` is a `Close`.
pub fn close_at(toks: &Vec<HtmlToken>, i: usize) -> (b: bool)
    requires
        i < toks.len(),
    ensures
        b == (tokens_view(toks@)[i as int] is Close),
{
    match &toks[i] {
        HtmlToken::Close => true,
        _ => false,
    }
}

/// The text of the element opened at `i` with `<br>` as line breaks, lines trimmed and
/// blank lines dropped.
pub fn text_with_breaks(toks: &Vec<HtmlToken>, i: usize) -> (s: String)
    requires
        i < toks.len(),
    ensures
        s@ == break_text(tokens_view(toks@), i as int),
    decreases toks.len() + 1 - i, 1nat,
{
    let e = subtree_end(toks, i);
    let mut out = String::new();
    push_break_children(&mut out, toks, i + 1, e);
    assert(out@ =~= break_children(tokens_view(toks@), i + 1, e as int));
    tidy_lines_of(out.as_str())
}

/// Appends the contributions of the sibling nodes from position `k` up to `stop`.
fn push_break_children(out: &mut String, toks: &Vec<HtmlToken>, k: usize, stop: usize)
    requires
        0 < k <= stop <= toks.len(),
    ensures
        final(out)@ == old(out)@ + break_children(tokens_view(toks@), k as int, stop as int),
    decreases toks.len() + 1 - k, 2nat,
{
    let ghost tv = tokens_view(toks@);
    let mut j = k;
    while j < stop && !close_at(toks, j)
        invariant
            k <= j <= stop <= toks.len(),
            tv == tokens_view(toks@),
            old(out)@ + break_children(tv, k as int, stop as int) == out@ + break_children(
                tv,
                j as int,
                stop as int,
            ),
        decreases toks.len() + 1 - j,
    {
        proof {
            lemma_node_end_bounds(tv, j as int);
        }
        let ghost o = out@;
        match &toks[j] {
            HtmlToken::Text(t) => push_str(out, t.as_str()),
            HtmlToken::Element { name, .. } => {
                if str_eq(name.as_str(), "br") {
                    crate::text::push_char(out, '\n');
                } else {
                    let inner = text_with_breaks(toks, j);
                    push_str(out, inner.as_str());
                }
            },
            _ => {},
        }
        let e = subtree_end(toks, j);
        assert(out@ + break_children(tv, e + 1, stop as int) =~= o + break_children(
            tv,
            j as int,
            stop as int,
        ));
        if e >= stop {
            j = stop;
        } else {
            j = e + 1;
        }
    }
    proof {
        if j < stop {
            assert(tv[j as int] is Close);
        }
    }
    assert(out@ =~= old(out)@ + break_children(tv, k as int, stop as int));
}

} // verus!
