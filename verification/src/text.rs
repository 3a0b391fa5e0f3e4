//! Character-level string utilities with exact specifications.
//!
//! Strings are specified through their character sequences (`s@`).
use vstd::prelude::*;

verus! {

// ---------------------------------------------------------------------------
// Specifications
// ---------------------------------------------------------------------------

/// Unicode `White_Space`, the set that `char::is_whitespace` and `str::trim` use.
pub open spec fn is_ws(c: char) -> bool {
    let u = c as u32;
    ||| 0x09 <= u <= 0x0D
    ||| u == 0x20
    ||| u == 0x85
    ||| u == 0xA0
    ||| u == 0x1680
    ||| 0x2000 <= u <= 0x200A
    ||| u == 0x2028
    ||| u == 0x2029
    ||| u == 0x202F
    ||| u == 0x205F
    ||| u == 0x3000
}

/// `s` without its leading whitespace.
pub open spec fn trim_start(s: Seq<char>) -> Seq<char>
    decreases s.len(),
{
    if s.len() > 0 && is_ws(s[0]) {
        trim_start(s.subrange(1, s.len() as int))
    } else {
        s
    }
}

/// `s` without its trailing whitespace.
pub open spec fn trim_end(s: Seq<char>) -> Seq<char>
    decreases s.len(),
{
    if s.len() > 0 && is_ws(s.last()) {
        trim_end(s.drop_last())
    } else {
        s
    }
}

/// `s` without leading and trailing whitespace (`str::trim`).
pub open spec fn trimmed(s: Seq<char>) -> Seq<char> {
    trim_end(trim_start(s))
}

/// The XML escape of one character.
pub open spec fn xml_escape_char(c: char) -> Seq<char> {
    if c == '&' {
        "&amp;"@
    } else if c == '<' {
        "&lt;"@
    } else if c == '>' {
        "&gt;"@
    } else if c == '"' {
        "&quot;"@
    } else if c == '\'' {
        "&apos;"@
    } else {
        seq![c]
    }
}

/// Every character of `s` replaced by its XML escape.
pub open spec fn xml_escaped(s: Seq<char>) -> Seq<char>
    decreases s.len(),
{
    if s.len() == 0 {
        Seq::empty()
    } else {
        xml_escaped(s.drop_last()) + xml_escape_char(s.last())
    }
}

/// The attribute-value escape of one character (only `&` and `"`).
pub open spec fn attr_escape_char(c: char) -> Seq<char> {
    if c == '&' {
        "&amp;"@
    } else if c == '"' {
        "&quot;"@
    } else {
        seq![c]
    }
}

/// Every character of `s` replaced by its attribute-value escape.
pub open spec fn attr_escaped(s: Seq<char>) -> Seq<char>
    decreases s.len(),
{
    if s.len() == 0 {
        Seq::empty()
    } else {
        attr_escaped(s.drop_last()) + attr_escape_char(s.last())
    }
}

/// Characters that cannot stand in a file name.
pub open spec fn is_forbidden_in_filename(c: char) -> bool {
    c == '<' || c == '>' || c == ':' || c == '"' || c == '/' || c == '\\' || c == '|' || c
        == '?' || c == '*'
}

/// Each forbidden file-name character replaced by `_`.
pub open spec fn filename_chars(s: Seq<char>) -> Seq<char> {
    s.map_values(|c: char| if is_forbidden_in_filename(c) { '_' } else { c })
}

/// The decimal digit character of `d < 10`.
pub open spec fn digit_char(d: nat) -> char {
    if d == 0 {
        '0'
    } else if d == 1 {
        '1'
    } else if d == 2 {
        '2'
    } else if d == 3 {
        '3'
    } else if d == 4 {
        '4'
    } else if d == 5 {
        '5'
    } else if d == 6 {
        '6'
    } else if d == 7 {
        '7'
    } else if d == 8 {
        '8'
    } else {
        '9'
    }
}

/// The decimal notation of `n`, without sign or leading zeros (`n.to_string()`).
pub open spec fn decimal(n: nat) -> Seq<char>
    decreases n,
{
    if n < 10 {
        seq![digit_char(n)]
    } else {
        decimal(n / 10).push(digit_char(n % 10))
    }
}

/// Whether `c` is an ASCII decimal digit.
pub open spec fn is_digit(c: char) -> bool {
    48 <= (c as u32) <= 57
}

/// The value of the decimal digit `c`.
pub open spec fn digit_value(c: char) -> nat {
    ((c as u32) - 48) as nat
}

/// The value of a string of decimal digits.
pub open spec fn digits_value(s: Seq<char>) -> nat
    decreases s.len(),
{
    if s.len() == 0 {
        0
    } else {
        digits_value(s.drop_last()) * 10 + digit_value(s.last())
    }
}

/// The digits part of a number: `s` without one leading `+`.
pub open spec fn uint_body(s: Seq<char>) -> Seq<char> {
    if s.len() > 0 && s[0] == '+' {
        s.subrange(1, s.len() as int)
    } else {
        s
    }
}

/// What `str::parse` gives for an unsigned integer type whose largest value is `max`:
/// an optional `+` followed by one or more ASCII digits whose value fits.
pub open spec fn parsed_uint(s: Seq<char>, max: nat) -> Option<nat> {
    let body = uint_body(s);
    if body.len() == 0 || !(forall|i: int| 0 <= i < body.len() ==> is_digit(#[trigger] body[i])) {
        None
    } else if digits_value(body) <= max {
        Some(digits_value(body))
    } else {
        None
    }
}

/// Whether `pat` occurs in `s` at position `i`.
pub open spec fn occurs_at(s: Seq<char>, pat: Seq<char>, i: int) -> bool {
    0 <= i && i + pat.len() <= s.len() && s.subrange(i, i + pat.len()) == pat
}

/// Whether `pat` occurs in `s` (`str::contains`).
pub open spec fn contains_seq(s: Seq<char>, pat: Seq<char>) -> bool {
    exists|i: int| occurs_at(s, pat, i)
}

/// The position of the first occurrence of `pat` in `s` (`str::find`).
#[verifier::opaque]
pub open spec fn first_occurrence(s: Seq<char>, pat: Seq<char>) -> Option<int> {
    if contains_seq(s, pat) {
        Some(
            choose|i: int|
                occurs_at(s, pat, i) && forall|j: int| 0 <= j < i ==> !occurs_at(s, pat, j),
        )
    } else {
        None
    }
}

/// The pieces of `s` between the occurrences of `sep`, scanning from the left (`str::split`).
#[verifier::opaque]
pub open spec fn split_on(s: Seq<char>, sep: Seq<char>) -> Seq<Seq<char>>
    decreases s.len(),
{
    if sep.len() == 0 {
        seq![s]
    } else {
        match first_occurrence(s, sep) {
            Some(i) => if 0 <= i && i + sep.len() <= s.len() {
                seq![s.subrange(0, i)] + split_on(s.subrange(i + sep.len(), s.len() as int), sep)
            } else {
                seq![s]
            },
            None => seq![s],
        }
    }
}

/// The elements of `parts` joined with `sep` between them.
pub open spec fn joined(parts: Seq<Seq<char>>, sep: Seq<char>) -> Seq<char>
    decreases parts.len(),
{
    if parts.len() == 0 {
        Seq::empty()
    } else if parts.len() == 1 {
        parts[0]
    } else {
        joined(parts.drop_last(), sep) + sep + parts.last()
    }
}

/// The lines of `s`, each trimmed, empty ones dropped, joined with `\n`
/// (`s.lines().map(str::trim).filter(|l| !l.is_empty()).collect::<Vec<_>>().join("\n")`).
pub open spec fn tidy_lines(s: Seq<char>) -> Seq<char> {
    joined(
        split_on(s, seq!['\n']).map_values(|l: Seq<char>| trimmed(l)).filter(
            |l: Seq<char>| l.len() > 0,
        ),
        seq!['\n'],
    )
}

// ---------------------------------------------------------------------------
// Trusted std operations
// ---------------------------------------------------------------------------

/// Appends one character to a `String` (std `String::push`); the contract states
/// that the character sequence grows by exactly that character.
#[verifier::external_body]
pub(crate) fn push_char(s: &mut String, c: char)
    ensures
        final(s)@ == old(s)@.push(c),
{
    s.push(c);
}

// ---------------------------------------------------------------------------
// Executable functions
// ---------------------------------------------------------------------------

/// Appends a string slice to a `String`.
pub fn push_str(s: &mut String, t: &str)
    ensures
        final(s)@ == old(s)@ + t@,
{
    s.append(t);
}

/// The characters of a string slice, in order.
pub fn chars_of(s: &str) -> (res: Vec<char>)
    ensures
        res@ == s@,
{
    let mut res: Vec<char> = Vec::new();
    for c in it: s.chars()
        invariant
            res@ == it.seq().take(it.index() as int),
            it.seq() == s@,
    {
        res.push(c);
    }
    res
}

/// The string made of `v[lo..hi]`.
pub fn string_of(v: &Vec<char>, lo: usize, hi: usize) -> (res: String)
    requires
        lo <= hi <= v.len(),
    ensures
        res@ == v@.subrange(lo as int, hi as int),
{
    let mut res = String::new();
    let mut i = lo;
    while i < hi
        invariant
            lo <= i <= hi <= v.len(),
            res@ == v@.subrange(lo as int, i as int),
        decreases hi - i,
    {
        push_char(&mut res, v[i]);
        i += 1;
        assert(res@ =~= v@.subrange(lo as int, i as int));
    }
    res
}

/// Whether `c` is whitespace (`char::is_whitespace`).
pub fn is_whitespace(c: char) -> (b: bool)
    ensures
        b == is_ws(c),
{
    let u = c as u32;
    (0x09 <= u && u <= 0x0D) || u == 0x20 || u == 0x85 || u == 0xA0 || u == 0x1680 || (0x2000
        <= u && u <= 0x200A) || u == 0x2028 || u == 0x2029 || u == 0x202F || u == 0x205F || u
        == 0x3000
}

/// The bounds `lo..hi` of `v[from..to]` without its leading and trailing whitespace.
pub fn trim_bounds(v: &Vec<char>, from: usize, to: usize) -> (r: (usize, usize))
    requires
        from <= to <= v.len(),
    ensures
        from <= r.0 <= r.1 <= to,
        v@.subrange(r.0 as int, r.1 as int) == trimmed(v@.subrange(from as int, to as int)),
{
    let ghost s = v@.subrange(from as int, to as int);
    let mut lo = from;
    while lo < to && is_whitespace(v[lo])
        invariant
            from <= lo <= to <= v.len(),
            trim_start(s) == trim_start(v@.subrange(lo as int, to as int)),
        decreases to - lo,
    {
        assert(v@.subrange(lo as int, to as int).subrange(1, (to - lo) as int) =~= v@.subrange(
            lo + 1,
            to as int,
        ));
        lo += 1;
    }
    assert(trim_start(s) == v@.subrange(lo as int, to as int));
    let mut hi = to;
    while hi > lo && is_whitespace(v[hi - 1])
        invariant
            from <= lo <= hi <= to <= v.len(),
            trim_end(trim_start(s)) == trim_end(v@.subrange(lo as int, hi as int)),
        decreases hi - lo,
    {
        assert(v@.subrange(lo as int, hi as int).drop_last() =~= v@.subrange(
            lo as int,
            hi - 1,
        ));
        hi -= 1;
    }
    (lo, hi)
}

/// `s` without leading and trailing whitespace (`str::trim`).
pub fn trim(s: &str) -> (res: String)
    ensures
        res@ == trimmed(s@),
{
    let v = chars_of(s);
    assert(v@.subrange(0, v@.len() as int) =~= v@);
    let (lo, hi) = trim_bounds(&v, 0, v.len());
    string_of(&v, lo, hi)
}

/// Appends the XML escape of `s` to `out`.
pub fn push_xml_escaped(out: &mut String, s: &str)
    ensures
        final(out)@ == old(out)@ + xml_escaped(s@),
{
    let v = chars_of(s);
    let mut i: usize = 0;
    while i < v.len()
        invariant
            i <= v.len(),
            v@ == s@,
            out@ == old(out)@ + xml_escaped(v@.subrange(0, i as int)),
        decreases v.len() - i,
    {
        let c = v[i];
        let ghost before = out@;
        if c == '&' {
            push_str(out, "&amp;");
        } else if c == '<' {
            push_str(out, "&lt;");
        } else if c == '>' {
            push_str(out, "&gt;");
        } else if c == '"' {
            push_str(out, "&quot;");
        } else if c == '\'' {
            push_str(out, "&apos;");
        } else {
            push_char(out, c);
        }
        assert(v@.subrange(0, i + 1).drop_last() =~= v@.subrange(0, i as int));
        assert(out@ =~= before + xml_escape_char(c));
        i += 1;
    }
    assert(v@.subrange(0, i as int) =~= s@);
}

/// Appends the attribute-value escape of `s` to `out`.
pub fn push_attr_escaped(out: &mut String, s: &str)
    ensures
        final(out)@ == old(out)@ + attr_escaped(s@),
{
    let v = chars_of(s);
    let mut i: usize = 0;
    while i < v.len()
        invariant
            i <= v.len(),
            v@ == s@,
            out@ == old(out)@ + attr_escaped(v@.subrange(0, i as int)),
        decreases v.len() - i,
    {
        let c = v[i];
        let ghost before = out@;
        if c == '&' {
            push_str(out, "&amp;");
        } else if c == '"' {
            push_str(out, "&quot;");
        } else {
            push_char(out, c);
        }
        assert(v@.subrange(0, i + 1).drop_last() =~= v@.subrange(0, i as int));
        assert(out@ =~= before + attr_escape_char(c));
        i += 1;
    }
    assert(v@.subrange(0, i as int) =~= s@);
}

/// The decimal digit character of `d < 10`.
pub fn digit(d: usize) -> (c: char)
    requires
        d < 10,
    ensures
        c == digit_char(d as nat),
{
    if d == 0 {
        '0'
    } else if d == 1 {
        '1'
    } else if d == 2 {
        '2'
    } else if d == 3 {
        '3'
    } else if d == 4 {
        '4'
    } else if d == 5 {
        '5'
    } else if d == 6 {
        '6'
    } else if d == 7 {
        '7'
    } else if d == 8 {
        '8'
    } else {
        '9'
    }
}

/// Appends the decimal notation of `n` to `out`.
pub fn push_decimal(out: &mut String, n: usize)
    ensures
        final(out)@ == old(out)@ + decimal(n as nat),
    decreases n,
{
    if n >= 10 {
        push_decimal(out, n / 10);
    }
    push_char(out, digit(n % 10));
    assert(out@ =~= old(out)@ + decimal(n as nat));
}

/// The decimal notation of `n` (`n.to_string()`).
pub fn decimal_string(n: usize) -> (res: String)
    ensures
        res@ == decimal(n as nat),
{
    let mut res = String::new();
    push_decimal(&mut res, n);
    assert(res@ =~= decimal(n as nat));
    res
}

/// A longer digit string never has a smaller value than its prefix.
pub proof fn lemma_digits_value_prefix(s: Seq<char>, k: int)
    requires
        0 <= k <= s.len(),
    ensures
        digits_value(s.take(k)) <= digits_value(s),
    decreases s.len(),
{
    if k < s.len() {
        assert(s.drop_last().take(k) =~= s.take(k));
        lemma_digits_value_prefix(s.drop_last(), k);
    } else {
        assert(s.take(k) =~= s);
    }
}

/// A number whose digits part has a non-digit does not parse.
proof fn lemma_parse_nondigit(s: Seq<char>, max: nat, k: int)
    requires
        0 <= k < uint_body(s).len(),
        !is_digit(uint_body(s)[k]),
    ensures
        parsed_uint(s, max) is None,
{
}

/// A number whose digits part starts with a too large value does not parse.
proof fn lemma_parse_too_big(s: Seq<char>, max: nat, k: int)
    requires
        0 <= k <= uint_body(s).len(),
        digits_value(uint_body(s).take(k)) > max,
    ensures
        parsed_uint(s, max) is None,
{
    lemma_digits_value_prefix(uint_body(s), k);
}

/// The unsigned integer written in `v[lo..hi]`, if it is at most `max` (`str::parse`).
pub fn parse_uint_chars(v: &Vec<char>, lo: usize, hi: usize, max: u64) -> (res: Option<u64>)
    requires
        lo <= hi <= v.len(),
    ensures
        res matches Some(n) ==> parsed_uint(v@.subrange(lo as int, hi as int), max as nat) == Some(
            n as nat,
        ),
        res is None ==> parsed_uint(v@.subrange(lo as int, hi as int), max as nat) is None,
{
    let ghost s = v@.subrange(lo as int, hi as int);
    let start = if lo < hi && v[lo] == '+' {
        lo + 1
    } else {
        lo
    };
    let ghost body = uint_body(s);
    assert(body =~= v@.subrange(start as int, hi as int));
    if start == hi {
        return None;
    }
    let mut acc: u64 = 0;
    let mut i = start;
    while i < hi
        invariant
            lo <= start <= i <= hi <= v.len(),
            s == v@.subrange(lo as int, hi as int),
            body == uint_body(s),
            body == v@.subrange(start as int, hi as int),
            acc as nat == digits_value(body.take(i - start)),
            acc <= max,
            forall|k: int| 0 <= k < i - start ==> is_digit(#[trigger] body[k]),
        decreases hi - i,
    {
        let c = v[i];
        let u = c as u32;
        assert(body[i - start] == c);
        if u < 48 || u > 57 {
            proof {
                lemma_parse_nondigit(s, max as nat, i - start);
            }
            return None;
        }
        let d = (u - 48) as u64;
        assert(body.take(i - start + 1).drop_last() =~= body.take(i - start));
        let next: u128 = (acc as u128) * 10 + (d as u128);
        assert(next == digits_value(body.take(i - start + 1)));
        if next > max as u128 {
            proof {
                lemma_parse_too_big(s, max as nat, i - start + 1);
            }
            return None;
        }
        acc = next as u64;
        i += 1;
    }
    assert(body.take(i - start) =~= body);
    Some(acc)
}

/// The unsigned integer written in `s`, if it is at most `max` (`str::parse`).
pub fn parse_uint(s: &str, max: u64) -> (res: Option<u64>)
    ensures
        res matches Some(n) ==> parsed_uint(s@, max as nat) == Some(n as nat),
        res is None ==> parsed_uint(s@, max as nat) is None,
{
    let v = chars_of(s);
    assert(v@.subrange(0, v@.len() as int) =~= s@);
    parse_uint_chars(&v, 0, v.len(), max)
}

/// Whether `pat` occurs in `v` at position `i`.
pub fn occurs_at_exec(v: &Vec<char>, pat: &Vec<char>, i: usize) -> (b: bool)
    ensures
        b == occurs_at(v@, pat@, i as int),
{
    if i > v.len() || pat.len() > v.len() - i {
        return false;
    }
    let mut k: usize = 0;
    while k < pat.len()
        invariant
            i + pat.len() <= v.len(),
            k <= pat.len(),
            forall|j: int| 0 <= j < k ==> v@[i + j] == pat@[j],
        decreases pat.len() - k,
    {
        if v[i + k] != pat[k] {
            assert(v@.subrange(i as int, i + pat.len())[k as int] != pat@[k as int]);
            return false;
        }
        k += 1;
    }
    assert(v@.subrange(i as int, i + pat.len()) =~= pat@);
    true
}

/// If `pat` occurs at `i` and nowhere before, `i` is its first occurrence.
proof fn lemma_first_occurrence(s: Seq<char>, pat: Seq<char>, i: int)
    requires
        occurs_at(s, pat, i),
        forall|j: int| 0 <= j < i ==> !occurs_at(s, pat, j),
    ensures
        first_occurrence(s, pat) == Some(i),
{
    reveal(first_occurrence);
    assert(contains_seq(s, pat));
    let c = choose|j: int| occurs_at(s, pat, j) && forall|k: int| 0 <= k < j ==> !occurs_at(s, pat, k);
    assert(occurs_at(s, pat, c) && forall|k: int| 0 <= k < c ==> !occurs_at(s, pat, k));
    assert(c == i);
}

/// If `pat` occurs at no position up to `s.len()`, it does not occur in `s`.
proof fn lemma_no_occurrence(s: Seq<char>, pat: Seq<char>)
    requires
        forall|j: int| 0 <= j <= s.len() ==> !occurs_at(s, pat, j),
    ensures
        first_occurrence(s, pat) is None,
{
    reveal(first_occurrence);
    assert(!contains_seq(s, pat)) by {
        if contains_seq(s, pat) {
            let j = choose|j: int| occurs_at(s, pat, j);
            assert(!occurs_at(s, pat, j));
        }
    }
}

/// Occurrence in a suffix of `v` is occurrence in `v`, shifted.
proof fn lemma_occurs_shift(v: Seq<char>, pat: Seq<char>, from: int, i: int)
    requires
        0 <= from <= i,
        from <= v.len(),
    ensures
        occurs_at(v.subrange(from, v.len() as int), pat, i - from) == occurs_at(v, pat, i),
{
    let s = v.subrange(from, v.len() as int);
    if i + pat.len() <= v.len() {
        assert(s.subrange(i - from, i - from + pat.len()) =~= v.subrange(i, i + pat.len()));
    }
}

/// The first position at or after `from` where `pat` occurs in `v`.
pub fn find_from(v: &Vec<char>, pat: &Vec<char>, from: usize) -> (r: Option<usize>)
    requires
        from <= v.len(),
    ensures
        match r {
            Some(k) => from <= k && first_occurrence(v@.subrange(from as int, v@.len() as int), pat@)
                == Some(k - from),
            None => first_occurrence(v@.subrange(from as int, v@.len() as int), pat@) is None,
        },
{
    let ghost s = v@.subrange(from as int, v@.len() as int);
    let mut i = from;
    loop
        invariant
            from <= i <= v.len(),
            s == v@.subrange(from as int, v@.len() as int),
            forall|j: int| 0 <= j < i - from ==> !occurs_at(s, pat@, j),
        decreases v.len() - i,
    {
        let hit = occurs_at_exec(v, pat, i);
        proof {
            lemma_occurs_shift(v@, pat@, from as int, i as int);
        }
        if hit {
            proof {
                lemma_first_occurrence(s, pat@, i - from);
            }
            return Some(i);
        }
        if i == v.len() {
            proof {
                lemma_no_occurrence(s, pat@);
            }
            return None;
        }
        i += 1;
    }
}

/// Whether `pat` occurs in `s` (`str::contains`).
pub fn contains_str(s: &str, pat: &str) -> (b: bool)
    ensures
        b == contains_seq(s@, pat@),
{
    let v = chars_of(s);
    let p = chars_of(pat);
    assert(v@.subrange(0, v@.len() as int) =~= v@);
    let r = find_from(&v, &p, 0);
    proof {
        reveal(first_occurrence);
    }
    r.is_some()
}

/// The first occurrence lies inside the sequence.
proof fn lemma_first_occurrence_bounds(s: Seq<char>, pat: Seq<char>)
    ensures
        first_occurrence(s, pat) matches Some(i) ==> occurs_at(s, pat, i),
{
    reveal(first_occurrence);
    if contains_seq(s, pat) {
        let c = choose|j: int| occurs_at(s, pat, j) && forall|k: int| 0 <= k < j ==> !occurs_at(s, pat, k);
        let w = choose|j: int| occurs_at(s, pat, j);
        lemma_least_occurrence(s, pat, w);
    }
}

/// A character absent before position `from` is not found before it.
pub proof fn lemma_first_char_from(s: Seq<char>, c: char, from: int)
    requires
        0 <= from,
        forall|j: int| 0 <= j < from && j < s.len() ==> s[j] != c,
    ensures
        first_occurrence(s, seq![c]) matches Some(k) ==> k >= from,
    decreases s.len() - from,
{
    if from >= s.len() {
        assert forall|j: int| 0 <= j <= s.len() implies !occurs_at(s, seq![c], j) by {
            if occurs_at(s, seq![c], j) {
                assert(s[j] == s.subrange(j, j + 1)[0]);
            }
        }
        lemma_no_occurrence(s, seq![c]);
    } else if s[from] == c {
        lemma_first_char_at(s, c, from);
    } else {
        lemma_first_char_from(s, c, from + 1);
    }
}

/// A character found at `i` with none before is its first occurrence.
pub proof fn lemma_first_char_at(s: Seq<char>, c: char, i: int)
    requires
        0 <= i < s.len(),
        s[i] == c,
        forall|j: int| 0 <= j < i ==> s[j] != c,
    ensures
        first_occurrence(s, seq![c]) == Some(i),
{
    assert(s.subrange(i, i + 1) =~= seq![c]);
    assert forall|j: int| 0 <= j < i implies !occurs_at(s, seq![c], j) by {
        if occurs_at(s, seq![c], j) {
            assert(s[j] == s.subrange(j, j + 1)[0]);
        }
    }
    lemma_first_occurrence(s, seq![c], i);
}

/// The first occurrence of `pat`, when there is one, is an occurrence.
pub proof fn lemma_first_occurrence_in(s: Seq<char>, pat: Seq<char>)
    ensures
        first_occurrence(s, pat) matches Some(i) ==> occurs_at(s, pat, i),
{
    lemma_first_occurrence_bounds(s, pat);
}

/// If `pat` occurs somewhere, it has a leftmost occurrence.
proof fn lemma_least_occurrence(s: Seq<char>, pat: Seq<char>, w: int)
    requires
        occurs_at(s, pat, w),
    ensures
        exists|j: int| occurs_at(s, pat, j) && forall|k: int| 0 <= k < j ==> !occurs_at(s, pat, k),
    decreases w,
{
    if exists|k: int| 0 <= k < w && occurs_at(s, pat, k) {
        let k = choose|k: int| 0 <= k < w && occurs_at(s, pat, k);
        lemma_least_occurrence(s, pat, k);
    } else {
        assert(forall|k: int| 0 <= k < w ==> !occurs_at(s, pat, k));
    }
}

/// One step of splitting: the piece before the first separator, then the rest.
proof fn lemma_split_step(v: Seq<char>, sep: Seq<char>, pos: int, k: int)
    requires
        0 <= pos <= k,
        k + sep.len() <= v.len(),
        sep.len() > 0,
        first_occurrence(v.subrange(pos, v.len() as int), sep) == Some(k - pos),
    ensures
        split_on(v.subrange(pos, v.len() as int), sep) == seq![v.subrange(pos, k)] + split_on(
            v.subrange(k + sep.len(), v.len() as int),
            sep,
        ),
{
    reveal(split_on);
    let rest = v.subrange(pos, v.len() as int);
    assert(rest.subrange(0, k - pos) =~= v.subrange(pos, k));
    assert(rest.subrange(k - pos + sep.len(), rest.len() as int) =~= v.subrange(
        k + sep.len(),
        v.len() as int,
    ));
}

/// Without a separator occurrence, splitting gives the whole sequence.
proof fn lemma_split_none(s: Seq<char>, sep: Seq<char>)
    requires
        first_occurrence(s, sep) is None || sep.len() == 0,
    ensures
        split_on(s, sep) == seq![s],
{
    reveal(split_on);
}

/// The pieces of `s` between the occurrences of `sep` (`str::split`).
pub fn split_str(s: &str, sep: &str) -> (res: Vec<String>)
    ensures
        res@.map_values(|p: String| p@) == split_on(s@, sep@),
{
    let v = chars_of(s);
    let p = chars_of(sep);
    let mut res: Vec<String> = Vec::new();
    assert(v@.subrange(0, v@.len() as int) =~= s@);
    if p.len() == 0 {
        res.push(string_of(&v, 0, v.len()));
        proof {
            lemma_split_none(s@, sep@);
        }
        assert(res@.map_values(|p: String| p@) =~= split_on(s@, sep@));
        return res;
    }
    let ghost mut acc: Seq<Seq<char>> = Seq::empty();
    let mut pos: usize = 0;
    loop
        invariant
            pos <= v.len(),
            v@ == s@,
            p@ == sep@,
            p@.len() > 0,
            res@.len() == acc.len(),
            forall|i: int| 0 <= i < acc.len() ==> #[trigger] res@[i]@ == acc[i],
            acc + split_on(v@.subrange(pos as int, v@.len() as int), p@) == split_on(s@, sep@),
        decreases v.len() - pos,
    {
        let ghost rest = v@.subrange(pos as int, v@.len() as int);
        match find_from(&v, &p, pos) {
            Some(k) => {
                proof {
                    lemma_first_occurrence_bounds(rest, p@);
                    lemma_split_step(v@, p@, pos as int, k as int);
                }
                let piece = string_of(&v, pos, k);
                res.push(piece);
                proof {
                    assert(acc.push(piece@) + split_on(
                        v@.subrange(k + p@.len(), v@.len() as int),
                        p@,
                    ) =~= acc + split_on(rest, p@));
                    acc = acc.push(piece@);
                }
                pos = k + p.len();
            },
            None => {
                let piece = string_of(&v, pos, v.len());
                res.push(piece);
                proof {
                    lemma_split_none(rest, p@);
                    acc = acc.push(piece@);
                }
                assert(res@.map_values(|q: String| q@) =~= split_on(s@, sep@));
                return res;
            },
        }
    }
}

/// The elements of `parts` joined with `sep` between them (`[String]::join`).
pub fn join_strings(parts: &Vec<String>, sep: &str) -> (res: String)
    ensures
        res@ == joined(parts@.map_values(|p: String| p@), sep@),
{
    let ghost views = parts@.map_values(|p: String| p@);
    let mut res = String::new();
    let mut i: usize = 0;
    while i < parts.len()
        invariant
            i <= parts.len(),
            views == parts@.map_values(|p: String| p@),
            res@ == joined(views.take(i as int), sep@),
        decreases parts.len() - i,
    {
        assert(views.take(i + 1).drop_last() =~= views.take(i as int));
        if i > 0 {
            push_str(&mut res, sep);
        }
        push_str(&mut res, parts[i].as_str());
        proof {
            if i == 0 {
                assert(res@ =~= joined(views.take(1), sep@));
            }
        }
        i += 1;
    }
    assert(views.take(i as int) =~= views);
    res
}

/// `s` with each line trimmed, empty lines dropped, the rest joined with `\n`.
pub fn tidy_lines_of(s: &str) -> (res: String)
    ensures
        res@ == tidy_lines(s@),
{
    let parts = split_str(s, "\n");
    let ghost pieces = split_on(s@, seq!['\n']);
    proof {
        reveal_strlit("\n");
        assert("\n"@ =~= seq!['\n']);
    }
    let ghost trim_fn = |l: Seq<char>| trimmed(l);
    let ghost keep = |l: Seq<char>| l.len() > 0;
    let mut kept: Vec<String> = Vec::new();
    let mut i: usize = 0;
    while i < parts.len()
        invariant
            i <= parts.len(),
            parts@.map_values(|p: String| p@) == pieces,
            pieces == split_on(s@, seq!['\n']),
            trim_fn == (|l: Seq<char>| trimmed(l)),
            keep == (|l: Seq<char>| l.len() > 0),
            kept@.map_values(|p: String| p@) == pieces.take(i as int).map_values(trim_fn).filter(
                keep,
            ),
        decreases parts.len() - i,
    {
        let t = trim(parts[i].as_str());
        let ghost before = kept@.map_values(|p: String| p@);
        proof {
            assert(pieces.take(i + 1).map_values(trim_fn) =~= pieces.take(i as int).map_values(
                trim_fn,
            ).push(t@));
            pieces.take(i as int).map_values(trim_fn).lemma_filter_push(t@, keep);
        }
        if !t.as_str().is_empty() {
            kept.push(t);
            assert(kept@.map_values(|p: String| p@) =~= before.push(t@));
        }
        i += 1;
    }
    assert(pieces.take(i as int) =~= pieces);
    join_strings(&kept, "\n")
}

/// Appends the decimal notation of `n` to `out`.
pub fn push_decimal_wide(out: &mut String, n: u128)
    ensures
        final(out)@ == old(out)@ + decimal(n as nat),
    decreases n,
{
    if n >= 10 {
        push_decimal_wide(out, n / 10);
    }
    push_char(out, digit((n % 10) as usize));
    assert(out@ =~= old(out)@ + decimal(n as nat));
}

/// The UTF-8 encoding of `s`.
pub fn utf8_of(s: &str) -> (res: Vec<u8>)
    ensures
        res@ == vstd::utf8::encode_utf8(s@),
{
    vstd::slice::slice_to_vec(s.as_bytes())
}


// ---------------------------------------------------------------------------
// Laws
// ---------------------------------------------------------------------------

/// XML escaping leaves no markup: its output holds no `<`, `>`, `"` or `'`.
pub proof fn law_escaped_has_no_markup(s: Seq<char>)
    ensures
        forall|i: int|
            0 <= i < xml_escaped(s).len() ==> {
                let c = #[trigger] xml_escaped(s)[i];
                c != '<' && c != '>' && c != '"' && c != '\''
            },
    decreases s.len(),
{
    reveal_strlit("&amp;");
    reveal_strlit("&lt;");
    reveal_strlit("&gt;");
    reveal_strlit("&quot;");
    reveal_strlit("&apos;");
    if s.len() > 0 {
        law_escaped_has_no_markup(s.drop_last());
        let p = xml_escaped(s.drop_last());
        let e = xml_escape_char(s.last());
        assert forall|i: int| 0 <= i < xml_escaped(s).len() implies {
            let c = #[trigger] xml_escaped(s)[i];
            c != '<' && c != '>' && c != '"' && c != '\''
        } by {
            if i < p.len() {
                assert(xml_escaped(s)[i] == p[i]);
            } else {
                assert(xml_escaped(s)[i] == e[i - p.len()]);
            }
        }
    }
}

/// Trimming keeps a stretch of the string: what is left is `s[lo..hi]` for some bounds.
pub proof fn lemma_trimmed_is_infix(s: Seq<char>)
    ensures
        exists|lo: int, hi: int|
            0 <= lo <= hi <= s.len() && #[trigger] s.subrange(lo, hi) == trimmed(s),
    decreases s.len(),
{
    lemma_trim_start_is_suffix(s);
    let t = trim_start(s);
    let lo = choose|lo: int| 0 <= lo <= s.len() && #[trigger] s.subrange(lo, s.len() as int) == t;
    lemma_trim_end_is_prefix(t);
    let hi = choose|hi: int| 0 <= hi <= t.len() && #[trigger] t.subrange(0, hi) == trim_end(t);
    assert(s.subrange(lo, lo + hi) =~= t.subrange(0, hi));
}

/// Trimming the start leaves a suffix.
proof fn lemma_trim_start_is_suffix(s: Seq<char>)
    ensures
        exists|lo: int| 0 <= lo <= s.len() && #[trigger] s.subrange(lo, s.len() as int) == trim_start(s),
    decreases s.len(),
{
    if s.len() > 0 && is_ws(s[0]) {
        let r = s.subrange(1, s.len() as int);
        lemma_trim_start_is_suffix(r);
        let lo = choose|lo: int| 0 <= lo <= r.len() && #[trigger] r.subrange(lo, r.len() as int) == trim_start(r);
        assert(s.subrange(lo + 1, s.len() as int) =~= r.subrange(lo, r.len() as int));
    } else {
        assert(s.subrange(0, s.len() as int) =~= s);
    }
}

/// Trimming the end leaves a prefix.
proof fn lemma_trim_end_is_prefix(s: Seq<char>)
    ensures
        exists|hi: int| 0 <= hi <= s.len() && #[trigger] s.subrange(0, hi) == trim_end(s),
    decreases s.len(),
{
    if s.len() > 0 && is_ws(s.last()) {
        let r = s.drop_last();
        lemma_trim_end_is_prefix(r);
        let hi = choose|hi: int| 0 <= hi <= r.len() && #[trigger] r.subrange(0, hi) == trim_end(r);
        assert(s.subrange(0, hi) =~= r.subrange(0, hi));
    } else {
        assert(s.subrange(0, s.len() as int) =~= s);
    }
}

/// What is left after trimming the start is empty or starts with a non-blank.
proof fn lemma_trim_start_edge(s: Seq<char>)
    ensures
        trim_start(s).len() > 0 ==> !is_ws(trim_start(s)[0]),
    decreases s.len(),
{
    if s.len() > 0 && is_ws(s[0]) {
        lemma_trim_start_edge(s.subrange(1, s.len() as int));
    }
}

/// What is left after trimming the end is empty or ends with a non-blank.
proof fn lemma_trim_end_edge(s: Seq<char>)
    ensures
        trim_end(s).len() > 0 ==> !is_ws(trim_end(s).last()),
    decreases s.len(),
{
    if s.len() > 0 && is_ws(s.last()) {
        lemma_trim_end_edge(s.drop_last());
    }
}

/// Trimming twice is trimming once.
pub proof fn lemma_trimmed_idempotent(s: Seq<char>)
    ensures
        trimmed(trimmed(s)) == trimmed(s),
{
    let u = trim_start(s);
    let t = trim_end(u);
    lemma_trim_start_edge(s);
    lemma_trim_end_edge(u);
    lemma_trim_end_is_prefix(u);
    let hi = choose|hi: int| 0 <= hi <= u.len() && #[trigger] u.subrange(0, hi) == trim_end(u);
    if t.len() > 0 {
        assert(t[0] == u[0]);
        assert(trim_start(t) == t);
        assert(trim_end(t) == t);
    } else {
        assert(trim_start(t) == t);
        assert(trim_end(t) == t);
    }
}

/// Sanitizing a sanitized file name changes nothing.
pub proof fn law_sanitize_idempotent(title: Seq<char>)
    ensures
        trimmed(filename_chars(trimmed(filename_chars(title)))) == trimmed(filename_chars(title)),
{
    let r = trimmed(filename_chars(title));
    law_sanitized_name_is_safe(title);
    assert(filename_chars(r) =~= r);
    lemma_trimmed_idempotent(filename_chars(title));
}

/// A sanitized file name holds none of the characters file names cannot hold.
pub proof fn law_sanitized_name_is_safe(title: Seq<char>)
    ensures
        forall|i: int|
            0 <= i < trimmed(filename_chars(title)).len() ==> !is_forbidden_in_filename(
                #[trigger] trimmed(filename_chars(title))[i],
            ),
{
    let f = filename_chars(title);
    lemma_trimmed_is_infix(f);
    let (lo, hi) = choose|lo: int, hi: int|
        0 <= lo <= hi <= f.len() && #[trigger] f.subrange(lo, hi) == trimmed(f);
    assert forall|i: int| 0 <= i < trimmed(f).len() implies !is_forbidden_in_filename(
        #[trigger] trimmed(f)[i],
    ) by {
        assert(trimmed(f)[i] == f[lo + i]);
    }
}


/// The decimal notation of `n` is a non-empty string of digits, starting with `0` only
/// for 0, whose value is `n`.
pub proof fn lemma_decimal_shape(n: nat)
    ensures
        decimal(n).len() >= 1,
        forall|i: int| 0 <= i < decimal(n).len() ==> is_digit(#[trigger] decimal(n)[i]),
        (decimal(n)[0] == '0') == (n == 0),
        digits_value(decimal(n)) == n,
    decreases n,
{
    if n < 10 {
        let d = decimal(n);
        assert(d =~= seq![digit_char(n)]);
        assert(d.drop_last() =~= Seq::<char>::empty());
        assert(is_digit(digit_char(n)) && digit_value(digit_char(n)) == n);
        assert(d.last() == digit_char(n));
        assert(digits_value(d.drop_last()) == 0);
        assert(digits_value(d) == digits_value(d.drop_last()) * 10 + digit_value(d.last()));
    } else {
        lemma_decimal_shape(n / 10);
        let d = decimal(n);
        let p = decimal(n / 10);
        let c = digit_char(n % 10);
        assert(d == p.push(c));
        assert(d.drop_last() =~= p);
        assert(is_digit(c) && digit_value(c) == n % 10);
        assert(forall|i: int| 0 <= i < d.len() ==> is_digit(#[trigger] d[i])) by {
            assert forall|i: int| 0 <= i < d.len() implies is_digit(#[trigger] d[i]) by {
                if i < p.len() {
                    assert(d[i] == p[i]);
                }
            }
        }
        assert(d[0] == p[0]);
        assert(d.last() == c);
        assert(digits_value(d) == digits_value(d.drop_last()) * 10 + digit_value(d.last()));
        assert(digits_value(d) == digits_value(p) * 10 + n % 10);
        assert((n / 10) * 10 + n % 10 == n);
    }
}

/// The decimal notation of `n` parses back to `n` when `n` fits.
pub proof fn lemma_decimal_parses(n: nat, max: nat)
    requires
        n <= max,
    ensures
        parsed_uint(decimal(n), max) == Some(n),
{
    lemma_decimal_shape(n);
    assert(decimal(n)[0] != '+');
    assert(uint_body(decimal(n)) == decimal(n));
}

/// Whether `s` holds the character `c`.
pub open spec fn has_char(s: Seq<char>, c: char) -> bool {
    exists|i: int| 0 <= i < s.len() && s[i] == c
}

/// Splitting at the first separator: when `a` holds no `sep`, what precedes `sep` is the
/// first piece.
pub proof fn lemma_split_first(a: Seq<char>, rest: Seq<char>, sep: char)
    requires
        !has_char(a, sep),
    ensures
        split_on(a + seq![sep] + rest, seq![sep]) == seq![a] + split_on(rest, seq![sep]),
{
    let s = a + seq![sep] + rest;
    let pat = seq![sep];
    assert(s.subrange(a.len() as int, a.len() + 1int) =~= pat);
    assert forall|j: int| 0 <= j < a.len() implies !occurs_at(s, pat, j) by {
        if occurs_at(s, pat, j) {
            assert(s.subrange(j, j + 1)[0] == s[j]);
            assert(s[j] == a[j]);
        }
    }
    lemma_first_occurrence(s, pat, a.len() as int);
    reveal(split_on);
    assert(s.subrange(0, a.len() as int) =~= a);
    assert(s.subrange(a.len() + 1int, s.len() as int) =~= rest);
}

/// A string without the separator splits into itself alone.
pub proof fn lemma_split_whole(a: Seq<char>, sep: char)
    requires
        !has_char(a, sep),
    ensures
        split_on(a, seq![sep]) == seq![a],
{
    let pat = seq![sep];
    assert forall|j: int| 0 <= j <= a.len() implies !occurs_at(a, pat, j) by {
        if occurs_at(a, pat, j) {
            assert(a.subrange(j, j + 1)[0] == a[j]);
        }
    }
    lemma_no_occurrence(a, pat);
    lemma_split_none(a, pat);
}


/// Attribute escaping leaves no `"` that could end the attribute value.
pub proof fn law_attr_escaped_has_no_quote(s: Seq<char>)
    ensures
        forall|i: int| 0 <= i < attr_escaped(s).len() ==> #[trigger] attr_escaped(s)[i] != '"',
    decreases s.len(),
{
    reveal_strlit("&amp;");
    reveal_strlit("&quot;");
    if s.len() > 0 {
        law_attr_escaped_has_no_quote(s.drop_last());
        let p = attr_escaped(s.drop_last());
        let e = attr_escape_char(s.last());
        assert forall|i: int| 0 <= i < attr_escaped(s).len() implies #[trigger] attr_escaped(s)[i]
            != '"' by {
            if i < p.len() {
                assert(attr_escaped(s)[i] == p[i]);
            } else {
                assert(attr_escaped(s)[i] == e[i - p.len()]);
            }
        }
    }
}

// ---------------------------------------------------------------------------
// Occurrences in concatenations
// ---------------------------------------------------------------------------

/// `p` occurs in any text that has it in the middle.
pub proof fn lemma_contains_middle(a: Seq<char>, p: Seq<char>, b: Seq<char>)
    ensures
        contains_seq(a + p + b, p),
{
    assert((a + p + b).subrange(a.len() as int, (a.len() + p.len()) as int) =~= p);
    assert(occurs_at(a + p + b, p, a.len() as int));
}

/// What occurs in `s` occurs in any text around `s`.
pub proof fn lemma_contains_within(s: Seq<char>, p: Seq<char>, a: Seq<char>, b: Seq<char>)
    requires
        contains_seq(s, p),
    ensures
        contains_seq(a + s + b, p),
{
    let i = choose|i: int| occurs_at(s, p, i);
    assert((a + s + b).subrange(a.len() + i, a.len() + i + p.len()) =~= s.subrange(
        i,
        i + p.len(),
    ));
    assert(occurs_at(a + s + b, p, a.len() + i));
}

/// What occurs in a part of `s` occurs in `s`.
pub proof fn lemma_contains_trans(s: Seq<char>, q: Seq<char>, p: Seq<char>)
    requires
        contains_seq(s, q),
        contains_seq(q, p),
    ensures
        contains_seq(s, p),
{
    let i = choose|i: int| occurs_at(s, q, i);
    let k = choose|k: int| occurs_at(q, p, k);
    assert(s.subrange(i + k, i + k + p.len()) =~= q.subrange(k, k + p.len()));
    assert(occurs_at(s, p, i + k));
}

/// What occurs in `s` occurs in `a + s`.
pub proof fn lemma_contains_after(s: Seq<char>, p: Seq<char>, a: Seq<char>)
    requires
        contains_seq(s, p),
    ensures
        contains_seq(a + s, p),
{
    lemma_contains_within(s, p, a, Seq::empty());
    assert(a + s + Seq::<char>::empty() =~= a + s);
}

/// What occurs in `s` occurs in `s + b`.
pub proof fn lemma_contains_before(s: Seq<char>, p: Seq<char>, b: Seq<char>)
    requires
        contains_seq(s, p),
    ensures
        contains_seq(s + b, p),
{
    lemma_contains_within(s, p, Seq::empty(), b);
    assert(Seq::<char>::empty() + s + b =~= s + b);
}

/// Whether XML escaping leaves `c` as it is.
pub open spec fn xml_plain(c: char) -> bool {
    c != '&' && c != '<' && c != '>' && c != '"' && c != '\''
}

/// A text made of two texts without markup characters has none either.
pub proof fn lemma_plain_concat(a: Seq<char>, b: Seq<char>)
    requires
        forall|i: int| 0 <= i < a.len() ==> xml_plain(#[trigger] a[i]),
        forall|i: int| 0 <= i < b.len() ==> xml_plain(#[trigger] b[i]),
    ensures
        forall|i: int| 0 <= i < (a + b).len() ==> xml_plain(#[trigger] (a + b)[i]),
{
    assert forall|i: int| 0 <= i < (a + b).len() implies xml_plain(#[trigger] (a + b)[i]) by {
        if i < a.len() {
            assert((a + b)[i] == a[i]);
        } else {
            assert((a + b)[i] == b[i - a.len()]);
        }
    }
}

/// XML escaping leaves a text without markup characters as it is.
pub proof fn lemma_escape_plain(s: Seq<char>)
    requires
        forall|i: int| 0 <= i < s.len() ==> xml_plain(#[trigger] s[i]),
    ensures
        xml_escaped(s) == s,
    decreases s.len(),
{
    if s.len() > 0 {
        lemma_escape_plain(s.drop_last());
        assert(xml_escape_char(s.last()) == seq![s.last()]);
        assert(s.drop_last().push(s.last()) =~= s);
    }
}

/// Decimal notation holds no markup characters.
pub proof fn lemma_decimal_plain(n: nat)
    ensures
        forall|i: int| 0 <= i < decimal(n).len() ==> xml_plain(#[trigger] decimal(n)[i]),
{
    lemma_decimal_shape(n);
}

} // verus!
