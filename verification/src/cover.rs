//! Choosing a book's cover: from the cover URL of the book page, from the first image
//! of the first volume, or from a local file.
use vstd::prelude::*;

use crate::error::Error;
use crate::model::Book;
use crate::package::string_views;
use crate::book::image_name;
use crate::text::{
    chars_of, decimal, has_char, is_digit, lemma_decimal_parses, lemma_decimal_shape,
    lemma_split_first, lemma_split_whole, parse_uint, parsed_uint, split_on, split_str, string_of,
};

verus! {

/// Where the cover comes from.
#[derive(Debug, Clone, Copy, PartialEq, Eq, Structural)]
pub enum CoverSource {
    /// Download the cover URL found on the book page.
    BookUrl,
    /// Use the first image of the first volume.
    FirstImage,
    /// Read `cover.jpg`, `cover.png` or a like file from the working directory.
    LocalFile,
}

/// The local files a cover is looked for in, by priority.
pub open spec fn local_cover_names() -> Seq<Seq<char>> {
    seq!["cover.jpg"@, "cover.jpeg"@, "cover.png"@, "cover.gif"@, "cover.webp"@, "cover.bmp"@]
}

/// The local files a cover is looked for in, by priority.
pub fn local_cover_files() -> (r: Vec<String>)
    ensures
        string_views(r@) == local_cover_names(),
{
    let r = vec![
        "cover.jpg".to_owned(),
        "cover.jpeg".to_owned(),
        "cover.png".to_owned(),
        "cover.gif".to_owned(),
        "cover.webp".to_owned(),
        "cover.bmp".to_owned(),
    ];
    assert(string_views(r@) =~= local_cover_names());
    r
}

/// `s` with every trailing `.jpg` removed, as `str::trim_end_matches(".jpg")` does.
pub open spec fn strip_jpg(s: Seq<char>) -> Seq<char>
    decreases s.len(),
{
    if s.len() >= 4 && s.subrange(s.len() - 4, s.len() as int) == seq!['.', 'j', 'p', 'g'] {
        strip_jpg(s.subrange(0, s.len() - 4))
    } else {
        s
    }
}

/// The pieces of `parts` that are numbers, as numbers, in order (those that
/// `str::parse::<usize>` accepts).
pub open spec fn numbers_in(parts: Seq<Seq<char>>) -> Seq<nat>
    decreases parts.len(),
{
    if parts.len() == 0 {
        Seq::empty()
    } else {
        numbers_in(parts.drop_last()) + match parsed_uint(parts.last(), usize::MAX as nat) {
            Some(n) => seq![n],
            None => Seq::empty(),
        }
    }
}

/// Element `i` of `s`, or 0 past its end.
pub open spec fn nth_or_zero(s: Seq<nat>, i: int) -> nat {
    if 0 <= i < s.len() {
        s[i]
    } else {
        0
    }
}

/// The sort key of an image file name `{volume}_{chapter}_{image}.jpg`: its first
/// three numbers, 0 for those missing, compared as numbers rather than as text.
pub open spec fn image_key(name: Seq<char>) -> (nat, nat, nat) {
    let nums = numbers_in(split_on(strip_jpg(name), seq!['_']));
    (nth_or_zero(nums, 0), nth_or_zero(nums, 1), nth_or_zero(nums, 2))
}

/// Whether key `a` comes strictly before key `b`.
pub open spec fn key_less(a: (nat, nat, nat), b: (nat, nat, nat)) -> bool {
    a.0 < b.0 || (a.0 == b.0 && (a.1 < b.1 || (a.1 == b.1 && a.2 < b.2)))
}

/// Whether `name` is an image of the first volume.
pub open spec fn in_first_volume(name: Seq<char>) -> bool {
    name.len() >= 2 && name[0] == '0' && name[1] == '_'
}

/// Scanning `names` from `k` on, with `best` the pick so far: the first image of the
/// first volume whose key no other such image's key comes before.
pub open spec fn first_image_from(names: Seq<Seq<char>>, k: int, best: Option<int>) -> Option<int>
    decreases names.len() - k,
{
    if k < 0 || k >= names.len() {
        best
    } else {
        let take = in_first_volume(names[k]) && match best {
            None => true,
            Some(b) => key_less(image_key(names[k]), image_key(names[b])),
        };
        first_image_from(names, k + 1, if take { Some(k) } else { best })
    }
}

/// The names of a list of downloaded images.
pub open spec fn downloaded_names(items: Seq<(String, Vec<u8>)>) -> Seq<Seq<char>> {
    items.map_values(|p: (String, Vec<u8>)| p.0@)
}

/// What getting the cover takes.
#[derive(Debug)]
pub enum CoverPlan {
    /// There is no cover to take.
    Skip,
    /// Download this URL; if the download fails there is no cover.
    Fetch(String),
    /// These bytes are the cover.
    Use(Vec<u8>),
    /// Read the first of these files that exists and can be read; if none can, there is
    /// no cover.
    ReadLocal(Vec<String>),
}

/// The sort key of the image file name `name`.
fn key_of(name: &str) -> (k: (u64, u64, u64))
    ensures
        k.0 as nat == image_key(name@).0,
        k.1 as nat == image_key(name@).1,
        k.2 as nat == image_key(name@).2,
{
    let v = chars_of(name);
    let mut end = v.len();
    assert(v@.subrange(0, end as int) =~= v@);
    while end >= 4 && v[end - 4] == '.' && v[end - 3] == 'j' && v[end - 2] == 'p' && v[end - 1] == 'g'
        invariant
            end <= v.len(),
            v@ == name@,
            strip_jpg(v@.subrange(0, end as int)) == strip_jpg(name@),
        decreases end,
    {
        assert(v@.subrange(0, end as int).subrange(end - 4, end as int) =~= seq!['.', 'j', 'p', 'g']);
        assert(v@.subrange(0, end as int).subrange(0, end - 4) =~= v@.subrange(0, end - 4));
        end -= 4;
    }
    let stem = string_of(&v, 0, end);
    proof {
        let s = v@.subrange(0, end as int);
        if s.len() >= 4 {
            assert(s.subrange(s.len() - 4, s.len() as int) != seq!['.', 'j', 'p', 'g']) by {
                if s.subrange(s.len() - 4, s.len() as int) == seq!['.', 'j', 'p', 'g'] {
                    assert(s.subrange(s.len() - 4, s.len() as int)[0] == v@[end - 4]);
                    assert(s.subrange(s.len() - 4, s.len() as int)[1] == v@[end - 3]);
                    assert(s.subrange(s.len() - 4, s.len() as int)[2] == v@[end - 2]);
                    assert(s.subrange(s.len() - 4, s.len() as int)[3] == v@[end - 1]);
                }
            }
        }
        assert(strip_jpg(s) == s);
    }
    let parts = split_str(stem.as_str(), "_");
    proof {
        reveal_strlit("_");
        assert("_"@ =~= seq!['_']);
    }
    let ghost ps = split_on(strip_jpg(name@), seq!['_']);
    assert(parts@.map_values(|p: String| p@) == ps);
    let mut nums: Vec<u64> = Vec::new();
    let mut i: usize = 0;
    while i < parts.len()
        invariant
            i <= parts.len(),
            parts@.map_values(|p: String| p@) == ps,
            nums@.map_values(|n: u64| n as nat) == numbers_in(ps.take(i as int)),
        decreases parts.len() - i,
    {
        let ghost before = nums@.map_values(|n: u64| n as nat);
        assert(ps.take(i + 1).drop_last() =~= ps.take(i as int));
        assert(ps.take(i + 1).last() == parts@[i as int]@);
        match parse_uint(parts[i].as_str(), usize::MAX as u64) {
            Some(n) => {
                nums.push(n);
                assert(nums@.map_values(|n: u64| n as nat) =~= before.push(n as nat));
            },
            None => {
                assert(nums@.map_values(|n: u64| n as nat) =~= before);
            },
        }
        i += 1;
    }
    assert(ps.take(i as int) =~= ps);
    let ghost ns = nums@.map_values(|n: u64| n as nat);
    let a = if nums.len() > 0 {
        nums[0]
    } else {
        0
    };
    let b = if nums.len() > 1 {
        nums[1]
    } else {
        0
    };
    let c = if nums.len() > 2 {
        nums[2]
    } else {
        0
    };
    assert(a as nat == nth_or_zero(ns, 0));
    assert(b as nat == nth_or_zero(ns, 1));
    assert(c as nat == nth_or_zero(ns, 2));
    (a, b, c)
}

/// Whether the name `name` starts with `0_`.
fn first_volume_name(name: &str) -> (b: bool)
    ensures
        b == in_first_volume(name@),
{
    let v = chars_of(name);
    v.len() >= 2 && v[0] == '0' && v[1] == '_'
}

/// The position of the cover among the downloaded images: of the images of the first
/// volume, the one with the smallest (volume, chapter, image) numbers, the earliest of
/// equal ones; `None` when the first volume has no image.
pub fn first_image(downloaded: &Vec<(String, Vec<u8>)>) -> (r: Option<usize>)
    ensures
        match r {
            Some(k) => first_image_from(downloaded_names(downloaded@), 0, None) == Some(k as int)
                && k < downloaded@.len(),
            None => first_image_from(downloaded_names(downloaded@), 0, None) is None,
        },
{
    let ghost names = downloaded_names(downloaded@);
    let mut best: Option<usize> = None;
    let mut best_key: (u64, u64, u64) = (0, 0, 0);
    let mut k: usize = 0;
    while k < downloaded.len()
        invariant
            k <= downloaded.len(),
            names == downloaded_names(downloaded@),
            first_image_from(names, 0, None) == first_image_from(
                names,
                k as int,
                match best {
                    Some(b) => Some(b as int),
                    None => None,
                },
            ),
            best matches Some(b) ==> b < k && best_key.0 as nat == image_key(names[b as int]).0
                && best_key.1 as nat == image_key(names[b as int]).1 && best_key.2 as nat
                == image_key(names[b as int]).2,
        decreases downloaded.len() - k,
    {
        let name = downloaded[k].0.as_str();
        assert(names[k as int] == name@);
        if first_volume_name(name) {
            let key = key_of(name);
            let better = match best {
                None => true,
                Some(_) => key.0 < best_key.0 || (key.0 == best_key.0 && (key.1 < best_key.1 || (
                key.1 == best_key.1 && key.2 < best_key.2))),
            };
            if better {
                best = Some(k);
                best_key = key;
            }
        }
        k += 1;
    }
    best
}

/// Decides how to get the cover with `source`: the book page's cover URL to download
/// (none when the page had none), the first image of the first volume among the
/// `downloaded` images (see [`first_image`]), or the local files to try.
pub fn plan_cover(book: &Book, downloaded: &Vec<(String, Vec<u8>)>, source: CoverSource) -> (p: CoverPlan)
    ensures
        source == CoverSource::BookUrl ==> match book.cover_url {
            Some(u) => p matches CoverPlan::Fetch(v) && v@ == u@,
            None => p is Skip,
        },
        source == CoverSource::FirstImage ==> match first_image_from(
            downloaded_names(downloaded@),
            0,
            None,
        ) {
            Some(k) => p matches CoverPlan::Use(b) && b@ == downloaded@[k].1@,
            None => p is Skip,
        },
        source == CoverSource::LocalFile ==> (p matches CoverPlan::ReadLocal(names) && string_views(
            names@,
        ) == local_cover_names()),
{
    match source {
        CoverSource::BookUrl => match &book.cover_url {
            Some(u) => CoverPlan::Fetch(u.clone()),
            None => CoverPlan::Skip,
        },
        CoverSource::FirstImage => match first_image(downloaded) {
            Some(k) => CoverPlan::Use(downloaded[k].1.clone()),
            None => CoverPlan::Skip,
        },
        CoverSource::LocalFile => CoverPlan::ReadLocal(local_cover_files()),
    }
}


// ---------------------------------------------------------------------------
// Laws
// ---------------------------------------------------------------------------

/// Whether image `b` of `names` comes first among the first-volume images before `k`:
/// its key is smaller than each other's, or equal and `b` is earlier.
pub open spec fn least_so_far(names: Seq<Seq<char>>, k: int, best: Option<int>) -> bool {
    match best {
        None => forall|j: int| 0 <= j < k ==> !in_first_volume(#[trigger] names[j]),
        Some(b) => {
            &&& 0 <= b < k
            &&& in_first_volume(names[b])
            &&& forall|j: int|
                0 <= j < k && j != b && in_first_volume(#[trigger] names[j]) ==> key_less(
                    image_key(names[b]),
                    image_key(names[j]),
                ) || (image_key(names[j]) == image_key(names[b]) && b < j)
        },
    }
}

/// Scanning keeps [`least_so_far`] up to the end.
proof fn lemma_first_image_scan(names: Seq<Seq<char>>, k: int, best: Option<int>)
    requires
        0 <= k <= names.len(),
        least_so_far(names, k, best),
    ensures
        least_so_far(names, names.len() as int, first_image_from(names, k, best)),
    decreases names.len() - k,
{
    if k < names.len() {
        let take = in_first_volume(names[k]) && match best {
            None => true,
            Some(b) => key_less(image_key(names[k]), image_key(names[b])),
        };
        let next = if take {
            Some(k)
        } else {
            best
        };
        assert(least_so_far(names, k + 1, next));
        lemma_first_image_scan(names, k + 1, next);
    }
}

/// The cover taken from the downloaded images is the first-volume image with the
/// smallest (volume, chapter, image) numbers, compared as numbers, the earliest of equal
/// ones; when no image is taken, the first volume has none.
pub proof fn law_first_image_is_least(names: Seq<Seq<char>>)
    ensures
        first_image_from(names, 0, None) matches Some(k) ==> {
            &&& 0 <= k < names.len()
            &&& in_first_volume(names[k])
            &&& forall|j: int|
                0 <= j < names.len() && j != k && in_first_volume(#[trigger] names[j]) ==> key_less(
                    image_key(names[k]),
                    image_key(names[j]),
                ) || (image_key(names[j]) == image_key(names[k]) && k < j)
        },
        first_image_from(names, 0, None) is None ==> forall|j: int|
            0 <= j < names.len() ==> !in_first_volume(#[trigger] names[j]),
{
    lemma_first_image_scan(names, 0, None);
}


/// A decimal notation holds no `_`.
proof fn lemma_decimal_no_underscore(n: nat)
    ensures
        !has_char(decimal(n), '_'),
{
    lemma_decimal_shape(n);
    if has_char(decimal(n), '_') {
        let i = choose|i: int| 0 <= i < decimal(n).len() && decimal(n)[i] == '_';
        assert(is_digit(decimal(n)[i]));
    }
}

/// The numbers of the file name that image naming gives image `j` of chapter `ci` of
/// volume `vi` are `(vi, ci, j)`, so the cover order compares images by volume, chapter
/// and place as numbers; and such a name is a first-volume name exactly when `vi` is 0.
pub proof fn law_image_key_of_image_name(vi: nat, ci: nat, j: nat)
    requires
        vi <= usize::MAX,
        ci <= usize::MAX,
        j <= usize::MAX,
    ensures
        image_key(image_name(vi, ci, j)) == (vi, ci, j),
        in_first_volume(image_name(vi, ci, j)) == (vi == 0),
{
    reveal_strlit("_");
    reveal_strlit(".jpg");
    let a = decimal(vi);
    let b = decimal(ci);
    let c = decimal(j);
    let u = seq!['_'];
    let jpg = seq!['.', 'j', 'p', 'g'];
    let stem = a + u + b + u + c;
    let name = image_name(vi, ci, j);
    assert(name =~= stem + jpg);
    lemma_decimal_shape(vi);
    lemma_decimal_shape(ci);
    lemma_decimal_shape(j);
    // Only the one `.jpg` is stripped: the stem ends with a digit.
    assert(name.subrange(name.len() - 4, name.len() as int) =~= jpg);
    assert(name.subrange(0, name.len() - 4) =~= stem);
    assert(stem.last() == c.last());
    assert(is_digit(c[c.len() - 1]));
    if stem.len() >= 4 {
        assert(stem.subrange(stem.len() - 4, stem.len() as int)[3] == stem.last());
    }
    assert(strip_jpg(stem) == stem);
    assert(strip_jpg(name) == stem);
    // The stem splits into the three numbers.
    lemma_decimal_no_underscore(vi);
    lemma_decimal_no_underscore(ci);
    lemma_decimal_no_underscore(j);
    assert(stem =~= a + u + (b + u + c));
    lemma_split_first(a, b + u + c, '_');
    lemma_split_first(b, c, '_');
    lemma_split_whole(c, '_');
    let parts = split_on(stem, u);
    assert(parts =~= seq![a, b, c]);
    lemma_decimal_parses(vi, usize::MAX as nat);
    lemma_decimal_parses(ci, usize::MAX as nat);
    lemma_decimal_parses(j, usize::MAX as nat);
    assert(parts.drop_last() =~= seq![a, b]);
    assert(parts.drop_last().drop_last() =~= seq![a]);
    assert(parts.drop_last().drop_last().drop_last() =~= Seq::<Seq<char>>::empty());
    let nums = numbers_in(parts);
    assert(seq![a].drop_last() =~= Seq::<Seq<char>>::empty());
    assert(seq![a].last() == a);
    assert(numbers_in(Seq::<Seq<char>>::empty()) =~= Seq::<nat>::empty());
    assert(numbers_in(seq![a]) =~= seq![vi]);
    assert(seq![a, b].drop_last() =~= seq![a]);
    assert(seq![a, b].last() == b);
    assert(numbers_in(seq![a, b]) =~= seq![vi, ci]);
    assert(parts.last() == c);
    assert(nums =~= seq![vi, ci, j]);
    // The first-volume test looks at the first two characters.
    assert(name[0] == a[0]);
    if vi == 0 {
        assert(a =~= seq!['0']);
        assert(name[1] == '_');
    }
}


/// Different images get different file names: no two (volume, chapter, image) triples
/// share a name, so no downloaded image overwrites another.
pub proof fn law_image_names_distinct(vi1: nat, ci1: nat, j1: nat, vi2: nat, ci2: nat, j2: nat)
    requires
        vi1 <= usize::MAX && ci1 <= usize::MAX && j1 <= usize::MAX,
        vi2 <= usize::MAX && ci2 <= usize::MAX && j2 <= usize::MAX,
        (vi1, ci1, j1) != (vi2, ci2, j2),
    ensures
        image_name(vi1, ci1, j1) != image_name(vi2, ci2, j2),
{
    law_image_key_of_image_name(vi1, ci1, j1);
    law_image_key_of_image_name(vi2, ci2, j2);
}

/// The cover that fetching the book page's cover URL gives: its bytes, or none when the
/// fetch failed, and the book goes without a cover.
pub fn fetched_cover(fetched: Result<Vec<u8>, Error>) -> (c: Option<Vec<u8>>)
    ensures
        match fetched {
            Ok(b) => c == Some(b),
            Err(_) => c is None,
        },
{
    match fetched {
        Ok(b) => Some(b),
        Err(_) => None,
    }
}

} // verus!
