//! The bookkeeping of the standalone downloader's run: the table-of-contents link, the
//! summary event, the pages and images of a chapter, and cancellation.
use vstd::prelude::*;

use crate::book::{chapter_count, named_images, pair_views};
use crate::html::document_tokens;
use crate::package::string_views;
use crate::standalone::error::DownloadError;
use crate::standalone::event::Event;
use crate::standalone::model::{distinct_names, image_names_of, volumes_of, Book};
use crate::standalone::parser::{chapter_page_read, parse_chapter};

verus! {

/// The table-of-contents URL found on the book page; `NotFound` when there is none.
pub fn toc_link(book: &Book) -> (res: Result<String, DownloadError>)
    ensures
        match book.toc_url {
            Some(t) => res matches Ok(u) && u@ == t@,
            None => res matches Err(DownloadError::NotFound(m)) && m@ == "未找到目录链接"@,
        },
{
    match &book.toc_url {
        Some(t) => Ok(t.clone()),
        None => Err(DownloadError::NotFound("未找到目录链接".to_owned())),
    }
}

/// The event that reports the table of contents: how many volumes and chapters it has.
pub fn toc_summary(book: &Book) -> (ev: Event)
    requires
        chapter_count(volumes_of(book.volumes@)) <= usize::MAX,
    ensures
        ev matches Event::ParseTocDone { volumes, chapters } && volumes == book.volumes@.len()
            && chapters == chapter_count(volumes_of(book.volumes@)),
{
    let ghost all = volumes_of(book.volumes@);
    let mut total: usize = 0;
    let mut i: usize = 0;
    while i < book.volumes.len()
        invariant
            i <= book.volumes.len(),
            all == volumes_of(book.volumes@),
            chapter_count(all) <= usize::MAX,
            total == chapter_count(all.take(i as int)),
        decreases book.volumes.len() - i,
    {
        assert(all.take(i + 1).drop_last() =~= all.take(i as int));
        assert(all.take(i + 1).last().chapters.len() == book.volumes@[i as int].chapters@.len());
        proof {
            crate::book::lemma_chapter_count_prefix(all, i + 1);
        }
        total = total + book.volumes[i].chapters.len();
        i += 1;
    }
    assert(all.take(i as int) =~= all);
    Event::ParseTocDone { volumes: book.volumes.len(), chapters: total }
}

/// Fails with `Cancelled` when the user has asked to stop.
pub fn check_cancelled(cancelled: bool) -> (res: Result<(), DownloadError>)
    ensures
        cancelled ==> res matches Err(DownloadError::Cancelled),
        !cancelled ==> res is Ok,
{
    if cancelled {
        Err(DownloadError::Cancelled)
    } else {
        Ok(())
    }
}

/// Reads a downloaded chapter page of chapter `ci` of volume `vi`: its paragraphs and its
/// images, each named after the chapter and its order (see [`parse_chapter`]).
pub fn chapter_plan(html: &str, url: &str, vi: usize, ci: usize) -> (res: Result<(Vec<String>, Vec<(String, String)>), DownloadError>)
    ensures
        res matches Ok(r) ==> exists|urls: Vec<String>|
            #![trigger string_views(urls@)]
            chapter_page_read(document_tokens(html@), url@, Ok((r.0, urls))) && pair_views(r.1@)
                == named_images(vi as nat, ci as nat, string_views(urls@)),
        res matches Err(e) ==> chapter_page_read(document_tokens(html@), url@, Err(e)),
{
    match parse_chapter(html, url) {
        Ok((paragraphs, urls)) => {
            let imgs = crate::book::image_entries(vi, ci, &urls);
            Ok((paragraphs, imgs))
        },
        Err(e) => Err(e),
    }
}

/// Stores the page of chapter `ci` of volume `vi`; nothing happens when there is no such
/// chapter.
pub fn store_page(book: &mut Book, vi: usize, ci: usize, xhtml: String)
    ensures
        final(book).title == old(book).title,
        final(book).author == old(book).author,
        final(book).intro == old(book).intro,
        final(book).cover == old(book).cover,
        final(book).toc_url == old(book).toc_url,
        final(book).images == old(book).images,
        volumes_of(final(book).volumes@) == volumes_of(old(book).volumes@),
        final(book).volumes@.len() == old(book).volumes@.len(),
        forall|i: int, j: int|
            0 <= i < old(book).volumes@.len() && 0 <= j < old(book).volumes@[i].chapters@.len()
                ==> final(book).volumes@[i].chapters@.len() == old(book).volumes@[i].chapters@.len()
                && (#[trigger] final(book).volumes@[i].chapters@[j]).xhtml == if i == vi && j == ci {
                Some(xhtml)
            } else {
                old(book).volumes@[i].chapters@[j].xhtml
            },
{
    if vi < book.volumes.len() && ci < book.volumes[vi].chapters.len() {
        let ghost old_vols = book.volumes@;
        let mut vol = book.volumes.remove(vi);
        let mut ch = vol.chapters.remove(ci);
        ch.xhtml = Some(xhtml);
        vol.chapters.insert(ci, ch);
        book.volumes.insert(vi, vol);
        proof {
            assert forall|i: int, j: int|
                0 <= i < old_vols.len() && 0 <= j < old_vols[i].chapters@.len() implies book.volumes@[i].chapters@.len()
                == old_vols[i].chapters@.len() && (#[trigger] book.volumes@[i].chapters@[j]).xhtml
                == if i == vi && j == ci {
                Some(xhtml)
            } else {
                old_vols[i].chapters@[j].xhtml
            } by {
                if i != vi {
                    assert(book.volumes@[i] == old_vols[i]);
                }
            }
            assert(book.volumes@[vi as int].chapters@.map_values(|c: crate::standalone::model::Chapter| c@)
                =~= old_vols[vi as int].chapters@.map_values(|c: crate::standalone::model::Chapter| c@));
            assert(volumes_of(book.volumes@) =~= volumes_of(old_vols));
        }
    }
}

/// Adds a downloaded image under `name`, replacing an image of the same name.
pub fn add_image(book: &mut Book, name: String, bytes: Vec<u8>)
    requires
        distinct_names(old(book).images@),
    ensures
        distinct_names(final(book).images@),
        final(book).title == old(book).title,
        final(book).author == old(book).author,
        final(book).intro == old(book).intro,
        final(book).cover == old(book).cover,
        final(book).toc_url == old(book).toc_url,
        final(book).volumes == old(book).volumes,
        image_names_of(final(book).images@).to_set() == image_names_of(old(book).images@).to_set().insert(name@),
        forall|k: int|
            0 <= k < final(book).images@.len() ==> (#[trigger] final(book).images@[k]).0@ == name@
                ==> final(book).images@[k].1@ == bytes@,
        forall|k: int|
            0 <= k < old(book).images@.len() && (#[trigger] old(book).images@[k]).0@ != name@
                ==> final(book).images@.contains(old(book).images@[k]),
{
    let ghost old_imgs = book.images@;
    let mut k: usize = 0;
    while k < book.images.len()
        invariant
            k <= book.images.len(),
            book.images@ == old_imgs,
            old_imgs == old(book).images@,
            distinct_names(old_imgs),
            book.title == old(book).title,
            book.author == old(book).author,
            book.intro == old(book).intro,
            book.cover == old(book).cover,
            book.toc_url == old(book).toc_url,
            book.volumes == old(book).volumes,
            forall|j: int| 0 <= j < k ==> (#[trigger] old_imgs[j]).0@ != name@,
        decreases book.images.len() - k,
    {
        if crate::html::str_eq(book.images[k].0.as_str(), name.as_str()) {
            book.images.set(k, (name, bytes));
            proof {
                assert(image_names_of(book.images@) =~= image_names_of(old_imgs));
                assert(image_names_of(old_imgs)[k as int] == name@);
                assert(image_names_of(old_imgs).to_set().insert(name@) =~= image_names_of(old_imgs).to_set());
                assert forall|j: int| 0 <= j < old_imgs.len() && (#[trigger] old_imgs[j]).0@ != name@
                    implies book.images@.contains(old_imgs[j]) by {
                    assert(book.images@[j] == old_imgs[j]);
                }
                assert forall|a: int, b: int| 0 <= a < b < book.images@.len() implies #[trigger] book.images@[a].0@ != #[trigger] book.images@[b].0@ by {
                    assert(image_names_of(book.images@)[a] == image_names_of(old_imgs)[a]);
                    assert(image_names_of(book.images@)[b] == image_names_of(old_imgs)[b]);
                }
                assert forall|j: int| 0 <= j < book.images@.len() && (#[trigger] book.images@[j]).0@ == name@
                    implies book.images@[j].1@ == bytes@ by {
                    if j != k {
                        assert(old_imgs[j].0@ == name@);
                    }
                }
            }
            return;
        }
        k += 1;
    }
    let ghost nm = name@;
    let ghost bv = bytes@;
    book.images.push((name, bytes));
    proof {
        assert(image_names_of(book.images@) =~= image_names_of(old_imgs).push(nm));
        assert(image_names_of(old_imgs).push(nm).to_set() =~= image_names_of(old_imgs).to_set().insert(nm)) by {
            image_names_of(old_imgs).lemma_push_to_set_commute(nm);
        }
        assert forall|j: int| 0 <= j < old_imgs.len() && (#[trigger] old_imgs[j]).0@ != nm
            implies book.images@.contains(old_imgs[j]) by {
            assert(book.images@[j] == old_imgs[j]);
        }
        assert forall|j: int| 0 <= j < book.images@.len() && (#[trigger] book.images@[j]).0@ == nm
            implies book.images@[j].1@ == bv by {
            if j < old_imgs.len() {
                assert(old_imgs[j].0@ != nm);
            }
        }
    }
}

} // verus!
