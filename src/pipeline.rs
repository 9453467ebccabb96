//! Coordination of a run: the ranking, the records resolved from it, and the
//! outcomes of their delivery.
use crate::caption::{build_caption, caption_text};
use crate::delivery::{DeliveryUnit, Failure, FittedMedia, Outcome, MAX_GROUP_SIZE};
use crate::fitting::{decodes_as_image, is_fit_of, resize_image, FitError, MAX_IMAGE_SIZE};
use crate::record::{Download, Record};
use vstd::prelude::*;

verus! {

/// One entry of the ranking: an illustration id and its place.
#[derive(Clone, Debug, PartialEq, Eq)]
pub struct RankEntry {
    pub id: String,
    pub rank: u32,
}

/// The ranking mode to ask for: the restricted feed or the general one.
pub fn ranking_mode(r18: bool) -> (r: &'static str)
    ensures
        r@ == if r18 {
            "daily_r18"@
        } else {
            "daily"@
        },
{
    if r18 {
        "daily_r18"
    } else {
        "daily"
    }
}

/// The entries of `pages`, page after page, each page in its own order.
pub open spec fn concat_pages(pages: Seq<Vec<RankEntry>>) -> Seq<RankEntry>
    decreases pages.len(),
{
    if pages.len() == 0 {
        Seq::empty()
    } else {
        concat_pages(pages.drop_last()) + pages.last()@
    }
}

/// Joins the fetched ranking pages into one ranking, in page order and
/// without removing repeated ids.
pub fn flatten_ranking(pages: Vec<Vec<RankEntry>>) -> (r: Vec<RankEntry>)
    ensures
        r@ == concat_pages(pages@),
{
    let ghost orig = pages@;
    let mut pages = pages;
    let mut out: Vec<RankEntry> = Vec::new();
    let mut i: usize = 0;
    let n = pages.len();
    assert(orig.take(0) =~= Seq::<Vec<RankEntry>>::empty());
    while pages.len() > 0
        invariant
            n == orig.len(),
            i + pages@.len() == n,
            pages@ == orig.subrange(i as int, n as int),
            out@ == concat_pages(orig.take(i as int)),
        decreases pages@.len(),
    {
        let mut page = pages.remove(0);
        assert(orig.take(i + 1).drop_last() =~= orig.take(i as int));
        out.append(&mut page);
        i = i + 1;
    }
    assert(orig.take(n as int) =~= orig);
    out
}

/// The records that resolved, in order.
pub open spec fn resolved_records(results: Seq<Result<Record, Failure>>) -> Seq<Record>
    decreases results.len(),
{
    if results.len() == 0 {
        Seq::empty()
    } else {
        match results.last() {
            Ok(rec) => resolved_records(results.drop_last()).push(rec),
            Err(_) => resolved_records(results.drop_last()),
        }
    }
}

/// The failures among resolution results, in order.
pub open spec fn resolution_failures(results: Seq<Result<Record, Failure>>) -> Seq<Failure>
    decreases results.len(),
{
    if results.len() == 0 {
        Seq::empty()
    } else {
        match results.last() {
            Ok(_) => resolution_failures(results.drop_last()),
            Err(f) => resolution_failures(results.drop_last()).push(f),
        }
    }
}

/// Sorts resolution results into the records to deliver and the failures to
/// report; one failure takes nothing from the others.
pub fn split_resolved(results: Vec<Result<Record, Failure>>) -> (r: (Vec<Record>, Vec<Failure>))
    ensures
        r.0@ == resolved_records(results@),
        r.1@ == resolution_failures(results@),
{
    let ghost orig = results@;
    let n = results.len();
    let mut results = results;
    let mut records: Vec<Record> = Vec::new();
    let mut failures: Vec<Failure> = Vec::new();
    let mut i: usize = 0;
    assert(orig.take(0) =~= Seq::<Result<Record, Failure>>::empty());
    while results.len() > 0
        invariant
            n == orig.len(),
            i + results@.len() == n,
            results@ == orig.subrange(i as int, n as int),
            records@ == resolved_records(orig.take(i as int)),
            failures@ == resolution_failures(orig.take(i as int)),
        decreases results@.len(),
    {
        let item = results.remove(0);
        assert(orig.take(i + 1).drop_last() =~= orig.take(i as int));
        match item {
            Ok(rec) => records.push(rec),
            Err(f) => failures.push(f),
        }
        i = i + 1;
    }
    assert(orig.take(n as int) =~= orig);
    (records, failures)
}

/// Every resolution result is either a record to deliver or a failure to
/// report.
pub proof fn lemma_split_accounts_for_all(results: Seq<Result<Record, Failure>>)
    ensures
        resolved_records(results).len() + resolution_failures(results).len() == results.len(),
    decreases results.len(),
{
    if results.len() > 0 {
        lemma_split_accounts_for_all(results.drop_last());
    }
}

/// The failures among delivery outcomes, in order.
pub open spec fn failed_outcomes(outcomes: Seq<Outcome>) -> Seq<Failure>
    decreases outcomes.len(),
{
    if outcomes.len() == 0 {
        Seq::empty()
    } else {
        match outcomes.last() {
            Outcome::Delivered { .. } => failed_outcomes(outcomes.drop_last()),
            Outcome::Failed(f) => failed_outcomes(outcomes.drop_last()).push(f),
        }
    }
}

/// The failures to report among delivery outcomes.
pub fn delivery_failures(outcomes: Vec<Outcome>) -> (r: Vec<Failure>)
    ensures
        r@ == failed_outcomes(outcomes@),
{
    let ghost orig = outcomes@;
    let n = outcomes.len();
    let mut outcomes = outcomes;
    let mut failures: Vec<Failure> = Vec::new();
    let mut i: usize = 0;
    assert(orig.take(0) =~= Seq::<Outcome>::empty());
    while outcomes.len() > 0
        invariant
            n == orig.len(),
            i + outcomes@.len() == n,
            outcomes@ == orig.subrange(i as int, n as int),
            failures@ == failed_outcomes(orig.take(i as int)),
        decreases outcomes@.len(),
    {
        let item = outcomes.remove(0);
        assert(orig.take(i + 1).drop_last() =~= orig.take(i as int));
        match item {
            Outcome::Delivered { .. } => {},
            Outcome::Failed(f) => failures.push(f),
        }
        i = i + 1;
    }
    assert(orig.take(n as int) =~= orig);
    failures
}

/// Fits the downloaded `bytes` of `target` at the size the target declares,
/// keeping which page they show.
pub fn fit_download(target: &Download, bytes: Vec<u8>) -> (r: Result<FittedMedia, FitError>)
    ensures
        bytes.len() <= MAX_IMAGE_SIZE ==> r is Ok,
        r matches Ok(m) ==> m.page_index == target.page_index && is_fit_of(
            bytes@,
            target.width as int,
            target.height as int,
            m.image,
        ),
        (r is Err && r->Err_0 is Decode) <==> (bytes.len() > MAX_IMAGE_SIZE && !decodes_as_image(
            bytes@,
        )),
{
    match resize_image(bytes, target.width, target.height) {
        Ok(image) => Ok(FittedMedia { image, page_index: target.page_index }),
        Err(e) => Err(e),
    }
}

/// Fits every downloaded image of a record, `downloads[i]` being the bytes of
/// `targets[i]`. A record is delivered whole or not at all: the first image
/// that cannot be fitted fails them all.
pub fn fit_all(targets: &Vec<Download>, downloads: Vec<Vec<u8>>) -> (r: Result<
    Vec<FittedMedia>,
    FitError,
>)
    requires
        targets@.len() == downloads@.len(),
    ensures
        (forall|i: int| 0 <= i < downloads@.len() ==> (#[trigger] downloads@[i]).len() <= MAX_IMAGE_SIZE)
            ==> r is Ok,
        r matches Ok(v) ==> {
            &&& v@.len() == targets@.len()
            &&& forall|i: int|
                0 <= i < v@.len() ==> (#[trigger] v@[i]).page_index == targets@[i].page_index
                    && is_fit_of(
                    downloads@[i]@,
                    targets@[i].width as int,
                    targets@[i].height as int,
                    v@[i].image,
                )
        },
        r matches Err(e) ==> exists|i: int|
            0 <= i < downloads@.len() && (#[trigger] downloads@[i]).len() > MAX_IMAGE_SIZE,
        (r is Err && r->Err_0 is Decode) ==> exists|i: int|
            0 <= i < downloads@.len() && !decodes_as_image(#[trigger] downloads@[i]@),
{
    let ghost orig = downloads@;
    let n = downloads.len();
    let mut rest = downloads;
    let mut out: Vec<FittedMedia> = Vec::new();
    let mut i: usize = 0;
    while rest.len() > 0
        invariant
            n == orig.len(),
            n == targets@.len(),
            orig == downloads@,
            i + rest@.len() == n,
            rest@ == orig.subrange(i as int, n as int),
            out@.len() == i,
            forall|j: int|
                0 <= j < i ==> (#[trigger] out@[j]).page_index == targets@[j].page_index
                    && is_fit_of(
                    orig[j]@,
                    targets@[j].width as int,
                    targets@[j].height as int,
                    out@[j].image,
                ),
        decreases rest@.len(),
    {
        let bytes = rest.remove(0);
        assert(bytes == orig[i as int]);
        match fit_download(&targets[i], bytes) {
            Ok(m) => out.push(m),
            Err(e) => {
                assert(orig[i as int].len() > MAX_IMAGE_SIZE);
                return Err(e);
            },
        }
        i = i + 1;
    }
    Ok(out)
}

/// The post for `record` with its fitted images: its caption, carried by the
/// first image. None when there are no images or more than a group holds.
pub fn unit_for(record: &Record, media: Vec<FittedMedia>) -> (r: Option<DeliveryUnit>)
    ensures
        r is Some <==> 1 <= media@.len() <= MAX_GROUP_SIZE,
        r matches Some(u) ==> u.wf() && u.spec_caption()@ == caption_text(*record)
            && u.spec_media() == media@,
{
    DeliveryUnit::new(build_caption(record), media)
}

} // verus!
