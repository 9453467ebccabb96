use pixivdaily::caption::build_caption;
use pixivdaily::delivery::{Failure, FittedMedia, Outcome};
use pixivdaily::fitting::{FitError, Fitted, MAX_IMAGE_SIZE};
use pixivdaily::pipeline::{
    delivery_failures, fit_all, fit_download, flatten_ranking, ranking_mode, split_resolved, unit_for,
    RankEntry,
};
use pixivdaily::record::{Download, Images, RawDetails, RawPage, RawPageSize, Record};
use pixivdaily::Config;

fn entry(id: &str, rank: u32) -> RankEntry {
    RankEntry { id: id.to_string(), rank }
}

fn record(id: &str) -> Record {
    Record {
        id: id.to_string(),
        title: "t".to_string(),
        author_id: "1".to_string(),
        author_name: "a".to_string(),
        tags: vec![],
        referer: "r".to_string(),
        images: Images::Single { url: "u".to_string(), width: 1, height: 1 },
    }
}

#[test]
fn config_keeps_its_values() {
    let config = Config::new("SECRET-REDACTED".to_string(), -100123, 2, true);
    assert_eq!(config.token(), "SECRET-REDACTED");
    assert_eq!(config.chat_id(), -100123);
    assert_eq!(config.pages(), 2);
    assert!(config.r18());
}

#[test]
fn ranking_modes() {
    assert_eq!(ranking_mode(false), "daily");
    assert_eq!(ranking_mode(true), "daily_r18");
}

#[test]
fn ranking_pages_are_joined_in_order() {
    let pages = vec![vec![entry("1", 1), entry("2", 2)], vec![], vec![entry("3", 3), entry("1", 4)]];
    let flat = flatten_ranking(pages);
    assert_eq!(flat, vec![entry("1", 1), entry("2", 2), entry("3", 3), entry("1", 4)]);
    assert_eq!(flatten_ranking(vec![]), vec![]);
}

#[test]
fn one_failed_resolution_leaves_the_others() {
    let results: Vec<Result<Record, Failure>> = vec![
        Ok(record("1")),
        Ok(record("2")),
        Err(Failure { record_id: "3".to_string(), cause: "timed out".to_string() }),
        Ok(record("4")),
        Ok(record("5")),
    ];
    let (records, failures) = split_resolved(results);
    let ids: Vec<&str> = records.iter().map(|r| r.id.as_str()).collect();
    assert_eq!(ids, vec!["1", "2", "4", "5"]);
    assert_eq!(failures, vec![Failure { record_id: "3".to_string(), cause: "timed out".to_string() }]);
}

#[test]
fn failed_deliveries_are_reported() {
    let outcomes = vec![
        Outcome::Delivered { record_id: "1".to_string() },
        Outcome::Failed(Failure { record_id: "2".to_string(), cause: "c2".to_string() }),
        Outcome::Delivered { record_id: "3".to_string() },
        Outcome::Failed(Failure { record_id: "4".to_string(), cause: "c4".to_string() }),
    ];
    let failures = delivery_failures(outcomes);
    assert_eq!(
        failures,
        vec![
            Failure { record_id: "2".to_string(), cause: "c2".to_string() },
            Failure { record_id: "4".to_string(), cause: "c4".to_string() },
        ]
    );
    assert_eq!(delivery_failures(vec![Outcome::Delivered { record_id: "1".to_string() }]), vec![]);
}

#[test]
fn small_download_is_kept_with_its_page() {
    let target = Download { url: "u".to_string(), width: 10, height: 10, page_index: Some(3) };
    let fitted = fit_download(&target, vec![9, 9, 9]).unwrap();
    assert_eq!(
        fitted,
        FittedMedia { image: Fitted { bytes: vec![9, 9, 9], target: None, round: 0, dimensions: None }, page_index: Some(3) }
    );
}

#[test]
fn oversized_garbage_download_fails_to_decode() {
    let target = Download { url: "u".to_string(), width: 10, height: 10, page_index: None };
    match fit_download(&target, vec![0xff; MAX_IMAGE_SIZE + 10]) {
        Err(FitError::Decode { .. }) => {}
        other => panic!("expected a decode error, got {:?}", other.map(|m| m.image.bytes.len())),
    }
}

#[test]
fn ranking_to_units() {
    // the ranking lists two illustrations
    let ranking = flatten_ranking(vec![vec![entry("1", 1), entry("2", 2)]]);
    assert_eq!(ranking.len(), 2);
    // the second is a four-page work
    let details = RawDetails {
        id: ranking[1].id.clone(),
        title: "manga".to_string(),
        width: "800".to_string(),
        height: "1200".to_string(),
        tags: vec!["x".to_string()],
        url: None,
        page_sizes: Some(
            (0..4).map(|_| RawPageSize { width: "800".to_string(), height: "1200".to_string() }).collect(),
        ),
        pages: Some((0..4).map(|p| RawPage { page: p, url: format!("https://img/{}", p) }).collect()),
        canonical: "https://www.pixiv.net/artworks/2".to_string(),
        author_id: "5".to_string(),
        author_name: "b".to_string(),
    };
    let rec = Record::from_details(details).unwrap();
    let targets = rec.downloads();
    let media = fit_all(&targets, vec![vec![1, 2, 3]; targets.len()]).unwrap();
    assert_eq!(media.len(), 4);
    assert_eq!(media[2].page_index, Some(2));
    let unit = unit_for(&rec, media).unwrap();
    assert_eq!(unit.len(), 4);
    assert_eq!(*unit.caption(), build_caption(&rec));
    assert!(unit.caption().ends_with("\nPages: 4"));
    let items = unit.into_items();
    assert_eq!(items.len(), 4);
    assert!(items[0].caption.is_some());
    assert!(items[1..].iter().all(|i| i.caption.is_none()));
    assert!(unit_for(&rec, vec![]).is_none());
}

#[test]
fn one_unfittable_image_fails_the_record() {
    let targets: Vec<Download> = (0..3)
        .map(|p| Download { url: "u".to_string(), width: 10, height: 10, page_index: Some(p) })
        .collect();
    let downloads = vec![vec![1u8], vec![0xffu8; MAX_IMAGE_SIZE + 1], vec![2u8]];
    assert!(matches!(fit_all(&targets, downloads), Err(FitError::Decode { .. })));
    let fitted = fit_all(&targets, vec![vec![1u8], vec![2u8], vec![3u8]]).unwrap();
    let bytes: Vec<Vec<u8>> = fitted.iter().map(|m| m.image.bytes.clone()).collect();
    assert_eq!(bytes, vec![vec![1u8], vec![2u8], vec![3u8]]);
    assert_eq!(fit_all(&vec![], vec![]), Ok(vec![]));
}
