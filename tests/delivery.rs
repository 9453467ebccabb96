use pixivdaily::fitting::Fitted;
use pixivdaily::delivery::{
    DeliveryUnit, Failure, FittedMedia, MediaItem, Outcome, SendAction, SendEvent, SendRetry,
    MAX_SEND_ATTEMPTS,
};

fn media(n: usize) -> Vec<FittedMedia> {
    (0..n)
        .map(|i| FittedMedia {
            image: Fitted { bytes: vec![i as u8; 3], target: None, round: 0, dimensions: None },
            page_index: Some(i as u32),
        })
        .collect()
}

#[test]
fn group_caption_is_on_the_first_item_only() {
    let unit = DeliveryUnit::new("caption".to_string(), media(4)).unwrap();
    assert_eq!(unit.len(), 4);
    let items = unit.into_items();
    assert_eq!(items.len(), 4);
    assert_eq!(items[0], MediaItem { bytes: vec![0, 0, 0], caption: Some("caption".to_string()) });
    for (i, item) in items.iter().enumerate().skip(1) {
        assert_eq!(item.caption, None);
        assert_eq!(item.bytes, vec![i as u8; 3]);
    }
}

#[test]
fn single_image_carries_the_caption() {
    let unit = DeliveryUnit::new("c".to_string(), media(1)).unwrap();
    assert_eq!(unit.caption(), "c");
    let items = unit.into_items();
    assert_eq!(items, vec![MediaItem { bytes: vec![0, 0, 0], caption: Some("c".to_string()) }]);
}

#[test]
fn unit_holds_one_to_ten_images() {
    assert!(DeliveryUnit::new("c".to_string(), media(0)).is_none());
    assert!(DeliveryUnit::new("c".to_string(), media(10)).is_some());
    assert!(DeliveryUnit::new("c".to_string(), media(11)).is_none());
}

#[test]
fn rate_limit_is_waited_out_then_sent() {
    let mut retry = SendRetry::new("42".to_string());
    let mut waited = 0u64;
    let mut sends = 0;
    let answers = vec![SendEvent::RateLimited { seconds: 5 }, SendEvent::Sent];
    let mut outcome = None;
    for answer in answers {
        sends += 1;
        match retry.on_event(answer) {
            SendAction::Wait { seconds } => waited += seconds,
            SendAction::Resend => {}
            SendAction::Finish(o) => {
                outcome = Some(o);
                break;
            }
        }
    }
    assert_eq!(outcome, Some(Outcome::Delivered { record_id: "42".to_string() }));
    assert_eq!(waited, 5);
    assert_eq!(sends, 2);
    assert_eq!(retry.failures(), 0);
}

#[test]
fn rate_limit_does_not_use_up_attempts() {
    let mut retry = SendRetry::new("7".to_string());
    for _ in 0..3 * MAX_SEND_ATTEMPTS {
        assert_eq!(retry.on_event(SendEvent::RateLimited { seconds: 1 }), SendAction::Wait { seconds: 1 });
    }
    assert_eq!(retry.failures(), 0);
}

#[test]
fn failures_give_up_after_the_attempt_bound() {
    let mut retry = SendRetry::new("9".to_string());
    let mut sends = 0u32;
    let outcome = loop {
        sends += 1;
        let cause = format!("error {}", sends);
        match retry.on_event(SendEvent::Failed { cause }) {
            SendAction::Resend => {}
            SendAction::Wait { .. } => panic!("no rate limit was signalled"),
            SendAction::Finish(o) => break o,
        }
    };
    assert_eq!(sends, MAX_SEND_ATTEMPTS);
    assert_eq!(sends, 10);
    assert_eq!(
        outcome,
        Outcome::Failed(Failure { record_id: "9".to_string(), cause: "error 10".to_string() })
    );
}

#[test]
fn success_after_failures_finishes_at_once() {
    let mut retry = SendRetry::new("3".to_string());
    assert_eq!(retry.on_event(SendEvent::Failed { cause: "x".to_string() }), SendAction::Resend);
    assert_eq!(retry.failures(), 1);
    assert_eq!(
        retry.on_event(SendEvent::Sent),
        SendAction::Finish(Outcome::Delivered { record_id: "3".to_string() })
    );
    assert_eq!(retry.record_id(), "3");
}
