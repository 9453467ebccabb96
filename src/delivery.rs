//! Delivery units and the retry decisions taken while sending one.
use crate::fitting::Fitted;
use vstd::prelude::*;

verus! {

/// Most attempts that ordinary failures may use up before a unit is given up.
pub const MAX_SEND_ATTEMPTS: u32 = 10;

/// Most images the transport accepts in one group.
pub const MAX_GROUP_SIZE: usize = 10;

/// An image ready to send: within the transport's limits.
#[derive(Clone, Debug, PartialEq, Eq)]
pub struct FittedMedia {
    pub image: Fitted,
    /// The page of a multi-page record that the image shows, if any.
    pub page_index: Option<u32>,
}

/// One image of a send request, with the caption it carries.
#[derive(Clone, Debug, PartialEq, Eq)]
pub struct MediaItem {
    pub bytes: Vec<u8>,
    pub caption: Option<String>,
}

/// One post: a caption and between one and `MAX_GROUP_SIZE` images.
#[derive(Clone, Debug)]
pub struct DeliveryUnit {
    caption: String,
    media: Vec<FittedMedia>,
}

impl DeliveryUnit {
    pub closed spec fn spec_caption(&self) -> String {
        self.caption
    }

    pub closed spec fn spec_media(&self) -> Seq<FittedMedia> {
        self.media@
    }

    pub open spec fn wf(&self) -> bool {
        1 <= self.spec_media().len() <= MAX_GROUP_SIZE
    }

    /// A unit of `media` under `caption`; none when there are no images or
    /// more than `MAX_GROUP_SIZE`.
    pub fn new(caption: String, media: Vec<FittedMedia>) -> (r: Option<DeliveryUnit>)
        ensures
            r is Some <==> 1 <= media@.len() <= MAX_GROUP_SIZE,
            r matches Some(u) ==> u.wf() && u.spec_caption() == caption && u.spec_media()
                == media@,
    {
        if media.len() >= 1 && media.len() <= MAX_GROUP_SIZE {
            Some(DeliveryUnit { caption, media })
        } else {
            None
        }
    }

    pub fn caption(&self) -> (r: &String)
        ensures
            *r == self.spec_caption(),
    {
        &self.caption
    }

    pub fn len(&self) -> (r: usize)
        ensures
            r == self.spec_media().len(),
    {
        self.media.len()
    }

    /// The images in order, the first carrying the caption and the others
    /// none.
    pub fn into_items(self) -> (r: Vec<MediaItem>)
        ensures
            r@.len() == self.spec_media().len(),
            forall|i: int|
                0 <= i < r@.len() ==> (#[trigger] r@[i]).bytes == self.spec_media()[i].image.bytes,
            forall|i: int|
                0 <= i < r@.len() ==> (#[trigger] r@[i]).caption == if i == 0 {
                    Some(self.spec_caption())
                } else {
                    None
                },
    {
        let ghost orig = self.media@;
        let caption = self.caption;
        let mut media = self.media;
        let mut items: Vec<MediaItem> = Vec::new();
        while media.len() > 0
            invariant
                items@.len() + media@.len() == orig.len(),
                media@ == orig.subrange(items@.len() as int, orig.len() as int),
                forall|i: int| 0 <= i < items@.len() ==> (#[trigger] items@[i]).bytes == orig[i].image.bytes,
                forall|i: int|
                    0 <= i < items@.len() ==> (#[trigger] items@[i]).caption == if i == 0 {
                        Some(caption)
                    } else {
                        None
                    },
            decreases media@.len(),
        {
            let m = media.remove(0);
            let item_caption = if items.len() == 0 {
                Some(caption.clone())
            } else {
                None
            };
            items.push(MediaItem { bytes: m.image.bytes, caption: item_caption });
        }
        items
    }
}

/// What the transport answered to one send request.
#[derive(Clone, Debug, PartialEq, Eq)]
pub enum SendEvent {
    /// The unit was delivered.
    Sent,
    /// The transport asks to wait `seconds` before trying again.
    RateLimited { seconds: u64 },
    /// Any other failure, described by `cause`.
    Failed { cause: String },
}

/// A record that could not be delivered, and why.
#[derive(Clone, Debug, PartialEq, Eq)]
pub struct Failure {
    pub record_id: String,
    pub cause: String,
}

/// The final result of delivering one record.
#[derive(Clone, Debug, PartialEq, Eq)]
pub enum Outcome {
    Delivered { record_id: String },
    Failed(Failure),
}

/// What to do after a send request was answered.
#[derive(Clone, Debug, PartialEq, Eq)]
pub enum SendAction {
    /// Send the unit again at once.
    Resend,
    /// Wait `seconds`, then send the unit again.
    Wait { seconds: u64 },
    /// Stop with this outcome.
    Finish(Outcome),
}

/// The retry policy for one answer. A rate limit is waited out and does not
/// use up an attempt; any other failure uses up one, and the last one allowed
/// gives up with that failure as the cause.
pub open spec fn retry_step(record_id: String, failures: nat, event: SendEvent) -> (nat, SendAction) {
    match event {
        SendEvent::Sent => (failures, SendAction::Finish(Outcome::Delivered { record_id })),
        SendEvent::RateLimited { seconds } => (failures, SendAction::Wait { seconds }),
        SendEvent::Failed { cause } => if failures + 1 >= MAX_SEND_ATTEMPTS {
            (failures + 1, SendAction::Finish(Outcome::Failed(Failure { record_id, cause })))
        } else {
            (failures + 1, SendAction::Resend)
        },
    }
}

/// The actions taken for a run of answers, starting after `failures`
/// ordinary failures; answers after the one that finishes are not read.
pub open spec fn replay(record_id: String, failures: nat, events: Seq<SendEvent>) -> Seq<SendAction>
    decreases events.len(),
{
    if events.len() == 0 {
        Seq::empty()
    } else {
        let (next, action) = retry_step(record_id, failures, events[0]);
        if action is Finish {
            seq![action]
        } else {
            seq![action] + replay(record_id, next, events.drop_first())
        }
    }
}

/// Retry state while one record's unit is being sent.
#[derive(Clone, Debug)]
pub struct SendRetry {
    record_id: String,
    failures: u32,
}

impl SendRetry {
    pub closed spec fn spec_record_id(&self) -> String {
        self.record_id
    }

    pub closed spec fn spec_failures(&self) -> nat {
        self.failures as nat
    }

    /// Still allowed to send: fewer ordinary failures than attempts.
    pub open spec fn wf(&self) -> bool {
        self.spec_failures() < MAX_SEND_ATTEMPTS
    }

    pub fn new(record_id: String) -> (r: SendRetry)
        ensures
            r.wf(),
            r.spec_record_id() == record_id,
            r.spec_failures() == 0,
    {
        SendRetry { record_id, failures: 0 }
    }

    pub fn record_id(&self) -> (r: &String)
        ensures
            *r == self.spec_record_id(),
    {
        &self.record_id
    }

    pub fn failures(&self) -> (r: u32)
        ensures
            r == self.spec_failures(),
    {
        self.failures
    }

    /// Decides what follows the transport's answer `event`.
    pub fn on_event(&mut self, event: SendEvent) -> (r: SendAction)
        requires
            old(self).wf(),
        ensures
            (final(self).spec_failures(), r) == retry_step(
                old(self).spec_record_id(),
                old(self).spec_failures(),
                event,
            ),
            final(self).spec_record_id() == old(self).spec_record_id(),
            !(r is Finish) ==> final(self).wf(),
    {
        match event {
            SendEvent::Sent => SendAction::Finish(Outcome::Delivered { record_id: self.record_id.clone() }),
            SendEvent::RateLimited { seconds } => SendAction::Wait { seconds },
            SendEvent::Failed { cause } => {
                self.failures = self.failures + 1;
                if self.failures >= MAX_SEND_ATTEMPTS {
                    SendAction::Finish(Outcome::Failed(Failure { record_id: self.record_id.clone(), cause }))
                } else {
                    SendAction::Resend
                }
            },
        }
    }
}

/// Starting after `failures` ordinary failures, a run of nothing but ordinary
/// failures is resent until the attempts are used up, and then given up with
/// the last failure as the cause.
pub proof fn lemma_failures_exhaust_attempts(record_id: String, failures: nat, events: Seq<SendEvent>)
    requires
        failures < MAX_SEND_ATTEMPTS,
        events.len() == MAX_SEND_ATTEMPTS - failures,
        forall|i: int| 0 <= i < events.len() ==> (#[trigger] events[i]) is Failed,
    ensures
        replay(record_id, failures, events).len() == events.len(),
        forall|i: int|
            0 <= i < events.len() - 1 ==> #[trigger] replay(record_id, failures, events)[i]
                == SendAction::Resend,
        replay(record_id, failures, events).last() == SendAction::Finish(
            Outcome::Failed(Failure { record_id, cause: events.last()->Failed_cause }),
        ),
    decreases events.len(),
{
    let rest = events.drop_first();
    if events.len() > 1 {
        lemma_failures_exhaust_attempts(record_id, failures + 1, rest);
        let r = replay(record_id, failures, events);
        assert(r == seq![SendAction::Resend] + replay(record_id, failures + 1, rest));
        assert forall|i: int| 0 <= i < events.len() - 1 implies #[trigger] r[i]
            == SendAction::Resend by {
            if i > 0 {
                assert(r[i] == replay(record_id, failures + 1, rest)[i - 1]);
            }
        }
    }
}

} // verus!
