use vstd::prelude::*;
use crate::services::chat_types::{WirePayload, WirePayloadModel};
use crate::text::str_eq;

verus! {

/// A pending delivery attempt.
#[derive(Debug, Clone)]
pub struct PendingDelivery {
    pub message_id: String,
    pub conversation_id: String,
    pub target_peer_id: String,
    pub target_address: String,
    pub target_port: u16,
    pub endpoint: String,
    pub payload: WirePayload,
    pub retry_count: u32,
    pub max_retries: u32,
    /// Milliseconds since the Unix epoch, absent before the first attempt.
    pub last_attempt: Option<i64>,
    pub created_at: i64,
}

pub struct PendingDeliveryModel {
    pub message_id: Seq<char>,
    pub conversation_id: Seq<char>,
    pub target_peer_id: Seq<char>,
    pub target_address: Seq<char>,
    pub target_port: u16,
    pub endpoint: Seq<char>,
    pub payload: WirePayloadModel,
    pub retry_count: u32,
    pub max_retries: u32,
    pub last_attempt: Option<int>,
    pub created_at: int,
}

impl View for PendingDelivery {
    type V = PendingDeliveryModel;

    open spec fn view(&self) -> PendingDeliveryModel {
        PendingDeliveryModel {
            message_id: self.message_id@,
            conversation_id: self.conversation_id@,
            target_peer_id: self.target_peer_id@,
            target_address: self.target_address@,
            target_port: self.target_port,
            endpoint: self.endpoint@,
            payload: self.payload@,
            retry_count: self.retry_count,
            max_retries: self.max_retries,
            last_attempt: match self.last_attempt {
                Some(t) => Some(t as int),
                None => None,
            },
            created_at: self.created_at as int,
        }
    }
}

// ── The backoff schedule ───────────────────────────────────────

/// The backoff before attempt `retry_count + 1`, in seconds: immediate,
/// 5 s, 15 s, 45 s, 2 min, then flat 5 min.
pub open spec fn backoff_secs_spec(retry_count: u32) -> int {
    if retry_count == 0 {
        0
    } else if retry_count == 1 {
        5
    } else if retry_count == 2 {
        15
    } else if retry_count == 3 {
        45
    } else if retry_count == 4 {
        120
    } else {
        300
    }
}

pub fn backoff_secs(retry_count: u32) -> (r: u64)
    ensures
        r == backoff_secs_spec(retry_count),
{
    if retry_count == 0 {
        0
    } else if retry_count == 1 {
        5
    } else if retry_count == 2 {
        15
    } else if retry_count == 3 {
        45
    } else if retry_count == 4 {
        120
    } else {
        300
    }
}

/// The retry intervals never shrink as the retry count grows.
pub proof fn lemma_backoff_monotone(r1: u32, r2: u32)
    requires
        r1 <= r2,
    ensures
        backoff_secs_spec(r1) <= backoff_secs_spec(r2),
{
}

/// Whether a delivery's backoff window has elapsed at `now_ms`.
pub open spec fn ready_spec(d: PendingDeliveryModel, now_ms: int) -> bool {
    match d.last_attempt {
        None => true,
        Some(last) => now_ms - last >= backoff_secs_spec(d.retry_count) * 1000,
    }
}

/// Whether the delivery is due for another attempt.
pub fn is_ready_for_retry(d: &PendingDelivery, now_ms: i64) -> (r: bool)
    ensures
        r == ready_spec(d@, now_ms as int),
{
    match d.last_attempt {
        None => true,
        Some(last) => {
            let elapsed: i128 = (now_ms as i128) - (last as i128);
            let window: i128 = (backoff_secs(d.retry_count) as i128) * 1000;
            elapsed >= window
        },
    }
}

/// The outcome of recording one delivery attempt.
#[derive(Debug, Clone, Copy, PartialEq, Eq, Structural)]
pub enum AttemptOutcome {
    /// The attempt succeeded; the delivery left the queue.
    Delivered,
    /// The attempt failed; the delivery stays queued for a later retry.
    Scheduled,
    /// The attempt failed and exhausted `max_retries`; the delivery left
    /// the queue and is reported as permanently failed, exactly once.
    Failed,
}

// ── The queue ──────────────────────────────────────────────────

/// In-memory queue of outbound deliveries with bounded exponential-backoff
/// retry.  `enqueue` performs no deduplication; callers keep message ids
/// unique.  A host drives the queue: it asks which deliveries are ready,
/// performs the transport attempt, and records each outcome.
pub struct DeliveryQueue {
    pending: Vec<PendingDelivery>,
}

impl DeliveryQueue {
    /// The queued deliveries, oldest first.
    pub closed spec fn model(&self) -> Seq<PendingDeliveryModel> {
        Seq::new(self.pending@.len(), |i: int| self.pending@[i]@)
    }

    pub fn new() -> (r: DeliveryQueue)
        ensures
            r.model() =~= Seq::<PendingDeliveryModel>::empty(),
    {
        DeliveryQueue { pending: Vec::new() }
    }

    /// Append a delivery to the queue.
    pub fn enqueue(&mut self, delivery: PendingDelivery)
        ensures
            final(self).model() =~= old(self).model().push(delivery@),
    {
        self.pending.push(delivery);
    }

    pub fn pending_count(&self) -> (r: usize)
        ensures
            r == self.model().len(),
    {
        self.pending.len()
    }

    /// The delivery at an index, for a host to attempt.
    pub fn get(&self, i: usize) -> (r: &PendingDelivery)
        requires
            i < self.model().len(),
        ensures
            r@ == self.model()[i as int],
    {
        &self.pending[i]
    }

    /// Whether any queued delivery targets the peer.
    pub fn has_pending_for(&self, peer_id: &str) -> (r: bool)
        ensures
            r == exists|i: int|
                0 <= i < self.model().len() && (#[trigger] self.model()[i]).target_peer_id
                    == peer_id@,
    {
        let mut i: usize = 0;
        while i < self.pending.len()
            invariant
                i <= self.pending@.len(),
                forall|k: int|
                    0 <= k < i ==> (#[trigger] self.model()[k]).target_peer_id != peer_id@,
            decreases self.pending@.len() - i,
        {
            if str_eq(self.pending[i].target_peer_id.as_str(), peer_id) {
                assert(self.model()[i as int].target_peer_id == peer_id@);
                return true;
            }
            i = i + 1;
        }
        false
    }

    /// Record the outcome of one attempt at the delivery at index `i`.
    ///
    /// Success removes the delivery and reports it delivered.  Failure
    /// increments its retry count and stamps the attempt time; the delivery
    /// leaves the queue, reported as permanently failed, exactly when the
    /// incremented count reaches `max_retries`.
    pub fn record_attempt(&mut self, i: usize, success: bool, now_ms: i64) -> (r: AttemptOutcome)
        requires
            i < old(self).model().len(),
        ensures
            success ==> r is Delivered && final(self).model() =~= old(self).model().remove(
                i as int,
            ),
            !success ==> ((r is Failed) <==> old(self).model()[i as int].retry_count + 1 >= old(self).model()[i as int].max_retries),
            !success && old(self).model()[i as int].retry_count + 1 >= old(self).model()[
                i as int
            ].max_retries ==> final(self).model() =~= old(self).model().remove(i as int),
            !success && old(self).model()[i as int].retry_count + 1 < old(self).model()[
                i as int
            ].max_retries ==> r is Scheduled && final(self).model() =~= old(self).model().update(
                i as int,
                PendingDeliveryModel {
                    retry_count: (old(self).model()[i as int].retry_count + 1) as u32,
                    last_attempt: Some(now_ms as int),
                    ..old(self).model()[i as int]
                },
            ),
    {
        if success {
            self.pending.remove(i);
            return AttemptOutcome::Delivered;
        }
        let retry_count = self.pending[i].retry_count;
        let max_retries = self.pending[i].max_retries;
        if (retry_count as u64) + 1 >= (max_retries as u64) {
            self.pending.remove(i);
            AttemptOutcome::Failed
        } else {
            let d = self.pending.remove(i);
            let updated = PendingDelivery {
                retry_count: retry_count + 1,
                last_attempt: Some(now_ms),
                ..d
            };
            self.pending.insert(i, updated);
            proof {
                assert(self.model() =~= old(self).model().update(
                    i as int,
                    PendingDeliveryModel {
                        retry_count: (old(self).model()[i as int].retry_count + 1) as u32,
                        last_attempt: Some(now_ms as int),
                        ..old(self).model()[i as int]
                    },
                ));
            }
            AttemptOutcome::Scheduled
        }
    }
}

} // verus!
