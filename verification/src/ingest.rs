use vstd::prelude::*;
use vstd::string::*;

use crate::tiers::{reply_means_new, SetNxReply};

verus! {

/// The status text of every acknowledgement.
pub fn ack_status() -> (status: String)
    ensures
        status@ == "ACK_RECEIVED_SUCCESS"@,
{
    "ACK_RECEIVED_SUCCESS".to_owned()
}

/// The acknowledgement returned for one ingested frame (its status text is
/// `ack_status`).
#[derive(PartialEq, Eq, Structural)]
pub struct Ack {
    /// How many data points the frame carried.
    pub processed_elements: u64,
    /// Whether the frame's event id was already seen within the window.
    pub duplicate: bool,
}

/// Where the ingestion of one frame stands.
#[derive(PartialEq, Eq, Structural)]
pub enum IngestStage {
    /// Waiting for the cache tier to say whether the event id is new.
    Registering,
    /// Waiting for the processed-elements counter to be increased.
    Counting,
    /// Waiting for the frame to be handed to the event bus.
    Publishing,
    /// The acknowledgement has been produced.
    Done,
}

/// The ingestion of one telemetry frame, whether it came over HTTP or gRPC.
pub struct Ingestion {
    pub event_id: String,
    /// The number of data points in the frame.
    pub elements: u64,
    /// The deduplication window, in seconds.
    pub ttl_secs: u64,
    /// What the cache tier answered; meaningful once past `Registering`.
    pub is_new: bool,
    pub stage: IngestStage,
}

/// What the outside world reports back to an ingestion.
pub enum IngestEvent {
    /// The cache tier answered: `true` when the event id is new.
    Registered(bool),
    /// The processed-elements counter was increased.
    Counted,
    /// The frame went to the event bus, or could not be encoded and was skipped.
    Published,
}

/// The outside work that an ingestion asks for next.
pub enum IngestAction {
    /// Register the event id with the cache tier for `ttl_secs` seconds.
    RegisterEvent { event_id: String, ttl_secs: u64 },
    /// Add `elements` to the processed-elements counter.
    CountElements { elements: u64 },
    /// Publish the frame on the event bus under `key`.
    Publish { key: String },
    /// Answer the client.
    Reply(Ack),
}

/// The action that a state is waiting on.
pub open spec fn pending_action(s: Ingestion) -> IngestAction {
    match s.stage {
        IngestStage::Registering => IngestAction::RegisterEvent {
            event_id: s.event_id,
            ttl_secs: s.ttl_secs,
        },
        IngestStage::Counting => IngestAction::CountElements { elements: s.elements },
        IngestStage::Publishing => IngestAction::Publish { key: s.event_id },
        IngestStage::Done => IngestAction::Reply(
            Ack { processed_elements: s.elements, duplicate: !s.is_new },
        ),
    }
}

/// One step of an ingestion: the event that answers the pending action moves it
/// on to the next stage; any other event leaves it where it is.
pub open spec fn ingest_next(s: Ingestion, e: IngestEvent) -> Ingestion {
    match (s.stage, e) {
        (IngestStage::Registering, IngestEvent::Registered(is_new)) => Ingestion {
            is_new,
            stage: IngestStage::Counting,
            ..s
        },
        (IngestStage::Counting, IngestEvent::Counted) => Ingestion {
            stage: IngestStage::Publishing,
            ..s
        },
        (IngestStage::Publishing, IngestEvent::Published) => Ingestion {
            stage: IngestStage::Done,
            ..s
        },
        _ => s,
    }
}

impl Ingestion {
    /// Starts ingesting a frame of `elements` data points: first the event id is
    /// registered with the cache tier.
    pub fn start(event_id: String, elements: u64, ttl_secs: u64) -> (r: (Ingestion, IngestAction))
        ensures
            r.0 == (Ingestion {
                event_id,
                elements,
                ttl_secs,
                is_new: true,
                stage: IngestStage::Registering,
            }),
            r.1 == pending_action(r.0),
    {
        let id = event_id.clone();
        let s = Ingestion { event_id, elements, ttl_secs, is_new: true, stage: IngestStage::Registering };
        (s, IngestAction::RegisterEvent { event_id: id, ttl_secs })
    }

    /// Takes the answer to the pending action and returns the new state with the
    /// action it waits on.
    pub fn step(self, event: IngestEvent) -> (r: (Ingestion, IngestAction))
        ensures
            r.0 == ingest_next(self, event),
            r.1 == pending_action(r.0),
    {
        let next = match (&self.stage, event) {
            (IngestStage::Registering, IngestEvent::Registered(is_new)) => Ingestion {
                is_new,
                stage: IngestStage::Counting,
                ..self
            },
            (IngestStage::Counting, IngestEvent::Counted) => Ingestion {
                stage: IngestStage::Publishing,
                ..self
            },
            (IngestStage::Publishing, IngestEvent::Published) => Ingestion {
                stage: IngestStage::Done,
                ..self
            },
            _ => self,
        };
        let action = next.pending();
        (next, action)
    }

    /// The action this ingestion waits on.
    pub fn pending(&self) -> (a: IngestAction)
        ensures
            a == pending_action(*self),
    {
        match self.stage {
            IngestStage::Registering => IngestAction::RegisterEvent {
                event_id: self.event_id.clone(),
                ttl_secs: self.ttl_secs,
            },
            IngestStage::Counting => IngestAction::CountElements { elements: self.elements },
            IngestStage::Publishing => IngestAction::Publish { key: self.event_id.clone() },
            IngestStage::Done => IngestAction::Reply(
                Ack { processed_elements: self.elements, duplicate: !self.is_new },
            ),
        }
    }
}


/// A frame's ingestion asks, in order, to register its event id, to count its data
/// points and to publish it under its event id, and then acknowledges it with its
/// data-point count, marked duplicate exactly when the cache tier answered that
/// the id was already set; once done it stays done.
pub proof fn lemma_ingestion_run(
    event_id: String,
    elements: u64,
    ttl_secs: u64,
    reply: Option<SetNxReply>,
    later: IngestEvent,
)
    ensures
        ({
            let s0 = Ingestion {
                event_id,
                elements,
                ttl_secs,
                is_new: true,
                stage: IngestStage::Registering,
            };
            let s1 = ingest_next(s0, IngestEvent::Registered(reply_means_new(reply)));
            let s2 = ingest_next(s1, IngestEvent::Counted);
            let s3 = ingest_next(s2, IngestEvent::Published);
            &&& pending_action(s0) == IngestAction::RegisterEvent { event_id, ttl_secs }
            &&& pending_action(s1) == IngestAction::CountElements { elements }
            &&& pending_action(s2) == IngestAction::Publish { key: event_id }
            &&& pending_action(s3) == IngestAction::Reply(
                Ack {
                    processed_elements: elements,
                    duplicate: reply matches Some(SetNxReply::AlreadySet),
                },
            )
            &&& ingest_next(s3, later) == s3
        }),
{
}

/// Running totals of a stream of frames.
pub struct StreamTally {
    /// Frames accepted so far.
    pub frames: u64,
    /// Data points in the accepted frames.
    pub processed_elements: u64,
}

impl StreamTally {
    /// Totals before any frame.
    pub fn new() -> (t: StreamTally)
        ensures
            t.frames == 0,
            t.processed_elements == 0,
    {
        StreamTally { frames: 0, processed_elements: 0 }
    }

    /// Accounts for one accepted frame of `elements` data points.
    pub fn record_frame(&mut self, elements: u64)
        requires
            old(self).frames < u64::MAX,
            old(self).processed_elements + elements <= u64::MAX,
        ensures
            final(self).frames == old(self).frames + 1,
            final(self).processed_elements == old(self).processed_elements + elements,
    {
        self.frames = self.frames + 1;
        self.processed_elements = self.processed_elements + elements;
    }
}

} // verus!
