//! The content-distribution pipeline: the wire payload codec, the sender
//! and receiver roles with their monotonic counters, and the presenter's
//! idle-state decision rule with its timeout-driven random fallback. The
//! radio, the channel between the roles and the clock live outside; they
//! feed events in and carry the decisions out.

use vstd::prelude::*;

use crate::corpus::{resolve_id_spec, Corpus};
use crate::effects::{clears_at, type_text, typed_buffer, TypeFrame};
use crate::rng::random_below;

verus! {

/// A request to display one content item: the item's id and the device
/// that chose it. Travels between peers as a two-byte payload and between
/// the roles of one device over the channel.
#[derive(Clone, Copy, PartialEq, Eq, Structural, Debug)]
pub struct ContentRequest {
    pub id: u8,
    pub source_device: u8,
}

/// The wire form of a request: exactly two bytes, id first, sender's
/// device id second.
pub open spec fn payload_spec(req: ContentRequest) -> Seq<u8> {
    seq![req.id, req.source_device]
}

/// What decoding a received payload yields: a request for a two-byte
/// payload, nothing for any other length.
pub open spec fn decode_spec(data: Seq<u8>) -> Option<ContentRequest> {
    if data.len() == 2 {
        Some(ContentRequest { id: data[0], source_device: data[1] })
    } else {
        None
    }
}

/// Decoding inverts encoding: a request survives the wire unchanged.
pub proof fn lemma_payload_round_trip(req: ContentRequest)
    ensures
        decode_spec(payload_spec(req)) == Some(req),
{
}

/// Encode a request for broadcast.
pub fn encode_payload(req: ContentRequest) -> (data: Vec<u8>)
    ensures
        data@ == payload_spec(req),
{
    let mut data: Vec<u8> = Vec::new();
    data.push(req.id);
    data.push(req.source_device);
    proof {
        assert(data@ =~= payload_spec(req));
    }
    data
}

/// Decode a received payload, accepting exactly the two-byte wire form.
pub fn decode_payload(data: &[u8]) -> (r: Option<ContentRequest>)
    ensures
        r == decode_spec(data@),
{
    if data.len() == 2 {
        Some(ContentRequest { id: data[0], source_device: data[1] })
    } else {
        None
    }
}

/// The receiver role: invoked for every payload the transport delivers,
/// it decodes, counts, and hands the request on for the presenter's
/// channel. It never blocks and never faults, whatever bytes arrive.
pub struct Receiver {
    pub received: u64,
}

impl Receiver {
    /// A receiver that has seen nothing yet.
    pub fn new() -> (r: Receiver)
        ensures
            r.received == 0,
    {
        Receiver { received: 0 }
    }

    /// Handle one inbound payload: decode it, and count it if it decodes.
    /// The received counter never decreases.
    pub fn on_payload(&mut self, data: &[u8]) -> (r: Option<ContentRequest>)
        requires
            old(self).received < u64::MAX,
        ensures
            r == decode_spec(data@),
            r is Some ==> final(self).received == old(self).received + 1,
            r is None ==> final(self).received == old(self).received,
            final(self).received >= old(self).received,
    {
        let req = decode_payload(data);
        if req.is_some() {
            self.received = self.received + 1;
        }
        req
    }
}

/// The sender role: on its own schedule it picks a random in-range id,
/// broadcasts it with this device's id, and counts the transmission.
pub struct Sender {
    pub device_id: u8,
    pub corpus_len: usize,
    pub sent: u64,
}

impl Sender {
    /// The corpus is non-empty and small enough that every id fits the
    /// one-byte wire field.
    pub open spec fn wf(self) -> bool {
        1 <= self.corpus_len <= 256
    }

    /// A sender for this device that has sent nothing yet.
    pub fn new(device_id: u8, corpus_len: usize) -> (s: Sender)
        requires
            1 <= corpus_len <= 256,
        ensures
            s.wf(),
            s.device_id == device_id,
            s.corpus_len == corpus_len,
            s.sent == 0,
    {
        Sender { device_id, corpus_len, sent: 0 }
    }

    /// One sender cycle: draw a random in-range content id, count the
    /// transmission, and return the two-byte payload to broadcast. The
    /// sent counter never decreases.
    pub fn next_broadcast(&mut self) -> (data: Vec<u8>)
        requires
            old(self).wf(),
            old(self).sent < u64::MAX,
        ensures
            final(self).wf(),
            final(self).device_id == old(self).device_id,
            final(self).corpus_len == old(self).corpus_len,
            final(self).sent == old(self).sent + 1,
            final(self).sent >= old(self).sent,
            data@.len() == 2,
            data@[0] < old(self).corpus_len,
            data@[1] == old(self).device_id,
    {
        let id = random_below(self.corpus_len) as u8;
        self.sent = self.sent + 1;
        encode_payload(ContentRequest { id, source_device: self.device_id })
    }
}

/// Idle time, in seconds, the presenter tolerates with no inbound request
/// before it self-selects content.
pub const FALLBACK_THRESHOLD_SECS: u64 = 10;

/// What the presenter decides to do after one wait on the channel.
#[derive(Clone, Copy, PartialEq, Eq, Structural, Debug)]
pub enum IdleOutcome {
    /// A peer's request arrived: display it.
    ShowReceived(ContentRequest),
    /// Nothing arrived for longer than the fallback threshold: display a
    /// locally chosen request.
    ShowFallback(ContentRequest),
    /// Nothing arrived but the threshold has not passed: redraw the
    /// status screen and wait again.
    KeepWaiting,
}

/// The presenter role's decision state: it owns the display, waits on the
/// channel, and remembers when content last arrived.
pub struct Presenter {
    pub device_id: u8,
    pub corpus_len: usize,
    pub last_received: u64,
}

impl Presenter {
    /// The corpus is non-empty and small enough that every id fits the
    /// one-byte wire field.
    pub open spec fn wf(self) -> bool {
        1 <= self.corpus_len <= 256
    }

    /// A presenter for this device, treating startup time `now` as the
    /// moment content was last received.
    pub fn new(device_id: u8, corpus_len: usize, now: u64) -> (p: Presenter)
        requires
            1 <= corpus_len <= 256,
        ensures
            p.wf(),
            p.device_id == device_id,
            p.corpus_len == corpus_len,
            p.last_received == now,
    {
        Presenter { device_id, corpus_len, last_received: now }
    }

    /// One turn of the idle state. `dequeued` is what one bounded wait on
    /// the channel yielded; `now` is the current time in seconds. A
    /// received request is displayed as it stands and its arrival time
    /// recorded; on a timeout past the fallback threshold a random
    /// in-range request attributed to this device is displayed; otherwise
    /// the presenter keeps waiting, unchanged.
    pub fn idle_step(&mut self, dequeued: Option<ContentRequest>, now: u64) -> (out: IdleOutcome)
        requires
            old(self).wf(),
            now >= old(self).last_received,
        ensures
            final(self).wf(),
            final(self).device_id == old(self).device_id,
            final(self).corpus_len == old(self).corpus_len,
            dequeued matches Some(req) ==> out == IdleOutcome::ShowReceived(req)
                && final(self).last_received == now,
            dequeued is None ==> final(self).last_received == old(self).last_received,
            dequeued is None && now - old(self).last_received > FALLBACK_THRESHOLD_SECS ==> (
            out matches IdleOutcome::ShowFallback(req) && req.id < old(self).corpus_len
                && req.source_device == old(self).device_id),
            dequeued is None && now - old(self).last_received <= FALLBACK_THRESHOLD_SECS ==> out
                == IdleOutcome::KeepWaiting,
    {
        match dequeued {
            Some(req) => {
                self.last_received = now;
                IdleOutcome::ShowReceived(req)
            },
            None => {
                if now - self.last_received > FALLBACK_THRESHOLD_SECS {
                    let id = random_below(self.corpus_len) as u8;
                    IdleOutcome::ShowFallback(
                        ContentRequest { id, source_device: self.device_id },
                    )
                } else {
                    IdleOutcome::KeepWaiting
                }
            },
        }
    }
}

/// The typewriter run the presenter performs for one request: the intro
/// line supplied by the caller, then the corpus item the request resolves
/// to, revealed character by character. A request whose id is out of
/// range (a malformed payload) is clamped by [`resolve_id_spec`], never
/// faulted on.
pub fn display_poem(corpus: &Corpus, req: ContentRequest, intro: &[char]) -> (frames: Vec<
    TypeFrame,
>)
    requires
        corpus.wf(),
    ensures
        ({
            let text = intro@ + corpus.items@[resolve_id_spec(
                req.id as nat,
                corpus.items@.len(),
            ) as int]@;
            &&& frames@.len() == text.len()
            &&& forall|k: int|
                0 <= k < frames@.len() ==> (#[trigger] frames@[k]).cleared == clears_at(k as nat)
                    && frames@[k].buffer@ == typed_buffer(text, (k + 1) as nat)
        }),
{
    let id = corpus.resolve_id(req.id);
    let item = &corpus.items[id as usize];
    let mut text: Vec<char> = Vec::new();
    let mut m: usize = 0;
    while m < intro.len()
        invariant
            0 <= m <= intro@.len(),
            text@ == intro@.take(m as int),
        decreases intro@.len() - m,
    {
        text.push(intro[m]);
        m = m + 1;
    }
    assert(text@ =~= intro@);
    let mut m2: usize = 0;
    while m2 < item.len()
        invariant
            0 <= m2 <= item@.len(),
            text@ == intro@ + item@.take(m2 as int),
        decreases item@.len() - m2,
    {
        text.push(item[m2]);
        assert(text@ =~= intro@ + item@.take(m2 + 1));
        m2 = m2 + 1;
    }
    assert(text@ =~= intro@ + item@);
    type_text(text.as_slice())
}

} // verus!
