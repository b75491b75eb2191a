//! The RPC client engine.
//!
//! [`StudioClient`] owns the session state: the monotonically assigned
//! request ids, the frame decoder, the read-ahead queues, and the lazily
//! built behavior role table. It is written against the abstract
//! [`ByteChannel`] capability; one instance per transport is injected at
//! construction. [`MemoryChannel`] is the in-memory implementation used by
//! tests.

use vstd::prelude::*;

use crate::behavior::decode_behavior;
use crate::behavior::encode_behavior;
use crate::behavior::spec_decode_behavior;
use crate::behavior::spec_encode_behavior;
use crate::behavior::Behavior;
use crate::behavior::BehaviorMapError;
use crate::behavior::BehaviorRole;
use crate::behavior::RoleTable;
use crate::envelope::decode_responses;
use crate::envelope::encode_request;
use crate::envelope::spec_enc_request;
use crate::framing::encode_frame_spec;
use crate::envelope::ProtocolError;
use crate::framing::FrameDecoder;
use crate::messages::AckResult;
use crate::messages::AddLayerDetails;
use crate::messages::BehaviorDetails;
use crate::messages::BehaviorsRequest;
use crate::messages::BehaviorsResult;
use crate::messages::BehaviorsResultView;
use crate::messages::BehaviorBinding;
use crate::messages::CoreRequest;
use crate::messages::CoreResult;
use crate::messages::CoreResultView;
use crate::messages::DeviceInfo;
use crate::messages::Keymap;
use crate::messages::KeymapRequest;
use crate::messages::KeymapRequestView;
use crate::messages::KeymapResult;
use crate::messages::KeymapResultView;
use crate::messages::Layer;
use crate::messages::MetaResult;
use crate::messages::Notification;
use crate::messages::OpResult;
use crate::messages::PhysicalLayouts;
use crate::messages::Request;
use crate::messages::RequestResponse;
use crate::messages::RequestResponseView;
use crate::messages::RequestView;
use crate::messages::Response;
use crate::messages::ResponseView;
use crate::messages::SubsystemRequest;
use crate::messages::SubsystemRequestView;
use crate::messages::SubsystemResult;
use crate::messages::SubsystemResultView;

verus! {

/// What a transport can report about a failed read or write.
#[derive(Debug, Clone, Copy, PartialEq, Eq, Structural)]
pub enum TransportError {
    /// A bounded blocking read expired; recoverable by reading again.
    TimedOut,
    /// The transport is gone; fatal for the connection.
    Disconnected,
    /// Any other transport-level failure.
    Failed,
}

/// A duplex byte channel with blocking reads and all-or-nothing writes.
///
/// Its abstract state is the sequence of bytes it will deliver (`inbox`)
/// and the bytes written so far (`outbox`). A read hands over a non-empty
/// prefix of the inbox unless the inbox is exhausted; delivery order is
/// preserved. The engine is verified against exactly this contract.
pub trait ByteChannel: Sized {
    /// The bytes this channel has yet to deliver, in delivery order. A
    /// transport whose future input is outside the verified world (a
    /// device on the other end of a wire) may leave the default model.
    open spec fn inbox(&self) -> Seq<u8> {
        Seq::empty()
    }

    /// The bytes written to this channel so far.
    open spec fn outbox(&self) -> Seq<u8> {
        Seq::empty()
    }

    /// Blocking read of at most `max` bytes. An empty result means the
    /// byte stream has ended.
    fn recv(&mut self, max: usize) -> (r: Result<Vec<u8>, TransportError>)
        requires
            max > 0,
        ensures
            match r {
                Ok(v) => {
                    &&& v@.len() <= max
                    &&& v@.len() <= old(self).inbox().len()
                    &&& v@ == old(self).inbox().take(v@.len() as int)
                    &&& final(self).inbox() == old(self).inbox().skip(v@.len() as int)
                    &&& final(self).outbox() == old(self).outbox()
                    &&& (v@.len() == 0 ==> old(self).inbox().len() == 0)
                },
                Err(_) => {
                    &&& final(self).inbox() == old(self).inbox()
                    &&& final(self).outbox() == old(self).outbox()
                },
            },
    ;

    /// Blocking write of all given bytes. On failure a prefix of the bytes
    /// may still have gone out; the outbox never loses what was written.
    fn send_all(&mut self, bytes: &[u8]) -> (r: Result<(), TransportError>)
        ensures
            final(self).inbox() == old(self).inbox(),
            match r {
                Ok(u) => final(self).outbox() == old(self).outbox() + bytes@,
                Err(_) => old(self).outbox().is_prefix_of(final(self).outbox()),
            },
    ;
}

/// An in-memory duplex channel: reads consume a scripted byte sequence,
/// writes accumulate. Used to drive the engine in tests.
#[derive(Debug)]
pub struct MemoryChannel {
    incoming: std::collections::VecDeque<u8>,
    sent: Vec<u8>,
}

impl MemoryChannel {
    /// A channel that will deliver exactly `incoming`.
    pub fn new(incoming: Vec<u8>) -> (c: Self)
        ensures
            c.inbox() == incoming@,
            c.outbox() == Seq::<u8>::empty(),
    {
        let mut queue: std::collections::VecDeque<u8> = std::collections::VecDeque::new();
        let mut i: usize = 0;
        while i < incoming.len()
            invariant
                i <= incoming.len(),
                queue@ == incoming@.take(i as int),
            decreases incoming.len() - i,
        {
            queue.push_back(incoming[i]);
            proof {
                assert(incoming@.take(i + 1) =~= incoming@.take(i as int) + seq![incoming@[
                    i as int]]);
                assert(queue@ =~= incoming@.take(i + 1));
            }
            i = i + 1;
        }
        proof {
            assert(incoming@.take(incoming@.len() as int) =~= incoming@);
        }
        MemoryChannel { incoming: queue, sent: Vec::new() }
    }

    /// Appends more bytes for later delivery, as a device pushing further
    /// data would.
    pub fn feed(&mut self, bytes: &[u8])
        ensures
            final(self).inbox() == old(self).inbox() + bytes@,
            final(self).outbox() == old(self).outbox(),
    {
        let mut i: usize = 0;
        while i < bytes.len()
            invariant
                i <= bytes.len(),
                self.incoming@ == old(self).incoming@ + bytes@.take(i as int),
                self.sent == old(self).sent,
            decreases bytes.len() - i,
        {
            self.incoming.push_back(bytes[i]);
            proof {
                assert(bytes@.take(i + 1) =~= bytes@.take(i as int) + seq![bytes@[i as int]]);
                assert(self.incoming@ =~= old(self).incoming@ + bytes@.take(i + 1));
            }
            i = i + 1;
        }
        proof {
            assert(bytes@.take(bytes@.len() as int) =~= bytes@);
        }
    }

    /// The bytes written so far: every encoded request the engine sent.
    pub fn sent_bytes(&self) -> (r: &Vec<u8>)
        ensures
            r@ == self.outbox(),
    {
        &self.sent
    }
}

impl ByteChannel for MemoryChannel {
    closed spec fn inbox(&self) -> Seq<u8> {
        self.incoming@
    }

    closed spec fn outbox(&self) -> Seq<u8> {
        self.sent@
    }

    fn recv(&mut self, max: usize) -> (r: Result<Vec<u8>, TransportError>) {
        let mut v: Vec<u8> = Vec::new();
        let mut i: usize = 0;
        while i < max && self.incoming.len() > 0
            invariant
                i <= max,
                i <= old(self).incoming@.len(),
                v@.len() == i,
                v@ == old(self).incoming@.take(i as int),
                self.incoming@ == old(self).incoming@.skip(i as int),
                self.sent == old(self).sent,
            decreases max - i,
        {
            let ghost pre = self.incoming@;
            let b = self.incoming.pop_front().unwrap();
            v.push(b);
            proof {
                assert(pre.len() > 0);
                assert(i < old(self).incoming@.len());
                assert(b == old(self).incoming@[i as int]);
                assert(self.incoming@ =~= old(self).incoming@.skip(i + 1));
                assert(old(self).incoming@.take(i + 1) =~= old(self).incoming@.take(i as int)
                    + seq![old(self).incoming@[i as int]]);
                assert(v@ =~= old(self).incoming@.take(i + 1));
            }
            i = i + 1;
        }
        proof {
            if v@.len() == 0 {
                assert(old(self).incoming@.len() == 0);
            }
        }
        Ok(v)
    }

    fn send_all(&mut self, bytes: &[u8]) -> (r: Result<(), TransportError>) {
        let mut i: usize = 0;
        while i < bytes.len()
            invariant
                i <= bytes.len(),
                self.sent@ == old(self).sent@ + bytes@.take(i as int),
                self.incoming == old(self).incoming,
            decreases bytes.len() - i,
        {
            self.sent.push(bytes[i]);
            proof {
                assert(bytes@.take(i + 1) =~= bytes@.take(i as int) + seq![bytes@[i as int]]);
                assert(self.sent@ =~= old(self).sent@ + bytes@.take(i + 1));
            }
            i = i + 1;
        }
        proof {
            assert(bytes@.take(bytes@.len() as int) =~= bytes@);
        }
        Ok(())
    }
}

/// A device-reported meta error condition, decoded from its enumerated code.
#[derive(Debug, Clone, Copy, PartialEq, Eq, Structural)]
pub enum MetaError {
    Generic,
    UnlockRequired,
}

/// The meta error a raw condition code denotes, if the code is known.
pub open spec fn spec_meta_error_of(code: u32) -> Option<MetaError> {
    if code == 0 {
        Some(MetaError::Generic)
    } else if code == 1 {
        Some(MetaError::UnlockRequired)
    } else {
        None
    }
}

/// The device's lock state, decoded from its enumerated code.
#[derive(Debug, Clone, Copy, PartialEq, Eq, Structural)]
pub enum LockState {
    Locked,
    Unlocking,
    Unlocked,
}

/// The lock state a raw code denotes, if the code is known.
pub open spec fn spec_lock_state_of(raw: u32) -> Option<LockState> {
    if raw == 0 {
        Some(LockState::Locked)
    } else if raw == 1 {
        Some(LockState::Unlocking)
    } else if raw == 2 {
        Some(LockState::Unlocked)
    } else {
        None
    }
}

/// Decodes a device-reported meta error condition code.
pub fn meta_error_of(code: u32) -> (r: Option<MetaError>)
    ensures
        r == spec_meta_error_of(code),
{
    if code == 0 {
        Some(MetaError::Generic)
    } else if code == 1 {
        Some(MetaError::UnlockRequired)
    } else {
        None
    }
}

/// Decodes a device-reported lock state code.
pub fn lock_state_of(raw: u32) -> (r: Option<LockState>)
    ensures
        r == spec_lock_state_of(raw),
{
    if raw == 0 {
        Some(LockState::Locked)
    } else if raw == 1 {
        Some(LockState::Unlocking)
    } else if raw == 2 {
        Some(LockState::Unlocked)
    } else {
        None
    }
}

/// Errors returned by client operations, each distinctly tagged so a caller
/// can tell a broken transport from firmware that sent something unexpected
/// and from ordinary device-reported failures.
///
/// The per-operation failure variants carry the firmware's raw reason code:
/// a code this client does not know is kept in the same variant rather than
/// reported as an unknown enumerator, since the enumerations themselves are
/// an external data contract.
#[derive(Debug, Clone, Copy, PartialEq, Eq, Structural)]
pub enum ClientError {
    /// The transport failed or timed out.
    Transport(TransportError),
    /// The transport delivered no further bytes.
    EndOfStream,
    /// The byte stream broke framing, or a frame did not parse.
    Protocol(ProtocolError),
    /// The device pre-empted the response with a meta error condition.
    Meta(MetaError),
    /// The device reported that it has no response.
    NoResponse,
    /// The response's subsystem matched, but not the requested operation.
    MissingResponseType,
    /// The response belongs to a different subsystem than the request.
    UnexpectedSubsystem,
    /// A correlated response carried an id other than the one just sent.
    UnexpectedRequestId { expected: u32, actual: u32 },
    /// The firmware sent an enumerator this client does not know.
    UnknownEnumValue { value: u32 },
    SetLayerBindingFailed { code: u32 },
    SaveChangesFailed { code: u32 },
    SetActivePhysicalLayoutFailed { code: u32 },
    MoveLayerFailed { code: u32 },
    AddLayerFailed { code: u32 },
    RemoveLayerFailed { code: u32 },
    RestoreLayerFailed { code: u32 },
    SetLayerPropsFailed { code: u32 },
    /// No layer with that id, or the key position lies outside the layer.
    InvalidLayerOrPosition { layer_id: u32, key_position: i32 },
    /// The firmware's catalog has no behavior under the needed role.
    MissingBehaviorRole(BehaviorRole),
    /// The catalog id for the role does not fit the signed wire field.
    BehaviorIdOutOfRange { behavior_id: u32 },
}

/// True of every error the call layer itself can produce: never one of the
/// domain-mapping errors, which only the typed keymap surface reports.
pub open spec fn not_mapping_error(e: ClientError) -> bool {
    &&& !(e is MissingBehaviorRole)
    &&& !(e is BehaviorIdOutOfRange)
    &&& !(e is InvalidLayerOrPosition)
}

/// The next request id: one more, wrapping on overflow.
pub open spec fn wrap_id(id: u32) -> u32 {
    if id == 0xFFFF_FFFFu32 {
        0u32
    } else {
        (id + 1) as u32
    }
}

/// The payload views of a queue of notifications, oldest first.
pub open spec fn notif_views(q: Seq<Notification>) -> Seq<Seq<u8>> {
    Seq::new(q.len(), |i: int| q[i]@)
}

/// The views of a queue of read-ahead correlated responses, oldest first.
pub open spec fn rr_views(q: Seq<RequestResponse>) -> Seq<RequestResponseView> {
    Seq::new(q.len(), |i: int| q[i]@)
}

proof fn lemma_notif_views_push(q: Seq<Notification>, n: Notification)
    ensures
        notif_views(q.push(n)) == notif_views(q).push(n@),
{
    assert(notif_views(q.push(n)) =~= notif_views(q).push(n@));
}

proof fn lemma_rr_views_push(q: Seq<RequestResponse>, rr: RequestResponse)
    ensures
        rr_views(q.push(rr)) == rr_views(q).push(rr@),
{
    assert(rr_views(q.push(rr)) =~= rr_views(q).push(rr@));
}

proof fn lemma_prefix_refl<A>(p: Seq<A>)
    ensures
        p.is_prefix_of(p),
{
    assert(p =~= p.subrange(0, p.len() as int));
}

proof fn lemma_prefix_concat<A>(a: Seq<A>, b: Seq<A>)
    ensures
        a.is_prefix_of(a + b),
{
    assert(a =~= (a + b).subrange(0, a.len() as int));
}

proof fn lemma_prefix_trans<A>(a: Seq<A>, b: Seq<A>, c: Seq<A>)
    requires
        a.is_prefix_of(b),
        b.is_prefix_of(c),
    ensures
        a.is_prefix_of(c),
{
    assert forall|i: int| 0 <= i < a.len() implies a[i] == c[i] by {
        assert(a[i] == b.subrange(0, a.len() as int)[i]);
        assert(b[i] == c.subrange(0, b.len() as int)[i]);
    }
    assert(a =~= c.subrange(0, a.len() as int));
}

/// The first layer carrying the given id, if any.
pub open spec fn spec_find_layer(layers: Seq<crate::messages::LayerView>, layer_id: u32) -> Option<
    crate::messages::LayerView,
>
    decreases layers.len(),
{
    if layers.len() == 0 {
        None
    } else if layers[0].id == layer_id {
        Some(layers[0])
    } else {
        spec_find_layer(layers.skip(1), layer_id)
    }
}

/// The raw binding a keymap holds at (layer id, key position): nothing if
/// the position is negative, no layer carries the id, or the position lies
/// past the layer's bindings.
pub open spec fn spec_binding_at(
    k: crate::messages::KeymapView,
    layer_id: u32,
    key_position: i32,
) -> Option<BehaviorBinding> {
    if key_position < 0 {
        None
    } else {
        match spec_find_layer(k.layers, layer_id) {
            Some(l) => if key_position < l.bindings.len() {
                Some(l.bindings[key_position as int])
            } else {
                None
            },
            None => None,
        }
    }
}

/// Locates the raw binding at (layer id, key position) in a keymap. An
/// absent layer and an out-of-range or negative position yield nothing
/// rather than a panic or an out-of-bounds read.
pub fn binding_at(keymap: &Keymap, layer_id: u32, key_position: i32) -> (r: Option<BehaviorBinding>)
    ensures
        r == spec_binding_at(keymap@, layer_id, key_position),
{
    if key_position < 0 {
        return None;
    }
    let pos = key_position as usize;
    let ghost layers = keymap@.layers;
    proof {
        assert(layers.skip(0) =~= layers);
    }
    let mut i: usize = 0;
    while i < keymap.layers.len()
        invariant
            i <= keymap.layers.len(),
            layers == keymap@.layers,
            key_position >= 0,
            pos == key_position as usize,
            spec_find_layer(layers, layer_id) == spec_find_layer(layers.skip(i as int), layer_id),
        decreases keymap.layers.len() - i,
    {
        proof {
            assert(layers.skip(i as int)[0] == layers[i as int]);
            assert(layers.skip(i as int).skip(1) =~= layers.skip(i + 1));
            assert(layers[i as int] == keymap.layers@[i as int]@);
        }
        if keymap.layers[i].id == layer_id {
            let layer = &keymap.layers[i];
            if pos < layer.bindings.len() {
                return Some(layer.bindings[pos]);
            } else {
                return None;
            }
        }
        i = i + 1;
    }
    proof {
        assert(layers.skip(layers.len() as int) =~= Seq::<crate::messages::LayerView>::empty());
    }
    None
}

/// The outcome of scanning a response stream for the reply to `sent_id`:
/// still pending, matched, or stopped by a correlated response with a
/// different id. `queued` collects the payloads of every notification seen
/// before the scan ended, in order.
pub enum CallOutcome {
    Pending { queued: Seq<Seq<u8>> },
    Matched { rr: RequestResponseView, queued: Seq<Seq<u8>> },
    Mismatched { actual: u32, queued: Seq<Seq<u8>> },
}

/// The engine's correlation policy over a stream of decoded responses:
/// notifications are queued and skipped; the first correlated response
/// either matches the sent id or ends the call in an error.
pub open spec fn correlate_run(sent_id: u32, stream: Seq<ResponseView>) -> CallOutcome
    decreases stream.len(),
{
    if stream.len() == 0 {
        CallOutcome::Pending { queued: Seq::empty() }
    } else {
        match stream[0] {
            ResponseView::Notification(p) => match correlate_run(sent_id, stream.skip(1)) {
                CallOutcome::Pending { queued } => (CallOutcome::Pending {
                    queued: seq![p] + queued,
                }),
                CallOutcome::Matched { rr, queued } => (CallOutcome::Matched {
                    rr,
                    queued: seq![p] + queued,
                }),
                CallOutcome::Mismatched { actual, queued } => (CallOutcome::Mismatched {
                    actual,
                    queued: seq![p] + queued,
                }),
            },
            ResponseView::RequestResponse(rr) => if rr.request_id == sent_id {
                CallOutcome::Matched { rr, queued: Seq::empty() }
            } else {
                CallOutcome::Mismatched { actual: rr.request_id, queued: Seq::empty() }
            },
        }
    }
}

/// The correlated responses of a response stream, in arrival order.
pub open spec fn rr_entries(s: Seq<ResponseView>) -> Seq<RequestResponseView>
    decreases s.len(),
{
    if s.len() == 0 {
        Seq::empty()
    } else {
        match s[0] {
            ResponseView::RequestResponse(rr) => seq![rr] + rr_entries(s.skip(1)),
            ResponseView::Notification(_) => rr_entries(s.skip(1)),
        }
    }
}

/// The notification payloads of a response stream, in arrival order.
pub open spec fn note_entries(s: Seq<ResponseView>) -> Seq<Seq<u8>>
    decreases s.len(),
{
    if s.len() == 0 {
        Seq::empty()
    } else {
        match s[0] {
            ResponseView::RequestResponse(_) => note_entries(s.skip(1)),
            ResponseView::Notification(p) => seq![p] + note_entries(s.skip(1)),
        }
    }
}

/// A stream consisting of correlated responses only.
pub open spec fn rr_stream(q: Seq<RequestResponseView>) -> Seq<ResponseView> {
    Seq::new(q.len(), |i: int| ResponseView::RequestResponse(q[i]))
}

proof fn lemma_rr_entries_concat(a: Seq<ResponseView>, b: Seq<ResponseView>)
    ensures
        rr_entries(a + b) == rr_entries(a) + rr_entries(b),
        note_entries(a + b) == note_entries(a) + note_entries(b),
    decreases a.len(),
{
    if a.len() == 0 {
        assert(a + b =~= b);
        assert(rr_entries(a) + rr_entries(b) =~= rr_entries(b));
        assert(note_entries(a) + note_entries(b) =~= note_entries(b));
    } else {
        lemma_rr_entries_concat(a.skip(1), b);
        assert((a + b)[0] == a[0]);
        assert((a + b).skip(1) =~= a.skip(1) + b);
        match a[0] {
            ResponseView::RequestResponse(rr) => {
                assert(seq![rr] + (rr_entries(a.skip(1)) + rr_entries(b)) =~= (seq![rr]
                    + rr_entries(a.skip(1))) + rr_entries(b));
            },
            ResponseView::Notification(p) => {
                assert(seq![p] + (note_entries(a.skip(1)) + note_entries(b)) =~= (seq![p]
                    + note_entries(a.skip(1))) + note_entries(b));
            },
        }
    }
}

proof fn lemma_rr_entries_of_rr_stream(q: Seq<RequestResponseView>)
    ensures
        rr_entries(rr_stream(q)) == q,
        note_entries(rr_stream(q)) == Seq::<Seq<u8>>::empty(),
    decreases q.len(),
{
    if q.len() == 0 {
        assert(rr_stream(q).len() == 0);
        assert(rr_entries(rr_stream(q)) =~= q);
    } else {
        lemma_rr_entries_of_rr_stream(q.skip(1));
        assert(rr_stream(q)[0] == ResponseView::RequestResponse(q[0]));
        assert(rr_stream(q).skip(1) =~= rr_stream(q.skip(1)));
        assert(seq![q[0]] + q.skip(1) =~= q);
    }
}

proof fn lemma_rr_note_lengths(s: Seq<ResponseView>)
    ensures
        rr_entries(s).len() + note_entries(s).len() == s.len(),
    decreases s.len(),
{
    if s.len() > 0 {
        lemma_rr_note_lengths(s.skip(1));
    }
}

/// The outcome of the correlation scan is decided by the first correlated
/// response in the stream: none means the scan is still pending, a
/// matching id returns that response, any other id ends the call.
pub proof fn lemma_correlate_by_first_rr(sent_id: u32, stream: Seq<ResponseView>)
    ensures
        rr_entries(stream).len() == 0 ==> correlate_run(sent_id, stream) is Pending,
        rr_entries(stream).len() > 0 ==> {
            let first = rr_entries(stream)[0];
            if first.request_id == sent_id {
                correlate_run(sent_id, stream) matches CallOutcome::Matched { rr, queued } && rr
                    == first
            } else {
                correlate_run(sent_id, stream) matches CallOutcome::Mismatched { actual, queued }
                    && actual == first.request_id
            }
        },
    decreases stream.len(),
{
    if stream.len() > 0 {
        match stream[0] {
            ResponseView::Notification(p) => {
                lemma_correlate_by_first_rr(sent_id, stream.skip(1));
            },
            ResponseView::RequestResponse(rr) => {
                assert(rr_entries(stream)[0] == rr);
            },
        }
    }
}

/// Correlation law: however many notifications arrive before the reply,
/// the scan returns exactly the correlated response whose id equals the id
/// sent, and queues exactly those notifications, in their original order.
pub proof fn lemma_correlation(
    sent_id: u32,
    notes: Seq<ResponseView>,
    rr: RequestResponseView,
    rest: Seq<ResponseView>,
)
    requires
        forall|i: int| 0 <= i < notes.len() ==> notes[i] is Notification,
        rr.request_id == sent_id,
    ensures
        correlate_run(sent_id, notes + seq![ResponseView::RequestResponse(rr)] + rest)
            == (CallOutcome::Matched { rr, queued: note_entries(notes) }),
    decreases notes.len(),
{
    let stream = notes + seq![ResponseView::RequestResponse(rr)] + rest;
    if notes.len() == 0 {
        assert(stream[0] == ResponseView::RequestResponse(rr));
        assert(note_entries(notes) =~= Seq::<Seq<u8>>::empty());
    } else {
        lemma_correlation(sent_id, notes.skip(1), rr, rest);
        assert(stream[0] == notes[0]);
        assert(stream.skip(1) =~= notes.skip(1) + seq![ResponseView::RequestResponse(rr)] + rest);
        assert(notes[0] is Notification);
        let p0 = match notes[0] {
            ResponseView::Notification(p) => p,
            _ => Seq::empty(),
        };
        assert(note_entries(notes) == seq![p0] + note_entries(notes.skip(1)));
    }
}

/// The wire bytes of a sequence of requests, each one frame-encoded under
/// its id, one after the next.
pub open spec fn enc_requests(log: Seq<(u32, SubsystemRequestView)>) -> Seq<u8>
    decreases log.len(),
{
    if log.len() == 0 {
        Seq::empty()
    } else {
        enc_requests(log.drop_last()) + encode_frame_spec(
            spec_enc_request(
                RequestView { request_id: log.last().0, subsystem: log.last().1 },
            ),
        )
    }
}

/// A request that only reads device state, never mutating the working
/// keymap or the device's settings.
pub open spec fn read_only_request(s: SubsystemRequestView) -> bool {
    match s {
        SubsystemRequestView::Core(c) => !(c is ResetSettings),
        SubsystemRequestView::Behaviors(b) => true,
        SubsystemRequestView::Keymap(k) => k is GetKeymap || k is GetPhysicalLayouts || k
            is CheckUnsavedChanges,
    }
}

/// Whether a response stream holds the given correlated response.
pub open spec fn stream_contains(s: Seq<ResponseView>, rr: RequestResponseView) -> bool {
    exists|i: int| 0 <= i < s.len() && s[i] == ResponseView::RequestResponse(rr)
}

/// Whether a response stream holds a correlated response with the given
/// id and subsystem result.
pub open spec fn stream_contains_result(
    s: Seq<ResponseView>,
    request_id: u32,
    result: SubsystemResultView,
) -> bool {
    exists|i: int|
        0 <= i < s.len() && ((#[trigger] s[i]) matches ResponseView::RequestResponse(rr)
            && rr.request_id == request_id && rr.result == result)
}

/// A matched scan returns a response carrying exactly the id scanned for.
pub proof fn lemma_matched_id(sent_id: u32, stream: Seq<ResponseView>)
    ensures
        correlate_run(sent_id, stream) is Matched ==> correlate_run(
            sent_id,
            stream,
        )->Matched_rr.request_id == sent_id,
    decreases stream.len(),
{
    if stream.len() > 0 {
        match stream[0] {
            ResponseView::Notification(p) => {
                lemma_matched_id(sent_id, stream.skip(1));
            },
            ResponseView::RequestResponse(rr) => {},
        }
    }
}

/// The RPC client engine: owns the session state and multiplexes one
/// transport between correlated request/response traffic and asynchronous
/// notifications. At most one call is in flight at a time by construction;
/// instances are not meant to be shared without external serialization.
pub struct StudioClient<T: ByteChannel> {
    io: T,
    next_request_id: u32,
    decoder: FrameDecoder,
    read_buffer_size: usize,
    pending: std::collections::VecDeque<RequestResponse>,
    notifications: std::collections::VecDeque<Notification>,
    roles: RoleTable,
    seen: Ghost<Seq<ResponseView>>,
}

impl<T: ByteChannel> StudioClient<T> {
    /// The transport this client owns.
    pub closed spec fn channel(&self) -> T {
        self.io
    }

    /// The id the next request will carry.
    pub closed spec fn next_id_spec(&self) -> u32 {
        self.next_request_id
    }

    /// Correlated responses read ahead of demand, oldest first.
    pub closed spec fn pending_view(&self) -> Seq<RequestResponseView> {
        rr_views(self.pending@)
    }

    /// Notification payloads awaiting consumption, oldest first.
    pub closed spec fn notifications_view(&self) -> Seq<Seq<u8>> {
        notif_views(self.notifications@)
    }

    /// The session's behavior role table.
    pub closed spec fn roles_spec(&self) -> RoleTable {
        self.roles
    }

    /// Every response the engine has decoded and routed, in arrival order:
    /// the session's response stream as far as it has been read.
    pub closed spec fn seen_spec(&self) -> Seq<ResponseView> {
        self.seen@
    }

    pub closed spec fn read_buffer_spec(&self) -> usize {
        self.read_buffer_size
    }

    /// Every read-ahead correlated response appears in the session's
    /// response stream: the pending queue only ever holds what was read.
    pub open spec fn pending_logged(&self) -> bool {
        forall|i: int|
            0 <= i < self.pending_view().len() ==> stream_contains(
                self.seen_spec(),
                #[trigger] self.pending_view()[i],
            )
    }

    /// Session well-formedness: the role table is coherent, reads use a
    /// non-empty buffer, and the read-ahead queue is part of the logged
    /// response stream. Constructors establish it; every method keeps it.
    pub open spec fn wf(&self) -> bool {
        &&& self.roles_spec().wf()
        &&& self.read_buffer_spec() > 0
        &&& self.pending_logged()
    }

    /// A client over `io` with the default read buffer size.
    pub fn new(io: T) -> (c: Self)
        ensures
            c.wf(),
            c.channel() == io,
            c.next_id_spec() == 0,
            c.read_buffer_spec() == 256,
            c.pending_view() == Seq::<RequestResponseView>::empty(),
            c.notifications_view() == Seq::<Seq<u8>>::empty(),
            c.seen_spec() == Seq::<ResponseView>::empty(),
            !c.roles_spec().is_built_spec(),
    {
        Self::with_read_buffer(io, 256)
    }

    /// A client over `io` reading at most `read_buffer_size` bytes at a
    /// time (at least one).
    pub fn with_read_buffer(io: T, read_buffer_size: usize) -> (c: Self)
        ensures
            c.wf(),
            c.channel() == io,
            c.next_id_spec() == 0,
            c.read_buffer_spec() == (if read_buffer_size == 0 {
                1usize
            } else {
                read_buffer_size
            }),
            c.pending_view() == Seq::<RequestResponseView>::empty(),
            c.notifications_view() == Seq::<Seq<u8>>::empty(),
            c.seen_spec() == Seq::<ResponseView>::empty(),
            !c.roles_spec().is_built_spec(),
    {
        let size = if read_buffer_size == 0 {
            1
        } else {
            read_buffer_size
        };
        let c = StudioClient {
            io,
            next_request_id: 0,
            decoder: FrameDecoder::new(),
            read_buffer_size: size,
            pending: std::collections::VecDeque::new(),
            notifications: std::collections::VecDeque::new(),
            roles: RoleTable::new(),
            seen: Ghost(Seq::empty()),
        };
        proof {
            assert(c.pending_view() =~= Seq::<RequestResponseView>::empty());
            assert(c.notifications_view() =~= Seq::<Seq<u8>>::empty());
        }
        c
    }

    /// Releases the transport.
    pub fn into_inner(self) -> (r: T)
        ensures
            r == self.channel(),
    {
        self.io
    }

    /// Non-blocking dequeue of the oldest pending notification.
    pub fn next_notification(&mut self) -> (r: Option<Notification>)
        ensures
            final(self).channel() == old(self).channel(),
            final(self).next_id_spec() == old(self).next_id_spec(),
            final(self).pending_view() == old(self).pending_view(),
            final(self).roles_spec() == old(self).roles_spec(),
            final(self).read_buffer_spec() == old(self).read_buffer_spec(),
            final(self).seen_spec() == old(self).seen_spec(),
            match r {
                Some(n) => {
                    &&& old(self).notifications_view().len() > 0
                    &&& n@ == old(self).notifications_view()[0]
                    &&& final(self).notifications_view() == old(self).notifications_view().skip(1)
                },
                None => {
                    &&& old(self).notifications_view().len() == 0
                    &&& final(self).notifications_view() == old(self).notifications_view()
                },
            },
    {
        let r = self.notifications.pop_front();
        proof {
            if old(self).notifications@.len() > 0 {
                assert(final(self).notifications_view() =~= old(self).notifications_view().skip(
                    1,
                ));
            }
        }
        r
    }

    /// One transport read cycle: blocks for bytes, feeds them to the frame
    /// decoder, and routes every completed envelope in arrival order —
    /// notifications to the notification queue, correlated responses to the
    /// read-ahead queue — repeating until at least one envelope arrives.
    fn pump(&mut self) -> (r: Result<(), ClientError>)
        requires
            old(self).wf(),
        ensures
            final(self).wf(),
            final(self).next_id_spec() == old(self).next_id_spec(),
            final(self).roles_spec() == old(self).roles_spec(),
            final(self).read_buffer_spec() == old(self).read_buffer_spec(),
            final(self).channel().outbox() == old(self).channel().outbox(),
            old(self).notifications_view().is_prefix_of(final(self).notifications_view()),
            old(self).pending_view().is_prefix_of(final(self).pending_view()),
            r is Ok ==> {
                &&& final(self).channel().inbox().len() < old(self).channel().inbox().len()
                &&& final(self).notifications_view().len() + final(self).pending_view().len()
                    > old(self).notifications_view().len() + old(self).pending_view().len()
            },
            r is Err ==> {
                &&& final(self).notifications_view() == old(self).notifications_view()
                &&& final(self).pending_view() == old(self).pending_view()
                &&& final(self).seen_spec() == old(self).seen_spec()
            },
            r is Ok ==> ({
                let delta = final(self).seen_spec().skip(old(self).seen_spec().len() as int);
                &&& final(self).seen_spec() == old(self).seen_spec() + delta
                &&& delta.len() > 0
                &&& final(self).notifications_view() == old(self).notifications_view()
                    + note_entries(delta)
                &&& final(self).pending_view() == old(self).pending_view() + rr_entries(delta)
            }),
            match r {
                Ok(u) => true,
                Err(e) => e is Transport || e is EndOfStream || e is Protocol,
            },
    {
        proof {
            lemma_prefix_refl(old(self).notifications_view());
            lemma_prefix_refl(old(self).pending_view());
        }
        loop
            invariant
                self.wf(),
                self.next_request_id == old(self).next_request_id,
                self.roles == old(self).roles,
                self.read_buffer_size == old(self).read_buffer_size,
                self.io.outbox() == old(self).io.outbox(),
                self.io.inbox().len() <= old(self).io.inbox().len(),
                self.notifications_view() == old(self).notifications_view(),
                self.pending_view() == old(self).pending_view(),
                self.seen@ == old(self).seen@,
            decreases self.io.inbox().len(),
        {
            let chunk = match self.io.recv(self.read_buffer_size) {
                Ok(v) => v,
                Err(e) => {
                    proof {
                        lemma_prefix_refl(self.notifications_view());
                        lemma_prefix_refl(self.pending_view());
                    }
                    return Err(ClientError::Transport(e));
                },
            };
            if chunk.len() == 0 {
                proof {
                    lemma_prefix_refl(self.notifications_view());
                    lemma_prefix_refl(self.pending_view());
                }
                return Err(ClientError::EndOfStream);
            }
            let mut decoded = match decode_responses(&mut self.decoder, chunk.as_slice()) {
                Ok(d) => d,
                Err(e) => {
                    proof {
                        lemma_prefix_refl(self.notifications_view());
                        lemma_prefix_refl(self.pending_view());
                    }
                    return Err(ClientError::Protocol(e));
                },
            };
            let got = decoded.len() > 0;
            let ghost mid_notifs = self.notifications_view();
            let ghost mid_pending = self.pending_view();
            let ghost mid_seen = self.seen@;
            let ghost mid_io = self.io;
            let ghost total = decoded@.len();
            let ghost mut routed: Seq<ResponseView> = Seq::empty();
            proof {
                assert(self.seen@ =~= mid_seen + routed);
                assert(self.notifications_view() =~= mid_notifs + note_entries(routed));
                assert(self.pending_view() =~= mid_pending + rr_entries(routed));
            }
            while decoded.len() > 0
                invariant
                    self.wf(),
                    self.next_request_id == old(self).next_request_id,
                    self.roles == old(self).roles,
                    self.read_buffer_size == old(self).read_buffer_size,
                    self.io == mid_io,
                    decoded@.len() <= total,
                    routed.len() == total - decoded@.len(),
                    self.seen@ == mid_seen + routed,
                    self.notifications_view() == mid_notifs + note_entries(routed),
                    self.pending_view() == mid_pending + rr_entries(routed),
                decreases decoded@.len(),
            {
                let resp = decoded.remove(0);
                let ghost rv = resp@;
                proof {
                    lemma_rr_entries_concat(routed, seq![rv]);
                    assert(seq![rv].skip(1) =~= Seq::<ResponseView>::empty());
                    assert(routed.push(rv) =~= routed + seq![rv]);
                }
                match resp {
                    Response::Notification(n) => {
                        let ghost pre = self.notifications@;
                        self.notifications.push_back(n);
                        proof {
                            reveal_with_fuel(note_entries, 2);
                            reveal_with_fuel(rr_entries, 2);
                            lemma_notif_views_push(pre, n);
                            assert(rv == ResponseView::Notification(n@));
                            assert(note_entries(seq![rv]) =~= seq![n@]);
                            assert(rr_entries(seq![rv]) =~= Seq::<RequestResponseView>::empty());
                            assert(mid_notifs + note_entries(routed.push(rv)) =~= (mid_notifs
                                + note_entries(routed)).push(n@));
                            assert(mid_pending + rr_entries(routed.push(rv)) =~= mid_pending
                                + rr_entries(routed));
                        }
                    },
                    Response::RequestResponse(rr) => {
                        let ghost pre = self.pending@;
                        self.pending.push_back(rr);
                        proof {
                            reveal_with_fuel(note_entries, 2);
                            reveal_with_fuel(rr_entries, 2);
                            lemma_rr_views_push(pre, rr);
                            assert(rv == ResponseView::RequestResponse(rr@));
                            assert(rr_entries(seq![rv]) =~= seq![rr@]);
                            assert(note_entries(seq![rv]) =~= Seq::<Seq<u8>>::empty());
                            assert(mid_pending + rr_entries(routed.push(rv)) =~= (mid_pending
                                + rr_entries(routed)).push(rr@));
                            assert(mid_notifs + note_entries(routed.push(rv)) =~= mid_notifs
                                + note_entries(routed));
                        }
                    },
                }
                proof {
                    let seen_pre = self.seen@;
                    let routed_pre = routed;
                    self.seen@ = self.seen@.push(rv);
                    routed = routed.push(rv);
                    assert(self.seen@ =~= mid_seen + routed);
                    let pend_top = mid_pending + rr_entries(routed_pre);
                    assert forall|i2: int| 0 <= i2 < self.pending_view().len() implies
                        stream_contains(self.seen@, #[trigger] self.pending_view()[i2]) by {
                        let p = self.pending_view()[i2];
                        if i2 < pend_top.len() {
                            assert(p == pend_top[i2]);
                            assert(stream_contains(seen_pre, p));
                            let j = choose|j: int|
                                0 <= j < seen_pre.len() && seen_pre[j]
                                    == ResponseView::RequestResponse(p);
                            assert(self.seen@[j] == ResponseView::RequestResponse(p));
                            assert(stream_contains(self.seen@, p));
                        } else {
                            assert(self.seen@[self.seen@.len() - 1] == rv);
                            assert(rv == ResponseView::RequestResponse(p));
                            assert(stream_contains(self.seen@, p));
                        }
                    }
                }
            }
            if got {
                proof {
                    assert((mid_seen + routed).skip(mid_seen.len() as int) =~= routed);
                    lemma_rr_note_lengths(routed);
                    assert(mid_notifs.is_prefix_of(self.notifications_view())) by {
                        assert(mid_notifs =~= (mid_notifs + note_entries(routed)).subrange(
                            0,
                            mid_notifs.len() as int,
                        ));
                    }
                    assert(mid_pending.is_prefix_of(self.pending_view())) by {
                        assert(mid_pending =~= (mid_pending + rr_entries(routed)).subrange(
                            0,
                            mid_pending.len() as int,
                        ));
                    }
                }
                return Ok(());
            }
        }
    }

    /// Blocks until a notification is available: drains the queue first,
    /// otherwise performs read cycles, preserving every correlated response
    /// read ahead for a subsequent call.
    pub fn read_notification_blocking(&mut self) -> (r: Result<Notification, ClientError>)
        requires
            old(self).wf(),
        ensures
            final(self).wf(),
            final(self).next_id_spec() == old(self).next_id_spec(),
            final(self).roles_spec() == old(self).roles_spec(),
            final(self).read_buffer_spec() == old(self).read_buffer_spec(),
            final(self).channel().outbox() == old(self).channel().outbox(),
            ({
                let delta = Self::call_delta(*old(self), *final(self));
                &&& final(self).seen_spec() == old(self).seen_spec() + delta
                &&& final(self).pending_view() == old(self).pending_view() + rr_entries(delta)
                &&& (old(self).notifications_view().len() > 0 ==> delta.len() == 0 && (r
                    matches Ok(n) ==> n@ == old(self).notifications_view()[0]
                    && final(self).notifications_view() == old(
                    self,
                ).notifications_view().skip(1)))
                &&& (old(self).notifications_view().len() == 0 ==> (r matches Ok(n) ==> {
                    &&& note_entries(delta).len() > 0
                    &&& n@ == note_entries(delta)[0]
                    &&& final(self).notifications_view() == note_entries(delta).skip(1)
                }))
                &&& (r is Err ==> final(self).notifications_view() == old(
                    self,
                ).notifications_view() + note_entries(delta))
            }),
    {
        proof {
            assert(old(self).seen@.skip(old(self).seen@.len() as int)
                =~= Seq::<ResponseView>::empty());
            assert(old(self).seen@ + Seq::<ResponseView>::empty() =~= old(self).seen@);
            assert(old(self).pending_view() + rr_entries(Seq::<ResponseView>::empty())
                =~= old(self).pending_view());
        }
        if let Some(n) = self.next_notification() {
            return Ok(n);
        }
        loop
            invariant
                self.wf(),
                self.next_request_id == old(self).next_request_id,
                self.roles == old(self).roles,
                self.read_buffer_size == old(self).read_buffer_size,
                self.io.outbox() == old(self).io.outbox(),
                old(self).notifications_view().len() == 0,
                old(self).seen@.len() <= self.seen@.len(),
                self.seen@ == old(self).seen@ + self.seen@.skip(old(self).seen@.len() as int),
                self.pending_view() == old(self).pending_view() + rr_entries(
                    self.seen@.skip(old(self).seen@.len() as int),
                ),
                self.notifications_view() == note_entries(
                    self.seen@.skip(old(self).seen@.len() as int),
                ),
            decreases self.io.inbox().len(),
        {
            let ghost delta = self.seen@.skip(old(self).seen@.len() as int);
            if let Some(n) = self.next_notification() {
                proof {
                    assert(n@ == note_entries(delta)[0]);
                    assert(self.notifications_view() =~= note_entries(delta).skip(1));
                }
                return Ok(n);
            }
            let ghost mid_seen = self.seen@;
            match self.pump() {
                Ok(u) => {
                    proof {
                        let d2 = self.seen@.skip(mid_seen.len() as int);
                        assert(self.seen@ =~= old(self).seen@ + (delta + d2));
                        assert(self.seen@.skip(old(self).seen@.len() as int) =~= delta + d2);
                        lemma_rr_entries_concat(delta, d2);
                        assert(self.pending_view() =~= old(self).pending_view() + rr_entries(
                            delta + d2,
                        ));
                        assert(self.notifications_view() =~= note_entries(delta + d2));
                    }
                },
                Err(e) => {
                    return Err(e);
                },
            }
        }
    }

    /// The responses one call read: the session stream's new suffix.
    pub open spec fn call_delta(prior: Self, post: Self) -> Seq<ResponseView> {
        post.seen_spec().skip(prior.seen_spec().len() as int)
    }

    /// The stream one call scans: the read-ahead correlated responses it
    /// started with, then everything it read, in arrival order.
    pub open spec fn call_stream(prior: Self, post: Self) -> Seq<ResponseView> {
        rr_stream(prior.pending_view()) + Self::call_delta(prior, post)
    }

    /// The correlation scan's outcome for one call.
    pub open spec fn call_outcome(prior: Self, post: Self) -> CallOutcome {
        correlate_run(prior.next_id_spec(), Self::call_stream(prior, post))
    }

    /// The subsystem result of the response that answered the call.
    pub open spec fn matched_result(prior: Self, post: Self) -> SubsystemResultView {
        Self::call_outcome(prior, post)->Matched_rr.result
    }

    /// The call wrote exactly one request to the transport, under its
    /// fresh id, carrying the given subsystem payload.
    pub open spec fn sent_request(
        prior: Self,
        post: Self,
        subsystem: SubsystemRequestView,
    ) -> bool {
        post.channel().outbox() == prior.channel().outbox() + encode_frame_spec(
            spec_enc_request(RequestView { request_id: prior.next_id_spec(), subsystem }),
        )
    }

    /// How one failed call relates to the scan: each error the call layer
    /// can produce is tied to the scanned stream, and every variant it
    /// never produces is excluded. A transport error either struck before
    /// anything was read, or while the scan was still pending; an end of
    /// stream or a decode failure can only strike while it was pending.
    pub open spec fn call_failed_with(prior: Self, post: Self, e: ClientError) -> bool {
        let outcome = Self::call_outcome(prior, post);
        match e {
            ClientError::UnexpectedRequestId { expected, actual } => {
                &&& expected == prior.next_id_spec()
                &&& actual != expected
                &&& outcome is Mismatched
                &&& outcome->Mismatched_actual == actual
            },
            ClientError::NoResponse => outcome is Matched && Self::matched_result(prior, post)
                == SubsystemResultView::Meta(MetaResult::NoResponse),
            ClientError::Meta(condition) => {
                &&& outcome is Matched
                &&& (Self::matched_result(prior, post) matches SubsystemResultView::Meta(
                    MetaResult::SimpleError { code },
                ) && spec_meta_error_of(code) == Some(condition))
            },
            ClientError::UnknownEnumValue { value } => {
                &&& outcome is Matched
                &&& Self::matched_result(prior, post) == SubsystemResultView::Meta(
                    MetaResult::SimpleError { code: value },
                )
                &&& spec_meta_error_of(value) is None
            },
            ClientError::Transport(_) => outcome is Pending || Self::call_delta(prior, post).len()
                == 0,
            ClientError::EndOfStream => outcome is Pending,
            ClientError::Protocol(_) => outcome is Pending,
            _ => false,
        }
    }

    /// How a finished call relates to the session's response stream: its
    /// result agrees with [`correlate_run`] over [`Self::call_stream`],
    /// the stream is logged, and the notifications it queued are exactly
    /// the stream's notification payloads, in order.
    pub open spec fn call_correlates(
        prior: Self,
        post: Self,
        r: Result<RequestResponse, ClientError>,
    ) -> bool {
        let delta = Self::call_delta(prior, post);
        let outcome = Self::call_outcome(prior, post);
        &&& post.seen_spec() == prior.seen_spec() + delta
        &&& post.notifications_view() == prior.notifications_view() + note_entries(delta)
        &&& match r {
            Ok(rr) => {
                &&& outcome is Matched
                &&& outcome->Matched_rr == rr@
                &&& stream_contains(post.seen_spec(), rr@)
            },
            Err(e) => Self::call_failed_with(prior, post, e),
        }
    }

    /// Sends one subsystem request under a fresh id and reads responses
    /// until its correlated reply arrives. Every notification observed on
    /// the way is queued, never discarded; a correlated response with a
    /// different id is a fatal protocol error, since at most one call is
    /// outstanding at a time. A meta result pre-empts success.
    ///
    /// The scan policy over the response stream is stated by
    /// [`correlate_run`]; [`lemma_correlation`] proves that it returns the
    /// reply whose id equals the id sent, however many notifications arrive
    /// first, and queues exactly those notifications in order.
    pub fn call(&mut self, subsystem: SubsystemRequest) -> (r: Result<RequestResponse, ClientError>)
        requires
            old(self).wf(),
        ensures
            final(self).wf(),
            final(self).roles_spec() == old(self).roles_spec(),
            final(self).read_buffer_spec() == old(self).read_buffer_spec(),
            final(self).next_id_spec() == wrap_id(old(self).next_id_spec()),
            old(self).notifications_view().is_prefix_of(final(self).notifications_view()),
            old(self).channel().outbox().is_prefix_of(final(self).channel().outbox()),
            (r matches Err(e) ==> not_mapping_error(e)),
            (!(r matches Err(ClientError::Transport(_))) ==> Self::sent_request(
                *old(self),
                *final(self),
                subsystem@,
            )),
            match r {
                Ok(rr) => rr@.request_id == old(self).next_id_spec() && !(rr@.result is Meta),
                Err(e) => match e {
                    ClientError::UnexpectedRequestId { expected, actual } => {
                        &&& expected == old(self).next_id_spec()
                        &&& actual != expected
                    },
                    _ => true,
                },
            },
            Self::call_correlates(*old(self), *final(self), r),
    {
        let request_id = self.next_request_id;
        self.next_request_id = if request_id == 0xFFFF_FFFF {
            0
        } else {
            request_id + 1
        };
        let request = Request { request_id, subsystem };
        let bytes = encode_request(&request);
        proof {
            lemma_prefix_refl(old(self).notifications_view());
            assert(old(self).seen@ + Seq::<ResponseView>::empty() =~= old(self).seen@);
            assert(old(self).seen@.skip(old(self).seen@.len() as int)
                =~= Seq::<ResponseView>::empty());
            assert(old(self).pending_view() + rr_entries(Seq::<ResponseView>::empty())
                =~= old(self).pending_view());
            assert(old(self).notifications_view() + note_entries(Seq::<ResponseView>::empty())
                =~= old(self).notifications_view());
        }
        match self.io.send_all(bytes.as_slice()) {
            Ok(u) => {},
            Err(e) => {
                return Err(ClientError::Transport(e));
            },
        }
        proof {
            lemma_prefix_concat(old(self).io.outbox(), bytes@);
        }
        loop
            invariant
                self.wf(),
                self.next_request_id == wrap_id(old(self).next_id_spec()),
                self.roles == old(self).roles,
                self.read_buffer_size == old(self).read_buffer_size,
                request_id == old(self).next_id_spec(),
                self.io.outbox() == old(self).io.outbox() + encode_frame_spec(
                    spec_enc_request(
                        RequestView {
                            request_id: old(self).next_id_spec(),
                            subsystem: subsystem@,
                        },
                    ),
                ),
                old(self).notifications_view().is_prefix_of(self.notifications_view()),
                old(self).seen@.len() <= self.seen@.len(),
                self.seen@ == old(self).seen@ + self.seen@.skip(old(self).seen@.len() as int),
                self.pending_view() == old(self).pending_view() + rr_entries(
                    self.seen@.skip(old(self).seen@.len() as int),
                ),
                self.notifications_view() == old(self).notifications_view() + note_entries(
                    self.seen@.skip(old(self).seen@.len() as int),
                ),
            decreases self.io.inbox().len(), self.pending@.len(),
        {
            let ghost delta = self.seen@.skip(old(self).seen@.len() as int);
            let ghost stream = rr_stream(old(self).pending_view()) + delta;
            proof {
                lemma_rr_entries_of_rr_stream(old(self).pending_view());
                lemma_rr_entries_concat(rr_stream(old(self).pending_view()), delta);
            }
            if self.pending.len() > 0 {
                let ghost pend_top = self.pending_view();
                let rr = self.pending.pop_front().unwrap();
                proof {
                    assert(rr_entries(stream) =~= old(self).pending_view() + rr_entries(delta));
                    assert(rr@ == rr_entries(stream)[0]);
                    lemma_correlate_by_first_rr(request_id, stream);
                    assert(self.pending_view() =~= pend_top.skip(1));
                    assert(rr@ == pend_top[0]);
                    assert(stream_contains(self.seen@, rr@));
                    assert forall|i2: int| 0 <= i2 < self.pending_view().len() implies
                        stream_contains(self.seen@, #[trigger] self.pending_view()[i2]) by {
                        assert(self.pending_view()[i2] == pend_top[i2 + 1]);
                        assert(stream_contains(self.seen@, pend_top[i2 + 1]));
                    }
                }
                if rr.request_id != request_id {
                    return Err(ClientError::UnexpectedRequestId {
                        expected: request_id,
                        actual: rr.request_id,
                    });
                }
                match &rr.result {
                    SubsystemResult::Meta(meta) => match meta {
                        MetaResult::NoResponse => {
                            return Err(ClientError::NoResponse);
                        },
                        MetaResult::SimpleError { code } => match meta_error_of(*code) {
                            Some(condition) => {
                                return Err(ClientError::Meta(condition));
                            },
                            None => {
                                return Err(ClientError::UnknownEnumValue { value: *code });
                            },
                        },
                    },
                    _ => {},
                }
                return Ok(rr);
            }
            let ghost mid_notifs = self.notifications_view();
            let ghost mid_seen = self.seen@;
            match self.pump() {
                Ok(u) => {
                    proof {
                        lemma_prefix_trans(
                            old(self).notifications_view(),
                            mid_notifs,
                            self.notifications_view(),
                        );
                        let d2 = self.seen@.skip(mid_seen.len() as int);
                        assert(self.seen@ =~= old(self).seen@ + (delta + d2));
                        assert(self.seen@.skip(old(self).seen@.len() as int) =~= delta + d2);
                        lemma_rr_entries_concat(delta, d2);
                        assert(self.pending_view() =~= old(self).pending_view() + rr_entries(
                            delta + d2,
                        ));
                        assert(self.notifications_view() =~= old(self).notifications_view()
                            + note_entries(delta + d2));
                    }
                },
                Err(e) => {
                    proof {
                        assert(rr_entries(stream) =~= old(self).pending_view() + rr_entries(
                            delta,
                        ));
                        assert(rr_entries(stream).len() == 0);
                        lemma_correlate_by_first_rr(request_id, stream);
                    }
                    return Err(e);
                },
            }
        }
    }

    /// What every typed call keeps of the session: well-formedness, the
    /// role table, the read buffer, every queued notification (in order),
    /// everything already written to the transport, and the request id
    /// advanced by exactly one.
    pub open spec fn session_kept(&self, prior: Self) -> bool {
        &&& self.wf()
        &&& self.roles_spec() == prior.roles_spec()
        &&& self.read_buffer_spec() == prior.read_buffer_spec()
        &&& prior.notifications_view().is_prefix_of(self.notifications_view())
        &&& prior.channel().outbox().is_prefix_of(self.channel().outbox())
        &&& self.next_id_spec() == wrap_id(prior.next_id_spec())
    }

    /// The result of a core-subsystem call, resolved against the scan: a
    /// success carries exactly the core payload of the matched response, a
    /// foreign subsystem in the matched response is reported as such, and
    /// every other error is the call layer's own.
    pub open spec fn core_call_resolved(
        prior: Self,
        post: Self,
        r: Result<CoreResult, ClientError>,
    ) -> bool {
        let outcome = Self::call_outcome(prior, post);
        match r {
            Ok(c) => {
                &&& outcome is Matched
                &&& Self::matched_result(prior, post) == SubsystemResultView::Core(c@)
            },
            Err(e) => match e {
                ClientError::UnexpectedSubsystem => {
                    &&& outcome is Matched
                    &&& !(Self::matched_result(prior, post) is Core)
                    &&& !(Self::matched_result(prior, post) is Meta)
                },
                _ => Self::call_failed_with(prior, post, e),
            },
        }
    }

    /// As [`Self::core_call_resolved`], for the behaviors subsystem.
    pub open spec fn behaviors_call_resolved(
        prior: Self,
        post: Self,
        r: Result<BehaviorsResult, ClientError>,
    ) -> bool {
        let outcome = Self::call_outcome(prior, post);
        match r {
            Ok(b) => {
                &&& outcome is Matched
                &&& Self::matched_result(prior, post) == SubsystemResultView::Behaviors(b@)
            },
            Err(e) => match e {
                ClientError::UnexpectedSubsystem => {
                    &&& outcome is Matched
                    &&& !(Self::matched_result(prior, post) is Behaviors)
                    &&& !(Self::matched_result(prior, post) is Meta)
                },
                _ => Self::call_failed_with(prior, post, e),
            },
        }
    }

    /// As [`Self::core_call_resolved`], for the keymap subsystem.
    pub open spec fn keymap_call_resolved(
        prior: Self,
        post: Self,
        r: Result<KeymapResult, ClientError>,
    ) -> bool {
        let outcome = Self::call_outcome(prior, post);
        match r {
            Ok(k) => {
                &&& outcome is Matched
                &&& Self::matched_result(prior, post) == SubsystemResultView::Keymap(k@)
                &&& stream_contains_result(
                    post.seen_spec(),
                    prior.next_id_spec(),
                    SubsystemResultView::Keymap(k@),
                )
            },
            Err(e) => match e {
                ClientError::UnexpectedSubsystem => {
                    &&& outcome is Matched
                    &&& !(Self::matched_result(prior, post) is Keymap)
                    &&& !(Self::matched_result(prior, post) is Meta)
                },
                _ => Self::call_failed_with(prior, post, e),
            },
        }
    }

    fn call_core(&mut self, request: CoreRequest) -> (r: Result<CoreResult, ClientError>)
        requires
            old(self).wf(),
        ensures
            final(self).session_kept(*old(self)),
            (r matches Err(e) ==> not_mapping_error(e)),
            (!(r matches Err(ClientError::Transport(_))) ==> Self::sent_request(
                *old(self),
                *final(self),
                SubsystemRequestView::Core(request),
            )),
            Self::core_call_resolved(*old(self), *final(self), r),
    {
        let rr = match self.call(SubsystemRequest::Core(request)) {
            Ok(rr) => rr,
            Err(e) => {
                return Err(e);
            },
        };
        match rr.result {
            SubsystemResult::Core(c) => Ok(c),
            _ => Err(ClientError::UnexpectedSubsystem),
        }
    }

    fn call_behaviors(&mut self, request: BehaviorsRequest) -> (r: Result<
        BehaviorsResult,
        ClientError,
    >)
        requires
            old(self).wf(),
        ensures
            final(self).session_kept(*old(self)),
            (r matches Err(e) ==> not_mapping_error(e)),
            (!(r matches Err(ClientError::Transport(_))) ==> Self::sent_request(
                *old(self),
                *final(self),
                SubsystemRequestView::Behaviors(request),
            )),
            Self::behaviors_call_resolved(*old(self), *final(self), r),
    {
        let rr = match self.call(SubsystemRequest::Behaviors(request)) {
            Ok(rr) => rr,
            Err(e) => {
                return Err(e);
            },
        };
        match rr.result {
            SubsystemResult::Behaviors(b) => Ok(b),
            _ => Err(ClientError::UnexpectedSubsystem),
        }
    }

    fn call_keymap(&mut self, request: KeymapRequest) -> (r: Result<KeymapResult, ClientError>)
        requires
            old(self).wf(),
        ensures
            final(self).session_kept(*old(self)),
            (r matches Err(e) ==> not_mapping_error(e)),
            (!(r matches Err(ClientError::Transport(_))) ==> Self::sent_request(
                *old(self),
                *final(self),
                SubsystemRequestView::Keymap(request@),
            )),
            Self::keymap_call_resolved(*old(self), *final(self), r),
    {
        let rr = match self.call(SubsystemRequest::Keymap(request)) {
            Ok(rr) => rr,
            Err(e) => {
                return Err(e);
            },
        };
        let ghost rrv = rr@;
        proof {
            let j = choose|j: int|
                0 <= j < self.seen_spec().len() && self.seen_spec()[j]
                    == ResponseView::RequestResponse(rrv);
            assert(self.seen_spec()[j] == ResponseView::RequestResponse(rrv));
        }
        match rr.result {
            SubsystemResult::Keymap(k) => Ok(k),
            _ => Err(ClientError::UnexpectedSubsystem),
        }
    }


    /// `get_device_info`'s result against the matched response.
    pub open spec fn device_info_resolved(
        prior: Self,
        post: Self,
        r: Result<DeviceInfo, ClientError>,
    ) -> bool {
        let m = Self::matched_result(prior, post);
        let matched = Self::call_outcome(prior, post) is Matched;
        match r {
            Ok(d) => matched && m == SubsystemResultView::Core(CoreResultView::DeviceInfo(d@)),
            Err(e) => match e {
                ClientError::MissingResponseType => matched && m is Core && !(m->Core_0
                    is DeviceInfo),
                ClientError::UnexpectedSubsystem => matched && !(m is Core) && !(m is Meta),
                _ => Self::call_failed_with(prior, post, e),
            },
        }
    }

    /// `get_lock_state`'s result against the matched response: the device's
    /// raw code decodes to the returned state, and an unknown code is
    /// reported, never silently mapped.
    pub open spec fn lock_state_resolved(
        prior: Self,
        post: Self,
        r: Result<LockState, ClientError>,
    ) -> bool {
        let m = Self::matched_result(prior, post);
        let matched = Self::call_outcome(prior, post) is Matched;
        match r {
            Ok(state) => {
                &&& matched
                &&& m is Core
                &&& m->Core_0 is LockState
                &&& spec_lock_state_of(m->Core_0->LockState_raw) == Some(state)
            },
            Err(e) => match e {
                ClientError::MissingResponseType => matched && m is Core && !(m->Core_0
                    is LockState),
                ClientError::UnknownEnumValue { value } => (matched && m is Core && m->Core_0
                    is LockState && m->Core_0->LockState_raw == value && spec_lock_state_of(value)
                    is None) || Self::call_failed_with(prior, post, e),
                ClientError::UnexpectedSubsystem => matched && !(m is Core) && !(m is Meta),
                _ => Self::call_failed_with(prior, post, e),
            },
        }
    }

    /// `reset_settings`'s result against the matched response.
    pub open spec fn reset_settings_resolved(
        prior: Self,
        post: Self,
        r: Result<bool, ClientError>,
    ) -> bool {
        let m = Self::matched_result(prior, post);
        let matched = Self::call_outcome(prior, post) is Matched;
        match r {
            Ok(ok) => matched && m == SubsystemResultView::Core(
                CoreResultView::ResetSettings { ok },
            ),
            Err(e) => match e {
                ClientError::MissingResponseType => matched && m is Core && !(m->Core_0
                    is ResetSettings),
                ClientError::UnexpectedSubsystem => matched && !(m is Core) && !(m is Meta),
                _ => Self::call_failed_with(prior, post, e),
            },
        }
    }

    /// `list_all_behaviors`'s result against the matched response.
    pub open spec fn behaviors_list_resolved(
        prior: Self,
        post: Self,
        r: Result<Vec<u32>, ClientError>,
    ) -> bool {
        let m = Self::matched_result(prior, post);
        let matched = Self::call_outcome(prior, post) is Matched;
        match r {
            Ok(ids) => matched && m == SubsystemResultView::Behaviors(
                BehaviorsResultView::ListAllBehaviors { behaviors: ids@ },
            ),
            Err(e) => match e {
                ClientError::MissingResponseType => matched && m is Behaviors && !(m->Behaviors_0
                    is ListAllBehaviors),
                ClientError::UnexpectedSubsystem => matched && !(m is Behaviors) && !(m is Meta),
                _ => Self::call_failed_with(prior, post, e),
            },
        }
    }

    /// `get_behavior_details`'s result against the matched response.
    pub open spec fn behavior_details_resolved(
        prior: Self,
        post: Self,
        r: Result<BehaviorDetails, ClientError>,
    ) -> bool {
        let m = Self::matched_result(prior, post);
        let matched = Self::call_outcome(prior, post) is Matched;
        match r {
            Ok(d) => matched && m == SubsystemResultView::Behaviors(
                BehaviorsResultView::GetBehaviorDetails(d@),
            ),
            Err(e) => match e {
                ClientError::MissingResponseType => matched && m is Behaviors && !(m->Behaviors_0
                    is GetBehaviorDetails),
                ClientError::UnexpectedSubsystem => matched && !(m is Behaviors) && !(m is Meta),
                _ => Self::call_failed_with(prior, post, e),
            },
        }
    }

    /// `get_keymap`'s result against the matched response. A success is
    /// exactly the keymap the device answered with, and that response is
    /// part of the logged session stream.
    pub open spec fn keymap_read_resolved(
        prior: Self,
        post: Self,
        r: Result<Keymap, ClientError>,
    ) -> bool {
        let m = Self::matched_result(prior, post);
        let matched = Self::call_outcome(prior, post) is Matched;
        match r {
            Ok(k) => {
                &&& matched
                &&& m == SubsystemResultView::Keymap(KeymapResultView::GetKeymap(k@))
                &&& stream_contains_result(post.seen_spec(), prior.next_id_spec(), m)
            },
            Err(e) => match e {
                ClientError::MissingResponseType => matched && m is Keymap && !(m->Keymap_0
                    is GetKeymap),
                ClientError::UnexpectedSubsystem => matched && !(m is Keymap) && !(m is Meta),
                _ => Self::call_failed_with(prior, post, e),
            },
        }
    }

    /// `get_physical_layouts`'s result against the matched response.
    pub open spec fn layouts_resolved(
        prior: Self,
        post: Self,
        r: Result<PhysicalLayouts, ClientError>,
    ) -> bool {
        let m = Self::matched_result(prior, post);
        let matched = Self::call_outcome(prior, post) is Matched;
        match r {
            Ok(p2) => matched && m == SubsystemResultView::Keymap(
                KeymapResultView::GetPhysicalLayouts(p2@),
            ),
            Err(e) => match e {
                ClientError::MissingResponseType => matched && m is Keymap && !(m->Keymap_0
                    is GetPhysicalLayouts),
                ClientError::UnexpectedSubsystem => matched && !(m is Keymap) && !(m is Meta),
                _ => Self::call_failed_with(prior, post, e),
            },
        }
    }

    /// `set_layer_binding`'s result against the matched response: success
    /// exactly when the device acknowledged the write with code 0, and the
    /// acknowledgement is part of the logged session stream.
    pub open spec fn layer_binding_resolved(
        prior: Self,
        post: Self,
        r: Result<(), ClientError>,
    ) -> bool {
        let m = Self::matched_result(prior, post);
        let matched = Self::call_outcome(prior, post) is Matched;
        match r {
            Ok(u) => {
                &&& matched
                &&& m == SubsystemResultView::Keymap(
                    KeymapResultView::SetLayerBinding { code: 0 },
                )
                &&& stream_contains_result(post.seen_spec(), prior.next_id_spec(), m)
            },
            Err(e) => match e {
                ClientError::SetLayerBindingFailed { code } => {
                    &&& matched
                    &&& code != 0
                    &&& m == SubsystemResultView::Keymap(
                        KeymapResultView::SetLayerBinding { code },
                    )
                },
                ClientError::MissingResponseType => matched && m is Keymap && !(m->Keymap_0
                    is SetLayerBinding),
                ClientError::UnexpectedSubsystem => matched && !(m is Keymap) && !(m is Meta),
                _ => Self::call_failed_with(prior, post, e),
            },
        }
    }

    /// `check_unsaved_changes`'s result against the matched response.
    pub open spec fn unsaved_changes_resolved(
        prior: Self,
        post: Self,
        r: Result<bool, ClientError>,
    ) -> bool {
        let m = Self::matched_result(prior, post);
        let matched = Self::call_outcome(prior, post) is Matched;
        match r {
            Ok(unsaved) => matched && m == SubsystemResultView::Keymap(
                KeymapResultView::CheckUnsavedChanges { unsaved },
            ),
            Err(e) => match e {
                ClientError::MissingResponseType => matched && m is Keymap && !(m->Keymap_0
                    is CheckUnsavedChanges),
                ClientError::UnexpectedSubsystem => matched && !(m is Keymap) && !(m is Meta),
                _ => Self::call_failed_with(prior, post, e),
            },
        }
    }

    /// `save_changes`'s result against the matched response: success
    /// exactly when the device accepted the save.
    pub open spec fn save_changes_resolved(
        prior: Self,
        post: Self,
        r: Result<(), ClientError>,
    ) -> bool {
        let m = Self::matched_result(prior, post);
        let matched = Self::call_outcome(prior, post) is Matched;
        match r {
            Ok(u) => matched && m == SubsystemResultView::Keymap(
                KeymapResultView::SaveChanges(AckResult::Accepted),
            ),
            Err(e) => match e {
                ClientError::SaveChangesFailed { code } => matched && m
                    == SubsystemResultView::Keymap(
                    KeymapResultView::SaveChanges(AckResult::Rejected { code }),
                ),
                ClientError::MissingResponseType => matched && m is Keymap && !(m->Keymap_0
                    is SaveChanges),
                ClientError::UnexpectedSubsystem => matched && !(m is Keymap) && !(m is Meta),
                _ => Self::call_failed_with(prior, post, e),
            },
        }
    }

    /// `discard_changes`'s result against the matched response.
    pub open spec fn discard_changes_resolved(
        prior: Self,
        post: Self,
        r: Result<bool, ClientError>,
    ) -> bool {
        let m = Self::matched_result(prior, post);
        let matched = Self::call_outcome(prior, post) is Matched;
        match r {
            Ok(discarded) => matched && m == SubsystemResultView::Keymap(
                KeymapResultView::DiscardChanges { discarded },
            ),
            Err(e) => match e {
                ClientError::MissingResponseType => matched && m is Keymap && !(m->Keymap_0
                    is DiscardChanges),
                ClientError::UnexpectedSubsystem => matched && !(m is Keymap) && !(m is Meta),
                _ => Self::call_failed_with(prior, post, e),
            },
        }
    }

    /// `set_active_physical_layout`'s result against the matched response.
    pub open spec fn active_layout_resolved(
        prior: Self,
        post: Self,
        r: Result<Keymap, ClientError>,
    ) -> bool {
        let m = Self::matched_result(prior, post);
        let matched = Self::call_outcome(prior, post) is Matched;
        match r {
            Ok(k) => matched && m == SubsystemResultView::Keymap(
                KeymapResultView::SetActivePhysicalLayout(OpResult::Accepted(k@)),
            ),
            Err(e) => match e {
                ClientError::SetActivePhysicalLayoutFailed { code } => matched && m
                    == SubsystemResultView::Keymap(
                    KeymapResultView::SetActivePhysicalLayout(OpResult::Rejected { code }),
                ),
                ClientError::MissingResponseType => matched && m is Keymap && !(m->Keymap_0
                    is SetActivePhysicalLayout),
                ClientError::UnexpectedSubsystem => matched && !(m is Keymap) && !(m is Meta),
                _ => Self::call_failed_with(prior, post, e),
            },
        }
    }

    /// `move_layer`'s result against the matched response.
    pub open spec fn move_layer_resolved(
        prior: Self,
        post: Self,
        r: Result<Keymap, ClientError>,
    ) -> bool {
        let m = Self::matched_result(prior, post);
        let matched = Self::call_outcome(prior, post) is Matched;
        match r {
            Ok(k) => matched && m == SubsystemResultView::Keymap(
                KeymapResultView::MoveLayer(OpResult::Accepted(k@)),
            ),
            Err(e) => match e {
                ClientError::MoveLayerFailed { code } => matched && m
                    == SubsystemResultView::Keymap(
                    KeymapResultView::MoveLayer(OpResult::Rejected { code }),
                ),
                ClientError::MissingResponseType => matched && m is Keymap && !(m->Keymap_0
                    is MoveLayer),
                ClientError::UnexpectedSubsystem => matched && !(m is Keymap) && !(m is Meta),
                _ => Self::call_failed_with(prior, post, e),
            },
        }
    }

    /// `add_layer`'s result against the matched response.
    pub open spec fn add_layer_resolved(
        prior: Self,
        post: Self,
        r: Result<AddLayerDetails, ClientError>,
    ) -> bool {
        let m = Self::matched_result(prior, post);
        let matched = Self::call_outcome(prior, post) is Matched;
        match r {
            Ok(d) => matched && m == SubsystemResultView::Keymap(
                KeymapResultView::AddLayer(OpResult::Accepted(d@)),
            ),
            Err(e) => match e {
                ClientError::AddLayerFailed { code } => matched && m
                    == SubsystemResultView::Keymap(
                    KeymapResultView::AddLayer(OpResult::Rejected { code }),
                ),
                ClientError::MissingResponseType => matched && m is Keymap && !(m->Keymap_0
                    is AddLayer),
                ClientError::UnexpectedSubsystem => matched && !(m is Keymap) && !(m is Meta),
                _ => Self::call_failed_with(prior, post, e),
            },
        }
    }

    /// `remove_layer`'s result against the matched response.
    pub open spec fn remove_layer_resolved(
        prior: Self,
        post: Self,
        r: Result<(), ClientError>,
    ) -> bool {
        let m = Self::matched_result(prior, post);
        let matched = Self::call_outcome(prior, post) is Matched;
        match r {
            Ok(u) => matched && m == SubsystemResultView::Keymap(
                KeymapResultView::RemoveLayer(AckResult::Accepted),
            ),
            Err(e) => match e {
                ClientError::RemoveLayerFailed { code } => matched && m
                    == SubsystemResultView::Keymap(
                    KeymapResultView::RemoveLayer(AckResult::Rejected { code }),
                ),
                ClientError::MissingResponseType => matched && m is Keymap && !(m->Keymap_0
                    is RemoveLayer),
                ClientError::UnexpectedSubsystem => matched && !(m is Keymap) && !(m is Meta),
                _ => Self::call_failed_with(prior, post, e),
            },
        }
    }

    /// `restore_layer`'s result against the matched response.
    pub open spec fn restore_layer_resolved(
        prior: Self,
        post: Self,
        r: Result<Layer, ClientError>,
    ) -> bool {
        let m = Self::matched_result(prior, post);
        let matched = Self::call_outcome(prior, post) is Matched;
        match r {
            Ok(l) => matched && m == SubsystemResultView::Keymap(
                KeymapResultView::RestoreLayer(OpResult::Accepted(l@)),
            ),
            Err(e) => match e {
                ClientError::RestoreLayerFailed { code } => matched && m
                    == SubsystemResultView::Keymap(
                    KeymapResultView::RestoreLayer(OpResult::Rejected { code }),
                ),
                ClientError::MissingResponseType => matched && m is Keymap && !(m->Keymap_0
                    is RestoreLayer),
                ClientError::UnexpectedSubsystem => matched && !(m is Keymap) && !(m is Meta),
                _ => Self::call_failed_with(prior, post, e),
            },
        }
    }

    /// `set_layer_props`'s result against the matched response: success
    /// exactly when the device acknowledged the rename with code 0.
    pub open spec fn layer_props_resolved(
        prior: Self,
        post: Self,
        r: Result<(), ClientError>,
    ) -> bool {
        let m = Self::matched_result(prior, post);
        let matched = Self::call_outcome(prior, post) is Matched;
        match r {
            Ok(u) => matched && m == SubsystemResultView::Keymap(
                KeymapResultView::SetLayerProps { code: 0 },
            ),
            Err(e) => match e {
                ClientError::SetLayerPropsFailed { code } => {
                    &&& matched
                    &&& code != 0
                    &&& m == SubsystemResultView::Keymap(
                        KeymapResultView::SetLayerProps { code },
                    )
                },
                ClientError::MissingResponseType => matched && m is Keymap && !(m->Keymap_0
                    is SetLayerProps),
                ClientError::UnexpectedSubsystem => matched && !(m is Keymap) && !(m is Meta),
                _ => Self::call_failed_with(prior, post, e),
            },
        }
    }

    /// Core device identity data.
    pub fn get_device_info(&mut self) -> (r: Result<DeviceInfo, ClientError>)
        requires
            old(self).wf(),
        ensures
            final(self).session_kept(*old(self)),
            (r matches Err(e) ==> not_mapping_error(e)),
            (!(r matches Err(ClientError::Transport(_))) ==> Self::sent_request(
                *old(self),
                *final(self),
                SubsystemRequestView::Core(CoreRequest::GetDeviceInfo),
            )),
            Self::device_info_resolved(*old(self), *final(self), r),
    {
        match self.call_core(CoreRequest::GetDeviceInfo) {
            Ok(CoreResult::DeviceInfo(d)) => Ok(d),
            Ok(_) => Err(ClientError::MissingResponseType),
            Err(e) => Err(e),
        }
    }

    /// The device's lock state; an unknown enumerator is reported, not
    /// silently mapped.
    pub fn get_lock_state(&mut self) -> (r: Result<LockState, ClientError>)
        requires
            old(self).wf(),
        ensures
            final(self).session_kept(*old(self)),
            (r matches Err(e) ==> not_mapping_error(e)),
            (!(r matches Err(ClientError::Transport(_))) ==> Self::sent_request(
                *old(self),
                *final(self),
                SubsystemRequestView::Core(CoreRequest::GetLockState),
            )),
            Self::lock_state_resolved(*old(self), *final(self), r),
    {
        match self.call_core(CoreRequest::GetLockState) {
            Ok(CoreResult::LockState { raw }) => match lock_state_of(raw) {
                Some(state) => Ok(state),
                None => Err(ClientError::UnknownEnumValue { value: raw }),
            },
            Ok(_) => Err(ClientError::MissingResponseType),
            Err(e) => Err(e),
        }
    }

    /// Asks the device to reset its settings; the device reports whether it
    /// did.
    pub fn reset_settings(&mut self) -> (r: Result<bool, ClientError>)
        requires
            old(self).wf(),
        ensures
            final(self).session_kept(*old(self)),
            (r matches Err(e) ==> not_mapping_error(e)),
            (!(r matches Err(ClientError::Transport(_))) ==> Self::sent_request(
                *old(self),
                *final(self),
                SubsystemRequestView::Core(CoreRequest::ResetSettings),
            )),
            Self::reset_settings_resolved(*old(self), *final(self), r),
    {
        match self.call_core(CoreRequest::ResetSettings) {
            Ok(CoreResult::ResetSettings { ok }) => Ok(ok),
            Ok(_) => Err(ClientError::MissingResponseType),
            Err(e) => Err(e),
        }
    }

    /// The firmware's complete behavior id list.
    pub fn list_all_behaviors(&mut self) -> (r: Result<Vec<u32>, ClientError>)
        requires
            old(self).wf(),
        ensures
            final(self).session_kept(*old(self)),
            (r matches Err(e) ==> not_mapping_error(e)),
            (!(r matches Err(ClientError::Transport(_))) ==> Self::sent_request(
                *old(self),
                *final(self),
                SubsystemRequestView::Behaviors(BehaviorsRequest::ListAllBehaviors),
            )),
            Self::behaviors_list_resolved(*old(self), *final(self), r),
    {
        match self.call_behaviors(BehaviorsRequest::ListAllBehaviors) {
            Ok(BehaviorsResult::ListAllBehaviors { behaviors }) => Ok(behaviors),
            Ok(_) => Err(ClientError::MissingResponseType),
            Err(e) => Err(e),
        }
    }

    /// One behavior's display name and metadata.
    pub fn get_behavior_details(&mut self, behavior_id: u32) -> (r: Result<
        BehaviorDetails,
        ClientError,
    >)
        requires
            old(self).wf(),
        ensures
            final(self).session_kept(*old(self)),
            (r matches Err(e) ==> not_mapping_error(e)),
            (!(r matches Err(ClientError::Transport(_))) ==> Self::sent_request(
                *old(self),
                *final(self),
                SubsystemRequestView::Behaviors(BehaviorsRequest::GetBehaviorDetails { behavior_id }),
            )),
            Self::behavior_details_resolved(*old(self), *final(self), r),
    {
        match self.call_behaviors(BehaviorsRequest::GetBehaviorDetails { behavior_id }) {
            Ok(BehaviorsResult::GetBehaviorDetails(d)) => Ok(d),
            Ok(_) => Err(ClientError::MissingResponseType),
            Err(e) => Err(e),
        }
    }

    /// The device's full working keymap.
    pub fn get_keymap(&mut self) -> (r: Result<Keymap, ClientError>)
        requires
            old(self).wf(),
        ensures
            final(self).session_kept(*old(self)),
            (r matches Err(e) ==> not_mapping_error(e)),
            (!(r matches Err(ClientError::Transport(_))) ==> Self::sent_request(
                *old(self),
                *final(self),
                SubsystemRequestView::Keymap(KeymapRequestView::GetKeymap),
            )),
            Self::keymap_read_resolved(*old(self), *final(self), r),
    {
        match self.call_keymap(KeymapRequest::GetKeymap) {
            Ok(KeymapResult::GetKeymap(k)) => Ok(k),
            Ok(_) => Err(ClientError::MissingResponseType),
            Err(e) => Err(e),
        }
    }

    /// The physical layouts the device offers.
    pub fn get_physical_layouts(&mut self) -> (r: Result<PhysicalLayouts, ClientError>)
        requires
            old(self).wf(),
        ensures
            final(self).session_kept(*old(self)),
            (r matches Err(e) ==> not_mapping_error(e)),
            (!(r matches Err(ClientError::Transport(_))) ==> Self::sent_request(
                *old(self),
                *final(self),
                SubsystemRequestView::Keymap(KeymapRequestView::GetPhysicalLayouts),
            )),
            Self::layouts_resolved(*old(self), *final(self), r),
    {
        match self.call_keymap(KeymapRequest::GetPhysicalLayouts) {
            Ok(KeymapResult::GetPhysicalLayouts(p)) => Ok(p),
            Ok(_) => Err(ClientError::MissingResponseType),
            Err(e) => Err(e),
        }
    }

    /// Writes one raw binding into the device's working keymap. This does
    /// not persist until [`StudioClient::save_changes`] succeeds and can be
    /// reverted by [`StudioClient::discard_changes`].
    pub fn set_layer_binding(
        &mut self,
        layer_id: u32,
        key_position: i32,
        binding: BehaviorBinding,
    ) -> (r: Result<(), ClientError>)
        requires
            old(self).wf(),
        ensures
            final(self).session_kept(*old(self)),
            (r matches Err(e) ==> not_mapping_error(e)),
            (!(r matches Err(ClientError::Transport(_))) ==> Self::sent_request(
                *old(self),
                *final(self),
                SubsystemRequestView::Keymap(KeymapRequestView::SetLayerBinding { layer_id, key_position, binding }),
            )),
            Self::layer_binding_resolved(*old(self), *final(self), r),
    {
        match self.call_keymap(
            KeymapRequest::SetLayerBinding { layer_id, key_position, binding },
        ) {
            Ok(KeymapResult::SetLayerBinding { code }) => {
                if code == 0 {
                    Ok(())
                } else {
                    Err(ClientError::SetLayerBindingFailed { code })
                }
            },
            Ok(_) => Err(ClientError::MissingResponseType),
            Err(e) => Err(e),
        }
    }

    /// Whether the working keymap holds changes not yet saved.
    pub fn check_unsaved_changes(&mut self) -> (r: Result<bool, ClientError>)
        requires
            old(self).wf(),
        ensures
            final(self).session_kept(*old(self)),
            (r matches Err(e) ==> not_mapping_error(e)),
            (!(r matches Err(ClientError::Transport(_))) ==> Self::sent_request(
                *old(self),
                *final(self),
                SubsystemRequestView::Keymap(KeymapRequestView::CheckUnsavedChanges),
            )),
            Self::unsaved_changes_resolved(*old(self), *final(self), r),
    {
        match self.call_keymap(KeymapRequest::CheckUnsavedChanges) {
            Ok(KeymapResult::CheckUnsavedChanges { unsaved }) => Ok(unsaved),
            Ok(_) => Err(ClientError::MissingResponseType),
            Err(e) => Err(e),
        }
    }

    /// Persists pending keymap/layout mutations on the device.
    pub fn save_changes(&mut self) -> (r: Result<(), ClientError>)
        requires
            old(self).wf(),
        ensures
            final(self).session_kept(*old(self)),
            (r matches Err(e) ==> not_mapping_error(e)),
            (!(r matches Err(ClientError::Transport(_))) ==> Self::sent_request(
                *old(self),
                *final(self),
                SubsystemRequestView::Keymap(KeymapRequestView::SaveChanges),
            )),
            Self::save_changes_resolved(*old(self), *final(self), r),
    {
        match self.call_keymap(KeymapRequest::SaveChanges) {
            Ok(KeymapResult::SaveChanges(AckResult::Accepted)) => Ok(()),
            Ok(KeymapResult::SaveChanges(AckResult::Rejected { code })) => Err(
                ClientError::SaveChangesFailed { code },
            ),
            Ok(_) => Err(ClientError::MissingResponseType),
            Err(e) => Err(e),
        }
    }

    /// Discards pending mutations; the device reports whether there were
    /// any.
    pub fn discard_changes(&mut self) -> (r: Result<bool, ClientError>)
        requires
            old(self).wf(),
        ensures
            final(self).session_kept(*old(self)),
            (r matches Err(e) ==> not_mapping_error(e)),
            (!(r matches Err(ClientError::Transport(_))) ==> Self::sent_request(
                *old(self),
                *final(self),
                SubsystemRequestView::Keymap(KeymapRequestView::DiscardChanges),
            )),
            Self::discard_changes_resolved(*old(self), *final(self), r),
    {
        match self.call_keymap(KeymapRequest::DiscardChanges) {
            Ok(KeymapResult::DiscardChanges { discarded }) => Ok(discarded),
            Ok(_) => Err(ClientError::MissingResponseType),
            Err(e) => Err(e),
        }
    }

    /// Selects the active physical layout; the device answers with the
    /// resulting keymap.
    pub fn set_active_physical_layout(&mut self, index: u32) -> (r: Result<Keymap, ClientError>)
        requires
            old(self).wf(),
        ensures
            final(self).session_kept(*old(self)),
            (r matches Err(e) ==> not_mapping_error(e)),
            (!(r matches Err(ClientError::Transport(_))) ==> Self::sent_request(
                *old(self),
                *final(self),
                SubsystemRequestView::Keymap(KeymapRequestView::SetActivePhysicalLayout { index }),
            )),
            Self::active_layout_resolved(*old(self), *final(self), r),
    {
        match self.call_keymap(KeymapRequest::SetActivePhysicalLayout { index }) {
            Ok(KeymapResult::SetActivePhysicalLayout(OpResult::Accepted(k))) => Ok(k),
            Ok(KeymapResult::SetActivePhysicalLayout(OpResult::Rejected { code })) => Err(
                ClientError::SetActivePhysicalLayoutFailed { code },
            ),
            Ok(_) => Err(ClientError::MissingResponseType),
            Err(e) => Err(e),
        }
    }

    /// Moves a layer; the device answers with the resulting keymap.
    pub fn move_layer(&mut self, start_index: u32, dest_index: u32) -> (r: Result<
        Keymap,
        ClientError,
    >)
        requires
            old(self).wf(),
        ensures
            final(self).session_kept(*old(self)),
            (r matches Err(e) ==> not_mapping_error(e)),
            (!(r matches Err(ClientError::Transport(_))) ==> Self::sent_request(
                *old(self),
                *final(self),
                SubsystemRequestView::Keymap(KeymapRequestView::MoveLayer { start_index, dest_index }),
            )),
            Self::move_layer_resolved(*old(self), *final(self), r),
    {
        match self.call_keymap(KeymapRequest::MoveLayer { start_index, dest_index }) {
            Ok(KeymapResult::MoveLayer(OpResult::Accepted(k))) => Ok(k),
            Ok(KeymapResult::MoveLayer(OpResult::Rejected { code })) => Err(
                ClientError::MoveLayerFailed { code },
            ),
            Ok(_) => Err(ClientError::MissingResponseType),
            Err(e) => Err(e),
        }
    }

    /// Adds a layer; the device reports where it went and its contents.
    pub fn add_layer(&mut self) -> (r: Result<AddLayerDetails, ClientError>)
        requires
            old(self).wf(),
        ensures
            final(self).session_kept(*old(self)),
            (r matches Err(e) ==> not_mapping_error(e)),
            (!(r matches Err(ClientError::Transport(_))) ==> Self::sent_request(
                *old(self),
                *final(self),
                SubsystemRequestView::Keymap(KeymapRequestView::AddLayer),
            )),
            Self::add_layer_resolved(*old(self), *final(self), r),
    {
        match self.call_keymap(KeymapRequest::AddLayer) {
            Ok(KeymapResult::AddLayer(OpResult::Accepted(d))) => Ok(d),
            Ok(KeymapResult::AddLayer(OpResult::Rejected { code })) => Err(
                ClientError::AddLayerFailed { code },
            ),
            Ok(_) => Err(ClientError::MissingResponseType),
            Err(e) => Err(e),
        }
    }

    /// Removes the layer at an index.
    pub fn remove_layer(&mut self, layer_index: u32) -> (r: Result<(), ClientError>)
        requires
            old(self).wf(),
        ensures
            final(self).session_kept(*old(self)),
            (r matches Err(e) ==> not_mapping_error(e)),
            (!(r matches Err(ClientError::Transport(_))) ==> Self::sent_request(
                *old(self),
                *final(self),
                SubsystemRequestView::Keymap(KeymapRequestView::RemoveLayer { layer_index }),
            )),
            Self::remove_layer_resolved(*old(self), *final(self), r),
    {
        match self.call_keymap(KeymapRequest::RemoveLayer { layer_index }) {
            Ok(KeymapResult::RemoveLayer(AckResult::Accepted)) => Ok(()),
            Ok(KeymapResult::RemoveLayer(AckResult::Rejected { code })) => Err(
                ClientError::RemoveLayerFailed { code },
            ),
            Ok(_) => Err(ClientError::MissingResponseType),
            Err(e) => Err(e),
        }
    }

    /// Restores a previously removed layer at an index.
    pub fn restore_layer(&mut self, layer_id: u32, at_index: u32) -> (r: Result<
        Layer,
        ClientError,
    >)
        requires
            old(self).wf(),
        ensures
            final(self).session_kept(*old(self)),
            (r matches Err(e) ==> not_mapping_error(e)),
            (!(r matches Err(ClientError::Transport(_))) ==> Self::sent_request(
                *old(self),
                *final(self),
                SubsystemRequestView::Keymap(KeymapRequestView::RestoreLayer { layer_id, at_index }),
            )),
            Self::restore_layer_resolved(*old(self), *final(self), r),
    {
        match self.call_keymap(KeymapRequest::RestoreLayer { layer_id, at_index }) {
            Ok(KeymapResult::RestoreLayer(OpResult::Accepted(l))) => Ok(l),
            Ok(KeymapResult::RestoreLayer(OpResult::Rejected { code })) => Err(
                ClientError::RestoreLayerFailed { code },
            ),
            Ok(_) => Err(ClientError::MissingResponseType),
            Err(e) => Err(e),
        }
    }

    /// Renames a layer.
    pub fn set_layer_props(&mut self, layer_id: u32, name: Vec<u8>) -> (r: Result<(), ClientError>)
        requires
            old(self).wf(),
        ensures
            final(self).session_kept(*old(self)),
            (r matches Err(e) ==> not_mapping_error(e)),
            (!(r matches Err(ClientError::Transport(_))) ==> Self::sent_request(
                *old(self),
                *final(self),
                SubsystemRequestView::Keymap(KeymapRequestView::SetLayerProps { layer_id, name: name@ }),
            )),
            Self::layer_props_resolved(*old(self), *final(self), r),
    {
        match self.call_keymap(KeymapRequest::SetLayerProps { layer_id, name }) {
            Ok(KeymapResult::SetLayerProps { code }) => {
                if code == 0 {
                    Ok(())
                } else {
                    Err(ClientError::SetLayerPropsFailed { code })
                }
            },
            Ok(_) => Err(ClientError::MissingResponseType),
            Err(e) => Err(e),
        }
    }

    /// Builds the behavior role table once per session: fetches the id
    /// list, then each id's display name, classifying every name into a
    /// role. Built at most once and never invalidated; if the firmware's
    /// catalog could change mid-session, this cache would go stale.
    fn ensure_behavior_catalog(&mut self) -> (r: Result<(), ClientError>)
        requires
            old(self).wf(),
        ensures
            final(self).wf(),
            final(self).read_buffer_spec() == old(self).read_buffer_spec(),
            old(self).notifications_view().is_prefix_of(final(self).notifications_view()),
            old(self).channel().outbox().is_prefix_of(final(self).channel().outbox()),
            (r matches Err(e) ==> not_mapping_error(e)),
            old(self).roles_spec().is_built_spec() ==> final(self).roles_spec() == old(
                self,
            ).roles_spec(),
            (r is Ok ==> exists|log: Seq<(u32, SubsystemRequestView)>|
                {
                    &&& final(self).channel().outbox() == old(self).channel().outbox()
                        + enc_requests(log)
                    &&& (forall|j: int|
                        0 <= j < log.len() ==> read_only_request((#[trigger] log[j]).1))
                }),
    {
        proof {
            lemma_prefix_refl(old(self).notifications_view());
            lemma_prefix_refl(old(self).io.outbox());
        }
        if self.roles.is_built() {
            proof {
                let log0 = Seq::<(u32, SubsystemRequestView)>::empty();
                assert(self.io.outbox() =~= old(self).io.outbox() + enc_requests(log0));
            }
            return Ok(());
        }
        let ghost id0 = self.next_id_spec();
        let ids = match self.list_all_behaviors() {
            Ok(ids) => ids,
            Err(e) => {
                return Err(e);
            },
        };
        let ghost mut log: Seq<(u32, SubsystemRequestView)> = seq![
            (id0, SubsystemRequestView::Behaviors(BehaviorsRequest::ListAllBehaviors)),
        ];
        proof {
            assert(log.drop_last() =~= Seq::<(u32, SubsystemRequestView)>::empty());
            assert(enc_requests(Seq::<(u32, SubsystemRequestView)>::empty())
                =~= Seq::<u8>::empty());
            assert(log.last() == (
                id0,
                SubsystemRequestView::Behaviors(BehaviorsRequest::ListAllBehaviors),
            ));
            assert(self.io.outbox() =~= old(self).io.outbox() + enc_requests(log));
        }
        let mut i: usize = 0;
        while i < ids.len()
            invariant
                !old(self).roles_spec().is_built_spec(),
                self.wf(),
                self.read_buffer_spec() == old(self).read_buffer_spec(),
                old(self).notifications_view().is_prefix_of(self.notifications_view()),
                old(self).io.outbox().is_prefix_of(self.io.outbox()),
                self.io.outbox() == old(self).io.outbox() + enc_requests(log),
                forall|j: int| 0 <= j < log.len() ==> read_only_request((#[trigger] log[j]).1),
            decreases ids.len() - i,
        {
            let ghost mid_notifs = self.notifications_view();
            let ghost mid_outbox = self.io.outbox();
            let ghost mid_id = self.next_id_spec();
            let details = match self.get_behavior_details(ids[i]) {
                Ok(d) => d,
                Err(e) => {
                    return Err(e);
                },
            };
            proof {
                lemma_prefix_trans(
                    old(self).notifications_view(),
                    mid_notifs,
                    self.notifications_view(),
                );
                lemma_prefix_trans(old(self).io.outbox(), mid_outbox, self.io.outbox());
                let entry = (
                    mid_id,
                    SubsystemRequestView::Behaviors(
                        BehaviorsRequest::GetBehaviorDetails { behavior_id: ids@[i as int] },
                    ),
                );
                let log_prev = log;
                log = log.push(entry);
                assert(log.drop_last() =~= log_prev);
                assert(log.last() == entry);
                assert(self.io.outbox() =~= old(self).io.outbox() + enc_requests(log));
            }
            let ghost pend_mid = self.pending_view();
            let ghost seen_mid = self.seen_spec();
            self.roles.record(ids[i], details.display_name.as_slice());
            proof {
                assert forall|i2: int| 0 <= i2 < self.pending_view().len() implies stream_contains(
                    self.seen_spec(),
                    #[trigger] self.pending_view()[i2],
                ) by {
                    assert(self.pending_view()[i2] == pend_mid[i2]);
                    assert(stream_contains(seen_mid, pend_mid[i2]));
                    assert(self.seen_spec() == seen_mid);
                }
            }
            i = i + 1;
        }
        proof {
            assert(self.io.outbox() == old(self).io.outbox() + enc_requests(log));
        }
        Ok(())
    }

    /// Reads the typed behavior at (layer id, key position). An absent
    /// layer or out-of-range position is an addressing error; a binding
    /// whose id has no role, or does not fit, decodes to the raw fallback
    /// rather than an error, so the read is lossless.
    pub fn get_key_at(&mut self, layer_id: u32, key_position: i32) -> (r: Result<
        Behavior,
        ClientError,
    >)
        requires
            old(self).wf(),
        ensures
            final(self).wf(),
            old(self).notifications_view().is_prefix_of(final(self).notifications_view()),
            old(self).channel().outbox().is_prefix_of(final(self).channel().outbox()),
            match r {
                Ok(b) => exists|k: crate::messages::KeymapView, bnd: BehaviorBinding, id: u32|
                    {
                        &&& stream_contains_result(
                            final(self).seen_spec(),
                            id,
                            SubsystemResultView::Keymap(KeymapResultView::GetKeymap(k)),
                        )
                        &&& spec_binding_at(k, layer_id, key_position) == Some(bnd)
                        &&& b == spec_decode_behavior(
                            bnd,
                            if bnd.behavior_id >= 0 {
                                final(self).roles_spec().role_of_spec(bnd.behavior_id as u32)
                            } else {
                                None
                            },
                        )
                    },
                Err(e) => e matches ClientError::InvalidLayerOrPosition {
                    layer_id: l,
                    key_position: p,
                } ==> l == layer_id && p == key_position,
            },
            (r is Ok ==> exists|log: Seq<(u32, SubsystemRequestView)>|
                {
                    &&& final(self).channel().outbox() == old(self).channel().outbox()
                        + enc_requests(log)
                    &&& (forall|j: int|
                        0 <= j < log.len() ==> read_only_request((#[trigger] log[j]).1))
                }),
    {
        proof {
            lemma_prefix_refl(old(self).notifications_view());
            lemma_prefix_refl(old(self).io.outbox());
        }
        let ghost n0 = self.notifications_view();
        let ghost ob0 = self.io.outbox();
        match self.ensure_behavior_catalog() {
            Ok(u) => {},
            Err(e) => {
                return Err(e);
            },
        }
        let ghost cat_log = choose|log: Seq<(u32, SubsystemRequestView)>|
            (self.io.outbox() == old(self).io.outbox() + enc_requests(log) && (forall|j: int|
                0 <= j < log.len() ==> read_only_request((#[trigger] log[j]).1)));
        let ghost n1 = self.notifications_view();
        let ghost ob1 = self.io.outbox();
        let ghost mid = *self;
        let keymap = match self.get_keymap() {
            Ok(k) => k,
            Err(e) => {
                proof {
                    lemma_prefix_trans(n0, n1, self.notifications_view());
                    lemma_prefix_trans(ob0, ob1, self.io.outbox());
                }
                return Err(e);
            },
        };
        proof {
            lemma_prefix_trans(n0, n1, self.notifications_view());
            lemma_prefix_trans(ob0, ob1, self.io.outbox());
        }
        let binding = match binding_at(&keymap, layer_id, key_position) {
            Some(b) => b,
            None => {
                return Err(ClientError::InvalidLayerOrPosition { layer_id, key_position });
            },
        };
        let role = if binding.behavior_id >= 0 {
            self.roles.role_of(binding.behavior_id as u32)
        } else {
            None
        };
        let b = decode_behavior(binding, role);
        proof {
            let k = keymap@;
            assert(spec_binding_at(k, layer_id, key_position) == Some(binding));
            assert(stream_contains_result(
                self.seen_spec(),
                mid.next_id_spec(),
                SubsystemResultView::Keymap(KeymapResultView::GetKeymap(k)),
            ));
            let entry = (
                mid.next_id_spec(),
                SubsystemRequestView::Keymap(KeymapRequestView::GetKeymap),
            );
            let log2 = cat_log.push(entry);
            assert(log2.drop_last() =~= cat_log);
            assert(log2.last() == entry);
            assert(self.io.outbox() =~= old(self).io.outbox() + enc_requests(log2));
            assert forall|j: int| 0 <= j < log2.len() implies read_only_request(
                (#[trigger] log2[j]).1,
            ) by {
                if j < cat_log.len() {
                    assert(log2[j] == cat_log[j]);
                }
            }
        }
        Ok(b)
    }

    /// Writes the typed behavior at (layer id, key position), translating
    /// it to a raw binding through the session's role table. A role the
    /// firmware's catalog lacks, or an id that does not fit the signed
    /// wire field, is an error; a raw fallback value is written as it is.
    /// The change is not persisted until [`StudioClient::save_changes`].
    pub fn set_key_at(&mut self, layer_id: u32, key_position: i32, behavior: Behavior) -> (r:
        Result<(), ClientError>)
        requires
            old(self).wf(),
        ensures
            final(self).wf(),
            old(self).notifications_view().is_prefix_of(final(self).notifications_view()),
            old(self).channel().outbox().is_prefix_of(final(self).channel().outbox()),
            match r {
                Ok(u) => {
                    &&& spec_encode_behavior(behavior, final(self).roles_spec().by_role_view())
                        is Ok
                    &&& exists|mid_bytes: Seq<u8>, id: u32|
                        {
                            &&& wrap_id(id) == final(self).next_id_spec()
                            &&& final(self).channel().outbox() == old(self).channel().outbox()
                                + mid_bytes + encode_frame_spec(
                                spec_enc_request(
                                    RequestView {
                                        request_id: id,
                                        subsystem: SubsystemRequestView::Keymap(
                                            KeymapRequestView::SetLayerBinding {
                                                layer_id,
                                                key_position,
                                                binding: spec_encode_behavior(
                                                    behavior,
                                                    final(self).roles_spec().by_role_view(),
                                                ).unwrap(),
                                            },
                                        ),
                                    },
                                ),
                            )
                            &&& stream_contains_result(
                                final(self).seen_spec(),
                                id,
                                SubsystemResultView::Keymap(
                                    KeymapResultView::SetLayerBinding { code: 0 },
                                ),
                            )
                        }
                },
                Err(e) => {
                    &&& (e matches ClientError::MissingBehaviorRole(role) ==> spec_encode_behavior(
                        behavior,
                        final(self).roles_spec().by_role_view(),
                    ) == Err::<BehaviorBinding, BehaviorMapError>(
                        BehaviorMapError::MissingBehaviorRole(role),
                    ))
                    &&& (e matches ClientError::BehaviorIdOutOfRange { behavior_id }
                        ==> spec_encode_behavior(
                        behavior,
                        final(self).roles_spec().by_role_view(),
                    ) == Err::<BehaviorBinding, BehaviorMapError>(
                        BehaviorMapError::BehaviorIdOutOfRange { behavior_id },
                    ))
                },
            },
    {
        proof {
            lemma_prefix_refl(old(self).notifications_view());
            lemma_prefix_refl(old(self).io.outbox());
        }
        let ghost n0 = self.notifications_view();
        let ghost ob0 = self.io.outbox();
        match self.ensure_behavior_catalog() {
            Ok(u) => {},
            Err(e) => {
                return Err(e);
            },
        }
        let ghost n1 = self.notifications_view();
        let ghost ob1 = self.io.outbox();
        let ghost mid = *self;
        let binding = match encode_behavior(&behavior, &self.roles) {
            Ok(b) => b,
            Err(BehaviorMapError::MissingBehaviorRole(role)) => {
                return Err(ClientError::MissingBehaviorRole(role));
            },
            Err(BehaviorMapError::BehaviorIdOutOfRange { behavior_id }) => {
                return Err(ClientError::BehaviorIdOutOfRange { behavior_id });
            },
        };
        let r = self.set_layer_binding(layer_id, key_position, binding);
        proof {
            lemma_prefix_trans(n0, n1, self.notifications_view());
            lemma_prefix_trans(ob0, ob1, self.io.outbox());
            if r is Ok {
                let mid_bytes = ob1.skip(ob0.len() as int);
                assert(ob1 =~= ob0 + mid_bytes);
                assert(self.io.outbox() =~= ob0 + mid_bytes + encode_frame_spec(
                    spec_enc_request(
                        RequestView {
                            request_id: mid.next_id_spec(),
                            subsystem: SubsystemRequestView::Keymap(
                                KeymapRequestView::SetLayerBinding {
                                    layer_id,
                                    key_position,
                                    binding,
                                },
                            ),
                        },
                    ),
                ));
                assert(stream_contains_result(
                    self.seen_spec(),
                    mid.next_id_spec(),
                    SubsystemResultView::Keymap(KeymapResultView::SetLayerBinding { code: 0 }),
                ));
            }
        }
        r
    }
}

} // verus!
