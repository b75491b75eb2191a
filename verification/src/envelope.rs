//! The envelope serialization boundary.
//!
//! `encode_request` / `encode_response` produce the frame-encoded bytes of
//! one envelope; `decode_requests` / `decode_responses` turn a chunk of
//! transport bytes into complete envelopes, surfacing framing errors and
//! payload decode errors separately.
//!
//! The payload layout is a fixed-order binary encoding described by the
//! message types themselves: every field is present, variants carry a
//! one-byte tag, integers are little-endian, byte strings and repetitions
//! are length-prefixed. It is this crate's own schema: it is not
//! wire-compatible with firmware speaking the protobuf-described message
//! catalog, whose schema files are an external data contract.

use vstd::prelude::*;

use crate::framing::encode_frame;
use crate::framing::encode_frame_spec;
use crate::framing::run_spec;
use crate::framing::FrameDecoder;
use crate::framing::FramingError;
use crate::messages::AckResult;
use crate::messages::AddLayerDetails;
use crate::messages::AddLayerDetailsView;
use crate::messages::BehaviorBinding;
use crate::messages::BehaviorDetails;
use crate::messages::BehaviorDetailsView;
use crate::messages::BehaviorsRequest;
use crate::messages::BehaviorsResult;
use crate::messages::BehaviorsResultView;
use crate::messages::CoreRequest;
use crate::messages::CoreResult;
use crate::messages::CoreResultView;
use crate::messages::DeviceInfo;
use crate::messages::DeviceInfoView;
use crate::messages::Keymap;
use crate::messages::KeymapRequest;
use crate::messages::KeymapRequestView;
use crate::messages::KeymapResult;
use crate::messages::KeymapResultView;
use crate::messages::KeymapView;
use crate::messages::Layer;
use crate::messages::LayerView;
use crate::messages::MetaResult;
use crate::messages::Notification;
use crate::messages::OpResult;
use crate::messages::PhysicalLayout;
use crate::messages::PhysicalLayouts;
use crate::messages::PhysicalLayoutsView;
use crate::messages::PhysicalLayoutView;
use crate::messages::Request;
use crate::messages::RequestResponse;
use crate::messages::RequestResponseView;
use crate::messages::RequestView;
use crate::messages::Response;
use crate::messages::ResponseView;
use crate::messages::SubsystemRequest;
use crate::messages::SubsystemRequestView;
use crate::messages::SubsystemResult;
use crate::messages::SubsystemResultView;
use crate::wire::read_bool;
use crate::wire::read_bytes;
use crate::wire::read_u32;
use crate::wire::read_u64;
use crate::wire::read_u8;
use crate::wire::spec_enc_bool;
use crate::wire::spec_enc_bytes;
use crate::wire::spec_enc_u32;
use crate::wire::spec_enc_u64;
use crate::wire::spec_read_bool;
use crate::wire::spec_read_bytes;
use crate::wire::spec_read_u32;
use crate::wire::spec_read_u64;
use crate::wire::spec_read_u8;
use crate::wire::write_bool;
use crate::wire::write_bytes;
use crate::wire::write_u32;
use crate::wire::write_u64;
use crate::wire::write_u8;

verus! {

/// An error of the serialization boundary: either the byte stream broke
/// framing, or a frame's payload did not parse as an envelope.
#[derive(Debug, Clone, Copy, PartialEq, Eq, Structural)]
pub enum ProtocolError {
    Framing(FramingError),
    Decode,
}

// ---------------------------------------------------------------------------
// Payload encodings, as specification functions over the message views.
// ---------------------------------------------------------------------------

pub open spec fn spec_enc_binding(b: BehaviorBinding) -> Seq<u8> {
    spec_enc_u32(b.behavior_id as u32) + spec_enc_u32(b.param1) + spec_enc_u32(b.param2)
}

pub open spec fn spec_enc_bindings(bs: Seq<BehaviorBinding>) -> Seq<u8>
    decreases bs.len(),
{
    if bs.len() == 0 {
        Seq::empty()
    } else {
        spec_enc_bindings(bs.drop_last()) + spec_enc_binding(bs.last())
    }
}

pub open spec fn spec_enc_layer(l: LayerView) -> Seq<u8> {
    spec_enc_u32(l.id) + spec_enc_bytes(l.name) + spec_enc_u64(l.bindings.len() as u64)
        + spec_enc_bindings(l.bindings)
}

pub open spec fn spec_enc_layers(ls: Seq<LayerView>) -> Seq<u8>
    decreases ls.len(),
{
    if ls.len() == 0 {
        Seq::empty()
    } else {
        spec_enc_layers(ls.drop_last()) + spec_enc_layer(ls.last())
    }
}

pub open spec fn spec_enc_keymap(k: KeymapView) -> Seq<u8> {
    spec_enc_u64(k.layers.len() as u64) + spec_enc_layers(k.layers)
}

pub open spec fn spec_enc_device_info(d: DeviceInfoView) -> Seq<u8> {
    spec_enc_bytes(d.name) + spec_enc_bytes(d.serial_number)
}

pub open spec fn spec_enc_details(d: BehaviorDetailsView) -> Seq<u8> {
    spec_enc_u32(d.behavior_id) + spec_enc_bytes(d.display_name)
}

pub open spec fn spec_enc_layout(p: PhysicalLayoutView) -> Seq<u8> {
    spec_enc_bytes(p.name)
}

pub open spec fn spec_enc_layouts(ps: Seq<PhysicalLayoutView>) -> Seq<u8>
    decreases ps.len(),
{
    if ps.len() == 0 {
        Seq::empty()
    } else {
        spec_enc_layouts(ps.drop_last()) + spec_enc_layout(ps.last())
    }
}

pub open spec fn spec_enc_layouts_msg(p: PhysicalLayoutsView) -> Seq<u8> {
    spec_enc_u32(p.active_layout_index) + spec_enc_u64(p.layouts.len() as u64) + spec_enc_layouts(
        p.layouts,
    )
}

pub open spec fn spec_enc_add_details(a: AddLayerDetailsView) -> Seq<u8> {
    spec_enc_u32(a.index) + spec_enc_layer(a.layer)
}

pub open spec fn spec_enc_ids(ids: Seq<u32>) -> Seq<u8>
    decreases ids.len(),
{
    if ids.len() == 0 {
        Seq::empty()
    } else {
        spec_enc_ids(ids.drop_last()) + spec_enc_u32(ids.last())
    }
}

pub open spec fn spec_enc_core_request(r: CoreRequest) -> Seq<u8> {
    match r {
        CoreRequest::GetDeviceInfo => seq![1u8],
        CoreRequest::GetLockState => seq![2u8],
        CoreRequest::ResetSettings => seq![3u8],
    }
}

pub open spec fn spec_enc_behaviors_request(r: BehaviorsRequest) -> Seq<u8> {
    match r {
        BehaviorsRequest::ListAllBehaviors => seq![1u8],
        BehaviorsRequest::GetBehaviorDetails { behavior_id } => seq![2u8] + spec_enc_u32(
            behavior_id,
        ),
    }
}

pub open spec fn spec_enc_keymap_request(r: KeymapRequestView) -> Seq<u8> {
    match r {
        KeymapRequestView::GetKeymap => seq![1u8],
        KeymapRequestView::GetPhysicalLayouts => seq![2u8],
        KeymapRequestView::SetLayerBinding { layer_id, key_position, binding } => seq![3u8]
            + spec_enc_u32(layer_id) + spec_enc_u32(key_position as u32) + spec_enc_binding(
            binding,
        ),
        KeymapRequestView::CheckUnsavedChanges => seq![4u8],
        KeymapRequestView::SaveChanges => seq![5u8],
        KeymapRequestView::DiscardChanges => seq![6u8],
        KeymapRequestView::SetActivePhysicalLayout { index } => seq![7u8] + spec_enc_u32(index),
        KeymapRequestView::MoveLayer { start_index, dest_index } => seq![8u8] + spec_enc_u32(
            start_index,
        ) + spec_enc_u32(dest_index),
        KeymapRequestView::AddLayer => seq![9u8],
        KeymapRequestView::RemoveLayer { layer_index } => seq![10u8] + spec_enc_u32(layer_index),
        KeymapRequestView::RestoreLayer { layer_id, at_index } => seq![11u8] + spec_enc_u32(
            layer_id,
        ) + spec_enc_u32(at_index),
        KeymapRequestView::SetLayerProps { layer_id, name } => seq![12u8] + spec_enc_u32(layer_id)
            + spec_enc_bytes(name),
    }
}

pub open spec fn spec_enc_subsystem_request(r: SubsystemRequestView) -> Seq<u8> {
    match r {
        SubsystemRequestView::Core(c) => seq![1u8] + spec_enc_core_request(c),
        SubsystemRequestView::Behaviors(b) => seq![2u8] + spec_enc_behaviors_request(b),
        SubsystemRequestView::Keymap(k) => seq![3u8] + spec_enc_keymap_request(k),
    }
}

/// The unframed payload bytes of one request envelope.
pub open spec fn spec_enc_request(r: RequestView) -> Seq<u8> {
    spec_enc_u32(r.request_id) + spec_enc_subsystem_request(r.subsystem)
}

pub open spec fn spec_enc_meta(m: MetaResult) -> Seq<u8> {
    match m {
        MetaResult::NoResponse => seq![1u8],
        MetaResult::SimpleError { code } => seq![2u8] + spec_enc_u32(code),
    }
}

pub open spec fn spec_enc_core_result(c: CoreResultView) -> Seq<u8> {
    match c {
        CoreResultView::DeviceInfo(d) => seq![1u8] + spec_enc_device_info(d),
        CoreResultView::LockState { raw } => seq![2u8] + spec_enc_u32(raw),
        CoreResultView::ResetSettings { ok } => seq![3u8] + spec_enc_bool(ok),
    }
}

pub open spec fn spec_enc_behaviors_result(b: BehaviorsResultView) -> Seq<u8> {
    match b {
        BehaviorsResultView::ListAllBehaviors { behaviors } => seq![1u8] + spec_enc_u64(
            behaviors.len() as u64,
        ) + spec_enc_ids(behaviors),
        BehaviorsResultView::GetBehaviorDetails(d) => seq![2u8] + spec_enc_details(d),
    }
}

pub open spec fn spec_enc_ack(a: AckResult) -> Seq<u8> {
    match a {
        AckResult::Accepted => seq![1u8],
        AckResult::Rejected { code } => seq![2u8] + spec_enc_u32(code),
    }
}

pub open spec fn spec_enc_keymap_op(r: OpResult<KeymapView>) -> Seq<u8> {
    match r {
        OpResult::Accepted(k) => seq![1u8] + spec_enc_keymap(k),
        OpResult::Rejected { code } => seq![2u8] + spec_enc_u32(code),
    }
}

pub open spec fn spec_enc_keymap_result(k: KeymapResultView) -> Seq<u8> {
    match k {
        KeymapResultView::GetKeymap(m) => seq![1u8] + spec_enc_keymap(m),
        KeymapResultView::GetPhysicalLayouts(p) => seq![2u8] + spec_enc_layouts_msg(p),
        KeymapResultView::SetLayerBinding { code } => seq![3u8] + spec_enc_u32(code),
        KeymapResultView::CheckUnsavedChanges { unsaved } => seq![4u8] + spec_enc_bool(unsaved),
        KeymapResultView::SaveChanges(a) => seq![5u8] + spec_enc_ack(a),
        KeymapResultView::DiscardChanges { discarded } => seq![6u8] + spec_enc_bool(discarded),
        KeymapResultView::SetActivePhysicalLayout(r) => seq![7u8] + spec_enc_keymap_op(r),
        KeymapResultView::MoveLayer(r) => seq![8u8] + spec_enc_keymap_op(r),
        KeymapResultView::AddLayer(r) => seq![9u8] + (match r {
            OpResult::Accepted(d) => seq![1u8] + spec_enc_add_details(d),
            OpResult::Rejected { code } => seq![2u8] + spec_enc_u32(code),
        }),
        KeymapResultView::RemoveLayer(a) => seq![10u8] + spec_enc_ack(a),
        KeymapResultView::RestoreLayer(r) => seq![11u8] + (match r {
            OpResult::Accepted(l) => seq![1u8] + spec_enc_layer(l),
            OpResult::Rejected { code } => seq![2u8] + spec_enc_u32(code),
        }),
        KeymapResultView::SetLayerProps { code } => seq![12u8] + spec_enc_u32(code),
    }
}

pub open spec fn spec_enc_subsystem_result(s: SubsystemResultView) -> Seq<u8> {
    match s {
        SubsystemResultView::Meta(m) => seq![1u8] + spec_enc_meta(m),
        SubsystemResultView::Core(c) => seq![2u8] + spec_enc_core_result(c),
        SubsystemResultView::Behaviors(b) => seq![3u8] + spec_enc_behaviors_result(b),
        SubsystemResultView::Keymap(k) => seq![4u8] + spec_enc_keymap_result(k),
    }
}

/// The unframed payload bytes of one response envelope.
pub open spec fn spec_enc_response(r: ResponseView) -> Seq<u8> {
    match r {
        ResponseView::RequestResponse(rr) => seq![1u8] + spec_enc_u32(rr.request_id)
            + spec_enc_subsystem_result(rr.result),
        ResponseView::Notification(payload) => seq![2u8] + spec_enc_bytes(payload),
    }
}

// ---------------------------------------------------------------------------
// Executable encoders.
// ---------------------------------------------------------------------------

fn write_binding(out: &mut Vec<u8>, b: &BehaviorBinding)
    ensures
        final(out)@ == old(out)@ + spec_enc_binding(*b),
{
    write_u32(out, b.behavior_id as u32);
    write_u32(out, b.param1);
    write_u32(out, b.param2);
    proof {
        assert(out@ =~= old(out)@ + spec_enc_binding(*b));
    }
}

fn write_layer(out: &mut Vec<u8>, l: &Layer)
    ensures
        final(out)@ == old(out)@ + spec_enc_layer(l@),
{
    write_u32(out, l.id);
    write_bytes(out, &l.name);
    write_u64(out, l.bindings.len() as u64);
    let ghost mid = out@;
    let mut i: usize = 0;
    while i < l.bindings.len()
        invariant
            i <= l.bindings.len(),
            out@ == mid + spec_enc_bindings(l.bindings@.take(i as int)),
        decreases l.bindings.len() - i,
    {
        write_binding(out, &l.bindings[i]);
        proof {
            assert(l.bindings@.take(i + 1).drop_last() =~= l.bindings@.take(i as int));
            assert(l.bindings@.take(i + 1).last() == l.bindings@[i as int]);
            assert(out@ =~= mid + spec_enc_bindings(l.bindings@.take(i + 1)));
        }
        i = i + 1;
    }
    proof {
        assert(l.bindings@.take(l.bindings@.len() as int) =~= l.bindings@);
        assert(out@ =~= old(out)@ + spec_enc_layer(l@));
    }
}

fn write_keymap(out: &mut Vec<u8>, k: &Keymap)
    ensures
        final(out)@ == old(out)@ + spec_enc_keymap(k@),
{
    write_u64(out, k.layers.len() as u64);
    let ghost mid = out@;
    let mut i: usize = 0;
    while i < k.layers.len()
        invariant
            i <= k.layers.len(),
            out@ == mid + spec_enc_layers(k.layers.deep_view().take(i as int)),
        decreases k.layers.len() - i,
    {
        write_layer(out, &k.layers[i]);
        proof {
            assert(k.layers.deep_view().take(i + 1).drop_last() =~= k.layers.deep_view().take(
                i as int,
            ));
            assert(k.layers.deep_view().take(i + 1).last() == k.layers@[i as int]@);
            assert(out@ =~= mid + spec_enc_layers(k.layers.deep_view().take(i + 1)));
        }
        i = i + 1;
    }
    proof {
        assert(k.layers.deep_view().take(k.layers@.len() as int) =~= k.layers.deep_view());
        assert(out@ =~= old(out)@ + spec_enc_keymap(k@));
    }
}

fn write_device_info(out: &mut Vec<u8>, d: &DeviceInfo)
    ensures
        final(out)@ == old(out)@ + spec_enc_device_info(d@),
{
    write_bytes(out, &d.name);
    write_bytes(out, &d.serial_number);
    proof {
        assert(out@ =~= old(out)@ + spec_enc_device_info(d@));
    }
}

fn write_details(out: &mut Vec<u8>, d: &BehaviorDetails)
    ensures
        final(out)@ == old(out)@ + spec_enc_details(d@),
{
    write_u32(out, d.behavior_id);
    write_bytes(out, &d.display_name);
    proof {
        assert(out@ =~= old(out)@ + spec_enc_details(d@));
    }
}

fn write_layouts_msg(out: &mut Vec<u8>, p: &PhysicalLayouts)
    ensures
        final(out)@ == old(out)@ + spec_enc_layouts_msg(p@),
{
    write_u32(out, p.active_layout_index);
    write_u64(out, p.layouts.len() as u64);
    let ghost mid = out@;
    let mut i: usize = 0;
    while i < p.layouts.len()
        invariant
            i <= p.layouts.len(),
            out@ == mid + spec_enc_layouts(p.layouts.deep_view().take(i as int)),
        decreases p.layouts.len() - i,
    {
        write_bytes(out, &p.layouts[i].name);
        proof {
            assert(p.layouts.deep_view().take(i + 1).drop_last() =~= p.layouts.deep_view().take(
                i as int,
            ));
            assert(p.layouts.deep_view().take(i + 1).last() == p.layouts@[i as int]@);
            assert(out@ =~= mid + spec_enc_layouts(p.layouts.deep_view().take(i + 1)));
        }
        i = i + 1;
    }
    proof {
        assert(p.layouts.deep_view().take(p.layouts@.len() as int) =~= p.layouts.deep_view());
        assert(out@ =~= old(out)@ + spec_enc_layouts_msg(p@));
    }
}

fn write_add_details(out: &mut Vec<u8>, a: &AddLayerDetails)
    ensures
        final(out)@ == old(out)@ + spec_enc_add_details(a@),
{
    write_u32(out, a.index);
    write_layer(out, &a.layer);
    proof {
        assert(out@ =~= old(out)@ + spec_enc_add_details(a@));
    }
}

fn write_ids(out: &mut Vec<u8>, ids: &Vec<u32>)
    ensures
        final(out)@ == old(out)@ + spec_enc_u64(ids@.len() as u64) + spec_enc_ids(ids@),
{
    write_u64(out, ids.len() as u64);
    let ghost mid = out@;
    let mut i: usize = 0;
    while i < ids.len()
        invariant
            i <= ids.len(),
            out@ == mid + spec_enc_ids(ids@.take(i as int)),
        decreases ids.len() - i,
    {
        write_u32(out, ids[i]);
        proof {
            assert(ids@.take(i + 1).drop_last() =~= ids@.take(i as int));
            assert(ids@.take(i + 1).last() == ids@[i as int]);
            assert(out@ =~= mid + spec_enc_ids(ids@.take(i + 1)));
        }
        i = i + 1;
    }
    proof {
        assert(ids@.take(ids@.len() as int) =~= ids@);
        assert(out@ =~= old(out)@ + spec_enc_u64(ids@.len() as u64) + spec_enc_ids(ids@));
    }
}

fn write_subsystem_request(out: &mut Vec<u8>, r: &SubsystemRequest)
    ensures
        final(out)@ == old(out)@ + spec_enc_subsystem_request(r@),
{
    match r {
        SubsystemRequest::Core(c) => {
            match c {
                CoreRequest::GetDeviceInfo => {
                    write_u8(out, 1);
                    write_u8(out, 1);
                },
                CoreRequest::GetLockState => {
                    write_u8(out, 1);
                    write_u8(out, 2);
                },
                CoreRequest::ResetSettings => {
                    write_u8(out, 1);
                    write_u8(out, 3);
                },
            }
        },
        SubsystemRequest::Behaviors(b) => {
            write_u8(out, 2);
            match b {
                BehaviorsRequest::ListAllBehaviors => {
                    write_u8(out, 1);
                },
                BehaviorsRequest::GetBehaviorDetails { behavior_id } => {
                    write_u8(out, 2);
                    write_u32(out, *behavior_id);
                },
            }
        },
        SubsystemRequest::Keymap(k) => {
            write_u8(out, 3);
            match k {
                KeymapRequest::GetKeymap => {
                    write_u8(out, 1);
                },
                KeymapRequest::GetPhysicalLayouts => {
                    write_u8(out, 2);
                },
                KeymapRequest::SetLayerBinding { layer_id, key_position, binding } => {
                    write_u8(out, 3);
                    write_u32(out, *layer_id);
                    write_u32(out, *key_position as u32);
                    write_binding(out, binding);
                },
                KeymapRequest::CheckUnsavedChanges => {
                    write_u8(out, 4);
                },
                KeymapRequest::SaveChanges => {
                    write_u8(out, 5);
                },
                KeymapRequest::DiscardChanges => {
                    write_u8(out, 6);
                },
                KeymapRequest::SetActivePhysicalLayout { index } => {
                    write_u8(out, 7);
                    write_u32(out, *index);
                },
                KeymapRequest::MoveLayer { start_index, dest_index } => {
                    write_u8(out, 8);
                    write_u32(out, *start_index);
                    write_u32(out, *dest_index);
                },
                KeymapRequest::AddLayer => {
                    write_u8(out, 9);
                },
                KeymapRequest::RemoveLayer { layer_index } => {
                    write_u8(out, 10);
                    write_u32(out, *layer_index);
                },
                KeymapRequest::RestoreLayer { layer_id, at_index } => {
                    write_u8(out, 11);
                    write_u32(out, *layer_id);
                    write_u32(out, *at_index);
                },
                KeymapRequest::SetLayerProps { layer_id, name } => {
                    write_u8(out, 12);
                    write_u32(out, *layer_id);
                    write_bytes(out, name);
                },
            }
        },
    }
    proof {
        assert(out@ =~= old(out)@ + spec_enc_subsystem_request(r@));
    }
}

fn write_subsystem_result(out: &mut Vec<u8>, s: &SubsystemResult)
    ensures
        final(out)@ == old(out)@ + spec_enc_subsystem_result(s@),
{
    match s {
        SubsystemResult::Meta(m) => {
            write_u8(out, 1);
            match m {
                MetaResult::NoResponse => {
                    write_u8(out, 1);
                },
                MetaResult::SimpleError { code } => {
                    write_u8(out, 2);
                    write_u32(out, *code);
                },
            }
        },
        SubsystemResult::Core(c) => {
            write_u8(out, 2);
            match c {
                CoreResult::DeviceInfo(d) => {
                    write_u8(out, 1);
                    write_device_info(out, d);
                },
                CoreResult::LockState { raw } => {
                    write_u8(out, 2);
                    write_u32(out, *raw);
                },
                CoreResult::ResetSettings { ok } => {
                    write_u8(out, 3);
                    write_bool(out, *ok);
                },
            }
        },
        SubsystemResult::Behaviors(b) => {
            write_u8(out, 3);
            match b {
                BehaviorsResult::ListAllBehaviors { behaviors } => {
                    write_u8(out, 1);
                    write_ids(out, behaviors);
                },
                BehaviorsResult::GetBehaviorDetails(d) => {
                    write_u8(out, 2);
                    write_details(out, d);
                },
            }
        },
        SubsystemResult::Keymap(k) => {
            write_u8(out, 4);
            match k {
                KeymapResult::GetKeymap(m) => {
                    write_u8(out, 1);
                    write_keymap(out, m);
                },
                KeymapResult::GetPhysicalLayouts(p) => {
                    write_u8(out, 2);
                    write_layouts_msg(out, p);
                },
                KeymapResult::SetLayerBinding { code } => {
                    write_u8(out, 3);
                    write_u32(out, *code);
                },
                KeymapResult::CheckUnsavedChanges { unsaved } => {
                    write_u8(out, 4);
                    write_bool(out, *unsaved);
                },
                KeymapResult::SaveChanges(a) => {
                    write_u8(out, 5);
                    write_ack(out, a);
                },
                KeymapResult::DiscardChanges { discarded } => {
                    write_u8(out, 6);
                    write_bool(out, *discarded);
                },
                KeymapResult::SetActivePhysicalLayout(r) => {
                    write_u8(out, 7);
                    write_keymap_op(out, r);
                },
                KeymapResult::MoveLayer(r) => {
                    write_u8(out, 8);
                    write_keymap_op(out, r);
                },
                KeymapResult::AddLayer(r) => {
                    write_u8(out, 9);
                    match r {
                        OpResult::Accepted(d) => {
                            write_u8(out, 1);
                            write_add_details(out, d);
                        },
                        OpResult::Rejected { code } => {
                            write_u8(out, 2);
                            write_u32(out, *code);
                        },
                    }
                },
                KeymapResult::RemoveLayer(a) => {
                    write_u8(out, 10);
                    write_ack(out, a);
                },
                KeymapResult::RestoreLayer(r) => {
                    write_u8(out, 11);
                    match r {
                        OpResult::Accepted(l) => {
                            write_u8(out, 1);
                            write_layer(out, l);
                        },
                        OpResult::Rejected { code } => {
                            write_u8(out, 2);
                            write_u32(out, *code);
                        },
                    }
                },
                KeymapResult::SetLayerProps { code } => {
                    write_u8(out, 12);
                    write_u32(out, *code);
                },
            }
        },
    }
    proof {
        assert(out@ =~= old(out)@ + spec_enc_subsystem_result(s@));
    }
}

fn write_ack(out: &mut Vec<u8>, a: &AckResult)
    ensures
        final(out)@ == old(out)@ + spec_enc_ack(*a),
{
    match a {
        AckResult::Accepted => {
            write_u8(out, 1);
        },
        AckResult::Rejected { code } => {
            write_u8(out, 2);
            write_u32(out, *code);
        },
    }
    proof {
        assert(out@ =~= old(out)@ + spec_enc_ack(*a));
    }
}

fn write_keymap_op(out: &mut Vec<u8>, r: &OpResult<Keymap>)
    ensures
        final(out)@ == old(out)@ + spec_enc_keymap_op(
            match r {
                OpResult::Accepted(k) => OpResult::Accepted(k@),
                OpResult::Rejected { code } => (OpResult::Rejected { code: *code }),
            },
        ),
{
    match r {
        OpResult::Accepted(k) => {
            write_u8(out, 1);
            write_keymap(out, k);
        },
        OpResult::Rejected { code } => {
            write_u8(out, 2);
            write_u32(out, *code);
        },
    }
}

// ---------------------------------------------------------------------------
// Payload parsers, as specification functions. A parser yields the parsed
// value and the cursor after it, or nothing if the bytes are malformed.
// ---------------------------------------------------------------------------

pub open spec fn spec_parse_binding(s: Seq<u8>, pos: int) -> Option<(BehaviorBinding, int)> {
    match spec_read_u32(s, pos) {
        Some((bid, p1)) => match spec_read_u32(s, p1) {
            Some((param1, p2)) => match spec_read_u32(s, p2) {
                Some((param2, p3)) => Some(
                    (BehaviorBinding { behavior_id: bid as i32, param1, param2 }, p3),
                ),
                None => None,
            },
            None => None,
        },
        None => None,
    }
}

pub open spec fn spec_parse_bindings(s: Seq<u8>, pos: int, n: int) -> Option<
    (Seq<BehaviorBinding>, int),
>
    decreases n,
{
    if n <= 0 {
        Some((Seq::empty(), pos))
    } else {
        match spec_parse_binding(s, pos) {
            Some((b, p)) => match spec_parse_bindings(s, p, n - 1) {
                Some((rest, end)) => Some((seq![b] + rest, end)),
                None => None,
            },
            None => None,
        }
    }
}

pub open spec fn spec_parse_layer(s: Seq<u8>, pos: int) -> Option<(LayerView, int)> {
    match spec_read_u32(s, pos) {
        Some((id, p1)) => match spec_read_bytes(s, p1) {
            Some((name, p2)) => match spec_read_u64(s, p2) {
                Some((n, p3)) => match spec_parse_bindings(s, p3, n as int) {
                    Some((bindings, p4)) => Some((LayerView { id, name, bindings }, p4)),
                    None => None,
                },
                None => None,
            },
            None => None,
        },
        None => None,
    }
}

pub open spec fn spec_parse_layers(s: Seq<u8>, pos: int, n: int) -> Option<(Seq<LayerView>, int)>
    decreases n,
{
    if n <= 0 {
        Some((Seq::empty(), pos))
    } else {
        match spec_parse_layer(s, pos) {
            Some((l, p)) => match spec_parse_layers(s, p, n - 1) {
                Some((rest, end)) => Some((seq![l] + rest, end)),
                None => None,
            },
            None => None,
        }
    }
}

pub open spec fn spec_parse_keymap(s: Seq<u8>, pos: int) -> Option<(KeymapView, int)> {
    match spec_read_u64(s, pos) {
        Some((n, p1)) => match spec_parse_layers(s, p1, n as int) {
            Some((layers, p2)) => Some((KeymapView { layers }, p2)),
            None => None,
        },
        None => None,
    }
}

pub open spec fn spec_parse_device_info(s: Seq<u8>, pos: int) -> Option<(DeviceInfoView, int)> {
    match spec_read_bytes(s, pos) {
        Some((name, p1)) => match spec_read_bytes(s, p1) {
            Some((serial_number, p2)) => Some((DeviceInfoView { name, serial_number }, p2)),
            None => None,
        },
        None => None,
    }
}

pub open spec fn spec_parse_details(s: Seq<u8>, pos: int) -> Option<(BehaviorDetailsView, int)> {
    match spec_read_u32(s, pos) {
        Some((behavior_id, p1)) => match spec_read_bytes(s, p1) {
            Some((display_name, p2)) => Some(
                (BehaviorDetailsView { behavior_id, display_name }, p2),
            ),
            None => None,
        },
        None => None,
    }
}

pub open spec fn spec_parse_layouts(s: Seq<u8>, pos: int, n: int) -> Option<
    (Seq<PhysicalLayoutView>, int),
>
    decreases n,
{
    if n <= 0 {
        Some((Seq::empty(), pos))
    } else {
        match spec_read_bytes(s, pos) {
            Some((name, p)) => match spec_parse_layouts(s, p, n - 1) {
                Some((rest, end)) => Some((seq![PhysicalLayoutView { name }] + rest, end)),
                None => None,
            },
            None => None,
        }
    }
}

pub open spec fn spec_parse_layouts_msg(s: Seq<u8>, pos: int) -> Option<
    (PhysicalLayoutsView, int),
> {
    match spec_read_u32(s, pos) {
        Some((active_layout_index, p1)) => match spec_read_u64(s, p1) {
            Some((n, p2)) => match spec_parse_layouts(s, p2, n as int) {
                Some((layouts, p3)) => Some(
                    (PhysicalLayoutsView { layouts, active_layout_index }, p3),
                ),
                None => None,
            },
            None => None,
        },
        None => None,
    }
}

pub open spec fn spec_parse_add_details(s: Seq<u8>, pos: int) -> Option<
    (AddLayerDetailsView, int),
> {
    match spec_read_u32(s, pos) {
        Some((index, p1)) => match spec_parse_layer(s, p1) {
            Some((layer, p2)) => Some((AddLayerDetailsView { index, layer }, p2)),
            None => None,
        },
        None => None,
    }
}

pub open spec fn spec_parse_ids(s: Seq<u8>, pos: int, n: int) -> Option<(Seq<u32>, int)>
    decreases n,
{
    if n <= 0 {
        Some((Seq::empty(), pos))
    } else {
        match spec_read_u32(s, pos) {
            Some((v, p)) => match spec_parse_ids(s, p, n - 1) {
                Some((rest, end)) => Some((seq![v] + rest, end)),
                None => None,
            },
            None => None,
        }
    }
}

pub open spec fn spec_parse_core_request(s: Seq<u8>, pos: int) -> Option<(CoreRequest, int)> {
    match spec_read_u8(s, pos) {
        Some((tag, p)) => if tag == 1 {
            Some((CoreRequest::GetDeviceInfo, p))
        } else if tag == 2 {
            Some((CoreRequest::GetLockState, p))
        } else if tag == 3 {
            Some((CoreRequest::ResetSettings, p))
        } else {
            None
        },
        None => None,
    }
}

pub open spec fn spec_parse_behaviors_request(s: Seq<u8>, pos: int) -> Option<
    (BehaviorsRequest, int),
> {
    match spec_read_u8(s, pos) {
        Some((tag, p)) => if tag == 1 {
            Some((BehaviorsRequest::ListAllBehaviors, p))
        } else if tag == 2 {
            match spec_read_u32(s, p) {
                Some((behavior_id, p1)) => Some(
                    (BehaviorsRequest::GetBehaviorDetails { behavior_id }, p1),
                ),
                None => None,
            }
        } else {
            None
        },
        None => None,
    }
}

pub open spec fn spec_parse_keymap_request(s: Seq<u8>, pos: int) -> Option<
    (KeymapRequestView, int),
> {
    match spec_read_u8(s, pos) {
        Some((tag, p)) => if tag == 1 {
            Some((KeymapRequestView::GetKeymap, p))
        } else if tag == 2 {
            Some((KeymapRequestView::GetPhysicalLayouts, p))
        } else if tag == 3 {
            match spec_read_u32(s, p) {
                Some((layer_id, p1)) => match spec_read_u32(s, p1) {
                    Some((kp, p2)) => match spec_parse_binding(s, p2) {
                        Some((binding, p3)) => Some(
                            (
                                KeymapRequestView::SetLayerBinding {
                                    layer_id,
                                    key_position: kp as i32,
                                    binding,
                                },
                                p3,
                            ),
                        ),
                        None => None,
                    },
                    None => None,
                },
                None => None,
            }
        } else if tag == 4 {
            Some((KeymapRequestView::CheckUnsavedChanges, p))
        } else if tag == 5 {
            Some((KeymapRequestView::SaveChanges, p))
        } else if tag == 6 {
            Some((KeymapRequestView::DiscardChanges, p))
        } else if tag == 7 {
            match spec_read_u32(s, p) {
                Some((index, p1)) => Some((KeymapRequestView::SetActivePhysicalLayout { index }, p1)),
                None => None,
            }
        } else if tag == 8 {
            match spec_read_u32(s, p) {
                Some((start_index, p1)) => match spec_read_u32(s, p1) {
                    Some((dest_index, p2)) => Some(
                        (KeymapRequestView::MoveLayer { start_index, dest_index }, p2),
                    ),
                    None => None,
                },
                None => None,
            }
        } else if tag == 9 {
            Some((KeymapRequestView::AddLayer, p))
        } else if tag == 10 {
            match spec_read_u32(s, p) {
                Some((layer_index, p1)) => Some((KeymapRequestView::RemoveLayer { layer_index }, p1)),
                None => None,
            }
        } else if tag == 11 {
            match spec_read_u32(s, p) {
                Some((layer_id, p1)) => match spec_read_u32(s, p1) {
                    Some((at_index, p2)) => Some(
                        (KeymapRequestView::RestoreLayer { layer_id, at_index }, p2),
                    ),
                    None => None,
                },
                None => None,
            }
        } else if tag == 12 {
            match spec_read_u32(s, p) {
                Some((layer_id, p1)) => match spec_read_bytes(s, p1) {
                    Some((name, p2)) => Some(
                        (KeymapRequestView::SetLayerProps { layer_id, name }, p2),
                    ),
                    None => None,
                },
                None => None,
            }
        } else {
            None
        },
        None => None,
    }
}

pub open spec fn spec_parse_subsystem_request(s: Seq<u8>, pos: int) -> Option<
    (SubsystemRequestView, int),
> {
    match spec_read_u8(s, pos) {
        Some((tag, p)) => if tag == 1 {
            match spec_parse_core_request(s, p) {
                Some((c, p1)) => Some((SubsystemRequestView::Core(c), p1)),
                None => None,
            }
        } else if tag == 2 {
            match spec_parse_behaviors_request(s, p) {
                Some((b, p1)) => Some((SubsystemRequestView::Behaviors(b), p1)),
                None => None,
            }
        } else if tag == 3 {
            match spec_parse_keymap_request(s, p) {
                Some((k, p1)) => Some((SubsystemRequestView::Keymap(k), p1)),
                None => None,
            }
        } else {
            None
        },
        None => None,
    }
}

/// The request envelope a complete frame payload denotes, if well-formed.
/// Trailing bytes after the envelope are malformed.
pub open spec fn spec_parse_request(s: Seq<u8>) -> Option<RequestView> {
    match spec_read_u32(s, 0) {
        Some((request_id, p)) => match spec_parse_subsystem_request(s, p) {
            Some((subsystem, p1)) => if p1 == s.len() {
                Some(RequestView { request_id, subsystem })
            } else {
                None
            },
            None => None,
        },
        None => None,
    }
}

pub open spec fn spec_parse_meta(s: Seq<u8>, pos: int) -> Option<(MetaResult, int)> {
    match spec_read_u8(s, pos) {
        Some((tag, p)) => if tag == 1 {
            Some((MetaResult::NoResponse, p))
        } else if tag == 2 {
            match spec_read_u32(s, p) {
                Some((code, p1)) => Some((MetaResult::SimpleError { code }, p1)),
                None => None,
            }
        } else {
            None
        },
        None => None,
    }
}

pub open spec fn spec_parse_core_result(s: Seq<u8>, pos: int) -> Option<(CoreResultView, int)> {
    match spec_read_u8(s, pos) {
        Some((tag, p)) => if tag == 1 {
            match spec_parse_device_info(s, p) {
                Some((d, p1)) => Some((CoreResultView::DeviceInfo(d), p1)),
                None => None,
            }
        } else if tag == 2 {
            match spec_read_u32(s, p) {
                Some((raw, p1)) => Some((CoreResultView::LockState { raw }, p1)),
                None => None,
            }
        } else if tag == 3 {
            match spec_read_bool(s, p) {
                Some((ok, p1)) => Some((CoreResultView::ResetSettings { ok }, p1)),
                None => None,
            }
        } else {
            None
        },
        None => None,
    }
}

pub open spec fn spec_parse_behaviors_result(s: Seq<u8>, pos: int) -> Option<
    (BehaviorsResultView, int),
> {
    match spec_read_u8(s, pos) {
        Some((tag, p)) => if tag == 1 {
            match spec_read_u64(s, p) {
                Some((n, p1)) => match spec_parse_ids(s, p1, n as int) {
                    Some((behaviors, p2)) => Some(
                        (BehaviorsResultView::ListAllBehaviors { behaviors }, p2),
                    ),
                    None => None,
                },
                None => None,
            }
        } else if tag == 2 {
            match spec_parse_details(s, p) {
                Some((d, p1)) => Some((BehaviorsResultView::GetBehaviorDetails(d), p1)),
                None => None,
            }
        } else {
            None
        },
        None => None,
    }
}

pub open spec fn spec_parse_ack(s: Seq<u8>, pos: int) -> Option<(AckResult, int)> {
    match spec_read_u8(s, pos) {
        Some((tag, p)) => if tag == 1 {
            Some((AckResult::Accepted, p))
        } else if tag == 2 {
            match spec_read_u32(s, p) {
                Some((code, p1)) => Some((AckResult::Rejected { code }, p1)),
                None => None,
            }
        } else {
            None
        },
        None => None,
    }
}

pub open spec fn spec_parse_keymap_op(s: Seq<u8>, pos: int) -> Option<
    (OpResult<KeymapView>, int),
> {
    match spec_read_u8(s, pos) {
        Some((tag, p)) => if tag == 1 {
            match spec_parse_keymap(s, p) {
                Some((k, p1)) => Some((OpResult::Accepted(k), p1)),
                None => None,
            }
        } else if tag == 2 {
            match spec_read_u32(s, p) {
                Some((code, p1)) => Some((OpResult::Rejected { code }, p1)),
                None => None,
            }
        } else {
            None
        },
        None => None,
    }
}

pub open spec fn spec_parse_keymap_result(s: Seq<u8>, pos: int) -> Option<
    (KeymapResultView, int),
> {
    match spec_read_u8(s, pos) {
        Some((tag, p)) => if tag == 1 {
            match spec_parse_keymap(s, p) {
                Some((m, p1)) => Some((KeymapResultView::GetKeymap(m), p1)),
                None => None,
            }
        } else if tag == 2 {
            match spec_parse_layouts_msg(s, p) {
                Some((m, p1)) => Some((KeymapResultView::GetPhysicalLayouts(m), p1)),
                None => None,
            }
        } else if tag == 3 {
            match spec_read_u32(s, p) {
                Some((code, p1)) => Some((KeymapResultView::SetLayerBinding { code }, p1)),
                None => None,
            }
        } else if tag == 4 {
            match spec_read_bool(s, p) {
                Some((unsaved, p1)) => Some((KeymapResultView::CheckUnsavedChanges { unsaved }, p1)),
                None => None,
            }
        } else if tag == 5 {
            match spec_parse_ack(s, p) {
                Some((a, p1)) => Some((KeymapResultView::SaveChanges(a), p1)),
                None => None,
            }
        } else if tag == 6 {
            match spec_read_bool(s, p) {
                Some((discarded, p1)) => Some((KeymapResultView::DiscardChanges { discarded }, p1)),
                None => None,
            }
        } else if tag == 7 {
            match spec_parse_keymap_op(s, p) {
                Some((r, p1)) => Some((KeymapResultView::SetActivePhysicalLayout(r), p1)),
                None => None,
            }
        } else if tag == 8 {
            match spec_parse_keymap_op(s, p) {
                Some((r, p1)) => Some((KeymapResultView::MoveLayer(r), p1)),
                None => None,
            }
        } else if tag == 9 {
            match spec_read_u8(s, p) {
                Some((t2, p1)) => if t2 == 1 {
                    match spec_parse_add_details(s, p1) {
                        Some((d, p2)) => Some(
                            (KeymapResultView::AddLayer(OpResult::Accepted(d)), p2),
                        ),
                        None => None,
                    }
                } else if t2 == 2 {
                    match spec_read_u32(s, p1) {
                        Some((code, p2)) => Some(
                            (KeymapResultView::AddLayer(OpResult::Rejected { code }), p2),
                        ),
                        None => None,
                    }
                } else {
                    None
                },
                None => None,
            }
        } else if tag == 10 {
            match spec_parse_ack(s, p) {
                Some((a, p1)) => Some((KeymapResultView::RemoveLayer(a), p1)),
                None => None,
            }
        } else if tag == 11 {
            match spec_read_u8(s, p) {
                Some((t2, p1)) => if t2 == 1 {
                    match spec_parse_layer(s, p1) {
                        Some((l, p2)) => Some(
                            (KeymapResultView::RestoreLayer(OpResult::Accepted(l)), p2),
                        ),
                        None => None,
                    }
                } else if t2 == 2 {
                    match spec_read_u32(s, p1) {
                        Some((code, p2)) => Some(
                            (KeymapResultView::RestoreLayer(OpResult::Rejected { code }), p2),
                        ),
                        None => None,
                    }
                } else {
                    None
                },
                None => None,
            }
        } else if tag == 12 {
            match spec_read_u32(s, p) {
                Some((code, p1)) => Some((KeymapResultView::SetLayerProps { code }, p1)),
                None => None,
            }
        } else {
            None
        },
        None => None,
    }
}

pub open spec fn spec_parse_subsystem_result(s: Seq<u8>, pos: int) -> Option<
    (SubsystemResultView, int),
> {
    match spec_read_u8(s, pos) {
        Some((tag, p)) => if tag == 1 {
            match spec_parse_meta(s, p) {
                Some((m, p1)) => Some((SubsystemResultView::Meta(m), p1)),
                None => None,
            }
        } else if tag == 2 {
            match spec_parse_core_result(s, p) {
                Some((c, p1)) => Some((SubsystemResultView::Core(c), p1)),
                None => None,
            }
        } else if tag == 3 {
            match spec_parse_behaviors_result(s, p) {
                Some((b, p1)) => Some((SubsystemResultView::Behaviors(b), p1)),
                None => None,
            }
        } else if tag == 4 {
            match spec_parse_keymap_result(s, p) {
                Some((k, p1)) => Some((SubsystemResultView::Keymap(k), p1)),
                None => None,
            }
        } else {
            None
        },
        None => None,
    }
}

/// The response envelope a complete frame payload denotes, if well-formed.
/// Trailing bytes after the envelope are malformed.
pub open spec fn spec_parse_response(s: Seq<u8>) -> Option<ResponseView> {
    match spec_read_u8(s, 0) {
        Some((tag, p)) => if tag == 1 {
            match spec_read_u32(s, p) {
                Some((request_id, p1)) => match spec_parse_subsystem_result(s, p1) {
                    Some((result, p2)) => if p2 == s.len() {
                        Some(
                            ResponseView::RequestResponse(
                                RequestResponseView { request_id, result },
                            ),
                        )
                    } else {
                        None
                    },
                    None => None,
                },
                None => None,
            }
        } else if tag == 2 {
            match spec_read_bytes(s, p) {
                Some((payload, p1)) => if p1 == s.len() {
                    Some(ResponseView::Notification(payload))
                } else {
                    None
                },
                None => None,
            }
        } else {
            None
        },
        None => None,
    }
}

/// The envelopes of a sequence of frame payloads; nothing if any frame is
/// malformed.
pub open spec fn spec_parse_requests(frames: Seq<Seq<u8>>) -> Option<Seq<RequestView>>
    decreases frames.len(),
{
    if frames.len() == 0 {
        Some(Seq::empty())
    } else {
        match spec_parse_request(frames[0]) {
            Some(r) => match spec_parse_requests(frames.skip(1)) {
                Some(rest) => Some(seq![r] + rest),
                None => None,
            },
            None => None,
        }
    }
}

/// The envelopes of a sequence of frame payloads; nothing if any frame is
/// malformed.
pub open spec fn spec_parse_responses(frames: Seq<Seq<u8>>) -> Option<Seq<ResponseView>>
    decreases frames.len(),
{
    if frames.len() == 0 {
        Some(Seq::empty())
    } else {
        match spec_parse_response(frames[0]) {
            Some(r) => match spec_parse_responses(frames.skip(1)) {
                Some(rest) => Some(seq![r] + rest),
                None => None,
            },
            None => None,
        }
    }
}

// ---------------------------------------------------------------------------
// Round-trip laws: parsing the encoding of any envelope yields it back.
// Each lemma assumes the bytes from `pos` on are one value's encoding
// followed by `rest`, and concludes that the parser reads exactly that
// value and stops exactly at `rest`.
// ---------------------------------------------------------------------------

proof fn lemma_rt_u8(s: Seq<u8>, pos: int, t: u8, rest: Seq<u8>)
    requires
        0 <= pos <= s.len(),
        s.skip(pos) == seq![t] + rest,
    ensures
        spec_read_u8(s, pos) == Some((t, pos + 1)),
        s.skip(pos + 1) == rest,
{
    assert(s.skip(pos).len() == s.len() - pos);
    assert(s[pos] == s.skip(pos)[0]);
    assert(s.skip(pos + 1) =~= s.skip(pos).skip(1));
    assert(s.skip(pos).skip(1) =~= rest);
}

proof fn lemma_rt_u32(s: Seq<u8>, pos: int, v: u32, rest: Seq<u8>)
    requires
        0 <= pos <= s.len(),
        s.skip(pos) == spec_enc_u32(v) + rest,
    ensures
        spec_read_u32(s, pos) == Some((v, pos + 4)),
        s.skip(pos + 4) == rest,
{
    assert(s.skip(pos).len() == s.len() - pos);
    assert forall|k: int| 0 <= k < 4 implies s[pos + k] == spec_enc_u32(v)[k] by {
        assert(s[pos + k] == s.skip(pos)[k]);
    }
    assert(((((v & 0xFF) as u8) as u32) | (((((v >> 8) & 0xFF) as u8) as u32) << 8) | (((((v
        >> 16) & 0xFF) as u8) as u32) << 16) | (((((v >> 24) & 0xFF) as u8) as u32) << 24)) == v)
        by (bit_vector);
    assert(s.skip(pos + 4) =~= rest) by {
        assert forall|k: int| 0 <= k < rest.len() implies s[pos + 4 + k] == rest[k] by {
            assert(s[pos + 4 + k] == s.skip(pos)[4 + k]);
        }
    }
}

proof fn lemma_rt_u64(s: Seq<u8>, pos: int, v: u64, rest: Seq<u8>)
    requires
        0 <= pos <= s.len(),
        s.skip(pos) == spec_enc_u64(v) + rest,
    ensures
        spec_read_u64(s, pos) == Some((v, pos + 8)),
        s.skip(pos + 8) == rest,
{
    assert(s.skip(pos).len() == s.len() - pos);
    assert forall|k: int| 0 <= k < 8 implies s[pos + k] == spec_enc_u64(v)[k] by {
        assert(s[pos + k] == s.skip(pos)[k]);
    }
    assert(((((v & 0xFF) as u8) as u64) | (((((v >> 8) & 0xFF) as u8) as u64) << 8) | (((((v
        >> 16) & 0xFF) as u8) as u64) << 16) | (((((v >> 24) & 0xFF) as u8) as u64) << 24) | (((((
    v >> 32) & 0xFF) as u8) as u64) << 32) | (((((v >> 40) & 0xFF) as u8) as u64) << 40) | (((((v
        >> 48) & 0xFF) as u8) as u64) << 48) | (((((v >> 56) & 0xFF) as u8) as u64) << 56)) == v)
        by (bit_vector);
    assert(s.skip(pos + 8) =~= rest) by {
        assert forall|k: int| 0 <= k < rest.len() implies s[pos + 8 + k] == rest[k] by {
            assert(s[pos + 8 + k] == s.skip(pos)[8 + k]);
        }
    }
}

proof fn lemma_rt_bool(s: Seq<u8>, pos: int, b: bool, rest: Seq<u8>)
    requires
        0 <= pos <= s.len(),
        s.skip(pos) == spec_enc_bool(b) + rest,
    ensures
        spec_read_bool(s, pos) == Some((b, pos + 1)),
        s.skip(pos + 1) == rest,
{
    assert(s.skip(pos).len() == s.len() - pos);
    assert(s[pos] == s.skip(pos)[0]);
    assert(s.skip(pos + 1) =~= s.skip(pos).skip(1));
    assert(s.skip(pos).skip(1) =~= rest);
}

proof fn lemma_rt_bytes(s: Seq<u8>, pos: int, b: Seq<u8>, rest: Seq<u8>)
    requires
        0 <= pos <= s.len(),
        b.len() < 0x1_0000_0000_0000_0000,
        s.skip(pos) == spec_enc_bytes(b) + rest,
    ensures
        spec_read_bytes(s, pos) == Some((b, pos + 8 + b.len())),
        s.skip(pos + 8 + b.len()) == rest,
{
    assert(spec_enc_bytes(b) == spec_enc_u64(b.len() as u64) + b);
    assert(s.skip(pos) =~= spec_enc_u64(b.len() as u64) + (b + rest));
    lemma_rt_u64(s, pos, b.len() as u64, b + rest);
    assert((b.len() as u64) as int == b.len());
    assert(s.skip(pos + 8) == b + rest);
    assert(s.skip(pos).len() == s.len() - pos);
    assert(pos + 8 + b.len() <= s.len());
    assert(s.subrange(pos + 8, pos + 8 + b.len()) =~= b) by {
        assert forall|k: int| 0 <= k < b.len() implies s[pos + 8 + k] == b[k] by {
            assert(s[pos + 8 + k] == s.skip(pos + 8)[k]);
        }
    }
    assert(s.skip(pos + 8 + b.len()) =~= rest) by {
        assert forall|k: int| 0 <= k < rest.len() implies s[pos + 8 + b.len() + k] == rest[k] by {
            assert(s[pos + 8 + b.len() + k] == s.skip(pos + 8)[b.len() + k]);
        }
    }
}

/// Front decomposition of the binding-list encoding.
proof fn lemma_enc_bindings_cons(bs: Seq<BehaviorBinding>)
    requires
        bs.len() > 0,
    ensures
        spec_enc_bindings(bs) == spec_enc_binding(bs[0]) + spec_enc_bindings(bs.skip(1)),
    decreases bs.len(),
{
    if bs.len() == 1 {
        assert(bs.drop_last() =~= Seq::<BehaviorBinding>::empty());
        assert(bs.skip(1) =~= Seq::<BehaviorBinding>::empty());
        assert(spec_enc_bindings(bs) =~= spec_enc_binding(bs[0]) + spec_enc_bindings(bs.skip(1)));
    } else {
        let dl = bs.drop_last();
        lemma_enc_bindings_cons(dl);
        assert(dl[0] == bs[0]);
        assert(bs.skip(1).drop_last() =~= dl.skip(1));
        assert(bs.skip(1).last() == bs.last());
        assert(spec_enc_bindings(bs.skip(1)) == spec_enc_bindings(dl.skip(1)) + spec_enc_binding(
            bs.last(),
        ));
        assert(spec_enc_bindings(bs) =~= spec_enc_binding(bs[0]) + spec_enc_bindings(bs.skip(1)));
    }
}

proof fn lemma_rt_binding(s: Seq<u8>, pos: int, b: BehaviorBinding, rest: Seq<u8>)
    requires
        0 <= pos <= s.len(),
        s.skip(pos) == spec_enc_binding(b) + rest,
    ensures
        spec_parse_binding(s, pos) == Some((b, pos + 12)),
        s.skip(pos + 12) == rest,
{
    let w = b.behavior_id as u32;
    assert(s.skip(pos) =~= spec_enc_u32(w) + (spec_enc_u32(b.param1) + (spec_enc_u32(b.param2)
        + rest)));
    lemma_rt_u32(s, pos, w, spec_enc_u32(b.param1) + (spec_enc_u32(b.param2) + rest));
    lemma_rt_u32(s, pos + 4, b.param1, spec_enc_u32(b.param2) + rest);
    lemma_rt_u32(s, pos + 8, b.param2, rest);
    let x = b.behavior_id;
    assert(((x as u32) as i32) == x) by (bit_vector);
}

proof fn lemma_rt_bindings(s: Seq<u8>, pos: int, bs: Seq<BehaviorBinding>, rest: Seq<u8>)
    requires
        0 <= pos <= s.len(),
        s.skip(pos) == spec_enc_bindings(bs) + rest,
    ensures
        ({
            let r = spec_parse_bindings(s, pos, bs.len() as int);
            &&& r is Some
            &&& r.unwrap().0 == bs
            &&& pos <= r.unwrap().1 <= s.len()
            &&& s.skip(r.unwrap().1) == rest
        }),
    decreases bs.len(),
{
    if bs.len() == 0 {
        assert(spec_enc_bindings(bs) =~= Seq::<u8>::empty());
        assert(s.skip(pos) =~= rest);
        assert(spec_parse_bindings(s, pos, 0) == Some((Seq::<BehaviorBinding>::empty(), pos)));
        assert(spec_parse_bindings(s, pos, 0).unwrap().0 =~= bs);
    } else {
        lemma_enc_bindings_cons(bs);
        assert(s.skip(pos) =~= spec_enc_binding(bs[0]) + (spec_enc_bindings(bs.skip(1)) + rest));
        lemma_rt_binding(s, pos, bs[0], spec_enc_bindings(bs.skip(1)) + rest);
        lemma_rt_bindings(s, pos + 12, bs.skip(1), rest);
        let r1 = spec_parse_bindings(s, pos + 12, bs.skip(1).len() as int);
        assert(seq![bs[0]] + r1.unwrap().0 =~= bs);
    }
}

proof fn lemma_rt_layer(s: Seq<u8>, pos: int, l: LayerView, rest: Seq<u8>)
    requires
        0 <= pos <= s.len(),
        l.name.len() < 0x1_0000_0000_0000_0000,
        l.bindings.len() < 0x1_0000_0000_0000_0000,
        s.skip(pos) == spec_enc_layer(l) + rest,
    ensures
        ({
            let r = spec_parse_layer(s, pos);
            &&& r is Some
            &&& r.unwrap().0 == l
            &&& pos <= r.unwrap().1 <= s.len()
            &&& s.skip(r.unwrap().1) == rest
        }),
{
    assert(s.skip(pos) =~= spec_enc_u32(l.id) + (spec_enc_bytes(l.name) + (spec_enc_u64(
        l.bindings.len() as u64,
    ) + (spec_enc_bindings(l.bindings) + rest))));
    lemma_rt_u32(
        s,
        pos,
        l.id,
        spec_enc_bytes(l.name) + (spec_enc_u64(l.bindings.len() as u64) + (spec_enc_bindings(
            l.bindings,
        ) + rest)),
    );
    lemma_rt_bytes(
        s,
        pos + 4,
        l.name,
        spec_enc_u64(l.bindings.len() as u64) + (spec_enc_bindings(l.bindings) + rest),
    );
    let p2 = pos + 4 + 8 + l.name.len();
    lemma_rt_u64(s, p2, l.bindings.len() as u64, spec_enc_bindings(l.bindings) + rest);
    lemma_rt_bindings(s, p2 + 8, l.bindings, rest);
    assert((l.bindings.len() as u64) as int == l.bindings.len());
    let r = spec_parse_layer(s, pos);
    assert(r.unwrap().0 =~= l);
}

/// Front decomposition of the layer-list encoding.
proof fn lemma_enc_layers_cons(ls: Seq<LayerView>)
    requires
        ls.len() > 0,
    ensures
        spec_enc_layers(ls) == spec_enc_layer(ls[0]) + spec_enc_layers(ls.skip(1)),
    decreases ls.len(),
{
    if ls.len() == 1 {
        assert(ls.drop_last() =~= Seq::<LayerView>::empty());
        assert(ls.skip(1) =~= Seq::<LayerView>::empty());
        assert(spec_enc_layers(ls) =~= spec_enc_layer(ls[0]) + spec_enc_layers(ls.skip(1)));
    } else {
        let dl = ls.drop_last();
        lemma_enc_layers_cons(dl);
        assert(dl[0] == ls[0]);
        assert(ls.skip(1).drop_last() =~= dl.skip(1));
        assert(ls.skip(1).last() == ls.last());
        assert(spec_enc_layers(ls.skip(1)) == spec_enc_layers(dl.skip(1)) + spec_enc_layer(
            ls.last(),
        ));
        assert(spec_enc_layers(ls) =~= spec_enc_layer(ls[0]) + spec_enc_layers(ls.skip(1)));
    }
}

/// Bounds under which a keymap encodes losslessly: every length fits the
/// 64-bit wire counters.
pub open spec fn keymap_bounded(k: KeymapView) -> bool {
    &&& k.layers.len() < 0x1_0000_0000_0000_0000
    &&& forall|i: int|
        0 <= i < k.layers.len() ==> (#[trigger] k.layers[i]).name.len() < 0x1_0000_0000_0000_0000
            && k.layers[i].bindings.len() < 0x1_0000_0000_0000_0000
}

proof fn lemma_rt_layers(s: Seq<u8>, pos: int, ls: Seq<LayerView>, rest: Seq<u8>)
    requires
        0 <= pos <= s.len(),
        forall|i: int|
            0 <= i < ls.len() ==> (#[trigger] ls[i]).name.len() < 0x1_0000_0000_0000_0000 && ls[
                i
            ].bindings.len() < 0x1_0000_0000_0000_0000,
        s.skip(pos) == spec_enc_layers(ls) + rest,
    ensures
        ({
            let r = spec_parse_layers(s, pos, ls.len() as int);
            &&& r is Some
            &&& r.unwrap().0 == ls
            &&& pos <= r.unwrap().1 <= s.len()
            &&& s.skip(r.unwrap().1) == rest
        }),
    decreases ls.len(),
{
    if ls.len() == 0 {
        assert(spec_enc_layers(ls) =~= Seq::<u8>::empty());
        assert(s.skip(pos) =~= rest);
        assert(spec_parse_layers(s, pos, 0) == Some((Seq::<LayerView>::empty(), pos)));
        assert(spec_parse_layers(s, pos, 0).unwrap().0 =~= ls);
    } else {
        lemma_enc_layers_cons(ls);
        assert(s.skip(pos) =~= spec_enc_layer(ls[0]) + (spec_enc_layers(ls.skip(1)) + rest));
        lemma_rt_layer(s, pos, ls[0], spec_enc_layers(ls.skip(1)) + rest);
        let p1 = spec_parse_layer(s, pos).unwrap().1;
        lemma_rt_layers(s, p1, ls.skip(1), rest);
        let r1 = spec_parse_layers(s, p1, ls.skip(1).len() as int);
        assert(seq![ls[0]] + r1.unwrap().0 =~= ls);
    }
}

proof fn lemma_rt_keymap(s: Seq<u8>, pos: int, k: KeymapView, rest: Seq<u8>)
    requires
        0 <= pos <= s.len(),
        keymap_bounded(k),
        s.skip(pos) == spec_enc_keymap(k) + rest,
    ensures
        ({
            let r = spec_parse_keymap(s, pos);
            &&& r is Some
            &&& r.unwrap().0 == k
            &&& pos <= r.unwrap().1 <= s.len()
            &&& s.skip(r.unwrap().1) == rest
        }),
{
    assert(s.skip(pos) =~= spec_enc_u64(k.layers.len() as u64) + (spec_enc_layers(k.layers)
        + rest));
    lemma_rt_u64(s, pos, k.layers.len() as u64, spec_enc_layers(k.layers) + rest);
    assert((k.layers.len() as u64) as int == k.layers.len());
    lemma_rt_layers(s, pos + 8, k.layers, rest);
    let r = spec_parse_keymap(s, pos);
    assert(r.unwrap().0 =~= k);
}

proof fn lemma_rt_device_info(s: Seq<u8>, pos: int, d: DeviceInfoView, rest: Seq<u8>)
    requires
        0 <= pos <= s.len(),
        d.name.len() < 0x1_0000_0000_0000_0000,
        d.serial_number.len() < 0x1_0000_0000_0000_0000,
        s.skip(pos) == spec_enc_device_info(d) + rest,
    ensures
        ({
            let r = spec_parse_device_info(s, pos);
            &&& r is Some
            &&& r.unwrap().0 == d
            &&& pos <= r.unwrap().1 <= s.len()
            &&& s.skip(r.unwrap().1) == rest
        }),
{
    assert(s.skip(pos) =~= spec_enc_bytes(d.name) + (spec_enc_bytes(d.serial_number) + rest));
    lemma_rt_bytes(s, pos, d.name, spec_enc_bytes(d.serial_number) + rest);
    lemma_rt_bytes(s, pos + 8 + d.name.len(), d.serial_number, rest);
    let r = spec_parse_device_info(s, pos);
    assert(r.unwrap().0 =~= d);
}

proof fn lemma_rt_details(s: Seq<u8>, pos: int, d: BehaviorDetailsView, rest: Seq<u8>)
    requires
        0 <= pos <= s.len(),
        d.display_name.len() < 0x1_0000_0000_0000_0000,
        s.skip(pos) == spec_enc_details(d) + rest,
    ensures
        ({
            let r = spec_parse_details(s, pos);
            &&& r is Some
            &&& r.unwrap().0 == d
            &&& pos <= r.unwrap().1 <= s.len()
            &&& s.skip(r.unwrap().1) == rest
        }),
{
    assert(s.skip(pos) =~= spec_enc_u32(d.behavior_id) + (spec_enc_bytes(d.display_name) + rest));
    lemma_rt_u32(s, pos, d.behavior_id, spec_enc_bytes(d.display_name) + rest);
    lemma_rt_bytes(s, pos + 4, d.display_name, rest);
    let r = spec_parse_details(s, pos);
    assert(r.unwrap().0 =~= d);
}

/// Front decomposition of the layout-list encoding.
proof fn lemma_enc_layouts_cons(ps: Seq<PhysicalLayoutView>)
    requires
        ps.len() > 0,
    ensures
        spec_enc_layouts(ps) == spec_enc_layout(ps[0]) + spec_enc_layouts(ps.skip(1)),
    decreases ps.len(),
{
    if ps.len() == 1 {
        assert(ps.drop_last() =~= Seq::<PhysicalLayoutView>::empty());
        assert(ps.skip(1) =~= Seq::<PhysicalLayoutView>::empty());
        assert(spec_enc_layouts(ps) =~= spec_enc_layout(ps[0]) + spec_enc_layouts(ps.skip(1)));
    } else {
        let dl = ps.drop_last();
        lemma_enc_layouts_cons(dl);
        assert(dl[0] == ps[0]);
        assert(ps.skip(1).drop_last() =~= dl.skip(1));
        assert(ps.skip(1).last() == ps.last());
        assert(spec_enc_layouts(ps.skip(1)) == spec_enc_layouts(dl.skip(1)) + spec_enc_layout(
            ps.last(),
        ));
        assert(spec_enc_layouts(ps) =~= spec_enc_layout(ps[0]) + spec_enc_layouts(ps.skip(1)));
    }
}

proof fn lemma_rt_layouts(s: Seq<u8>, pos: int, ps: Seq<PhysicalLayoutView>, rest: Seq<u8>)
    requires
        0 <= pos <= s.len(),
        forall|i: int|
            0 <= i < ps.len() ==> (#[trigger] ps[i]).name.len() < 0x1_0000_0000_0000_0000,
        s.skip(pos) == spec_enc_layouts(ps) + rest,
    ensures
        ({
            let r = spec_parse_layouts(s, pos, ps.len() as int);
            &&& r is Some
            &&& r.unwrap().0 == ps
            &&& pos <= r.unwrap().1 <= s.len()
            &&& s.skip(r.unwrap().1) == rest
        }),
    decreases ps.len(),
{
    if ps.len() == 0 {
        assert(spec_enc_layouts(ps) =~= Seq::<u8>::empty());
        assert(s.skip(pos) =~= rest);
        assert(spec_parse_layouts(s, pos, 0) == Some((Seq::<PhysicalLayoutView>::empty(), pos)));
        assert(spec_parse_layouts(s, pos, 0).unwrap().0 =~= ps);
    } else {
        lemma_enc_layouts_cons(ps);
        assert(s.skip(pos) =~= spec_enc_bytes(ps[0].name) + (spec_enc_layouts(ps.skip(1)) + rest));
        lemma_rt_bytes(s, pos, ps[0].name, spec_enc_layouts(ps.skip(1)) + rest);
        let p1 = pos + 8 + ps[0].name.len();
        lemma_rt_layouts(s, p1, ps.skip(1), rest);
        let r1 = spec_parse_layouts(s, p1, ps.skip(1).len() as int);
        assert((PhysicalLayoutView { name: ps[0].name }) == ps[0]);
        assert(seq![ps[0]] + r1.unwrap().0 =~= ps);
    }
}

/// Bounds under which a layouts message encodes losslessly.
pub open spec fn layouts_bounded(p: PhysicalLayoutsView) -> bool {
    &&& p.layouts.len() < 0x1_0000_0000_0000_0000
    &&& forall|i: int|
        0 <= i < p.layouts.len() ==> (#[trigger] p.layouts[i]).name.len()
            < 0x1_0000_0000_0000_0000
}

proof fn lemma_rt_layouts_msg(s: Seq<u8>, pos: int, p: PhysicalLayoutsView, rest: Seq<u8>)
    requires
        0 <= pos <= s.len(),
        layouts_bounded(p),
        s.skip(pos) == spec_enc_layouts_msg(p) + rest,
    ensures
        ({
            let r = spec_parse_layouts_msg(s, pos);
            &&& r is Some
            &&& r.unwrap().0 == p
            &&& pos <= r.unwrap().1 <= s.len()
            &&& s.skip(r.unwrap().1) == rest
        }),
{
    assert(s.skip(pos) =~= spec_enc_u32(p.active_layout_index) + (spec_enc_u64(
        p.layouts.len() as u64,
    ) + (spec_enc_layouts(p.layouts) + rest)));
    lemma_rt_u32(
        s,
        pos,
        p.active_layout_index,
        spec_enc_u64(p.layouts.len() as u64) + (spec_enc_layouts(p.layouts) + rest),
    );
    lemma_rt_u64(s, pos + 4, p.layouts.len() as u64, spec_enc_layouts(p.layouts) + rest);
    assert((p.layouts.len() as u64) as int == p.layouts.len());
    lemma_rt_layouts(s, pos + 12, p.layouts, rest);
    let r = spec_parse_layouts_msg(s, pos);
    assert(r.unwrap().0 =~= p);
}

/// Bounds under which an add-layer result encodes losslessly.
pub open spec fn layer_bounded(l: LayerView) -> bool {
    &&& l.name.len() < 0x1_0000_0000_0000_0000
    &&& l.bindings.len() < 0x1_0000_0000_0000_0000
}

proof fn lemma_rt_add_details(s: Seq<u8>, pos: int, a: AddLayerDetailsView, rest: Seq<u8>)
    requires
        0 <= pos <= s.len(),
        layer_bounded(a.layer),
        s.skip(pos) == spec_enc_add_details(a) + rest,
    ensures
        ({
            let r = spec_parse_add_details(s, pos);
            &&& r is Some
            &&& r.unwrap().0 == a
            &&& pos <= r.unwrap().1 <= s.len()
            &&& s.skip(r.unwrap().1) == rest
        }),
{
    assert(s.skip(pos) =~= spec_enc_u32(a.index) + (spec_enc_layer(a.layer) + rest));
    lemma_rt_u32(s, pos, a.index, spec_enc_layer(a.layer) + rest);
    lemma_rt_layer(s, pos + 4, a.layer, rest);
    let r = spec_parse_add_details(s, pos);
    assert(r.unwrap().0 =~= a);
}

/// Front decomposition of the id-list encoding.
proof fn lemma_enc_ids_cons(ids: Seq<u32>)
    requires
        ids.len() > 0,
    ensures
        spec_enc_ids(ids) == spec_enc_u32(ids[0]) + spec_enc_ids(ids.skip(1)),
    decreases ids.len(),
{
    if ids.len() == 1 {
        assert(ids.drop_last() =~= Seq::<u32>::empty());
        assert(ids.skip(1) =~= Seq::<u32>::empty());
        assert(spec_enc_ids(ids) =~= spec_enc_u32(ids[0]) + spec_enc_ids(ids.skip(1)));
    } else {
        let dl = ids.drop_last();
        lemma_enc_ids_cons(dl);
        assert(dl[0] == ids[0]);
        assert(ids.skip(1).drop_last() =~= dl.skip(1));
        assert(ids.skip(1).last() == ids.last());
        assert(spec_enc_ids(ids.skip(1)) == spec_enc_ids(dl.skip(1)) + spec_enc_u32(ids.last()));
        assert(spec_enc_ids(ids) =~= spec_enc_u32(ids[0]) + spec_enc_ids(ids.skip(1)));
    }
}

proof fn lemma_rt_ids(s: Seq<u8>, pos: int, ids: Seq<u32>, rest: Seq<u8>)
    requires
        0 <= pos <= s.len(),
        s.skip(pos) == spec_enc_ids(ids) + rest,
    ensures
        ({
            let r = spec_parse_ids(s, pos, ids.len() as int);
            &&& r is Some
            &&& r.unwrap().0 == ids
            &&& pos <= r.unwrap().1 <= s.len()
            &&& s.skip(r.unwrap().1) == rest
        }),
    decreases ids.len(),
{
    if ids.len() == 0 {
        assert(spec_enc_ids(ids) =~= Seq::<u8>::empty());
        assert(s.skip(pos) =~= rest);
        assert(spec_parse_ids(s, pos, 0) == Some((Seq::<u32>::empty(), pos)));
        assert(spec_parse_ids(s, pos, 0).unwrap().0 =~= ids);
    } else {
        lemma_enc_ids_cons(ids);
        assert(s.skip(pos) =~= spec_enc_u32(ids[0]) + (spec_enc_ids(ids.skip(1)) + rest));
        lemma_rt_u32(s, pos, ids[0], spec_enc_ids(ids.skip(1)) + rest);
        lemma_rt_ids(s, pos + 4, ids.skip(1), rest);
        let r1 = spec_parse_ids(s, pos + 4, ids.skip(1).len() as int);
        assert(seq![ids[0]] + r1.unwrap().0 =~= ids);
    }
}

/// Bounds under which a request envelope encodes losslessly: its one
/// variable-length field fits the wire counter.
pub open spec fn request_bounded(r: RequestView) -> bool {
    match r.subsystem {
        SubsystemRequestView::Keymap(KeymapRequestView::SetLayerProps { layer_id, name }) => {
            name.len() < 0x1_0000_0000_0000_0000
        },
        _ => true,
    }
}

#[verifier::rlimit(100)]
#[verifier::spinoff_prover]
proof fn lemma_rt_subsystem_request(s: Seq<u8>, pos: int, q: SubsystemRequestView, rest: Seq<u8>)
    requires
        0 <= pos <= s.len(),
        request_bounded(RequestView { request_id: 0, subsystem: q }),
        s.skip(pos) == spec_enc_subsystem_request(q) + rest,
    ensures
        ({
            let r = spec_parse_subsystem_request(s, pos);
            &&& r is Some
            &&& r.unwrap().0 == q
            &&& pos <= r.unwrap().1 <= s.len()
            &&& s.skip(r.unwrap().1) == rest
        }),
{
    match q {
        SubsystemRequestView::Core(c) => {
            assert(s.skip(pos) =~= seq![1u8] + (spec_enc_core_request(c) + rest));
            lemma_rt_u8(s, pos, 1, spec_enc_core_request(c) + rest);
            match c {
                CoreRequest::GetDeviceInfo => {
                    assert(s.skip(pos + 1) =~= seq![1u8] + rest);
                    lemma_rt_u8(s, pos + 1, 1, rest);
                },
                CoreRequest::GetLockState => {
                    assert(s.skip(pos + 1) =~= seq![2u8] + rest);
                    lemma_rt_u8(s, pos + 1, 2, rest);
                },
                CoreRequest::ResetSettings => {
                    assert(s.skip(pos + 1) =~= seq![3u8] + rest);
                    lemma_rt_u8(s, pos + 1, 3, rest);
                },
            }
        },
        SubsystemRequestView::Behaviors(b) => {
            assert(s.skip(pos) =~= seq![2u8] + (spec_enc_behaviors_request(b) + rest));
            lemma_rt_u8(s, pos, 2, spec_enc_behaviors_request(b) + rest);
            match b {
                BehaviorsRequest::ListAllBehaviors => {
                    assert(s.skip(pos + 1) =~= seq![1u8] + rest);
                    lemma_rt_u8(s, pos + 1, 1, rest);
                },
                BehaviorsRequest::GetBehaviorDetails { behavior_id } => {
                    assert(s.skip(pos + 1) =~= seq![2u8] + (spec_enc_u32(behavior_id) + rest));
                    lemma_rt_u8(s, pos + 1, 2, spec_enc_u32(behavior_id) + rest);
                    lemma_rt_u32(s, pos + 2, behavior_id, rest);
                },
            }
        },
        SubsystemRequestView::Keymap(k) => {
            assert(s.skip(pos) =~= seq![3u8] + (spec_enc_keymap_request(k) + rest));
            lemma_rt_u8(s, pos, 3, spec_enc_keymap_request(k) + rest);
            let p = pos + 1;
            match k {
                KeymapRequestView::GetKeymap => {
                    assert(s.skip(p) =~= seq![1u8] + rest);
                    lemma_rt_u8(s, p, 1, rest);
                },
                KeymapRequestView::GetPhysicalLayouts => {
                    assert(s.skip(p) =~= seq![2u8] + rest);
                    lemma_rt_u8(s, p, 2, rest);
                },
                KeymapRequestView::SetLayerBinding { layer_id, key_position, binding } => {
                    assert(s.skip(p) =~= seq![3u8] + (spec_enc_u32(layer_id) + (spec_enc_u32(
                        key_position as u32,
                    ) + (spec_enc_binding(binding) + rest))));
                    lemma_rt_u8(
                        s,
                        p,
                        3,
                        spec_enc_u32(layer_id) + (spec_enc_u32(key_position as u32) + (
                        spec_enc_binding(binding) + rest)),
                    );
                    lemma_rt_u32(
                        s,
                        p + 1,
                        layer_id,
                        spec_enc_u32(key_position as u32) + (spec_enc_binding(binding) + rest),
                    );
                    lemma_rt_u32(s, p + 5, key_position as u32, spec_enc_binding(binding) + rest);
                    lemma_rt_binding(s, p + 9, binding, rest);
                    let kp = key_position;
                    assert(((kp as u32) as i32) == kp) by (bit_vector);
                },
                KeymapRequestView::CheckUnsavedChanges => {
                    assert(s.skip(p) =~= seq![4u8] + rest);
                    lemma_rt_u8(s, p, 4, rest);
                },
                KeymapRequestView::SaveChanges => {
                    assert(s.skip(p) =~= seq![5u8] + rest);
                    lemma_rt_u8(s, p, 5, rest);
                },
                KeymapRequestView::DiscardChanges => {
                    assert(s.skip(p) =~= seq![6u8] + rest);
                    lemma_rt_u8(s, p, 6, rest);
                },
                KeymapRequestView::SetActivePhysicalLayout { index } => {
                    assert(s.skip(p) =~= seq![7u8] + (spec_enc_u32(index) + rest));
                    lemma_rt_u8(s, p, 7, spec_enc_u32(index) + rest);
                    lemma_rt_u32(s, p + 1, index, rest);
                },
                KeymapRequestView::MoveLayer { start_index, dest_index } => {
                    assert(s.skip(p) =~= seq![8u8] + (spec_enc_u32(start_index) + (spec_enc_u32(
                        dest_index,
                    ) + rest)));
                    lemma_rt_u8(
                        s,
                        p,
                        8,
                        spec_enc_u32(start_index) + (spec_enc_u32(dest_index) + rest),
                    );
                    lemma_rt_u32(s, p + 1, start_index, spec_enc_u32(dest_index) + rest);
                    lemma_rt_u32(s, p + 5, dest_index, rest);
                },
                KeymapRequestView::AddLayer => {
                    assert(s.skip(p) =~= seq![9u8] + rest);
                    lemma_rt_u8(s, p, 9, rest);
                },
                KeymapRequestView::RemoveLayer { layer_index } => {
                    assert(s.skip(p) =~= seq![10u8] + (spec_enc_u32(layer_index) + rest));
                    lemma_rt_u8(s, p, 10, spec_enc_u32(layer_index) + rest);
                    lemma_rt_u32(s, p + 1, layer_index, rest);
                },
                KeymapRequestView::RestoreLayer { layer_id, at_index } => {
                    assert(s.skip(p) =~= seq![11u8] + (spec_enc_u32(layer_id) + (spec_enc_u32(
                        at_index,
                    ) + rest)));
                    lemma_rt_u8(s, p, 11, spec_enc_u32(layer_id) + (spec_enc_u32(at_index) + rest));
                    lemma_rt_u32(s, p + 1, layer_id, spec_enc_u32(at_index) + rest);
                    lemma_rt_u32(s, p + 5, at_index, rest);
                },
                KeymapRequestView::SetLayerProps { layer_id, name } => {
                    assert(s.skip(p) =~= seq![12u8] + (spec_enc_u32(layer_id) + (spec_enc_bytes(
                        name,
                    ) + rest)));
                    lemma_rt_u8(s, p, 12, spec_enc_u32(layer_id) + (spec_enc_bytes(name) + rest));
                    lemma_rt_u32(s, p + 1, layer_id, spec_enc_bytes(name) + rest);
                    lemma_rt_bytes(s, p + 5, name, rest);
                },
            }
        },
    }
}

/// Envelope round-trip law, request side: parsing the payload bytes of any
/// bounded request envelope yields that envelope back.
pub proof fn lemma_request_round_trip(r: RequestView)
    requires
        request_bounded(r),
    ensures
        spec_parse_request(spec_enc_request(r)) == Some(r),
{
    let s = spec_enc_request(r);
    assert(s.skip(0) =~= spec_enc_u32(r.request_id) + (spec_enc_subsystem_request(r.subsystem)
        + Seq::<u8>::empty()));
    lemma_rt_u32(s, 0, r.request_id, spec_enc_subsystem_request(r.subsystem) + Seq::<u8>::empty());
    lemma_rt_subsystem_request(s, 4, r.subsystem, Seq::<u8>::empty());
    let end = spec_parse_subsystem_request(s, 4).unwrap().1;
    assert(s.skip(end).len() == 0);
    assert(end == s.len());
    assert((RequestView { request_id: r.request_id, subsystem: r.subsystem }) == r);
}

proof fn lemma_rt_meta(s: Seq<u8>, pos: int, m: MetaResult, rest: Seq<u8>)
    requires
        0 <= pos <= s.len(),
        s.skip(pos) == spec_enc_meta(m) + rest,
    ensures
        ({
            let r = spec_parse_meta(s, pos);
            &&& r is Some
            &&& r.unwrap().0 == m
            &&& pos <= r.unwrap().1 <= s.len()
            &&& s.skip(r.unwrap().1) == rest
        }),
{
    match m {
        MetaResult::NoResponse => {
            assert(s.skip(pos) =~= seq![1u8] + rest);
            lemma_rt_u8(s, pos, 1, rest);
        },
        MetaResult::SimpleError { code } => {
            assert(s.skip(pos) =~= seq![2u8] + (spec_enc_u32(code) + rest));
            lemma_rt_u8(s, pos, 2, spec_enc_u32(code) + rest);
            lemma_rt_u32(s, pos + 1, code, rest);
        },
    }
}

proof fn lemma_rt_ack(s: Seq<u8>, pos: int, a: AckResult, rest: Seq<u8>)
    requires
        0 <= pos <= s.len(),
        s.skip(pos) == spec_enc_ack(a) + rest,
    ensures
        ({
            let r = spec_parse_ack(s, pos);
            &&& r is Some
            &&& r.unwrap().0 == a
            &&& pos <= r.unwrap().1 <= s.len()
            &&& s.skip(r.unwrap().1) == rest
        }),
{
    match a {
        AckResult::Accepted => {
            assert(s.skip(pos) =~= seq![1u8] + rest);
            lemma_rt_u8(s, pos, 1, rest);
        },
        AckResult::Rejected { code } => {
            assert(s.skip(pos) =~= seq![2u8] + (spec_enc_u32(code) + rest));
            lemma_rt_u8(s, pos, 2, spec_enc_u32(code) + rest);
            lemma_rt_u32(s, pos + 1, code, rest);
        },
    }
}

proof fn lemma_rt_keymap_op(s: Seq<u8>, pos: int, o: OpResult<KeymapView>, rest: Seq<u8>)
    requires
        0 <= pos <= s.len(),
        (o matches OpResult::Accepted(k) ==> keymap_bounded(k)),
        s.skip(pos) == spec_enc_keymap_op(o) + rest,
    ensures
        ({
            let r = spec_parse_keymap_op(s, pos);
            &&& r is Some
            &&& r.unwrap().0 == o
            &&& pos <= r.unwrap().1 <= s.len()
            &&& s.skip(r.unwrap().1) == rest
        }),
{
    match o {
        OpResult::Accepted(k) => {
            assert(s.skip(pos) =~= seq![1u8] + (spec_enc_keymap(k) + rest));
            lemma_rt_u8(s, pos, 1, spec_enc_keymap(k) + rest);
            lemma_rt_keymap(s, pos + 1, k, rest);
        },
        OpResult::Rejected { code } => {
            assert(s.skip(pos) =~= seq![2u8] + (spec_enc_u32(code) + rest));
            lemma_rt_u8(s, pos, 2, spec_enc_u32(code) + rest);
            lemma_rt_u32(s, pos + 1, code, rest);
        },
    }
}

/// Bounds under which a subsystem result encodes losslessly: every
/// variable-length field fits the 64-bit wire counters.
pub open spec fn result_bounded(v: SubsystemResultView) -> bool {
    match v {
        SubsystemResultView::Meta(_) => true,
        SubsystemResultView::Core(c) => match c {
            CoreResultView::DeviceInfo(d) => d.name.len() < 0x1_0000_0000_0000_0000
                && d.serial_number.len() < 0x1_0000_0000_0000_0000,
            _ => true,
        },
        SubsystemResultView::Behaviors(b) => match b {
            BehaviorsResultView::ListAllBehaviors { behaviors } => behaviors.len()
                < 0x1_0000_0000_0000_0000,
            BehaviorsResultView::GetBehaviorDetails(d) => d.display_name.len()
                < 0x1_0000_0000_0000_0000,
        },
        SubsystemResultView::Keymap(k) => match k {
            KeymapResultView::GetKeymap(m) => keymap_bounded(m),
            KeymapResultView::GetPhysicalLayouts(p) => layouts_bounded(p),
            KeymapResultView::SetActivePhysicalLayout(o) => (o matches OpResult::Accepted(m)
                ==> keymap_bounded(m)),
            KeymapResultView::MoveLayer(o) => (o matches OpResult::Accepted(m) ==> keymap_bounded(
                m,
            )),
            KeymapResultView::AddLayer(o) => (o matches OpResult::Accepted(d) ==> layer_bounded(
                d.layer,
            )),
            KeymapResultView::RestoreLayer(o) => (o matches OpResult::Accepted(l)
                ==> layer_bounded(l)),
            _ => true,
        },
    }
}

#[verifier::rlimit(100)]
#[verifier::spinoff_prover]
proof fn lemma_rt_subsystem_result(s: Seq<u8>, pos: int, v: SubsystemResultView, rest: Seq<u8>)
    requires
        0 <= pos <= s.len(),
        result_bounded(v),
        s.skip(pos) == spec_enc_subsystem_result(v) + rest,
    ensures
        ({
            let r = spec_parse_subsystem_result(s, pos);
            &&& r is Some
            &&& r.unwrap().0 == v
            &&& pos <= r.unwrap().1 <= s.len()
            &&& s.skip(r.unwrap().1) == rest
        }),
{
    match v {
        SubsystemResultView::Meta(m) => {
            assert(s.skip(pos) =~= seq![1u8] + (spec_enc_meta(m) + rest));
            lemma_rt_u8(s, pos, 1, spec_enc_meta(m) + rest);
            lemma_rt_meta(s, pos + 1, m, rest);
        },
        SubsystemResultView::Core(c) => {
            assert(s.skip(pos) =~= seq![2u8] + (spec_enc_core_result(c) + rest));
            lemma_rt_u8(s, pos, 2, spec_enc_core_result(c) + rest);
            let p = pos + 1;
            match c {
                CoreResultView::DeviceInfo(d) => {
                    assert(s.skip(p) =~= seq![1u8] + (spec_enc_device_info(d) + rest));
                    lemma_rt_u8(s, p, 1, spec_enc_device_info(d) + rest);
                    lemma_rt_device_info(s, p + 1, d, rest);
                },
                CoreResultView::LockState { raw } => {
                    assert(s.skip(p) =~= seq![2u8] + (spec_enc_u32(raw) + rest));
                    lemma_rt_u8(s, p, 2, spec_enc_u32(raw) + rest);
                    lemma_rt_u32(s, p + 1, raw, rest);
                },
                CoreResultView::ResetSettings { ok } => {
                    assert(s.skip(p) =~= seq![3u8] + (spec_enc_bool(ok) + rest));
                    lemma_rt_u8(s, p, 3, spec_enc_bool(ok) + rest);
                    lemma_rt_bool(s, p + 1, ok, rest);
                },
            }
        },
        SubsystemResultView::Behaviors(b) => {
            assert(s.skip(pos) =~= seq![3u8] + (spec_enc_behaviors_result(b) + rest));
            lemma_rt_u8(s, pos, 3, spec_enc_behaviors_result(b) + rest);
            let p = pos + 1;
            match b {
                BehaviorsResultView::ListAllBehaviors { behaviors } => {
                    assert(s.skip(p) =~= seq![1u8] + (spec_enc_u64(behaviors.len() as u64) + (
                    spec_enc_ids(behaviors) + rest)));
                    lemma_rt_u8(
                        s,
                        p,
                        1,
                        spec_enc_u64(behaviors.len() as u64) + (spec_enc_ids(behaviors) + rest),
                    );
                    lemma_rt_u64(s, p + 1, behaviors.len() as u64, spec_enc_ids(behaviors) + rest);
                    assert((behaviors.len() as u64) as int == behaviors.len());
                    lemma_rt_ids(s, p + 9, behaviors, rest);
                },
                BehaviorsResultView::GetBehaviorDetails(d) => {
                    assert(s.skip(p) =~= seq![2u8] + (spec_enc_details(d) + rest));
                    lemma_rt_u8(s, p, 2, spec_enc_details(d) + rest);
                    lemma_rt_details(s, p + 1, d, rest);
                },
            }
        },
        SubsystemResultView::Keymap(k) => {
            assert(s.skip(pos) =~= seq![4u8] + (spec_enc_keymap_result(k) + rest));
            lemma_rt_u8(s, pos, 4, spec_enc_keymap_result(k) + rest);
            lemma_rt_keymap_result(s, pos + 1, k, rest);
        },
    }
}


proof fn lemma_rt_add_op(s: Seq<u8>, pos: int, o: OpResult<AddLayerDetailsView>, rest: Seq<u8>)
    requires
        0 <= pos <= s.len(),
        (o matches OpResult::Accepted(d) ==> layer_bounded(d.layer)),
        s.skip(pos) == (match o {
            OpResult::Accepted(d) => seq![1u8] + spec_enc_add_details(d),
            OpResult::Rejected { code } => seq![2u8] + spec_enc_u32(code),
        }) + rest,
    ensures
        ({
            let t = spec_read_u8(s, pos);
            &&& t is Some
            &&& match o {
                OpResult::Accepted(d) => t.unwrap().0 == 1 && {
                    let r = spec_parse_add_details(s, t.unwrap().1);
                    &&& r is Some
                    &&& r.unwrap().0 == d
                    &&& pos <= r.unwrap().1 <= s.len()
                    &&& s.skip(r.unwrap().1) == rest
                },
                OpResult::Rejected { code } => t.unwrap().0 == 2 && {
                    let r = spec_read_u32(s, t.unwrap().1);
                    &&& r is Some
                    &&& r.unwrap().0 == code
                    &&& pos <= r.unwrap().1 <= s.len()
                    &&& s.skip(r.unwrap().1) == rest
                },
            }
        }),
{
    match o {
        OpResult::Accepted(d) => {
            assert(s.skip(pos) =~= seq![1u8] + (spec_enc_add_details(d) + rest));
            lemma_rt_u8(s, pos, 1, spec_enc_add_details(d) + rest);
            lemma_rt_add_details(s, pos + 1, d, rest);
        },
        OpResult::Rejected { code } => {
            assert(s.skip(pos) =~= seq![2u8] + (spec_enc_u32(code) + rest));
            lemma_rt_u8(s, pos, 2, spec_enc_u32(code) + rest);
            lemma_rt_u32(s, pos + 1, code, rest);
        },
    }
}

proof fn lemma_rt_restore_op(s: Seq<u8>, pos: int, o: OpResult<LayerView>, rest: Seq<u8>)
    requires
        0 <= pos <= s.len(),
        (o matches OpResult::Accepted(l) ==> layer_bounded(l)),
        s.skip(pos) == (match o {
            OpResult::Accepted(l) => seq![1u8] + spec_enc_layer(l),
            OpResult::Rejected { code } => seq![2u8] + spec_enc_u32(code),
        }) + rest,
    ensures
        ({
            let t = spec_read_u8(s, pos);
            &&& t is Some
            &&& match o {
                OpResult::Accepted(l) => t.unwrap().0 == 1 && {
                    let r = spec_parse_layer(s, t.unwrap().1);
                    &&& r is Some
                    &&& r.unwrap().0 == l
                    &&& pos <= r.unwrap().1 <= s.len()
                    &&& s.skip(r.unwrap().1) == rest
                },
                OpResult::Rejected { code } => t.unwrap().0 == 2 && {
                    let r = spec_read_u32(s, t.unwrap().1);
                    &&& r is Some
                    &&& r.unwrap().0 == code
                    &&& pos <= r.unwrap().1 <= s.len()
                    &&& s.skip(r.unwrap().1) == rest
                },
            }
        }),
{
    match o {
        OpResult::Accepted(l) => {
            assert(s.skip(pos) =~= seq![1u8] + (spec_enc_layer(l) + rest));
            lemma_rt_u8(s, pos, 1, spec_enc_layer(l) + rest);
            lemma_rt_layer(s, pos + 1, l, rest);
        },
        OpResult::Rejected { code } => {
            assert(s.skip(pos) =~= seq![2u8] + (spec_enc_u32(code) + rest));
            lemma_rt_u8(s, pos, 2, spec_enc_u32(code) + rest);
            lemma_rt_u32(s, pos + 1, code, rest);
        },
    }
}

#[verifier::rlimit(100)]
#[verifier::spinoff_prover]
proof fn lemma_rt_keymap_result_a(s: Seq<u8>, pos: int, k: KeymapResultView, rest: Seq<u8>)
    requires
        0 <= pos <= s.len(),
        (k is GetKeymap || k is GetPhysicalLayouts || k is SetLayerBinding
            || k is CheckUnsavedChanges || k is SaveChanges || k is DiscardChanges),
        result_bounded(SubsystemResultView::Keymap(k)),
        s.skip(pos) == spec_enc_keymap_result(k) + rest,
    ensures
        ({
            let r = spec_parse_keymap_result(s, pos);
            &&& r is Some
            &&& r.unwrap().0 == k
            &&& pos <= r.unwrap().1 <= s.len()
            &&& s.skip(r.unwrap().1) == rest
        }),
{
    let p = pos;
    match k {
        KeymapResultView::GetKeymap(m) => {
            assert(s.skip(p) =~= seq![1u8] + (spec_enc_keymap(m) + rest));
            lemma_rt_u8(s, p, 1, spec_enc_keymap(m) + rest);
            lemma_rt_keymap(s, p + 1, m, rest);
        },
        KeymapResultView::GetPhysicalLayouts(pl) => {
            assert(s.skip(p) =~= seq![2u8] + (spec_enc_layouts_msg(pl) + rest));
            lemma_rt_u8(s, p, 2, spec_enc_layouts_msg(pl) + rest);
            lemma_rt_layouts_msg(s, p + 1, pl, rest);
        },
        KeymapResultView::SetLayerBinding { code } => {
            assert(s.skip(p) =~= seq![3u8] + (spec_enc_u32(code) + rest));
            lemma_rt_u8(s, p, 3, spec_enc_u32(code) + rest);
            lemma_rt_u32(s, p + 1, code, rest);
        },
        KeymapResultView::CheckUnsavedChanges { unsaved } => {
            assert(s.skip(p) =~= seq![4u8] + (spec_enc_bool(unsaved) + rest));
            lemma_rt_u8(s, p, 4, spec_enc_bool(unsaved) + rest);
            lemma_rt_bool(s, p + 1, unsaved, rest);
        },
        KeymapResultView::SaveChanges(a) => {
            assert(s.skip(p) =~= seq![5u8] + (spec_enc_ack(a) + rest));
            lemma_rt_u8(s, p, 5, spec_enc_ack(a) + rest);
            lemma_rt_ack(s, p + 1, a, rest);
        },
        KeymapResultView::DiscardChanges { discarded } => {
            assert(s.skip(p) =~= seq![6u8] + (spec_enc_bool(discarded) + rest));
            lemma_rt_u8(s, p, 6, spec_enc_bool(discarded) + rest);
            lemma_rt_bool(s, p + 1, discarded, rest);
        },
        // Every other variant is ruled out by the precondition.
        _ => {
            assert(false);
        },
    }
}

#[verifier::rlimit(100)]
#[verifier::spinoff_prover]
proof fn lemma_rt_keymap_result_b(s: Seq<u8>, pos: int, k: KeymapResultView, rest: Seq<u8>)
    requires
        0 <= pos <= s.len(),
        !(k is GetKeymap || k is GetPhysicalLayouts || k is SetLayerBinding
            || k is CheckUnsavedChanges || k is SaveChanges || k is DiscardChanges),
        result_bounded(SubsystemResultView::Keymap(k)),
        s.skip(pos) == spec_enc_keymap_result(k) + rest,
    ensures
        ({
            let r = spec_parse_keymap_result(s, pos);
            &&& r is Some
            &&& r.unwrap().0 == k
            &&& pos <= r.unwrap().1 <= s.len()
            &&& s.skip(r.unwrap().1) == rest
        }),
{
    let p = pos;
    match k {
        KeymapResultView::SetActivePhysicalLayout(o) => {
            assert(s.skip(p) =~= seq![7u8] + (spec_enc_keymap_op(o) + rest));
            lemma_rt_u8(s, p, 7, spec_enc_keymap_op(o) + rest);
            lemma_rt_keymap_op(s, p + 1, o, rest);
        },
        KeymapResultView::MoveLayer(o) => {
            assert(s.skip(p) =~= seq![8u8] + (spec_enc_keymap_op(o) + rest));
            lemma_rt_u8(s, p, 8, spec_enc_keymap_op(o) + rest);
            lemma_rt_keymap_op(s, p + 1, o, rest);
        },
        KeymapResultView::AddLayer(o) => {
            let body = match o {
                OpResult::Accepted(d) => seq![1u8] + spec_enc_add_details(d),
                OpResult::Rejected { code } => seq![2u8] + spec_enc_u32(code),
            };
            assert(s.skip(p) =~= seq![9u8] + (body + rest));
            lemma_rt_u8(s, p, 9, body + rest);
            lemma_rt_add_op(s, p + 1, o, rest);
        },
        KeymapResultView::RemoveLayer(a) => {
            assert(s.skip(p) =~= seq![10u8] + (spec_enc_ack(a) + rest));
            lemma_rt_u8(s, p, 10, spec_enc_ack(a) + rest);
            lemma_rt_ack(s, p + 1, a, rest);
        },
        KeymapResultView::RestoreLayer(o) => {
            let body = match o {
                OpResult::Accepted(l) => seq![1u8] + spec_enc_layer(l),
                OpResult::Rejected { code } => seq![2u8] + spec_enc_u32(code),
            };
            assert(s.skip(p) =~= seq![11u8] + (body + rest));
            lemma_rt_u8(s, p, 11, body + rest);
            lemma_rt_restore_op(s, p + 1, o, rest);
        },
        KeymapResultView::SetLayerProps { code } => {
            assert(s.skip(p) =~= seq![12u8] + (spec_enc_u32(code) + rest));
            lemma_rt_u8(s, p, 12, spec_enc_u32(code) + rest);
            lemma_rt_u32(s, p + 1, code, rest);
        },
        // Every other variant is ruled out by the precondition.
        _ => {
            assert(false);
        },
    }
}

proof fn lemma_rt_keymap_result(s: Seq<u8>, pos: int, k: KeymapResultView, rest: Seq<u8>)
    requires
        0 <= pos <= s.len(),
        result_bounded(SubsystemResultView::Keymap(k)),
        s.skip(pos) == spec_enc_keymap_result(k) + rest,
    ensures
        ({
            let r = spec_parse_keymap_result(s, pos);
            &&& r is Some
            &&& r.unwrap().0 == k
            &&& pos <= r.unwrap().1 <= s.len()
            &&& s.skip(r.unwrap().1) == rest
        }),
{
    if k is GetKeymap || k is GetPhysicalLayouts || k is SetLayerBinding
        || k is CheckUnsavedChanges || k is SaveChanges || k is DiscardChanges {
        lemma_rt_keymap_result_a(s, pos, k, rest);
    } else {
        lemma_rt_keymap_result_b(s, pos, k, rest);
    }
}


/// Bounds under which a response envelope encodes losslessly.
pub open spec fn response_bounded(r: ResponseView) -> bool {
    match r {
        ResponseView::RequestResponse(rr) => result_bounded(rr.result),
        ResponseView::Notification(payload) => payload.len() < 0x1_0000_0000_0000_0000,
    }
}

/// Envelope round-trip law, response side: parsing the payload bytes of
/// any bounded response envelope yields that envelope back.
pub proof fn lemma_response_round_trip(r: ResponseView)
    requires
        response_bounded(r),
    ensures
        spec_parse_response(spec_enc_response(r)) == Some(r),
{
    let s = spec_enc_response(r);
    match r {
        ResponseView::RequestResponse(rr) => {
            assert(s.skip(0) =~= seq![1u8] + (spec_enc_u32(rr.request_id) + (
            spec_enc_subsystem_result(rr.result) + Seq::<u8>::empty())));
            lemma_rt_u8(
                s,
                0,
                1,
                spec_enc_u32(rr.request_id) + (spec_enc_subsystem_result(rr.result)
                    + Seq::<u8>::empty()),
            );
            lemma_rt_u32(
                s,
                1,
                rr.request_id,
                spec_enc_subsystem_result(rr.result) + Seq::<u8>::empty(),
            );
            lemma_rt_subsystem_result(s, 5, rr.result, Seq::<u8>::empty());
            let end = spec_parse_subsystem_result(s, 5).unwrap().1;
            assert(s.skip(end).len() == 0);
            assert(end == s.len());
            assert((RequestResponseView { request_id: rr.request_id, result: rr.result }) == rr);
        },
        ResponseView::Notification(payload) => {
            assert(s.skip(0) =~= seq![2u8] + (spec_enc_bytes(payload) + Seq::<u8>::empty()));
            lemma_rt_u8(s, 0, 2, spec_enc_bytes(payload) + Seq::<u8>::empty());
            lemma_rt_bytes(s, 1, payload, Seq::<u8>::empty());
            assert(1 + 8 + payload.len() == s.len());
        },
    }
}

/// The frame-encoded wire bytes of one request envelope.
pub fn encode_request(request: &Request) -> (r: Vec<u8>)
    ensures
        r@ == encode_frame_spec(spec_enc_request(request@)),
{
    let mut payload: Vec<u8> = Vec::new();
    write_u32(&mut payload, request.request_id);
    write_subsystem_request(&mut payload, &request.subsystem);
    proof {
        assert(payload@ =~= spec_enc_request(request@));
    }
    encode_frame(payload.as_slice())
}

/// The frame-encoded wire bytes of one response envelope.
pub fn encode_response(response: &Response) -> (r: Vec<u8>)
    ensures
        r@ == encode_frame_spec(spec_enc_response(response@)),
{
    let mut payload: Vec<u8> = Vec::new();
    match response {
        Response::RequestResponse(rr) => {
            write_u8(&mut payload, 1);
            write_u32(&mut payload, rr.request_id);
            write_subsystem_result(&mut payload, &rr.result);
        },
        Response::Notification(n) => {
            write_u8(&mut payload, 2);
            write_bytes(&mut payload, &n.payload);
        },
    }
    proof {
        assert(payload@ =~= spec_enc_response(response@));
    }
    encode_frame(payload.as_slice())
}

// ---------------------------------------------------------------------------
// Executable parsers.
// ---------------------------------------------------------------------------

fn parse_binding(s: &[u8], pos: usize) -> (r: Option<(BehaviorBinding, usize)>)
    ensures
        ({
            match r {
                Some((v, p)) => spec_parse_binding(s@, pos as int) == Some((v, p as int)),
                None => spec_parse_binding(s@, pos as int) is None,
            }
        }),
{
    match read_u32(s, pos) {
        Some((bid, p1)) => match read_u32(s, p1) {
            Some((param1, p2)) => match read_u32(s, p2) {
                Some((param2, p3)) => Some(
                    (BehaviorBinding { behavior_id: bid as i32, param1, param2 }, p3),
                ),
                None => None,
            },
            None => None,
        },
        None => None,
    }
}

fn parse_bindings(s: &[u8], pos: usize, n: u64) -> (r: Option<(Vec<BehaviorBinding>, usize)>)
    ensures
        ({
            match r {
                Some((v, p)) => spec_parse_bindings(s@, pos as int, n as int) == Some(
                    (v@, p as int),
                ),
                None => spec_parse_bindings(s@, pos as int, n as int) is None,
            }
        }),
{
    let mut acc: Vec<BehaviorBinding> = Vec::new();
    let mut cur: usize = pos;
    let mut k: u64 = 0;
    while k < n
        invariant
            k <= n,
            ({
                let whole = spec_parse_bindings(s@, pos as int, n as int);
                match spec_parse_bindings(s@, cur as int, n - k) {
                    Some((items, end)) => whole == Some((acc@ + items, end)),
                    None => whole is None,
                }
            }),
        decreases n - k,
    {
        match parse_binding(s, cur) {
            Some((b, p)) => {
                proof {
                    let ghost pre = acc@;
                    assert(pre.push(b) =~= pre + seq![b]);
                    match spec_parse_bindings(s@, p as int, n - k - 1) {
                        Some((items2, end2)) => {
                            assert((pre + seq![b]) + items2 =~= pre + (seq![b] + items2));
                        },
                        None => {},
                    }
                }
                acc.push(b);
                cur = p;
                k = k + 1;
            },
            None => {
                return None;
            },
        }
    }
    proof {
        assert(acc@ + Seq::<BehaviorBinding>::empty() =~= acc@);
    }
    Some((acc, cur))
}

fn parse_layer(s: &[u8], pos: usize) -> (r: Option<(Layer, usize)>)
    ensures
        ({
            match r {
                Some((v, p)) => spec_parse_layer(s@, pos as int) == Some((v@, p as int)),
                None => spec_parse_layer(s@, pos as int) is None,
            }
        }),
{
    match read_u32(s, pos) {
        Some((id, p1)) => match read_bytes(s, p1) {
            Some((name, p2)) => match read_u64(s, p2) {
                Some((n, p3)) => match parse_bindings(s, p3, n) {
                    Some((bindings, p4)) => Some((Layer { id, name, bindings }, p4)),
                    None => None,
                },
                None => None,
            },
            None => None,
        },
        None => None,
    }
}

fn parse_layers(s: &[u8], pos: usize, n: u64) -> (r: Option<(Vec<Layer>, usize)>)
    ensures
        ({
            match r {
                Some((v, p)) => spec_parse_layers(s@, pos as int, n as int) == Some(
                    (v.deep_view(), p as int),
                ),
                None => spec_parse_layers(s@, pos as int, n as int) is None,
            }
        }),
{
    let mut acc: Vec<Layer> = Vec::new();
    let mut cur: usize = pos;
    let mut k: u64 = 0;
    while k < n
        invariant
            k <= n,
            ({
                let whole = spec_parse_layers(s@, pos as int, n as int);
                match spec_parse_layers(s@, cur as int, n - k) {
                    Some((items, end)) => whole == Some((acc.deep_view() + items, end)),
                    None => whole is None,
                }
            }),
        decreases n - k,
    {
        match parse_layer(s, cur) {
            Some((l, p)) => {
                let ghost pre = acc;
                acc.push(l);
                proof {
                    crate::wire::lemma_deep_view_push(pre, acc, l);
                    assert(pre.deep_view().push(l@) =~= pre.deep_view() + seq![l@]);
                    match spec_parse_layers(s@, p as int, n - k - 1) {
                        Some((items2, end2)) => {
                            assert((pre.deep_view() + seq![l@]) + items2 =~= pre.deep_view() + (
                            seq![l@] + items2));
                        },
                        None => {},
                    }
                }
                cur = p;
                k = k + 1;
            },
            None => {
                return None;
            },
        }
    }
    proof {
        assert(acc.deep_view() + Seq::<LayerView>::empty() =~= acc.deep_view());
    }
    Some((acc, cur))
}

fn parse_keymap(s: &[u8], pos: usize) -> (r: Option<(Keymap, usize)>)
    ensures
        ({
            match r {
                Some((v, p)) => spec_parse_keymap(s@, pos as int) == Some((v@, p as int)),
                None => spec_parse_keymap(s@, pos as int) is None,
            }
        }),
{
    match read_u64(s, pos) {
        Some((n, p1)) => match parse_layers(s, p1, n) {
            Some((layers, p2)) => Some((Keymap { layers }, p2)),
            None => None,
        },
        None => None,
    }
}

fn parse_device_info(s: &[u8], pos: usize) -> (r: Option<(DeviceInfo, usize)>)
    ensures
        ({
            match r {
                Some((v, p)) => spec_parse_device_info(s@, pos as int) == Some((v@, p as int)),
                None => spec_parse_device_info(s@, pos as int) is None,
            }
        }),
{
    match read_bytes(s, pos) {
        Some((name, p1)) => match read_bytes(s, p1) {
            Some((serial_number, p2)) => Some((DeviceInfo { name, serial_number }, p2)),
            None => None,
        },
        None => None,
    }
}

fn parse_details(s: &[u8], pos: usize) -> (r: Option<(BehaviorDetails, usize)>)
    ensures
        ({
            match r {
                Some((v, p)) => spec_parse_details(s@, pos as int) == Some((v@, p as int)),
                None => spec_parse_details(s@, pos as int) is None,
            }
        }),
{
    match read_u32(s, pos) {
        Some((behavior_id, p1)) => match read_bytes(s, p1) {
            Some((display_name, p2)) => Some((BehaviorDetails { behavior_id, display_name }, p2)),
            None => None,
        },
        None => None,
    }
}

fn parse_layouts(s: &[u8], pos: usize, n: u64) -> (r: Option<(Vec<PhysicalLayout>, usize)>)
    ensures
        ({
            match r {
                Some((v, p)) => spec_parse_layouts(s@, pos as int, n as int) == Some(
                    (v.deep_view(), p as int),
                ),
                None => spec_parse_layouts(s@, pos as int, n as int) is None,
            }
        }),
{
    let mut acc: Vec<PhysicalLayout> = Vec::new();
    let mut cur: usize = pos;
    let mut k: u64 = 0;
    while k < n
        invariant
            k <= n,
            ({
                let whole = spec_parse_layouts(s@, pos as int, n as int);
                match spec_parse_layouts(s@, cur as int, n - k) {
                    Some((items, end)) => whole == Some((acc.deep_view() + items, end)),
                    None => whole is None,
                }
            }),
        decreases n - k,
    {
        match read_bytes(s, cur) {
            Some((name, p)) => {
                let l = PhysicalLayout { name };
                let ghost pre = acc;
                acc.push(l);
                proof {
                    crate::wire::lemma_deep_view_push(pre, acc, l);
                    assert(pre.deep_view().push(l@) =~= pre.deep_view() + seq![l@]);
                    match spec_parse_layouts(s@, p as int, n - k - 1) {
                        Some((items2, end2)) => {
                            assert((pre.deep_view() + seq![l@]) + items2 =~= pre.deep_view() + (
                            seq![l@] + items2));
                        },
                        None => {},
                    }
                }
                cur = p;
                k = k + 1;
            },
            None => {
                return None;
            },
        }
    }
    proof {
        assert(acc.deep_view() + Seq::<PhysicalLayoutView>::empty() =~= acc.deep_view());
    }
    Some((acc, cur))
}

fn parse_layouts_msg(s: &[u8], pos: usize) -> (r: Option<(PhysicalLayouts, usize)>)
    ensures
        ({
            match r {
                Some((v, p)) => spec_parse_layouts_msg(s@, pos as int) == Some((v@, p as int)),
                None => spec_parse_layouts_msg(s@, pos as int) is None,
            }
        }),
{
    match read_u32(s, pos) {
        Some((active_layout_index, p1)) => match read_u64(s, p1) {
            Some((n, p2)) => match parse_layouts(s, p2, n) {
                Some((layouts, p3)) => Some(
                    (PhysicalLayouts { layouts, active_layout_index }, p3),
                ),
                None => None,
            },
            None => None,
        },
        None => None,
    }
}

fn parse_add_details(s: &[u8], pos: usize) -> (r: Option<(AddLayerDetails, usize)>)
    ensures
        ({
            match r {
                Some((v, p)) => spec_parse_add_details(s@, pos as int) == Some((v@, p as int)),
                None => spec_parse_add_details(s@, pos as int) is None,
            }
        }),
{
    match read_u32(s, pos) {
        Some((index, p1)) => match parse_layer(s, p1) {
            Some((layer, p2)) => Some((AddLayerDetails { index, layer }, p2)),
            None => None,
        },
        None => None,
    }
}

fn parse_ids(s: &[u8], pos: usize, n: u64) -> (r: Option<(Vec<u32>, usize)>)
    ensures
        ({
            match r {
                Some((v, p)) => spec_parse_ids(s@, pos as int, n as int) == Some((v@, p as int)),
                None => spec_parse_ids(s@, pos as int, n as int) is None,
            }
        }),
{
    let mut acc: Vec<u32> = Vec::new();
    let mut cur: usize = pos;
    let mut k: u64 = 0;
    while k < n
        invariant
            k <= n,
            ({
                let whole = spec_parse_ids(s@, pos as int, n as int);
                match spec_parse_ids(s@, cur as int, n - k) {
                    Some((items, end)) => whole == Some((acc@ + items, end)),
                    None => whole is None,
                }
            }),
        decreases n - k,
    {
        match read_u32(s, cur) {
            Some((v, p)) => {
                proof {
                    let ghost pre = acc@;
                    assert(pre.push(v) =~= pre + seq![v]);
                    match spec_parse_ids(s@, p as int, n - k - 1) {
                        Some((items2, end2)) => {
                            assert((pre + seq![v]) + items2 =~= pre + (seq![v] + items2));
                        },
                        None => {},
                    }
                }
                acc.push(v);
                cur = p;
                k = k + 1;
            },
            None => {
                return None;
            },
        }
    }
    proof {
        assert(acc@ + Seq::<u32>::empty() =~= acc@);
    }
    Some((acc, cur))
}

fn parse_core_request(s: &[u8], pos: usize) -> (r: Option<(CoreRequest, usize)>)
    ensures
        ({
            match r {
                Some((v, p)) => spec_parse_core_request(s@, pos as int) == Some((v, p as int)),
                None => spec_parse_core_request(s@, pos as int) is None,
            }
        }),
{
    match read_u8(s, pos) {
        Some((tag, p)) => {
            if tag == 1 {
                Some((CoreRequest::GetDeviceInfo, p))
            } else if tag == 2 {
                Some((CoreRequest::GetLockState, p))
            } else if tag == 3 {
                Some((CoreRequest::ResetSettings, p))
            } else {
                None
            }
        },
        None => None,
    }
}

fn parse_behaviors_request(s: &[u8], pos: usize) -> (r: Option<(BehaviorsRequest, usize)>)
    ensures
        ({
            match r {
                Some((v, p)) => spec_parse_behaviors_request(s@, pos as int) == Some(
                    (v, p as int),
                ),
                None => spec_parse_behaviors_request(s@, pos as int) is None,
            }
        }),
{
    match read_u8(s, pos) {
        Some((tag, p)) => {
            if tag == 1 {
                Some((BehaviorsRequest::ListAllBehaviors, p))
            } else if tag == 2 {
                match read_u32(s, p) {
                    Some((behavior_id, p1)) => Some(
                        (BehaviorsRequest::GetBehaviorDetails { behavior_id }, p1),
                    ),
                    None => None,
                }
            } else {
                None
            }
        },
        None => None,
    }
}

fn parse_keymap_request(s: &[u8], pos: usize) -> (r: Option<(KeymapRequest, usize)>)
    ensures
        ({
            match r {
                Some((v, p)) => spec_parse_keymap_request(s@, pos as int) == Some((v@, p as int)),
                None => spec_parse_keymap_request(s@, pos as int) is None,
            }
        }),
{
    match read_u8(s, pos) {
        Some((tag, p)) => {
            if tag == 1 {
                Some((KeymapRequest::GetKeymap, p))
            } else if tag == 2 {
                Some((KeymapRequest::GetPhysicalLayouts, p))
            } else if tag == 3 {
                match read_u32(s, p) {
                    Some((layer_id, p1)) => match read_u32(s, p1) {
                        Some((kp, p2)) => match parse_binding(s, p2) {
                            Some((binding, p3)) => Some(
                                (
                                    KeymapRequest::SetLayerBinding {
                                        layer_id,
                                        key_position: kp as i32,
                                        binding,
                                    },
                                    p3,
                                ),
                            ),
                            None => None,
                        },
                        None => None,
                    },
                    None => None,
                }
            } else if tag == 4 {
                Some((KeymapRequest::CheckUnsavedChanges, p))
            } else if tag == 5 {
                Some((KeymapRequest::SaveChanges, p))
            } else if tag == 6 {
                Some((KeymapRequest::DiscardChanges, p))
            } else if tag == 7 {
                match read_u32(s, p) {
                    Some((index, p1)) => Some(
                        (KeymapRequest::SetActivePhysicalLayout { index }, p1),
                    ),
                    None => None,
                }
            } else if tag == 8 {
                match read_u32(s, p) {
                    Some((start_index, p1)) => match read_u32(s, p1) {
                        Some((dest_index, p2)) => Some(
                            (KeymapRequest::MoveLayer { start_index, dest_index }, p2),
                        ),
                        None => None,
                    },
                    None => None,
                }
            } else if tag == 9 {
                Some((KeymapRequest::AddLayer, p))
            } else if tag == 10 {
                match read_u32(s, p) {
                    Some((layer_index, p1)) => Some((KeymapRequest::RemoveLayer { layer_index }, p1)),
                    None => None,
                }
            } else if tag == 11 {
                match read_u32(s, p) {
                    Some((layer_id, p1)) => match read_u32(s, p1) {
                        Some((at_index, p2)) => Some(
                            (KeymapRequest::RestoreLayer { layer_id, at_index }, p2),
                        ),
                        None => None,
                    },
                    None => None,
                }
            } else if tag == 12 {
                match read_u32(s, p) {
                    Some((layer_id, p1)) => match read_bytes(s, p1) {
                        Some((name, p2)) => Some(
                            (KeymapRequest::SetLayerProps { layer_id, name }, p2),
                        ),
                        None => None,
                    },
                    None => None,
                }
            } else {
                None
            }
        },
        None => None,
    }
}

fn parse_subsystem_request(s: &[u8], pos: usize) -> (r: Option<(SubsystemRequest, usize)>)
    ensures
        ({
            match r {
                Some((v, p)) => spec_parse_subsystem_request(s@, pos as int) == Some(
                    (v@, p as int),
                ),
                None => spec_parse_subsystem_request(s@, pos as int) is None,
            }
        }),
{
    match read_u8(s, pos) {
        Some((tag, p)) => {
            if tag == 1 {
                match parse_core_request(s, p) {
                    Some((c, p1)) => Some((SubsystemRequest::Core(c), p1)),
                    None => None,
                }
            } else if tag == 2 {
                match parse_behaviors_request(s, p) {
                    Some((b, p1)) => Some((SubsystemRequest::Behaviors(b), p1)),
                    None => None,
                }
            } else if tag == 3 {
                match parse_keymap_request(s, p) {
                    Some((k, p1)) => Some((SubsystemRequest::Keymap(k), p1)),
                    None => None,
                }
            } else {
                None
            }
        },
        None => None,
    }
}

/// The request envelope a complete frame payload denotes.
pub fn parse_request_frame(s: &[u8]) -> (r: Option<Request>)
    ensures
        ({
            match r {
                Some(v) => spec_parse_request(s@) == Some(v@),
                None => spec_parse_request(s@) is None,
            }
        }),
{
    match read_u32(s, 0) {
        Some((request_id, p)) => match parse_subsystem_request(s, p) {
            Some((subsystem, p1)) => {
                if p1 == s.len() {
                    Some(Request { request_id, subsystem })
                } else {
                    None
                }
            },
            None => None,
        },
        None => None,
    }
}

fn parse_meta(s: &[u8], pos: usize) -> (r: Option<(MetaResult, usize)>)
    ensures
        ({
            match r {
                Some((v, p)) => spec_parse_meta(s@, pos as int) == Some((v, p as int)),
                None => spec_parse_meta(s@, pos as int) is None,
            }
        }),
{
    match read_u8(s, pos) {
        Some((tag, p)) => {
            if tag == 1 {
                Some((MetaResult::NoResponse, p))
            } else if tag == 2 {
                match read_u32(s, p) {
                    Some((code, p1)) => Some((MetaResult::SimpleError { code }, p1)),
                    None => None,
                }
            } else {
                None
            }
        },
        None => None,
    }
}

fn parse_core_result(s: &[u8], pos: usize) -> (r: Option<(CoreResult, usize)>)
    ensures
        ({
            match r {
                Some((v, p)) => spec_parse_core_result(s@, pos as int) == Some((v@, p as int)),
                None => spec_parse_core_result(s@, pos as int) is None,
            }
        }),
{
    match read_u8(s, pos) {
        Some((tag, p)) => {
            if tag == 1 {
                match parse_device_info(s, p) {
                    Some((d, p1)) => Some((CoreResult::DeviceInfo(d), p1)),
                    None => None,
                }
            } else if tag == 2 {
                match read_u32(s, p) {
                    Some((raw, p1)) => Some((CoreResult::LockState { raw }, p1)),
                    None => None,
                }
            } else if tag == 3 {
                match read_bool(s, p) {
                    Some((ok, p1)) => Some((CoreResult::ResetSettings { ok }, p1)),
                    None => None,
                }
            } else {
                None
            }
        },
        None => None,
    }
}

fn parse_behaviors_result(s: &[u8], pos: usize) -> (r: Option<(BehaviorsResult, usize)>)
    ensures
        ({
            match r {
                Some((v, p)) => spec_parse_behaviors_result(s@, pos as int) == Some(
                    (v@, p as int),
                ),
                None => spec_parse_behaviors_result(s@, pos as int) is None,
            }
        }),
{
    match read_u8(s, pos) {
        Some((tag, p)) => {
            if tag == 1 {
                match read_u64(s, p) {
                    Some((n, p1)) => match parse_ids(s, p1, n) {
                        Some((behaviors, p2)) => Some(
                            (BehaviorsResult::ListAllBehaviors { behaviors }, p2),
                        ),
                        None => None,
                    },
                    None => None,
                }
            } else if tag == 2 {
                match parse_details(s, p) {
                    Some((d, p1)) => Some((BehaviorsResult::GetBehaviorDetails(d), p1)),
                    None => None,
                }
            } else {
                None
            }
        },
        None => None,
    }
}

fn parse_ack(s: &[u8], pos: usize) -> (r: Option<(AckResult, usize)>)
    ensures
        ({
            match r {
                Some((v, p)) => spec_parse_ack(s@, pos as int) == Some((v, p as int)),
                None => spec_parse_ack(s@, pos as int) is None,
            }
        }),
{
    match read_u8(s, pos) {
        Some((tag, p)) => {
            if tag == 1 {
                Some((AckResult::Accepted, p))
            } else if tag == 2 {
                match read_u32(s, p) {
                    Some((code, p1)) => Some((AckResult::Rejected { code }, p1)),
                    None => None,
                }
            } else {
                None
            }
        },
        None => None,
    }
}

fn parse_keymap_op(s: &[u8], pos: usize) -> (r: Option<(OpResult<Keymap>, usize)>)
    ensures
        ({
            match r {
                Some((v, p)) => spec_parse_keymap_op(s@, pos as int) == Some(
                    (
                        match v {
                            OpResult::Accepted(k) => OpResult::Accepted(k@),
                            OpResult::Rejected { code } => (OpResult::Rejected { code }),
                        },
                        p as int,
                    ),
                ),
                None => spec_parse_keymap_op(s@, pos as int) is None,
            }
        }),
{
    match read_u8(s, pos) {
        Some((tag, p)) => {
            if tag == 1 {
                match parse_keymap(s, p) {
                    Some((k, p1)) => Some((OpResult::Accepted(k), p1)),
                    None => None,
                }
            } else if tag == 2 {
                match read_u32(s, p) {
                    Some((code, p1)) => Some((OpResult::Rejected { code }, p1)),
                    None => None,
                }
            } else {
                None
            }
        },
        None => None,
    }
}

fn parse_keymap_result(s: &[u8], pos: usize) -> (r: Option<(KeymapResult, usize)>)
    ensures
        ({
            match r {
                Some((v, p)) => spec_parse_keymap_result(s@, pos as int) == Some((v@, p as int)),
                None => spec_parse_keymap_result(s@, pos as int) is None,
            }
        }),
{
    match read_u8(s, pos) {
        Some((tag, p)) => {
            if tag == 1 {
                match parse_keymap(s, p) {
                    Some((m, p1)) => Some((KeymapResult::GetKeymap(m), p1)),
                    None => None,
                }
            } else if tag == 2 {
                match parse_layouts_msg(s, p) {
                    Some((m, p1)) => Some((KeymapResult::GetPhysicalLayouts(m), p1)),
                    None => None,
                }
            } else if tag == 3 {
                match read_u32(s, p) {
                    Some((code, p1)) => Some((KeymapResult::SetLayerBinding { code }, p1)),
                    None => None,
                }
            } else if tag == 4 {
                match read_bool(s, p) {
                    Some((unsaved, p1)) => Some((KeymapResult::CheckUnsavedChanges { unsaved }, p1)),
                    None => None,
                }
            } else if tag == 5 {
                match parse_ack(s, p) {
                    Some((a, p1)) => Some((KeymapResult::SaveChanges(a), p1)),
                    None => None,
                }
            } else if tag == 6 {
                match read_bool(s, p) {
                    Some((discarded, p1)) => Some((KeymapResult::DiscardChanges { discarded }, p1)),
                    None => None,
                }
            } else if tag == 7 {
                match parse_keymap_op(s, p) {
                    Some((r2, p1)) => Some((KeymapResult::SetActivePhysicalLayout(r2), p1)),
                    None => None,
                }
            } else if tag == 8 {
                match parse_keymap_op(s, p) {
                    Some((r2, p1)) => Some((KeymapResult::MoveLayer(r2), p1)),
                    None => None,
                }
            } else if tag == 9 {
                match read_u8(s, p) {
                    Some((t2, p1)) => {
                        if t2 == 1 {
                            match parse_add_details(s, p1) {
                                Some((d, p2)) => Some(
                                    (KeymapResult::AddLayer(OpResult::Accepted(d)), p2),
                                ),
                                None => None,
                            }
                        } else if t2 == 2 {
                            match read_u32(s, p1) {
                                Some((code, p2)) => Some(
                                    (KeymapResult::AddLayer(OpResult::Rejected { code }), p2),
                                ),
                                None => None,
                            }
                        } else {
                            None
                        }
                    },
                    None => None,
                }
            } else if tag == 10 {
                match parse_ack(s, p) {
                    Some((a, p1)) => Some((KeymapResult::RemoveLayer(a), p1)),
                    None => None,
                }
            } else if tag == 11 {
                match read_u8(s, p) {
                    Some((t2, p1)) => {
                        if t2 == 1 {
                            match parse_layer(s, p1) {
                                Some((l, p2)) => Some(
                                    (KeymapResult::RestoreLayer(OpResult::Accepted(l)), p2),
                                ),
                                None => None,
                            }
                        } else if t2 == 2 {
                            match read_u32(s, p1) {
                                Some((code, p2)) => Some(
                                    (KeymapResult::RestoreLayer(OpResult::Rejected { code }), p2),
                                ),
                                None => None,
                            }
                        } else {
                            None
                        }
                    },
                    None => None,
                }
            } else if tag == 12 {
                match read_u32(s, p) {
                    Some((code, p1)) => Some((KeymapResult::SetLayerProps { code }, p1)),
                    None => None,
                }
            } else {
                None
            }
        },
        None => None,
    }
}

fn parse_subsystem_result(s: &[u8], pos: usize) -> (r: Option<(SubsystemResult, usize)>)
    ensures
        ({
            match r {
                Some((v, p)) => spec_parse_subsystem_result(s@, pos as int) == Some(
                    (v@, p as int),
                ),
                None => spec_parse_subsystem_result(s@, pos as int) is None,
            }
        }),
{
    match read_u8(s, pos) {
        Some((tag, p)) => {
            if tag == 1 {
                match parse_meta(s, p) {
                    Some((m, p1)) => Some((SubsystemResult::Meta(m), p1)),
                    None => None,
                }
            } else if tag == 2 {
                match parse_core_result(s, p) {
                    Some((c, p1)) => Some((SubsystemResult::Core(c), p1)),
                    None => None,
                }
            } else if tag == 3 {
                match parse_behaviors_result(s, p) {
                    Some((b, p1)) => Some((SubsystemResult::Behaviors(b), p1)),
                    None => None,
                }
            } else if tag == 4 {
                match parse_keymap_result(s, p) {
                    Some((k, p1)) => Some((SubsystemResult::Keymap(k), p1)),
                    None => None,
                }
            } else {
                None
            }
        },
        None => None,
    }
}

/// The response envelope a complete frame payload denotes.
pub fn parse_response_frame(s: &[u8]) -> (r: Option<Response>)
    ensures
        ({
            match r {
                Some(v) => spec_parse_response(s@) == Some(v@),
                None => spec_parse_response(s@) is None,
            }
        }),
{
    match read_u8(s, 0) {
        Some((tag, p)) => {
            if tag == 1 {
                match read_u32(s, p) {
                    Some((request_id, p1)) => match parse_subsystem_result(s, p1) {
                        Some((result, p2)) => {
                            if p2 == s.len() {
                                Some(Response::RequestResponse(RequestResponse {
                                    request_id,
                                    result,
                                }))
                            } else {
                                None
                            }
                        },
                        None => None,
                    },
                    None => None,
                }
            } else if tag == 2 {
                match read_bytes(s, p) {
                    Some((payload, p1)) => {
                        if p1 == s.len() {
                            Some(Response::Notification(Notification { payload }))
                        } else {
                            None
                        }
                    },
                    None => None,
                }
            } else {
                None
            }
        },
        None => None,
    }
}

/// Feeds a chunk to the frame decoder and deserializes every completed
/// frame as a request envelope, in order. A framing error and a payload
/// decode error are reported separately; either way the decoder itself has
/// consumed the chunk as [`run_spec`] describes.
#[verifier::rlimit(80)]
pub fn decode_requests(decoder: &mut FrameDecoder, chunk: &[u8]) -> (r: Result<
    Vec<Request>,
    ProtocolError,
>)
    ensures
        ({
            let run = run_spec(old(decoder).state_spec(), old(decoder).buffered(), chunk@);
            &&& final(decoder).state_spec() == run.state
            &&& final(decoder).buffered() == run.data
            &&& match r {
                Ok(requests) => run.error is None && spec_parse_requests(run.frames) == Some(
                    requests.deep_view(),
                ),
                Err(ProtocolError::Framing(e)) => run.error == Some(e),
                Err(ProtocolError::Decode) => run.error is None && spec_parse_requests(run.frames)
                    is None,
            }
        }),
{
    let frames = match decoder.push(chunk) {
        Ok(frames) => frames,
        Err(e) => {
            return Err(ProtocolError::Framing(e));
        },
    };
    let ghost fr = frames.deep_view();
    proof {
        assert(fr.skip(0) =~= fr);
    }
    let mut out: Vec<Request> = Vec::new();
    let mut i: usize = 0;
    while i < frames.len()
        invariant
            i <= frames.len(),
            frames.deep_view() == fr,
            ({
                let run = run_spec(old(decoder).state_spec(), old(decoder).buffered(), chunk@);
                &&& decoder.state_spec() == run.state
                &&& decoder.buffered() == run.data
                &&& run.error is None
                &&& run.frames == fr
            }),
            ({
                let whole = spec_parse_requests(fr);
                match spec_parse_requests(fr.skip(i as int)) {
                    Some(rest) => whole == Some(out.deep_view() + rest),
                    None => whole is None,
                }
            }),
        decreases frames.len() - i,
    {
        proof {
            let rem = fr.skip(i as int);
            assert(rem.len() == fr.len() - i);
            assert(rem[0] == fr[i as int]);
            assert(rem.skip(1) =~= fr.skip(i + 1));
            assert(frames@[i as int].deep_view() =~= frames@[i as int]@);
        }
        match parse_request_frame(frames[i].as_slice()) {
            Some(req) => {
                let ghost pre = out;
                out.push(req);
                proof {
                    crate::wire::lemma_deep_view_push(pre, out, req);
                    assert(pre.deep_view().push(req@) =~= pre.deep_view() + seq![req@]);
                    match spec_parse_requests(fr.skip(i + 1)) {
                        Some(rest2) => {
                            assert((pre.deep_view() + seq![req@]) + rest2 =~= pre.deep_view() + (
                            seq![req@] + rest2));
                        },
                        None => {},
                    }
                }
                i = i + 1;
            },
            None => {
                return Err(ProtocolError::Decode);
            },
        }
    }
    proof {
        assert(fr.skip(fr.len() as int) =~= Seq::<Seq<u8>>::empty());
        assert(out.deep_view() + Seq::<RequestView>::empty() =~= out.deep_view());
    }
    Ok(out)
}

/// Feeds a chunk to the frame decoder and deserializes every completed
/// frame as a response envelope, in order. A framing error and a payload
/// decode error are reported separately; either way the decoder itself has
/// consumed the chunk as [`run_spec`] describes.
#[verifier::rlimit(80)]
pub fn decode_responses(decoder: &mut FrameDecoder, chunk: &[u8]) -> (r: Result<
    Vec<Response>,
    ProtocolError,
>)
    ensures
        ({
            let run = run_spec(old(decoder).state_spec(), old(decoder).buffered(), chunk@);
            &&& final(decoder).state_spec() == run.state
            &&& final(decoder).buffered() == run.data
            &&& match r {
                Ok(responses) => run.error is None && spec_parse_responses(run.frames) == Some(
                    responses.deep_view(),
                ),
                Err(ProtocolError::Framing(e)) => run.error == Some(e),
                Err(ProtocolError::Decode) => run.error is None && spec_parse_responses(run.frames)
                    is None,
            }
        }),
{
    let frames = match decoder.push(chunk) {
        Ok(frames) => frames,
        Err(e) => {
            return Err(ProtocolError::Framing(e));
        },
    };
    let ghost fr = frames.deep_view();
    proof {
        assert(fr.skip(0) =~= fr);
    }
    let mut out: Vec<Response> = Vec::new();
    let mut i: usize = 0;
    while i < frames.len()
        invariant
            i <= frames.len(),
            frames.deep_view() == fr,
            ({
                let run = run_spec(old(decoder).state_spec(), old(decoder).buffered(), chunk@);
                &&& decoder.state_spec() == run.state
                &&& decoder.buffered() == run.data
                &&& run.error is None
                &&& run.frames == fr
            }),
            ({
                let whole = spec_parse_responses(fr);
                match spec_parse_responses(fr.skip(i as int)) {
                    Some(rest) => whole == Some(out.deep_view() + rest),
                    None => whole is None,
                }
            }),
        decreases frames.len() - i,
    {
        proof {
            let rem = fr.skip(i as int);
            assert(rem.len() == fr.len() - i);
            assert(rem[0] == fr[i as int]);
            assert(rem.skip(1) =~= fr.skip(i + 1));
            assert(frames@[i as int].deep_view() =~= frames@[i as int]@);
        }
        match parse_response_frame(frames[i].as_slice()) {
            Some(resp) => {
                let ghost pre = out;
                out.push(resp);
                proof {
                    crate::wire::lemma_deep_view_push(pre, out, resp);
                    assert(pre.deep_view().push(resp@) =~= pre.deep_view() + seq![resp@]);
                    match spec_parse_responses(fr.skip(i + 1)) {
                        Some(rest2) => {
                            assert((pre.deep_view() + seq![resp@]) + rest2 =~= pre.deep_view() + (
                            seq![resp@] + rest2));
                        },
                        None => {},
                    }
                }
                i = i + 1;
            },
            None => {
                return Err(ProtocolError::Decode);
            },
        }
    }
    proof {
        assert(fr.skip(fr.len() as int) =~= Seq::<Seq<u8>>::empty());
        assert(out.deep_view() + Seq::<ResponseView>::empty() =~= out.deep_view());
    }
    Ok(out)
}

} // verus!
