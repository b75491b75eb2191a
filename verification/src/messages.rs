//! The typed envelope model: requests, correlated responses and
//! notifications, with the subsystem payloads the client understands.
//!
//! Wire strings (names, serial numbers) are kept as the byte strings the
//! device sent. Each type with heap-backed fields has a spec-level view used
//! by the wire-format contracts.

use vstd::prelude::*;

verus! {

/// The wire representation of one key's behavior at one layer/position:
/// a behavior id and two opaque parameters.
#[derive(Debug, Clone, Copy, PartialEq, Eq, Structural)]
pub struct BehaviorBinding {
    pub behavior_id: i32,
    pub param1: u32,
    pub param2: u32,
}

/// One keymap layer: its stable id, display name and ordered bindings.
#[derive(Debug, Clone, PartialEq, Eq)]
pub struct Layer {
    pub id: u32,
    pub name: Vec<u8>,
    pub bindings: Vec<BehaviorBinding>,
}

pub struct LayerView {
    pub id: u32,
    pub name: Seq<u8>,
    pub bindings: Seq<BehaviorBinding>,
}

impl View for Layer {
    type V = LayerView;

    open spec fn view(&self) -> LayerView {
        LayerView { id: self.id, name: self.name@, bindings: self.bindings@ }
    }
}

impl DeepView for Layer {
    type V = LayerView;

    open spec fn deep_view(&self) -> LayerView {
        self@
    }
}

/// The device's working keymap: an ordered collection of layers.
#[derive(Debug, Clone, PartialEq, Eq)]
pub struct Keymap {
    pub layers: Vec<Layer>,
}

pub struct KeymapView {
    pub layers: Seq<LayerView>,
}

impl View for Keymap {
    type V = KeymapView;

    open spec fn view(&self) -> KeymapView {
        KeymapView { layers: self.layers.deep_view() }
    }
}

/// Core device identity data.
#[derive(Debug, Clone, PartialEq, Eq)]
pub struct DeviceInfo {
    pub name: Vec<u8>,
    pub serial_number: Vec<u8>,
}

pub struct DeviceInfoView {
    pub name: Seq<u8>,
    pub serial_number: Seq<u8>,
}

impl View for DeviceInfo {
    type V = DeviceInfoView;

    open spec fn view(&self) -> DeviceInfoView {
        DeviceInfoView { name: self.name@, serial_number: self.serial_number@ }
    }
}

/// One entry of the behavior catalog: the firmware-assigned id and the
/// display name the role classification is derived from.
#[derive(Debug, Clone, PartialEq, Eq)]
pub struct BehaviorDetails {
    pub behavior_id: u32,
    pub display_name: Vec<u8>,
}

pub struct BehaviorDetailsView {
    pub behavior_id: u32,
    pub display_name: Seq<u8>,
}

impl View for BehaviorDetails {
    type V = BehaviorDetailsView;

    open spec fn view(&self) -> BehaviorDetailsView {
        BehaviorDetailsView { behavior_id: self.behavior_id, display_name: self.display_name@ }
    }
}

/// One physical layout the device offers.
#[derive(Debug, Clone, PartialEq, Eq)]
pub struct PhysicalLayout {
    pub name: Vec<u8>,
}

pub struct PhysicalLayoutView {
    pub name: Seq<u8>,
}

impl View for PhysicalLayout {
    type V = PhysicalLayoutView;

    open spec fn view(&self) -> PhysicalLayoutView {
        PhysicalLayoutView { name: self.name@ }
    }
}

impl DeepView for PhysicalLayout {
    type V = PhysicalLayoutView;

    open spec fn deep_view(&self) -> PhysicalLayoutView {
        self@
    }
}

/// The physical layouts the device offers and which one is active.
#[derive(Debug, Clone, PartialEq, Eq)]
pub struct PhysicalLayouts {
    pub layouts: Vec<PhysicalLayout>,
    pub active_layout_index: u32,
}

pub struct PhysicalLayoutsView {
    pub layouts: Seq<PhysicalLayoutView>,
    pub active_layout_index: u32,
}

impl View for PhysicalLayouts {
    type V = PhysicalLayoutsView;

    open spec fn view(&self) -> PhysicalLayoutsView {
        PhysicalLayoutsView {
            layouts: self.layouts.deep_view(),
            active_layout_index: self.active_layout_index,
        }
    }
}

/// What the device reports after adding a layer: where it went and its data.
#[derive(Debug, Clone, PartialEq, Eq)]
pub struct AddLayerDetails {
    pub index: u32,
    pub layer: Layer,
}

pub struct AddLayerDetailsView {
    pub index: u32,
    pub layer: LayerView,
}

impl View for AddLayerDetails {
    type V = AddLayerDetailsView;

    open spec fn view(&self) -> AddLayerDetailsView {
        AddLayerDetailsView { index: self.index, layer: self.layer@ }
    }
}

/// An unsolicited event from the device, not tied to any request id. Its
/// payload is carried through opaquely.
#[derive(Debug, Clone, PartialEq, Eq)]
pub struct Notification {
    pub payload: Vec<u8>,
}

impl View for Notification {
    type V = Seq<u8>;

    open spec fn view(&self) -> Seq<u8> {
        self.payload@
    }
}

/// Core-subsystem requests.
#[derive(Debug, Clone, Copy, PartialEq, Eq, Structural)]
pub enum CoreRequest {
    GetDeviceInfo,
    GetLockState,
    ResetSettings,
}

/// Behaviors-subsystem requests.
#[derive(Debug, Clone, Copy, PartialEq, Eq, Structural)]
pub enum BehaviorsRequest {
    ListAllBehaviors,
    GetBehaviorDetails { behavior_id: u32 },
}

/// Keymap-subsystem requests.
#[derive(Debug, Clone, PartialEq, Eq)]
pub enum KeymapRequest {
    GetKeymap,
    GetPhysicalLayouts,
    SetLayerBinding { layer_id: u32, key_position: i32, binding: BehaviorBinding },
    CheckUnsavedChanges,
    SaveChanges,
    DiscardChanges,
    SetActivePhysicalLayout { index: u32 },
    MoveLayer { start_index: u32, dest_index: u32 },
    AddLayer,
    RemoveLayer { layer_index: u32 },
    RestoreLayer { layer_id: u32, at_index: u32 },
    SetLayerProps { layer_id: u32, name: Vec<u8> },
}

pub enum KeymapRequestView {
    GetKeymap,
    GetPhysicalLayouts,
    SetLayerBinding { layer_id: u32, key_position: i32, binding: BehaviorBinding },
    CheckUnsavedChanges,
    SaveChanges,
    DiscardChanges,
    SetActivePhysicalLayout { index: u32 },
    MoveLayer { start_index: u32, dest_index: u32 },
    AddLayer,
    RemoveLayer { layer_index: u32 },
    RestoreLayer { layer_id: u32, at_index: u32 },
    SetLayerProps { layer_id: u32, name: Seq<u8> },
}

impl View for KeymapRequest {
    type V = KeymapRequestView;

    open spec fn view(&self) -> KeymapRequestView {
        match self {
            KeymapRequest::GetKeymap => KeymapRequestView::GetKeymap,
            KeymapRequest::GetPhysicalLayouts => KeymapRequestView::GetPhysicalLayouts,
            KeymapRequest::SetLayerBinding { layer_id, key_position, binding } => (
            KeymapRequestView::SetLayerBinding {
                layer_id: *layer_id,
                key_position: *key_position,
                binding: *binding,
            }),
            KeymapRequest::CheckUnsavedChanges => KeymapRequestView::CheckUnsavedChanges,
            KeymapRequest::SaveChanges => KeymapRequestView::SaveChanges,
            KeymapRequest::DiscardChanges => KeymapRequestView::DiscardChanges,
            KeymapRequest::SetActivePhysicalLayout { index } => (
            KeymapRequestView::SetActivePhysicalLayout { index: *index }),
            KeymapRequest::MoveLayer { start_index, dest_index } => (KeymapRequestView::MoveLayer {
                start_index: *start_index,
                dest_index: *dest_index,
            }),
            KeymapRequest::AddLayer => KeymapRequestView::AddLayer,
            KeymapRequest::RemoveLayer { layer_index } => (KeymapRequestView::RemoveLayer {
                layer_index: *layer_index,
            }),
            KeymapRequest::RestoreLayer { layer_id, at_index } => (KeymapRequestView::RestoreLayer {
                layer_id: *layer_id,
                at_index: *at_index,
            }),
            KeymapRequest::SetLayerProps { layer_id, name } => (KeymapRequestView::SetLayerProps {
                layer_id: *layer_id,
                name: name@,
            }),
        }
    }
}

/// One subsystem request, selecting the namespace it belongs to.
#[derive(Debug, Clone, PartialEq, Eq)]
pub enum SubsystemRequest {
    Core(CoreRequest),
    Behaviors(BehaviorsRequest),
    Keymap(KeymapRequest),
}

pub enum SubsystemRequestView {
    Core(CoreRequest),
    Behaviors(BehaviorsRequest),
    Keymap(KeymapRequestView),
}

impl View for SubsystemRequest {
    type V = SubsystemRequestView;

    open spec fn view(&self) -> SubsystemRequestView {
        match self {
            SubsystemRequest::Core(r) => SubsystemRequestView::Core(*r),
            SubsystemRequest::Behaviors(r) => SubsystemRequestView::Behaviors(*r),
            SubsystemRequest::Keymap(r) => SubsystemRequestView::Keymap(r@),
        }
    }
}

/// A request envelope: the caller-assigned id and one subsystem request.
#[derive(Debug, Clone, PartialEq, Eq)]
pub struct Request {
    pub request_id: u32,
    pub subsystem: SubsystemRequest,
}

pub struct RequestView {
    pub request_id: u32,
    pub subsystem: SubsystemRequestView,
}

impl View for Request {
    type V = RequestView;

    open spec fn view(&self) -> RequestView {
        RequestView { request_id: self.request_id, subsystem: self.subsystem@ }
    }
}

impl DeepView for Request {
    type V = RequestView;

    open spec fn deep_view(&self) -> RequestView {
        self@
    }
}

/// The meta subsystem's pre-empting results: no response, or a
/// device-reported error condition by enumerated code.
#[derive(Debug, Clone, Copy, PartialEq, Eq, Structural)]
pub enum MetaResult {
    NoResponse,
    SimpleError { code: u32 },
}

/// Core-subsystem results. The lock state is carried as the raw enumerator
/// the firmware sent; the client decodes it, so an unknown value is
/// reported rather than lost.
#[derive(Debug, Clone, PartialEq, Eq)]
pub enum CoreResult {
    DeviceInfo(DeviceInfo),
    LockState { raw: u32 },
    ResetSettings { ok: bool },
}

pub enum CoreResultView {
    DeviceInfo(DeviceInfoView),
    LockState { raw: u32 },
    ResetSettings { ok: bool },
}

impl View for CoreResult {
    type V = CoreResultView;

    open spec fn view(&self) -> CoreResultView {
        match self {
            CoreResult::DeviceInfo(d) => CoreResultView::DeviceInfo(d@),
            CoreResult::LockState { raw } => (CoreResultView::LockState { raw: *raw }),
            CoreResult::ResetSettings { ok } => (CoreResultView::ResetSettings { ok: *ok }),
        }
    }
}

/// Behaviors-subsystem results.
#[derive(Debug, Clone, PartialEq, Eq)]
pub enum BehaviorsResult {
    ListAllBehaviors { behaviors: Vec<u32> },
    GetBehaviorDetails(BehaviorDetails),
}

pub enum BehaviorsResultView {
    ListAllBehaviors { behaviors: Seq<u32> },
    GetBehaviorDetails(BehaviorDetailsView),
}

impl View for BehaviorsResult {
    type V = BehaviorsResultView;

    open spec fn view(&self) -> BehaviorsResultView {
        match self {
            BehaviorsResult::ListAllBehaviors { behaviors } => (
            BehaviorsResultView::ListAllBehaviors { behaviors: behaviors@ }),
            BehaviorsResult::GetBehaviorDetails(d) => BehaviorsResultView::GetBehaviorDetails(d@),
        }
    }
}

/// A device acknowledgement: accepted, or rejected with the firmware's raw
/// reason code.
#[derive(Debug, Clone, Copy, PartialEq, Eq, Structural)]
pub enum AckResult {
    Accepted,
    Rejected { code: u32 },
}

/// A device result carrying a value on success, or the firmware's raw
/// reason code on failure.
#[derive(Debug, Clone, PartialEq, Eq)]
pub enum OpResult<T> {
    Accepted(T),
    Rejected { code: u32 },
}

/// Keymap-subsystem results. Failure codes are carried as the firmware's
/// raw enumerators.
#[derive(Debug, Clone, PartialEq, Eq)]
pub enum KeymapResult {
    GetKeymap(Keymap),
    GetPhysicalLayouts(PhysicalLayouts),
    SetLayerBinding { code: u32 },
    CheckUnsavedChanges { unsaved: bool },
    SaveChanges(AckResult),
    DiscardChanges { discarded: bool },
    SetActivePhysicalLayout(OpResult<Keymap>),
    MoveLayer(OpResult<Keymap>),
    AddLayer(OpResult<AddLayerDetails>),
    RemoveLayer(AckResult),
    RestoreLayer(OpResult<Layer>),
    SetLayerProps { code: u32 },
}

pub enum KeymapResultView {
    GetKeymap(KeymapView),
    GetPhysicalLayouts(PhysicalLayoutsView),
    SetLayerBinding { code: u32 },
    CheckUnsavedChanges { unsaved: bool },
    SaveChanges(AckResult),
    DiscardChanges { discarded: bool },
    SetActivePhysicalLayout(OpResult<KeymapView>),
    MoveLayer(OpResult<KeymapView>),
    AddLayer(OpResult<AddLayerDetailsView>),
    RemoveLayer(AckResult),
    RestoreLayer(OpResult<LayerView>),
    SetLayerProps { code: u32 },
}

impl View for KeymapResult {
    type V = KeymapResultView;

    open spec fn view(&self) -> KeymapResultView {
        match self {
            KeymapResult::GetKeymap(k) => KeymapResultView::GetKeymap(k@),
            KeymapResult::GetPhysicalLayouts(p) => KeymapResultView::GetPhysicalLayouts(p@),
            KeymapResult::SetLayerBinding { code } => (KeymapResultView::SetLayerBinding {
                code: *code,
            }),
            KeymapResult::CheckUnsavedChanges { unsaved } => (
            KeymapResultView::CheckUnsavedChanges { unsaved: *unsaved }),
            KeymapResult::SaveChanges(r) => KeymapResultView::SaveChanges(*r),
            KeymapResult::DiscardChanges { discarded } => (KeymapResultView::DiscardChanges {
                discarded: *discarded,
            }),
            KeymapResult::SetActivePhysicalLayout(r) => KeymapResultView::SetActivePhysicalLayout(
                match r {
                    OpResult::Accepted(k) => OpResult::Accepted(k@),
                    OpResult::Rejected { code } => (OpResult::Rejected { code: *code }),
                },
            ),
            KeymapResult::MoveLayer(r) => KeymapResultView::MoveLayer(
                match r {
                    OpResult::Accepted(k) => OpResult::Accepted(k@),
                    OpResult::Rejected { code } => (OpResult::Rejected { code: *code }),
                },
            ),
            KeymapResult::AddLayer(r) => KeymapResultView::AddLayer(
                match r {
                    OpResult::Accepted(d) => OpResult::Accepted(d@),
                    OpResult::Rejected { code } => (OpResult::Rejected { code: *code }),
                },
            ),
            KeymapResult::RemoveLayer(r) => KeymapResultView::RemoveLayer(*r),
            KeymapResult::RestoreLayer(r) => KeymapResultView::RestoreLayer(
                match r {
                    OpResult::Accepted(l) => OpResult::Accepted(l@),
                    OpResult::Rejected { code } => (OpResult::Rejected { code: *code }),
                },
            ),
            KeymapResult::SetLayerProps { code } => (KeymapResultView::SetLayerProps {
                code: *code,
            }),
        }
    }
}

/// One subsystem result. The meta variant pre-empts normal decoding.
#[derive(Debug, Clone, PartialEq, Eq)]
pub enum SubsystemResult {
    Meta(MetaResult),
    Core(CoreResult),
    Behaviors(BehaviorsResult),
    Keymap(KeymapResult),
}

pub enum SubsystemResultView {
    Meta(MetaResult),
    Core(CoreResultView),
    Behaviors(BehaviorsResultView),
    Keymap(KeymapResultView),
}

impl View for SubsystemResult {
    type V = SubsystemResultView;

    open spec fn view(&self) -> SubsystemResultView {
        match self {
            SubsystemResult::Meta(m) => SubsystemResultView::Meta(*m),
            SubsystemResult::Core(c) => SubsystemResultView::Core(c@),
            SubsystemResult::Behaviors(b) => SubsystemResultView::Behaviors(b@),
            SubsystemResult::Keymap(k) => SubsystemResultView::Keymap(k@),
        }
    }
}

/// The response correlated to a request: the request's id and one result.
#[derive(Debug, Clone, PartialEq, Eq)]
pub struct RequestResponse {
    pub request_id: u32,
    pub result: SubsystemResult,
}

pub struct RequestResponseView {
    pub request_id: u32,
    pub result: SubsystemResultView,
}

impl View for RequestResponse {
    type V = RequestResponseView;

    open spec fn view(&self) -> RequestResponseView {
        RequestResponseView { request_id: self.request_id, result: self.result@ }
    }
}

/// A response envelope: either the response to a request, or an unsolicited
/// notification.
#[derive(Debug, Clone, PartialEq, Eq)]
pub enum Response {
    RequestResponse(RequestResponse),
    Notification(Notification),
}

pub enum ResponseView {
    RequestResponse(RequestResponseView),
    Notification(Seq<u8>),
}

impl View for Response {
    type V = ResponseView;

    open spec fn view(&self) -> ResponseView {
        match self {
            Response::RequestResponse(rr) => ResponseView::RequestResponse(rr@),
            Response::Notification(n) => ResponseView::Notification(n@),
        }
    }
}

impl DeepView for Response {
    type V = ResponseView;

    open spec fn deep_view(&self) -> ResponseView {
        self@
    }
}

} // verus!
