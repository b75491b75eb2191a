use zmk_studio_client::behavior::Behavior;
use zmk_studio_client::bridge::PacketBuffer;
use zmk_studio_client::client::ClientError;
use zmk_studio_client::client::LockState;
use zmk_studio_client::client::MemoryChannel;
use zmk_studio_client::client::MetaError;
use zmk_studio_client::client::StudioClient;
use zmk_studio_client::envelope::decode_requests;
use zmk_studio_client::envelope::encode_response;
use zmk_studio_client::envelope::ProtocolError;
use zmk_studio_client::framing::FrameDecoder;
use zmk_studio_client::framing::FramingError;
use zmk_studio_client::keycode::KeyboardCode;
use zmk_studio_client::keycode::KeyCode;
use zmk_studio_client::messages::BehaviorBinding;
use zmk_studio_client::messages::BehaviorDetails;
use zmk_studio_client::messages::BehaviorsResult;
use zmk_studio_client::messages::CoreResult;
use zmk_studio_client::messages::DeviceInfo;
use zmk_studio_client::messages::Keymap;
use zmk_studio_client::messages::KeymapRequest;
use zmk_studio_client::messages::KeymapResult;
use zmk_studio_client::messages::Layer;
use zmk_studio_client::messages::MetaResult;
use zmk_studio_client::messages::Notification;
use zmk_studio_client::messages::Request;
use zmk_studio_client::messages::RequestResponse;
use zmk_studio_client::messages::Response;
use zmk_studio_client::messages::AckResult;
use zmk_studio_client::messages::AddLayerDetails;
use zmk_studio_client::messages::OpResult;
use zmk_studio_client::messages::PhysicalLayout;
use zmk_studio_client::messages::PhysicalLayouts;
use zmk_studio_client::messages::SubsystemRequest;
use zmk_studio_client::messages::SubsystemResult;

fn rr(request_id: u32, result: SubsystemResult) -> Vec<u8> {
    encode_response(&Response::RequestResponse(RequestResponse { request_id, result }))
}

fn notification(payload: &[u8]) -> Vec<u8> {
    encode_response(&Response::Notification(Notification { payload: payload.to_vec() }))
}

fn behaviors_list(request_id: u32, ids: &[u32]) -> Vec<u8> {
    rr(
        request_id,
        SubsystemResult::Behaviors(BehaviorsResult::ListAllBehaviors { behaviors: ids.to_vec() }),
    )
}

fn behavior_details(request_id: u32, behavior_id: u32, name: &[u8]) -> Vec<u8> {
    rr(
        request_id,
        SubsystemResult::Behaviors(BehaviorsResult::GetBehaviorDetails(BehaviorDetails {
            behavior_id,
            display_name: name.to_vec(),
        })),
    )
}

fn keymap_response(request_id: u32, keymap: Keymap) -> Vec<u8> {
    rr(request_id, SubsystemResult::Keymap(KeymapResult::GetKeymap(keymap)))
}

fn sample_keymap() -> Keymap {
    Keymap {
        layers: vec![Layer {
            id: 1,
            name: b"Base".to_vec(),
            bindings: vec![
                BehaviorBinding { behavior_id: 3, param1: 0x0007_0004, param2: 0 },
                BehaviorBinding { behavior_id: 99, param1: 5, param2: 6 },
            ],
        }],
    }
}

/// The catalog-build exchange for a device reporting ids 3 ("Key Press")
/// and 7 ("Momentary Layer"), answering request ids 0..=2.
fn catalog_script() -> Vec<u8> {
    let mut inbox = Vec::new();
    inbox.extend(behaviors_list(0, &[3, 7]));
    inbox.extend(behavior_details(1, 3, b"Key Press"));
    inbox.extend(behavior_details(2, 7, b"Momentary Layer"));
    inbox
}

#[test]
fn call_skips_queued_notifications_and_returns_the_matching_response() {
    let mut inbox = Vec::new();
    inbox.extend(notification(b"first"));
    inbox.extend(notification(b"second"));
    inbox.extend(rr(0, SubsystemResult::Core(CoreResult::ResetSettings { ok: true })));
    let mut client = StudioClient::new(MemoryChannel::new(inbox));

    assert_eq!(client.reset_settings(), Ok(true));

    let a = client.next_notification().expect("first notification kept");
    let b = client.next_notification().expect("second notification kept");
    assert_eq!(a.payload, b"first".to_vec());
    assert_eq!(b.payload, b"second".to_vec());
    assert!(client.next_notification().is_none());
}

#[test]
fn mismatched_request_ids_are_a_protocol_error() {
    // Five successful exchanges burn request ids 0 through 4.
    let mut inbox = Vec::new();
    for id in 0..5 {
        inbox.extend(rr(id, SubsystemResult::Core(CoreResult::ResetSettings { ok: false })));
    }
    inbox.extend(notification(b"late"));
    inbox.extend(rr(6, SubsystemResult::Core(CoreResult::ResetSettings { ok: true })));
    let mut client = StudioClient::new(MemoryChannel::new(inbox));
    for _ in 0..5 {
        client.reset_settings().expect("scripted response");
    }

    let err = client.reset_settings().unwrap_err();
    assert_eq!(err, ClientError::UnexpectedRequestId { expected: 5, actual: 6 });

    // The notification seen on the way is still delivered, in order.
    let n = client.next_notification().expect("notification kept");
    assert_eq!(n.payload, b"late".to_vec());
}

#[test]
fn blocking_read_preserves_read_ahead_responses() {
    let mut inbox = Vec::new();
    inbox.extend(rr(0, SubsystemResult::Keymap(KeymapResult::GetKeymap(sample_keymap()))));
    inbox.extend(notification(b"event"));
    let mut client = StudioClient::new(MemoryChannel::new(inbox));

    let n = client.read_notification_blocking().expect("notification arrives");
    assert_eq!(n.payload, b"event".to_vec());

    // The response read ahead of demand answers the next call.
    assert_eq!(client.get_keymap(), Ok(sample_keymap()));
}

#[test]
fn meta_results_preempt_success() {
    let mut inbox = Vec::new();
    inbox.extend(rr(0, SubsystemResult::Meta(MetaResult::NoResponse)));
    inbox.extend(rr(1, SubsystemResult::Meta(MetaResult::SimpleError { code: 1 })));
    inbox.extend(rr(2, SubsystemResult::Meta(MetaResult::SimpleError { code: 9 })));
    let mut client = StudioClient::new(MemoryChannel::new(inbox));

    assert_eq!(client.reset_settings(), Err(ClientError::NoResponse));
    assert_eq!(client.reset_settings(), Err(ClientError::Meta(MetaError::UnlockRequired)));
    assert_eq!(client.reset_settings(), Err(ClientError::UnknownEnumValue { value: 9 }));
}

#[test]
fn end_of_stream_is_a_fatal_error() {
    let mut client = StudioClient::new(MemoryChannel::new(Vec::new()));
    assert_eq!(client.get_keymap(), Err(ClientError::EndOfStream));
}

#[test]
fn framing_garbage_is_a_protocol_error() {
    let mut inbox = vec![0x42_u8];
    inbox.extend(rr(0, SubsystemResult::Core(CoreResult::ResetSettings { ok: true })));
    let mut client = StudioClient::new(MemoryChannel::new(inbox));
    assert_eq!(
        client.reset_settings(),
        Err(ClientError::Protocol(ProtocolError::Framing(
            FramingError::ExpectedStartOfFrame
        )))
    );
}

#[test]
fn wrong_subsystem_in_the_reply_is_reported() {
    let inbox = rr(0, SubsystemResult::Core(CoreResult::ResetSettings { ok: true }));
    let mut client = StudioClient::new(MemoryChannel::new(inbox));
    assert_eq!(client.get_keymap(), Err(ClientError::UnexpectedSubsystem));
}

#[test]
fn wrong_response_type_in_the_subsystem_is_reported() {
    let inbox = rr(0, SubsystemResult::Core(CoreResult::ResetSettings { ok: true }));
    let mut client = StudioClient::new(MemoryChannel::new(inbox));
    assert_eq!(client.get_device_info(), Err(ClientError::MissingResponseType));
}

#[test]
fn decodes_device_info_and_lock_state() {
    let mut inbox = Vec::new();
    inbox.extend(rr(
        0,
        SubsystemResult::Core(CoreResult::DeviceInfo(DeviceInfo {
            name: b"Corne".to_vec(),
            serial_number: vec![1, 2, 3],
        })),
    ));
    inbox.extend(rr(1, SubsystemResult::Core(CoreResult::LockState { raw: 2 })));
    inbox.extend(rr(2, SubsystemResult::Core(CoreResult::LockState { raw: 7 })));
    let mut client = StudioClient::new(MemoryChannel::new(inbox));

    let info = client.get_device_info().expect("device info");
    assert_eq!(info.name, b"Corne".to_vec());
    assert_eq!(info.serial_number, vec![1, 2, 3]);
    assert_eq!(client.get_lock_state(), Ok(LockState::Unlocked));
    assert_eq!(client.get_lock_state(), Err(ClientError::UnknownEnumValue { value: 7 }));
}

#[test]
fn device_failure_codes_become_typed_errors() {
    let mut inbox = Vec::new();
    inbox.extend(rr(
        0,
        SubsystemResult::Keymap(KeymapResult::SaveChanges(
            zmk_studio_client::messages::AckResult::Rejected { code: 3 },
        )),
    ));
    let mut client = StudioClient::new(MemoryChannel::new(inbox));
    assert_eq!(client.save_changes(), Err(ClientError::SaveChangesFailed { code: 3 }));
}

#[test]
fn set_key_at_issues_the_catalog_binding() {
    let mut inbox = catalog_script();
    inbox.extend(rr(3, SubsystemResult::Keymap(KeymapResult::SetLayerBinding { code: 0 })));
    let mut client = StudioClient::new(MemoryChannel::new(inbox));

    let tap = KeyCode::from_hid_usage(0x0007_0004);
    client
        .set_key_at(0, 0, Behavior::KeyPress(tap))
        .expect("binding write accepted");

    // Decode everything the engine wrote and inspect the final request.
    let channel = client.into_inner();
    let mut decoder = FrameDecoder::new();
    let sent: Vec<Request> =
        decode_requests(&mut decoder, channel.sent_bytes()).expect("requests decode");
    assert_eq!(sent.len(), 4);
    assert_eq!(
        sent[3],
        Request {
            request_id: 3,
            subsystem: SubsystemRequest::Keymap(KeymapRequest::SetLayerBinding {
                layer_id: 0,
                key_position: 0,
                binding: BehaviorBinding { behavior_id: 3, param1: 0x0007_0004, param2: 0 },
            }),
        }
    );
}

#[test]
fn set_key_at_reports_missing_roles() {
    let inbox = catalog_script();
    let mut client = StudioClient::new(MemoryChannel::new(inbox));
    let err = client
        .set_key_at(0, 0, Behavior::ToggleLayer { layer_id: 1 })
        .unwrap_err();
    assert_eq!(
        err,
        ClientError::MissingBehaviorRole(zmk_studio_client::behavior::BehaviorRole::ToggleLayer)
    );
}

#[test]
fn get_key_at_decodes_typed_and_raw_bindings() {
    let mut inbox = catalog_script();
    inbox.extend(keymap_response(3, sample_keymap()));
    inbox.extend(keymap_response(4, sample_keymap()));
    let mut client = StudioClient::new(MemoryChannel::new(inbox));

    assert_eq!(
        client.get_key_at(1, 0),
        Ok(Behavior::KeyPress(KeyCode::Keyboard(KeyboardCode::UsageId(4))))
    );
    // Behavior id 99 has no role: the raw fallback, never an error.
    assert_eq!(
        client.get_key_at(1, 1),
        Ok(Behavior::Raw(BehaviorBinding { behavior_id: 99, param1: 5, param2: 6 }))
    );
}

#[test]
fn get_key_at_rejects_bad_addresses() {
    let mut inbox = catalog_script();
    inbox.extend(keymap_response(3, sample_keymap()));
    inbox.extend(keymap_response(4, sample_keymap()));
    inbox.extend(keymap_response(5, sample_keymap()));
    let mut client = StudioClient::new(MemoryChannel::new(inbox));

    assert_eq!(
        client.get_key_at(2, 0),
        Err(ClientError::InvalidLayerOrPosition { layer_id: 2, key_position: 0 })
    );
    assert_eq!(
        client.get_key_at(1, -1),
        Err(ClientError::InvalidLayerOrPosition { layer_id: 1, key_position: -1 })
    );
    assert_eq!(
        client.get_key_at(1, 2),
        Err(ClientError::InvalidLayerOrPosition { layer_id: 1, key_position: 2 })
    );
}

#[test]
fn layer_management_calls_map_results_and_failure_codes() {
    let layouts = PhysicalLayouts {
        layouts: vec![PhysicalLayout { name: b"Grid".to_vec() }],
        active_layout_index: 0,
    };
    let added = AddLayerDetails { index: 1, layer: sample_keymap().layers[0].clone() };

    let mut inbox = Vec::new();
    inbox.extend(rr(0, SubsystemResult::Keymap(KeymapResult::GetPhysicalLayouts(layouts.clone()))));
    inbox.extend(rr(1, SubsystemResult::Keymap(KeymapResult::CheckUnsavedChanges { unsaved: true })));
    inbox.extend(rr(2, SubsystemResult::Keymap(KeymapResult::DiscardChanges { discarded: true })));
    inbox.extend(rr(
        3,
        SubsystemResult::Keymap(KeymapResult::SetActivePhysicalLayout(OpResult::Rejected {
            code: 1,
        })),
    ));
    inbox.extend(rr(4, SubsystemResult::Keymap(KeymapResult::MoveLayer(OpResult::Accepted(sample_keymap())))));
    inbox.extend(rr(5, SubsystemResult::Keymap(KeymapResult::AddLayer(OpResult::Accepted(added.clone())))));
    inbox.extend(rr(6, SubsystemResult::Keymap(KeymapResult::RemoveLayer(AckResult::Rejected { code: 2 }))));
    inbox.extend(rr(
        7,
        SubsystemResult::Keymap(KeymapResult::RestoreLayer(OpResult::Accepted(
            sample_keymap().layers[0].clone(),
        ))),
    ));
    inbox.extend(rr(8, SubsystemResult::Keymap(KeymapResult::SetLayerProps { code: 3 })));
    inbox.extend(rr(9, SubsystemResult::Keymap(KeymapResult::SetLayerBinding { code: 2 })));
    let mut client = StudioClient::new(MemoryChannel::new(inbox));

    assert_eq!(client.get_physical_layouts(), Ok(layouts));
    assert_eq!(client.check_unsaved_changes(), Ok(true));
    assert_eq!(client.discard_changes(), Ok(true));
    assert_eq!(
        client.set_active_physical_layout(2),
        Err(ClientError::SetActivePhysicalLayoutFailed { code: 1 })
    );
    assert_eq!(client.move_layer(1, 0), Ok(sample_keymap()));
    assert_eq!(client.add_layer(), Ok(added));
    assert_eq!(client.remove_layer(0), Err(ClientError::RemoveLayerFailed { code: 2 }));
    assert_eq!(client.restore_layer(1, 0), Ok(sample_keymap().layers[0].clone()));
    assert_eq!(
        client.set_layer_props(0, b"Sym".to_vec()),
        Err(ClientError::SetLayerPropsFailed { code: 3 })
    );
    assert_eq!(
        client.set_layer_binding(0, 0, BehaviorBinding { behavior_id: 1, param1: 0, param2: 0 }),
        Err(ClientError::SetLayerBindingFailed { code: 2 })
    );
}

#[test]
fn notifications_can_arrive_in_pieces() {
    // Deliver the scripted bytes one at a time through a fresh feed, so the
    // decoder sees every chunking.
    let mut whole = Vec::new();
    whole.extend(notification(b"n1"));
    whole.extend(rr(0, SubsystemResult::Core(CoreResult::ResetSettings { ok: true })));
    let mut client = StudioClient::with_read_buffer(MemoryChannel::new(whole), 1);

    assert_eq!(client.reset_settings(), Ok(true));
    let n = client.next_notification().expect("notification kept");
    assert_eq!(n.payload, b"n1".to_vec());
}

#[test]
fn packet_buffer_delivers_in_order_and_retains_the_remainder() {
    let mut buffer = PacketBuffer::new();
    assert!(buffer.is_empty());
    buffer.push_packet(&[1, 2, 3]);
    buffer.push_packet(&[4, 5]);
    assert!(!buffer.is_empty());

    assert_eq!(buffer.take_up_to(2), vec![1, 2]);
    assert_eq!(buffer.take_up_to(0), Vec::<u8>::new());
    assert_eq!(buffer.take_up_to(10), vec![3, 4, 5]);
    assert!(buffer.is_empty());
    assert_eq!(buffer.take_up_to(4), Vec::<u8>::new());
}
