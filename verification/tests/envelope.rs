use zmk_studio_client::envelope::decode_requests;
use zmk_studio_client::envelope::decode_responses;
use zmk_studio_client::envelope::encode_request;
use zmk_studio_client::envelope::encode_response;
use zmk_studio_client::envelope::ProtocolError;
use zmk_studio_client::framing::encode_frame;
use zmk_studio_client::framing::FrameDecoder;
use zmk_studio_client::framing::FramingError;
use zmk_studio_client::messages::AckResult;
use zmk_studio_client::messages::BehaviorBinding;
use zmk_studio_client::messages::BehaviorDetails;
use zmk_studio_client::messages::BehaviorsRequest;
use zmk_studio_client::messages::BehaviorsResult;
use zmk_studio_client::messages::CoreRequest;
use zmk_studio_client::messages::CoreResult;
use zmk_studio_client::messages::DeviceInfo;
use zmk_studio_client::messages::Keymap;
use zmk_studio_client::messages::KeymapRequest;
use zmk_studio_client::messages::KeymapResult;
use zmk_studio_client::messages::Layer;
use zmk_studio_client::messages::MetaResult;
use zmk_studio_client::messages::Notification;
use zmk_studio_client::messages::OpResult;
use zmk_studio_client::messages::PhysicalLayout;
use zmk_studio_client::messages::PhysicalLayouts;
use zmk_studio_client::messages::Request;
use zmk_studio_client::messages::RequestResponse;
use zmk_studio_client::messages::Response;
use zmk_studio_client::messages::SubsystemRequest;
use zmk_studio_client::messages::SubsystemResult;

fn sample_keymap() -> Keymap {
    Keymap {
        layers: vec![
            Layer {
                id: 0,
                name: b"Base".to_vec(),
                bindings: vec![
                    BehaviorBinding { behavior_id: 1, param1: 0x0007_0004, param2: 0 },
                    BehaviorBinding { behavior_id: -3, param1: 9, param2: 8 },
                ],
            },
            Layer { id: 4, name: b"Nav".to_vec(), bindings: vec![] },
        ],
    }
}

#[test]
fn requests_round_trip_over_the_wire() {
    let samples = vec![
        Request { request_id: 0, subsystem: SubsystemRequest::Core(CoreRequest::GetDeviceInfo) },
        Request { request_id: 7, subsystem: SubsystemRequest::Core(CoreRequest::GetLockState) },
        Request {
            request_id: 1,
            subsystem: SubsystemRequest::Behaviors(BehaviorsRequest::GetBehaviorDetails {
                behavior_id: 42,
            }),
        },
        Request {
            request_id: 2,
            subsystem: SubsystemRequest::Keymap(KeymapRequest::SetLayerBinding {
                layer_id: 1,
                key_position: -4,
                binding: BehaviorBinding { behavior_id: 5, param1: 6, param2: 7 },
            }),
        },
        Request {
            request_id: 3,
            subsystem: SubsystemRequest::Keymap(KeymapRequest::SetLayerProps {
                layer_id: 2,
                name: b"Sym".to_vec(),
            }),
        },
        Request {
            request_id: 0xFFFF_FFFF,
            subsystem: SubsystemRequest::Keymap(KeymapRequest::MoveLayer {
                start_index: 1,
                dest_index: 0,
            }),
        },
    ];
    let mut stream: Vec<u8> = Vec::new();
    for r in &samples {
        stream.extend(encode_request(r));
    }
    let mut decoder = FrameDecoder::new();
    let decoded = decode_requests(&mut decoder, &stream).expect("decode should succeed");
    assert_eq!(decoded, samples);
}

#[test]
fn responses_round_trip_over_the_wire() {
    let samples = vec![
        Response::Notification(Notification { payload: vec![1, 2, 3] }),
        Response::RequestResponse(RequestResponse {
            request_id: 5,
            result: SubsystemResult::Core(CoreResult::DeviceInfo(DeviceInfo {
                name: b"Planck".to_vec(),
                serial_number: vec![0xAA, 0xBB],
            })),
        }),
        Response::RequestResponse(RequestResponse {
            request_id: 6,
            result: SubsystemResult::Behaviors(BehaviorsResult::ListAllBehaviors {
                behaviors: vec![3, 7, 9],
            }),
        }),
        Response::RequestResponse(RequestResponse {
            request_id: 7,
            result: SubsystemResult::Behaviors(BehaviorsResult::GetBehaviorDetails(
                BehaviorDetails { behavior_id: 3, display_name: b"Key Press".to_vec() },
            )),
        }),
        Response::RequestResponse(RequestResponse {
            request_id: 8,
            result: SubsystemResult::Keymap(KeymapResult::GetKeymap(sample_keymap())),
        }),
        Response::RequestResponse(RequestResponse {
            request_id: 9,
            result: SubsystemResult::Keymap(KeymapResult::GetPhysicalLayouts(PhysicalLayouts {
                layouts: vec![
                    PhysicalLayout { name: b"Grid".to_vec() },
                    PhysicalLayout { name: b"MIT".to_vec() },
                ],
                active_layout_index: 1,
            })),
        }),
        Response::RequestResponse(RequestResponse {
            request_id: 10,
            result: SubsystemResult::Keymap(KeymapResult::SaveChanges(AckResult::Rejected {
                code: 2,
            })),
        }),
        Response::RequestResponse(RequestResponse {
            request_id: 11,
            result: SubsystemResult::Keymap(KeymapResult::MoveLayer(OpResult::Accepted(
                sample_keymap(),
            ))),
        }),
        Response::RequestResponse(RequestResponse {
            request_id: 12,
            result: SubsystemResult::Meta(MetaResult::SimpleError { code: 1 }),
        }),
    ];
    let mut stream: Vec<u8> = Vec::new();
    for r in &samples {
        stream.extend(encode_response(r));
    }
    let mut decoder = FrameDecoder::new();
    let decoded = decode_responses(&mut decoder, &stream).expect("decode should succeed");
    assert_eq!(decoded, samples);
}

#[test]
fn malformed_frame_payloads_are_decode_errors() {
    let garbage = encode_frame(&[0xEE_u8, 0xEE, 0xEE]);
    let mut decoder = FrameDecoder::new();
    let err = decode_responses(&mut decoder, &garbage).unwrap_err();
    assert_eq!(err, ProtocolError::Decode);
}

#[test]
fn framing_errors_are_reported_as_framing() {
    let mut decoder = FrameDecoder::new();
    let err = decode_responses(&mut decoder, &[0x00_u8]).unwrap_err();
    assert_eq!(err, ProtocolError::Framing(FramingError::ExpectedStartOfFrame));
}

#[test]
fn trailing_bytes_in_a_frame_are_malformed() {
    let request = Request {
        request_id: 1,
        subsystem: SubsystemRequest::Core(CoreRequest::GetDeviceInfo),
    };
    let framed = encode_request(&request);
    // Re-frame the payload with one extra byte appended.
    let mut decoder = FrameDecoder::new();
    let payload = decoder.push(&framed).unwrap().remove(0);
    let mut padded = payload.clone();
    padded.push(0);
    let mut decoder2 = FrameDecoder::new();
    let err = decode_requests(&mut decoder2, &encode_frame(&padded)).unwrap_err();
    assert_eq!(err, ProtocolError::Decode);
}
