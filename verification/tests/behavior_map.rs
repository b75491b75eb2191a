use zmk_studio_client::behavior::decode_behavior;
use zmk_studio_client::behavior::encode_behavior;
use zmk_studio_client::behavior::normalize_display_name;
use zmk_studio_client::behavior::role_from_display_name;
use zmk_studio_client::behavior::Behavior;
use zmk_studio_client::behavior::BehaviorMapError;
use zmk_studio_client::behavior::BehaviorRole;
use zmk_studio_client::behavior::RoleTable;
use zmk_studio_client::keycode::KeyboardCode;
use zmk_studio_client::keycode::KeyCode;
use zmk_studio_client::messages::BehaviorBinding;

fn key(usage: u32) -> KeyCode {
    KeyCode::from_hid_usage(usage)
}

#[test]
fn normalizes_display_names() {
    assert_eq!(normalize_display_name(b"Key Press"), b"key press".to_vec());
    assert_eq!(normalize_display_name(b"Layer-Tap"), b"layer tap".to_vec());
    assert_eq!(normalize_display_name(b"  Grave/Escape  "), b"grave escape".to_vec());
    assert_eq!(normalize_display_name(b"MOMENTARY   layer"), b"momentary layer".to_vec());
    assert_eq!(normalize_display_name(b""), b"".to_vec());
}

#[test]
fn classifies_known_display_names() {
    assert_eq!(role_from_display_name(b"Key Press"), Some(BehaviorRole::KeyPress));
    assert_eq!(role_from_display_name(b"Momentary Layer"), Some(BehaviorRole::MomentaryLayer));
    assert_eq!(role_from_display_name(b"Layer-Tap"), Some(BehaviorRole::LayerTap));
    assert_eq!(role_from_display_name(b"Mod-Tap"), Some(BehaviorRole::ModTap));
    assert_eq!(role_from_display_name(b"Grave/Escape"), Some(BehaviorRole::GraveEscape));
    assert_eq!(role_from_display_name(b"None"), Some(BehaviorRole::NoAction));
    assert_eq!(role_from_display_name(b"Ultra Blinker"), None);
}

#[test]
fn catalog_prefers_the_first_id_for_a_role() {
    let mut table = RoleTable::new();
    table.record(3, b"Key Press");
    table.record(9, b"Key Press");
    table.record(7, b"Momentary Layer");
    assert_eq!(table.role_of(3), Some(BehaviorRole::KeyPress));
    assert_eq!(table.role_of(9), Some(BehaviorRole::KeyPress));
    assert_eq!(table.role_of(7), Some(BehaviorRole::MomentaryLayer));
    assert_eq!(table.id_of(BehaviorRole::KeyPress), Some(3));
    assert_eq!(table.id_of(BehaviorRole::MomentaryLayer), Some(7));
    assert_eq!(table.id_of(BehaviorRole::ModTap), None);
}

#[test]
fn catalog_ignores_repeated_ids_and_unknown_names() {
    let mut table = RoleTable::new();
    table.record(3, b"Key Press");
    table.record(3, b"Momentary Layer");
    table.record(4, b"Something Odd");
    assert_eq!(table.role_of(3), Some(BehaviorRole::KeyPress));
    assert_eq!(table.role_of(4), None);
    assert_eq!(table.id_of(BehaviorRole::MomentaryLayer), None);
}

fn full_table() -> RoleTable {
    let mut table = RoleTable::new();
    let entries: [(u32, &[u8]); 26] = [
        (1, b"Key Press"),
        (2, b"Key Toggle"),
        (3, b"Layer-Tap"),
        (4, b"Mod-Tap"),
        (5, b"Sticky Key"),
        (6, b"Sticky Layer"),
        (7, b"Momentary Layer"),
        (8, b"Toggle Layer"),
        (9, b"To Layer"),
        (10, b"Bluetooth"),
        (11, b"External Power"),
        (12, b"Output Selection"),
        (13, b"Backlight"),
        (14, b"Underglow"),
        (15, b"Mouse Key Press"),
        (16, b"Mouse Move"),
        (17, b"Mouse Scroll"),
        (18, b"Caps Word"),
        (19, b"Key Repeat"),
        (20, b"Reset"),
        (21, b"Bootloader"),
        (22, b"Soft Off"),
        (23, b"Studio Unlock"),
        (24, b"Grave/Escape"),
        (25, b"Transparent"),
        (26, b"None"),
    ];
    for (id, name) in entries {
        table.record(id, name);
    }
    table
}

#[test]
fn behaviors_round_trip_through_raw_bindings() {
    let table = full_table();
    let samples = vec![
        Behavior::KeyPress(key(0x0007_0004)),
        Behavior::KeyToggle(key(0x0007_0029)),
        Behavior::LayerTap { layer_id: 2, tap: key(0x0007_002C) },
        Behavior::ModTap { hold: key(0x0007_00E1), tap: key(0x0007_0004) },
        Behavior::StickyKey(key(0x0007_00E0)),
        Behavior::StickyLayer { layer_id: 1 },
        Behavior::MomentaryLayer { layer_id: 3 },
        Behavior::ToggleLayer { layer_id: 4 },
        Behavior::ToLayer { layer_id: 0 },
        Behavior::Bluetooth { command: 1, value: 2 },
        Behavior::ExternalPower { value: 1 },
        Behavior::OutputSelection { value: 2 },
        Behavior::Backlight { command: 4, value: 9 },
        Behavior::Underglow { command: 2, value: 3 },
        Behavior::MouseKeyPress { value: 1 },
        Behavior::MouseMove { value: 0x0001_0000 },
        Behavior::MouseScroll { value: 0x0000_0001 },
        Behavior::CapsWord,
        Behavior::KeyRepeat,
        Behavior::Reset,
        Behavior::Bootloader,
        Behavior::SoftOff,
        Behavior::StudioUnlock,
        Behavior::GraveEscape,
        Behavior::Transparent,
        Behavior::NoAction,
    ];
    for b in samples {
        let binding = encode_behavior(&b, &table).expect("role is in the table");
        assert!(binding.behavior_id >= 0);
        let role = table.role_of(binding.behavior_id as u32);
        assert_eq!(decode_behavior(binding, role), b);
    }
}

#[test]
fn unknown_ids_decode_to_the_raw_fallback() {
    let table = full_table();
    let binding = BehaviorBinding { behavior_id: 99, param1: 5, param2: 6 };
    assert_eq!(
        decode_behavior(binding, table.role_of(99)),
        Behavior::Raw(binding)
    );
    let negative = BehaviorBinding { behavior_id: -2, param1: 0, param2: 0 };
    assert_eq!(decode_behavior(negative, None), Behavior::Raw(negative));
}

#[test]
fn raw_bindings_pass_through_encoding_unchanged() {
    let table = RoleTable::new();
    let binding = BehaviorBinding { behavior_id: -7, param1: 1, param2: 2 };
    assert_eq!(encode_behavior(&Behavior::Raw(binding), &table), Ok(binding));
}

#[test]
fn missing_roles_are_reported_when_encoding() {
    let mut table = RoleTable::new();
    table.record(3, b"Key Press");
    let err = encode_behavior(&Behavior::MomentaryLayer { layer_id: 1 }, &table).unwrap_err();
    assert_eq!(err, BehaviorMapError::MissingBehaviorRole(BehaviorRole::MomentaryLayer));
}

#[test]
fn oversized_catalog_ids_are_reported_when_encoding() {
    let mut table = RoleTable::new();
    table.record(0x8000_0000, b"Key Press");
    let err = encode_behavior(&Behavior::KeyPress(key(0x0007_0004)), &table).unwrap_err();
    assert_eq!(
        err,
        BehaviorMapError::BehaviorIdOutOfRange { behavior_id: 0x8000_0000 }
    );
}

#[test]
fn decodes_key_press_operands() {
    let binding = BehaviorBinding { behavior_id: 1, param1: 0x0007_0004, param2: 0 };
    assert_eq!(
        decode_behavior(binding, Some(BehaviorRole::KeyPress)),
        Behavior::KeyPress(KeyCode::Keyboard(KeyboardCode::UsageId(4)))
    );
}
