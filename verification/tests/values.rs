use zmk_studio_client::hid_usage::HidUsage;
use zmk_studio_client::hid_usage::MOD_LALT;
use zmk_studio_client::hid_usage::MOD_LSFT;
use zmk_studio_client::hid_usage::MOD_RGUI;
use zmk_studio_client::keycode::is_keyboard_usage;
use zmk_studio_client::keycode::KeyboardCode;
use zmk_studio_client::keycode::KeyCode;
use zmk_studio_client::keycode::ModifierKey;
use zmk_studio_client::keycode::ZmkKeycode;

#[test]
fn packs_and_unpacks_plain_usages() {
    let u = zmk_studio_client::keycode::HidUsage { page: 0x07, id: 0x04 };
    assert_eq!(u.encode(), 0x0007_0004);
    assert_eq!(zmk_studio_client::keycode::HidUsage::decode(0x0007_0004), u);
}

#[test]
fn classifies_pages_into_keycodes() {
    assert_eq!(
        KeyCode::from_hid_usage(0x0007_0004),
        KeyCode::Keyboard(KeyboardCode::UsageId(4))
    );
    assert_eq!(KeyCode::from_hid_usage(0x000C_00E9), KeyCode::Consumer(0xE9));
    assert_eq!(KeyCode::from_hid_usage(0x0001_0082), KeyCode::GenericDesktop(0x82));
    assert_eq!(
        KeyCode::from_hid_usage(0x0007_00E0),
        KeyCode::Keyboard(KeyboardCode::Modifier(ModifierKey::LeftControl))
    );
    assert_eq!(
        KeyCode::from_hid_usage(0x0005_0001),
        KeyCode::Other(zmk_studio_client::keycode::HidUsage { page: 5, id: 1 })
    );
}

#[test]
fn keycode_round_trips_through_the_packed_value() {
    let samples = [
        KeyCode::Keyboard(KeyboardCode::UsageId(4)),
        KeyCode::Keyboard(KeyboardCode::Modifier(ModifierKey::RightGui)),
        KeyCode::Consumer(0x00EA),
        KeyCode::GenericDesktop(0x0081),
        KeyCode::Other(zmk_studio_client::keycode::HidUsage { page: 9, id: 77 }),
    ];
    for k in samples {
        assert_eq!(KeyCode::from_hid_usage(k.to_hid_usage()), k);
    }
}

#[test]
fn modifier_usage_ids_round_trip() {
    for id in 224u16..=231 {
        let m = ModifierKey::from_usage_id(id).expect("modifier id");
        assert_eq!(m.usage_id(), id);
    }
    assert_eq!(ModifierKey::from_usage_id(223), None);
    assert_eq!(ModifierKey::from_usage_id(232), None);
}

#[test]
fn recognizes_keyboard_usages() {
    assert!(is_keyboard_usage(0x0007_0004));
    assert!(!is_keyboard_usage(0x000C_0004));
}

#[test]
fn raw_keycodes_carry_their_value() {
    let z = ZmkKeycode::from_raw(0x0007_0029);
    assert_eq!(z.raw(), 0x0007_0029);
    assert_eq!(z.to_key_code(), KeyCode::Keyboard(KeyboardCode::UsageId(0x29)));
}

#[test]
fn decodes_encoded_usages_with_modifiers() {
    let u = HidUsage::from_encoded(0x0200_0004);
    assert_eq!(u.page(), 0x07);
    assert_eq!(u.id(), 4);
    assert_eq!(u.modifiers(), 0x02);

    let explicit = HidUsage::from_encoded(0x020C_00E9);
    assert_eq!(explicit.page(), 0x0C);
    assert_eq!(explicit.id(), 0xE9);
    assert_eq!(explicit.modifiers(), 0x02);
}

#[test]
fn packs_usages_with_modifiers() {
    let u = HidUsage::from_parts(0x07, 4, 0x81);
    assert_eq!(u.to_hid_usage(), 0x8107_0004);
    assert_eq!(u.base().to_hid_usage(), 0x0007_0004);
    assert_eq!(u.base().modifiers(), 0);
}

#[test]
fn lists_modifier_labels_in_order() {
    let u = HidUsage::from_parts(0x07, 4, MOD_LSFT | MOD_LALT | MOD_RGUI);
    assert_eq!(u.modifier_labels(), vec!["LSFT", "LALT", "RGUI"]);
    let none = HidUsage::from_parts(0x07, 4, 0);
    assert_eq!(none.modifier_labels(), Vec::<&str>::new());
}
