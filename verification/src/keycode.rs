//! Helpers for HID usage encoding and typed keycodes.
//!
//! A HID usage is a (page, id) pair packed into a 32-bit wire value; a
//! [`KeyCode`] classifies the pages the firmware commonly uses.

use vstd::prelude::*;

verus! {

pub const HID_USAGE_PAGE_GENERIC_DESKTOP: u16 = 0x01;
pub const HID_USAGE_PAGE_KEYBOARD: u16 = 0x07;
pub const HID_USAGE_PAGE_CONSUMER: u16 = 0x0C;

/// A bare HID usage: a page and an id within that page.
#[derive(Debug, Clone, Copy, PartialEq, Eq, Hash, Structural)]
pub struct HidUsage {
    pub page: u16,
    pub id: u16,
}

impl HidUsage {
    /// The packed 32-bit wire value: page in bits 31:16, id in bits 15:0.
    pub open spec fn encode_spec(self) -> u32 {
        ((self.page as u32) << 16) | (self.id as u32)
    }

    /// The usage a packed value denotes: only the low byte of the page
    /// field is kept, as the firmware reserves the top byte.
    pub open spec fn decode_spec(encoded: u32) -> HidUsage {
        HidUsage { page: (((encoded >> 16) & 0xFF) as u16), id: ((encoded & 0xFFFF) as u16) }
    }

    pub fn encode(self) -> (r: u32)
        ensures
            r == self.encode_spec(),
    {
        ((self.page as u32) << 16) | (self.id as u32)
    }

    pub fn decode(encoded: u32) -> (r: Self)
        ensures
            r == Self::decode_spec(encoded),
    {
        Self { page: (((encoded >> 16) & 0xFF) as u16), id: ((encoded & 0xFFFF) as u16) }
    }
}

/// The eight HID keyboard-page modifier keys, usage ids 224 through 231.
#[derive(Debug, Clone, Copy, PartialEq, Eq, Hash, Structural)]
pub enum ModifierKey {
    LeftControl,
    LeftShift,
    LeftAlt,
    LeftGui,
    RightControl,
    RightShift,
    RightAlt,
    RightGui,
}

impl ModifierKey {
    /// The keyboard-page usage id of this modifier.
    pub open spec fn usage_id_spec(self) -> u16 {
        match self {
            ModifierKey::LeftControl => 224,
            ModifierKey::LeftShift => 225,
            ModifierKey::LeftAlt => 226,
            ModifierKey::LeftGui => 227,
            ModifierKey::RightControl => 228,
            ModifierKey::RightShift => 229,
            ModifierKey::RightAlt => 230,
            ModifierKey::RightGui => 231,
        }
    }

    /// The modifier a keyboard-page usage id denotes, if any.
    pub open spec fn from_usage_id_spec(id: u16) -> Option<ModifierKey> {
        if id == 224 {
            Some(ModifierKey::LeftControl)
        } else if id == 225 {
            Some(ModifierKey::LeftShift)
        } else if id == 226 {
            Some(ModifierKey::LeftAlt)
        } else if id == 227 {
            Some(ModifierKey::LeftGui)
        } else if id == 228 {
            Some(ModifierKey::RightControl)
        } else if id == 229 {
            Some(ModifierKey::RightShift)
        } else if id == 230 {
            Some(ModifierKey::RightAlt)
        } else if id == 231 {
            Some(ModifierKey::RightGui)
        } else {
            None
        }
    }

    pub fn usage_id(self) -> (r: u16)
        ensures
            r == self.usage_id_spec(),
    {
        match self {
            ModifierKey::LeftControl => 224,
            ModifierKey::LeftShift => 225,
            ModifierKey::LeftAlt => 226,
            ModifierKey::LeftGui => 227,
            ModifierKey::RightControl => 228,
            ModifierKey::RightShift => 229,
            ModifierKey::RightAlt => 230,
            ModifierKey::RightGui => 231,
        }
    }

    pub fn from_usage_id(id: u16) -> (r: Option<Self>)
        ensures
            r == Self::from_usage_id_spec(id),
    {
        match id {
            224 => Some(ModifierKey::LeftControl),
            225 => Some(ModifierKey::LeftShift),
            226 => Some(ModifierKey::LeftAlt),
            227 => Some(ModifierKey::LeftGui),
            228 => Some(ModifierKey::RightControl),
            229 => Some(ModifierKey::RightShift),
            230 => Some(ModifierKey::RightAlt),
            231 => Some(ModifierKey::RightGui),
            _ => None,
        }
    }
}

/// A keyboard-page usage: either one of the modifier keys or a plain usage id.
#[derive(Debug, Clone, Copy, PartialEq, Eq, Hash, Structural)]
pub enum KeyboardCode {
    Modifier(ModifierKey),
    UsageId(u16),
}

impl KeyboardCode {
    pub open spec fn usage_id_spec(self) -> u16 {
        match self {
            KeyboardCode::Modifier(m) => m.usage_id_spec(),
            KeyboardCode::UsageId(id) => id,
        }
    }

    /// The classification of a keyboard-page usage id: modifier ids become
    /// the [`KeyboardCode::Modifier`] variant, all others stay plain.
    pub open spec fn from_usage_id_spec(id: u16) -> KeyboardCode {
        match ModifierKey::from_usage_id_spec(id) {
            Some(m) => KeyboardCode::Modifier(m),
            None => KeyboardCode::UsageId(id),
        }
    }

    pub fn usage_id(self) -> (r: u16)
        ensures
            r == self.usage_id_spec(),
    {
        match self {
            KeyboardCode::Modifier(m) => m.usage_id(),
            KeyboardCode::UsageId(id) => id,
        }
    }

    pub fn from_usage_id(id: u16) -> (r: Self)
        ensures
            r == Self::from_usage_id_spec(id),
    {
        if let Some(modifier) = ModifierKey::from_usage_id(id) {
            return KeyboardCode::Modifier(modifier);
        }
        KeyboardCode::UsageId(id)
    }
}

/// A typed keycode: a HID usage classified by the pages the firmware uses.
#[derive(Debug, Clone, Copy, PartialEq, Eq, Hash, Structural)]
pub enum KeyCode {
    Keyboard(KeyboardCode),
    Consumer(u16),
    GenericDesktop(u16),
    Other(HidUsage),
}

impl KeyCode {
    pub open spec fn to_hid_usage_spec(self) -> u32 {
        match self {
            KeyCode::Keyboard(kbd) => (HidUsage {
                page: HID_USAGE_PAGE_KEYBOARD,
                id: kbd.usage_id_spec(),
            }).encode_spec(),
            KeyCode::Consumer(id) => (HidUsage {
                page: HID_USAGE_PAGE_CONSUMER,
                id,
            }).encode_spec(),
            KeyCode::GenericDesktop(id) => (HidUsage {
                page: HID_USAGE_PAGE_GENERIC_DESKTOP,
                id,
            }).encode_spec(),
            KeyCode::Other(raw) => raw.encode_spec(),
        }
    }

    pub open spec fn from_hid_usage_spec(encoded: u32) -> KeyCode {
        let raw = HidUsage::decode_spec(encoded);
        if raw.page == HID_USAGE_PAGE_KEYBOARD {
            KeyCode::Keyboard(KeyboardCode::from_usage_id_spec(raw.id))
        } else if raw.page == HID_USAGE_PAGE_CONSUMER {
            KeyCode::Consumer(raw.id)
        } else if raw.page == HID_USAGE_PAGE_GENERIC_DESKTOP {
            KeyCode::GenericDesktop(raw.id)
        } else {
            KeyCode::Other(raw)
        }
    }

    /// The packed 32-bit wire value of this keycode.
    pub fn to_hid_usage(self) -> (r: u32)
        ensures
            r == self.to_hid_usage_spec(),
    {
        match self {
            KeyCode::Keyboard(kbd) => HidUsage {
                page: HID_USAGE_PAGE_KEYBOARD,
                id: kbd.usage_id(),
            }.encode(),
            KeyCode::Consumer(id) => HidUsage { page: HID_USAGE_PAGE_CONSUMER, id }.encode(),
            KeyCode::GenericDesktop(id) => HidUsage {
                page: HID_USAGE_PAGE_GENERIC_DESKTOP,
                id,
            }.encode(),
            KeyCode::Other(raw) => raw.encode(),
        }
    }

    /// The typed keycode a packed 32-bit wire value denotes.
    pub fn from_hid_usage(encoded: u32) -> (r: Self)
        ensures
            r == Self::from_hid_usage_spec(encoded),
    {
        let raw = HidUsage::decode(encoded);
        if raw.page == HID_USAGE_PAGE_KEYBOARD {
            KeyCode::Keyboard(KeyboardCode::from_usage_id(raw.id))
        } else if raw.page == HID_USAGE_PAGE_CONSUMER {
            KeyCode::Consumer(raw.id)
        } else if raw.page == HID_USAGE_PAGE_GENERIC_DESKTOP {
            KeyCode::GenericDesktop(raw.id)
        } else {
            KeyCode::Other(raw)
        }
    }

    /// A keycode is canonical when re-classifying its packed value yields it
    /// back: its page fits the byte the wire format keeps, and a usage that a
    /// more specific variant would represent is not hidden in a plainer one.
    pub open spec fn is_canonical(self) -> bool {
        match self {
            KeyCode::Keyboard(KeyboardCode::Modifier(_)) => true,
            KeyCode::Keyboard(KeyboardCode::UsageId(id)) => ModifierKey::from_usage_id_spec(id)
                is None,
            KeyCode::Consumer(_) => true,
            KeyCode::GenericDesktop(_) => true,
            KeyCode::Other(raw) => raw.page <= 0xFF && raw.page != HID_USAGE_PAGE_KEYBOARD
                && raw.page != HID_USAGE_PAGE_CONSUMER && raw.page
                != HID_USAGE_PAGE_GENERIC_DESKTOP,
        }
    }
}

/// Whether a packed usage value lies on the HID keyboard page.
pub fn is_keyboard_usage(encoded: u32) -> (r: bool)
    ensures
        r == (HidUsage::decode_spec(encoded).page == HID_USAGE_PAGE_KEYBOARD),
{
    HidUsage::decode(encoded).page == HID_USAGE_PAGE_KEYBOARD
}

/// A raw 32-bit keycode value in the firmware's packed HID usage format.
#[derive(Debug, Clone, Copy, PartialEq, Eq, Hash, Structural)]
pub struct ZmkKeycode(u32);

impl ZmkKeycode {
    pub closed spec fn raw_spec(self) -> u32 {
        self.0
    }

    pub fn from_raw(raw: u32) -> (r: Self)
        ensures
            r.raw_spec() == raw,
    {
        ZmkKeycode(raw)
    }

    pub fn raw(self) -> (r: u32)
        ensures
            r == self.raw_spec(),
    {
        self.0
    }

    /// The typed classification of this raw keycode value.
    pub fn to_key_code(self) -> (r: KeyCode)
        ensures
            r == KeyCode::from_hid_usage_spec(self.raw_spec()),
    {
        KeyCode::from_hid_usage(self.0)
    }
}

/// Packing and re-classifying a canonical keycode yields it back; with the
/// modifier byte of the wire value clear, the packed value round-trips too.
pub proof fn lemma_keycode_round_trip(k: KeyCode)
    requires
        k.is_canonical(),
    ensures
        KeyCode::from_hid_usage_spec(k.to_hid_usage_spec()) == k,
{
    let e = k.to_hid_usage_spec();
    match k {
        KeyCode::Keyboard(kbd) => {
            let id = kbd.usage_id_spec();
            assert((((((HID_USAGE_PAGE_KEYBOARD as u32) << 16) | (id as u32)) >> 16) & 0xFF)
                as u16 == HID_USAGE_PAGE_KEYBOARD) by (bit_vector);
            assert(((((HID_USAGE_PAGE_KEYBOARD as u32) << 16) | (id as u32)) & 0xFFFF) as u16
                == id) by (bit_vector);
        },
        KeyCode::Consumer(id) => {
            assert((((((HID_USAGE_PAGE_CONSUMER as u32) << 16) | (id as u32)) >> 16) & 0xFF)
                as u16 == HID_USAGE_PAGE_CONSUMER) by (bit_vector);
            assert(((((HID_USAGE_PAGE_CONSUMER as u32) << 16) | (id as u32)) & 0xFFFF) as u16
                == id) by (bit_vector);
        },
        KeyCode::GenericDesktop(id) => {
            assert((((((HID_USAGE_PAGE_GENERIC_DESKTOP as u32) << 16) | (id as u32)) >> 16)
                & 0xFF) as u16 == HID_USAGE_PAGE_GENERIC_DESKTOP) by (bit_vector);
            assert(((((HID_USAGE_PAGE_GENERIC_DESKTOP as u32) << 16) | (id as u32)) & 0xFFFF)
                as u16 == id) by (bit_vector);
        },
        KeyCode::Other(raw) => {
            let page = raw.page;
            let id = raw.id;
            assert(page <= 0xFF ==> ((((((page as u32) << 16) | (id as u32)) >> 16) & 0xFF)
                as u16 == page && ((((page as u32) << 16) | (id as u32)) & 0xFFFF) as u16 == id))
                by (bit_vector);
        },
    }
}

} // verus!
