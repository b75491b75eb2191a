//! Lossless decoded ZMK HID usage values (base usage plus modifier bits).
//!
//! The firmware packs a usage as: modifiers in bits 31:24, usage page in
//! bits 23:16 (0 standing for the keyboard page), usage id in bits 15:0.

use vstd::prelude::*;

verus! {

pub const HID_USAGE_KEYBOARD: u16 = 0x07;

pub const MOD_LCTL: u8 = 0x01;
pub const MOD_LSFT: u8 = 0x02;
pub const MOD_LALT: u8 = 0x04;
pub const MOD_LGUI: u8 = 0x08;
pub const MOD_RCTL: u8 = 0x10;
pub const MOD_RSFT: u8 = 0x20;
pub const MOD_RALT: u8 = 0x40;
pub const MOD_RGUI: u8 = 0x80;

/// Lossless decoded ZMK HID usage value (base usage + modifiers).
#[derive(Debug, Clone, Copy, PartialEq, Eq, Hash, Structural)]
pub struct HidUsage {
    page: u16,
    id: u16,
    modifiers: u8,
}

impl HidUsage {
    pub closed spec fn page_spec(self) -> u16 {
        self.page
    }

    pub closed spec fn id_spec(self) -> u16 {
        self.id
    }

    pub closed spec fn modifiers_spec(self) -> u8 {
        self.modifiers
    }

    /// The page field of a packed value, with 0 read as the keyboard page.
    pub open spec fn page_of_encoded(encoded: u32) -> u16 {
        if (((encoded >> 16) & 0xFF) as u16) == 0 {
            HID_USAGE_KEYBOARD
        } else {
            ((encoded >> 16) & 0xFF) as u16
        }
    }

    /// Decode from ZMK's encoded usage format.
    ///
    /// If the page byte is 0, the firmware means the keyboard page (`0x07`).
    pub fn from_encoded(encoded: u32) -> (r: Self)
        ensures
            r.page_spec() == Self::page_of_encoded(encoded),
            r.id_spec() == (encoded & 0xFFFF) as u16,
            r.modifiers_spec() == (encoded >> 24) as u8,
    {
        let mut page: u16 = ((encoded >> 16) & 0xFF) as u16;
        if page == 0 {
            page = HID_USAGE_KEYBOARD;
        }

        Self { page, id: (encoded & 0xFFFF) as u16, modifiers: (encoded >> 24) as u8 }
    }

    pub fn from_parts(page: u16, id: u16, modifiers: u8) -> (r: Self)
        ensures
            r.page_spec() == page,
            r.id_spec() == id,
            r.modifiers_spec() == modifiers,
    {
        Self { page, id, modifiers }
    }

    /// The packed form: modifiers, page and id in their bit fields.
    pub open spec fn to_hid_usage_spec(self) -> u32 {
        ((self.modifiers_spec() as u32) << 24) | ((self.page_spec() as u32) << 16) | (
        self.id_spec() as u32)
    }

    pub fn to_hid_usage(self) -> (r: u32)
        ensures
            r == self.to_hid_usage_spec(),
    {
        ((self.modifiers as u32) << 24) | ((self.page as u32) << 16) | (self.id as u32)
    }

    pub fn page(self) -> (r: u16)
        ensures
            r == self.page_spec(),
    {
        self.page
    }

    pub fn id(self) -> (r: u16)
        ensures
            r == self.id_spec(),
    {
        self.id
    }

    pub fn modifiers(self) -> (r: u8)
        ensures
            r == self.modifiers_spec(),
    {
        self.modifiers
    }

    /// The same usage with the modifier bits cleared.
    pub fn base(self) -> (r: Self)
        ensures
            r.page_spec() == self.page_spec(),
            r.id_spec() == self.id_spec(),
            r.modifiers_spec() == 0,
    {
        Self { page: self.page, id: self.id, modifiers: 0 }
    }

    /// The short labels of the modifier bits that are set, in the fixed
    /// left-to-right order the firmware documents them in.
    pub open spec fn modifier_labels_spec(mods: u8) -> Seq<Seq<char>> {
        (if mods & MOD_LCTL != 0 {
            seq!["LCTL"@]
        } else {
            Seq::empty()
        }) + (if mods & MOD_LSFT != 0 {
            seq!["LSFT"@]
        } else {
            Seq::empty()
        }) + (if mods & MOD_LALT != 0 {
            seq!["LALT"@]
        } else {
            Seq::empty()
        }) + (if mods & MOD_LGUI != 0 {
            seq!["LGUI"@]
        } else {
            Seq::empty()
        }) + (if mods & MOD_RCTL != 0 {
            seq!["RCTL"@]
        } else {
            Seq::empty()
        }) + (if mods & MOD_RSFT != 0 {
            seq!["RSFT"@]
        } else {
            Seq::empty()
        }) + (if mods & MOD_RALT != 0 {
            seq!["RALT"@]
        } else {
            Seq::empty()
        }) + (if mods & MOD_RGUI != 0 {
            seq!["RGUI"@]
        } else {
            Seq::empty()
        })
    }

    #[verifier::rlimit(100)]
    pub fn modifier_labels(self) -> (r: Vec<&'static str>)
        ensures
            r.deep_view() == Self::modifier_labels_spec(self.modifiers_spec()),
    {
        let mut labels: Vec<&'static str> = Vec::new();
        let mods = self.modifiers;
        if mods & MOD_LCTL != 0 {
            labels.push("LCTL");
        }
        if mods & MOD_LSFT != 0 {
            labels.push("LSFT");
        }
        if mods & MOD_LALT != 0 {
            labels.push("LALT");
        }
        if mods & MOD_LGUI != 0 {
            labels.push("LGUI");
        }
        if mods & MOD_RCTL != 0 {
            labels.push("RCTL");
        }
        if mods & MOD_RSFT != 0 {
            labels.push("RSFT");
        }
        if mods & MOD_RALT != 0 {
            labels.push("RALT");
        }
        if mods & MOD_RGUI != 0 {
            labels.push("RGUI");
        }
        proof {
            assert(labels.deep_view() =~= Self::modifier_labels_spec(mods));
        }
        labels
    }
}

} // verus!
