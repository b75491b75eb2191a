//! The typed behavior model: classifying firmware behavior ids into roles
//! by normalized display name, and translating between typed key-binding
//! values and raw two-parameter bindings.

use vstd::prelude::*;

use crate::keycode::KeyCode;
use crate::messages::BehaviorBinding;

verus! {

/// The closed set of behavior roles the client understands. A role is
/// derived once from a firmware-reported display name; ids whose name
/// matches no role stay unclassified.
#[derive(Debug, Clone, Copy, PartialEq, Eq, Hash, Structural)]
pub enum BehaviorRole {
    KeyPress,
    KeyToggle,
    LayerTap,
    ModTap,
    StickyKey,
    StickyLayer,
    MomentaryLayer,
    ToggleLayer,
    ToLayer,
    Bluetooth,
    ExternalPower,
    OutputSelection,
    Backlight,
    Underglow,
    MouseKeyPress,
    MouseMove,
    MouseScroll,
    CapsWord,
    KeyRepeat,
    Reset,
    Bootloader,
    SoftOff,
    StudioUnlock,
    GraveEscape,
    Transparent,
    NoAction,
}

/// A typed behavior value for a single key binding, with a guaranteed
/// fallback: a binding whose role is unknown, or whose id does not fit the
/// signed wire field, is carried losslessly as [`Behavior::Raw`].
#[derive(Debug, Clone, Copy, PartialEq, Eq, Structural)]
pub enum Behavior {
    KeyPress(KeyCode),
    KeyToggle(KeyCode),
    LayerTap { layer_id: u32, tap: KeyCode },
    ModTap { hold: KeyCode, tap: KeyCode },
    StickyKey(KeyCode),
    StickyLayer { layer_id: u32 },
    MomentaryLayer { layer_id: u32 },
    ToggleLayer { layer_id: u32 },
    ToLayer { layer_id: u32 },
    Bluetooth { command: u32, value: u32 },
    ExternalPower { value: u32 },
    OutputSelection { value: u32 },
    Backlight { command: u32, value: u32 },
    Underglow { command: u32, value: u32 },
    MouseKeyPress { value: u32 },
    MouseMove { value: u32 },
    MouseScroll { value: u32 },
    CapsWord,
    KeyRepeat,
    Reset,
    Bootloader,
    SoftOff,
    StudioUnlock,
    GraveEscape,
    Transparent,
    NoAction,
    Raw(BehaviorBinding),
}

impl Behavior {
    /// Whether every keycode operand is canonical, so that packing it to
    /// the wire and re-classifying it yields the same keycode back.
    pub open spec fn operands_canonical(self) -> bool {
        match self {
            Behavior::KeyPress(k) => k.is_canonical(),
            Behavior::KeyToggle(k) => k.is_canonical(),
            Behavior::LayerTap { layer_id, tap } => tap.is_canonical(),
            Behavior::ModTap { hold, tap } => hold.is_canonical() && tap.is_canonical(),
            Behavior::StickyKey(k) => k.is_canonical(),
            _ => true,
        }
    }
}

/// Case-folds one byte of a display name: ASCII letters are lowered,
/// digits kept, and every other byte reads as a space.
pub open spec fn fold_byte(b: u8) -> u8 {
    if 65 <= b && b <= 90 {
        (b + 32) as u8
    } else if (97 <= b && b <= 122) || (48 <= b && b <= 57) {
        b
    } else {
        32u8
    }
}

/// One step of name normalization: a space is held back; any other byte
/// flushes a single held space (unless at the start) and is appended.
pub open spec fn norm_step(acc: Seq<u8>, pending: bool, b: u8) -> (Seq<u8>, bool) {
    let c = fold_byte(b);
    if c == 32 {
        (acc, true)
    } else if pending && acc.len() > 0 {
        (acc + seq![32u8, c], false)
    } else {
        (acc.push(c), false)
    }
}

pub open spec fn norm_run(s: Seq<u8>) -> (Seq<u8>, bool)
    decreases s.len(),
{
    if s.len() == 0 {
        (Seq::empty(), false)
    } else {
        let prev = norm_run(s.drop_last());
        norm_step(prev.0, prev.1, s.last())
    }
}

/// The normalized form of a display name: case-folded, with punctuation
/// and whitespace runs collapsed to single spaces and the ends trimmed.
pub open spec fn normalize_name(s: Seq<u8>) -> Seq<u8> {
    norm_run(s).0
}

/// Normalizes a display name as [`normalize_name`] describes.
pub fn normalize_display_name(name: &[u8]) -> (r: Vec<u8>)
    ensures
        r@ == normalize_name(name@),
{
    let mut out: Vec<u8> = Vec::new();
    let mut pending: bool = false;
    let mut i: usize = 0;
    while i < name.len()
        invariant
            i <= name.len(),
            (out@, pending) == norm_run(name@.take(i as int)),
        decreases name.len() - i,
    {
        let b = name[i];
        proof {
            assert(name@.take(i + 1).drop_last() =~= name@.take(i as int));
            assert(name@.take(i + 1).last() == name@[i as int]);
        }
        let c = if b >= 65 && b <= 90 {
            b + 32
        } else if (b >= 97 && b <= 122) || (b >= 48 && b <= 57) {
            b
        } else {
            32u8
        };
        if c == 32 {
            pending = true;
        } else if pending && out.len() > 0 {
            let ghost pre = out@;
            out.push(32);
            out.push(c);
            pending = false;
            proof {
                assert(out@ =~= pre + seq![32u8, c]);
            }
        } else {
            out.push(c);
            pending = false;
        }
        i = i + 1;
    }
    proof {
        assert(name@.take(name@.len() as int) =~= name@);
    }
    out
}

/// Compares a vector's bytes against a fixed table entry.
fn bytes_match<const N: usize>(a: &Vec<u8>, b: &[u8; N]) -> (r: bool)
    ensures
        r == (a@ == b@),
{
    if a.len() != N {
        proof {
            assert(a@.len() != b@.len());
        }
        return false;
    }
    let mut i: usize = 0;
    while i < N
        invariant
            i <= N,
            a@.len() == N,
            b@.len() == N,
            forall|j: int| 0 <= j < i ==> a@[j] == b@[j],
        decreases N - i,
    {
        if a[i] != b[i] {
            return false;
        }
        i = i + 1;
    }
    proof {
        assert(a@ =~= b@);
    }
    true
}

/// The role a normalized display name denotes, if any.
pub open spec fn spec_role_of(n: Seq<u8>) -> Option<BehaviorRole> {
    if n == seq![107u8, 101, 121, 32, 112, 114, 101, 115, 115] {  // "key press"
        Some(BehaviorRole::KeyPress)
    } else if n == seq![107u8, 101, 121, 32, 116, 111, 103, 103, 108, 101] {  // "key toggle"
        Some(BehaviorRole::KeyToggle)
    } else if n == seq![108u8, 97, 121, 101, 114, 32, 116, 97, 112] {  // "layer tap"
        Some(BehaviorRole::LayerTap)
    } else if n == seq![109u8, 111, 100, 32, 116, 97, 112] {  // "mod tap"
        Some(BehaviorRole::ModTap)
    } else if n == seq![115u8, 116, 105, 99, 107, 121, 32, 107, 101, 121] {  // "sticky key"
        Some(BehaviorRole::StickyKey)
    } else if n == seq![115u8, 116, 105, 99, 107, 121, 32, 108, 97, 121, 101, 114] {  // "sticky layer"
        Some(BehaviorRole::StickyLayer)
    } else if n == seq![109u8, 111, 109, 101, 110, 116, 97, 114, 121, 32, 108, 97, 121, 101, 114] {  // "momentary layer"
        Some(BehaviorRole::MomentaryLayer)
    } else if n == seq![116u8, 111, 103, 103, 108, 101, 32, 108, 97, 121, 101, 114] {  // "toggle layer"
        Some(BehaviorRole::ToggleLayer)
    } else if n == seq![116u8, 111, 32, 108, 97, 121, 101, 114] {  // "to layer"
        Some(BehaviorRole::ToLayer)
    } else if n == seq![98u8, 108, 117, 101, 116, 111, 111, 116, 104] {  // "bluetooth"
        Some(BehaviorRole::Bluetooth)
    } else if n == seq![101u8, 120, 116, 101, 114, 110, 97, 108, 32, 112, 111, 119, 101, 114] {  // "external power"
        Some(BehaviorRole::ExternalPower)
    } else if n == seq![111u8, 117, 116, 112, 117, 116, 32, 115, 101, 108, 101, 99, 116, 105, 111, 110] {  // "output selection"
        Some(BehaviorRole::OutputSelection)
    } else if n == seq![98u8, 97, 99, 107, 108, 105, 103, 104, 116] {  // "backlight"
        Some(BehaviorRole::Backlight)
    } else if n == seq![117u8, 110, 100, 101, 114, 103, 108, 111, 119] {  // "underglow"
        Some(BehaviorRole::Underglow)
    } else if n == seq![109u8, 111, 117, 115, 101, 32, 107, 101, 121, 32, 112, 114, 101, 115, 115] {  // "mouse key press"
        Some(BehaviorRole::MouseKeyPress)
    } else if n == seq![109u8, 111, 117, 115, 101, 32, 109, 111, 118, 101] {  // "mouse move"
        Some(BehaviorRole::MouseMove)
    } else if n == seq![109u8, 111, 117, 115, 101, 32, 115, 99, 114, 111, 108, 108] {  // "mouse scroll"
        Some(BehaviorRole::MouseScroll)
    } else if n == seq![99u8, 97, 112, 115, 32, 119, 111, 114, 100] {  // "caps word"
        Some(BehaviorRole::CapsWord)
    } else if n == seq![107u8, 101, 121, 32, 114, 101, 112, 101, 97, 116] {  // "key repeat"
        Some(BehaviorRole::KeyRepeat)
    } else if n == seq![114u8, 101, 115, 101, 116] {  // "reset"
        Some(BehaviorRole::Reset)
    } else if n == seq![98u8, 111, 111, 116, 108, 111, 97, 100, 101, 114] {  // "bootloader"
        Some(BehaviorRole::Bootloader)
    } else if n == seq![115u8, 111, 102, 116, 32, 111, 102, 102] {  // "soft off"
        Some(BehaviorRole::SoftOff)
    } else if n == seq![115u8, 116, 117, 100, 105, 111, 32, 117, 110, 108, 111, 99, 107] {  // "studio unlock"
        Some(BehaviorRole::StudioUnlock)
    } else if n == seq![103u8, 114, 97, 118, 101, 32, 101, 115, 99, 97, 112, 101] {  // "grave escape"
        Some(BehaviorRole::GraveEscape)
    } else if n == seq![116u8, 114, 97, 110, 115, 112, 97, 114, 101, 110, 116] {  // "transparent"
        Some(BehaviorRole::Transparent)
    } else if n == seq![110u8, 111, 110, 101] {  // "none"
        Some(BehaviorRole::NoAction)
    } else {
        None
    }
}

/// Classifies a firmware-reported display name into a role by normalized
/// name matching.
pub fn role_from_display_name(name: &[u8]) -> (r: Option<BehaviorRole>)
    ensures
        r == spec_role_of(normalize_name(name@)),
{
    let n = normalize_display_name(name);
    if bytes_match(&n, &[107u8, 101, 121, 32, 112, 114, 101, 115, 115]) {  // "key press"
        Some(BehaviorRole::KeyPress)
    } else if bytes_match(&n, &[107u8, 101, 121, 32, 116, 111, 103, 103, 108, 101]) {  // "key toggle"
        Some(BehaviorRole::KeyToggle)
    } else if bytes_match(&n, &[108u8, 97, 121, 101, 114, 32, 116, 97, 112]) {  // "layer tap"
        Some(BehaviorRole::LayerTap)
    } else if bytes_match(&n, &[109u8, 111, 100, 32, 116, 97, 112]) {  // "mod tap"
        Some(BehaviorRole::ModTap)
    } else if bytes_match(&n, &[115u8, 116, 105, 99, 107, 121, 32, 107, 101, 121]) {  // "sticky key"
        Some(BehaviorRole::StickyKey)
    } else if bytes_match(&n, &[115u8, 116, 105, 99, 107, 121, 32, 108, 97, 121, 101, 114]) {  // "sticky layer"
        Some(BehaviorRole::StickyLayer)
    } else if bytes_match(&n, &[109u8, 111, 109, 101, 110, 116, 97, 114, 121, 32, 108, 97, 121, 101, 114]) {  // "momentary layer"
        Some(BehaviorRole::MomentaryLayer)
    } else if bytes_match(&n, &[116u8, 111, 103, 103, 108, 101, 32, 108, 97, 121, 101, 114]) {  // "toggle layer"
        Some(BehaviorRole::ToggleLayer)
    } else if bytes_match(&n, &[116u8, 111, 32, 108, 97, 121, 101, 114]) {  // "to layer"
        Some(BehaviorRole::ToLayer)
    } else if bytes_match(&n, &[98u8, 108, 117, 101, 116, 111, 111, 116, 104]) {  // "bluetooth"
        Some(BehaviorRole::Bluetooth)
    } else if bytes_match(&n, &[101u8, 120, 116, 101, 114, 110, 97, 108, 32, 112, 111, 119, 101, 114]) {  // "external power"
        Some(BehaviorRole::ExternalPower)
    } else if bytes_match(&n, &[111u8, 117, 116, 112, 117, 116, 32, 115, 101, 108, 101, 99, 116, 105, 111, 110]) {  // "output selection"
        Some(BehaviorRole::OutputSelection)
    } else if bytes_match(&n, &[98u8, 97, 99, 107, 108, 105, 103, 104, 116]) {  // "backlight"
        Some(BehaviorRole::Backlight)
    } else if bytes_match(&n, &[117u8, 110, 100, 101, 114, 103, 108, 111, 119]) {  // "underglow"
        Some(BehaviorRole::Underglow)
    } else if bytes_match(&n, &[109u8, 111, 117, 115, 101, 32, 107, 101, 121, 32, 112, 114, 101, 115, 115]) {  // "mouse key press"
        Some(BehaviorRole::MouseKeyPress)
    } else if bytes_match(&n, &[109u8, 111, 117, 115, 101, 32, 109, 111, 118, 101]) {  // "mouse move"
        Some(BehaviorRole::MouseMove)
    } else if bytes_match(&n, &[109u8, 111, 117, 115, 101, 32, 115, 99, 114, 111, 108, 108]) {  // "mouse scroll"
        Some(BehaviorRole::MouseScroll)
    } else if bytes_match(&n, &[99u8, 97, 112, 115, 32, 119, 111, 114, 100]) {  // "caps word"
        Some(BehaviorRole::CapsWord)
    } else if bytes_match(&n, &[107u8, 101, 121, 32, 114, 101, 112, 101, 97, 116]) {  // "key repeat"
        Some(BehaviorRole::KeyRepeat)
    } else if bytes_match(&n, &[114u8, 101, 115, 101, 116]) {  // "reset"
        Some(BehaviorRole::Reset)
    } else if bytes_match(&n, &[98u8, 111, 111, 116, 108, 111, 97, 100, 101, 114]) {  // "bootloader"
        Some(BehaviorRole::Bootloader)
    } else if bytes_match(&n, &[115u8, 111, 102, 116, 32, 111, 102, 102]) {  // "soft off"
        Some(BehaviorRole::SoftOff)
    } else if bytes_match(&n, &[115u8, 116, 117, 100, 105, 111, 32, 117, 110, 108, 111, 99, 107]) {  // "studio unlock"
        Some(BehaviorRole::StudioUnlock)
    } else if bytes_match(&n, &[103u8, 114, 97, 118, 101, 32, 101, 115, 99, 97, 112, 101]) {  // "grave escape"
        Some(BehaviorRole::GraveEscape)
    } else if bytes_match(&n, &[116u8, 114, 97, 110, 115, 112, 97, 114, 101, 110, 116]) {  // "transparent"
        Some(BehaviorRole::Transparent)
    } else if bytes_match(&n, &[110u8, 111, 110, 101]) {  // "none"
        Some(BehaviorRole::NoAction)
    } else {
        None
    }
}

/// First-match association lookup by behavior id.
pub open spec fn spec_assoc_role(s: Seq<(u32, BehaviorRole)>, id: u32) -> Option<BehaviorRole>
    decreases s.len(),
{
    if s.len() == 0 {
        None
    } else if s[0].0 == id {
        Some(s[0].1)
    } else {
        spec_assoc_role(s.skip(1), id)
    }
}

/// First-match association lookup by role.
pub open spec fn spec_assoc_id(s: Seq<(BehaviorRole, u32)>, role: BehaviorRole) -> Option<u32>
    decreases s.len(),
{
    if s.len() == 0 {
        None
    } else if s[0].0 == role {
        Some(s[0].1)
    } else {
        spec_assoc_id(s.skip(1), role)
    }
}

/// Appending an entry only answers lookups the old table could not.
proof fn lemma_assoc_role_snoc(s: Seq<(u32, BehaviorRole)>, e: (u32, BehaviorRole), id: u32)
    ensures
        spec_assoc_role(s.push(e), id) == (match spec_assoc_role(s, id) {
            Some(r) => Some(r),
            None => if e.0 == id {
                Some(e.1)
            } else {
                None
            },
        }),
    decreases s.len(),
{
    if s.len() == 0 {
        assert(s.push(e)[0] == e);
        assert(s.push(e).skip(1) =~= Seq::<(u32, BehaviorRole)>::empty());
        assert(spec_assoc_role(Seq::<(u32, BehaviorRole)>::empty(), id) is None);
    } else {
        lemma_assoc_role_snoc(s.skip(1), e, id);
        assert(s.push(e)[0] == s[0]);
        assert(s.push(e).skip(1) =~= s.skip(1).push(e));
    }
}

/// Appending an entry only answers lookups the old table could not.
proof fn lemma_assoc_id_snoc(s: Seq<(BehaviorRole, u32)>, e: (BehaviorRole, u32), role: BehaviorRole)
    ensures
        spec_assoc_id(s.push(e), role) == (match spec_assoc_id(s, role) {
            Some(i) => Some(i),
            None => if e.0 == role {
                Some(e.1)
            } else {
                None
            },
        }),
    decreases s.len(),
{
    if s.len() == 0 {
        assert(s.push(e)[0] == e);
        assert(s.push(e).skip(1) =~= Seq::<(BehaviorRole, u32)>::empty());
        assert(spec_assoc_id(Seq::<(BehaviorRole, u32)>::empty(), role) is None);
    } else {
        lemma_assoc_id_snoc(s.skip(1), e, role);
        assert(s.push(e)[0] == s[0]);
        assert(s.push(e).skip(1) =~= s.skip(1).push(e));
    }
}

/// The session's behavior-id/role table, built lazily from the firmware's
/// behavior catalog and never invalidated. For a role reported under
/// several ids, the first id encountered wins; a repeated id is ignored.
#[derive(Debug, Clone)]
pub struct RoleTable {
    by_id: Vec<(u32, BehaviorRole)>,
    by_role: Vec<(BehaviorRole, u32)>,
}

impl RoleTable {
    pub closed spec fn by_id_view(&self) -> Seq<(u32, BehaviorRole)> {
        self.by_id@
    }

    pub closed spec fn by_role_view(&self) -> Seq<(BehaviorRole, u32)> {
        self.by_role@
    }

    /// The role recorded for a behavior id, if any.
    pub open spec fn role_of_spec(&self, id: u32) -> Option<BehaviorRole> {
        spec_assoc_role(self.by_id_view(), id)
    }

    /// The id recorded for a role, if any.
    pub open spec fn id_of_spec(&self, role: BehaviorRole) -> Option<u32> {
        spec_assoc_id(self.by_role_view(), role)
    }

    /// Coherence: whatever id answers for a role, that id maps back to the
    /// role. It holds of every table the client builds.
    pub open spec fn wf(&self) -> bool {
        forall|role: BehaviorRole|
            (#[trigger] self.id_of_spec(role)) is Some ==> self.role_of_spec(
                self.id_of_spec(role).unwrap(),
            ) == Some(role)
    }

    /// Whether the catalog has been built: the table is non-empty.
    pub open spec fn is_built_spec(&self) -> bool {
        self.by_id_view().len() > 0
    }

    pub fn new() -> (t: Self)
        ensures
            t.by_id_view() == Seq::<(u32, BehaviorRole)>::empty(),
            t.by_role_view() == Seq::<(BehaviorRole, u32)>::empty(),
            t.wf(),
            !t.is_built_spec(),
    {
        let t = RoleTable { by_id: Vec::new(), by_role: Vec::new() };
        proof {
            assert(t.by_id@ =~= Seq::<(u32, BehaviorRole)>::empty());
            assert(t.by_role@ =~= Seq::<(BehaviorRole, u32)>::empty());
        }
        t
    }

    pub fn is_built(&self) -> (r: bool)
        ensures
            r == self.is_built_spec(),
    {
        self.by_id.len() > 0
    }

    pub fn role_of(&self, id: u32) -> (r: Option<BehaviorRole>)
        ensures
            r == self.role_of_spec(id),
    {
        proof {
            assert(self.by_id@.skip(0) =~= self.by_id@);
        }
        let mut i: usize = 0;
        while i < self.by_id.len()
            invariant
                i <= self.by_id.len(),
                spec_assoc_role(self.by_id@, id) == spec_assoc_role(self.by_id@.skip(i as int), id),
            decreases self.by_id.len() - i,
        {
            proof {
                assert(self.by_id@.skip(i as int)[0] == self.by_id@[i as int]);
                assert(self.by_id@.skip(i as int).skip(1) =~= self.by_id@.skip(i + 1));
            }
            if self.by_id[i].0 == id {
                return Some(self.by_id[i].1);
            }
            i = i + 1;
        }
        proof {
            assert(self.by_id@.skip(self.by_id@.len() as int) =~= Seq::<(u32,
            BehaviorRole)>::empty());
        }
        None
    }

    pub fn id_of(&self, role: BehaviorRole) -> (r: Option<u32>)
        ensures
            r == self.id_of_spec(role),
    {
        proof {
            assert(self.by_role@.skip(0) =~= self.by_role@);
        }
        let mut i: usize = 0;
        while i < self.by_role.len()
            invariant
                i <= self.by_role.len(),
                spec_assoc_id(self.by_role@, role) == spec_assoc_id(
                    self.by_role@.skip(i as int),
                    role,
                ),
            decreases self.by_role.len() - i,
        {
            proof {
                assert(self.by_role@.skip(i as int)[0] == self.by_role@[i as int]);
                assert(self.by_role@.skip(i as int).skip(1) =~= self.by_role@.skip(i + 1));
            }
            if self.by_role[i].0 == role {
                return Some(self.by_role[i].1);
            }
            i = i + 1;
        }
        proof {
            assert(self.by_role@.skip(self.by_role@.len() as int) =~= Seq::<(BehaviorRole,
            u32)>::empty());
        }
        None
    }

    /// Records one catalog entry. A display name with no known role, or an
    /// id already recorded, changes nothing; otherwise the id/role pair is
    /// added, and the role's reverse entry only if the role is new.
    pub fn record(&mut self, behavior_id: u32, display_name: &[u8])
        requires
            old(self).wf(),
        ensures
            final(self).wf(),
            ({
                let role = spec_role_of(normalize_name(display_name@));
                if role is None || spec_assoc_role(old(self).by_id_view(), behavior_id) is Some {
                    &&& final(self).by_id_view() == old(self).by_id_view()
                    &&& final(self).by_role_view() == old(self).by_role_view()
                } else {
                    &&& final(self).by_id_view() == old(self).by_id_view().push(
                        (behavior_id, role.unwrap()),
                    )
                    &&& final(self).by_role_view() == (if spec_assoc_id(
                        old(self).by_role_view(),
                        role.unwrap(),
                    ) is Some {
                        old(self).by_role_view()
                    } else {
                        old(self).by_role_view().push((role.unwrap(), behavior_id))
                    })
                }
            }),
    {
        let role = match role_from_display_name(display_name) {
            Some(role) => role,
            None => {
                return ;
            },
        };
        if self.role_of(behavior_id).is_some() {
            return ;
        }
        self.by_id.push((behavior_id, role));
        let role_known = self.id_of(role).is_some();
        if !role_known {
            self.by_role.push((role, behavior_id));
        }
        proof {
            let oldid = old(self).by_id_view();
            let oldrole = old(self).by_role_view();
            assert forall|r2: BehaviorRole| (#[trigger] self.id_of_spec(r2)) is Some implies
                self.role_of_spec(self.id_of_spec(r2).unwrap()) == Some(r2) by {
                let old_lookup = old(self).id_of_spec(r2);
                if !role_known {
                    lemma_assoc_id_snoc(oldrole, (role, behavior_id), r2);
                }
                let i2 = self.id_of_spec(r2).unwrap();
                if old_lookup is Some {
                    assert(old(self).role_of_spec(old_lookup.unwrap()) == Some(r2));
                }
                lemma_assoc_role_snoc(oldid, (behavior_id, role), i2);
            }
        }
    }
}

/// A failure of the typed-to-raw translation: the firmware's catalog has
/// no id for the variant's role, or the id does not fit the signed wire
/// field.
#[derive(Debug, Clone, Copy, PartialEq, Eq, Structural)]
pub enum BehaviorMapError {
    MissingBehaviorRole(BehaviorRole),
    BehaviorIdOutOfRange { behavior_id: u32 },
}

/// The raw binding for a role and its two parameters, given the session's
/// role-to-id entries.
pub open spec fn spec_role_binding(
    by_role: Seq<(BehaviorRole, u32)>,
    role: BehaviorRole,
    param1: u32,
    param2: u32,
) -> Result<BehaviorBinding, BehaviorMapError> {
    match spec_assoc_id(by_role, role) {
        Some(id) => if id <= 0x7FFF_FFFF {
            Ok(BehaviorBinding { behavior_id: id as i32, param1, param2 })
        } else {
            Err(BehaviorMapError::BehaviorIdOutOfRange { behavior_id: id })
        },
        None => Err(BehaviorMapError::MissingBehaviorRole(role)),
    }
}

/// The raw binding a typed behavior translates to, given the session's
/// role-to-id entries. A raw fallback value passes through unchanged.
pub open spec fn spec_encode_behavior(b: Behavior, by_role: Seq<(BehaviorRole, u32)>) -> Result<
    BehaviorBinding,
    BehaviorMapError,
> {
    match b {
        Behavior::KeyPress(k) => spec_role_binding(
            by_role,
            BehaviorRole::KeyPress,
            k.to_hid_usage_spec(),
            0,
        ),
        Behavior::KeyToggle(k) => spec_role_binding(
            by_role,
            BehaviorRole::KeyToggle,
            k.to_hid_usage_spec(),
            0,
        ),
        Behavior::LayerTap { layer_id, tap } => spec_role_binding(
            by_role,
            BehaviorRole::LayerTap,
            layer_id,
            tap.to_hid_usage_spec(),
        ),
        Behavior::ModTap { hold, tap } => spec_role_binding(
            by_role,
            BehaviorRole::ModTap,
            hold.to_hid_usage_spec(),
            tap.to_hid_usage_spec(),
        ),
        Behavior::StickyKey(k) => spec_role_binding(
            by_role,
            BehaviorRole::StickyKey,
            k.to_hid_usage_spec(),
            0,
        ),
        Behavior::StickyLayer { layer_id } => spec_role_binding(
            by_role,
            BehaviorRole::StickyLayer,
            layer_id,
            0,
        ),
        Behavior::MomentaryLayer { layer_id } => spec_role_binding(
            by_role,
            BehaviorRole::MomentaryLayer,
            layer_id,
            0,
        ),
        Behavior::ToggleLayer { layer_id } => spec_role_binding(
            by_role,
            BehaviorRole::ToggleLayer,
            layer_id,
            0,
        ),
        Behavior::ToLayer { layer_id } => spec_role_binding(
            by_role,
            BehaviorRole::ToLayer,
            layer_id,
            0,
        ),
        Behavior::Bluetooth { command, value } => spec_role_binding(
            by_role,
            BehaviorRole::Bluetooth,
            command,
            value,
        ),
        Behavior::ExternalPower { value } => spec_role_binding(
            by_role,
            BehaviorRole::ExternalPower,
            value,
            0,
        ),
        Behavior::OutputSelection { value } => spec_role_binding(
            by_role,
            BehaviorRole::OutputSelection,
            value,
            0,
        ),
        Behavior::Backlight { command, value } => spec_role_binding(
            by_role,
            BehaviorRole::Backlight,
            command,
            value,
        ),
        Behavior::Underglow { command, value } => spec_role_binding(
            by_role,
            BehaviorRole::Underglow,
            command,
            value,
        ),
        Behavior::MouseKeyPress { value } => spec_role_binding(
            by_role,
            BehaviorRole::MouseKeyPress,
            value,
            0,
        ),
        Behavior::MouseMove { value } => spec_role_binding(
            by_role,
            BehaviorRole::MouseMove,
            value,
            0,
        ),
        Behavior::MouseScroll { value } => spec_role_binding(
            by_role,
            BehaviorRole::MouseScroll,
            value,
            0,
        ),
        Behavior::CapsWord => spec_role_binding(by_role, BehaviorRole::CapsWord, 0, 0),
        Behavior::KeyRepeat => spec_role_binding(by_role, BehaviorRole::KeyRepeat, 0, 0),
        Behavior::Reset => spec_role_binding(by_role, BehaviorRole::Reset, 0, 0),
        Behavior::Bootloader => spec_role_binding(by_role, BehaviorRole::Bootloader, 0, 0),
        Behavior::SoftOff => spec_role_binding(by_role, BehaviorRole::SoftOff, 0, 0),
        Behavior::StudioUnlock => spec_role_binding(by_role, BehaviorRole::StudioUnlock, 0, 0),
        Behavior::GraveEscape => spec_role_binding(by_role, BehaviorRole::GraveEscape, 0, 0),
        Behavior::Transparent => spec_role_binding(by_role, BehaviorRole::Transparent, 0, 0),
        Behavior::NoAction => spec_role_binding(by_role, BehaviorRole::NoAction, 0, 0),
        Behavior::Raw(raw) => Ok(raw),
    }
}

/// The role of a typed behavior, where it has one (every variant but the
/// raw fallback).
pub open spec fn spec_role_of_behavior(b: Behavior) -> Option<BehaviorRole> {
    match b {
        Behavior::KeyPress(_) => Some(BehaviorRole::KeyPress),
        Behavior::KeyToggle(_) => Some(BehaviorRole::KeyToggle),
        Behavior::LayerTap { layer_id, tap } => Some(BehaviorRole::LayerTap),
        Behavior::ModTap { hold, tap } => Some(BehaviorRole::ModTap),
        Behavior::StickyKey(_) => Some(BehaviorRole::StickyKey),
        Behavior::StickyLayer { layer_id } => Some(BehaviorRole::StickyLayer),
        Behavior::MomentaryLayer { layer_id } => Some(BehaviorRole::MomentaryLayer),
        Behavior::ToggleLayer { layer_id } => Some(BehaviorRole::ToggleLayer),
        Behavior::ToLayer { layer_id } => Some(BehaviorRole::ToLayer),
        Behavior::Bluetooth { command, value } => Some(BehaviorRole::Bluetooth),
        Behavior::ExternalPower { value } => Some(BehaviorRole::ExternalPower),
        Behavior::OutputSelection { value } => Some(BehaviorRole::OutputSelection),
        Behavior::Backlight { command, value } => Some(BehaviorRole::Backlight),
        Behavior::Underglow { command, value } => Some(BehaviorRole::Underglow),
        Behavior::MouseKeyPress { value } => Some(BehaviorRole::MouseKeyPress),
        Behavior::MouseMove { value } => Some(BehaviorRole::MouseMove),
        Behavior::MouseScroll { value } => Some(BehaviorRole::MouseScroll),
        Behavior::CapsWord => Some(BehaviorRole::CapsWord),
        Behavior::KeyRepeat => Some(BehaviorRole::KeyRepeat),
        Behavior::Reset => Some(BehaviorRole::Reset),
        Behavior::Bootloader => Some(BehaviorRole::Bootloader),
        Behavior::SoftOff => Some(BehaviorRole::SoftOff),
        Behavior::StudioUnlock => Some(BehaviorRole::StudioUnlock),
        Behavior::GraveEscape => Some(BehaviorRole::GraveEscape),
        Behavior::Transparent => Some(BehaviorRole::Transparent),
        Behavior::NoAction => Some(BehaviorRole::NoAction),
        Behavior::Raw(_) => None,
    }
}

/// The typed behavior a raw binding decodes to, given the role its id was
/// classified under. A missing role yields the raw fallback, never an
/// error.
pub open spec fn spec_decode_behavior(binding: BehaviorBinding, role: Option<BehaviorRole>) -> Behavior {
    match role {
        None => Behavior::Raw(binding),
        Some(r) => match r {
            BehaviorRole::KeyPress => Behavior::KeyPress(
                KeyCode::from_hid_usage_spec(binding.param1),
            ),
            BehaviorRole::KeyToggle => Behavior::KeyToggle(
                KeyCode::from_hid_usage_spec(binding.param1),
            ),
            BehaviorRole::LayerTap => (Behavior::LayerTap {
                layer_id: binding.param1,
                tap: KeyCode::from_hid_usage_spec(binding.param2),
            }),
            BehaviorRole::ModTap => (Behavior::ModTap {
                hold: KeyCode::from_hid_usage_spec(binding.param1),
                tap: KeyCode::from_hid_usage_spec(binding.param2),
            }),
            BehaviorRole::StickyKey => Behavior::StickyKey(
                KeyCode::from_hid_usage_spec(binding.param1),
            ),
            BehaviorRole::StickyLayer => (Behavior::StickyLayer { layer_id: binding.param1 }),
            BehaviorRole::MomentaryLayer => (Behavior::MomentaryLayer { layer_id: binding.param1 }),
            BehaviorRole::ToggleLayer => (Behavior::ToggleLayer { layer_id: binding.param1 }),
            BehaviorRole::ToLayer => (Behavior::ToLayer { layer_id: binding.param1 }),
            BehaviorRole::Bluetooth => (Behavior::Bluetooth {
                command: binding.param1,
                value: binding.param2,
            }),
            BehaviorRole::ExternalPower => (Behavior::ExternalPower { value: binding.param1 }),
            BehaviorRole::OutputSelection => (Behavior::OutputSelection { value: binding.param1 }),
            BehaviorRole::Backlight => (Behavior::Backlight {
                command: binding.param1,
                value: binding.param2,
            }),
            BehaviorRole::Underglow => (Behavior::Underglow {
                command: binding.param1,
                value: binding.param2,
            }),
            BehaviorRole::MouseKeyPress => (Behavior::MouseKeyPress { value: binding.param1 }),
            BehaviorRole::MouseMove => (Behavior::MouseMove { value: binding.param1 }),
            BehaviorRole::MouseScroll => (Behavior::MouseScroll { value: binding.param1 }),
            BehaviorRole::CapsWord => Behavior::CapsWord,
            BehaviorRole::KeyRepeat => Behavior::KeyRepeat,
            BehaviorRole::Reset => Behavior::Reset,
            BehaviorRole::Bootloader => Behavior::Bootloader,
            BehaviorRole::SoftOff => Behavior::SoftOff,
            BehaviorRole::StudioUnlock => Behavior::StudioUnlock,
            BehaviorRole::GraveEscape => Behavior::GraveEscape,
            BehaviorRole::Transparent => Behavior::Transparent,
            BehaviorRole::NoAction => Behavior::NoAction,
        },
    }
}

/// Decodes a raw binding under the role its id was classified under.
pub fn decode_behavior(binding: BehaviorBinding, role: Option<BehaviorRole>) -> (r: Behavior)
    ensures
        r == spec_decode_behavior(binding, role),
{
    match role {
        None => Behavior::Raw(binding),
        Some(r) => match r {
            BehaviorRole::KeyPress => Behavior::KeyPress(KeyCode::from_hid_usage(binding.param1)),
            BehaviorRole::KeyToggle => Behavior::KeyToggle(KeyCode::from_hid_usage(binding.param1)),
            BehaviorRole::LayerTap => Behavior::LayerTap {
                layer_id: binding.param1,
                tap: KeyCode::from_hid_usage(binding.param2),
            },
            BehaviorRole::ModTap => Behavior::ModTap {
                hold: KeyCode::from_hid_usage(binding.param1),
                tap: KeyCode::from_hid_usage(binding.param2),
            },
            BehaviorRole::StickyKey => Behavior::StickyKey(KeyCode::from_hid_usage(binding.param1)),
            BehaviorRole::StickyLayer => Behavior::StickyLayer { layer_id: binding.param1 },
            BehaviorRole::MomentaryLayer => Behavior::MomentaryLayer { layer_id: binding.param1 },
            BehaviorRole::ToggleLayer => Behavior::ToggleLayer { layer_id: binding.param1 },
            BehaviorRole::ToLayer => Behavior::ToLayer { layer_id: binding.param1 },
            BehaviorRole::Bluetooth => Behavior::Bluetooth {
                command: binding.param1,
                value: binding.param2,
            },
            BehaviorRole::ExternalPower => Behavior::ExternalPower { value: binding.param1 },
            BehaviorRole::OutputSelection => Behavior::OutputSelection { value: binding.param1 },
            BehaviorRole::Backlight => Behavior::Backlight {
                command: binding.param1,
                value: binding.param2,
            },
            BehaviorRole::Underglow => Behavior::Underglow {
                command: binding.param1,
                value: binding.param2,
            },
            BehaviorRole::MouseKeyPress => Behavior::MouseKeyPress { value: binding.param1 },
            BehaviorRole::MouseMove => Behavior::MouseMove { value: binding.param1 },
            BehaviorRole::MouseScroll => Behavior::MouseScroll { value: binding.param1 },
            BehaviorRole::CapsWord => Behavior::CapsWord,
            BehaviorRole::KeyRepeat => Behavior::KeyRepeat,
            BehaviorRole::Reset => Behavior::Reset,
            BehaviorRole::Bootloader => Behavior::Bootloader,
            BehaviorRole::SoftOff => Behavior::SoftOff,
            BehaviorRole::StudioUnlock => Behavior::StudioUnlock,
            BehaviorRole::GraveEscape => Behavior::GraveEscape,
            BehaviorRole::Transparent => Behavior::Transparent,
            BehaviorRole::NoAction => Behavior::NoAction,
        },
    }
}

fn role_binding(table: &RoleTable, role: BehaviorRole, param1: u32, param2: u32) -> (r: Result<
    BehaviorBinding,
    BehaviorMapError,
>)
    ensures
        r == spec_role_binding(table.by_role_view(), role, param1, param2),
{
    match table.id_of(role) {
        Some(id) => {
            if id <= 0x7FFF_FFFF {
                Ok(BehaviorBinding { behavior_id: id as i32, param1, param2 })
            } else {
                Err(BehaviorMapError::BehaviorIdOutOfRange { behavior_id: id })
            }
        },
        None => Err(BehaviorMapError::MissingBehaviorRole(role)),
    }
}

/// Translates a typed behavior to the raw binding the wire carries, using
/// the session's role table.
pub fn encode_behavior(b: &Behavior, table: &RoleTable) -> (r: Result<
    BehaviorBinding,
    BehaviorMapError,
>)
    ensures
        r == spec_encode_behavior(*b, table.by_role_view()),
{
    match b {
        Behavior::KeyPress(k) => role_binding(table, BehaviorRole::KeyPress, k.to_hid_usage(), 0),
        Behavior::KeyToggle(k) => role_binding(table, BehaviorRole::KeyToggle, k.to_hid_usage(), 0),
        Behavior::LayerTap { layer_id, tap } => role_binding(
            table,
            BehaviorRole::LayerTap,
            *layer_id,
            tap.to_hid_usage(),
        ),
        Behavior::ModTap { hold, tap } => role_binding(
            table,
            BehaviorRole::ModTap,
            hold.to_hid_usage(),
            tap.to_hid_usage(),
        ),
        Behavior::StickyKey(k) => role_binding(table, BehaviorRole::StickyKey, k.to_hid_usage(), 0),
        Behavior::StickyLayer { layer_id } => role_binding(
            table,
            BehaviorRole::StickyLayer,
            *layer_id,
            0,
        ),
        Behavior::MomentaryLayer { layer_id } => role_binding(
            table,
            BehaviorRole::MomentaryLayer,
            *layer_id,
            0,
        ),
        Behavior::ToggleLayer { layer_id } => role_binding(
            table,
            BehaviorRole::ToggleLayer,
            *layer_id,
            0,
        ),
        Behavior::ToLayer { layer_id } => role_binding(table, BehaviorRole::ToLayer, *layer_id, 0),
        Behavior::Bluetooth { command, value } => role_binding(
            table,
            BehaviorRole::Bluetooth,
            *command,
            *value,
        ),
        Behavior::ExternalPower { value } => role_binding(
            table,
            BehaviorRole::ExternalPower,
            *value,
            0,
        ),
        Behavior::OutputSelection { value } => role_binding(
            table,
            BehaviorRole::OutputSelection,
            *value,
            0,
        ),
        Behavior::Backlight { command, value } => role_binding(
            table,
            BehaviorRole::Backlight,
            *command,
            *value,
        ),
        Behavior::Underglow { command, value } => role_binding(
            table,
            BehaviorRole::Underglow,
            *command,
            *value,
        ),
        Behavior::MouseKeyPress { value } => role_binding(
            table,
            BehaviorRole::MouseKeyPress,
            *value,
            0,
        ),
        Behavior::MouseMove { value } => role_binding(table, BehaviorRole::MouseMove, *value, 0),
        Behavior::MouseScroll { value } => role_binding(table, BehaviorRole::MouseScroll, *value, 0),
        Behavior::CapsWord => role_binding(table, BehaviorRole::CapsWord, 0, 0),
        Behavior::KeyRepeat => role_binding(table, BehaviorRole::KeyRepeat, 0, 0),
        Behavior::Reset => role_binding(table, BehaviorRole::Reset, 0, 0),
        Behavior::Bootloader => role_binding(table, BehaviorRole::Bootloader, 0, 0),
        Behavior::SoftOff => role_binding(table, BehaviorRole::SoftOff, 0, 0),
        Behavior::StudioUnlock => role_binding(table, BehaviorRole::StudioUnlock, 0, 0),
        Behavior::GraveEscape => role_binding(table, BehaviorRole::GraveEscape, 0, 0),
        Behavior::Transparent => role_binding(table, BehaviorRole::Transparent, 0, 0),
        Behavior::NoAction => role_binding(table, BehaviorRole::NoAction, 0, 0),
        Behavior::Raw(raw) => Ok(*raw),
    }
}

/// Unknown-id safety: a raw binding whose behavior id has no entry in the
/// role table decodes to the raw fallback variant, never to an error.
pub proof fn lemma_unknown_role_decodes_raw(binding: BehaviorBinding)
    ensures
        spec_decode_behavior(binding, None) == Behavior::Raw(binding),
{
}

/// Behavior round-trip: for every typed behavior with a role, translating
/// to the raw binding and decoding it back under a coherent role table
/// reconstructs the same value, provided its keycode operands are
/// canonical.
pub proof fn lemma_behavior_round_trip(b: Behavior, t: RoleTable)
    requires
        t.wf(),
        b.operands_canonical(),
        spec_role_of_behavior(b) is Some,
        spec_encode_behavior(b, t.by_role_view()) is Ok,
    ensures
        ({
            let binding = spec_encode_behavior(b, t.by_role_view()).unwrap();
            &&& binding.behavior_id >= 0
            &&& spec_decode_behavior(binding, t.role_of_spec(binding.behavior_id as u32)) == b
        }),
{
    let role = spec_role_of_behavior(b).unwrap();
    let binding = spec_encode_behavior(b, t.by_role_view()).unwrap();
    let id = spec_assoc_id(t.by_role_view(), role).unwrap();
    assert(t.id_of_spec(role) == Some(id));
    assert(t.role_of_spec(id) == Some(role));
    assert(binding.behavior_id == id as i32);
    assert(binding.behavior_id as u32 == id);
    match b {
        Behavior::KeyPress(k) => {
            crate::keycode::lemma_keycode_round_trip(k);
        },
        Behavior::KeyToggle(k) => {
            crate::keycode::lemma_keycode_round_trip(k);
        },
        Behavior::LayerTap { layer_id, tap } => {
            crate::keycode::lemma_keycode_round_trip(tap);
        },
        Behavior::ModTap { hold, tap } => {
            crate::keycode::lemma_keycode_round_trip(hold);
            crate::keycode::lemma_keycode_round_trip(tap);
        },
        Behavior::StickyKey(k) => {
            crate::keycode::lemma_keycode_round_trip(k);
        },
        _ => {},
    }
}

} // verus!
