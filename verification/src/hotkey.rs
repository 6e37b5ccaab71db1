use vstd::prelude::*;

use crate::text::{chars_of, dec_spec, push_decimal, push_str, string_from};

verus! {

/// What a global shortcut triggers.
#[derive(Debug, Clone, Copy, PartialEq, Eq, Structural)]
pub enum HotkeyAction {
    Capture,
    PinToScreen,
    ToggleAllPins,
    ColorPicker,
    Ocr,
    AiAnalyze,
    QuickSave,
    QuickCopy,
    TogglePassthrough,
    OpenSettings,
    PauseAllHotkeys,
}

/// The non-modifier key of a shortcut.
#[derive(Debug, Clone, Copy, PartialEq, Eq, Hash, Structural)]
pub enum KeyCode {
    Char(char),
    F(u8),
    Up,
    Down,
    Left,
    Right,
    Space,
    Enter,
    Escape,
    PrintScreen,
}

/// A key together with its modifiers.
#[derive(Debug, Clone, Copy, PartialEq, Eq, Hash, Structural)]
pub struct KeyCombo {
    pub ctrl: bool,
    pub alt: bool,
    pub shift: bool,
    pub win: bool,
    pub key: KeyCode,
}

/// A named shortcut bound to an action.
#[derive(Debug)]
pub struct HotkeyBinding {
    pub id: String,
    pub action: HotkeyAction,
    pub combo: KeyCombo,
    pub enabled: bool,
}

/// The mathematical value of a binding: its id as characters.
pub struct HotkeyBindingView {
    pub id: Seq<char>,
    pub action: HotkeyAction,
    pub combo: KeyCombo,
    pub enabled: bool,
}

impl View for HotkeyBinding {
    type V = HotkeyBindingView;

    open spec fn view(&self) -> HotkeyBindingView {
        HotkeyBindingView {
            id: self.id@,
            action: self.action,
            combo: self.combo,
            enabled: self.enabled,
        }
    }
}

impl Clone for HotkeyBinding {
    fn clone(&self) -> (r: Self)
        ensures
            r@ == self@,
    {
        HotkeyBinding {
            id: self.id.clone(),
            action: self.action,
            combo: self.combo,
            enabled: self.enabled,
        }
    }
}

/// The full Unicode upper-case mapping of a character (`char::to_uppercase`).
pub uninterp spec fn char_uppercase(c: char) -> Seq<char>;

/// Upper-cases one character.
///
/// Trusted: `char::to_uppercase`, which yields the Unicode upper-case mapping of `c` (one to
/// three characters); an ASCII character maps to its ASCII capital, or to itself when it is
/// not a lower-case letter.
#[verifier::external_body]
fn upper_chars(c: char) -> (r: Vec<char>)
    ensures
        r@ == char_uppercase(c),
        (c as u32) < 128 ==> r@ == seq![ascii_upper_spec(c)],
{
    c.to_uppercase().collect()
}

/// The modifier names of a combo, in the order Ctrl, Alt, Shift, Win.
pub open spec fn modifier_names(c: KeyCombo) -> Seq<Seq<char>> {
    let a = if c.ctrl {
        seq!["Ctrl"@]
    } else {
        Seq::empty()
    };
    let b = if c.alt {
        a.push("Alt"@)
    } else {
        a
    };
    let d = if c.shift {
        b.push("Shift"@)
    } else {
        b
    };
    if c.win {
        d.push("Win"@)
    } else {
        d
    }
}

/// The parts joined by `+`.
pub open spec fn join_plus(parts: Seq<Seq<char>>) -> Seq<char>
    decreases parts.len(),
{
    if parts.len() == 0 {
        Seq::empty()
    } else if parts.len() == 1 {
        parts[0]
    } else {
        join_plus(parts.drop_last()) + "+"@ + parts.last()
    }
}

/// The name shown for a named (non-character, non-function) key.
pub open spec fn key_name(k: KeyCode) -> Seq<char> {
    match k {
        KeyCode::Up => "Up"@,
        KeyCode::Down => "Down"@,
        KeyCode::Left => "Left"@,
        KeyCode::Right => "Right"@,
        KeyCode::Space => "Space"@,
        KeyCode::Enter => "Enter"@,
        KeyCode::Escape => "Esc"@,
        KeyCode::PrintScreen => "PrtSc"@,
        _ => Seq::empty(),
    }
}

/// How a combo is shown: the modifiers joined by `+`, then `+` and the key; a character
/// key is upper-cased and a function key is `F` and its number.
pub open spec fn display_spec(c: KeyCombo) -> Seq<char> {
    let mods = join_plus(modifier_names(c));
    match c.key {
        KeyCode::Char(ch) => mods + "+"@ + char_uppercase(ch),
        KeyCode::F(n) => mods + "+F"@ + dec_spec(n as nat),
        _ => join_plus(modifier_names(c).push(key_name(c.key))),
    }
}

proof fn lemma_join_push(names: Seq<Seq<char>>, x: Seq<char>)
    ensures
        join_plus(names.push(x)) == (if names.len() == 0 {
            x
        } else {
            join_plus(names) + "+"@ + x
        }),
{
    assert(names.push(x).drop_last() == names);
}

fn push_part(out: &mut Vec<char>, first: &mut bool, part: &str)
    ensures
        final(out)@ == (if *old(first) {
            old(out)@ + part@
        } else {
            old(out)@ + "+"@ + part@
        }),
        !*final(first),
{
    if !*first {
        push_str(out, "+");
    }
    push_str(out, part);
    *first = false;
}

impl KeyCombo {
    pub fn display(&self) -> (r: String)
        ensures
            r@ == display_spec(*self),
            match self.key {
                KeyCode::Char(c) => (c as u32) < 128 ==> r@ == join_plus(modifier_names(*self)) + "+"@ + seq![
                    ascii_upper_spec(c),
                ],
                _ => true,
            },
    {
        proof {
            reveal_strlit("+");
            reveal_strlit("+F");
        }
        let mut out: Vec<char> = Vec::new();
        let mut first = true;
        let ghost names: Seq<Seq<char>> = Seq::empty();
        if self.ctrl {
            push_part(&mut out, &mut first, "Ctrl");
            proof {
                lemma_join_push(names, "Ctrl"@);
                names = names.push("Ctrl"@);
            }
        }
        assert(out@ == join_plus(names) && (first <==> names.len() == 0));
        if self.alt {
            push_part(&mut out, &mut first, "Alt");
            proof {
                lemma_join_push(names, "Alt"@);
                names = names.push("Alt"@);
            }
        }
        assert(out@ == join_plus(names) && (first <==> names.len() == 0));
        if self.shift {
            push_part(&mut out, &mut first, "Shift");
            proof {
                lemma_join_push(names, "Shift"@);
                names = names.push("Shift"@);
            }
        }
        assert(out@ == join_plus(names) && (first <==> names.len() == 0));
        if self.win {
            push_part(&mut out, &mut first, "Win");
            proof {
                lemma_join_push(names, "Win"@);
                names = names.push("Win"@);
            }
        }
        assert(names == modifier_names(*self));
        assert(out@ == join_plus(names) && (first <==> names.len() == 0));
        match self.key {
            KeyCode::Char(c) => {
                push_str(&mut out, "+");
                let up = upper_chars(c);
                let mut i: usize = 0;
                let ghost base = out@;
                while i < up.len()
                    invariant
                        0 <= i <= up.len(),
                        out@ == base + up@.subrange(0, i as int),
                    decreases up.len() - i,
                {
                    out.push(up[i]);
                    i = i + 1;
                    assert(up@.subrange(0, i as int) == up@.subrange(0, i - 1) + seq![up@[i - 1]]);
                }
                assert(up@.subrange(0, up.len() as int) == up@);
                return string_from(&out);
            },
            KeyCode::F(n) => {
                push_str(&mut out, "+F");
                push_decimal(&mut out, n as u64);
                return string_from(&out);
            },
            _ => {},
        }
        let name = match self.key {
            KeyCode::Up => "Up",
            KeyCode::Down => "Down",
            KeyCode::Left => "Left",
            KeyCode::Right => "Right",
            KeyCode::Space => "Space",
            KeyCode::Enter => "Enter",
            KeyCode::Escape => "Esc",
            _ => "PrtSc",
        };
        assert(name@ == key_name(self.key));
        push_part(&mut out, &mut first, name);
        proof {
            lemma_join_push(names, name@);
        }
        string_from(&out)
    }
}

/// Why the hotkey manager refused a request.
#[derive(Debug)]
pub enum HotkeyError {
    /// The combo is already taken by another binding (`combo` is how it is shown).
    Conflict { combo: String, existing: String },
    /// The platform backend failed.
    Backend(String),
}

impl HotkeyError {
    /// How the refusal is reported: for a conflict, the combo and the binding holding it; for
    /// a backend failure, the backend's own message.
    pub fn message(&self) -> (r: String)
        ensures
            r@ == match self {
                HotkeyError::Conflict { combo, existing } => "Hotkey "@ + combo@ + " conflicts with existing binding '"@
                    + existing@ + "'"@,
                HotkeyError::Backend(m) => m@,
            },
    {
        match self {
            HotkeyError::Conflict { combo, existing } => {
                let mut out: Vec<char> = Vec::new();
                push_str(&mut out, "Hotkey ");
                push_str(&mut out, combo.as_str());
                push_str(&mut out, " conflicts with existing binding '");
                push_str(&mut out, existing.as_str());
                push_str(&mut out, "'");
                string_from(&out)
            },
            HotkeyError::Backend(m) => m.clone(),
        }
    }
}

/// A platform facility that registers global shortcuts. Implementations are written by the
/// users of the manager; one that keeps the laws below says so through
/// `keeps_hotkey_laws`, and of one that does not nothing is claimed.
pub trait HotkeyBackend {
    /// Whether this backend keeps the laws stated on its methods.
    open spec fn keeps_hotkey_laws(&self) -> bool {
        false
    }

    /// The ids of the shortcuts the backend holds.
    open spec fn registered_ids(&self) -> Set<Seq<char>> {
        Set::empty()
    }

    /// The id the backend reports as holding `combo`, if any.
    open spec fn conflict_of(&self, combo: KeyCombo) -> Option<Seq<char>> {
        None
    }

    /// Whether the backend never refuses a registration or a release.
    open spec fn always_accepts(&self) -> bool {
        false
    }

    /// Registers the shortcut; on success its id is held, besides those held before.
    fn register(&mut self, hotkey: &HotkeyBinding) -> (r: Result<(), String>)
        ensures
            old(self).always_accepts() ==> r is Ok && final(self).always_accepts(),
            old(self).keeps_hotkey_laws() ==> final(self).keeps_hotkey_laws(),
            old(self).keeps_hotkey_laws() && r is Ok ==> final(self).registered_ids() == old(
                self,
            ).registered_ids().insert(hotkey.id@),
            old(self).keeps_hotkey_laws() && r is Ok ==> final(self).conflict_of(hotkey.combo) is Some,
            old(self).keeps_hotkey_laws() && r is Ok ==> forall|c: KeyCombo|
                c != hotkey.combo ==> #[trigger] final(self).conflict_of(c) == old(self).conflict_of(c),
    ;

    /// Releases the shortcut `id`; on success it is no longer held, the others are.
    fn unregister(&mut self, id: &str) -> (r: Result<(), String>)
        ensures
            old(self).always_accepts() ==> r is Ok && final(self).always_accepts(),
            old(self).keeps_hotkey_laws() ==> final(self).keeps_hotkey_laws(),
            old(self).keeps_hotkey_laws() && r is Ok ==> final(self).registered_ids() == old(
                self,
            ).registered_ids().remove(id@),
    ;

    /// Releases every shortcut; on success none is held.
    fn unregister_all(&mut self) -> (r: Result<(), String>)
        ensures
            old(self).always_accepts() ==> r is Ok && final(self).always_accepts(),
            old(self).keeps_hotkey_laws() ==> final(self).keeps_hotkey_laws(),
            old(self).keeps_hotkey_laws() && r is Ok ==> final(self).registered_ids() == Set::<
                Seq<char>,
            >::empty(),
            old(self).keeps_hotkey_laws() && r is Ok ==> forall|c: KeyCombo| #[trigger] final(self).conflict_of(c) is None,
    ;

    /// Whether the shortcut `id` is held.
    fn is_registered(&self, id: &str) -> (r: bool)
        ensures
            self.keeps_hotkey_laws() ==> r == self.registered_ids().contains(id@),
    ;

    /// The id of the shortcut holding `combo`, if any.
    fn check_conflict(&self, combo: &KeyCombo) -> (r: Option<String>)
        ensures
            self.keeps_hotkey_laws() ==> match r {
                Some(id) => self.conflict_of(*combo) == Some(id@),
                None => self.conflict_of(*combo) is None,
            },
    ;
}

/// No two bindings share an id.
pub open spec fn ids_unique(s: Seq<HotkeyBindingView>) -> bool {
    forall|i: int, j: int| 0 <= i < s.len() && 0 <= j < s.len() && i != j ==> s[i].id != s[j].id
}

/// Some binding has the id.
pub open spec fn has_id(s: Seq<HotkeyBindingView>, id: Seq<char>) -> bool {
    exists|i: int| 0 <= i < s.len() && #[trigger] s[i].id == id
}

/// The position of the binding with the id (meaningful when `has_id`).
pub open spec fn index_of_id(s: Seq<HotkeyBindingView>, id: Seq<char>) -> int {
    choose|i: int| 0 <= i < s.len() && #[trigger] s[i].id == id
}

/// The bindings after setting `b`: it replaces the binding with its id, or is appended.
pub open spec fn upsert_spec(s: Seq<HotkeyBindingView>, b: HotkeyBindingView) -> Seq<
    HotkeyBindingView,
> {
    if has_id(s, b.id) {
        s.update(index_of_id(s, b.id), b)
    } else {
        s.push(b)
    }
}

/// The bindings after removing the one with the id, if any.
pub open spec fn remove_id_spec(s: Seq<HotkeyBindingView>, id: Seq<char>) -> Seq<HotkeyBindingView> {
    if has_id(s, id) {
        s.remove(index_of_id(s, id))
    } else {
        s
    }
}

/// The values of some bindings.
pub open spec fn views_of(bs: Seq<HotkeyBinding>) -> Seq<HotkeyBindingView> {
    bs.map_values(|b: HotkeyBinding| b@)
}

/// The bindings after setting each of `bs` in turn.
pub open spec fn upsert_all_spec(s: Seq<HotkeyBindingView>, bs: Seq<HotkeyBindingView>) -> Seq<
    HotkeyBindingView,
>
    decreases bs.len(),
{
    if bs.len() == 0 {
        s
    } else {
        upsert_spec(upsert_all_spec(s, bs.drop_last()), bs.last())
    }
}

/// The binding with the id, if any.
pub open spec fn lookup_spec(s: Seq<HotkeyBindingView>, id: Seq<char>) -> Option<HotkeyBindingView> {
    if has_id(s, id) {
        Some(s[index_of_id(s, id)])
    } else {
        None
    }
}

proof fn lemma_index_unique(s: Seq<HotkeyBindingView>, id: Seq<char>, k: int)
    requires
        ids_unique(s),
        0 <= k < s.len(),
        s[k].id == id,
    ensures
        has_id(s, id),
        index_of_id(s, id) == k,
{
    assert(s[k].id == id);
    let c = index_of_id(s, id);
    assert(0 <= c < s.len() && s[c].id == id);
}

/// Registering a binding makes it the one found under its id and leaves every other id as it
/// was; ids stay unique.
pub proof fn lemma_upsert_unique(s: Seq<HotkeyBindingView>, b: HotkeyBindingView)
    requires
        ids_unique(s),
    ensures
        ids_unique(upsert_spec(s, b)),
        has_id(upsert_spec(s, b), b.id),
        lookup_spec(upsert_spec(s, b), b.id) == Some(b),
        forall|id: Seq<char>| id != b.id ==> lookup_spec(upsert_spec(s, b), id) == lookup_spec(s, id),
{
    let u = upsert_spec(s, b);
    if has_id(s, b.id) {
        let k = index_of_id(s, b.id);
        assert(u[k].id == b.id);
        lemma_index_unique(u, b.id, k);
        assert forall|id: Seq<char>| id != b.id implies lookup_spec(u, id) == lookup_spec(s, id) by {
            if has_id(s, id) {
                let j = index_of_id(s, id);
                assert(u[j].id == id);
                lemma_index_unique(u, id, j);
            }
            if has_id(u, id) {
                let j = index_of_id(u, id);
                assert(s[j].id == id);
            }
        }
    } else {
        let k = s.len() as int;
        assert(u[k].id == b.id);
        lemma_index_unique(u, b.id, k);
        assert forall|id: Seq<char>| id != b.id implies lookup_spec(u, id) == lookup_spec(s, id) by {
            if has_id(s, id) {
                let j = index_of_id(s, id);
                assert(u[j].id == id);
                lemma_index_unique(u, id, j);
            }
            if has_id(u, id) {
                let j = index_of_id(u, id);
                assert(j != k);
                assert(s[j].id == id);
            }
        }
    }
}

/// Unregistering an id removes it and leaves every other id as it was; ids stay unique.
pub proof fn lemma_remove_unique(s: Seq<HotkeyBindingView>, id: Seq<char>)
    requires
        ids_unique(s),
    ensures
        ids_unique(remove_id_spec(s, id)),
        !has_id(remove_id_spec(s, id), id),
        forall|other: Seq<char>| other != id ==> lookup_spec(remove_id_spec(s, id), other) == lookup_spec(
            s,
            other,
        ),
{
    let r = remove_id_spec(s, id);
    if has_id(s, id) {
        let k = index_of_id(s, id);
        assert forall|i: int, j: int| 0 <= i < r.len() && 0 <= j < r.len() && i != j implies r[i].id
            != r[j].id by {
            let si = if i < k {
                i
            } else {
                i + 1
            };
            let sj = if j < k {
                j
            } else {
                j + 1
            };
            assert(r[i] == s[si] && r[j] == s[sj]);
        }
        if has_id(r, id) {
            let j = index_of_id(r, id);
            let sj = if j < k {
                j
            } else {
                j + 1
            };
            assert(r[j] == s[sj]);
        }
        assert forall|other: Seq<char>| other != id implies lookup_spec(r, other) == lookup_spec(
            s,
            other,
        ) by {
            if has_id(s, other) {
                let j = index_of_id(s, other);
                assert(j != k);
                let rj = if j < k {
                    j
                } else {
                    j - 1
                };
                assert(r[rj] == s[j]);
                lemma_index_unique(r, other, rj);
            }
            if has_id(r, other) {
                let j = index_of_id(r, other);
                let sj = if j < k {
                    j
                } else {
                    j + 1
                };
                assert(r[j] == s[sj]);
            }
        }
    }
}

proof fn lemma_upsert_all_unique(s: Seq<HotkeyBindingView>, bs: Seq<HotkeyBindingView>)
    requires
        ids_unique(s),
    ensures
        ids_unique(upsert_all_spec(s, bs)),
    decreases bs.len(),
{
    if bs.len() > 0 {
        lemma_upsert_all_unique(s, bs.drop_last());
        lemma_upsert_unique(upsert_all_spec(s, bs.drop_last()), bs.last());
    }
}

/// The position of the binding with the id.
fn find_index(v: &Vec<HotkeyBinding>, id: &str) -> (r: Option<usize>)
    requires
        ids_unique(v@.map_values(|b: HotkeyBinding| b@)),
    ensures
        match r {
            Some(i) => i < v.len() && v@[i as int].id@ == id@ && index_of_id(
                v@.map_values(|b: HotkeyBinding| b@),
                id@,
            ) == i && has_id(v@.map_values(|b: HotkeyBinding| b@), id@),
            None => !has_id(v@.map_values(|b: HotkeyBinding| b@), id@),
        },
{
    let ghost s = v@.map_values(|b: HotkeyBinding| b@);
    let target = chars_of(id);
    let mut i: usize = 0;
    while i < v.len()
        invariant
            s == v@.map_values(|b: HotkeyBinding| b@),
            ids_unique(s),
            target@ == id@,
            0 <= i <= v.len(),
            forall|j: int| 0 <= j < i ==> s[j].id != id@,
        decreases v.len() - i,
    {
        let cand = chars_of(v[i].id.as_str());
        if chars_equal(&cand, &target) {
            assert(s[i as int].id == id@);
            proof {
                lemma_index_unique(s, id@, i as int);
            }
            return Some(i);
        }
        i = i + 1;
    }
    None
}

fn chars_equal(a: &Vec<char>, b: &Vec<char>) -> (r: bool)
    ensures
        r == (a@ == b@),
{
    if a.len() != b.len() {
        return false;
    }
    let mut i: usize = 0;
    while i < a.len()
        invariant
            a.len() == b.len(),
            0 <= i <= a.len(),
            forall|j: int| 0 <= j < i ==> a@[j] == b@[j],
        decreases a.len() - i,
    {
        if a[i] != b[i] {
            return false;
        }
        i = i + 1;
    }
    assert(a@ =~= b@);
    true
}

/// Sets `b` in the list of bindings.
fn upsert(v: &mut Vec<HotkeyBinding>, b: HotkeyBinding)
    requires
        ids_unique(old(v)@.map_values(|x: HotkeyBinding| x@)),
    ensures
        final(v)@.map_values(|x: HotkeyBinding| x@) == upsert_spec(
            old(v)@.map_values(|x: HotkeyBinding| x@),
            b@,
        ),
        ids_unique(final(v)@.map_values(|x: HotkeyBinding| x@)),
{
    let ghost s = v@.map_values(|x: HotkeyBinding| x@);
    proof {
        lemma_upsert_unique(s, b@);
    }
    match find_index(v, b.id.as_str()) {
        Some(i) => {
            v.set(i, b);
            assert(v@.map_values(|x: HotkeyBinding| x@) =~= upsert_spec(s, b@));
        },
        None => {
            v.push(b);
            assert(v@.map_values(|x: HotkeyBinding| x@) =~= upsert_spec(s, b@));
        },
    }
}

/// The error register reports for a combo the backend says is taken: none when the combo is
/// free or taken by the binding itself, a conflict naming the holder otherwise.
pub fn conflict_error(conflict: Option<String>, binding: &HotkeyBinding) -> (r: Option<HotkeyError>)
    ensures
        match conflict {
            Some(c) => if c@ != binding.id@ {
                r matches Some(HotkeyError::Conflict { combo, existing }) && combo@ == display_spec(
                    binding.combo,
                ) && existing@ == c@
            } else {
                r is None
            },
            None => r is None,
        },
{
    match conflict {
        Some(c) => {
            let a = chars_of(c.as_str());
            let b = chars_of(binding.id.as_str());
            if !chars_equal(&a, &b) {
                Some(HotkeyError::Conflict { combo: binding.combo.display(), existing: c })
            } else {
                None
            }
        },
        None => None,
    }
}

/// Whether `c`, what the backend reports for a combo, names a shortcut other than `id`.
pub open spec fn held_by_other(c: Option<Seq<char>>, id: Seq<char>) -> bool {
    match c {
        Some(x) => x != id,
        None => false,
    }
}

/// No binding is enabled.
pub open spec fn none_enabled(s: Seq<HotkeyBindingView>) -> bool {
    forall|k: int| 0 <= k < s.len() ==> !(#[trigger] s[k]).enabled
}

/// The ids of the enabled bindings.
pub open spec fn enabled_ids(s: Seq<HotkeyBindingView>) -> Set<Seq<char>> {
    Set::new(|id: Seq<char>| exists|k: int| 0 <= k < s.len() && (#[trigger] s[k]).enabled && s[k].id == id)
}

/// One more binding adds its id to the enabled ids when it is enabled.
proof fn lemma_enabled_ids_step(s: Seq<HotkeyBindingView>, i: int)
    requires
        0 <= i < s.len(),
    ensures
        enabled_ids(s.take(i + 1)) == if s[i].enabled {
            enabled_ids(s.take(i)).insert(s[i].id)
        } else {
            enabled_ids(s.take(i))
        },
{
    let a = s.take(i);
    let b = s.take(i + 1);
    assert forall|id: Seq<char>| enabled_ids(b).contains(id) == (if s[i].enabled {
        enabled_ids(a).insert(s[i].id)
    } else {
        enabled_ids(a)
    }).contains(id) by {
        if enabled_ids(b).contains(id) {
            let k = choose|k: int| 0 <= k < b.len() && (#[trigger] b[k]).enabled && b[k].id == id;
            if k < i {
                assert(a[k] == b[k]);
            }
        }
        if enabled_ids(a).contains(id) {
            let k = choose|k: int| 0 <= k < a.len() && (#[trigger] a[k]).enabled && a[k].id == id;
            assert(b[k] == a[k]);
        }
        if s[i].enabled && id == s[i].id {
            assert(b[i] == s[i]);
        }
    }
    if s[i].enabled {
        assert(enabled_ids(b) =~= enabled_ids(a).insert(s[i].id));
    } else {
        assert(enabled_ids(b) =~= enabled_ids(a));
    }
}

/// Registers shortcuts with a platform backend and keeps the bindings it manages.
pub struct HotkeyManager<B: HotkeyBackend> {
    backend: B,
    bindings: Vec<HotkeyBinding>,
    paused: bool,
}

impl<B: HotkeyBackend> HotkeyManager<B> {
    /// The managed bindings.
    pub closed spec fn bindings_spec(&self) -> Seq<HotkeyBindingView> {
        self.bindings@.map_values(|b: HotkeyBinding| b@)
    }

    pub closed spec fn paused_spec(&self) -> bool {
        self.paused
    }

    /// The platform backend the manager drives.
    pub closed spec fn backend_spec(&self) -> B {
        self.backend
    }

    /// The backend keeps the laws of `HotkeyBackend`.
    pub open spec fn laws_kept(&self) -> bool {
        self.backend_spec().keeps_hotkey_laws()
    }

    /// The backend never refuses a registration or a release.
    pub open spec fn backend_accepts(&self) -> bool {
        self.backend_spec().always_accepts()
    }

    /// Bindings are keyed by their id.
    pub closed spec fn wf(&self) -> bool {
        ids_unique(self.bindings_spec())
    }

    pub fn new(backend: B) -> (r: Self)
        ensures
            r.wf(),
            r.backend_spec() == backend,
            r.bindings_spec() == Seq::<HotkeyBindingView>::empty(),
            !r.paused_spec(),
    {
        let r = Self { backend, bindings: Vec::new(), paused: false };
        assert(r.bindings_spec() =~= Seq::<HotkeyBindingView>::empty());
        r
    }

    /// The platform backend.
    pub fn backend(&self) -> (r: &B)
        ensures
            *r == self.backend_spec(),
    {
        &self.backend
    }

    /// Registers a binding, replacing the one with the same id. Refused when the backend
    /// reports the combo as held by another binding, or when the backend fails; the
    /// bindings are then unchanged.
    pub fn register(&mut self, binding: HotkeyBinding) -> (r: Result<(), HotkeyError>)
        requires
            old(self).wf(),
        ensures
            final(self).wf(),
            final(self).paused_spec() == old(self).paused_spec(),
            match r {
                Ok(()) => final(self).bindings_spec() == upsert_spec(
                    old(self).bindings_spec(),
                    binding@,
                ),
                Err(HotkeyError::Conflict { combo, existing }) => {
                    &&& final(self).bindings_spec() == old(self).bindings_spec()
                    &&& final(self).backend_spec() == old(self).backend_spec()
                    &&& existing@ != binding.id@
                    &&& combo@ == display_spec(binding.combo)
                },
                Err(HotkeyError::Backend(_)) => final(self).bindings_spec() == old(
                    self,
                ).bindings_spec(),
            },
            old(self).laws_kept() ==> final(self).laws_kept(),
            old(self).laws_kept() && held_by_other(old(self).backend_spec().conflict_of(binding.combo), binding.id@)
                ==> (r matches Err(HotkeyError::Conflict { existing, .. }) && old(self).backend_spec().conflict_of(
                binding.combo,
            ) == Some(existing@)),
            old(self).laws_kept() && r is Ok ==> final(self).backend_spec().registered_ids() == old(
                self,
            ).backend_spec().registered_ids().insert(binding.id@),
            old(self).laws_kept() && r is Ok ==> forall|c: KeyCombo|
                c != binding.combo ==> #[trigger] final(self).backend_spec().conflict_of(c) == old(
                    self,
                ).backend_spec().conflict_of(c),
            old(self).laws_kept() && (r matches Err(HotkeyError::Backend(_))) ==> !held_by_other(
                old(self).backend_spec().conflict_of(binding.combo),
                binding.id@,
            ),
            old(self).backend_accepts() ==> final(self).backend_accepts() && !(r matches Err(HotkeyError::Backend(_))),
            old(self).backend_accepts() && old(self).laws_kept() ==> (r is Ok <==> !held_by_other(
                old(self).backend_spec().conflict_of(binding.combo),
                binding.id@,
            )),
    {
        let conflict = self.backend.check_conflict(&binding.combo);
        if let Some(e) = conflict_error(conflict, &binding) {
            return Err(e);
        }
        match self.backend.register(&binding) {
            Ok(()) => {},
            Err(e) => return Err(HotkeyError::Backend(e)),
        }
        upsert(&mut self.bindings, binding);
        Ok(())
    }

    /// Unregisters the binding with the id and forgets it; on a backend failure nothing is
    /// forgotten.
    pub fn unregister(&mut self, id: &str) -> (r: Result<(), HotkeyError>)
        requires
            old(self).wf(),
        ensures
            final(self).wf(),
            final(self).paused_spec() == old(self).paused_spec(),
            match r {
                Ok(()) => final(self).bindings_spec() == remove_id_spec(
                    old(self).bindings_spec(),
                    id@,
                ),
                Err(e) => e is Backend && final(self).bindings_spec() == old(self).bindings_spec(),
            },
            old(self).laws_kept() ==> final(self).laws_kept(),
            old(self).laws_kept() && r is Ok ==> final(self).backend_spec().registered_ids() == old(
                self,
            ).backend_spec().registered_ids().remove(id@),
            old(self).backend_accepts() ==> r is Ok && final(self).backend_accepts(),
    {
        match self.backend.unregister(id) {
            Ok(()) => {},
            Err(e) => return Err(HotkeyError::Backend(e)),
        }
        let ghost s = self.bindings_spec();
        proof {
            lemma_remove_unique(s, id@);
        }
        match find_index(&self.bindings, id) {
            Some(i) => {
                self.bindings.remove(i);
                assert(self.bindings_spec() =~= remove_id_spec(s, id@));
            },
            None => {},
        }
        Ok(())
    }

    /// Unregisters everything and forgets all bindings; on a backend failure nothing is
    /// forgotten.
    pub fn unregister_all(&mut self) -> (r: Result<(), HotkeyError>)
        requires
            old(self).wf(),
        ensures
            final(self).wf(),
            final(self).paused_spec() == old(self).paused_spec(),
            match r {
                Ok(()) => final(self).bindings_spec() == Seq::<HotkeyBindingView>::empty(),
                Err(e) => e is Backend && final(self).bindings_spec() == old(self).bindings_spec(),
            },
            old(self).laws_kept() ==> final(self).laws_kept(),
            old(self).laws_kept() && r is Ok ==> final(self).backend_spec().registered_ids() == Set::<
                Seq<char>,
            >::empty(),
            old(self).laws_kept() && r is Ok ==> forall|c: KeyCombo| #[trigger] final(self).backend_spec().conflict_of(c) is None,
            old(self).backend_accepts() ==> r is Ok && final(self).backend_accepts(),
    {
        match self.backend.unregister_all() {
            Ok(()) => {},
            Err(e) => return Err(HotkeyError::Backend(e)),
        }
        self.bindings.clear();
        assert(self.bindings_spec() =~= Seq::<HotkeyBindingView>::empty());
        Ok(())
    }

    /// Unregisters the binding's id at the backend, then registers the binding.
    pub fn update_binding(&mut self, binding: HotkeyBinding) -> (r: Result<(), HotkeyError>)
        requires
            old(self).wf(),
        ensures
            final(self).wf(),
            final(self).paused_spec() == old(self).paused_spec(),
            match r {
                Ok(()) => final(self).bindings_spec() == upsert_spec(
                    old(self).bindings_spec(),
                    binding@,
                ),
                Err(HotkeyError::Conflict { combo, existing }) => {
                    &&& final(self).bindings_spec() == old(self).bindings_spec()
                    &&& existing@ != binding.id@
                    &&& combo@ == display_spec(binding.combo)
                },
                Err(HotkeyError::Backend(_)) => final(self).bindings_spec() == old(
                    self,
                ).bindings_spec(),
            },
            old(self).laws_kept() ==> final(self).laws_kept(),
            old(self).laws_kept() && r is Ok ==> final(self).backend_spec().registered_ids() == old(
                self,
            ).backend_spec().registered_ids().insert(binding.id@),
            old(self).backend_accepts() ==> final(self).backend_accepts() && !(r matches Err(HotkeyError::Backend(_))),
    {
        let ghost before = self.backend_spec().registered_ids();
        match self.backend.unregister(binding.id.as_str()) {
            Ok(()) => {},
            Err(e) => return Err(HotkeyError::Backend(e)),
        }
        let ghost id = binding.id@;
        let r = self.register(binding);
        proof {
            if old(self).laws_kept() && r is Ok {
                assert(before.remove(id).insert(id) =~= before.insert(id));
            }
        }
        r
    }

    pub fn get_binding(&self, id: &str) -> (r: Option<&HotkeyBinding>)
        requires
            self.wf(),
        ensures
            match r {
                Some(b) => lookup_spec(self.bindings_spec(), id@) == Some(b@),
                None => lookup_spec(self.bindings_spec(), id@) is None,
            },
    {
        match find_index(&self.bindings, id) {
            Some(i) => Some(&self.bindings[i]),
            None => None,
        }
    }

    /// The first binding for the action, if there is one.
    pub fn get_binding_for_action(&self, action: HotkeyAction) -> (r: Option<&HotkeyBinding>)
        ensures
            match r {
                Some(b) => b.action == action && exists|i: int|
                    0 <= i < self.bindings_spec().len() && #[trigger] self.bindings_spec()[i] == b@
                        && forall|j: int| 0 <= j < i ==> (#[trigger] self.bindings_spec()[j]).action != action,
                None => forall|i: int|
                    0 <= i < self.bindings_spec().len() ==> #[trigger] self.bindings_spec()[i].action
                        != action,
            },
    {
        let mut i: usize = 0;
        while i < self.bindings.len()
            invariant
                0 <= i <= self.bindings.len(),
                forall|j: int| 0 <= j < i ==> #[trigger] self.bindings_spec()[j].action != action,
            decreases self.bindings.len() - i,
        {
            if self.bindings[i].action == action {
                assert(self.bindings_spec()[i as int] == self.bindings@[i as int]@);
                return Some(&self.bindings[i]);
            }
            i = i + 1;
        }
        None
    }

    /// All managed bindings.
    pub fn all_bindings(&self) -> (r: Vec<&HotkeyBinding>)
        ensures
            r@.len() == self.bindings_spec().len(),
            forall|i: int| 0 <= i < r@.len() ==> #[trigger] r@[i]@ == self.bindings_spec()[i],
    {
        let mut out: Vec<&HotkeyBinding> = Vec::new();
        let mut i: usize = 0;
        while i < self.bindings.len()
            invariant
                0 <= i <= self.bindings.len(),
                out@.len() == i,
                forall|j: int| 0 <= j < i ==> #[trigger] out@[j]@ == self.bindings_spec()[j],
            decreases self.bindings.len() - i,
        {
            out.push(&self.bindings[i]);
            i = i + 1;
        }
        out
    }

    /// Whether the backend has the id registered.
    pub fn is_registered(&self, id: &str) -> (r: bool)
        ensures
            self.laws_kept() ==> r == self.backend_spec().registered_ids().contains(id@),
    {
        self.backend.is_registered(id)
    }

    /// The id of the binding the backend holds for the combo, if any.
    pub fn check_conflict(&self, combo: &KeyCombo) -> (r: Option<String>)
        ensures
            self.laws_kept() ==> match r {
                Some(id) => self.backend_spec().conflict_of(*combo) == Some(id@),
                None => self.backend_spec().conflict_of(*combo) is None,
            },
    {
        self.backend.check_conflict(combo)
    }

    /// Unregisters every shortcut at the backend and marks the manager paused; the bindings
    /// are kept for resuming.
    pub fn pause_all(&mut self) -> (r: Result<(), HotkeyError>)
        requires
            old(self).wf(),
        ensures
            final(self).wf(),
            final(self).bindings_spec() == old(self).bindings_spec(),
            match r {
                Ok(()) => final(self).paused_spec(),
                Err(e) => e is Backend && final(self).paused_spec() == old(self).paused_spec(),
            },
            old(self).laws_kept() ==> final(self).laws_kept(),
            old(self).laws_kept() && r is Ok ==> final(self).backend_spec().registered_ids() == Set::<
                Seq<char>,
            >::empty(),
            old(self).laws_kept() && r is Ok ==> forall|c: KeyCombo| #[trigger] final(self).backend_spec().conflict_of(c) is None,
            old(self).backend_accepts() ==> r is Ok && final(self).backend_accepts(),
    {
        match self.backend.unregister_all() {
            Ok(()) => {},
            Err(e) => return Err(HotkeyError::Backend(e)),
        }
        self.paused = true;
        Ok(())
    }

    /// Registers every enabled binding at the backend again and clears the pause.
    pub fn resume_all(&mut self) -> (r: Result<(), HotkeyError>)
        requires
            old(self).wf(),
        ensures
            final(self).wf(),
            final(self).bindings_spec() == old(self).bindings_spec(),
            match r {
                Ok(()) => !final(self).paused_spec(),
                Err(e) => e is Backend && final(self).paused_spec() == old(self).paused_spec(),
            },
            none_enabled(old(self).bindings_spec()) ==> r is Ok,
            old(self).laws_kept() ==> final(self).laws_kept(),
            old(self).laws_kept() && r is Ok ==> final(self).backend_spec().registered_ids() == old(
                self,
            ).backend_spec().registered_ids().union(enabled_ids(old(self).bindings_spec())),
            old(self).backend_accepts() ==> r is Ok && final(self).backend_accepts(),
    {
        let ghost s = self.bindings_spec();
        let ghost before = self.backend_spec().registered_ids();
        let mut i: usize = 0;
        assert(enabled_ids(s.take(0)) =~= Set::<Seq<char>>::empty());
        assert(before.union(Set::<Seq<char>>::empty()) =~= before);
        while i < self.bindings.len()
            invariant
                0 <= i <= self.bindings.len(),
                s == old(self).bindings_spec(),
                self.bindings_spec() == s,
                self.paused == old(self).paused,
                self.wf(),
                old(self).laws_kept() ==> self.laws_kept(),
                old(self).laws_kept() ==> self.backend_spec().registered_ids() == before.union(
                    enabled_ids(s.take(i as int)),
                ),
                before == old(self).backend_spec().registered_ids(),
                old(self).backend_accepts() ==> self.backend_accepts(),
            decreases self.bindings.len() - i,
        {
            let binding = self.bindings[i].clone();
            assert(binding@ == s[i as int]);
            let ghost prev = self.backend_spec().registered_ids();
            proof {
                lemma_enabled_ids_step(s, i as int);
            }
            if binding.enabled {
                match self.backend.register(&binding) {
                    Ok(()) => {},
                    Err(e) => {
                        assert(!none_enabled(s));
                        return Err(HotkeyError::Backend(e));
                    },
                }
                proof {
                    if old(self).laws_kept() {
                        assert(prev.insert(binding.id@) =~= before.union(enabled_ids(s.take(i + 1))));
                    }
                }
            }
            i = i + 1;
        }
        assert(s.take(s.len() as int) =~= s);
        self.paused = false;
        Ok(())
    }

    pub fn is_paused(&self) -> (r: bool)
        ensures
            r == self.paused_spec(),
    {
        self.paused
    }

    /// Registers each default binding whose id is not managed yet; managed ids keep their
    /// binding.
    pub fn register_defaults(&mut self) -> (r: Result<(), HotkeyError>)
        requires
            old(self).wf(),
        ensures
            final(self).wf(),
            final(self).paused_spec() == old(self).paused_spec(),
            r is Ok ==> forall|k: int|
                0 <= k < default_bindings_spec().len() ==> has_id(
                    final(self).bindings_spec(),
                    #[trigger] default_bindings_spec()[k].id,
                ),
            forall|id: Seq<char>|
                has_id(old(self).bindings_spec(), id) ==> lookup_spec(
                    final(self).bindings_spec(),
                    id,
                ) == lookup_spec(old(self).bindings_spec(), id),
            forall|id: Seq<char>|
                #![trigger has_id(final(self).bindings_spec(), id)]
                has_id(final(self).bindings_spec(), id) ==> has_id(old(self).bindings_spec(), id) || exists|k: int|
                    0 <= k < default_bindings_spec().len() && lookup_spec(final(self).bindings_spec(), id) == Some(
                        #[trigger] default_bindings_spec()[k],
                    ),
            r matches Err(HotkeyError::Conflict { combo, existing }) ==> exists|k: int|
                0 <= k < default_bindings_spec().len() && combo@ == display_spec(
                    #[trigger] default_bindings_spec()[k].combo,
                ) && existing@ != default_bindings_spec()[k].id,
            all_defaults_managed(old(self).bindings_spec()) ==> r is Ok,
            old(self).laws_kept() ==> final(self).laws_kept(),
            old(self).laws_kept() && r is Ok ==> old(self).backend_spec().registered_ids().subset_of(
                final(self).backend_spec().registered_ids(),
            ),
            old(self).laws_kept() && r is Ok ==> forall|k: int|
                0 <= k < default_bindings_spec().len() && !has_id(
                    old(self).bindings_spec(),
                    #[trigger] default_bindings_spec()[k].id,
                ) ==> final(self).backend_spec().registered_ids().contains(default_bindings_spec()[k].id),
            old(self).backend_accepts() ==> final(self).backend_accepts() && !(r matches Err(HotkeyError::Backend(_))),
            old(self).backend_accepts() && old(self).laws_kept() && defaults_free(
                old(self).bindings_spec(),
                old(self).backend_spec(),
            ) ==> r is Ok,
    {
        let ghost regs0 = self.backend_spec().registered_ids();
        let ghost b0 = self.backend_spec();
        proof {
            lemma_default_combos_distinct();
        }
        let defaults = default_bindings();
        let mut i: usize = 0;
        while i < defaults.len()
            invariant
                0 <= i <= defaults.len(),
                defaults@.map_values(|b: HotkeyBinding| b@) == default_bindings_spec(),
                self.wf(),
                self.paused == old(self).paused,
                forall|k: int|
                    0 <= k < i ==> has_id(self.bindings_spec(), #[trigger] default_bindings_spec()[k].id),
                forall|id: Seq<char>|
                    has_id(old(self).bindings_spec(), id) ==> lookup_spec(self.bindings_spec(), id)
                        == lookup_spec(old(self).bindings_spec(), id),
                forall|id: Seq<char>|
                    has_id(old(self).bindings_spec(), id) ==> has_id(self.bindings_spec(), id),
                forall|id: Seq<char>|
                    #![trigger has_id(self.bindings_spec(), id)]
                    has_id(self.bindings_spec(), id) ==> has_id(old(self).bindings_spec(), id) || exists|k: int|
                        0 <= k < i && lookup_spec(self.bindings_spec(), id) == Some(
                            #[trigger] default_bindings_spec()[k],
                        ),
                regs0 == old(self).backend_spec().registered_ids(),
                old(self).backend_accepts() ==> self.backend_accepts(),
                old(self).laws_kept() ==> self.laws_kept(),
                old(self).laws_kept() ==> regs0.subset_of(self.backend_spec().registered_ids()),
                b0 == old(self).backend_spec(),
                forall|j: int, k: int|
                    0 <= j < default_bindings_spec().len() && 0 <= k < default_bindings_spec().len() && j != k
                        ==> #[trigger] default_bindings_spec()[j].combo != #[trigger] default_bindings_spec()[k].combo,
                old(self).laws_kept() ==> forall|k: int|
                    i <= k < default_bindings_spec().len() ==> self.backend_spec().conflict_of(
                        #[trigger] default_bindings_spec()[k].combo,
                    ) == b0.conflict_of(default_bindings_spec()[k].combo),
                old(self).laws_kept() ==> forall|k: int|
                    0 <= k < i && !has_id(old(self).bindings_spec(), #[trigger] default_bindings_spec()[k].id)
                        ==> self.backend_spec().registered_ids().contains(default_bindings_spec()[k].id),
            decreases defaults.len() - i,
        {
            let b = defaults[i].clone();
            assert(b@ == default_bindings_spec()[i as int]);
            let ghost before = self.bindings_spec();
            let ghost regs = self.backend_spec().registered_ids();
            let found = find_index(&self.bindings, b.id.as_str());
            proof {
                let bid = b@.id;
                if found is Some && old(self).laws_kept() && !has_id(old(self).bindings_spec(), bid) {
                    assert(has_id(before, bid));
                    let k = choose|k: int|
                        0 <= k < i && lookup_spec(before, bid) == Some(#[trigger] default_bindings_spec()[k]);
                    assert(before[index_of_id(before, bid)].id == bid);
                    assert(default_bindings_spec()[k].id == bid);
                }
            }
            if found.is_none() {
                proof {
                    lemma_upsert_unique(before, b@);
                }
                let ghost bid = b@.id;
                let ghost bcombo = b.combo;
                match self.register(b) {
                    Ok(()) => {},
                    Err(e) => {
                        assert(default_bindings_spec()[i as int].combo == bcombo);
                        assert(!has_id(old(self).bindings_spec(), default_bindings_spec()[i as int].id));
                        return Err(e);
                    },
                }
                proof {
                    if old(self).laws_kept() {
                        assert forall|k: int| i + 1 <= k < default_bindings_spec().len() implies self.backend_spec().conflict_of(
                            #[trigger] default_bindings_spec()[k].combo,
                        ) == b0.conflict_of(default_bindings_spec()[k].combo) by {
                            assert(default_bindings_spec()[k].combo != default_bindings_spec()[i as int].combo);
                        }
                        assert(self.backend_spec().registered_ids() == regs.insert(bid));
                        assert forall|k: int|
                            0 <= k < i + 1 && !has_id(old(self).bindings_spec(), #[trigger] default_bindings_spec()[k].id)
                                implies self.backend_spec().registered_ids().contains(default_bindings_spec()[k].id) by {
                            if k < i {
                                assert(regs.contains(default_bindings_spec()[k].id));
                            }
                        }
                    }
                }
                assert forall|id: Seq<char>| has_id(self.bindings_spec(), id) implies has_id(
                    old(self).bindings_spec(),
                    id,
                ) || exists|k: int|
                    0 <= k < i + 1 && lookup_spec(self.bindings_spec(), id) == Some(
                        #[trigger] default_bindings_spec()[k],
                    ) by {
                    if id == bid {
                        assert(lookup_spec(self.bindings_spec(), id) == Some(default_bindings_spec()[i as int]));
                    } else {
                        assert(lookup_spec(self.bindings_spec(), id) == lookup_spec(before, id));
                        assert(has_id(before, id));
                    }
                }
                assert forall|k: int| 0 <= k < i + 1 implies has_id(
                    self.bindings_spec(),
                    #[trigger] default_bindings_spec()[k].id,
                ) by {
                    let kid = default_bindings_spec()[k].id;
                    if kid != bid {
                        assert(has_id(before, kid));
                        assert(lookup_spec(self.bindings_spec(), kid) == lookup_spec(before, kid));
                    }
                }
                assert forall|id: Seq<char>| has_id(old(self).bindings_spec(), id) implies has_id(
                    self.bindings_spec(),
                    id,
                ) by {
                    assert(has_id(before, id));
                    if id != bid {
                        assert(lookup_spec(self.bindings_spec(), id) == lookup_spec(before, id));
                    }
                }
            }
            i = i + 1;
        }
        Ok(())
    }

    /// Replaces every binding by the given ones: unregisters all, then registers each in
    /// turn, stopping at the first refusal.
    pub fn load_bindings(&mut self, bindings: Vec<HotkeyBinding>) -> (r: Result<(), HotkeyError>)
        requires
            old(self).wf(),
        ensures
            final(self).wf(),
            final(self).paused_spec() == old(self).paused_spec(),
            r is Ok ==> final(self).bindings_spec() == upsert_all_spec(
                Seq::empty(),
                bindings@.map_values(|b: HotkeyBinding| b@),
            ),
            r matches Err(e) ==> (e is Backend && final(self).bindings_spec() == old(self).bindings_spec()) || exists|j: int|
                0 <= j < bindings@.len() && final(self).bindings_spec() == #[trigger] upsert_all_spec(
                    Seq::empty(),
                    views_of(bindings@).subrange(0, j),
                ),
            r matches Err(HotkeyError::Conflict { combo, existing }) ==> exists|j: int|
                0 <= j < bindings@.len() && combo@ == display_spec(#[trigger] bindings@[j].combo) && existing@
                    != bindings@[j].id@,
            old(self).laws_kept() ==> final(self).laws_kept(),
            old(self).laws_kept() && r is Ok ==> final(self).backend_spec().registered_ids() == ids_of(
                views_of(bindings@),
            ),
            old(self).backend_accepts() ==> final(self).backend_accepts() && !(r matches Err(HotkeyError::Backend(_))),
            old(self).backend_accepts() && old(self).laws_kept() && combos_distinct(views_of(bindings@)) ==> r is Ok,
    {
        match self.unregister_all() {
            Ok(()) => {},
            Err(e) => return Err(e),
        }
        let ghost bs = bindings@.map_values(|b: HotkeyBinding| b@);
        let mut i: usize = 0;
        assert(ids_of(bs.subrange(0, 0)) =~= Set::<Seq<char>>::empty());
        while i < bindings.len()
            invariant
                0 <= i <= bindings.len(),
                bs == bindings@.map_values(|b: HotkeyBinding| b@),
                self.wf(),
                self.paused == old(self).paused,
                self.bindings_spec() == upsert_all_spec(Seq::empty(), bs.subrange(0, i as int)),
                old(self).laws_kept() ==> self.laws_kept(),
                old(self).laws_kept() ==> self.backend_spec().registered_ids() == ids_of(bs.subrange(0, i as int)),
                old(self).backend_accepts() ==> self.backend_accepts(),
                combos_distinct(bs) && old(self).laws_kept() ==> forall|k: int|
                    i <= k < bs.len() ==> #[trigger] self.backend_spec().conflict_of(bs[k].combo) is None,
            decreases bindings.len() - i,
        {
            let b = bindings[i].clone();
            let ghost bcombo = b.combo;
            let ghost bid = b.id@;
            assert(bcombo == bindings@[i as int].combo && bid == bindings@[i as int].id@);
            match self.register(b) {
                Ok(()) => {},
                Err(e) => {
                    assert(views_of(bindings@) == bs);
                    assert(self.bindings_spec() == upsert_all_spec(Seq::empty(), views_of(bindings@).subrange(0, i as int)));
                    return Err(e);
                },
            }
            assert(bs.subrange(0, i + 1).drop_last() == bs.subrange(0, i as int));
            proof {
                if combos_distinct(bs) && old(self).laws_kept() {
                    assert forall|k: int| i + 1 <= k < bs.len() implies #[trigger] self.backend_spec().conflict_of(
                        bs[k].combo,
                    ) is None by {
                        assert(bs[k].combo != bs[i as int].combo);
                    }
                }
                let pre = bs.subrange(0, i as int);
                assert(bs.subrange(0, i + 1) =~= pre.push(bs[i as int]));
                assert forall|x: Seq<char>| #[trigger] ids_of(pre.push(bs[i as int])).contains(x) == ids_of(
                    pre,
                ).insert(bid).contains(x) by {
                    lemma_has_id_push(pre, bs[i as int], x);
                }
                assert(ids_of(bs.subrange(0, i + 1)) =~= ids_of(pre).insert(bid));
            }
            i = i + 1;
        }
        assert(bs.subrange(0, bindings.len() as int) == bs);
        assert(views_of(bindings@) == bs);
        Ok(())
    }
}

/// The ids of some bindings.
pub open spec fn ids_of(s: Seq<HotkeyBindingView>) -> Set<Seq<char>> {
    Set::new(|id: Seq<char>| has_id(s, id))
}

/// Every default shortcut's id is among the bindings.
pub open spec fn all_defaults_managed(s: Seq<HotkeyBindingView>) -> bool {
    forall|k: int| 0 <= k < default_bindings_spec().len() ==> has_id(s, #[trigger] default_bindings_spec()[k].id)
}

/// Each default shortcut not yet among `s` has a combo that `backend` reports free or held by
/// that very shortcut.
pub open spec fn defaults_free<B: HotkeyBackend>(s: Seq<HotkeyBindingView>, backend: B) -> bool {
    forall|k: int|
        0 <= k < default_bindings_spec().len() && !has_id(s, #[trigger] default_bindings_spec()[k].id) ==> !held_by_other(
            backend.conflict_of(default_bindings_spec()[k].combo),
            default_bindings_spec()[k].id,
        )
}

/// No two default shortcuts share a combo.
proof fn lemma_default_combos_distinct()
    ensures
        forall|j: int, k: int|
            0 <= j < default_bindings_spec().len() && 0 <= k < default_bindings_spec().len() && j != k
                ==> #[trigger] default_bindings_spec()[j].combo != #[trigger] default_bindings_spec()[k].combo,
{
}

/// No two bindings share a combo.
pub open spec fn combos_distinct(s: Seq<HotkeyBindingView>) -> bool {
    forall|j: int, k: int| 0 <= j < s.len() && 0 <= k < s.len() && j != k ==> #[trigger] s[j].combo != #[trigger] s[k].combo
}

/// The default shortcuts: capture, pin, colour picker, OCR and toggling the pins, all on
/// Ctrl+Alt (toggling also with Shift).
pub open spec fn default_bindings_spec() -> Seq<HotkeyBindingView> {
    seq![
        HotkeyBindingView {
            id: "capture"@,
            action: HotkeyAction::Capture,
            combo: KeyCombo { ctrl: true, alt: true, shift: false, win: false, key: KeyCode::Char('a') },
            enabled: true,
        },
        HotkeyBindingView {
            id: "pin_to_screen"@,
            action: HotkeyAction::PinToScreen,
            combo: KeyCombo { ctrl: true, alt: true, shift: false, win: false, key: KeyCode::Char('p') },
            enabled: true,
        },
        HotkeyBindingView {
            id: "color_picker"@,
            action: HotkeyAction::ColorPicker,
            combo: KeyCombo { ctrl: true, alt: true, shift: false, win: false, key: KeyCode::Char('c') },
            enabled: true,
        },
        HotkeyBindingView {
            id: "ocr"@,
            action: HotkeyAction::Ocr,
            combo: KeyCombo { ctrl: true, alt: true, shift: false, win: false, key: KeyCode::Char('o') },
            enabled: true,
        },
        HotkeyBindingView {
            id: "toggle_pins"@,
            action: HotkeyAction::ToggleAllPins,
            combo: KeyCombo { ctrl: true, alt: true, shift: true, win: false, key: KeyCode::Char('p') },
            enabled: true,
        },
    ]
}

fn binding(id: &str, action: HotkeyAction, shift: bool, key: char) -> (r: HotkeyBinding)
    ensures
        r@ == (HotkeyBindingView {
            id: id@,
            action,
            combo: KeyCombo { ctrl: true, alt: true, shift, win: false, key: KeyCode::Char(key) },
            enabled: true,
        }),
{
    HotkeyBinding {
        id: String::from_str(id),
        action,
        combo: KeyCombo { ctrl: true, alt: true, shift, win: false, key: KeyCode::Char(key) },
        enabled: true,
    }
}

pub fn default_bindings() -> (r: Vec<HotkeyBinding>)
    ensures
        r@.map_values(|b: HotkeyBinding| b@) == default_bindings_spec(),
{
    let mut v: Vec<HotkeyBinding> = Vec::new();
    v.push(binding("capture", HotkeyAction::Capture, false, 'a'));
    v.push(binding("pin_to_screen", HotkeyAction::PinToScreen, false, 'p'));
    v.push(binding("color_picker", HotkeyAction::ColorPicker, false, 'c'));
    v.push(binding("ocr", HotkeyAction::Ocr, false, 'o'));
    v.push(binding("toggle_pins", HotkeyAction::ToggleAllPins, true, 'p'));
    assert(v@.map_values(|b: HotkeyBinding| b@) =~= default_bindings_spec());
    v
}

/// Registering the same binding twice is the same as registering it once.
pub proof fn lemma_upsert_idempotent(s: Seq<HotkeyBindingView>, b: HotkeyBindingView)
    requires
        ids_unique(s),
    ensures
        upsert_spec(upsert_spec(s, b), b) == upsert_spec(s, b),
{
    lemma_upsert_unique(s, b);
    let u = upsert_spec(s, b);
    let k = index_of_id(u, b.id);
    assert(u[k] == b);
    assert(u.update(k, b) =~= u);
}

/// Pausing and then resuming leaves registered at the backend exactly the enabled bindings:
/// `pause_all` releases everything and `resume_all` adds each enabled id to what is left.
pub proof fn lemma_pause_then_resume<B: HotkeyBackend>(
    before: HotkeyManager<B>,
    paused: HotkeyManager<B>,
    resumed: HotkeyManager<B>,
)
    requires
        paused.bindings_spec() == before.bindings_spec(),
        paused.backend_spec().registered_ids() == Set::<Seq<char>>::empty(),
        resumed.bindings_spec() == paused.bindings_spec(),
        resumed.backend_spec().registered_ids() == paused.backend_spec().registered_ids().union(
            enabled_ids(paused.bindings_spec()),
        ),
    ensures
        resumed.backend_spec().registered_ids() == enabled_ids(before.bindings_spec()),
        resumed.bindings_spec() == before.bindings_spec(),
{
    assert(Set::<Seq<char>>::empty().union(enabled_ids(before.bindings_spec())) =~= enabled_ids(
        before.bindings_spec(),
    ));
}

/// Loading bindings keeps ids unique, and every loaded id is found afterwards.
pub proof fn lemma_load_finds_each(bs: Seq<HotkeyBindingView>, k: int)
    requires
        0 <= k < bs.len(),
    ensures
        ids_unique(upsert_all_spec(Seq::empty(), bs)),
        has_id(upsert_all_spec(Seq::empty(), bs), bs[k].id),
    decreases bs.len(),
{
    lemma_upsert_all_unique(Seq::empty(), bs);
    let prev = upsert_all_spec(Seq::empty(), bs.drop_last());
    lemma_upsert_all_unique(Seq::empty(), bs.drop_last());
    lemma_upsert_unique(prev, bs.last());
    if k < bs.len() - 1 {
        lemma_load_finds_each(bs.drop_last(), k);
        assert(bs.drop_last()[k] == bs[k]);
        if bs[k].id != bs.last().id {
            assert(lookup_spec(upsert_spec(prev, bs.last()), bs[k].id) == lookup_spec(prev, bs[k].id));
        }
    }
}

/// The bindings of `s` whose id differs from `id`, in order.
pub open spec fn without_id(s: Seq<HotkeyBindingView>, id: Seq<char>) -> Seq<HotkeyBindingView>
    decreases s.len(),
{
    if s.len() == 0 {
        Seq::empty()
    } else if s.last().id == id {
        without_id(s.drop_last(), id)
    } else {
        without_id(s.drop_last(), id).push(s.last())
    }
}

/// A binding list with one more binding has its ids and that one.
proof fn lemma_has_id_push(s: Seq<HotkeyBindingView>, b: HotkeyBindingView, x: Seq<char>)
    ensures
        has_id(s.push(b), x) <==> (has_id(s, x) || b.id == x),
{
    let t = s.push(b);
    if has_id(s, x) {
        let i = choose|i: int| 0 <= i < s.len() && #[trigger] s[i].id == x;
        assert(t[i].id == x);
    }
    if b.id == x {
        assert(t[s.len() as int].id == x);
    }
    if has_id(t, x) {
        let i = choose|i: int| 0 <= i < t.len() && #[trigger] t[i].id == x;
        if i < s.len() {
            assert(s[i].id == x);
        }
    }
}

/// Taking the bindings with id `id` out leaves exactly the other ids.
proof fn lemma_without_id_has(s: Seq<HotkeyBindingView>, id: Seq<char>, x: Seq<char>)
    ensures
        has_id(without_id(s, id), x) <==> (has_id(s, x) && x != id),
    decreases s.len(),
{
    if s.len() == 0 {
    } else {
        let p = s.drop_last();
        lemma_without_id_has(p, id, x);
        lemma_has_id_push(p, s.last(), x);
        assert(p.push(s.last()) == s);
        if s.last().id != id {
            lemma_has_id_push(without_id(p, id), s.last(), x);
        }
    }
}

/// The first registered binding with the combo.
pub open spec fn first_with_combo(s: Seq<HotkeyBindingView>, combo: KeyCombo) -> Option<int> {
    if exists|i: int| 0 <= i < s.len() && #[trigger] s[i].combo == combo {
        Some(
            choose|i: int|
                0 <= i < s.len() && #[trigger] s[i].combo == combo && forall|j: int|
                    0 <= j < i ==> s[j].combo != combo,
        )
    } else {
        None
    }
}

/// Some binding has the combo only if a first one does.
proof fn lemma_first_combo_witness(s: Seq<HotkeyBindingView>, c: KeyCombo, i: int)
    requires
        0 <= i < s.len(),
        s[i].combo == c,
    ensures
        exists|m: int| 0 <= m < s.len() && #[trigger] s[m].combo == c && forall|j: int| 0 <= j < m ==> s[j].combo != c,
    decreases i,
{
    if exists|j: int| 0 <= j < i && #[trigger] s[j].combo == c {
        let j = choose|j: int| 0 <= j < i && #[trigger] s[j].combo == c;
        lemma_first_combo_witness(s, c, j);
    } else {
        assert(forall|j: int| 0 <= j < i ==> s[j].combo != c);
    }
}

/// What `first_with_combo` gives: the first index with the combo, or none at all.
proof fn lemma_first_with_combo_props(s: Seq<HotkeyBindingView>, c: KeyCombo)
    ensures
        match first_with_combo(s, c) {
            Some(i) => 0 <= i < s.len() && s[i].combo == c && forall|j: int| 0 <= j < i ==> s[j].combo != c,
            None => forall|j: int| 0 <= j < s.len() ==> s[j].combo != c,
        },
{
    if exists|i: int| 0 <= i < s.len() && #[trigger] s[i].combo == c {
        let i = choose|i: int| 0 <= i < s.len() && #[trigger] s[i].combo == c;
        lemma_first_combo_witness(s, c, i);
    }
}

/// One more binding leaves the first binding with another combo where it was, and makes the
/// first with its own combo exist.
proof fn lemma_first_with_combo_push(s: Seq<HotkeyBindingView>, b: HotkeyBindingView, c: KeyCombo)
    ensures
        b.combo != c ==> match first_with_combo(s, c) {
            Some(i) => first_with_combo(s.push(b), c) == Some(i) && s.push(b)[i] == s[i],
            None => first_with_combo(s.push(b), c) is None,
        },
        b.combo == c ==> first_with_combo(s.push(b), c) is Some,
{
    let t = s.push(b);
    lemma_first_with_combo_props(s, c);
    lemma_first_with_combo_props(t, c);
    if b.combo == c {
        assert(t[s.len() as int].combo == c);
    } else {
        match first_with_combo(s, c) {
            Some(i) => {
                assert(t[i] == s[i]);
                let k = first_with_combo(t, c)->0;
                if k < i {
                    assert(t[k] == s[k]);
                }
                if k > i {
                    assert(t[i].combo == c);
                }
            },
            None => {
                if first_with_combo(t, c) is Some {
                    let k = first_with_combo(t, c)->0;
                    if k < s.len() {
                        assert(s[k] == t[k]);
                    }
                }
            },
        }
    }
}

/// The hotkey registry used where the system offers no global-shortcut service: it only
/// remembers what was registered, in order.
pub struct WindowsHotkeyBackend {
    bindings: Vec<HotkeyBinding>,
}

impl WindowsHotkeyBackend {
    pub closed spec fn registered(&self) -> Seq<HotkeyBindingView> {
        self.bindings@.map_values(|b: HotkeyBinding| b@)
    }

    pub fn new() -> (r: Self)
        ensures
            r.registered() == Seq::<HotkeyBindingView>::empty(),
    {
        let r = Self { bindings: Vec::new() };
        assert(r.registered() =~= Seq::<HotkeyBindingView>::empty());
        r
    }
}

impl HotkeyBackend for WindowsHotkeyBackend {
    open spec fn keeps_hotkey_laws(&self) -> bool {
        true
    }

    open spec fn always_accepts(&self) -> bool {
        true
    }

    open spec fn registered_ids(&self) -> Set<Seq<char>> {
        Set::new(|id: Seq<char>| has_id(self.registered(), id))
    }

    open spec fn conflict_of(&self, combo: KeyCombo) -> Option<Seq<char>> {
        match first_with_combo(self.registered(), combo) {
            Some(i) => Some(self.registered()[i].id),
            None => None,
        }
    }

    fn register(&mut self, hotkey: &HotkeyBinding) -> (r: Result<(), String>)
        ensures
            r is Ok,
            final(self).registered() == old(self).registered().push(hotkey@),
    {
        self.bindings.push(hotkey.clone());
        assert(self.registered() =~= old(self).registered().push(hotkey@));
        proof {
            assert forall|x: Seq<char>| #[trigger] self.registered_ids().contains(x) == old(self).registered_ids().insert(
                hotkey.id@,
            ).contains(x) by {
                lemma_has_id_push(old(self).registered(), hotkey@, x);
            }
            assert(self.registered_ids() =~= old(self).registered_ids().insert(hotkey.id@));
            assert forall|c: KeyCombo| c != hotkey.combo implies #[trigger] self.conflict_of(c) == old(
                self,
            ).conflict_of(c) by {
                lemma_first_with_combo_push(old(self).registered(), hotkey@, c);
            }
            lemma_first_with_combo_push(old(self).registered(), hotkey@, hotkey.combo);
        }
        Ok(())
    }

    fn unregister(&mut self, id: &str) -> (r: Result<(), String>)
        ensures
            r is Ok,
            final(self).registered() == without_id(old(self).registered(), id@),
    {
        let target = chars_of(id);
        let ghost s = self.registered();
        let mut kept: Vec<HotkeyBinding> = Vec::new();
        let mut i: usize = 0;
        while i < self.bindings.len()
            invariant
                s == self.registered(),
                target@ == id@,
                0 <= i <= self.bindings.len(),
                kept@.map_values(|b: HotkeyBinding| b@) == without_id(s.subrange(0, i as int), id@),
            decreases self.bindings.len() - i,
        {
            let cand = chars_of(self.bindings[i].id.as_str());
            assert(s.subrange(0, i + 1).drop_last() == s.subrange(0, i as int));
            if !chars_equal(&cand, &target) {
                kept.push(self.bindings[i].clone());
                assert(kept@.map_values(|b: HotkeyBinding| b@) =~= without_id(
                    s.subrange(0, i as int),
                    id@,
                ).push(s[i as int]));
            }
            i = i + 1;
        }
        assert(s.subrange(0, s.len() as int) == s);
        self.bindings = kept;
        proof {
            assert forall|x: Seq<char>| #[trigger] self.registered_ids().contains(x) == old(self).registered_ids().remove(
                id@,
            ).contains(x) by {
                lemma_without_id_has(s, id@, x);
            }
            assert(self.registered_ids() =~= old(self).registered_ids().remove(id@));
        }
        Ok(())
    }

    fn unregister_all(&mut self) -> (r: Result<(), String>)
        ensures
            r is Ok,
            final(self).registered() == Seq::<HotkeyBindingView>::empty(),
    {
        self.bindings.clear();
        assert(self.registered() =~= Seq::<HotkeyBindingView>::empty());
        assert forall|c: KeyCombo| #[trigger] self.conflict_of(c) is None by {
            assert(first_with_combo(self.registered(), c) is None);
        }
        Ok(())
    }

    fn is_registered(&self, id: &str) -> (r: bool)
        ensures
            r == has_id(self.registered(), id@),
    {
        let target = chars_of(id);
        let mut i: usize = 0;
        while i < self.bindings.len()
            invariant
                target@ == id@,
                0 <= i <= self.bindings.len(),
                forall|j: int| 0 <= j < i ==> self.registered()[j].id != id@,
            decreases self.bindings.len() - i,
        {
            let cand = chars_of(self.bindings[i].id.as_str());
            if chars_equal(&cand, &target) {
                assert(self.registered()[i as int].id == id@);
                return true;
            }
            i = i + 1;
        }
        false
    }

    fn check_conflict(&self, combo: &KeyCombo) -> (r: Option<String>)
        ensures
            match first_with_combo(self.registered(), *combo) {
                Some(i) => r matches Some(id) && id@ == self.registered()[i].id,
                None => r is None,
            },
    {
        let mut i: usize = 0;
        while i < self.bindings.len()
            invariant
                0 <= i <= self.bindings.len(),
                forall|j: int| 0 <= j < i ==> self.registered()[j].combo != *combo,
            decreases self.bindings.len() - i,
        {
            if self.bindings[i].combo == *combo {
                let ghost s = self.registered();
                assert(s[i as int].combo == *combo);
                let ghost c = choose|k: int|
                    0 <= k < s.len() && #[trigger] s[k].combo == *combo && forall|j: int|
                        0 <= j < k ==> s[j].combo != *combo;
                assert(c == i) by {
                    if c < i {
                    } else if c > i {
                        assert(s[i as int].combo == *combo);
                    }
                }
                return Some(self.bindings[i].id.clone());
            }
            i = i + 1;
        }
        None
    }
}

/// `MOD_ALT` of the Win32 hotkey API.
pub const MOD_ALT: u32 = 0x0001;

/// `MOD_CONTROL` of the Win32 hotkey API.
pub const MOD_CONTROL: u32 = 0x0002;

/// `MOD_SHIFT` of the Win32 hotkey API.
pub const MOD_SHIFT: u32 = 0x0004;

/// `MOD_WIN` of the Win32 hotkey API.
pub const MOD_WIN: u32 = 0x0008;

/// `MOD_NOREPEAT` of the Win32 hotkey API.
pub const MOD_NOREPEAT: u32 = 0x4000;

/// The Win32 modifier flags for a combo: always no-repeat, plus one flag per held modifier.
pub open spec fn modifiers_spec(c: KeyCombo) -> u32 {
    (MOD_NOREPEAT + (if c.ctrl {
        MOD_CONTROL
    } else {
        0
    }) + (if c.alt {
        MOD_ALT
    } else {
        0
    }) + (if c.shift {
        MOD_SHIFT
    } else {
        0
    }) + (if c.win {
        MOD_WIN
    } else {
        0
    })) as u32
}

pub fn combo_to_modifiers(combo: &KeyCombo) -> (r: u32)
    ensures
        r == modifiers_spec(*combo),
{
    let mut mods = MOD_NOREPEAT;
    if combo.ctrl {
        mods = mods + MOD_CONTROL;
    }
    if combo.alt {
        mods = mods + MOD_ALT;
    }
    if combo.shift {
        mods = mods + MOD_SHIFT;
    }
    if combo.win {
        mods = mods + MOD_WIN;
    }
    mods
}

/// ASCII upper-casing of one character, as `to_ascii_uppercase` does it.
pub open spec fn ascii_upper_spec(c: char) -> char {
    if 'a' <= c <= 'z' {
        ((c as u32) - 32) as char
    } else {
        c
    }
}

/// The Win32 virtual-key code of a key: the upper-cased character code for a character key,
/// `0x70 + n - 1` for `F(n)`, the fixed code of each named key.
pub open spec fn vk_spec(k: KeyCode) -> u32 {
    match k {
        KeyCode::Char(c) => ascii_upper_spec(c) as u32,
        KeyCode::F(n) => (0x70 + n - 1) as u32,
        KeyCode::Up => 0x26,
        KeyCode::Down => 0x28,
        KeyCode::Left => 0x25,
        KeyCode::Right => 0x27,
        KeyCode::Space => 0x20,
        KeyCode::Enter => 0x0D,
        KeyCode::Escape => 0x1B,
        KeyCode::PrintScreen => 0x2C,
    }
}

pub fn key_to_vk(key: &KeyCode) -> (r: u32)
    ensures
        r == vk_spec(*key),
{
    match key {
        KeyCode::Char(c) => {
            let c = *c;
            if 'a' <= c && c <= 'z' {
                (c as u32) - 32
            } else {
                c as u32
            }
        },
        KeyCode::F(n) => 0x70 + (*n as u32) - 1,
        KeyCode::Up => 0x26,
        KeyCode::Down => 0x28,
        KeyCode::Left => 0x25,
        KeyCode::Right => 0x27,
        KeyCode::Space => 0x20,
        KeyCode::Enter => 0x0D,
        KeyCode::Escape => 0x1B,
        KeyCode::PrintScreen => 0x2C,
    }
}

/// The Win32 virtual-key codes: a letter, either case, is its upper-case ASCII code; a digit
/// is its ASCII code; `F1` to `F24` are `0x70` to `0x87`; and the named keys have their fixed
/// codes: `VK_UP` 0x26, `VK_DOWN` 0x28, `VK_LEFT` 0x25, `VK_RIGHT` 0x27, `VK_SPACE` 0x20,
/// `VK_RETURN` 0x0D, `VK_ESCAPE` 0x1B and `VK_SNAPSHOT` 0x2C for Print Screen.
pub proof fn lemma_virtual_key_codes(c: char, n: u8)
    ensures
        'a' <= c <= 'z' ==> vk_spec(KeyCode::Char(c)) == c as u32 - 32 && 0x41 <= vk_spec(KeyCode::Char(c)) <= 0x5A,
        'A' <= c <= 'Z' ==> vk_spec(KeyCode::Char(c)) == c as u32,
        '0' <= c <= '9' ==> vk_spec(KeyCode::Char(c)) == c as u32,
        1 <= n <= 24 ==> vk_spec(KeyCode::F(n)) == 0x6F + n && 0x70 <= vk_spec(KeyCode::F(n)) <= 0x87,
        vk_spec(KeyCode::Up) == 0x26,
        vk_spec(KeyCode::Down) == 0x28,
        vk_spec(KeyCode::Left) == 0x25,
        vk_spec(KeyCode::Right) == 0x27,
        vk_spec(KeyCode::Space) == 0x20,
        vk_spec(KeyCode::Enter) == 0x0D,
        vk_spec(KeyCode::Escape) == 0x1B,
        vk_spec(KeyCode::PrintScreen) == 0x2C,
{
}

/// The Win32 hotkey id of a registered binding: its position plus one.
pub fn find_hotkey_id(bindings: &Vec<HotkeyBinding>, id: &str) -> (r: Option<i32>)
    ensures
        match r {
            Some(n) => exists|i: int|
                0 <= i < bindings@.len() && bindings@[i].id@ == id@ && (forall|j: int|
                    0 <= j < i ==> bindings@[j].id@ != id@) && n == ((i + 1) as i32),
            None => forall|i: int| 0 <= i < bindings@.len() ==> bindings@[i].id@ != id@,
        },
{
    let target = chars_of(id);
    let mut i: usize = 0;
    while i < bindings.len()
        invariant
            target@ == id@,
            0 <= i <= bindings.len(),
            forall|j: int| 0 <= j < i ==> bindings@[j].id@ != id@,
        decreases bindings.len() - i,
    {
        let cand = chars_of(bindings[i].id.as_str());
        if chars_equal(&cand, &target) {
            let n = #[verifier::truncate] ((i as u64 + 1) as i32);
            return Some(n);
        }
        i = i + 1;
    }
    None
}

} // verus!
