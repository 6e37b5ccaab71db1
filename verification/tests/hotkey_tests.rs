use falconshot::hotkey::{
    combo_to_modifiers, find_hotkey_id, key_to_vk, HotkeyAction, HotkeyBackend, HotkeyBinding, HotkeyError, HotkeyManager, KeyCode,
    KeyCombo, WindowsHotkeyBackend, MOD_ALT, MOD_CONTROL, MOD_NOREPEAT,
};

struct MockBackend {
    registered: Vec<HotkeyBinding>,
}

impl MockBackend {
    fn new() -> Self {
        Self { registered: Vec::new() }
    }
}

impl HotkeyBackend for MockBackend {
    fn register(&mut self, hotkey: &HotkeyBinding) -> Result<(), String> {
        self.registered.push(hotkey.clone());
        Ok(())
    }
    fn unregister(&mut self, id: &str) -> Result<(), String> {
        self.registered.retain(|b| b.id != id);
        Ok(())
    }
    fn unregister_all(&mut self) -> Result<(), String> {
        self.registered.clear();
        Ok(())
    }
    fn is_registered(&self, id: &str) -> bool {
        self.registered.iter().any(|b| b.id == id)
    }
    fn check_conflict(&self, combo: &KeyCombo) -> Option<String> {
        self.registered.iter().find(|b| &b.combo == combo).map(|b| b.id.clone())
    }
}

fn ctrl_x() -> KeyCombo {
    KeyCombo { ctrl: true, alt: false, shift: false, win: false, key: KeyCode::Char('x') }
}

#[test]
fn test_register_and_query() {
    let mut mgr = HotkeyManager::new(MockBackend::new());
    let binding = HotkeyBinding { id: "test".to_string(), action: HotkeyAction::Capture, combo: ctrl_x(), enabled: true };
    mgr.register(binding).unwrap();
    assert!(mgr.is_registered("test"));
    assert_eq!(mgr.all_bindings().len(), 1);
}

#[test]
fn test_conflict_detection() {
    let mut mgr = HotkeyManager::new(MockBackend::new());
    let combo = ctrl_x();
    mgr.register(HotkeyBinding { id: "first".to_string(), action: HotkeyAction::Capture, combo: combo.clone(), enabled: true })
        .unwrap();
    let result = mgr.register(HotkeyBinding { id: "second".to_string(), action: HotkeyAction::Ocr, combo, enabled: true });
    assert!(result.is_err());
}

#[test]
fn test_pause_resume() {
    let mut mgr = HotkeyManager::new(MockBackend::new());
    mgr.register(HotkeyBinding { id: "test".to_string(), action: HotkeyAction::Capture, combo: ctrl_x(), enabled: true })
        .unwrap();

    mgr.pause_all().unwrap();
    assert!(mgr.is_paused());
    assert!(!mgr.backend().is_registered("test"));

    mgr.resume_all().unwrap();
    assert!(!mgr.is_paused());
    assert!(mgr.backend().is_registered("test"));
}

#[test]
fn test_default_bindings() {
    let mut mgr = HotkeyManager::new(MockBackend::new());
    mgr.register_defaults().unwrap();
    assert_eq!(mgr.all_bindings().len(), 5);
}

#[test]
fn conflict_error_names_the_combo_and_the_holder() {
    let mut mgr = HotkeyManager::new(MockBackend::new());
    mgr.register(HotkeyBinding { id: "first".to_string(), action: HotkeyAction::Capture, combo: ctrl_x(), enabled: true })
        .unwrap();
    match mgr.register(HotkeyBinding { id: "second".to_string(), action: HotkeyAction::Ocr, combo: ctrl_x(), enabled: true }) {
        Err(HotkeyError::Conflict { combo, existing }) => {
            assert_eq!(combo, "Ctrl+X");
            assert_eq!(existing, "first");
        }
        _ => panic!("expected a conflict"),
    }
}

#[test]
fn re_registering_an_id_replaces_it() {
    let mut mgr = HotkeyManager::new(MockBackend::new());
    mgr.register(HotkeyBinding { id: "a".to_string(), action: HotkeyAction::Capture, combo: ctrl_x(), enabled: true })
        .unwrap();
    let other = KeyCombo { ctrl: false, alt: true, shift: false, win: false, key: KeyCode::F(5) };
    mgr.register(HotkeyBinding { id: "a".to_string(), action: HotkeyAction::Ocr, combo: other, enabled: true })
        .unwrap();
    assert_eq!(mgr.all_bindings().len(), 1);
    assert_eq!(mgr.get_binding("a").unwrap().combo, other);
}

#[test]
fn unregister_removes_binding() {
    let mut mgr = HotkeyManager::new(MockBackend::new());
    mgr.register(HotkeyBinding { id: "a".to_string(), action: HotkeyAction::Capture, combo: ctrl_x(), enabled: true })
        .unwrap();
    mgr.unregister("a").unwrap();
    assert!(mgr.get_binding("a").is_none());
    assert!(!mgr.is_registered("a"));
}

#[test]
fn display_of_combos() {
    assert_eq!(ctrl_x().display(), "Ctrl+X");
    let f = KeyCombo { ctrl: true, alt: true, shift: false, win: false, key: KeyCode::F(1) };
    assert_eq!(f.display(), "Ctrl+Alt+F1");
    let esc = KeyCombo { ctrl: false, alt: false, shift: true, win: true, key: KeyCode::Escape };
    assert_eq!(esc.display(), "Shift+Win+Esc");
    let bare = KeyCombo { ctrl: false, alt: false, shift: false, win: false, key: KeyCode::Char('a') };
    assert_eq!(bare.display(), "+A");
}

#[test]
fn win32_codes() {
    assert_eq!(combo_to_modifiers(&ctrl_x()), MOD_NOREPEAT | MOD_CONTROL);
    let ca = KeyCombo { ctrl: true, alt: true, shift: false, win: false, key: KeyCode::F(1) };
    assert_eq!(combo_to_modifiers(&ca), MOD_NOREPEAT | MOD_CONTROL | MOD_ALT);
    assert_eq!(key_to_vk(&KeyCode::Char('x')), 'X' as u32);
    assert_eq!(key_to_vk(&KeyCode::F(1)), 0x70);
    assert_eq!(key_to_vk(&KeyCode::Escape), 0x1B);
}

#[test]
fn in_memory_backend_tracks_registrations() {
    let mut be = WindowsHotkeyBackend::new();
    let b = HotkeyBinding { id: "cap".to_string(), action: HotkeyAction::Capture, combo: ctrl_x(), enabled: true };
    be.register(&b).unwrap();
    assert!(be.is_registered("cap"));
    assert_eq!(be.check_conflict(&ctrl_x()), Some("cap".to_string()));
    be.unregister("cap").unwrap();
    assert!(!be.is_registered("cap"));
    assert_eq!(be.check_conflict(&ctrl_x()), None);
}

#[test]
fn update_binding_moves_a_shortcut_to_a_new_combo() {
    let mut mgr = HotkeyManager::new(MockBackend::new());
    mgr.register(HotkeyBinding { id: "cap".to_string(), action: HotkeyAction::Capture, combo: ctrl_x(), enabled: true })
        .unwrap();
    let f5 = KeyCombo { ctrl: false, alt: false, shift: false, win: false, key: KeyCode::F(5) };
    mgr.update_binding(HotkeyBinding { id: "cap".to_string(), action: HotkeyAction::Capture, combo: f5.clone(), enabled: true })
        .unwrap();
    assert_eq!(mgr.all_bindings().len(), 1);
    assert_eq!(mgr.get_binding("cap").unwrap().combo, f5);
    assert_eq!(mgr.check_conflict(&ctrl_x()), None);
    assert_eq!(mgr.check_conflict(&f5), Some("cap".to_string()));
}

#[test]
fn binding_for_action_is_the_first_one() {
    let mut mgr = HotkeyManager::new(MockBackend::new());
    let f6 = KeyCombo { ctrl: false, alt: false, shift: false, win: false, key: KeyCode::F(6) };
    mgr.register(HotkeyBinding { id: "ocr-a".to_string(), action: HotkeyAction::Ocr, combo: ctrl_x(), enabled: true })
        .unwrap();
    mgr.register(HotkeyBinding { id: "ocr-b".to_string(), action: HotkeyAction::Ocr, combo: f6, enabled: true }).unwrap();
    assert_eq!(mgr.get_binding_for_action(HotkeyAction::Ocr).unwrap().id, "ocr-a");
    assert!(mgr.get_binding_for_action(HotkeyAction::QuickSave).is_none());
}

#[test]
fn win32_hotkey_ids_count_from_one() {
    let bindings = vec![
        HotkeyBinding { id: "a".to_string(), action: HotkeyAction::Capture, combo: ctrl_x(), enabled: true },
        HotkeyBinding { id: "b".to_string(), action: HotkeyAction::Ocr, combo: ctrl_x(), enabled: true },
    ];
    assert_eq!(find_hotkey_id(&bindings, "a"), Some(1));
    assert_eq!(find_hotkey_id(&bindings, "b"), Some(2));
    assert_eq!(find_hotkey_id(&bindings, "c"), None);
}

#[test]
fn in_memory_backend_manager_refuses_a_held_combo_and_pauses() {
    let mut mgr = HotkeyManager::new(WindowsHotkeyBackend::new());
    assert!(mgr.register_defaults().is_ok());
    let defaults = falconshot::hotkey::default_bindings();
    assert_eq!(mgr.all_bindings().len(), defaults.len());
    for b in defaults.iter() {
        assert!(mgr.is_registered(&b.id));
    }
    let held = defaults[0].combo;
    let r = mgr.register(HotkeyBinding { id: "other".to_string(), action: HotkeyAction::Ocr, combo: held, enabled: true });
    match r {
        Err(HotkeyError::Conflict { existing, .. }) => assert_eq!(existing, defaults[0].id),
        _ => panic!("expected a conflict"),
    }
    assert!(mgr.get_binding("other").is_none());
    assert!(mgr.pause_all().is_ok());
    assert!(mgr.is_paused());
    assert!(!mgr.is_registered(&defaults[0].id));
    assert!(mgr.check_conflict(&held).is_none());
    assert!(mgr.resume_all().is_ok());
    assert!(!mgr.is_paused());
    assert!(mgr.is_registered(&defaults[0].id));
}

#[test]
fn hotkey_error_messages() {
    let c = HotkeyError::Conflict { combo: "Ctrl+X".to_string(), existing: "first".to_string() };
    assert_eq!(c.message(), "Hotkey Ctrl+X conflicts with existing binding 'first'");
    let b = HotkeyError::Backend("RegisterHotKey failed".to_string());
    assert_eq!(b.message(), "RegisterHotKey failed");
}
