pub mod geometry;
pub mod selection;
pub mod overlay;
pub mod text;
pub mod i18n;
pub mod hotkey;
pub mod annotation;
pub mod color;
pub mod pixels;
pub mod transform;
pub mod settings;
pub mod ai;
pub mod ocr;
pub mod storage;
pub mod privacy;
pub mod floating;
pub mod platform;
pub mod desktop;
pub mod clipboard;
pub mod pin_window;
pub mod settings_tree;
