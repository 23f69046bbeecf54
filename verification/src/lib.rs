//! Core of an on-screen keyboard: building layouts from declarative
//! descriptions, tracking key and view state, bridging the input-method
//! protocol, and encoding outbound key submissions.

mod action;
mod data;
mod imservice;
mod keyboard;
mod layout;
mod logging;
mod outputs;
mod popover;
mod resources;
mod tests;
mod util;
mod vkeyboard;
mod yaml;

pub use action::Action;
pub use action::KeySym;
pub use action::Modifier;
pub use data::create_action;
pub use data::create_button;
pub use data::lemma_actions_resolve;
pub use data::lemma_codepoint_submission;
pub use data::lemma_keycode_assignment_bijective;
pub use data::list_layout_sources;
pub use data::parse_milli;
pub use data::spec_doc_ok;
pub use data::split_ws;
pub use data::ButtonMeta;
pub use data::DataSource;
pub use data::Error;
pub use data::LoadError;
pub use data::Outline;
pub use data::SymbolSet;
pub use data::Warning;
pub use data::FALLBACK_LAYOUT_NAME;
pub use imservice::lemma_done_commits_atomically;
pub use imservice::ActiveChange;
pub use imservice::ChangeCause;
pub use imservice::ContentHint;
pub use imservice::ContentPurpose;
pub use imservice::IMProtocolState;
pub use imservice::IMService;
pub use imservice::ImCommand;
pub use imservice::SubmitError;
pub use imservice::UnrecognizedValue;
pub use keyboard::generate_keycodes;
pub use keyboard::generate_keymap;
pub use keyboard::FormattingError;
pub use keyboard::KeyState;
pub use keyboard::KeycodeTable;
pub use keyboard::Modifiers;
pub use keyboard::PressType;
pub use keyboard::KEYCODE_BOTTOM;
pub use keyboard::KEYCODE_MAX;
pub use layout::find_key_paths;
pub use layout::get_button_bounds;
pub use layout::is_point_inside;
pub use layout::lemma_lock_level_toggle;
pub use layout::ArrangementKind;
pub use layout::Bounds;
pub use layout::Button;
pub use layout::DragOutcome;
pub use layout::Label;
pub use layout::LayoutData;
pub use layout::NoSuchView;
pub use layout::Point;
pub use layout::PressOutcome;
pub use layout::Row;
pub use layout::Size;
pub use layout::View;
pub use layout::DEFAULT_VIEW_NAME;
pub use logging::Handler;
pub use logging::Level;
pub use outputs::Mode;
pub use outputs::Output;
pub use outputs::OutputState;
pub use outputs::Outputs;
pub use outputs::SizeMM;
pub use outputs::Transform;
pub use popover::get_current_layout;
pub use popover::ArrayPairString;
pub use popover::LayoutId;
pub use resources::get_keyboard;
pub use resources::get_layout_names;
pub use resources::get_overlays;
pub use resources::make_mapping;
pub use resources::parse_line;
pub use resources::Translation;
pub use tests::check_builtin_layout;
pub use tests::check_layout_str;
pub use tests::CountAndPrint;
pub use util::hash_map_map;
pub use util::CloneOwned;
pub use util::Wrapped;
pub use vkeyboard::KeyEvent;
pub use yaml::Node;
pub use yaml::YamlError;
pub use vkeyboard::Timestamp;
pub use vkeyboard::VirtualKeyboard;

pub use data::Layout as DocLayout;
pub use layout::Layout;
