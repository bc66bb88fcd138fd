//! Roblox Fast Flag Editor: the flag store behind the editor, how values
//! are typed when written as JSON, the search filter, the editor's state
//! and actions, and the choice of the `ClientAppSettings.json` to edit.
pub mod detect;
pub mod editor;
pub mod flags;
pub mod icon;
pub mod json;
pub mod laws;
pub mod query;
pub mod text;
pub mod value_type;
