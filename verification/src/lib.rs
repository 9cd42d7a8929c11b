//! Verified view-model logic of the Mezon desktop client: pagination strips,
//! calendar navigation, command-palette search and grouping, the editing
//! state of text fields with undo and redo, the image viewer's playlist,
//! the gallery's rows and date filter, and the accounting behind the
//! bounded image caches.

pub mod channel_row;
pub mod clan_assets;
pub mod chars;
pub mod command_palette;
pub mod context_menu;
pub mod copy_button;
pub mod date_picker;
pub mod dm_row;
pub mod formatting;
pub mod gallery;
pub mod image_cache;
pub mod image_viewer;
pub mod input_state;
pub mod invite;
pub mod order;
pub mod otp;
pub mod pagination;
pub mod people;
pub mod profile_popup;
pub mod records;
pub mod seqs;
pub mod shortcuts;
pub mod text_area;
pub mod text_edit;
