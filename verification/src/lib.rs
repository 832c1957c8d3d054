//! Verified presentation logic of the Plexmaton terminal workspace.
use vstd::prelude::*;

pub mod layout;
pub mod text;
pub mod unicode;
pub mod input;
pub mod filter_line;
pub mod surface;
pub mod frame;
pub mod intent;
pub mod focus;
pub mod router;
pub mod ids;
pub mod ordered;
pub mod view;
pub mod conversation_picker;
pub mod choice;
pub mod permissions;
pub mod palette;
pub mod configuration;
pub mod drawer;
pub mod composer_menu;
pub mod grammar;
pub mod activity;
pub mod mark;
pub mod effort_rail;
pub mod attention;
pub mod approval;
pub mod input_queue;
pub mod panel;
pub mod permission_review;
pub mod conversation_tree;
pub mod tree_presentation;
pub mod tree_session;
pub mod child_control;
pub mod preparation;
pub mod entry;
pub mod agent;
pub mod current_work;
pub mod ingest;
pub mod activity_line;
pub mod status;
pub mod quit;
pub mod tree_panel;
pub mod readings;
pub mod clip;
pub mod tree_lines;
pub mod inspector;

verus! {

} // verus!
