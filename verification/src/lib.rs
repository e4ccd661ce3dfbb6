//! Decorations Database logic: parsing award cells, indexing awards by member,
//! duplicate audits, clerk eligibility checks, the decision logic of sheet
//! edits, and the state machines of the windowed tool and the terminal
//! browser.
pub mod text;
pub mod meta;
pub mod types;
pub mod trusted;
pub mod parse;
pub mod format;
pub mod sort;
pub mod index;
pub mod eligibility;
pub mod audit;
pub mod edit;
pub mod sheets;
pub mod gui;
pub mod tui;
pub mod laws;
pub mod purpose;
pub mod oauth;
pub mod cli;
pub mod dialogs;
pub mod browser;
pub mod console;
pub mod colors;
