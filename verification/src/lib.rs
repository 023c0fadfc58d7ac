//! A small scheduling library: a date-keyed task store over SQLite, an agenda
//! query engine that renders a day's tasks in a fixed display order, and the
//! text helpers around them.

pub mod numfmt;
pub mod panels;
pub mod schedule;
pub mod store;
pub mod tokenize;

pub use panels::display_agenda;
pub use schedule::hour_padding;
pub use schedule::render_schedule;
pub use schedule::Record;
pub use store::db_eraser;
pub use store::db_reader;
pub use store::db_setup;
pub use store::db_verify;
pub use store::db_verify_eraser;
pub use store::db_writer;
pub use store::ensure_events_table;
pub use store::AppError;
pub use tokenize::parser_input;
