//! Token-usage accounting for Codex session logs.

pub mod calendar;
pub mod calendar_laws;
pub mod cli;
pub mod discovery_laws;
pub mod grand_total;
pub mod keyed;
pub mod limits;
pub mod limits_laws;
pub mod limits_view;
pub mod model;
pub mod number;
pub mod number_laws;
pub mod paths;
pub mod project;
pub mod report;
pub mod report_laws;
pub mod report_view;
pub mod report_view_laws;
pub mod room;
pub mod session_laws;
pub mod session_log;
pub mod snapshot;
pub mod summary;
pub mod table;
pub mod table_laws;
pub mod targets;
pub mod text;
pub mod text_laws;
pub mod watch_builder;
pub mod watch_cache;
pub mod watch_events;
pub mod watch_graph;
pub mod watch_laws;
pub mod watch_layout;
pub mod watch_loop;
pub mod watch_screen;
pub mod watch_state;
pub mod watch_table;
pub mod watch_view_laws;
