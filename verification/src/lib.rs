//! Flow-host logic: the run engine's slot table, the trigger reactors' clocks and decisions, node
//! legs, identifier and subject shapes, and the schedule and form records.
pub mod text;
pub mod ids;
pub mod json;
pub mod json_text;
pub mod records;
pub mod react_interval;
pub mod react_schedule;
pub mod debug_governor;
pub mod run_store;
pub mod execute_node;
pub mod sink;
pub mod approval;
pub mod delay;
pub mod buffer;
pub mod switch;
pub mod store_read_sql;
pub mod run_debug;
pub mod react_cron;
pub mod react_source;
pub mod retention;
pub mod trigger_store;
pub mod concurrency;
pub mod reconcile;
pub mod errors;
pub mod interval_timers;
pub mod orphan_sweep;
pub mod forms;
pub mod schedule_store;
pub mod save;
pub mod events;
pub mod nodes;
pub mod subflow;
pub mod bindings;
pub mod node_state;
pub mod store_nodes;
pub mod save_lints;
pub mod react_approval;
pub mod runs;
pub mod coordinator;
pub mod forms_tool;
pub mod node_config;
pub mod laws;
