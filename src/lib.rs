//! Structured-logging setup: configuration, policy resolution, level
//! filters, base-field aggregation, event rendering and the install-once
//! guard.

mod config;
mod directive;
mod error;
mod fields;
mod filter;
mod format;
mod init;
mod json;
mod resolve;

pub use config::{Color, Config, ConfigOverride, FieldValue, OutputFormat, Policy, Stream};
pub use resolve::{apply_override, is_tty, resolve_color, resolve_config, Terminals};
pub use error::InitError;
pub use directive::{check_directives_readable, Filter};
pub use filter::{
    build_filter, directive_name, level_for, select_filter, FilterSource, Level,
    UNREADABLE_DIRECTIVES,
};
pub use fields::{build_base_fields, insert_all, key_less, FieldMap, VERSION};
pub use json::{check_json_number, render_object, render_string, render_u64, render_value};
pub use format::{render_level, timestamp_millis, Event, Formatter, JsonFormatter, PlainFormatter};
pub use init::{begin, finish, is_initialized, prepare, Environment, InitGuard, InitStep, Setup};
