//! Decoding and merging of ed2k "server.met" server lists.
//!
//! The wire format is a self-describing tagged binary file: a header byte,
//! a little-endian record count, and per record an IP address (big-endian
//! octets), a port, and a list of (name, value) tags.  Unknown tag names are
//! tolerated and skipped; structural damage (truncation, a bad header, an
//! invalid tag type) aborts the whole file.
//!
//! Candidate records fetched from several sources are concatenated, sorted
//! by IP address and deduplicated (first entry wins), then merged into a
//! persisted collection keyed by IP address.

mod config_dir;
mod cursor;
mod error;
mod file;
mod ini;
mod manager;
mod orchestrator;
mod parsing;
mod server;
mod tags;
mod text;
mod times;
mod utils;

pub use config_dir::{path_join, ConfigDir};
pub use cursor::ByteCursor;
pub use error::DecodeError;
pub use file::{has_backup_suffix, make_absolute, make_backup_filename};
pub use ini::{IniFile, IniFileEntry, IniFileSection};
pub use manager::{ConfigurationCommand, ConfigurationCommands};
pub use orchestrator::{collect_candidates, process_source_response, SourceOutcome};
pub use parsing::{parse_servers, ParsedServer};
pub use server::{candidates_deduplicated, Server, ServerList, ServerPriority, ServerUdpFlags,
    UDP_FLAGS_MASK, UDP_FLAG_GET_EXTENDED_SOURCES, UDP_FLAG_GET_FILES, UDP_FLAG_GET_SOURCES,
    UDP_FLAG_LARGE_FILES, UDP_FLAG_NEW_TAGS, UDP_FLAG_TCP_OBFUSCATION, UDP_FLAG_UDP_OBFUSCATION,
    UDP_FLAG_UNICODE};
pub use tags::{TagField, TagName, TagValue};
pub use times::{current_parts, format_sql, format_yyyy_mm_dd, format_yyyy_mm_dd_hh_mm_ss, now,
    now_to_sql, now_to_yyyy_mm_dd, now_to_yyyy_mm_dd_hh_mm_ss, DateTimeParts};
pub use utils::{SliceExtensions, StringExtensions};
