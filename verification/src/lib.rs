//! Verified core of a tabbed desktop terminal: prompt parsing, command
//! tracking, UTF-8 safe output chunking, history and settings logic, and
//! the session server's coordination state (signals, swarm membership,
//! client connections).

pub mod text;
pub mod keyed;
pub mod textset;
pub mod roster;
pub mod control;
pub mod cancel;
pub mod sessions;
pub mod desktop;
pub mod ansi;
pub mod prompt;
pub mod tracker;
pub mod stream;
pub mod history;
pub mod terminal;
pub mod settings;
pub mod fonts;
pub mod signals;
pub mod swarm;
pub mod reload;
pub mod subscribe;
