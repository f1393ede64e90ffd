//! The decisions behind a push-to-talk voice daemon.
pub mod text;
pub mod double;
pub mod hotkeys;
pub mod config;
pub mod intent;
pub mod policy;
pub mod payload;
pub mod asr;
pub mod oracle;
pub mod desktop;
pub mod confirm;
pub mod judge_text;
pub mod judge;
pub mod verdict;
pub mod corpus;
pub mod calibrate;
pub mod flow;
pub mod breaks;
pub mod typesafe;
pub mod local;
pub mod openai;
pub mod decode;
pub mod router;
pub mod dbus;
pub mod cues;
pub mod session;
pub mod daemon;
pub mod health;
pub mod audio;
pub mod vad;
pub mod history;
pub mod ui;
pub mod mock;
