//! Verified core of a call-observability analyzer for voice agents: the
//! parsing of OpenTelemetry exports and conversation histories, packet
//! decoding with SIP and RTP flow analysis, view navigation and key
//! handling, command-line decisions, text utilities, and the integer parts
//! of the call diagnosis.

pub mod app;
pub mod cli;
pub mod format;
pub mod ui;
pub mod cloud;
pub mod events;
pub mod strings;
pub mod data;
pub mod pcap;
pub mod capture;
pub mod report;
pub mod input;
pub mod patterns;
pub mod timeline;
pub mod analysis;
pub mod json;
pub mod parser;
pub mod llm;
pub mod thresholds;
pub mod rtp;
pub mod toolcalls;
pub mod pipeline;
pub mod toolargs;
