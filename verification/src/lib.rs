//! Verified core of a plugin toolkit: checksums, frame building and
//! inspection, capture-file parsers, a totalistic cellular automaton and the
//! byte codecs the view plugins keep their state in.

pub mod checksums;
pub mod cellular;
pub mod text;
pub mod invariant_report;
pub mod vcd;
pub mod frame;
pub mod frame_text;
pub mod pattern;
pub mod view;
pub mod checksum_inspector;
pub mod emergence;
pub mod tla;
pub mod frame_builder;
pub mod invariant_checker;
pub mod vcd_capture;
pub mod analog_capture;
pub mod waveform;
pub mod link_graph;
pub mod emulation;
pub mod declaration;
pub mod records;
pub mod color;
