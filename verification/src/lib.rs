//! Decoding and run-control logic of a data-acquisition system for CAEN
//! digitizers: wire-format decoders, timestamp rollover tracking, the
//! reorder stage of the parallel decode pipeline, the read loop's
//! decisions, digitizer register and parameter rules, the V1743
//! configuration sequence, and the operator's run control.

pub mod operator;
pub mod reader;
pub mod text;
