//! A conformance test runner for chess engines speaking the UCI text
//! protocol: EPD records are parsed into legality-checked positions, a
//! protocol driver scores the engine's answer for each one, and an
//! aggregator collects the pass/fail outcomes.

pub mod chess;
pub mod cli;
pub mod driver;
pub mod epd;
pub mod report;
pub mod text;
