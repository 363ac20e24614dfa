//! Telemetry core for a mobile system-on-chip: turns raw kernel attribute
//! text into typed readings, with a read-through cache, a memoizing path
//! resolver, a counter-delta rate engine, CPU cluster detection and GPU
//! vendor detection.
pub mod text;
pub mod source;
pub mod cache;
pub mod counters;
pub mod topology;
pub mod readings;
pub mod power;
pub mod memory;
pub mod cpu;
pub mod gpu;
pub mod disk;
pub mod resolver;
pub mod stats;
pub mod thermal;
pub mod service;
