//! Cached storage scanner.
pub mod audit;
pub mod audit_rules;
pub mod browse;
pub mod builtin;
pub mod categories;
pub mod choicelaws;
pub mod cli;
pub mod clock;
pub mod config;
pub mod double;
pub mod error;
pub mod help;
pub mod journal;
pub mod laws;
pub mod listlaws;
pub mod names;
pub mod navigate;
pub mod numbers;
pub mod order;
pub mod pathlaws;
pub mod paths;
pub mod plan;
pub mod prune;
pub mod rates;
pub mod ratio;
pub mod rescan;
pub mod roots;
pub mod scan;
pub mod sizes;
pub mod snapshot;
pub mod status;
pub mod sums;
pub mod table;
pub mod text;
pub mod toplist;
pub mod views;
pub mod workspace;
