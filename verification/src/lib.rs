//! Verified core of tali, a command manifest runner.
pub mod text;
pub mod interpolate;
pub mod paths;
pub mod safety;
pub mod condition;
pub mod condition_compose;
pub mod manifest;
pub mod numbers;
pub mod store;
pub mod gitignore;
pub mod update_check;
pub mod input;
pub mod cleanup;
pub mod logs;
pub mod runner;
pub mod cli;
pub mod doctor;
pub mod self_test;
pub mod skill;
