pub mod text;
pub mod split;
pub mod tags;
pub mod status;
pub mod session;
pub mod json;
pub mod order;
pub mod store;
pub mod db;
pub mod query;
pub mod ops;
pub mod picks;
pub mod numbers;
pub mod legacy;
pub mod picker;
pub mod window;
pub mod layout;
pub mod cli;
pub mod payload;
pub mod commands;
pub mod scan;
pub mod picking;
pub mod laws;
