//! liteclaw: the verified core of a lightweight local coding assistant.

pub mod text;
pub mod tools;
pub mod web;
pub mod agent;
pub mod claw;
pub mod cli;
pub mod ctx;
pub mod defender;
pub mod executors;
pub mod fsclaws;
pub mod hooks;
pub mod identity;
pub mod images;
pub mod model;
pub mod order;
pub mod parser;
pub mod pattern;
pub mod rules;
pub mod sandbox;
pub mod skills;
pub mod stream;
