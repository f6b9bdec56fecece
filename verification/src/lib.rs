//! The logic of DevDeck's bots, businesses and AI workspace, verified.
pub mod text;
pub mod order;
pub mod json;
pub mod tools;
pub mod botcatalog;
pub mod deck;
pub mod botmind;
pub mod bots;
pub mod botfile;
pub mod state;
pub mod site;
pub mod business;
pub mod business_clear;
pub mod business_code;
pub mod provider;
pub mod mock;
pub mod wire;
pub mod stream;
pub mod asks;
pub mod runtime;
pub mod plan;
pub mod routine;
pub mod making;
pub mod work;
pub mod business_ops;
pub mod colleagues;
pub mod manager;
