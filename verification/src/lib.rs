pub mod text;
pub mod paths;
pub mod config;
pub mod cookies;
pub mod http;
pub mod models;
pub mod preflight;
pub mod loadtest;
pub mod participant;
pub mod login;
pub mod submission;
