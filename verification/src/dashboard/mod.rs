//! The dashboard: its pages, and what it shows of connections and configuration.
pub mod pages;
pub mod rows;
pub mod texts;
