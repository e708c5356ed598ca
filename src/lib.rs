//! Physics and predictive paddle control for a two-paddle ball game.
//!
//! All quantities are fixed-point integers (screen units); the embedding
//! program chooses how many units make one pixel.
pub mod geometry;
pub mod config;
pub mod collision;
pub mod world;
pub mod controller;
