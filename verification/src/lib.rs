//! Single-vehicle pickup-and-delivery route planning.
//!
//! A vehicle leaves a depot, serves a batch of orders (each with one pickup
//! point and one delivery point, pickup first) and returns to the depot.
//! The crate builds an initial route, scores candidate routes, and keeps the
//! best route seen while a time budget lasts.

pub mod answer;
pub mod construct;
pub mod geometry;
pub mod laws;
pub mod moves;
pub mod optimizer;
pub mod order;
pub mod route;
pub mod score;
pub mod tour;
