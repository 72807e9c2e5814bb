//! Spatial layout engine and widget data model of a dashboard designer.
//!
//! Coordinates are whole pixels; chart samples are fixed-point thousandths.
pub mod geometry;
pub mod ids;
pub mod layout;
pub mod chart;
pub mod gauge;
pub mod table;
pub mod text;
pub mod widgets;
pub mod dashboard;
pub mod panels;
