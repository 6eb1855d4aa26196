//! A reader for MuJoCo model descriptions: it turns the XML text of a model
//! into a forest of bodies, each with its geometry and joint, and derives from
//! a geometry the shape, the collision volume and the placement that a scene
//! is built from.
//!
//! Numbers are kept as the exact decimals that the document wrote, so that
//! everything stated about them is stated without rounding.

pub mod decimal;
pub mod digits;
pub mod text;
pub mod error;
pub mod vector;
pub mod grammar;
pub mod xml;
pub mod model;
pub mod mujoco_xml_parser;
pub mod document;
pub mod geometry;
