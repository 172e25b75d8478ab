//! Structured quad-mesh generation and the decision logic of its desktop
//! front end, verified with Verus.
pub mod error;
pub mod fill_laws;
pub mod geometry_core;
pub mod input_parser;
pub mod mesh_laws;
pub mod text;
pub mod scanline_rasterizer;
pub mod session;
pub mod output_text;
pub mod output_tecplot;
pub mod output_vtk;
pub mod runner;
pub mod state;
pub mod templates;
pub mod validation;
pub mod xml_structure;
pub mod zone_laws;
