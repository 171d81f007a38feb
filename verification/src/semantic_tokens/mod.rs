//! Semantic token classification: the legend, parameter use-sites, and the delta encoding that
//! editors expect.
pub mod laws;
pub mod legend;
pub mod params;
pub mod phases;
pub mod source;
pub mod tokens;
pub mod tree;
