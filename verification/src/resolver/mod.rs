//! Text-level helpers of symbol resolution: imports, type inference from source lines, and
//! completion matching.
pub mod imports;
pub mod declaration_laws;
pub mod declarations;
pub mod infer;
pub mod laws;
pub mod matching;
pub mod receiver;
