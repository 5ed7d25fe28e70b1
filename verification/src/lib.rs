//! Mesh optimization and adaptive rendering quality for interactive 3D
//! viewers: triangle decimation, smooth normals, level-of-detail planning,
//! frustum visibility and a frame-rate driven quality controller.
//!
//! Scalars are binary32 bit patterns (see [`scalar`]). The library compares
//! and reads them exactly; where a rounded operation is needed, the caller
//! passes the host's arithmetic in as a function, and each contract states
//! what holds of whatever that function returns.
pub mod error;
pub mod frustum;
pub mod lod;
pub mod mesh;
pub mod normals;
pub mod optimizer;
pub mod scalar;
