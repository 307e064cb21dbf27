//! Conversion of 3D model files (Wavefront OBJ and MTL, STL, COLLADA, binary
//! FBX records) into one in-memory geometry representation.
//!
//! The crate does no floating-point arithmetic. A real number is carried as
//! the bit pattern of its IEEE-754 binary32 encoding ([`scalar::Scalar`]); the
//! few values that need arithmetic are carried as the expression that defines
//! them ([`mesh::Normal`], [`scalar::Value`]) and are evaluated by the caller.
pub mod scalar;
pub mod aabb;
pub mod text;
pub mod mesh;
pub mod importer;
pub mod utils;
pub mod log;
pub mod logger;
