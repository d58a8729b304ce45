//! What several parts of the service share.
pub mod bytes;
pub mod cond_group;
pub mod oci_image;
pub mod path;
pub mod random;
pub mod text;
