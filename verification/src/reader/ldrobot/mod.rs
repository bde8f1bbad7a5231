//! LDROBOT models.

pub mod stl27l;
