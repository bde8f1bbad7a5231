//! Pacecat models.

pub mod lds50ce;
