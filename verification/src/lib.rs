//! The default `DPUFlavor` resource: what it holds, the proxy drop-in it may carry, and the name
//! that follows from its content.

#![allow(unused_imports)]

pub mod crds;
pub mod digest;
pub mod document;
pub mod error;
pub mod flavor;
pub mod json;
pub mod laws;
pub mod ordering;
pub mod proxy;
pub mod text;
pub mod types;
