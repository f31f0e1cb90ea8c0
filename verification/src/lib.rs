//! Values, types and the deserialization-side logic of the BAML engine:
//! plain and metadata-carrying values, their JSON serialization, field-type
//! builders, JSON-schema and Python type rendering, constraint and streaming
//! checks, and the tracer's decisions.

pub mod media;
pub mod constraint;
pub mod strings;
pub mod map;
pub mod order;
pub mod value;
pub mod field_type;
pub mod deserializer;
pub mod describe;
pub mod zip;
pub mod iter;
pub mod ir;
pub mod schema;
pub mod streaming;
pub mod response;
pub mod tracing;
pub mod json;
pub mod serialize;
pub mod laws;
pub mod python;
pub mod equality;
