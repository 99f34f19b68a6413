//! Extraction of contracts from source files, language by language.
pub mod common;
pub mod config;
pub mod cpp;
pub mod cpp_laws;
pub mod csharp;
pub mod csharp_laws;
pub mod go;
pub mod go_laws;
pub mod indexer;
pub mod indexer_laws;
pub mod java;
pub mod java_laws;
pub mod kotlin;
pub mod kotlin_laws;
pub mod patterns;
pub mod patterns_laws;
pub mod php;
pub mod php_laws;
pub mod proto;
pub mod proto_laws;
pub mod python;
pub mod python_laws;
pub mod ruby;
pub mod ruby_laws;
pub mod rust_lang;
pub mod rust_laws;
pub mod scala;
pub mod scala_laws;
pub mod spec_shape;
pub mod specs;
pub mod specs_laws;
pub mod swift;
pub mod swift_laws;
pub mod ts_config;
pub mod ts_config_laws;
pub mod typescript;
pub mod typescript_laws;
pub mod walk_laws;
pub mod wire;
pub mod wire_laws;
