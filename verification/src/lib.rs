//! Contracts in source files of many languages: what services declare, call, produce and
//! consume, and the graph that follows from it.
pub mod contracts;
pub mod decapitate;
pub mod decapitate_laws;
pub mod grammars;
pub mod graph;
pub mod graph_laws;
pub mod guard;
pub mod guard_laws;
pub mod index;
pub mod languages;
pub mod markdown;
pub mod markdown_laws;
pub mod model;
pub mod numbers;
pub mod order;
pub mod page;
pub mod paths;
pub mod queries;
pub mod splice;
pub mod syntax;
pub mod text;
pub mod text_laws;
pub mod topology;
pub mod topology_drawing_laws;
pub mod topology_laws;
pub mod topology_text;
pub mod triples;

pub use contracts::{ContractEdge, ContractGraph, EdgeConfidence, EdgeKind, NodeId};
pub use decapitate::{AstDecapitator, DecapitatedSource, LanguageKind};
pub use graph::{GraphRenderer, WebEdge, WebGraphPayload, WebNode};
pub use guard::{AstGuard, ParserError};
pub use index::FileIndex;
pub use languages::config::ExtractConfig;
pub use languages::indexer::PolyglotIndexer;
pub use languages::patterns::CompiledPattern;
pub use markdown::{MarkdownFormatter, SearchResult, MAX_OUTPUT_BYTES};
pub use model::{ContractNode, NodeKind, RepoId, ServicePackages};
pub use queries::BoundedMatch;
pub use topology::{Topology, TopologyOptions};
