use vstd::prelude::*;

pub mod text;
pub mod types;
pub mod owned_copy;
pub mod errors_fields;
pub mod intrinsics;
pub mod diagnostics;
pub mod syntax;
pub mod return_paths;
pub mod names;
pub mod graph;
pub mod call_graph;
pub mod suspension_source;
pub mod may_block;
pub mod effective_ownership;
pub mod ownership_fixpoint;
pub mod consumed;
pub mod options_table;
pub mod resolve_import;
pub mod shapes;
pub mod shape_collection;
pub mod shape_passes;
pub mod maybe_mutated;
pub mod promotion;
pub mod generics;
pub mod false_sharing;
pub mod inlay_hints;
pub mod scope;
pub mod signatures;
pub mod signature_collection;
pub mod generic_collection;
pub mod exports;
pub mod independence;
pub mod share_violations;
pub mod aliasing;
pub mod provenance;
pub mod type_oracle;
pub mod freshness;
pub mod check_report;
pub mod promotion_hints;
pub mod wait_hints;
pub mod routing_hints;
pub mod type_hints;
pub mod ownership_hints;
pub mod frame_size;
