use vstd::prelude::*;

pub mod activity_laws;
pub mod arguments;
pub mod assembly;
pub mod batch;
pub mod binary64;
pub mod binding_laws;
pub mod call_laws;
pub mod capability;
pub mod command_laws;
pub mod compile_laws;
pub mod compiler;
pub mod context_laws;
pub mod decimal;
pub mod definition;
pub mod display_laws;
pub mod distance_laws;
pub mod documents;
pub mod dotenv;
pub mod duration;
pub mod duration_laws;
pub mod equality_laws;
pub mod exchange_laws;
pub mod execution;
pub mod execution_laws;
pub mod executor;
pub mod expression_laws;
pub mod figures;
pub mod flow_laws;
pub mod grammar;
pub mod handing_laws;
pub mod histogram;
pub mod http;
pub mod http_report;
pub mod http_schema;
pub mod json;
pub mod language_laws;
pub mod lexer;
pub mod literal_laws;
pub mod lowering;
pub mod lsp;
pub mod measure_laws;
pub mod messages;
pub mod metrics;
pub mod names;
pub mod naming_laws;
pub mod natural;
pub mod object_laws;
pub mod options;
pub mod output;
pub mod parallel;
pub mod parser;
pub mod placing;
pub mod plan;
pub mod plan_laws;
pub mod positions;
pub mod privacy_laws;
pub mod project;
pub mod reading_laws;
pub mod records;
pub mod redaction;
pub mod relocation;
pub mod reply_laws;
pub mod report;
pub mod request_laws;
pub mod schedule_laws;
pub mod scope_laws;
pub mod selection;
pub mod source_laws;
pub mod sources;
pub mod structure_laws;
pub mod summary;
pub mod syntax;
pub mod syntax_laws;
pub mod text;
pub mod timing;
pub mod value;
pub mod workload;

verus! {
} // verus!
