use vstd::prelude::*;

verus! {

/// The command line of the tool: one subcommand.
#[derive(Debug, Clone)]
pub struct Cli {
    pub subcmd: SubCommand,
}

/// The available subcommands.
#[derive(Debug, Clone)]
pub enum SubCommand {
    Evaluate(EvaluateArgs),
}

/// How the per-material report is rendered by the caller.
#[derive(Debug, Clone, PartialEq, Eq, Structural)]
pub enum OutputFormat {
    Human,
    Json,
}

/// The closed set of inventory formats that can be ingested.
#[derive(Debug, Clone, PartialEq, Eq, Structural)]
pub enum SourceType {
    Tsv,
    SpdxTag,
    SpdxJson,
    SpdxYaml,
    CycloneDxJson,
    CycloneDxXml,
}

/// Arguments of the evaluate subcommand. Paths are plain strings; the caller
/// owns file-handle acquisition.
#[derive(Debug, Clone)]
pub struct EvaluateArgs {
    pub policy: Option<String>,
    pub curation: Option<String>,
    pub source_type: Option<SourceType>,
    pub output_format: OutputFormat,
    pub source: String,
}

} // verus!
