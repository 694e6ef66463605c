//! Configuration of chunking, indexing, embeddings and summaries.
use vstd::prelude::*;

verus! {

/// How over-long chunks are handled.
#[derive(Clone, Copy, Debug, PartialEq, Eq, Structural)]
pub enum SplitStrategy {
    /// Drop overflow tokens.
    Truncate,
    /// Split into multiple chunks with overlap.
    Split,
    /// Try to split at semantic boundaries (statements, expressions).
    Hierarchical,
}

/// Chunk size budgets.
#[derive(Clone, Debug)]
pub struct ChunkingConfig {
    pub max_tokens: usize,
    pub overlap_tokens: usize,
    pub split_strategy: SplitStrategy,
    pub use_cast_chunking: bool,
    /// Character budget for CAST-style chunking (non-whitespace characters).
    pub max_chars: usize,
}

/// The default character budget for CAST-style chunking.
pub fn default_max_chars() -> (n: usize)
    ensures
        n == 2000,
{
    2000
}

impl Default for ChunkingConfig {
    fn default() -> (c: Self)
        ensures
            c.max_tokens == 512,
            c.overlap_tokens == 50,
            c.split_strategy == SplitStrategy::Split,
            c.use_cast_chunking,
            c.max_chars == 2000,
    {
        ChunkingConfig {
            max_tokens: 512,
            overlap_tokens: 50,
            split_strategy: SplitStrategy::Split,
            use_cast_chunking: true,
            max_chars: default_max_chars(),
        }
    }
}

/// Which files are indexed and how they are chunked.
#[derive(Clone, Debug)]
pub struct IndexConfig {
    pub include_paths: Vec<String>,
    pub exclude_paths: Vec<String>,
    pub chunking: ChunkingConfig,
}

impl Default for IndexConfig {
    fn default() -> (c: Self)
        ensures
            c.include_paths@.len() == 1,
            c.include_paths@[0]@ == "**/*"@,
            c.exclude_paths@.len() == 0,
            c.chunking.max_tokens == 512,
            c.chunking.overlap_tokens == 50,
            c.chunking.split_strategy == SplitStrategy::Split,
            c.chunking.use_cast_chunking,
            c.chunking.max_chars == 2000,
    {
        let mut include_paths: Vec<String> = Vec::new();
        include_paths.push("**/*".to_owned());
        IndexConfig { include_paths, exclude_paths: Vec::new(), chunking: ChunkingConfig::default() }
    }
}

/// How a query is matched against the index.
#[derive(Clone, Copy, Debug, PartialEq, Eq, Structural)]
pub enum SearchMode {
    Lexical,
    Semantic,
    Hybrid,
}

/// Where embeddings come from.
#[derive(Clone, Copy, Debug, PartialEq, Eq, Structural)]
pub enum EmbeddingBackend {
    External,
    Local,
    Ollama,
}

/// The embedding backend and model.
#[derive(Clone, Debug)]
pub struct EmbeddingsConfig {
    pub backend: EmbeddingBackend,
    pub model_name: String,
}

impl Default for EmbeddingsConfig {
    fn default() -> (c: Self)
        ensures
            c.backend == EmbeddingBackend::Ollama,
            c.model_name@ == "nomic-embed-text"@,
    {
        EmbeddingsConfig { backend: EmbeddingBackend::Ollama, model_name: "nomic-embed-text".to_owned() }
    }
}

/// The granularity of a summary.
#[derive(Clone, Copy, Debug, PartialEq, Eq, Structural)]
pub enum SummaryLevel {
    Function,
    Class,
    File,
    Module,
    Repo,
}

/// Whether searching indexes the repository first when no index exists.
pub fn default_auto_index_on_search() -> (b: bool)
    ensures
        b,
{
    true
}

pub fn default_summaries_enabled() -> (b: bool)
    ensures
        b,
{
    true
}

pub fn default_summary_levels() -> (v: Vec<SummaryLevel>)
    ensures
        v@ == seq![SummaryLevel::Function, SummaryLevel::Class, SummaryLevel::File],
{
    let mut v: Vec<SummaryLevel> = Vec::new();
    v.push(SummaryLevel::Function);
    v.push(SummaryLevel::Class);
    v.push(SummaryLevel::File);
    assert(v@ =~= seq![SummaryLevel::Function, SummaryLevel::Class, SummaryLevel::File]);
    v
}

pub fn default_summary_model() -> (s: String)
    ensures
        s@ == "gpt-4o-mini"@,
{
    "gpt-4o-mini".to_owned()
}

pub fn default_summary_max_tokens() -> (n: usize)
    ensures
        n == 160,
{
    160
}

pub fn default_summary_prompt_version() -> (s: String)
    ensures
        s@ == "v1"@,
{
    "v1".to_owned()
}

pub fn default_summary_retries() -> (n: u8)
    ensures
        n == 2,
{
    2
}

pub fn default_auto_on_query() -> (b: bool)
    ensures
        b,
{
    true
}

/// Summary generation settings.
#[derive(Clone, Debug)]
pub struct SummariesConfig {
    pub enabled: bool,
    pub levels: Vec<SummaryLevel>,
    pub model: String,
    pub max_tokens: usize,
    pub prompt_version: String,
    pub retries: u8,
    pub auto_on_query: bool,
}

impl Default for SummariesConfig {
    fn default() -> (c: Self)
        ensures
            c.enabled,
            c.levels@ == seq![SummaryLevel::Function, SummaryLevel::Class, SummaryLevel::File],
            c.model@ == "gpt-4o-mini"@,
            c.max_tokens == 160,
            c.prompt_version@ == "v1"@,
            c.retries == 2,
            c.auto_on_query,
    {
        SummariesConfig {
            enabled: default_summaries_enabled(),
            levels: default_summary_levels(),
            model: default_summary_model(),
            max_tokens: default_summary_max_tokens(),
            prompt_version: default_summary_prompt_version(),
            retries: default_summary_retries(),
            auto_on_query: default_auto_on_query(),
        }
    }
}

} // verus!
