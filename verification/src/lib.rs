//! A log template mining library: it compiles declarative per-format line
//! templates into line-matching patterns, tokenizes the free-text payload of
//! log lines after censoring known-variable substrings, builds corpus-wide
//! bigram and trigram frequency dictionaries over a partitioned line stream,
//! and classifies the tokens of a sample line as dynamic (template-variable)
//! or fixed, based on a rarity cutoff.

pub mod builder;
pub mod dash;
pub mod dict;
pub mod infer;
pub mod laws;
pub mod registry;
pub mod rx;
pub mod template;
pub mod textops;
pub mod tokenizer;

pub use builder::BuildError;
pub use builder::chunk_bounds;
pub use builder::concurrent_map_dictionary_builder;
pub use builder::dictionary_builder;
pub use builder::get_prev_values;
pub use builder::parallelized_dictionary_builder;
pub use builder::parse_lines;
pub use builder::process_dictionary_builder_line;
pub use builder::process_dictionary_builder_line_2;
pub use builder::process_range;
pub use dict::Dict;
pub use dict::reverse_dict;
pub use infer::ContextSpec;
pub use infer::MissingBigram;
pub use infer::after_context;
pub use infer::before_context;
pub use infer::classify_dynamic_tokens;
pub use infer::derive_2grams_from_trigram;
pub use registry::LogFormat;
pub use registry::censor_sources;
pub use registry::format_string;
pub use rx::CensorPattern;
pub use rx::LineMatcher;
pub use template::regex_generator;
pub use template::regex_generator_helper;
pub use tokenizer::apply_domain_specific_re;
pub use tokenizer::censored_regexps;
pub use tokenizer::token_splitter;
