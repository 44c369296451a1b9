//! Verified core of an HTTP API test runner.
//!
//! Test cases are authored in a small domain-specific language (`.ax` files);
//! each case declares an HTTP request and a list of assertions over the
//! response. This crate holds the verified pipeline: the `.ax` parser, the
//! assertion engine, and the execution bookkeeping. Network I/O, terminal
//! rendering and the command line live outside the verified library.

pub mod assertion;
pub mod digits;
pub mod executor;
pub mod expr;
pub mod http;
pub mod json;
pub mod lines;
pub mod parser;
pub mod path;
pub mod render;
pub mod runner;
pub mod strutil;
pub mod test_case;
pub mod value;

pub use assertion::Assertion;
pub use assertion::AssertionFailure;
pub use assertion::resolve_path;
pub use executor::Dispatch;
pub use executor::Executor;
pub use expr::ParseError;
pub use expr::parse_assertion;
pub use expr::parse_between_op;
pub use expr::parse_binary_op;
pub use expr::parse_exists_op;
pub use expr::parse_in_op;
pub use expr::parse_operator;
pub use expr::parse_unary_path;
pub use expr::parse_value;
pub use http::Body;
pub use http::HttpRequest;
pub use http::HttpResponse;
pub use json::JsonNode;
pub use parser::AxParser;
pub use parser::parse_http_request;
pub use parser::parse_test_block;
pub use render::DiffRenderer;
pub use render::HumanRenderer;
pub use render::summary_counts;
pub use runner::Runner;
pub use test_case::TestCase;
pub use test_case::TestResult;
pub use value::AxValue;
pub use value::Operator;
pub use value::compare;
