//! exspec: an analyzer of test code that reports tests without assertions,
//! tests that lean on too many mocks, and tests that grow too long.

pub mod extractor;
pub mod metrics;
pub mod rules;
pub mod text;
pub mod suppress;
pub mod query_utils;
pub mod output;
pub mod json;
pub mod init;
pub mod paths;
pub mod tsconfig;
pub mod observe;
pub mod syntax;
pub mod order;
pub mod lang;
pub mod cli;
