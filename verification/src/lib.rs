pub mod backend;
pub mod bulk;
pub mod corpus;
pub mod errors;
pub mod extract;
pub mod escape;
pub mod query;
pub mod record;
pub mod text;
