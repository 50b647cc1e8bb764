pub mod domain;
pub mod idempotency;
pub mod publish;
pub mod response;
pub mod store;
pub mod worker;
