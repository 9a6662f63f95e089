pub mod chain;
pub mod channel;
pub mod abc;
pub mod routeguide;
pub mod thumber;
pub mod counter;
pub mod lock;
pub mod text;
pub mod httpie;
pub mod grep;
pub mod kv;
pub mod fetcher;
pub mod hashing;
pub mod loader;
