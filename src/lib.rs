pub mod config;
pub mod laws;
pub mod lcg;
pub mod md5;
pub mod md5_spec;
pub mod rc5;
pub mod rc5_lemmas;
pub mod rc5_spec;
pub mod utils;
pub mod word;
