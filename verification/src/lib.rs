pub mod args;
pub mod extensions;
pub mod found;
pub mod ignore;
pub mod kwindex;
pub mod modexp;
pub mod report;
pub mod response;
pub mod scanner;
pub mod schedule;
pub mod target;
pub mod text;
pub mod toy_rsa;
pub mod unicode;
pub mod wordlist;
