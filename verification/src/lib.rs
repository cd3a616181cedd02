//! A bridge from the IQ streams of ka9q-radio to TCI clients: the codecs of both sides, the state
//! that a TCI server keeps, and the decisions in between. Input and output are left to the program
//! around it.

pub mod addr;
pub mod bridge;
pub mod channels;
pub mod config;
pub mod config_file;
pub mod decimal;
pub mod endpoints;
pub mod ieee;
pub mod radiod;
pub mod tci;
pub mod text;
