//! MiniKV: a small key-value store whose state is rebuilt from a data file
//! and an append-only log of `set` operations.

pub mod errores;
pub mod parser;
pub mod texto;
pub mod diccionario;
pub mod comandos;
pub mod storage;
pub mod leyes;
pub mod comunicacion;
