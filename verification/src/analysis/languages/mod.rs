//! Per-language configurations: grammar, extensions, queries and heuristics.

pub mod bash;
pub mod c;
pub mod c_sharp;
pub mod cpp;
pub mod dotenv;
pub mod go;
pub mod hcl;
pub mod html;
pub mod java;
pub mod javascript;
pub mod json;
pub mod julia;
pub mod php;
pub mod prisma;
pub mod python;
pub mod r;
pub mod ruby;
pub mod rust;
pub mod sql;
pub mod toml;
pub mod typescript;
pub mod yaml;
