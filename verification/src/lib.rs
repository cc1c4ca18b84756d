pub mod extractors;
pub mod api;
pub mod parsers;
pub mod models;
pub mod numbers;
pub mod patterns;
pub mod sorting;
pub mod strmap;
pub mod text;
pub mod xml;
