pub mod disposition;
pub mod error;
pub mod form_value;
pub mod grammar;
pub mod image_processor;
pub mod models;
pub mod path_generator;
pub mod strutil;
pub mod upload;
