//! A personal vocabulary database for Japanese text: tokenizer output is
//! parsed into tokens, stored with frequencies in a normalized store that
//! imports each sentence once, and turned into flashcards from dictionary
//! senses narrowed by part of speech.

pub mod analyzer;
pub mod anki;
pub mod config;
pub mod data_types;
pub mod dictionary;
pub mod expression;
pub mod flashcard;
pub mod ingest;
pub mod model;
pub mod posconverter;
pub mod progress;
pub mod select_builder;
pub mod sort;
pub mod store;
pub mod term;
pub mod text;
pub mod tokenizer;
