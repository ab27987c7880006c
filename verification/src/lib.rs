//! Parser for a semi-structured plain-text catalog of produce PLU codes.
//!
//! The input text carries an implicit three-level hierarchy (top category,
//! optional sub-category, leaf item) through bullet glyphs and indentation.
//! The library classifies each line, tracks the category path, and extracts
//! structured records (name, numeric codes, alternate name, size, free-text
//! characteristics) from item lines. Every function's behaviour is stated
//! against spec-level scans over character sequences and proved.

pub mod chars;
pub mod codes;
pub mod driver;
pub mod fields;
pub mod items;
pub mod laws;
pub mod model;

pub use codes::parse_plu_codes;
pub use driver::parse_plu_text;
pub use fields::extract_alternative_name;
pub use fields::extract_characteristics;
pub use fields::normalize_size;
pub use items::process_item_line;
pub use model::PluCollection;
pub use model::PluItem;
