//! One validator for each keyword of a schema.
pub mod dependencies;
pub mod exclusive_maximum;
pub mod exclusive_minimum;
pub mod format;
pub mod json_enum;
pub mod json_type;
pub mod max_items;
pub mod max_length;
pub mod max_properties;
pub mod maximum;
pub mod min_items;
pub mod min_length;
pub mod min_properties;
pub mod minimum;
pub mod multiple_of;
pub mod pattern;
pub mod required;
pub mod unique_items;
