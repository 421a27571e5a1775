//! Which schema applies to which file.
use crate::formats::{pattern_matches, regex_matches};
use crate::json::{json_model, Json};
use crate::json_schema_parser::{validation, JSONSchemaValidator};
use crate::parser::ParseResult;
use crate::syntax::SyntaxTree;
use serde_json::Value;
use vstd::prelude::*;

verus! {

/// A kind of file and the schema for it: the files whose path the pattern
/// matches are validated against the schema.
pub struct RegistryItem {
    file_match_pattern: String,
    schema: Value,
}

/// A registry item as plain values.
pub ghost struct RegistryItemView {
    pub file_match_pattern: Seq<char>,
    pub schema: Json,
}

impl View for RegistryItem {
    type V = RegistryItemView;

    closed spec fn view(&self) -> RegistryItemView {
        RegistryItemView {
            file_match_pattern: self.file_match_pattern@,
            schema: json_model(self.schema),
        }
    }
}

impl RegistryItem {
    /// The kind of the files whose path `file_match_pattern` matches, with the
    /// schema for them.
    pub fn new(file_match_pattern: String, schema: Value) -> (r: RegistryItem)
        ensures
            r@ == (RegistryItemView {
                file_match_pattern: file_match_pattern@,
                schema: json_model(schema),
            }),
    {
        RegistryItem { file_match_pattern, schema }
    }
}

/// The kinds of file that are known, in the order in which they were added.
pub struct Registry {
    registry_items: Vec<RegistryItem>,
}

impl View for Registry {
    type V = Seq<RegistryItemView>;

    closed spec fn view(&self) -> Seq<RegistryItemView> {
        self.registry_items@.map_values(|i: RegistryItem| i@)
    }
}

/// The schema for the file at `path`: that of the first item from `from` on
/// whose pattern is a regular expression that matches in the path.
pub open spec fn schema_for(items: Seq<RegistryItemView>, path: Seq<char>, from: int) -> Option<
    Json,
>
    decreases items.len() - from,
{
    if from < 0 || from >= items.len() {
        None
    } else if regex_matches(items[from].file_match_pattern, path) == Some(true) {
        Some(items[from].schema)
    } else {
        schema_for(items, path, from + 1)
    }
}

impl Default for Registry {
    fn default() -> (r: Registry)
        ensures
            r@.len() == 0,
    {
        Registry { registry_items: Vec::new() }
    }
}

impl Registry {
    /// Adds a kind of file after those that are known.
    pub fn add(&mut self, item: RegistryItem)
        ensures
            final(self)@ == old(self)@.push(item@),
    {
        self.registry_items.push(item);
        assert(self@ =~= old(self)@.push(item@));
    }

    /// Validates the document of the file at `incoming_file_path` against
    /// the schema for that file; `None` where no kind of file that is known
    /// matches the path.
    pub fn parse(&self, incoming_file_path: String, tree: SyntaxTree, file_contents: String) -> (r:
        Option<ParseResult>)
        ensures
            match schema_for(self@, incoming_file_path@, 0) {
                Some(schema) => r is Some && r.unwrap()@ == validation(tree@, 0, schema),
                None => r is None,
            },
    {
        let mut i: usize = 0;
        while i < self.registry_items.len()
            invariant
                i <= self.registry_items.len(),
                schema_for(self@, incoming_file_path@, 0) == schema_for(
                    self@,
                    incoming_file_path@,
                    i as int,
                ),
            decreases self.registry_items.len() - i,
        {
            let item = &self.registry_items[i];
            assert(self@[i as int] == item@);
            if pattern_matches(item.file_match_pattern.as_str(), incoming_file_path.as_str())
                == Some(true) {
                let validator = JSONSchemaValidator::new(tree, item.schema.clone(), file_contents);
                return Some(validator.validate());
            }
            i += 1;
        }
        None
    }
}

} // verus!
