//! The wording of every diagnostic.
use crate::double::{Double, DoubleView};
use crate::text::{debug_text, decimal, decimal_string, join, joined, quoted, texts};
use vstd::prelude::*;

verus! {

/// The text of [`additional_items_error`].
pub open spec fn additional_items_text(processed_items: nat, node_items: nat) -> Seq<char> {
    "The array should have "@ + decimal(processed_items) + " items or less. Found "@ + decimal(
        node_items,
    )
}

/// The message for an array that holds more items than its schema admits.
pub fn additional_items_error(processed_items: usize, node_items: usize) -> (r: String)
    ensures
        r@ == additional_items_text(processed_items as nat, node_items as nat),
{
    let mut s = String::from_str("The array should have ");
    s.append(decimal_string(processed_items).as_str());
    s.append(" items or less. Found ");
    s.append(decimal_string(node_items).as_str());
    assert(s@ =~= additional_items_text(processed_items as nat, node_items as nat));
    s
}

/// The text of [`additional_properties_error`]; the property is written in
/// quotes.
pub open spec fn additional_properties_text(additional_property: Seq<char>) -> Seq<char> {
    "!"@ + debug_text(additional_property) + " was declared but shouldn't be"@
}

/// The message for a property that its object's schema does not admit.
pub fn additional_properties_error(additional_property: &str) -> (r: String)
    ensures
        r@ == additional_properties_text(additional_property@),
{
    let mut s = String::from_str("!");
    s.append(quoted(additional_property).as_str());
    s.append(" was declared but shouldn't be");
    assert(s@ =~= additional_properties_text(additional_property@));
    s
}

/// The text of [`exclusive_maximum_error`]; the numbers are written as `Debug`
/// writes them.
pub open spec fn exclusive_maximum_text(expected: DoubleView, found: DoubleView) -> Seq<char> {
    "Value "@ + found.debug + " was above the exclusive maximum of "@ + expected.debug
}

/// The message for a number at or above its exclusive maximum.
pub fn exclusive_maximum_error(expected: &Double, found: &Double) -> (r: String)
    ensures
        r@ == exclusive_maximum_text(expected@, found@),
{
    let mut s = String::from_str("Value ");
    s.append(found.debug.as_str());
    s.append(" was above the exclusive maximum of ");
    s.append(expected.debug.as_str());
    assert(s@ =~= exclusive_maximum_text(expected@, found@));
    s
}

/// The text of [`exclusive_minimum_error`]; the numbers are written as `Debug`
/// writes them.
pub open spec fn exclusive_minimum_text(expected: DoubleView, found: DoubleView) -> Seq<char> {
    "Value "@ + found.debug + " was below the exclusive minimum of "@ + expected.debug
}

/// The message for a number at or below its exclusive minimum.
pub fn exclusive_minimum_error(expected: &Double, found: &Double) -> (r: String)
    ensures
        r@ == exclusive_minimum_text(expected@, found@),
{
    let mut s = String::from_str("Value ");
    s.append(found.debug.as_str());
    s.append(" was below the exclusive minimum of ");
    s.append(expected.debug.as_str());
    assert(s@ =~= exclusive_minimum_text(expected@, found@));
    s
}

/// The text of [`enum_error`]: the value found in quotes, and in quotes the
/// one option, or the options with a comma between neighbours.
pub open spec fn enum_text(expected: Seq<Seq<char>>, found: Seq<char>) -> Seq<char> {
    if expected.len() == 1 {
        debug_text(found) + " must be "@ + debug_text(expected[0])
    } else {
        debug_text(found) + " must be one of "@ + debug_text(joined(expected, ", "@))
    }
}

/// The message for a value that is none of the options of an enumeration:
/// it names the one option, or lists the options.
pub fn enum_error(expected: &Vec<String>, found: String) -> (r: String)
    ensures
        r@ == enum_text(texts(expected@), found@),
{
    let mut s = quoted(found.as_str());
    if expected.len() == 1 {
        s.append(" must be ");
        s.append(quoted(expected[0].as_str()).as_str());
        assert(texts(expected@)[0] == expected@[0]@);
    } else {
        s.append(" must be one of ");
        s.append(quoted(join(expected, ", ").as_str()).as_str());
    }
    assert(s@ =~= enum_text(texts(expected@), found@));
    s
}

/// The text of [`type_error`]; both types are written in quotes.
pub open spec fn type_text(expected: Seq<char>, found: Seq<char>) -> Seq<char> {
    "Incorrect type. Expected "@ + debug_text(expected) + " but found "@ + debug_text(found)
}

/// The message for a value of another type than its schema names.
pub fn type_error(expected: &str, found: &str) -> (r: String)
    ensures
        r@ == type_text(expected@, found@),
{
    let mut s = String::from_str("Incorrect type. Expected ");
    s.append(quoted(expected).as_str());
    s.append(" but found ");
    s.append(quoted(found).as_str());
    assert(s@ =~= type_text(expected@, found@));
    s
}

/// The text of [`expected_items_error`].
pub open spec fn expected_items_text(expected: nat, found: nat) -> Seq<char> {
    "Expected "@ + decimal(expected) + " items but found "@ + decimal(found)
}

/// The message for an array with too few or too many items.
pub fn expected_items_error(expected: usize, found: usize) -> (r: String)
    ensures
        r@ == expected_items_text(expected as nat, found as nat),
{
    let mut s = String::from_str("Expected ");
    s.append(decimal_string(expected).as_str());
    s.append(" items but found ");
    s.append(decimal_string(found).as_str());
    assert(s@ =~= expected_items_text(expected as nat, found as nat));
    s
}

/// The text of [`expected_length_error`].
pub open spec fn expected_length_text(expected: nat, found: nat) -> Seq<char> {
    "Expected an item of length "@ + decimal(expected) + " but found "@ + decimal(found)
}

/// The message for a string that is too short or too long.
pub fn expected_length_error(expected: usize, found: usize) -> (r: String)
    ensures
        r@ == expected_length_text(expected as nat, found as nat),
{
    let mut s = String::from_str("Expected an item of length ");
    s.append(decimal_string(expected).as_str());
    s.append(" but found ");
    s.append(decimal_string(found).as_str());
    assert(s@ =~= expected_length_text(expected as nat, found as nat));
    s
}

/// The text of [`expected_properties_error`].
pub open spec fn expected_properties_text(expected: nat, found: nat) -> Seq<char> {
    "Expected "@ + decimal(expected) + " properties but found "@ + decimal(found)
}

/// The message for an object with too few or too many properties.
pub fn expected_properties_error(expected: usize, found: usize) -> (r: String)
    ensures
        r@ == expected_properties_text(expected as nat, found as nat),
{
    let mut s = String::from_str("Expected ");
    s.append(decimal_string(expected).as_str());
    s.append(" properties but found ");
    s.append(decimal_string(found).as_str());
    assert(s@ =~= expected_properties_text(expected as nat, found as nat));
    s
}

/// The text of [`maximum_error`]; the numbers are written as `Debug` writes
/// them.
pub open spec fn maximum_text(expected: DoubleView, found: DoubleView) -> Seq<char> {
    "Value "@ + found.debug + " was above the maximum of "@ + expected.debug
}

/// The message for a number above its maximum.
pub fn maximum_error(expected: &Double, found: &Double) -> (r: String)
    ensures
        r@ == maximum_text(expected@, found@),
{
    let mut s = String::from_str("Value ");
    s.append(found.debug.as_str());
    s.append(" was above the maximum of ");
    s.append(expected.debug.as_str());
    assert(s@ =~= maximum_text(expected@, found@));
    s
}

/// The text of [`minimum_error`]; the numbers are written as `Debug` writes
/// them.
pub open spec fn minimum_text(expected: DoubleView, found: DoubleView) -> Seq<char> {
    "Value "@ + found.debug + " was below the minimum of "@ + expected.debug
}

/// The message for a number below its minimum.
pub fn minimum_error(expected: &Double, found: &Double) -> (r: String)
    ensures
        r@ == minimum_text(expected@, found@),
{
    let mut s = String::from_str("Value ");
    s.append(found.debug.as_str());
    s.append(" was below the minimum of ");
    s.append(expected.debug.as_str());
    assert(s@ =~= minimum_text(expected@, found@));
    s
}

/// The text of [`multiple_of_error`]; the numbers are written as `Debug`
/// writes them.
pub open spec fn multiple_of_text(expected: DoubleView, found: DoubleView) -> Seq<char> {
    found.debug + " is not a multiple of "@ + expected.debug
}

/// The message for a number that its divisor does not divide.
pub fn multiple_of_error(expected: &Double, found: &Double) -> (r: String)
    ensures
        r@ == multiple_of_text(expected@, found@),
{
    let mut s = String::from_str(found.debug.as_str());
    s.append(" is not a multiple of ");
    s.append(expected.debug.as_str());
    assert(s@ =~= multiple_of_text(expected@, found@));
    s
}

/// The text of [`pattern_error`]; pattern and string are written in quotes.
pub open spec fn pattern_text(expected: Seq<char>, found: Seq<char>) -> Seq<char> {
    "Expected "@ + debug_text(expected) + " to match "@ + debug_text(found)
}

/// The message for a string that its pattern does not match.
pub fn pattern_error(expected: &str, found: &str) -> (r: String)
    ensures
        r@ == pattern_text(expected@, found@),
{
    let mut s = String::from_str("Expected ");
    s.append(quoted(expected).as_str());
    s.append(" to match ");
    s.append(quoted(found).as_str());
    assert(s@ =~= pattern_text(expected@, found@));
    s
}

/// The text of [`required_error`]; the names are written in quotes, as one
/// text.
pub open spec fn required_text(requirements: Seq<char>) -> Seq<char> {
    "Missing the following requirements: "@ + debug_text(requirements)
}

/// The message for an object that lacks required properties.
pub fn required_error(requirements: &str) -> (r: String)
    ensures
        r@ == required_text(requirements@),
{
    let mut s = String::from_str("Missing the following requirements: ");
    s.append(quoted(requirements).as_str());
    s
}

/// The text of [`unique_items_error`]; the items are written in quotes, as one
/// text.
pub open spec fn unique_items_text(duplicate_items: Seq<char>) -> Seq<char> {
    "Found duplicate items: !"@ + debug_text(duplicate_items)
}

/// The message for an array that holds an item twice.
pub fn unique_items_error(duplicate_items: &str) -> (r: String)
    ensures
        r@ == unique_items_text(duplicate_items@),
{
    let mut s = String::from_str("Found duplicate items: !");
    s.append(quoted(duplicate_items).as_str());
    s
}

} // verus!
