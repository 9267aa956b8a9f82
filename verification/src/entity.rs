//! The parsed entities (functions, classes, ...) of a code base.
use vstd::prelude::*;
use crate::text::{chars_of, contains_str, equal_ignoring_ascii_case, equals_ignore_ascii_case, text_contains};

verus! {

/// One entity found by a parser, with its source text.
#[derive(Debug)]
pub struct SemanticEntity {
    pub id: String,
    pub file_path: String,
    pub entity_type: String,
    pub name: String,
    pub parent_id: Option<String>,
    pub content: String,
    pub content_hash: String,
    pub structural_hash: Option<String>,
    pub start_line: usize,
    pub end_line: usize,
    /// Extra key/value facts a parser attached, in the order it attached them.
    pub metadata: Option<Vec<(String, String)>>,
}

/// `text` begins with `prefix` when ASCII letters are compared without case.
pub open spec fn has_prefix_ignoring_ascii_case(text: Seq<char>, prefix: Seq<char>) -> bool {
    text.len() >= prefix.len() && equal_ignoring_ascii_case(text.take(prefix.len() as int), prefix)
}

/// An entity looks like a test when its name begins with `test` (in any ASCII
/// case) or its source holds a `#[test]` attribute.  This rule is this
/// library's own model of a test.
pub open spec fn looks_like_test(name: Seq<char>, content: Seq<char>) -> bool {
    ||| has_prefix_ignoring_ascii_case(name, "test"@)
    ||| text_contains(content, "#[test]"@)
}

/// Whether `text` begins with `prefix`, comparing ASCII letters without case.
pub fn starts_with_ignore_ascii_case(text: &str, prefix: &str) -> (r: bool)
    ensures
        r == has_prefix_ignoring_ascii_case(text@, prefix@),
{
    let t = chars_of(text);
    let p = chars_of(prefix);
    if t.len() < p.len() {
        return false;
    }
    let mut head = String::new();
    let n = p.len();
    for i in 0..n
        invariant
            n == p.len(),
            n <= t.len(),
            t@ == text@,
            head@ == t@.take(i as int),
    {
        crate::text::push_char(&mut head, t[i]);
        assert(t@.take(i + 1) == t@.take(i as int).push(t@[i as int]));
    }
    equals_ignore_ascii_case(head.as_str(), prefix)
}

impl SemanticEntity {
    /// Whether this entity looks like a test (see `looks_like_test`).
    pub fn is_test_like(&self) -> (r: bool)
        ensures
            r == looks_like_test(self.name@, self.content@),
    {
        starts_with_ignore_ascii_case(self.name.as_str(), "test") || contains_str(
            self.content.as_str(),
            "#[test]",
        )
    }
}

} // verus!
