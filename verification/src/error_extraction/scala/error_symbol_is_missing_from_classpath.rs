//! Scala diagnostic family: a symbol missing from the classpath.

use vstd::prelude::*;
use vstd::string::StringExecFns;

use crate::error_extraction::ClassImportRequest;
use crate::error_extraction::req_view;
use crate::error_extraction::reqs_of;
use crate::error_extraction::requests_from;
use crate::patterns::scan_lines_for_group;
use crate::patterns::scan_results;

verus! {

/// The line pattern of this diagnostic family.
pub open spec fn pattern_spec() -> Seq<char> {
    "^src/[^.]*.scala.*error: Symbol 'type ([A-Za-z0-9.<>_]+)' is missing from the classpath.$"@
}

/// The class names this family extracts: capture group one of every
/// matching line, in line order.
pub open spec fn names_spec(input: Seq<char>) -> Seq<Seq<char>> {
    scan_results(pattern_spec(), crate::text::lines_spec(input), 1)
}

/// Builds this family's request for one extracted class name.
pub fn build_class_import_request(class_name: String) -> (r: ClassImportRequest)
    ensures
        req_view(r) == (class_name@, false, "extract_symbol_is_missing_from_classpath"@, 1int),
{
    ClassImportRequest {
        class_name,
        exact_only: false,
        src_fn: String::from_str("extract_symbol_is_missing_from_classpath"),
        priority: 1,
    }
}

/// Extracts one request per matching diagnostic line; yields nothing when
/// no line matches.
pub fn extract_symbol_is_missing_from_classpath(input: &str) -> (r: Option<Vec<ClassImportRequest>>)
    ensures
        match r {
            Some(v) => names_spec(input@).len() > 0 && v@.map_values(
                |x: ClassImportRequest| req_view(x),
            ) == reqs_of(names_spec(input@), "extract_symbol_is_missing_from_classpath"@, false, 1),
            None => names_spec(input@).len() == 0,
        },
{
    let pattern: &str = "^src/[^.]*.scala.*error: Symbol 'type ([A-Za-z0-9.<>_]+)' is missing from the classpath.$";
    let names = scan_lines_for_group(pattern, input, 1);
    requests_from(names, "extract_symbol_is_missing_from_classpath", false, 1)
}

} // verus!
