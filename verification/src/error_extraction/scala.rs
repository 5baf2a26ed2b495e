//! The Scala diagnostic extractors, combined in a fixed family order.

use vstd::prelude::*;

use crate::error_extraction::ClassImportRequest;
use crate::error_extraction::opt_req_views;
use crate::error_extraction::push_requests;
use crate::error_extraction::req_view;

pub mod error_is_not_a_member_of_package;
pub mod error_object_not_found;
pub mod error_symbol_is_missing_from_classpath;
pub mod error_symbol_type_missing_from_classpath;
pub mod error_type_not_found;
pub mod error_value_not_found;

verus! {

/// Everything the six Scala families extract from `input`, in family
/// order.
pub open spec fn scala_reqs_spec(input: Seq<char>) -> Seq<(Seq<char>, bool, Seq<char>, int)> {
    crate::error_extraction::reqs_of(
        error_is_not_a_member_of_package::names_spec(input),
        "extract_not_a_member_of_package"@,
        false,
        1,
    ) + crate::error_extraction::reqs_of(
        error_object_not_found::names_spec(input),
        "extract_object_not_found"@,
        false,
        1,
    ) + crate::error_extraction::reqs_of(
        error_symbol_is_missing_from_classpath::names_spec(input),
        "extract_symbol_is_missing_from_classpath"@,
        false,
        1,
    ) + crate::error_extraction::reqs_of(
        error_symbol_type_missing_from_classpath::names_spec(input),
        "extract_symbol_type_missing_from_classpath"@,
        false,
        1,
    ) + crate::error_extraction::reqs_of(
        error_type_not_found::names_spec(input),
        "extract_type_not_found"@,
        false,
        1,
    ) + crate::error_extraction::reqs_of(
        error_value_not_found::names_spec(input),
        "extract_value_not_found"@,
        false,
        1,
    )
}

/// Runs every Scala family over the diagnostic text; yields nothing when
/// none of them extracts a request.
pub fn extract_errors(input: &str) -> (r: Option<Vec<ClassImportRequest>>)
    ensures
        match r {
            Some(v) => v@.map_values(|x: ClassImportRequest| req_view(x)) == scala_reqs_spec(
                input@,
            ) && scala_reqs_spec(input@).len() > 0,
            None => scala_reqs_spec(input@).len() == 0,
        },
{
    let mut combined: Vec<ClassImportRequest> = Vec::new();
    proof {
        assert(combined@.map_values(|x: ClassImportRequest| req_view(x)) =~= Seq::<
            (Seq<char>, bool, Seq<char>, int),
        >::empty());
    }
    let r1 = error_is_not_a_member_of_package::extract_not_a_member_of_package(input);
    let ghost v1 = opt_req_views(r1);
    push_requests(&mut combined, r1);
    let r2 = error_object_not_found::extract(input);
    let ghost v2 = opt_req_views(r2);
    push_requests(&mut combined, r2);
    let r3 = error_symbol_is_missing_from_classpath::extract_symbol_is_missing_from_classpath(
        input,
    );
    let ghost v3 = opt_req_views(r3);
    push_requests(&mut combined, r3);
    let r4 = error_symbol_type_missing_from_classpath::extract(input);
    let ghost v4 = opt_req_views(r4);
    push_requests(&mut combined, r4);
    let r5 = error_type_not_found::extract(input);
    let ghost v5 = opt_req_views(r5);
    push_requests(&mut combined, r5);
    let r6 = error_value_not_found::extract_value_not_found(input);
    let ghost v6 = opt_req_views(r6);
    push_requests(&mut combined, r6);
    proof {
        assert(combined@.map_values(|x: ClassImportRequest| req_view(x)) =~= ((((v1 + v2) + v3)
            + v4) + v5) + v6);
        assert(((((v1 + v2) + v3) + v4) + v5) + v6 =~= scala_reqs_spec(input@));
    }
    if combined.len() == 0 {
        proof {
            assert(combined@.map_values(|x: ClassImportRequest| req_view(x)).len()
                == combined@.len());
        }
        None
    } else {
        Some(combined)
    }
}

} // verus!
