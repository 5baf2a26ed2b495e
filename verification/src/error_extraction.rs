//! Class-import requests: hypotheses, extracted from compiler diagnostics,
//! that a class or package must be provided by some build target, and the
//! per-language extractors that produce them.

use vstd::prelude::*;
use vstd::string::StringExecFns;

pub mod java;
pub mod scala;

verus! {

/// A request to find a target providing `class_name`. `exact_only`
/// forbids widening the search by stripping trailing name segments;
/// `src_fn` tags the diagnostic family that produced the request, and
/// `priority` orders requests within one failure.
#[derive(Debug, PartialEq, Eq)]
pub struct ClassImportRequest {
    pub class_name: String,
    pub exact_only: bool,
    pub src_fn: String,
    pub priority: i32,
}

/// A field-for-field copy of a request.
pub fn copy_request(r: &ClassImportRequest) -> (c: ClassImportRequest)
    ensures
        c == *r,
{
    ClassImportRequest {
        class_name: r.class_name.clone(),
        exact_only: r.exact_only,
        src_fn: r.src_fn.clone(),
        priority: r.priority,
    }
}

/// The views of an extractor's result, empty when it yielded nothing.
pub open spec fn opt_req_views(o: Option<Vec<ClassImportRequest>>) -> Seq<
    (Seq<char>, bool, Seq<char>, int),
> {
    match o {
        Some(v) => v@.map_values(|x: ClassImportRequest| req_view(x)),
        None => Seq::empty(),
    }
}

/// Appends an extractor's result, if any, onto the combined list.
pub fn push_requests(dst: &mut Vec<ClassImportRequest>, part: Option<Vec<ClassImportRequest>>)
    ensures
        final(dst)@.map_values(|x: ClassImportRequest| req_view(x)) == old(dst)@.map_values(
            |x: ClassImportRequest| req_view(x),
        ) + opt_req_views(part),
{
    let ghost base = dst@.map_values(|x: ClassImportRequest| req_view(x));
    match part {
        Some(v) => {
            let ghost pv = v@.map_values(|x: ClassImportRequest| req_view(x));
            let n = v.len();
            let mut i: usize = 0;
            proof {
                assert(base + pv.take(0) =~= base);
            }
            while i < n
                invariant
                    0 <= i <= n,
                    n == v@.len(),
                    pv == v@.map_values(|x: ClassImportRequest| req_view(x)),
                    dst@.map_values(|x: ClassImportRequest| req_view(x)) == base + pv.take(
                        i as int,
                    ),
                decreases n - i,
            {
                let ghost prev = dst@.map_values(|x: ClassImportRequest| req_view(x));
                dst.push(copy_request(&v[i]));
                proof {
                    assert(dst@.map_values(|x: ClassImportRequest| req_view(x)) =~= prev.push(
                        pv[i as int],
                    ));
                    assert(base + pv.take(i + 1) =~= (base + pv.take(i as int)).push(
                        pv[i as int],
                    ));
                }
                i = i + 1;
            }
            proof {
                assert(pv.take(n as int) =~= pv);
            }
        },
        None => {
            proof {
                assert(base + opt_req_views(part) =~= base);
            }
        },
    }
}

/// The mathematical content of a request.
pub open spec fn req_view(r: ClassImportRequest) -> (Seq<char>, bool, Seq<char>, int) {
    (r.class_name@, r.exact_only, r.src_fn@, r.priority as int)
}

/// One request view per class name, all with the same tag and shape.
pub open spec fn reqs_of(
    names: Seq<Seq<char>>,
    src_fn: Seq<char>,
    exact_only: bool,
    priority: int,
) -> Seq<(Seq<char>, bool, Seq<char>, int)> {
    names.map_values(|n: Seq<char>| (n, exact_only, src_fn, priority))
}

/// Wraps each extracted class name in a request carrying the extractor's
/// tag; an empty extraction is reported as no result.
pub fn requests_from(names: Vec<String>, src_fn: &str, exact_only: bool, priority: i32) -> (r:
    Option<Vec<ClassImportRequest>>)
    ensures
        match r {
            Some(v) => names.deep_view().len() > 0 && v@.map_values(
                |x: ClassImportRequest| req_view(x),
            ) == reqs_of(names.deep_view(), src_fn@, exact_only, priority as int),
            None => names.deep_view().len() == 0,
        },
{
    if names.len() == 0 {
        return None;
    }
    let ghost nv = names.deep_view();
    let mut out: Vec<ClassImportRequest> = Vec::new();
    let n = names.len();
    let mut i: usize = 0;
    proof {
        assert(out@.map_values(|x: ClassImportRequest| req_view(x)) =~= reqs_of(
            nv.take(0),
            src_fn@,
            exact_only,
            priority as int,
        ));
    }
    while i < n
        invariant
            0 <= i <= n,
            n == names@.len(),
            names.deep_view() == nv,
            out@.map_values(|x: ClassImportRequest| req_view(x)) == reqs_of(
                nv.take(i as int),
                src_fn@,
                exact_only,
                priority as int,
            ),
        decreases n - i,
    {
        let ghost prev = out@.map_values(|x: ClassImportRequest| req_view(x));
        out.push(
            ClassImportRequest {
                class_name: names[i].clone(),
                exact_only,
                src_fn: String::from_str(src_fn),
                priority,
            },
        );
        proof {
            assert(nv[i as int] == names@[i as int]@);
            assert(out@.map_values(|x: ClassImportRequest| req_view(x)) =~= prev.push(
                (nv[i as int], exact_only, src_fn@, priority as int),
            ));
            assert(reqs_of(nv.take(i + 1), src_fn@, exact_only, priority as int) =~= reqs_of(
                nv.take(i as int),
                src_fn@,
                exact_only,
                priority as int,
            ).push((nv[i as int], exact_only, src_fn@, priority as int)));
        }
        i = i + 1;
    }
    proof {
        assert(nv.take(n as int) =~= nv);
    }
    Some(out)
}


/// Everything the extractor for `target_kind` finds in the diagnostic
/// text: the Scala families for Scala rule kinds, the Java families for
/// Java rule kinds, and nothing for anything else.
pub open spec fn extract_errors_spec(
    target_kind: Option<Seq<char>>,
    cachev: Seq<(Seq<char>, java::ParsedFileView)>,
    input: Seq<char>,
) -> Seq<(Seq<char>, bool, Seq<char>, int)> {
    match target_kind {
        None => Seq::empty(),
        Some(k) => if k == "scala_library"@ || k == "scala_test"@ {
            scala::scala_reqs_spec(input)
        } else if k == "java_library"@ || k == "java_test"@ {
            java::java_reqs_spec(cachev, input)
        } else {
            Seq::empty()
        },
    }
}

/// Dispatches the diagnostic text to the extractor family of the failing
/// target's rule kind. The cache must already hold the scanned source
/// files the Java path may consult.
pub fn extract_errors(
    target_kind: &Option<String>,
    input: &str,
    file_parse_cache: &mut java::FileParseCache,
) -> (r: Option<Vec<ClassImportRequest>>)
    ensures
        final(file_parse_cache)@ == old(file_parse_cache)@,
        match r {
            Some(v) => v@.map_values(|x: ClassImportRequest| req_view(x)) == extract_errors_spec(
                target_kind.deep_view(),
                old(file_parse_cache)@,
                input@,
            ) && extract_errors_spec(
                target_kind.deep_view(),
                old(file_parse_cache)@,
                input@,
            ).len() > 0,
            None => extract_errors_spec(
                target_kind.deep_view(),
                old(file_parse_cache)@,
                input@,
            ).len() == 0,
        },
{
    match target_kind {
        None => None,
        Some(kind) => {
            if crate::text::str_eq(kind.as_str(), "scala_library") || crate::text::str_eq(
                kind.as_str(),
                "scala_test",
            ) {
                scala::extract_errors(input)
            } else if crate::text::str_eq(kind.as_str(), "java_library") || crate::text::str_eq(
                kind.as_str(),
                "java_test",
            ) {
                java::extract_errors(input, file_parse_cache)
            } else {
                None
            }
        },
    }
}

} // verus!
