//! Java diagnostic family: `error: package P does not exist`.

use vstd::prelude::*;
use vstd::string::StringExecFns;

use crate::error_extraction::java::JavaClassImportRequest;
use crate::error_extraction::java::jreq_view;
use crate::patterns::scan_lines_for_pair;
use crate::patterns::scan_pair_results;

verus! {

/// The line pattern of this diagnostic family.
pub open spec fn pattern_spec() -> Seq<char> {
    "^(.*\\.java).*error: package ([A-Za-z0-9.<>_]+).* does not exist\\s*$"@
}

/// The `(source file, package)` pairs this family extracts.
pub open spec fn pairs_spec(input: Seq<char>) -> Seq<(Seq<char>, Seq<char>)> {
    scan_pair_results(pattern_spec(), crate::text::lines_spec(input), 1, 2)
}

/// Builds this family's request for one extracted package.
pub fn build_class_import_request(source_file_name: String, class_name: String) -> (r:
    JavaClassImportRequest)
    ensures
        jreq_view(r) == (
            source_file_name@,
            class_name@,
            false,
            "package_does_not_exist"@,
            1int,
        ),
{
    JavaClassImportRequest {
        src_file_name: source_file_name,
        class_name,
        exact_only: false,
        src_fn: String::from_str("package_does_not_exist"),
        priority: 1,
    }
}

/// Extracts one request per matching diagnostic line; yields nothing when
/// no line matches.
pub fn extract(input: &str) -> (r: Option<Vec<JavaClassImportRequest>>)
    ensures
        match r {
            Some(v) => pairs_spec(input@).len() > 0 && v@.map_values(
                |x: JavaClassImportRequest| jreq_view(x),
            ) == pairs_spec(input@).map_values(
                |p: (Seq<char>, Seq<char>)| (p.0, p.1, false, "package_does_not_exist"@, 1int),
            ),
            None => pairs_spec(input@).len() == 0,
        },
{
    let pattern: &str = "^(.*\\.java).*error: package ([A-Za-z0-9.<>_]+).* does not exist\\s*$";
    let pairs = scan_lines_for_pair(pattern, input, 1, 2);
    if pairs.len() == 0 {
        proof {
            assert(pairs.deep_view().len() == 0);
        }
        return None;
    }
    let ghost pv = pairs.deep_view();
    let mut out: Vec<JavaClassImportRequest> = Vec::new();
    let n = pairs.len();
    let mut i: usize = 0;
    let ghost mapped = pv.map_values(
        |p: (Seq<char>, Seq<char>)| (p.0, p.1, false, "package_does_not_exist"@, 1int),
    );
    proof {
        assert(out@.map_values(|x: JavaClassImportRequest| jreq_view(x)) =~= mapped.take(0));
    }
    while i < n
        invariant
            0 <= i <= n,
            n == pairs@.len(),
            pairs.deep_view() == pv,
            mapped == pv.map_values(
                |p: (Seq<char>, Seq<char>)| (p.0, p.1, false, "package_does_not_exist"@, 1int),
            ),
            out@.map_values(|x: JavaClassImportRequest| jreq_view(x)) == mapped.take(i as int),
        decreases n - i,
    {
        let ghost prev = out@.map_values(|x: JavaClassImportRequest| jreq_view(x));
        out.push(build_class_import_request(pairs[i].0.clone(), pairs[i].1.clone()));
        proof {
            assert(pv[i as int] == (pairs@[i as int].0@, pairs@[i as int].1@));
            assert(out@.map_values(|x: JavaClassImportRequest| jreq_view(x)) =~= prev.push(
                mapped[i as int],
            ));
            assert(mapped.take(i + 1) =~= mapped.take(i as int).push(mapped[i as int]));
        }
        i = i + 1;
    }
    proof {
        assert(mapped.take(n as int) =~= mapped);
    }
    Some(out)
}

} // verus!
