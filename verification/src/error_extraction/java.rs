//! The Java diagnostic extractors: missing packages and unresolvable
//! symbols, resolved against a cache of scanned source files, with
//! wildcard-import expansion.

use vstd::prelude::*;
use vstd::string::StringExecFns;

use crate::error_extraction::ClassImportRequest;
use crate::source_dependencies::Import;
use crate::source_dependencies::ParsedFile;
use crate::source_dependencies::SelectorType;
use crate::source_dependencies::SelectorView;
use crate::source_dependencies::import_view;

pub mod error_cannot_find_symbol;
pub mod error_package_does_not_exist;

verus! {

/// The scanned content of one source file, as contracts speak of it.
pub type ParsedFileView = (Option<Seq<char>>, Seq<(int, Seq<char>, SelectorView)>);

pub open spec fn parsed_file_view(pf: ParsedFile) -> ParsedFileView {
    (pf.package_name.deep_view(), pf.imports@.map_values(|im: Import| import_view(im)))
}

/// A Java-side request, still carrying the diagnostic's source file so
/// that wildcard imports of that file can widen it.
#[derive(Debug, PartialEq)]
pub struct JavaClassImportRequest {
    pub src_file_name: String,
    pub class_name: String,
    pub exact_only: bool,
    pub src_fn: String,
    pub priority: u32,
}

pub open spec fn jreq_view(r: JavaClassImportRequest) -> (Seq<char>, Seq<char>, bool, Seq<char>, int) {
    (r.src_file_name@, r.class_name@, r.exact_only, r.src_fn@, r.priority as int)
}

impl JavaClassImportRequest {
    /// Converts into the shared request shape, tagging the producing rule
    /// with the language family.
    pub fn to_class_import_request(self) -> (r: ClassImportRequest)
        requires
            self.priority <= i32::MAX,
        ensures
            crate::error_extraction::req_view(r) == (
                self.class_name@,
                self.exact_only,
                "java::"@ + self.src_fn@,
                self.priority as int,
            ),
    {
        let tag = crate::text::concat2("java::", self.src_fn.as_str());
        ClassImportRequest {
            class_name: self.class_name,
            exact_only: self.exact_only,
            src_fn: tag,
            priority: self.priority as i32,
        }
    }
}

/// The scanned file recorded under `path`, searching insertion order.
pub open spec fn cache_lookup(c: Seq<(Seq<char>, ParsedFileView)>, path: Seq<char>) -> Option<
    ParsedFileView,
>
    decreases c.len(),
{
    if c.len() == 0 {
        None
    } else if c[0].0 == path {
        Some(c[0].1)
    } else {
        cache_lookup(c.skip(1), path)
    }
}

/// A per-failure cache of scanned source files, keyed by path. The cache
/// never reads the disk itself: whoever drives the extraction scans each
/// file once and records it here.
pub struct FileParseCache {
    file_parse_cache: Vec<(String, ParsedFile)>,
}

impl FileParseCache {
    pub closed spec fn view(&self) -> Seq<(Seq<char>, ParsedFileView)> {
        self.file_parse_cache@.map_values(
            |e: (String, ParsedFile)| (e.0@, parsed_file_view(e.1)),
        )
    }

    pub fn new() -> (r: FileParseCache)
        ensures
            r@ == Seq::<(Seq<char>, ParsedFileView)>::empty(),
    {
        let r = FileParseCache { file_parse_cache: Vec::new() };
        proof {
            assert(r@ =~= Seq::<(Seq<char>, ParsedFileView)>::empty());
        }
        r
    }

    /// A cache holding one scanned file.
    pub fn init_from_par(key: String, v: ParsedFile) -> (r: FileParseCache)
        ensures
            r@.len() == 1,
            r@[0] == (key@, parsed_file_view(v)),
    {
        let ghost kv = key@;
        let ghost pv = parsed_file_view(v);
        let mut c: Vec<(String, ParsedFile)> = Vec::new();
        c.push((key, v));
        let r = FileParseCache { file_parse_cache: c };
        proof {
            assert(r@ =~= seq![(kv, pv)]);
        }
        r
    }

    /// Records one scanned file.
    pub fn insert_parsed(&mut self, key: String, v: ParsedFile)
        ensures
            final(self)@ == old(self)@.push((key@, parsed_file_view(v))),
    {
        let ghost prev = self@;
        let ghost kv = key@;
        let ghost pv = parsed_file_view(v);
        self.file_parse_cache.push((key, v));
        proof {
            assert(self@ =~= prev.push((kv, pv)));
        }
    }

    /// Hands back the scanned content recorded for `file_path`, when the
    /// driver has recorded one.
    pub fn load_file(&mut self, file_path: &str) -> (r: Option<&ParsedFile>)
        ensures
            final(self)@ == old(self)@,
            match r {
                Some(pf) => cache_lookup(old(self)@, file_path@) == Some(parsed_file_view(*pf)),
                None => cache_lookup(old(self)@, file_path@) is None,
            },
    {
        self.lookup(file_path)
    }

    /// Read-only lookup of a scanned file.
    pub fn lookup(&self, file_path: &str) -> (r: Option<&ParsedFile>)
        ensures
            match r {
                Some(pf) => cache_lookup(self@, file_path@) == Some(parsed_file_view(*pf)),
                None => cache_lookup(self@, file_path@) is None,
            },
    {
        let n = self.file_parse_cache.len();
        let mut i: usize = 0;
        proof {
            assert(self@.skip(0) =~= self@);
        }
        while i < n
            invariant
                0 <= i <= n,
                n == self.file_parse_cache@.len(),
                self@ == self.file_parse_cache@.map_values(
                    |e: (String, ParsedFile)| (e.0@, parsed_file_view(e.1)),
                ),
                cache_lookup(self@, file_path@) == cache_lookup(self@.skip(i as int), file_path@),
            decreases n - i,
        {
            proof {
                assert(self@.skip(i as int)[0] == self@[i as int]);
                assert(self@[i as int].0 == self.file_parse_cache@[i as int].0@);
            }
            if crate::text::str_eq(self.file_parse_cache[i].0.as_str(), file_path) {
                return Some(&self.file_parse_cache[i].1);
            }
            proof {
                assert(self@.skip(i as int).skip(1) =~= self@.skip(i + 1));
            }
            i = i + 1;
        }
        proof {
            assert(self@.skip(n as int) =~= Seq::<(Seq<char>, ParsedFileView)>::empty());
        }
        None
    }
}


/// The prefixes of a file's wildcard imports, in order.
pub open spec fn wildcard_prefixes(imports: Seq<(int, Seq<char>, SelectorView)>) -> Seq<Seq<char>>
    decreases imports.len(),
{
    if imports.len() == 0 {
        Seq::empty()
    } else {
        let rest = wildcard_prefixes(imports.skip(1));
        if imports[0].2 is Wildcard {
            seq![imports[0].1] + rest
        } else {
            rest
        }
    }
}

/// One request pair widened by its file's wildcard imports: for each
/// wildcard `w.*` a pair for `w.<class>`, then the pair itself.
pub open spec fn expand_pair(
    cachev: Seq<(Seq<char>, ParsedFileView)>,
    p: (Seq<char>, Seq<char>),
) -> Seq<(Seq<char>, Seq<char>)> {
    (match cache_lookup(cachev, p.0) {
        Some(pf) => wildcard_prefixes(pf.1).map_values(
            |w: Seq<char>| (p.0, w + seq!['.'] + p.1),
        ),
        None => Seq::empty(),
    }) + seq![p]
}

pub open spec fn expand_all(
    cachev: Seq<(Seq<char>, ParsedFileView)>,
    pairs: Seq<(Seq<char>, Seq<char>)>,
) -> Seq<(Seq<char>, Seq<char>)>
    decreases pairs.len(),
{
    if pairs.len() == 0 {
        Seq::empty()
    } else {
        expand_pair(cachev, pairs[0]) + expand_all(cachev, pairs.skip(1))
    }
}

/// The tag every Java request carries.
pub open spec fn java_tag() -> Seq<char> {
    "java::"@ + "package_does_not_exist"@
}

/// Everything the Java families extract from `input` against the scanned
/// files in the cache: missing-package and unresolved-symbol pairs, each
/// widened by its file's wildcard imports.
pub open spec fn java_reqs_spec(
    cachev: Seq<(Seq<char>, ParsedFileView)>,
    input: Seq<char>,
) -> Seq<(Seq<char>, bool, Seq<char>, int)> {
    expand_all(
        cachev,
        error_package_does_not_exist::pairs_spec(input) + error_cannot_find_symbol::symbol_pairs(
            cachev,
            crate::text::lines_spec(input),
        ),
    ).map_values(|p: (Seq<char>, Seq<char>)| (p.1, false, java_tag(), 1int))
}

/// Runs the Java families over the diagnostic text; yields nothing when
/// neither extracts a request.
pub fn extract_errors(input: &str, file_parse_cache: &mut FileParseCache) -> (r: Option<
    Vec<ClassImportRequest>,
>)
    ensures
        final(file_parse_cache)@ == old(file_parse_cache)@,
        match r {
            Some(v) => v@.map_values(
                |x: ClassImportRequest| crate::error_extraction::req_view(x),
            ) == java_reqs_spec(old(file_parse_cache)@, input@) && java_reqs_spec(
                old(file_parse_cache)@,
                input@,
            ).len() > 0,
            None => java_reqs_spec(old(file_parse_cache)@, input@).len() == 0,
        },
{
    let ghost cachev = file_parse_cache@;
    let mut combined: Vec<JavaClassImportRequest> = Vec::new();
    let ghost p1 = error_package_does_not_exist::pairs_spec(input@);
    let ghost p2 = error_cannot_find_symbol::symbol_pairs(
        cachev,
        crate::text::lines_spec(input@),
    );
    let ghost jv = |x: JavaClassImportRequest| jreq_view(x);
    let ghost pairv = |p: (Seq<char>, Seq<char>)| (
        p.0,
        p.1,
        false,
        "package_does_not_exist"@,
        1int,
    );
    match error_package_does_not_exist::extract(input) {
        Some(v) => {
            combined = v;
        },
        None => {},
    }
    proof {
        assert(combined@.map_values(jv) =~= p1.map_values(pairv));
    }
    match error_cannot_find_symbol::extract(input, file_parse_cache) {
        Some(mut v2) => {
            let ghost before = combined@.map_values(jv);
            let n2 = v2.len();
            let mut k: usize = 0;
            proof {
                assert(p2.map_values(pairv).take(0) =~= Seq::<
                    (Seq<char>, Seq<char>, bool, Seq<char>, int),
                >::empty());
            }
            while k < n2
                invariant
                    0 <= k <= n2,
                    n2 == v2@.len(),
                    jv == (|x: JavaClassImportRequest| jreq_view(x)),
                    v2@.map_values(jv) == p2.map_values(pairv),
                    pairv == (|p: (Seq<char>, Seq<char>)| (
                        p.0,
                        p.1,
                        false,
                        "package_does_not_exist"@,
                        1int,
                    )),
                    combined@.map_values(jv) == before + p2.map_values(pairv).take(k as int),
                decreases n2 - k,
            {
                let ghost prev = combined@.map_values(jv);
                let e = &v2[k];
                combined.push(
                    JavaClassImportRequest {
                        src_file_name: e.src_file_name.clone(),
                        class_name: e.class_name.clone(),
                        exact_only: e.exact_only,
                        src_fn: e.src_fn.clone(),
                        priority: e.priority,
                    },
                );
                proof {
                    let mp = p2.map_values(pairv);
                    assert(jreq_view(combined@.last()) == v2@.map_values(jv)[k as int]);
                    assert(combined@.map_values(jv) =~= prev.push(mp[k as int]));
                    assert(mp.take(k + 1) =~= mp.take(k as int).push(mp[k as int]));
                }
                k = k + 1;
            }
            proof {
                assert(p2.map_values(pairv).take(n2 as int) =~= p2.map_values(pairv));
            }
        },
        None => {
            proof {
                assert(p2.map_values(pairv).len() == 0);
                assert(p2.map_values(pairv) =~= Seq::<
                    (Seq<char>, Seq<char>, bool, Seq<char>, int),
                >::empty());
            }
        },
    }
    let ghost pairs = p1 + p2;
    proof {
        assert(combined@.map_values(jv) =~= (p1 + p2).map_values(pairv));
    }
    // Widen each request by its source file's wildcard imports, then keep
    // the request itself.
    let ghost tov = |p: (Seq<char>, Seq<char>)| (p.1, false, java_tag(), 1int);
    let ghost rv = |x: ClassImportRequest| crate::error_extraction::req_view(x);
    let mut out: Vec<ClassImportRequest> = Vec::new();
    let n = combined.len();
    let mut i: usize = 0;
    proof {
        assert(pairs.skip(0) =~= pairs);
        assert(out@.map_values(rv) + expand_all(cachev, pairs.skip(0)).map_values(tov)
            =~= expand_all(cachev, pairs).map_values(tov));
    }
    while i < n
        invariant
            0 <= i <= n,
            n == combined@.len(),
            file_parse_cache@ == cachev,
            combined@.map_values(jv) == pairs.map_values(pairv),
            n == pairs.len(),
            jv == (|x: JavaClassImportRequest| jreq_view(x)),
            rv == (|x: ClassImportRequest| crate::error_extraction::req_view(x)),
            pairv == (|p: (Seq<char>, Seq<char>)| (
                p.0,
                p.1,
                false,
                "package_does_not_exist"@,
                1int,
            )),
            tov == (|p: (Seq<char>, Seq<char>)| (p.1, false, java_tag(), 1int)),
            out@.map_values(rv) + expand_all(cachev, pairs.skip(i as int)).map_values(tov)
                == expand_all(cachev, pairs).map_values(tov),
        decreases n - i,
    {
        let e = &combined[i];
        let ghost pr = pairs[i as int];
        proof {
            assert(combined@.map_values(jv)[i as int] == pairs.map_values(pairv)[i as int]);
            assert(jreq_view(combined@[i as int]) == pairv(pairs[i as int]));
            assert(e.src_file_name@ == pr.0 && e.class_name@ == pr.1 && e.exact_only == false
                && e.src_fn@ == "package_does_not_exist"@ && e.priority == 1);
            assert(pairs.skip(i as int)[0] == pr);
            assert(pairs.skip(i as int).skip(1) =~= pairs.skip(i + 1));
            assert(expand_all(cachev, pairs.skip(i as int)) == expand_pair(cachev, pr)
                + expand_all(cachev, pairs.skip(i + 1)));
        }
        let ghost base = out@.map_values(rv);
        match file_parse_cache.lookup(e.src_file_name.as_str()) {
            Some(pf) => {
                let ghost pfv = parsed_file_view(*pf);
                let ghost iv = pfv.1;
                let ghost wmap = wildcard_prefixes(iv).map_values(
                    |w: Seq<char>| (pr.0, w + seq!['.'] + pr.1),
                );
                let m = pf.imports.len();
                let mut j: usize = 0;
                proof {
                    assert(iv.skip(0) =~= iv);
                    assert(out@.map_values(rv) + wildcard_prefixes(iv.skip(0)).map_values(
                        |w: Seq<char>| (pr.0, w + seq!['.'] + pr.1),
                    ).map_values(tov) =~= base + wmap.map_values(tov));
                }
                while j < m
                    invariant
                        0 <= j <= m,
                        m == pf.imports@.len(),
                        iv == pf.imports@.map_values(
                            |im: Import| import_view(im),
                        ),
                        rv == (|x: ClassImportRequest| crate::error_extraction::req_view(x)),
                        tov == (|p: (Seq<char>, Seq<char>)| (p.1, false, java_tag(), 1int)),
                        e.src_file_name@ == pr.0 && e.class_name@ == pr.1 && e.exact_only
                            == false && e.src_fn@ == "package_does_not_exist"@ && e.priority == 1,
                        wmap == wildcard_prefixes(iv).map_values(
                            |w: Seq<char>| (pr.0, w + seq!['.'] + pr.1),
                        ),
                        out@.map_values(rv) + wildcard_prefixes(iv.skip(j as int)).map_values(
                            |w: Seq<char>| (pr.0, w + seq!['.'] + pr.1),
                        ).map_values(tov) == base + wmap.map_values(tov),
                    decreases m - j,
                {
                    proof {
                        assert(iv.skip(j as int)[0] == iv[j as int]);
                        assert(iv[j as int] == import_view(pf.imports@[j as int]));
                        assert(iv.skip(j as int).skip(1) =~= iv.skip(j + 1));
                    }
                    let is_wild = match &pf.imports[j].suffix {
                        SelectorType::WildcardSelector() => true,
                        _ => false,
                    };
                    if is_wild {
                        let cls = crate::text::concat3(
                            pf.imports[j].prefix_section.as_str(),
                            ".",
                            e.class_name.as_str(),
                        );
                        proof {
                            reveal_strlit(".");
                            assert("."@ =~= seq!['.']);
                            assert(cls@ == iv[j as int].1 + seq!['.'] + pr.1);
                        }
                        let wild_req = JavaClassImportRequest {
                            src_file_name: e.src_file_name.clone(),
                            class_name: cls,
                            exact_only: e.exact_only,
                            src_fn: e.src_fn.clone(),
                            priority: e.priority,
                        };
                        let ghost prev = out@.map_values(rv);
                        out.push(wild_req.to_class_import_request());
                        proof {
                            assert(out@.map_values(rv) =~= prev.push(
                                (iv[j as int].1 + seq!['.'] + pr.1, false, java_tag(), 1int),
                            ));
                            assert(wildcard_prefixes(iv.skip(j as int)).map_values(
                                |w: Seq<char>| (pr.0, w + seq!['.'] + pr.1),
                            ).map_values(tov) =~= seq![
                                (iv[j as int].1 + seq!['.'] + pr.1, false, java_tag(), 1int),
                            ] + wildcard_prefixes(iv.skip(j + 1)).map_values(
                                |w: Seq<char>| (pr.0, w + seq!['.'] + pr.1),
                            ).map_values(tov));
                        }
                    } else {
                        proof {
                            assert(!(iv[j as int].2 is Wildcard));
                            assert(wildcard_prefixes(iv.skip(j as int)) =~= wildcard_prefixes(
                                iv.skip(j + 1),
                            ));
                        }
                    }
                    j = j + 1;
                }
                proof {
                    assert(iv.skip(m as int) =~= Seq::<(int, Seq<char>, SelectorView)>::empty());
                    assert(wildcard_prefixes(iv.skip(m as int)).map_values(
                        |w: Seq<char>| (pr.0, w + seq!['.'] + pr.1),
                    ).map_values(tov) =~= Seq::<(Seq<char>, bool, Seq<char>, int)>::empty());
                    assert(out@.map_values(rv) =~= base + wmap.map_values(tov));
                    assert(cache_lookup(cachev, pr.0) == Some(pfv));
                }
            },
            None => {
                proof {
                    assert(cache_lookup(cachev, pr.0) is None);
                }
            },
        }
        // The request itself follows its wildcard variants.
        let own_req = JavaClassImportRequest {
            src_file_name: e.src_file_name.clone(),
            class_name: e.class_name.clone(),
            exact_only: e.exact_only,
            src_fn: e.src_fn.clone(),
            priority: e.priority,
        };
        let ghost prev = out@.map_values(rv);
        out.push(own_req.to_class_import_request());
        proof {
            assert(out@.map_values(rv) =~= prev.push((pr.1, false, java_tag(), 1int)));
            assert(expand_pair(cachev, pr).map_values(tov) =~= (match cache_lookup(cachev, pr.0) {
                Some(pf2) => wildcard_prefixes(pf2.1).map_values(
                    |w: Seq<char>| (pr.0, w + seq!['.'] + pr.1),
                ),
                None => Seq::<(Seq<char>, Seq<char>)>::empty(),
            }).map_values(tov) + seq![(pr.1, false, java_tag(), 1int)]);
            assert(out@.map_values(rv) =~= base + expand_pair(cachev, pr).map_values(tov));
            assert((base + expand_pair(cachev, pr).map_values(tov)) + expand_all(
                cachev,
                pairs.skip(i + 1),
            ).map_values(tov) =~= base + (expand_pair(cachev, pr) + expand_all(
                cachev,
                pairs.skip(i + 1),
            )).map_values(tov));
        }
        i = i + 1;
    }
    proof {
        assert(pairs.skip(n as int) =~= Seq::<(Seq<char>, Seq<char>)>::empty());
        assert(out@.map_values(rv) =~= expand_all(cachev, pairs).map_values(tov));
        assert(out@.map_values(rv) =~= java_reqs_spec(cachev, input@));
    }
    if out.len() == 0 {
        proof {
            assert(java_reqs_spec(cachev, input@).len() == 0);
        }
        None
    } else {
        Some(out)
    }
}

} // verus!
