//! Java diagnostic family: `error: cannot find symbol`, resolved by
//! reading the import statement on the diagnostic's source line.

use vstd::prelude::*;

use crate::error_extraction::java::FileParseCache;
use crate::error_extraction::java::JavaClassImportRequest;
use crate::error_extraction::java::ParsedFileView;
use crate::error_extraction::java::cache_lookup;
use crate::error_extraction::java::error_package_does_not_exist::build_class_import_request;
use crate::error_extraction::java::jreq_view;
use crate::patterns::captures_of;
use crate::patterns::line_pair;
use crate::patterns::regex_line_captures;
use crate::source_dependencies::SelectorView;
use crate::text::all_digits;
use crate::text::digits_val;

verus! {

/// The line pattern of this diagnostic family.
pub open spec fn pattern_spec() -> Seq<char> {
    "^(.*\\.java):(\\d+):.*error: cannot find symbol\\s*$"@
}

/// The import prefixes declared on line `ln`, in order.
pub open spec fn imports_at(
    imports: Seq<(int, Seq<char>, SelectorView)>,
    ln: int,
) -> Seq<Seq<char>>
    decreases imports.len(),
{
    if imports.len() == 0 {
        Seq::empty()
    } else {
        let rest = imports_at(imports.skip(1), ln);
        if imports[0].0 == ln {
            seq![imports[0].1] + rest
        } else {
            rest
        }
    }
}

/// The `(source file, import prefix)` pairs of every `cannot find symbol`
/// line whose source file is in the cache: the import statements sitting
/// on the diagnostic's line number.
pub open spec fn symbol_pairs(
    cachev: Seq<(Seq<char>, ParsedFileView)>,
    lines: Seq<Seq<char>>,
) -> Seq<(Seq<char>, Seq<char>)>
    decreases lines.len(),
{
    if lines.len() == 0 {
        Seq::empty()
    } else {
        let rest = symbol_pairs(cachev, lines.skip(1));
        match line_pair(pattern_spec(), lines[0], 1, 2) {
            Some(p) => if p.1.len() > 0 && all_digits(p.1) && digits_val(p.1) <= u32::MAX {
                (match cache_lookup(cachev, p.0) {
                    Some(pf) => imports_at(pf.1, digits_val(p.1) as int).map_values(
                        |x: Seq<char>| (p.0, x),
                    ),
                    None => Seq::empty(),
                }) + rest
            } else {
                rest
            },
            None => rest,
        }
    }
}

/// Extracts one request per import statement found on a diagnostic's
/// line; yields nothing when no diagnostic resolves.
pub fn extract(input: &str, file_parse_cache: &mut FileParseCache) -> (r: Option<
    Vec<JavaClassImportRequest>,
>)
    ensures
        final(file_parse_cache)@ == old(file_parse_cache)@,
        ({
            let pairs = symbol_pairs(
                old(file_parse_cache)@,
                crate::text::lines_spec(input@),
            );
            match r {
                Some(v) => pairs.len() > 0 && v@.map_values(
                    |x: JavaClassImportRequest| jreq_view(x),
                ) == pairs.map_values(
                    |p: (Seq<char>, Seq<char>)| (p.0, p.1, false, "package_does_not_exist"@, 1int),
                ),
                None => pairs.len() == 0,
            }
        }),
{
    let pattern: &str = "^(.*\\.java):(\\d+):.*error: cannot find symbol\\s*$";
    let ghost cachev = file_parse_cache@;
    let ghost toview = |p: (Seq<char>, Seq<char>)| (p.0, p.1, false, "package_does_not_exist"@, 1int);
    let ls = crate::text::lines_of(input);
    let ghost lv = ls.deep_view();
    let n = ls.len();
    let mut out: Vec<JavaClassImportRequest> = Vec::new();
    let mut i: usize = 0;
    proof {
        assert(lv.skip(0) =~= lv);
        assert(out@.map_values(|x: JavaClassImportRequest| jreq_view(x)) + symbol_pairs(
            cachev,
            lv.skip(0),
        ).map_values(toview) =~= symbol_pairs(cachev, lv).map_values(toview));
    }
    while i < n
        invariant
            0 <= i <= n,
            n == lv.len(),
            ls.deep_view() == lv,
            n == ls@.len(),
            lv == crate::text::lines_spec(input@),
            pattern@ == pattern_spec(),
            file_parse_cache@ == cachev,
            toview == (|p: (Seq<char>, Seq<char>)| (
                p.0,
                p.1,
                false,
                "package_does_not_exist"@,
                1int,
            )),
            out@.map_values(|x: JavaClassImportRequest| jreq_view(x)) + symbol_pairs(
                cachev,
                lv.skip(i as int),
            ).map_values(toview) == symbol_pairs(cachev, lv).map_values(toview),
        decreases n - i,
    {
        proof {
            assert(ls@[i as int]@ == lv[i as int]);
            assert(lv.skip(i as int)[0] == lv[i as int]);
            assert(lv.skip(i as int).skip(1) =~= lv.skip(i + 1));
        }
        let ghost line_contrib: Seq<(Seq<char>, Seq<char>)> = match line_pair(
            pattern_spec(),
            lv[i as int],
            1,
            2,
        ) {
            Some(p) => if p.1.len() > 0 && all_digits(p.1) && digits_val(p.1) <= u32::MAX {
                match cache_lookup(cachev, p.0) {
                    Some(pf) => imports_at(pf.1, digits_val(p.1) as int).map_values(
                        |x: Seq<char>| (p.0, x),
                    ),
                    None => Seq::empty(),
                }
            } else {
                Seq::empty()
            },
            None => Seq::empty(),
        };
        proof {
            assert(symbol_pairs(cachev, lv.skip(i as int)) == line_contrib + symbol_pairs(
                cachev,
                lv.skip(i + 1),
            ));
        }
        let ghost base = out@.map_values(|x: JavaClassImportRequest| jreq_view(x));
        match regex_line_captures(pattern, ls[i].as_str()) {
            Some(groups) => {
                if 2 < groups.len() {
                    let src_file_name = &groups[1];
                    let ghost filev = groups@[1]@;
                    proof {
                        assert(pattern@ == pattern_spec());
                        assert(captures_of(pattern_spec(), lv[i as int]) == Some(
                            groups.deep_view(),
                        ));
                        assert(groups.deep_view().len() == groups@.len());
                        assert(groups.deep_view()[1] == groups@[1]@);
                        assert(groups.deep_view()[2] == groups@[2]@);
                        assert(line_pair(pattern_spec(), lv[i as int], 1, 2) == Some(
                            (groups@[1]@, groups@[2]@),
                        ));
                    }
                    match crate::text::parse_u32_str(groups[2].as_str()) {
                        Some(ln) => {
                            match file_parse_cache.lookup(src_file_name.as_str()) {
                                Some(pf) => {
                                    let ghost pfv =
                                        crate::error_extraction::java::parsed_file_view(*pf);
                                    let ghost iv = pfv.1;
                                    let m = pf.imports.len();
                                    let mut j: usize = 0;
                                    proof {
                                        assert(iv.skip(0) =~= iv);
                                        assert(line_contrib =~= imports_at(
                                            iv,
                                            ln as int,
                                        ).map_values(|x: Seq<char>| (filev, x)));
                                    }
                                    while j < m
                                        invariant
                                            0 <= j <= m,
                                            m == pf.imports@.len(),
                                            iv == pf.imports@.map_values(
                                                |im: crate::source_dependencies::Import|
                                                    crate::source_dependencies::import_view(im),
                                            ),
                                            filev == src_file_name@,
                                            out@.map_values(
                                                |x: JavaClassImportRequest| jreq_view(x),
                                            ) + imports_at(iv.skip(j as int), ln as int).map_values(
                                                |x: Seq<char>| (filev, x),
                                            ).map_values(toview) == base + imports_at(
                                                iv,
                                                ln as int,
                                            ).map_values(|x: Seq<char>| (filev, x)).map_values(
                                                toview,
                                            ),
                                            toview == (|p: (Seq<char>, Seq<char>)| (
                                                p.0,
                                                p.1,
                                                false,
                                                "package_does_not_exist"@,
                                                1int,
                                            )),
                                        decreases m - j,
                                    {
                                        proof {
                                            assert(iv.skip(j as int)[0] == iv[j as int]);
                                            assert(iv[j as int] ==
                                                crate::source_dependencies::import_view(
                                                pf.imports@[j as int],
                                            ));
                                            assert(iv.skip(j as int).skip(1) =~= iv.skip(j + 1));
                                        }
                                        if pf.imports[j].line_number == ln {
                                            let ghost prev = out@.map_values(
                                                |x: JavaClassImportRequest| jreq_view(x),
                                            );
                                            out.push(
                                                build_class_import_request(
                                                    src_file_name.clone(),
                                                    pf.imports[j].prefix_section.clone(),
                                                ),
                                            );
                                            proof {
                                                assert(out@.map_values(
                                                    |x: JavaClassImportRequest| jreq_view(x),
                                                ) =~= prev.push(
                                                    (
                                                        filev,
                                                        iv[j as int].1,
                                                        false,
                                                        "package_does_not_exist"@,
                                                        1int,
                                                    ),
                                                ));
                                                assert(imports_at(
                                                    iv.skip(j as int),
                                                    ln as int,
                                                ).map_values(|x: Seq<char>| (filev, x)).map_values(
                                                    toview,
                                                ) =~= seq![
                                                    (
                                                        filev,
                                                        iv[j as int].1,
                                                        false,
                                                        "package_does_not_exist"@,
                                                        1int,
                                                    ),
                                                ] + imports_at(iv.skip(j + 1), ln as int).map_values(
                                                    |x: Seq<char>| (filev, x),
                                                ).map_values(toview));
                                            }
                                        } else {
                                            proof {
                                                assert(imports_at(iv.skip(j as int), ln as int)
                                                    =~= imports_at(iv.skip(j + 1), ln as int));
                                            }
                                        }
                                        j = j + 1;
                                    }
                                    proof {
                                        assert(iv.skip(m as int) =~= Seq::<
                                            (int, Seq<char>, SelectorView),
                                        >::empty());
                                        assert(imports_at(iv.skip(m as int), ln as int).map_values(
                                            |x: Seq<char>| (filev, x),
                                        ).map_values(toview) =~= Seq::<
                                            (Seq<char>, Seq<char>, bool, Seq<char>, int),
                                        >::empty());
                                        assert(out@.map_values(
                                            |x: JavaClassImportRequest| jreq_view(x),
                                        ) =~= base + line_contrib.map_values(toview));
                                    }
                                },
                                None => {
                                    proof {
                                        assert(line_contrib =~= Seq::<
                                            (Seq<char>, Seq<char>),
                                        >::empty());
                                    }
                                },
                            }
                        },
                        None => {
                            proof {
                                assert(line_contrib =~= Seq::<(Seq<char>, Seq<char>)>::empty());
                            }
                        },
                    }
                } else {
                    proof {
                        assert(pattern@ == pattern_spec());
                        assert(captures_of(pattern_spec(), lv[i as int]) == Some(
                            groups.deep_view(),
                        ));
                        assert(groups.deep_view().len() == groups@.len());
                        assert(line_pair(pattern_spec(), lv[i as int], 1, 2) is None);
                    }
                }
            },
            None => {
                proof {
                    assert(pattern@ == pattern_spec());
                    assert(line_pair(pattern_spec(), lv[i as int], 1, 2) is None);
                }
            },
        }
        proof {
            assert(out@.map_values(|x: JavaClassImportRequest| jreq_view(x)) =~= base
                + line_contrib.map_values(toview));
            assert((base + line_contrib.map_values(toview)) + symbol_pairs(
                cachev,
                lv.skip(i + 1),
            ).map_values(toview) =~= base + (line_contrib + symbol_pairs(
                cachev,
                lv.skip(i + 1),
            )).map_values(toview));
        }
        i = i + 1;
    }
    proof {
        assert(lv.skip(n as int) =~= Seq::<Seq<char>>::empty());
        assert(out@.map_values(|x: JavaClassImportRequest| jreq_view(x)) =~= symbol_pairs(
            cachev,
            lv,
        ).map_values(toview));
    }
    if out.len() == 0 {
        proof {
            assert(symbol_pairs(cachev, lv).map_values(toview).len() == 0);
        }
        None
    } else {
        Some(out)
    }
}

} // verus!
