//! Regular-expression matching for the diagnostic extractors, behind one
//! trusted wrapper around the `regex` crate.

use vstd::prelude::*;

verus! {

/// What `regex::Regex::captures` yields for a pattern and one line: the
/// capture groups in index order, a group that did not participate carried
/// as the empty string; `None` when the pattern does not match the line or
/// is not a valid pattern.
pub uninterp spec fn captures_of(pattern: Seq<char>, line: Seq<char>) -> Option<Seq<Seq<char>>>;

/// Relies on regex::Regex::new and regex::Regex::captures: the result is a
/// function of the pattern and the haystack alone. Group 0 is the whole
/// match; groups that did not participate are mapped to empty strings.
#[verifier::external_body]
pub fn regex_line_captures(pattern: &str, line: &str) -> (r: Option<Vec<String>>)
    ensures
        r.deep_view() == captures_of(pattern@, line@),
{
    match regex::Regex::new(pattern) {
        Err(_) => None,
        Ok(re) => re.captures(line).map(|caps| {
            caps.iter()
                .map(|m| m.map(|g| g.as_str().to_string()).unwrap_or_default())
                .collect()
        }),
    }
}

/// The capture group `group_idx` exposes on `line`, when the pattern
/// matches and has such a group.
pub open spec fn line_group(pattern: Seq<char>, line: Seq<char>, group_idx: int) -> Option<
    Seq<char>,
> {
    match captures_of(pattern, line) {
        Some(groups) => if 0 <= group_idx < groups.len() {
            Some(groups[group_idx])
        } else {
            None
        },
        None => None,
    }
}

/// Group `group_idx` of every matching line, in line order.
pub open spec fn scan_results(
    pattern: Seq<char>,
    lines: Seq<Seq<char>>,
    group_idx: int,
) -> Seq<Seq<char>>
    decreases lines.len(),
{
    if lines.len() == 0 {
        Seq::empty()
    } else {
        let rest = scan_results(pattern, lines.skip(1), group_idx);
        match line_group(pattern, lines[0], group_idx) {
            Some(g) => seq![g] + rest,
            None => rest,
        }
    }
}

/// Collects group `group_idx` of every line of `input` the pattern
/// matches.
pub fn scan_lines_for_group(pattern: &str, input: &str, group_idx: usize) -> (r: Vec<String>)
    ensures
        r.deep_view() == scan_results(pattern@, crate::text::lines_spec(input@), group_idx as int),
{
    let ls = crate::text::lines_of(input);
    let ghost lv = ls.deep_view();
    let n = ls.len();
    let mut out: Vec<String> = Vec::new();
    let mut i: usize = 0;
    proof {
        assert(lv.skip(0) =~= lv);
        assert(out.deep_view() + scan_results(pattern@, lv.skip(0), group_idx as int)
            =~= scan_results(pattern@, lv, group_idx as int));
    }
    while i < n
        invariant
            0 <= i <= n,
            n == lv.len(),
            ls.deep_view() == lv,
            n == ls@.len(),
            out.deep_view() + scan_results(pattern@, lv.skip(i as int), group_idx as int)
                == scan_results(pattern@, lv, group_idx as int),
        decreases n - i,
    {
        proof {
            assert(ls@[i as int]@ == lv[i as int]);
            assert(lv.skip(i as int)[0] == lv[i as int]);
            assert(lv.skip(i as int).skip(1) =~= lv.skip(i + 1));
        }
        match regex_line_captures(pattern, ls[i].as_str()) {
            Some(groups) => {
                if group_idx < groups.len() {
                    let ghost prev = out.deep_view();
                    out.push(groups[group_idx].clone());
                    proof {
                        assert(groups.deep_view()[group_idx as int]
                            == groups@[group_idx as int]@);
                        assert(line_group(pattern@, lv[i as int], group_idx as int) == Some(
                            groups@[group_idx as int]@,
                        ));
                        assert(out.deep_view() =~= prev.push(groups@[group_idx as int]@));
                        assert(out.deep_view() + scan_results(
                            pattern@,
                            lv.skip(i + 1),
                            group_idx as int,
                        ) =~= prev + scan_results(pattern@, lv.skip(i as int), group_idx as int));
                    }
                } else {
                    proof {
                        assert(line_group(pattern@, lv[i as int], group_idx as int) is None);
                    }
                }
            },
            None => {
                proof {
                    assert(line_group(pattern@, lv[i as int], group_idx as int) is None);
                }
            },
        }
        i = i + 1;
    }
    proof {
        assert(lv.skip(n as int) =~= Seq::<Seq<char>>::empty());
        assert(out.deep_view() =~= out.deep_view() + scan_results(
            pattern@,
            lv.skip(n as int),
            group_idx as int,
        ));
    }
    out
}


/// The pair of groups `(g1, g2)` a line exposes, when the pattern matches
/// and has both groups.
pub open spec fn line_pair(pattern: Seq<char>, line: Seq<char>, g1: int, g2: int) -> Option<
    (Seq<char>, Seq<char>),
> {
    match captures_of(pattern, line) {
        Some(groups) => if 0 <= g1 < groups.len() && 0 <= g2 < groups.len() {
            Some((groups[g1], groups[g2]))
        } else {
            None
        },
        None => None,
    }
}

/// Groups `(g1, g2)` of every matching line, in line order.
pub open spec fn scan_pair_results(
    pattern: Seq<char>,
    lines: Seq<Seq<char>>,
    g1: int,
    g2: int,
) -> Seq<(Seq<char>, Seq<char>)>
    decreases lines.len(),
{
    if lines.len() == 0 {
        Seq::empty()
    } else {
        let rest = scan_pair_results(pattern, lines.skip(1), g1, g2);
        match line_pair(pattern, lines[0], g1, g2) {
            Some(p) => seq![p] + rest,
            None => rest,
        }
    }
}

/// Collects groups `(g1, g2)` of every line of `input` the pattern
/// matches.
pub fn scan_lines_for_pair(pattern: &str, input: &str, g1: usize, g2: usize) -> (r: Vec<
    (String, String),
>)
    ensures
        r.deep_view() == scan_pair_results(
            pattern@,
            crate::text::lines_spec(input@),
            g1 as int,
            g2 as int,
        ),
{
    let ls = crate::text::lines_of(input);
    let ghost lv = ls.deep_view();
    let n = ls.len();
    let mut out: Vec<(String, String)> = Vec::new();
    let mut i: usize = 0;
    proof {
        assert(lv.skip(0) =~= lv);
        assert(out.deep_view() + scan_pair_results(pattern@, lv.skip(0), g1 as int, g2 as int)
            =~= scan_pair_results(pattern@, lv, g1 as int, g2 as int));
    }
    while i < n
        invariant
            0 <= i <= n,
            n == lv.len(),
            ls.deep_view() == lv,
            n == ls@.len(),
            out.deep_view() + scan_pair_results(pattern@, lv.skip(i as int), g1 as int, g2 as int)
                == scan_pair_results(pattern@, lv, g1 as int, g2 as int),
        decreases n - i,
    {
        proof {
            assert(ls@[i as int]@ == lv[i as int]);
            assert(lv.skip(i as int)[0] == lv[i as int]);
            assert(lv.skip(i as int).skip(1) =~= lv.skip(i + 1));
        }
        match regex_line_captures(pattern, ls[i].as_str()) {
            Some(groups) => {
                if g1 < groups.len() && g2 < groups.len() {
                    let ghost prev = out.deep_view();
                    out.push((groups[g1].clone(), groups[g2].clone()));
                    proof {
                        assert(groups.deep_view()[g1 as int] == groups@[g1 as int]@);
                        assert(groups.deep_view()[g2 as int] == groups@[g2 as int]@);
                        assert(line_pair(pattern@, lv[i as int], g1 as int, g2 as int) == Some(
                            (groups@[g1 as int]@, groups@[g2 as int]@),
                        ));
                        assert(out.deep_view() =~= prev.push(
                            (groups@[g1 as int]@, groups@[g2 as int]@),
                        ));
                        assert(out.deep_view() + scan_pair_results(
                            pattern@,
                            lv.skip(i + 1),
                            g1 as int,
                            g2 as int,
                        ) =~= prev + scan_pair_results(
                            pattern@,
                            lv.skip(i as int),
                            g1 as int,
                            g2 as int,
                        ));
                    }
                } else {
                    proof {
                        assert(line_pair(pattern@, lv[i as int], g1 as int, g2 as int) is None);
                    }
                }
            },
            None => {
                proof {
                    assert(line_pair(pattern@, lv[i as int], g1 as int, g2 as int) is None);
                }
            },
        }
        i = i + 1;
    }
    proof {
        assert(lv.skip(n as int) =~= Seq::<Seq<char>>::empty());
        assert(out.deep_view() =~= out.deep_view() + scan_pair_results(
            pattern@,
            lv.skip(n as int),
            g1 as int,
            g2 as int,
        ));
    }
    out
}

} // verus!
