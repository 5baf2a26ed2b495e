//! The candidate resolver: for a failing target and a class name it
//! proposes an ordered list of `(frequency, label)` candidates, combining
//! the index table with heuristic path guesses, minus the implicit
//! toolchain targets of the failing rule kind.

use vstd::prelude::*;
use vstd::string::StrSliceExecFns;

use crate::build_events::ActionFailedErrorInfo;
use crate::guesses::get_guesses_for_class_name;
use crate::guesses::guesses_spec;
use crate::index_table::IndexRecord;
use crate::index_table::IndexTable;
use crate::sanitization::sanitize_label;
use crate::sanitization::sanitize_spec;
use crate::text::is_prefix;
use crate::text::starts_with_str;
use crate::text::str_eq;

verus! {

/// The toolchain targets a rule kind depends on implicitly; these must
/// never be proposed as new dependencies.
pub open spec fn forbidden_for_kind_spec(kind: Seq<char>) -> Seq<Seq<char>> {
    if kind == "scala_library"@ {
        seq!["@third_party_jvm//3rdparty/jvm/org/scala_lang:scala_library"@]
    } else if kind == "scala_test"@ {
        seq![
            "@third_party_jvm//3rdparty/jvm/org/scalatest"@,
            "@third_party_jvm//3rdparty/jvm/org/scalatest:scalatest"@,
            "@third_party_jvm//3rdparty/jvm/org/scala_lang:scala_library"@,
        ]
    } else {
        Seq::empty()
    }
}

/// The implicit-dependency labels of `kind`, exactly as the spec lists
/// them.
pub fn forbidden_targets_for_kind(kind: &str) -> (r: Vec<String>)
    ensures
        r.deep_view() == forbidden_for_kind_spec(kind@),
{
    let scala_lang: &str = "@third_party_jvm//3rdparty/jvm/org/scala_lang:scala_library";
    let scalatest: &str = "@third_party_jvm//3rdparty/jvm/org/scalatest";
    let scalatest_full: &str = "@third_party_jvm//3rdparty/jvm/org/scalatest:scalatest";
    let mut out: Vec<String> = Vec::new();
    if str_eq(kind, "scala_library") {
        out.push(String::from_str(scala_lang));
        proof {
            assert(out.deep_view() =~= forbidden_for_kind_spec(kind@));
        }
    } else if str_eq(kind, "scala_test") {
        out.push(String::from_str(scalatest));
        out.push(String::from_str(scalatest_full));
        out.push(String::from_str(scala_lang));
        proof {
            assert(out.deep_view() =~= forbidden_for_kind_spec(kind@));
        }
    } else {
        proof {
            assert(out.deep_view() =~= forbidden_for_kind_spec(kind@));
        }
    }
    out
}

/// Stable insertion of a candidate into a frequency-descending list.
pub open spec fn insert_freq_desc(s: Seq<(u16, Seq<char>)>, x: (u16, Seq<char>)) -> Seq<
    (u16, Seq<char>),
>
    decreases s.len(),
{
    if s.len() == 0 {
        seq![x]
    } else if s.last().0 >= x.0 {
        s.push(x)
    } else {
        insert_freq_desc(s.drop_last(), x).push(s.last())
    }
}

/// Stable sort of candidates by descending frequency.
pub open spec fn sort_freq_desc(s: Seq<(u16, Seq<char>)>) -> Seq<(u16, Seq<char>)>
    decreases s.len(),
{
    if s.len() == 0 {
        Seq::empty()
    } else {
        insert_freq_desc(sort_freq_desc(s.drop_last()), s.last())
    }
}

proof fn lemma_insert_freq_desc_at(s: Seq<(u16, Seq<char>)>, x: (u16, Seq<char>), k: int)
    requires
        0 <= k <= s.len(),
        forall|j: int| k <= j < s.len() ==> s[j].0 < x.0,
        k > 0 ==> s[k - 1].0 >= x.0,
    ensures
        insert_freq_desc(s, x) == s.take(k) + seq![x] + s.skip(k),
    decreases s.len(),
{
    if s.len() == 0 {
        assert(s.take(0) + seq![x] + s.skip(0) =~= seq![x]);
    } else if s.last().0 >= x.0 {
        assert(k == s.len());
        assert(s.take(k) + seq![x] + s.skip(k) =~= s.push(x));
    } else {
        assert(k < s.len());
        let dl = s.drop_last();
        assert(forall|j: int| k <= j < dl.len() ==> (#[trigger] dl[j]).0 < x.0);
        if k > 0 {
            assert(dl[k - 1] == s[k - 1]);
        }
        lemma_insert_freq_desc_at(dl, x, k);
        assert((dl.take(k) + seq![x] + dl.skip(k)).push(s.last()) =~= s.take(k) + seq![x] + s.skip(
            k,
        ));
    }
}

/// A property of every element survives a stable insertion.
proof fn lemma_insert_freq_preserves(
    s: Seq<(u16, Seq<char>)>,
    x: (u16, Seq<char>),
    p: spec_fn((u16, Seq<char>)) -> bool,
)
    requires
        forall|i: int| 0 <= i < s.len() ==> p(#[trigger] s[i]),
        p(x),
    ensures
        forall|i: int|
            0 <= i < insert_freq_desc(s, x).len() ==> p(#[trigger] insert_freq_desc(s, x)[i]),
    decreases s.len(),
{
    if s.len() == 0 {
        assert(insert_freq_desc(s, x) == seq![x]);
        assert(insert_freq_desc(s, x)[0] == x);
    } else if s.last().0 >= x.0 {
        assert(insert_freq_desc(s, x) == s.push(x));
        assert(forall|i: int|
            0 <= i < s.push(x).len() ==> p(#[trigger] s.push(x)[i])) by {
            assert(forall|i: int| 0 <= i < s.len() ==> s.push(x)[i] == s[i]);
            assert(s.push(x)[s.len() as int] == x);
        }
    } else {
        let dl = s.drop_last();
        assert(forall|i: int| 0 <= i < dl.len() ==> p(#[trigger] dl[i])) by {
            assert(forall|i: int| 0 <= i < dl.len() ==> dl[i] == s[i]);
        }
        lemma_insert_freq_preserves(dl, x, p);
        let inner = insert_freq_desc(dl, x);
        assert(insert_freq_desc(s, x) == inner.push(s.last()));
        assert(forall|i: int|
            0 <= i < inner.push(s.last()).len() ==> p(#[trigger] inner.push(s.last())[i])) by {
            assert(forall|i: int| 0 <= i < inner.len() ==> inner.push(s.last())[i] == inner[i]);
            assert(inner.push(s.last())[inner.len() as int] == s.last());
            assert(p(s[s.len() - 1]));
        }
    }
}

/// A property of every element survives the stable sort.
pub proof fn lemma_sort_freq_preserves(s: Seq<(u16, Seq<char>)>, p: spec_fn((u16, Seq<char>)) -> bool)
    requires
        forall|i: int| 0 <= i < s.len() ==> p(#[trigger] s[i]),
    ensures
        forall|i: int| 0 <= i < sort_freq_desc(s).len() ==> p(#[trigger] sort_freq_desc(s)[i]),
    decreases s.len(),
{
    if s.len() > 0 {
        let dl = s.drop_last();
        assert(forall|i: int| 0 <= i < dl.len() ==> p(#[trigger] dl[i])) by {
            assert(forall|i: int| 0 <= i < dl.len() ==> dl[i] == s[i]);
        }
        lemma_sort_freq_preserves(dl, p);
        assert(p(s[s.len() - 1]));
        lemma_insert_freq_preserves(sort_freq_desc(dl), s.last(), p);
    }
}

pub fn sort_candidates(cands: Vec<(u16, String)>) -> (r: Vec<(u16, String)>)
    ensures
        r.deep_view() == sort_freq_desc(cands.deep_view()),
{
    let mut out: Vec<(u16, String)> = Vec::new();
    let n = cands.len();
    let ghost cv = cands.deep_view();
    proof {
        assert(cv.take(0) =~= Seq::<(u16, Seq<char>)>::empty());
        assert(out.deep_view() =~= sort_freq_desc(cv.take(0)));
    }
    let mut i: usize = 0;
    while i < n
        invariant
            0 <= i <= n,
            n == cands@.len(),
            cands.deep_view() == cv,
            out.deep_view() == sort_freq_desc(cv.take(i as int)),
        decreases n - i,
    {
        let x = (cands[i].0, cands[i].1.clone());
        let ghost xv = (x.0, x.1@);
        proof {
            assert(xv == cv[i as int]);
        }
        let mut pos: usize = out.len();
        while pos > 0 && out[pos - 1].0 < x.0
            invariant
                0 <= pos <= out@.len(),
                xv.0 == x.0,
                forall|j: int| pos <= j < out@.len() ==> (#[trigger] out@[j]).0 < xv.0,
            decreases pos,
        {
            pos = pos - 1;
        }
        proof {
            assert(forall|j: int|
                0 <= j < out@.len() ==> (#[trigger] out.deep_view()[j]).0 == out@[j].0);
            lemma_insert_freq_desc_at(out.deep_view(), xv, pos as int);
            assert(cv.take(i + 1).drop_last() =~= cv.take(i as int));
            assert(cv.take(i + 1).last() == cv[i as int]);
        }
        let ghost prev = out.deep_view();
        out.insert(pos, x);
        proof {
            assert(out.deep_view() =~= prev.take(pos as int) + seq![xv] + prev.skip(pos as int));
        }
        i = i + 1;
    }
    proof {
        assert(cv.take(n as int) =~= cv);
    }
    out
}

/// Relies on std::path::Path::exists: whether `dir` holds a `BUILD` file
/// on disk. The answer depends on the machine's filesystem, so nothing is
/// promised of it.
#[verifier::external_body]
fn build_file_exists(dir: &str) -> bool {
    std::path::Path::new(dir).join("BUILD").exists()
}

/// Whether a label may denote a real target: a workspace-relative label
/// must have a `BUILD` file in its package directory; any other label is
/// given the benefit of the doubt.
pub fn is_potentially_valid_target(label: &str) -> (r: bool)
    ensures
        !is_prefix(label@, "//"@) ==> r == true,
{
    proof {
        reveal_strlit("//");
    }
    let slashes: &str = "//";
    if starts_with_str(label, slashes) {
        proof {
            assert(label@.subrange(0, 2)[0] == '/');
            assert(label@.subrange(0, 2)[1] == '/');
        }
        let len = label.unicode_len();
        let colon = crate::text::find_char(label, ':');
        let dir = label.substring_char(2, colon);
        build_file_exists(dir)
    } else {
        true
    }
}

/// The base entries the index supplies for a class name, after removing
/// the forbidden targets of the failing kind.
pub open spec fn filtered_base(
    tbl: Seq<IndexRecord>,
    kind: Option<Seq<char>>,
    class_name: Seq<char>,
) -> Seq<(u16, Seq<char>)> {
    let base = match IndexTable::lookup(tbl, class_name) {
        Some(es) => es,
        None => Seq::empty(),
    };
    match kind {
        Some(k) => base.filter(
            |e: (u16, Seq<char>)| !forbidden_for_kind_spec(k).contains(e.1),
        ),
        None => base,
    }
}

/// The resolver's answer: filtered index entries, then path guesses at
/// frequency zero, every label canonicalized, ordered by descending
/// frequency with ties kept in that insertion order.
pub open spec fn candidates_spec(
    tbl: Seq<IndexRecord>,
    kind: Option<Seq<char>>,
    class_name: Seq<char>,
) -> Seq<(u16, Seq<char>)> {
    let combined = filtered_base(tbl, kind, class_name) + guesses_spec(class_name).map_values(
        |g: Seq<char>| (0u16, g),
    );
    sort_freq_desc(combined.map_values(|e: (u16, Seq<char>)| (e.0, sanitize_spec(e.1))))
}

/// Resolves a class name to ranked candidate labels for the failing
/// target described by `error_info`.
pub fn get_candidates_for_class_name(
    error_info: &ActionFailedErrorInfo,
    class_name: &str,
    index_table: &IndexTable,
) -> (r: Vec<(u16, String)>)
    ensures
        r.deep_view() == candidates_spec(
            index_table@,
            error_info.target_kind.deep_view(),
            class_name@,
        ),
{
    let mut results: Vec<(u16, String)> = Vec::new();
    let ghost base: Seq<(u16, Seq<char>)> = match IndexTable::lookup(index_table@, class_name@) {
        Some(es) => es,
        None => Seq::empty(),
    };
    match index_table.get(class_name) {
        Some(es) => {
            let m = es.len();
            let mut j: usize = 0;
            proof {
                assert(es.deep_view() == base);
                assert(results.deep_view() =~= base.take(0));
            }
            while j < m
                invariant
                    0 <= j <= m,
                    m == es@.len(),
                    es.deep_view() == base,
                    results.deep_view() == base.take(j as int),
                decreases m - j,
            {
                let ghost prev = results.deep_view();
                results.push((es[j].0, es[j].1.clone()));
                proof {
                    assert(base[j as int] == (es@[j as int].0, es@[j as int].1@));
                    assert(results.deep_view() =~= prev.push(base[j as int]));
                    assert(base.take(j + 1) =~= base.take(j as int).push(base[j as int]));
                }
                j = j + 1;
            }
            proof {
                assert(base.take(m as int) =~= base);
            }
        },
        None => {
            proof {
                assert(results.deep_view() =~= base);
            }
        },
    }
    // Remove the failing kind's implicit toolchain targets.
    let mut kept: Vec<(u16, String)> = Vec::new();
    let ghost kindv = error_info.target_kind.deep_view();
    match &error_info.target_kind {
        Some(kind) => {
            let forbidden = forbidden_targets_for_kind(kind.as_str());
            let ghost pred = |e: (u16, Seq<char>)| !forbidden_for_kind_spec(
                kind@,
            ).contains(e.1);
            let n = results.len();
            let mut i: usize = 0;
            proof {
                reveal(vstd::seq::Seq::filter);
                assert(base.take(0) =~= Seq::<(u16, Seq<char>)>::empty());
                assert(kept.deep_view() =~= base.take(0).filter(pred));
            }
            while i < n
                invariant
                    0 <= i <= n,
                    n == results@.len(),
                    results.deep_view() == base,
                    forbidden.deep_view() == forbidden_for_kind_spec(kind@),
                    pred == (|e: (u16, Seq<char>)| !forbidden_for_kind_spec(
                        kind@,
                    ).contains(e.1)),
                    kept.deep_view() == base.take(i as int).filter(pred),
                decreases n - i,
            {
                proof {
                    assert(base[i as int] == (results@[i as int].0, results@[i as int].1@));
                }
                let keep = !crate::text::vec_contains_str(&forbidden, results[i].1.as_str());
                if keep {
                    let ghost prev = kept.deep_view();
                    kept.push((results[i].0, results[i].1.clone()));
                    proof {
                        assert(kept.deep_view() =~= prev.push(base[i as int]));
                    }
                }
                proof {
                    reveal(vstd::seq::Seq::filter);
                    assert(base.take(i + 1).drop_last() =~= base.take(i as int));
                    assert(base.take(i + 1).last() == base[i as int]);
                }
                i = i + 1;
            }
            proof {
                assert(base.take(n as int) =~= base);
                assert(kept.deep_view() == filtered_base(index_table@, kindv, class_name@));
            }
        },
        None => {
            kept = results;
            proof {
                assert(kept.deep_view() == filtered_base(index_table@, kindv, class_name@));
            }
        },
    }
    // Append path guesses at frequency zero.
    let guesses = get_guesses_for_class_name(class_name);
    let gn = guesses.len();
    let ghost gv = guesses_spec(class_name@).map_values(|g: Seq<char>| (0u16, g));
    let ghost fb = filtered_base(index_table@, kindv, class_name@);
    let mut k: usize = 0;
    proof {
        assert(kept.deep_view() =~= fb + gv.take(0));
    }
    while k < gn
        invariant
            0 <= k <= gn,
            gn == guesses@.len(),
            guesses.deep_view() == guesses_spec(class_name@),
            gv == guesses_spec(class_name@).map_values(|g: Seq<char>| (0u16, g)),
            kept.deep_view() == fb + gv.take(k as int),
        decreases gn - k,
    {
        let ghost prev = kept.deep_view();
        kept.push((0u16, guesses[k].clone()));
        proof {
            assert(gv[k as int] == (0u16, guesses@[k as int]@));
            assert(kept.deep_view() =~= prev.push(gv[k as int]));
            assert(gv.take(k + 1) =~= gv.take(k as int).push(gv[k as int]));
            assert(fb + gv.take(k + 1) =~= (fb + gv.take(k as int)).push(gv[k as int]));
        }
        k = k + 1;
    }
    proof {
        assert(gv.take(gn as int) =~= gv);
    }
    // Canonicalize every label.
    let ghost combined = fb + gv;
    let mut sanitized: Vec<(u16, String)> = Vec::new();
    let cn = kept.len();
    let mut c: usize = 0;
    proof {
        assert(sanitized.deep_view() =~= combined.map_values(
            |e: (u16, Seq<char>)| (e.0, sanitize_spec(e.1)),
        ).take(0));
    }
    while c < cn
        invariant
            0 <= c <= cn,
            cn == kept@.len(),
            kept.deep_view() == combined,
            sanitized.deep_view() == combined.map_values(
                |e: (u16, Seq<char>)| (e.0, sanitize_spec(e.1)),
            ).take(c as int),
        decreases cn - c,
    {
        let lab = sanitize_label(kept[c].1.clone());
        let ghost prev = sanitized.deep_view();
        sanitized.push((kept[c].0, lab));
        proof {
            let mapped = combined.map_values(|e: (u16, Seq<char>)| (e.0, sanitize_spec(e.1)));
            assert(combined[c as int] == (kept@[c as int].0, kept@[c as int].1@));
            assert(sanitized.deep_view() =~= prev.push(mapped[c as int]));
            assert(mapped.take(c + 1) =~= mapped.take(c as int).push(mapped[c as int]));
        }
        c = c + 1;
    }
    proof {
        let mapped = combined.map_values(|e: (u16, Seq<char>)| (e.0, sanitize_spec(e.1)));
        assert(mapped.take(cn as int) =~= mapped);
    }
    sort_candidates(sanitized)
}

/// Every candidate the resolver returns carries a canonical label: the
/// resolver canonicalizes each one, and canonicalization is idempotent.
pub proof fn lemma_candidates_canonical(
    tbl: Seq<IndexRecord>,
    kind: Option<Seq<char>>,
    class_name: Seq<char>,
    i: int,
)
    requires
        0 <= i < candidates_spec(tbl, kind, class_name).len(),
    ensures
        candidates_spec(tbl, kind, class_name)[i].1 == sanitize_spec(
            candidates_spec(tbl, kind, class_name)[i].1,
        ),
{
    let fb = filtered_base(tbl, kind, class_name);
    let gv = guesses_spec(class_name).map_values(|g: Seq<char>| (0u16, g));
    let combined = fb + gv;
    let mapped = combined.map_values(|e: (u16, Seq<char>)| (e.0, sanitize_spec(e.1)));
    let p = |e: (u16, Seq<char>)| e.1 == sanitize_spec(e.1);
    assert forall|j: int| 0 <= j < mapped.len() implies p(#[trigger] mapped[j]) by {
        assert(mapped[j] == (combined[j].0, sanitize_spec(combined[j].1)));
        crate::sanitization::lemma_sanitize_idempotent(combined[j].1);
    }
    lemma_sort_freq_preserves(mapped, p);
    assert(p(candidates_spec(tbl, kind, class_name)[i]));
}

/// A looked-up entry list is one of the table's records.
proof fn lemma_lookup_is_record(tbl: Seq<IndexRecord>, key: Seq<char>)
    requires
        IndexTable::lookup(tbl, key) is Some,
    ensures
        exists|k: int| 0 <= k < tbl.len() && (#[trigger] tbl[k]).1 == IndexTable::lookup(
            tbl,
            key,
        ).unwrap(),
    decreases tbl.len(),
{
    if tbl.len() > 0 {
        if tbl[0].0 == key {
            assert(tbl[0].1 == IndexTable::lookup(tbl, key).unwrap());
        } else {
            lemma_lookup_is_record(tbl.skip(1), key);
            let k = choose|k: int|
                0 <= k < tbl.skip(1).len() && (#[trigger] tbl.skip(1)[k]).1 == IndexTable::lookup(
                    tbl.skip(1),
                    key,
                ).unwrap();
            assert(tbl[k + 1].1 == IndexTable::lookup(tbl, key).unwrap());
        }
    }
}

/// Every element a filter keeps is an element of the source.
proof fn lemma_filter_element_of(
    s: Seq<(u16, Seq<char>)>,
    p: spec_fn((u16, Seq<char>)) -> bool,
    i: int,
)
    requires
        0 <= i < s.filter(p).len(),
    ensures
        s.contains(s.filter(p)[i]),
    decreases s.len(),
{
    reveal(vstd::seq::Seq::filter);
    if s.len() > 0 {
        let dl = s.drop_last();
        let f = s.filter(p);
        if p(s.last()) {
            if i < f.len() - 1 {
                lemma_filter_element_of(dl, p, i);
                assert(dl.filter(p)[i] == f[i]);
                let k = choose|k: int| 0 <= k < dl.len() && dl[k] == f[i];
                assert(s[k] == f[i]);
            } else {
                assert(f.last() == s.last());
                assert(s[s.len() - 1] == f[i]);
            }
        } else {
            lemma_filter_element_of(dl, p, i);
            let k = choose|k: int| 0 <= k < dl.len() && dl[k] == f[i];
            assert(s[k] == f[i]);
        }
    }
}

/// All of a table's entry labels are already canonical. The index builder
/// writes canonical labels, so a loaded table satisfies this.
pub open spec fn table_is_canonical(tbl: Seq<IndexRecord>) -> bool {
    forall|k: int, j: int|
        0 <= k < tbl.len() && 0 <= j < tbl[k].1.len() ==> sanitize_spec(
            (#[trigger] tbl[k].1[j]).1,
        ) == tbl[k].1[j].1
}

/// No forbidden dependency: with a canonical index, no candidate the
/// resolver returns for a failing target of kind `kind` lies in that
/// kind's forbidden set. The canonical-index premise is needed: the
/// forbidden filter runs before canonicalization, so a non-canonical
/// index label whose canonical form is a forbidden label would slip
/// through it.
pub proof fn lemma_no_forbidden_candidate(
    tbl: Seq<IndexRecord>,
    kind: Seq<char>,
    class_name: Seq<char>,
    i: int,
)
    requires
        table_is_canonical(tbl),
        0 <= i < candidates_spec(tbl, Some(kind), class_name).len(),
    ensures
        !forbidden_for_kind_spec(kind).contains(
            candidates_spec(tbl, Some(kind), class_name)[i].1,
        ),
{
    let base = match IndexTable::lookup(tbl, class_name) {
        Some(es) => es,
        None => Seq::empty(),
    };
    let pred = |e: (u16, Seq<char>)| !forbidden_for_kind_spec(kind).contains(e.1);
    let fb = filtered_base(tbl, Some(kind), class_name);
    let gv = guesses_spec(class_name).map_values(|g: Seq<char>| (0u16, g));
    let combined = fb + gv;
    let mapped = combined.map_values(|e: (u16, Seq<char>)| (e.0, sanitize_spec(e.1)));
    // Base entries are canonical, and the filter removed the forbidden ones.
    assert forall|j: int| 0 <= j < mapped.len() implies pred(#[trigger] mapped[j]) by {
        assert(mapped[j] == (combined[j].0, sanitize_spec(combined[j].1)));
        if j < fb.len() {
            assert(fb[j] == base.filter(pred)[j]);
            base.lemma_filter_pred(pred, j);
            lemma_filter_element_of(base, pred, j);
            let k = choose|k: int| 0 <= k < base.len() && base[k] == fb[j];
            if IndexTable::lookup(tbl, class_name) is Some {
                lemma_lookup_is_record(tbl, class_name);
                let r = choose|r: int|
                    0 <= r < tbl.len() && (#[trigger] tbl[r]).1 == IndexTable::lookup(
                        tbl,
                        class_name,
                    ).unwrap();
                assert(sanitize_spec(tbl[r].1[k].1) == tbl[r].1[k].1);
                assert(sanitize_spec(fb[j].1) == fb[j].1);
            }
        } else {
            // A path guess: it keeps its leading `//`, while every
            // forbidden label opens with `@`.
            let g = guesses_spec(class_name)[j - fb.len()];
            assert(combined[j] == gv[j - fb.len()]);
            assert(gv[j - fb.len()] == (0u16, g));
            lemma_guess_starts_with_slashes(class_name, j - fb.len());
            crate::sanitization::lemma_sanitize_keeps_slashes(g);
            lemma_forbidden_start_with_at(kind);
            if forbidden_for_kind_spec(kind).contains(sanitize_spec(g)) {
                let f = choose|f: int|
                    0 <= f < forbidden_for_kind_spec(kind).len() && forbidden_for_kind_spec(
                        kind,
                    )[f] == sanitize_spec(g);
                assert(forbidden_for_kind_spec(kind)[f][0] == '@');
            }
        }
    }
    lemma_sort_freq_preserves(mapped, pred);
    assert(pred(candidates_spec(tbl, Some(kind), class_name)[i]));
}

/// Every path guess opens with `//`.
proof fn lemma_guess_starts_with_slashes(class_name: Seq<char>, j: int)
    requires
        0 <= j < guesses_spec(class_name).len(),
    ensures
        guesses_spec(class_name)[j].len() >= 2,
        guesses_spec(class_name)[j][0] == '/',
        guesses_spec(class_name)[j][1] == '/',
{
    reveal_strlit("//src/main/scala/");
    reveal_strlit("//src/main/java/");
    let g = guesses_spec(class_name)[j];
    let kept = crate::guesses::package_sections(class_name);
    let joined = crate::text::join_spec(kept, seq!['/']);
    let flavors = crate::guesses::guess_flavors();
    assert(g == flavors[j] + joined);
    assert(flavors[j][0] == '/' && flavors[j][1] == '/');
    assert(g[0] == flavors[j][0] && g[1] == flavors[j][1]);
}

/// Every forbidden label opens with `@`.
proof fn lemma_forbidden_start_with_at(kind: Seq<char>)
    ensures
        forall|f: int|
            0 <= f < forbidden_for_kind_spec(kind).len() ==> (#[trigger] forbidden_for_kind_spec(
                kind,
            )[f])[0] == '@',
{
    reveal_strlit("@third_party_jvm//3rdparty/jvm/org/scala_lang:scala_library");
    reveal_strlit("@third_party_jvm//3rdparty/jvm/org/scalatest");
    reveal_strlit("@third_party_jvm//3rdparty/jvm/org/scalatest:scalatest");
}

} // verus!
