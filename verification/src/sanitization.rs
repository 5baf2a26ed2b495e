//! Canonicalization of build-target labels.
//!
//! A canonical label has the form `//pkg/path:name`. Two normalizations
//! apply: a label carrying the `_auto_gen_` marker of macro-generated
//! fan-out targets is truncated at the marker, and a label without an
//! explicit `:name` part gains one, taken from its last path segment.

use vstd::prelude::*;
use vstd::string::StrSliceExecFns;

use crate::error_extraction::ClassImportRequest;
use crate::error_extraction::copy_request;
use crate::occurs_at;
use crate::text::contains_sub;
use crate::text::contains_sub_spec;
use crate::text::find_char;
use crate::text::find_idx;
use crate::text::find_sub;
use crate::text::lemma_find_idx;
use crate::text::lemma_rfind_idx;
use crate::text::rfind_char;
use crate::text::rfind_idx;
use crate::text::str_eq;

verus! {

/// The marker that macro-generated fan-out targets carry in their names.
pub open spec fn auto_gen_marker() -> Seq<char> {
    "_auto_gen_"@
}

/// First index at or after `from` where `needle` occurs in `hay`, or `-1`.
pub open spec fn find_sub_idx(hay: Seq<char>, needle: Seq<char>, from: int) -> int
    decreases hay.len() - from + 1,
{
    if from < 0 || from > hay.len() || from + needle.len() > hay.len() {
        -1
    } else if occurs_at(hay, needle, from) {
        from
    } else {
        find_sub_idx(hay, needle, from + 1)
    }
}

pub proof fn lemma_find_sub_idx(hay: Seq<char>, needle: Seq<char>, from: int)
    requires
        0 <= from,
    ensures
        find_sub_idx(hay, needle, from) == -1 || find_sub_idx(hay, needle, from) >= from,
        find_sub_idx(hay, needle, from) == -1 ==> forall|j: int|
            from <= j ==> !occurs_at(hay, needle, j),
        find_sub_idx(hay, needle, from) >= 0 ==> occurs_at(
            hay,
            needle,
            find_sub_idx(hay, needle, from),
        ) && find_sub_idx(hay, needle, from) >= from && forall|j: int|
            from <= j < find_sub_idx(hay, needle, from) ==> !occurs_at(hay, needle, j),
    decreases hay.len() - from + 1,
{
    if from > hay.len() || from + needle.len() > hay.len() {
        assert(forall|j: int| from <= j ==> !occurs_at(hay, needle, j));
    } else if !occurs_at(hay, needle, from) {
        lemma_find_sub_idx(hay, needle, from + 1);
    }
}

/// The label truncated at the first `_auto_gen_` marker, when one occurs.
pub open spec fn auto_gen_cut(s: Seq<char>) -> Seq<char> {
    let i = find_sub_idx(s, auto_gen_marker(), 0);
    if i >= 0 {
        s.take(i)
    } else {
        s
    }
}

/// The path segment after the last `/`, or the whole string without one.
pub open spec fn last_segment(s: Seq<char>) -> Seq<char> {
    s.skip(rfind_idx(s, '/', s.len() as int) + 1)
}

/// The label with an explicit `:name` part, appended from the last path
/// segment when it is missing.
pub open spec fn with_target_name(s: Seq<char>) -> Seq<char> {
    if find_idx(s, ':', 0) != s.len() {
        s
    } else {
        s + seq![':'] + last_segment(s)
    }
}

/// The canonical form of a label.
pub open spec fn sanitize_spec(s: Seq<char>) -> Seq<char> {
    with_target_name(auto_gen_cut(s))
}

/// Canonicalizes a label: truncates at a `_auto_gen_` marker and appends
/// `:<last path segment>` when no `:` part is present.
pub fn sanitize_label(label: String) -> (r: String)
    ensures
        r@ == sanitize_spec(label@),
{
    proof {
        reveal_strlit("_auto_gen_");
        lemma_find_sub_idx(label@, auto_gen_marker(), 0);
    }
    let marker: &str = "_auto_gen_";
    let ghost orig = label@;
    let cut: String = match find_sub(label.as_str(), marker) {
        Some(i) => {
            proof {
                lemma_first_occurrence_is_find_sub_idx(label@, auto_gen_marker(), i as int);
                assert(label@.subrange(0, i as int) =~= label@.take(i as int));
            }
            String::from_str(label.as_str().substring_char(0, i))
        },
        None => {
            proof {
                lemma_find_sub_idx(label@, auto_gen_marker(), 0);
                if find_sub_idx(label@, auto_gen_marker(), 0) >= 0 {
                    assert(occurs_at(label@, auto_gen_marker(), find_sub_idx(
                        label@,
                        auto_gen_marker(),
                        0,
                    )));
                }
            }
            label
        },
    };
    proof {
        assert(cut@ == auto_gen_cut(orig));
        lemma_cut_has_no_marker(orig);
        assert(find_sub_idx(cut@, auto_gen_marker(), 0) == -1);
        assert(cut@ == auto_gen_cut(cut@));
    }
    let clen = cut.as_str().unicode_len();
    let cpos = find_char(cut.as_str(), ':');
    if cpos != clen {
        proof {
            assert(cut@ == with_target_name(cut@));
        }
        cut
    } else {
        let seg_start = match rfind_char(cut.as_str(), '/') {
            Some(i) => i + 1,
            None => 0,
        };
        let seg = cut.as_str().substring_char(seg_start, clen);
        let colon: &str = ":";
        let r = crate::text::concat3(cut.as_str(), colon, seg);
        proof {
            reveal_strlit(":");
            lemma_rfind_idx(cut@, '/', cut@.len() as int);
            assert(seg@ =~= last_segment(cut@));
            assert(colon@ =~= seq![':']);
            assert(r@ == with_target_name(cut@));
        }
        r
    }
}

/// When `needle` occurs first at `i`, the recursive search finds `i`.
proof fn lemma_first_occurrence_is_find_sub_idx(hay: Seq<char>, needle: Seq<char>, i: int)
    requires
        occurs_at(hay, needle, i),
        forall|j: int| 0 <= j < i ==> !occurs_at(hay, needle, j),
    ensures
        find_sub_idx(hay, needle, 0) == i,
{
    lemma_find_sub_idx(hay, needle, 0);
    let f = find_sub_idx(hay, needle, 0);
    if f == -1 {
        assert(!occurs_at(hay, needle, i));
        assert(false);
    } else if f < i {
        assert(occurs_at(hay, needle, f));
        assert(!occurs_at(hay, needle, f));
        assert(false);
    } else if f > i {
        assert(!occurs_at(hay, needle, i));
        assert(false);
    }
}

/// An occurrence inside a prefix of `s` is an occurrence inside `s`.
proof fn lemma_occurs_in_take(s: Seq<char>, needle: Seq<char>, k: int, i: int)
    requires
        0 <= k <= s.len(),
        occurs_at(s.take(k), needle, i),
    ensures
        occurs_at(s, needle, i),
{
    assert(s.take(k).subrange(i, i + needle.len() as int) =~= s.subrange(
        i,
        i + needle.len() as int,
    ));
}

/// Truncating at the first marker leaves a string without the marker.
proof fn lemma_cut_has_no_marker(s: Seq<char>)
    ensures
        find_sub_idx(auto_gen_cut(s), auto_gen_marker(), 0) == -1,
{
    reveal_strlit("_auto_gen_");
    let m = auto_gen_marker();
    assert(m.len() == 10);
    let i0 = find_sub_idx(s, m, 0);
    lemma_find_sub_idx(s, m, 0);
    let c = auto_gen_cut(s);
    let f = find_sub_idx(c, m, 0);
    lemma_find_sub_idx(c, m, 0);
    if f >= 0 {
        if i0 >= 0 {
            assert(c == s.take(i0));
            lemma_occurs_in_take(s, m, i0, f);
            assert(f + m.len() <= i0);
            assert(!occurs_at(s, m, f));
        } else {
            assert(c == s);
            assert(!occurs_at(s, m, f));
        }
    }
}

/// The marker never holds a `:` character.
proof fn lemma_marker_has_no_colon()
    ensures
        forall|k: int| 0 <= k < auto_gen_marker().len() ==> auto_gen_marker()[k] != ':',
        auto_gen_marker().len() == 10,
{
    reveal_strlit("_auto_gen_");
}

/// Appending `:name` to a marker-free string leaves it marker-free.
proof fn lemma_with_target_name_no_marker(s: Seq<char>)
    requires
        find_sub_idx(s, auto_gen_marker(), 0) == -1,
    ensures
        find_sub_idx(with_target_name(s), auto_gen_marker(), 0) == -1,
{
    let m = auto_gen_marker();
    lemma_marker_has_no_colon();
    lemma_find_sub_idx(s, m, 0);
    let t = with_target_name(s);
    let f = find_sub_idx(t, m, 0);
    lemma_find_sub_idx(t, m, 0);
    if f >= 0 {
        assert(occurs_at(t, m, f));
        if find_idx(s, ':', 0) != s.len() {
            assert(!occurs_at(s, m, f));
            assert(t.subrange(f, f + 10)[0] == m[0]);
        } else {
            let j = rfind_idx(s, '/', s.len() as int);
            lemma_rfind_idx(s, '/', s.len() as int);
            let seg = last_segment(s);
            assert(t == s + seq![':'] + seg);
            assert(t.len() == s.len() + 1 + seg.len());
            if f + 10 <= s.len() {
                assert(occurs_at(s, m, f)) by {
                    assert(t.subrange(f, f + 10) =~= s.subrange(f, f + 10));
                }
            } else if f <= s.len() < f + 10 {
                let off = s.len() - f;
                assert(m[off as int] == t[s.len() as int]);
                assert(t[s.len() as int] == ':');
            } else {
                // The occurrence lies inside the appended segment, which is
                // a subrange of `s` itself.
                let base = s.len() + 1;
                let k = f - base;
                assert(occurs_at(s, m, k + j + 1)) by {
                    assert(forall|x: int| 0 <= x < seg.len() ==> seg[x] == s[x + j + 1]);
                    assert(t.subrange(f, f + 10) =~= s.subrange(k + j + 1, k + j + 1 + 10));
                }
                assert(!occurs_at(s, m, k + j + 1));
            }
        }
    }
}

/// A canonical label holds a `:`.
proof fn lemma_with_target_name_has_colon(s: Seq<char>)
    ensures
        find_idx(with_target_name(s), ':', 0) != with_target_name(s).len(),
{
    let t = with_target_name(s);
    lemma_find_idx(t, ':', 0);
    lemma_find_idx(s, ':', 0);
    if find_idx(s, ':', 0) != s.len() {
        assert(s[find_idx(s, ':', 0)] == ':');
    } else {
        assert(t[s.len() as int] == ':');
    }
    assert(find_idx(t, ':', 0) < t.len() || forall|j: int| 0 <= j < t.len() ==> t[j] != ':');
}

/// Canonicalization is idempotent: a label already in canonical form is
/// left unchanged by a second pass.
pub proof fn lemma_sanitize_idempotent(s: Seq<char>)
    ensures
        sanitize_spec(sanitize_spec(s)) == sanitize_spec(s),
{
    let c = auto_gen_cut(s);
    let t = with_target_name(c);
    lemma_cut_has_no_marker(s);
    lemma_with_target_name_no_marker(c);
    assert(auto_gen_cut(t) == t);
    lemma_with_target_name_has_colon(c);
    assert(with_target_name(t) == t);
}

/// Canonicalization keeps the leading `//` of a workspace-relative label.
pub proof fn lemma_sanitize_keeps_slashes(s: Seq<char>)
    requires
        s.len() >= 2,
        s[0] == '/',
        s[1] == '/',
    ensures
        sanitize_spec(s).len() >= 2,
        sanitize_spec(s)[0] == '/',
        sanitize_spec(s)[1] == '/',
{
    reveal_strlit("_auto_gen_");
    let m = auto_gen_marker();
    let i0 = find_sub_idx(s, m, 0);
    lemma_find_sub_idx(s, m, 0);
    let c = auto_gen_cut(s);
    if i0 >= 0 {
        assert(occurs_at(s, m, i0));
        if i0 == 0 {
            assert(s.subrange(0, 10)[0] == m[0]);
            assert(false);
        }
        if i0 == 1 {
            assert(s.subrange(1, 11)[0] == m[0]);
            assert(false);
        }
        assert(i0 >= 2);
        assert(c[0] == s[0] && c[1] == s[1] && c.len() >= 2);
    }
    let t = with_target_name(c);
    if find_idx(c, ':', 0) != c.len() {
    } else {
        assert(t[0] == c[0] && t[1] == c[1]);
    }
}

/// Whether some other request in `rs` subsumes `e`: one whose class name
/// differs, contains `e`'s class name as a substring, and allows the
/// widening fallback.
pub open spec fn covered(rs: Seq<ClassImportRequest>, e: ClassImportRequest) -> bool {
    exists|k: int|
        0 <= k < rs.len() && !rs[k].exact_only && rs[k].class_name@ != e.class_name@
            && contains_sub_spec(rs[k].class_name@, e.class_name@)
}

fn is_covered(reqs: &Vec<ClassImportRequest>, e: &ClassImportRequest) -> (r: bool)
    ensures
        r == covered(reqs@, *e),
{
    let n = reqs.len();
    let mut k: usize = 0;
    while k < n
        invariant
            0 <= k <= n,
            n == reqs@.len(),
            forall|j: int|
                0 <= j < k ==> !(!reqs@[j].exact_only && reqs@[j].class_name@ != e.class_name@
                    && contains_sub_spec(reqs@[j].class_name@, e.class_name@)),
        decreases n - k,
    {
        let r = &reqs[k];
        if !r.exact_only && !str_eq(r.class_name.as_str(), e.class_name.as_str()) && contains_sub(
            r.class_name.as_str(),
            e.class_name.as_str(),
        ) {
            return true;
        }
        k = k + 1;
    }
    false
}

/// Drops every request that a broader, non-exact request subsumes: the
/// subsuming request will reach the dropped one's package space through
/// its own widening fallback.
pub fn prepare_class_import_requests(class_import_requests: Vec<ClassImportRequest>) -> (r: Vec<
    ClassImportRequest,
>)
    ensures
        r@ == class_import_requests@.filter(
            |e: ClassImportRequest| !covered(class_import_requests@, e),
        ),
{
    let reqs = class_import_requests;
    let ghost pred = |e: ClassImportRequest| !covered(reqs@, e);
    let mut out: Vec<ClassImportRequest> = Vec::new();
    let n = reqs.len();
    proof {
        assert(reqs@.take(0) =~= Seq::<ClassImportRequest>::empty());
        reveal(vstd::seq::Seq::filter);
    }
    let mut i: usize = 0;
    while i < n
        invariant
            0 <= i <= n,
            n == reqs@.len(),
            pred == (|e: ClassImportRequest| !covered(reqs@, e)),
            out@ == reqs@.take(i as int).filter(pred),
        decreases n - i,
    {
        let keep = !is_covered(&reqs, &reqs[i]);
        if keep {
            out.push(copy_request(&reqs[i]));
        }
        proof {
            reveal(vstd::seq::Seq::filter);
            assert(reqs@.take(i + 1).drop_last() =~= reqs@.take(i as int));
            assert(reqs@.take(i + 1).last() == reqs@[i as int]);
        }
        i = i + 1;
    }
    proof {
        assert(reqs@.take(n as int) =~= reqs@);
    }
    out
}

/// Broader-prefix pruning, dropping side: a request whose class name is a
/// proper substring of another request's, where that other request allows
/// the widening fallback, is marked as covered and pruned.
pub proof fn lemma_prune_drops_covered(reqs: Seq<ClassImportRequest>, i: int, j: int)
    requires
        0 <= i < reqs.len(),
        0 <= j < reqs.len(),
        !reqs[j].exact_only,
        reqs[j].class_name@ != reqs[i].class_name@,
        contains_sub_spec(reqs[j].class_name@, reqs[i].class_name@),
    ensures
        covered(reqs, reqs[i]),
{
    assert(0 <= j < reqs.len() && !reqs[j].exact_only && reqs[j].class_name@
        != reqs[i].class_name@ && contains_sub_spec(reqs[j].class_name@, reqs[i].class_name@));
}

/// Broader-prefix pruning, keeping side: a request no other request
/// covers survives the prune.
pub proof fn lemma_prune_keeps_uncovered(reqs: Seq<ClassImportRequest>, i: int)
    requires
        0 <= i < reqs.len(),
        !covered(reqs, reqs[i]),
    ensures
        reqs.filter(|e: ClassImportRequest| !covered(reqs, e)).contains(reqs[i]),
{
    vstd::seq::Seq::lemma_filter_contains(reqs, |e: ClassImportRequest| !covered(reqs, e), i);
}

proof fn lemma_filter_keeps_all(
    s: Seq<ClassImportRequest>,
    p: spec_fn(ClassImportRequest) -> bool,
)
    requires
        forall|i: int| 0 <= i < s.len() ==> p(#[trigger] s[i]),
    ensures
        s.filter(p) == s,
    decreases s.len(),
{
    reveal(vstd::seq::Seq::filter);
    if s.len() > 0 {
        let dl = s.drop_last();
        assert(forall|i: int| 0 <= i < dl.len() ==> p(#[trigger] dl[i])) by {
            assert(forall|i: int| 0 <= i < dl.len() ==> dl[i] == s[i]);
        }
        lemma_filter_keeps_all(dl, p);
        assert(p(s[s.len() - 1]));
        assert(s.filter(p) =~= s);
    }
}

/// Broader-prefix pruning, pass-through side: when no request's class
/// name sits strictly inside another request's that allows the widening
/// fallback, the prune returns the input unchanged, same elements in the
/// same order. Exact-only requests never cause a removal.
pub proof fn lemma_prune_leaves_unrelated(reqs: Seq<ClassImportRequest>)
    requires
        forall|i: int, j: int|
            0 <= i < reqs.len() && 0 <= j < reqs.len() && !(#[trigger] reqs[j]).exact_only
                && reqs[j].class_name@ != (#[trigger] reqs[i]).class_name@
                ==> !contains_sub_spec(reqs[j].class_name@, reqs[i].class_name@),
    ensures
        reqs.filter(|e: ClassImportRequest| !covered(reqs, e)) == reqs,
{
    let p = |e: ClassImportRequest| !covered(reqs, e);
    assert forall|i: int| 0 <= i < reqs.len() implies p(#[trigger] reqs[i]) by {
        if covered(reqs, reqs[i]) {
            let j = choose|j: int|
                0 <= j < reqs.len() && !reqs[j].exact_only && reqs[j].class_name@
                    != reqs[i].class_name@ && contains_sub_spec(
                    reqs[j].class_name@,
                    reqs[i].class_name@,
                );
            assert(!contains_sub_spec(reqs[j].class_name@, reqs[i].class_name@));
        }
    }
    lemma_filter_keeps_all(reqs, p);
}

/// The class name followed by each successively shorter dot-prefix, down
/// to the first segment: the widening ladder of a non-exact request.
pub open spec fn prefix_chain(s: Seq<char>, from: int) -> Seq<Seq<char>>
    decreases from,
{
    if from <= 0 || from > s.len() {
        Seq::empty()
    } else if s[from - 1] == '.' {
        seq![s.take(from - 1)] + prefix_chain(s, from - 1)
    } else {
        prefix_chain(s, from - 1)
    }
}

pub open spec fn split_clazz_spec(s: Seq<char>) -> Seq<Seq<char>> {
    seq![s] + prefix_chain(s, s.len() as int)
}

pub fn split_clazz_to_lst(class_name: &str) -> (r: Vec<String>)
    ensures
        r.deep_view() == split_clazz_spec(class_name@),
{
    let mut out: Vec<String> = Vec::new();
    out.push(String::from_str(class_name));
    let len = class_name.unicode_len();
    let mut i: usize = len;
    proof {
        assert(out.deep_view() =~= seq![class_name@]);
    }
    while i > 0
        invariant
            0 <= i <= len,
            len == class_name@.len(),
            out.deep_view() + prefix_chain(class_name@, i as int) == split_clazz_spec(class_name@),
        decreases i,
    {
        i = i - 1;
        if class_name.get_char(i) == '.' {
            let ghost prev = out.deep_view();
            let piece = String::from_str(class_name.substring_char(0, i));
            out.push(piece);
            proof {
                assert(piece@ == class_name@.take(i as int));
                assert(out.deep_view() =~= prev + seq![class_name@.take(i as int)]);
                assert(prefix_chain(class_name@, i + 1) == seq![class_name@.take(i as int)]
                    + prefix_chain(class_name@, i as int));
                assert(out.deep_view() + prefix_chain(class_name@, i as int) =~= prev
                    + prefix_chain(class_name@, i + 1));
            }
        }
    }
    proof {
        assert(prefix_chain(class_name@, 0) =~= Seq::<Seq<char>>::empty());
        assert(out.deep_view() =~= out.deep_view() + prefix_chain(class_name@, 0));
    }
    out
}

/// Stable insertion of `x` into a priority-descending sequence: `x` goes
/// after every element whose priority is at least its own.
pub open spec fn insert_desc(s: Seq<ClassImportRequest>, x: ClassImportRequest) -> Seq<
    ClassImportRequest,
>
    decreases s.len(),
{
    if s.len() == 0 {
        seq![x]
    } else if s.last().priority >= x.priority {
        s.push(x)
    } else {
        insert_desc(s.drop_last(), x).push(s.last())
    }
}

/// Stable sort by descending priority, as insertion in input order.
pub open spec fn sort_desc(s: Seq<ClassImportRequest>) -> Seq<ClassImportRequest>
    decreases s.len(),
{
    if s.len() == 0 {
        Seq::empty()
    } else {
        insert_desc(sort_desc(s.drop_last()), s.last())
    }
}

proof fn lemma_insert_desc_at(s: Seq<ClassImportRequest>, x: ClassImportRequest, k: int)
    requires
        0 <= k <= s.len(),
        forall|j: int| k <= j < s.len() ==> s[j].priority < x.priority,
        k > 0 ==> s[k - 1].priority >= x.priority,
    ensures
        insert_desc(s, x) == s.take(k) + seq![x] + s.skip(k),
    decreases s.len(),
{
    if s.len() == 0 {
        assert(insert_desc(s, x) == seq![x]);
        assert(s.take(0) + seq![x] + s.skip(0) =~= seq![x]);
    } else if s.last().priority >= x.priority {
        assert(k == s.len());
        assert(s.take(k) + seq![x] + s.skip(k) =~= s.push(x));
    } else {
        assert(k < s.len());
        let dl = s.drop_last();
        assert(forall|j: int| k <= j < dl.len() ==> #[trigger] dl[j].priority < x.priority);
        if k > 0 {
            assert(dl[k - 1] == s[k - 1]);
        }
        lemma_insert_desc_at(dl, x, k);
        assert(insert_desc(s, x) == (dl.take(k) + seq![x] + dl.skip(k)).push(s.last()));
        assert((dl.take(k) + seq![x] + dl.skip(k)).push(s.last()) =~= s.take(k) + seq![x] + s.skip(
            k,
        ));
    }
}

fn sort_by_priority_desc(reqs: Vec<ClassImportRequest>) -> (r: Vec<ClassImportRequest>)
    ensures
        r@ == sort_desc(reqs@),
{
    let mut out: Vec<ClassImportRequest> = Vec::new();
    let n = reqs.len();
    proof {
        assert(reqs@.take(0) =~= Seq::<ClassImportRequest>::empty());
        assert(out@ =~= sort_desc(reqs@.take(0)));
    }
    let mut i: usize = 0;
    while i < n
        invariant
            0 <= i <= n,
            n == reqs@.len(),
            out@ == sort_desc(reqs@.take(i as int)),
        decreases n - i,
    {
        let x = copy_request(&reqs[i]);
        let mut pos: usize = out.len();
        while pos > 0 && out[pos - 1].priority < x.priority
            invariant
                0 <= pos <= out@.len(),
                forall|j: int| pos <= j < out@.len() ==> out@[j].priority < x.priority,
            decreases pos,
        {
            pos = pos - 1;
        }
        proof {
            lemma_insert_desc_at(out@, x, pos as int);
            assert(reqs@.take(i + 1).drop_last() =~= reqs@.take(i as int));
            assert(reqs@.take(i + 1).last() == reqs@[i as int]);
            assert(out@.insert(pos as int, x) =~= out@.take(pos as int) + seq![x] + out@.skip(
                pos as int,
            ));
        }
        out.insert(pos, x);
        i = i + 1;
    }
    proof {
        assert(reqs@.take(n as int) =~= reqs@);
    }
    out
}

/// The widening ladder of one request: only the class name itself when the
/// request is exact, otherwise the full chain of dot-prefixes.
pub open spec fn sub_attempts_spec(e: ClassImportRequest) -> Seq<Seq<char>> {
    if e.exact_only {
        seq![e.class_name@]
    } else {
        split_clazz_spec(e.class_name@)
    }
}

/// The prepared search plan for one failure: subsumed requests dropped,
/// the rest ordered by descending priority, each paired with its
/// widening ladder.
pub open spec fn expand_spec(input: Seq<ClassImportRequest>) -> Seq<
    (ClassImportRequest, Seq<Seq<char>>),
> {
    sort_desc(input.filter(|e: ClassImportRequest| !covered(input, e))).map_values(
        |e: ClassImportRequest| (e, sub_attempts_spec(e)),
    )
}

/// Expanded view of `r`: the request paired with the deep view of its
/// attempt list.
pub open spec fn expanded_view(r: Seq<(ClassImportRequest, Vec<String>)>) -> Seq<
    (ClassImportRequest, Seq<Seq<char>>),
> {
    r.map_values(|p: (ClassImportRequest, Vec<String>)| (p.0, p.1.deep_view()))
}

/// Prunes, orders, and expands the requests of one failure into the exact
/// search plan the repair planner walks.
pub fn expand_candidate_import_requests(candidate_import_requests: Vec<ClassImportRequest>) -> (r:
    Vec<(ClassImportRequest, Vec<String>)>)
    ensures
        expanded_view(r@) == expand_spec(candidate_import_requests@),
{
    let pruned = prepare_class_import_requests(candidate_import_requests);
    let sorted = sort_by_priority_desc(pruned);
    let mut out: Vec<(ClassImportRequest, Vec<String>)> = Vec::new();
    let n = sorted.len();
    let mut i: usize = 0;
    proof {
        assert(expanded_view(out@) =~= sorted@.take(0).map_values(
            |e: ClassImportRequest| (e, sub_attempts_spec(e)),
        ));
    }
    while i < n
        invariant
            0 <= i <= n,
            n == sorted@.len(),
            expanded_view(out@) == sorted@.take(i as int).map_values(
                |e: ClassImportRequest| (e, sub_attempts_spec(e)),
            ),
        decreases n - i,
    {
        let e = &sorted[i];
        let attempts: Vec<String> = if e.exact_only {
            let mut v: Vec<String> = Vec::new();
            v.push(e.class_name.clone());
            proof {
                assert(v.deep_view() =~= seq![e.class_name@]);
            }
            v
        } else {
            split_clazz_to_lst(e.class_name.as_str())
        };
        let ghost prev = expanded_view(out@);
        out.push((copy_request(e), attempts));
        proof {
            assert(expanded_view(out@) =~= prev.push((sorted@[i as int], sub_attempts_spec(
                sorted@[i as int],
            ))));
            assert(sorted@.take(i + 1).map_values(
                |x: ClassImportRequest| (x, sub_attempts_spec(x)),
            ) =~= sorted@.take(i as int).map_values(
                |x: ClassImportRequest| (x, sub_attempts_spec(x)),
            ).push((sorted@[i as int], sub_attempts_spec(sorted@[i as int]))));
        }
        i = i + 1;
    }
    proof {
        assert(sorted@.take(n as int) =~= sorted@);
    }
    out
}

/// A label holding the `_auto_gen_` marker canonicalizes exactly as the
/// prefix before the first marker does.
pub proof fn lemma_auto_gen_collapse(s: Seq<char>)
    requires
        find_sub_idx(s, auto_gen_marker(), 0) >= 0,
    ensures
        sanitize_spec(s) == sanitize_spec(s.take(find_sub_idx(s, auto_gen_marker(), 0))),
{
    let m = auto_gen_marker();
    let i = find_sub_idx(s, m, 0);
    lemma_find_sub_idx(s, m, 0);
    let p = s.take(i);
    assert(auto_gen_cut(s) == p);
    let f = find_sub_idx(p, m, 0);
    lemma_find_sub_idx(p, m, 0);
    if f >= 0 {
        lemma_occurs_in_take(s, m, i, f);
        reveal_strlit("_auto_gen_");
        assert(!occurs_at(s, m, f));
    }
    assert(auto_gen_cut(p) == p);
}

} // verus!
