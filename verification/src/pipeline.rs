//! The per-failure pipeline step: canonicalize the failing label, extract
//! class-import requests from each diagnostic file, run the repair
//! planner, and fold what it attempted back into the per-label
//! previously-seen state.

use vstd::prelude::*;

use crate::build_events::ActionFailedErrorInfo;
use crate::build_events::BuildFile;
use crate::error_extraction::extract_errors_spec;
use crate::error_extraction::java::FileParseCache;
use crate::error_extraction::java::ParsedFileView;
use crate::index_table::IndexTable;
use crate::planner::Buildozer;
use crate::planner::added_deps;
use crate::planner::lemma_result_set_canonical;
use crate::planner::planner_result_set;
use crate::planner::process_missing_dependency_errors;
use crate::sanitization::lemma_sanitize_idempotent;
use crate::sanitization::sanitize_label;
use crate::sanitization::sanitize_spec;
use crate::text::is_prefix;

verus! {

/// A failure's per-target diagnostic artifacts: where they sit on disk,
/// and the identity the results should carry.
pub trait ExtractClassData<U> {
    fn paths(&self) -> Vec<String>;

    fn id_info(&self) -> U;
}

/// The local paths of a failure's diagnostic files: every `file://` URI
/// with its scheme stripped; inline contents and other schemes are
/// dropped.
pub open spec fn error_paths_spec(files: Seq<BuildFile>) -> Seq<Seq<char>>
    decreases files.len(),
{
    if files.len() == 0 {
        Seq::empty()
    } else {
        let rest = error_paths_spec(files.skip(1));
        match files[0] {
            BuildFile::Uri(u) => if is_prefix(u@, "file://"@) {
                seq![u@.skip(7)] + rest
            } else {
                rest
            },
            BuildFile::Contents(_) => rest,
        }
    }
}

pub fn output_error_paths(err_data: &ActionFailedErrorInfo) -> (r: Vec<String>)
    ensures
        r.deep_view() == error_paths_spec(err_data.output_files@),
{
    proof {
        reveal_strlit("file://");
    }
    let scheme: &str = "file://";
    let ghost fv = err_data.output_files@;
    let n = err_data.output_files.len();
    let mut out: Vec<String> = Vec::new();
    let mut i: usize = 0;
    proof {
        assert(fv.skip(0) =~= fv);
        assert(out.deep_view() + error_paths_spec(fv.skip(0)) =~= error_paths_spec(fv));
    }
    while i < n
        invariant
            0 <= i <= n,
            n == fv.len(),
            err_data.output_files@ == fv,
            scheme@ == "file://"@,
            scheme@.len() == 7,
            out.deep_view() + error_paths_spec(fv.skip(i as int)) == error_paths_spec(fv),
        decreases n - i,
    {
        proof {
            assert(fv.skip(i as int)[0] == fv[i as int]);
            assert(fv.skip(i as int).skip(1) =~= fv.skip(i + 1));
        }
        match &err_data.output_files[i] {
            BuildFile::Uri(u) => {
                if crate::text::starts_with_str(u.as_str(), scheme) {
                    let ulen = u.as_str().unicode_len();
                    let path = u.as_str().substring_char(7, ulen);
                    let ghost prev = out.deep_view();
                    out.push(String::from_str(path));
                    proof {
                        assert(path@ =~= u@.skip(7));
                        assert(out.deep_view() =~= prev.push(u@.skip(7)));
                        assert(out.deep_view() + error_paths_spec(fv.skip(i + 1)) =~= prev
                            + error_paths_spec(fv.skip(i as int)));
                    }
                }
            },
            BuildFile::Contents(_) => {},
        }
        i = i + 1;
    }
    proof {
        assert(fv.skip(n as int) =~= Seq::<BuildFile>::empty());
        assert(out.deep_view() =~= out.deep_view() + error_paths_spec(fv.skip(n as int)));
    }
    out
}

/// The targets already attempted for `label` during this run.
pub open spec fn seen_lookup(
    v: Seq<(Seq<char>, Seq<Seq<char>>)>,
    label: Seq<char>,
) -> Seq<Seq<char>>
    decreases v.len(),
{
    if v.len() == 0 {
        Seq::empty()
    } else if v[0].0 == label {
        v[0].1
    } else {
        seen_lookup(v.skip(1), label)
    }
}

pub open spec fn has_label(v: Seq<(Seq<char>, Seq<Seq<char>>)>, label: Seq<char>) -> bool
    decreases v.len(),
{
    if v.len() == 0 {
        false
    } else if v[0].0 == label {
        true
    } else {
        has_label(v.skip(1), label)
    }
}

pub open spec fn remove_label(
    v: Seq<(Seq<char>, Seq<Seq<char>>)>,
    label: Seq<char>,
) -> Seq<(Seq<char>, Seq<Seq<char>>)>
    decreases v.len(),
{
    if v.len() == 0 {
        v
    } else if v[0].0 == label {
        v.skip(1)
    } else {
        seq![v[0]] + remove_label(v.skip(1), label)
    }
}

pub open spec fn labels_unique(v: Seq<(Seq<char>, Seq<Seq<char>>)>) -> bool
    decreases v.len(),
{
    if v.len() == 0 {
        true
    } else {
        !has_label(v.skip(1), v[0].0) && labels_unique(v.skip(1))
    }
}

proof fn lemma_remove_label(v: Seq<(Seq<char>, Seq<Seq<char>>)>, label: Seq<char>)
    requires
        labels_unique(v),
    ensures
        labels_unique(remove_label(v, label)),
        !has_label(remove_label(v, label), label),
        forall|l: Seq<char>|
            l != label ==> seen_lookup(remove_label(v, label), l) == seen_lookup(v, l)
                && has_label(remove_label(v, label), l) == has_label(v, l),
    decreases v.len(),
{
    if v.len() > 0 {
        if v[0].0 == label {
            assert(remove_label(v, label) == v.skip(1));
            assert forall|l: Seq<char>|
                l != label implies seen_lookup(remove_label(v, label), l) == seen_lookup(v, l)
                && has_label(remove_label(v, label), l) == has_label(v, l) by {
                assert(seen_lookup(v, l) == seen_lookup(v.skip(1), l));
                assert(has_label(v, l) == has_label(v.skip(1), l));
            }
        } else {
            lemma_remove_label(v.skip(1), label);
            let r = seq![v[0]] + remove_label(v.skip(1), label);
            assert(remove_label(v, label) == r);
            assert(r[0] == v[0]);
            assert(r.skip(1) =~= remove_label(v.skip(1), label));
            lemma_has_label_remove(v.skip(1), label, v[0].0);
            assert(!has_label(r, label));
            assert(labels_unique(r));
            assert forall|l: Seq<char>|
                l != label implies seen_lookup(r, l) == seen_lookup(v, l) && has_label(r, l)
                == has_label(v, l) by {
                assert(seen_lookup(remove_label(v.skip(1), label), l) == seen_lookup(
                    v.skip(1),
                    l,
                ));
                assert(has_label(remove_label(v.skip(1), label), l) == has_label(v.skip(1), l));
                if r[0].0 == l {
                    assert(seen_lookup(r, l) == r[0].1);
                    assert(seen_lookup(v, l) == v[0].1);
                } else {
                    assert(seen_lookup(r, l) == seen_lookup(r.skip(1), l));
                    assert(seen_lookup(v, l) == seen_lookup(v.skip(1), l));
                }
            }
        }
    }
}

proof fn lemma_has_label_remove(
    v: Seq<(Seq<char>, Seq<Seq<char>>)>,
    label: Seq<char>,
    other: Seq<char>,
)
    requires
        !has_label(v, other),
    ensures
        !has_label(remove_label(v, label), other),
    decreases v.len(),
{
    if v.len() > 0 {
        if v[0].0 == label {
        } else {
            lemma_has_label_remove(v.skip(1), label, other);
            let r = seq![v[0]] + remove_label(v.skip(1), label);
            assert(r.skip(1) =~= remove_label(v.skip(1), label));
        }
    }
}

proof fn lemma_lookup_push(
    v: Seq<(Seq<char>, Seq<Seq<char>>)>,
    label: Seq<char>,
    seen: Seq<Seq<char>>,
)
    requires
        !has_label(v, label),
    ensures
        seen_lookup(v.push((label, seen)), label) == seen,
        has_label(v.push((label, seen)), label),
        labels_unique(v) ==> labels_unique(v.push((label, seen))),
        forall|l: Seq<char>|
            l != label ==> seen_lookup(v.push((label, seen)), l) == seen_lookup(v, l),
    decreases v.len(),
{
    let p = v.push((label, seen));
    if v.len() == 0 {
        assert(p[0] == (label, seen));
        assert(p[0].0 == label);
        assert(p.skip(1) =~= Seq::<(Seq<char>, Seq<Seq<char>>)>::empty());
        assert(!has_label(p.skip(1), p[0].0));
        assert(labels_unique(p.skip(1)));
        assert(labels_unique(p));
        assert forall|l: Seq<char>| l != label implies seen_lookup(p, l) == seen_lookup(v, l) by {
            assert(seen_lookup(p, l) == seen_lookup(p.skip(1), l));
        }
    } else {
        lemma_lookup_push(v.skip(1), label, seen);
        assert(p[0] == v[0]);
        assert(p.skip(1) =~= v.skip(1).push((label, seen)));
        assert(v[0].0 != label);
        assert(seen_lookup(p, label) == seen_lookup(p.skip(1), label));
        if labels_unique(v) {
            assert(!has_label(v.skip(1).push((label, seen)), v[0].0)) by {
                lemma_has_push(v.skip(1), v[0].0, label, seen);
            }
            assert(labels_unique(v.skip(1)));
            assert(labels_unique(v.skip(1).push((label, seen))));
            assert(labels_unique(p.skip(1)));
            assert(!has_label(p.skip(1), p[0].0));
            assert(labels_unique(p));
        }
        assert forall|l: Seq<char>| l != label implies seen_lookup(p, l) == seen_lookup(v, l) by {
            assert(seen_lookup(v.skip(1).push((label, seen)), l) == seen_lookup(v.skip(1), l));
            if p[0].0 == l {
                assert(seen_lookup(p, l) == p[0].1);
                assert(seen_lookup(v, l) == v[0].1);
            } else {
                assert(seen_lookup(p, l) == seen_lookup(p.skip(1), l));
                assert(seen_lookup(v, l) == seen_lookup(v.skip(1), l));
            }
        }
    }
}

proof fn lemma_has_push(
    v: Seq<(Seq<char>, Seq<Seq<char>>)>,
    other: Seq<char>,
    label: Seq<char>,
    seen: Seq<Seq<char>>,
)
    requires
        !has_label(v, other),
        other != label,
    ensures
        !has_label(v.push((label, seen)), other),
    decreases v.len(),
{
    let p = v.push((label, seen));
    if v.len() == 0 {
        assert(p[0] == (label, seen));
        assert(p[0].0 == label);
        assert(p.skip(1) =~= Seq::<(Seq<char>, Seq<Seq<char>>)>::empty());
        assert(!has_label(p.skip(1), other));
    } else {
        lemma_has_push(v.skip(1), other, label, seen);
        assert(p[0] == v[0]);
        assert(v[0].0 != other);
        assert(p.skip(1) =~= v.skip(1).push((label, seen)));
    }
}

/// The per-label record of targets already attempted during this run.
/// Entries are taken for the duration of one failure and merged back, so
/// an attempt is never proposed twice for the same label.
pub struct PreviousSeenTracker {
    entries: Vec<(String, Vec<String>)>,
}

impl PreviousSeenTracker {
    pub closed spec fn view(&self) -> Seq<(Seq<char>, Seq<Seq<char>>)> {
        self.entries.deep_view()
    }

    pub open spec fn wf(&self) -> bool {
        labels_unique(self@)
    }

    pub fn new() -> (r: PreviousSeenTracker)
        ensures
            r@ == Seq::<(Seq<char>, Seq<Seq<char>>)>::empty(),
            r.wf(),
    {
        let r = PreviousSeenTracker { entries: Vec::new() };
        proof {
            assert(r@ =~= Seq::<(Seq<char>, Seq<Seq<char>>)>::empty());
        }
        r
    }

    /// Takes ownership of the label's entry for one failure.
    pub fn take_entry(&mut self, label: &str) -> (r: Vec<String>)
        requires
            old(self).wf(),
        ensures
            r.deep_view() == seen_lookup(old(self)@, label@),
            final(self)@ == remove_label(old(self)@, label@),
            final(self).wf(),
            !has_label(final(self)@, label@),
            forall|l: Seq<char>|
                l != label@ ==> seen_lookup(final(self)@, l) == seen_lookup(old(self)@, l),
    {
        proof {
            lemma_remove_label(self@, label@);
        }
        let n = self.entries.len();
        let mut i: usize = 0;
        proof {
            assert(self@.skip(0) =~= self@);
        }
        while i < n
            invariant
                0 <= i <= n,
                n == self.entries@.len(),
                self@ == old(self)@,
                labels_unique(self@),
                self@ == self.entries.deep_view(),
                forall|j: int| 0 <= j < i ==> (#[trigger] self@[j]).0 != label@,
                seen_lookup(self@, label@) == seen_lookup(self@.skip(i as int), label@),
                remove_label(self@, label@) == self@.take(i as int) + remove_label(
                    self@.skip(i as int),
                    label@,
                ),
            decreases n - i,
        {
            proof {
                assert(self@.skip(i as int)[0] == self@[i as int]);
                assert(self@[i as int].0 == self.entries@[i as int].0@);
                assert(self@.skip(i as int).skip(1) =~= self@.skip(i + 1));
            }
            if crate::text::str_eq(self.entries[i].0.as_str(), label) {
                let ghost pre = self@;
                let entry = self.entries.remove(i);
                proof {
                    assert(self@ =~= pre.take(i as int) + pre.skip(i + 1));
                    assert(pre.skip(i as int)[0].0 == label@);
                    assert(pre.skip(i as int).skip(1) =~= pre.skip(i + 1));
                    assert(remove_label(pre.skip(i as int), label@) == pre.skip(i + 1));
                    assert(remove_label(pre, label@) =~= pre.take(i as int) + pre.skip(i + 1));
                    assert(pre[i as int].1 == old(self).entries@[i as int].1.deep_view());
                    assert(entry.1.deep_view() == pre[i as int].1);
                    assert(seen_lookup(pre.skip(i as int), label@) == pre[i as int].1);
                    lemma_remove_label(pre, label@);
                }
                return entry.1;
            }
            proof {
                assert(self@.take(i + 1) =~= self@.take(i as int).push(self@[i as int]));
                assert(self@.take(i as int) + (seq![self@[i as int]] + remove_label(
                    self@.skip(i + 1),
                    label@,
                )) =~= self@.take(i + 1) + remove_label(self@.skip(i + 1), label@));
            }
            i = i + 1;
        }
        proof {
            assert(self@.skip(n as int) =~= Seq::<(Seq<char>, Seq<Seq<char>>)>::empty());
            assert(self@.take(n as int) + remove_label(self@.skip(n as int), label@) =~= self@);
            assert(remove_label(self@, label@) == self@);
            lemma_remove_label(self@, label@);
        }
        let r: Vec<String> = Vec::new();
        proof {
            assert(r.deep_view() =~= Seq::<Seq<char>>::empty());
            assert(seen_lookup(self@, label@) == seen_lookup(
                self@.skip(self@.len() as int),
                label@,
            ));
        }
        r
    }

    /// Writes the merged entry back.
    pub fn put_entry(&mut self, label: String, seen: Vec<String>)
        requires
            old(self).wf(),
            !has_label(old(self)@, label@),
        ensures
            final(self)@ == old(self)@.push((label@, seen.deep_view())),
            final(self).wf(),
            seen_lookup(final(self)@, label@) == seen.deep_view(),
            forall|l: Seq<char>|
                l != label@ ==> seen_lookup(final(self)@, l) == seen_lookup(old(self)@, l),
    {
        let ghost pre = self@;
        let ghost lv = label@;
        let ghost sv = seen.deep_view();
        self.entries.push((label, seen));
        proof {
            assert(self@ =~= pre.push((lv, sv)));
            lemma_lookup_push(pre, lv, sv);
        }
    }
}


/// Whether any diagnostic file of this failure extracts at least one
/// class-import request for the failing kind, against the given cache of
/// scanned source files.
pub open spec fn any_file_extracts(
    kind: Option<Seq<char>>,
    cachev: Seq<(Seq<char>, ParsedFileView)>,
    contents: Seq<Seq<char>>,
) -> bool {
    exists|i: int|
        0 <= i < contents.len() && (#[trigger] extract_errors_spec(
            kind,
            cachev,
            contents[i],
        )).len() > 0
}

/// Handles one failed action: canonicalizes its label, extracts requests
/// from each diagnostic file, runs the repair planner against the failing
/// target, and merges what was attempted back into the per-label state.
///
/// Laws carried by the contract: the editor's log only grows, and only
/// when some file's text extracts a request; when nothing extracts, the
/// tracker is untouched and the count is zero; every addition names the
/// canonical failing target, is canonical, and never proposes that
/// target itself; when work was done, the label's attempted-set record
/// afterwards holds the canonical label and every dependency this call
/// added; the record never shrinks, and other labels' records are
/// untouched.
pub fn handle_action_failed<T: Buildozer>(
    tracker: &mut PreviousSeenTracker,
    buildozer: &mut T,
    error_info: &ActionFailedErrorInfo,
    file_contents: &Vec<String>,
    index_table: &IndexTable,
    file_parse_cache: &mut FileParseCache,
) -> (actions: u32)
    requires
        old(tracker).wf(),
    ensures
        final(tracker).wf(),
        final(file_parse_cache)@ == old(file_parse_cache)@,
        final(buildozer).deps_added().len() >= old(buildozer).deps_added().len(),
        final(buildozer).deps_added().take(old(buildozer).deps_added().len() as int) == old(
            buildozer,
        ).deps_added(),
        forall|k: int|
            old(buildozer).deps_added().len() <= k < final(buildozer).deps_added().len() ==> (
            #[trigger] final(buildozer).deps_added()[k]).0 == sanitize_spec(error_info.label@)
                && final(buildozer).deps_added()[k].1 != sanitize_spec(error_info.label@)
                && final(buildozer).deps_added()[k].1 == sanitize_spec(
                final(buildozer).deps_added()[k].1,
            ),
        actions as int == if final(buildozer).deps_added().len() - old(
            buildozer,
        ).deps_added().len() <= u32::MAX {
            final(buildozer).deps_added().len() - old(buildozer).deps_added().len()
        } else {
            u32::MAX as int
        },
        !any_file_extracts(
            error_info.target_kind.deep_view(),
            old(file_parse_cache)@,
            file_contents.deep_view(),
        ) ==> final(buildozer).deps_added() == old(buildozer).deps_added() && final(tracker)@
            == old(tracker)@ && actions == 0,
        any_file_extracts(
            error_info.target_kind.deep_view(),
            old(file_parse_cache)@,
            file_contents.deep_view(),
        ) ==> seen_lookup(final(tracker)@, sanitize_spec(error_info.label@)).contains(
            sanitize_spec(error_info.label@),
        ),
        forall|k: int|
            old(buildozer).deps_added().len() <= k < final(buildozer).deps_added().len()
                ==> seen_lookup(final(tracker)@, sanitize_spec(error_info.label@)).contains(
                (#[trigger] final(buildozer).deps_added()[k]).1,
            ),
        any_file_extracts(
            error_info.target_kind.deep_view(),
            old(file_parse_cache)@,
            file_contents.deep_view(),
        ) ==> (forall|g: int|
            0 <= g < seen_lookup(old(tracker)@, sanitize_spec(error_info.label@)).len()
                ==> seen_lookup(final(tracker)@, sanitize_spec(error_info.label@)).contains(
                sanitize_spec(
                    #[trigger] seen_lookup(old(tracker)@, sanitize_spec(error_info.label@))[g],
                ),
            )),
        seen_lookup(final(tracker)@, sanitize_spec(error_info.label@)) == seen_lookup(
            old(tracker)@,
            sanitize_spec(error_info.label@),
        ) || (forall|g: int|
            0 <= g < seen_lookup(old(tracker)@, sanitize_spec(error_info.label@)).len()
                ==> seen_lookup(final(tracker)@, sanitize_spec(error_info.label@)).contains(
                sanitize_spec(
                    #[trigger] seen_lookup(old(tracker)@, sanitize_spec(error_info.label@))[g],
                ),
            )),
        forall|l: Seq<char>|
            l != sanitize_spec(error_info.label@) ==> seen_lookup(final(tracker)@, l)
                == seen_lookup(old(tracker)@, l),
{
    let slabel = sanitize_label(error_info.label.clone());
    let target_kind: Option<String> = match &error_info.target_kind {
        Some(k) => Some(k.clone()),
        None => None,
    };
    let info = ActionFailedErrorInfo {
        label: slabel.clone(),
        output_files: Vec::new(),
        target_kind,
    };
    let ghost sl = sanitize_spec(error_info.label@);
    let ghost kindv = error_info.target_kind.deep_view();
    proof {
        assert(info.label@ == sl);
        assert(info.target_kind.deep_view() == kindv);
        lemma_sanitize_idempotent(error_info.label@);
        assert(sanitize_spec(sl) == sl);
    }
    let ghost log0 = buildozer.deps_added();
    let ghost seen0 = seen_lookup(old(tracker)@, sl);
    let ghost mut worked: bool = false;
    let mut total: u32 = 0;
    let n = file_contents.len();
    let mut i: usize = 0;
    proof {
        assert(buildozer.deps_added().take(log0.len() as int) =~= log0);
    }
    while i < n
        invariant
            0 <= i <= n,
            n == file_contents@.len(),
            tracker.wf(),
            info.label@ == sl,
            slabel@ == sl,
            sanitize_spec(sl) == sl,
            sl == sanitize_spec(error_info.label@),
            info.target_kind.deep_view() == kindv,
            kindv == error_info.target_kind.deep_view(),
            file_parse_cache@ == old(file_parse_cache)@,
            seen0 == seen_lookup(old(tracker)@, sl),
            buildozer.deps_added().len() >= log0.len(),
            buildozer.deps_added().take(log0.len() as int) == log0,
            forall|k: int|
                log0.len() <= k < buildozer.deps_added().len() ==> (
                #[trigger] buildozer.deps_added()[k]).0 == sl && buildozer.deps_added()[k].1
                    != sl && buildozer.deps_added()[k].1 == sanitize_spec(
                    buildozer.deps_added()[k].1,
                ),
            total as int == if buildozer.deps_added().len() - log0.len() <= u32::MAX {
                buildozer.deps_added().len() - log0.len()
            } else {
                u32::MAX as int
            },
            worked <==> exists|i2: int|
                0 <= i2 < i && (#[trigger] extract_errors_spec(
                    kindv,
                    old(file_parse_cache)@,
                    file_contents.deep_view()[i2],
                )).len() > 0,
            !worked ==> buildozer.deps_added() == log0 && tracker@ == old(tracker)@ && total
                == 0,
            worked ==> seen_lookup(tracker@, sl).contains(sl),
            worked ==> forall|j: int|
                0 <= j < seen_lookup(tracker@, sl).len() ==> #[trigger] seen_lookup(
                    tracker@,
                    sl,
                )[j] == sanitize_spec(seen_lookup(tracker@, sl)[j]),
            forall|k: int|
                log0.len() <= k < buildozer.deps_added().len() ==> seen_lookup(
                    tracker@,
                    sl,
                ).contains((#[trigger] buildozer.deps_added()[k]).1),
            seen_lookup(tracker@, sl) == seen0 || (forall|g: int|
                0 <= g < seen0.len() ==> seen_lookup(tracker@, sl).contains(
                    sanitize_spec(#[trigger] seen0[g]),
                )),
            worked ==> (forall|g: int|
                0 <= g < seen0.len() ==> seen_lookup(tracker@, sl).contains(
                    sanitize_spec(#[trigger] seen0[g]),
                )),
            forall|l: Seq<char>|
                l != sl ==> seen_lookup(tracker@, l) == seen_lookup(old(tracker)@, l),
        decreases n - i,
    {
        proof {
            assert(file_contents@[i as int]@ == file_contents.deep_view()[i as int]);
        }
        match crate::error_extraction::extract_errors(
            &info.target_kind,
            file_contents[i].as_str(),
            file_parse_cache,
        ) {
            Some(requests) => {
                let ghost pre_entry = seen_lookup(tracker@, sl);
                let prev_seen = tracker.take_entry(slabel.as_str());
                let ghost prevv = prev_seen.deep_view();
                let ghost pre_log = buildozer.deps_added();
                let ghost decl_i = buildozer.declared();
                proof {
                    assert(prevv == pre_entry);
                    assert(extract_errors_spec(
                        kindv,
                        old(file_parse_cache)@,
                        file_contents.deep_view()[i as int],
                    ).len() > 0);
                }
                let (updated_ignore, count) = process_missing_dependency_errors(
                    requests,
                    prev_seen,
                    buildozer,
                    &info,
                    index_table,
                );
                let ghost post_log = buildozer.deps_added();
                let ghost ignore_v = updated_ignore.deep_view();
                tracker.put_entry(slabel.clone(), updated_ignore);
                proof {
                    worked = true;
                    // The log grew by this call's additions alone.
                    assert(post_log.take(pre_log.len() as int) == pre_log);
                    assert(post_log.take(log0.len() as int) =~= log0) by {
                        assert(forall|j: int|
                            0 <= j < log0.len() ==> #[trigger] post_log.take(
                                pre_log.len() as int,
                            )[j] == post_log[j]);
                    }
                    assert(forall|k: int|
                        log0.len() <= k < pre_log.len() ==> #[trigger] post_log[k]
                            == pre_log[k]) by {
                        assert(forall|k: int|
                            0 <= k < pre_log.len() ==> #[trigger] post_log.take(
                                pre_log.len() as int,
                            )[k] == post_log[k]);
                    }
                    assert forall|k: int|
                        log0.len() <= k < post_log.len() implies (#[trigger] post_log[k]).0 == sl
                        && post_log[k].1 != sl && post_log[k].1 == sanitize_spec(
                        post_log[k].1,
                    ) by {
                        if k < pre_log.len() {
                            assert(post_log[k] == pre_log[k]);
                        } else {
                            assert(post_log[k].0 == info.label@);
                            assert(post_log[k].1 != sanitize_spec(info.label@));
                            assert(post_log[k].1 == sanitize_spec(post_log[k].1));
                        }
                    }
                    // The new entry is the planner's result set, whose
                    // elements are all canonical.
                    assert(seen_lookup(tracker@, sl) == ignore_v);
                    let added_i = added_deps(pre_log, post_log);
                    assert forall|k2: int|
                        0 <= k2 < added_i.len() implies #[trigger] added_i[k2] == sanitize_spec(
                        added_i[k2],
                    ) by {
                        assert(added_i[k2] == post_log[pre_log.len() + k2].1);
                    }
                    if ignore_v == planner_result_set(decl_i, prevv, info.label@, added_i) {
                        lemma_result_set_canonical(decl_i, prevv, info.label@, added_i);
                    } else {
                        assert(ignore_v == planner_result_set(
                            Seq::<Seq<char>>::empty(),
                            prevv,
                            info.label@,
                            added_i,
                        ));
                        lemma_result_set_canonical(
                            Seq::<Seq<char>>::empty(),
                            prevv,
                            info.label@,
                            added_i,
                        );
                    }
                    assert(forall|j: int|
                        0 <= j < ignore_v.len() ==> #[trigger] ignore_v[j] == sanitize_spec(
                            ignore_v[j],
                        ));
                    // The entry holds the canonical label and every
                    // dependency added so far.
                    assert(ignore_v.contains(sl));
                    assert forall|k: int|
                        log0.len() <= k < post_log.len() implies ignore_v.contains(
                        (#[trigger] post_log[k]).1,
                    ) by {
                        if k < pre_log.len() {
                            let x = pre_log[k].1;
                            assert(post_log[k] == pre_log[k]);
                            assert(pre_entry.contains(x));
                            let w = choose|w: int| 0 <= w < prevv.len() && prevv[w] == x;
                            assert(ignore_v.contains(sanitize_spec(prevv[w])));
                            assert(prevv[w] == sanitize_spec(prevv[w]));
                        } else {
                            assert(ignore_v.contains(post_log[k].1));
                        }
                    }
                    // The merged entry keeps everything attempted before.
                    assert forall|g: int|
                        0 <= g < seen0.len() implies seen_lookup(tracker@, sl).contains(
                        sanitize_spec(#[trigger] seen0[g]),
                    ) by {
                        if pre_entry == seen0 {
                            assert(ignore_v.contains(sanitize_spec(pre_entry[g])));
                        } else {
                            assert(pre_entry.contains(sanitize_spec(seen0[g])));
                            let w = choose|w: int|
                                0 <= w < pre_entry.len() && pre_entry[w] == sanitize_spec(
                                    seen0[g],
                                );
                            assert(ignore_v.contains(sanitize_spec(pre_entry[w])));
                            lemma_sanitize_idempotent(seen0[g]);
                        }
                    }
                }
                let new_total: u32 = if count > u32::MAX - total {
                    u32::MAX
                } else {
                    total + count
                };
                proof {
                    let d0 = pre_log.len() - log0.len();
                    let d1 = post_log.len() - pre_log.len();
                    assert(count as int == if d1 <= u32::MAX {
                        d1
                    } else {
                        u32::MAX as int
                    });
                    assert(new_total as int == if d0 + d1 <= u32::MAX {
                        d0 + d1
                    } else {
                        u32::MAX as int
                    });
                }
                total = new_total;
            },
            None => {
                proof {
                    assert(extract_errors_spec(
                        kindv,
                        old(file_parse_cache)@,
                        file_contents.deep_view()[i as int],
                    ).len() == 0);
                }
            },
        }
        i = i + 1;
    }
    proof {
        assert(file_contents.deep_view().len() == file_contents@.len());
        assert(worked == any_file_extracts(
            kindv,
            old(file_parse_cache)@,
            file_contents.deep_view(),
        ));
    }
    total
}

} // verus!
