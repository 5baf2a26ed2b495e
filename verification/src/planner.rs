//! The repair planner: for one failed action it walks the prepared
//! class-import requests, consults the resolver, skips everything already
//! declared or already attempted, and asks the build-file editor to add at
//! most one dependency per request.

use vstd::prelude::*;
use vstd::string::StringExecFns;

use crate::build_events::ActionFailedErrorInfo;
use crate::error_extraction::ClassImportRequest;
use crate::index_table::IndexRecord;
use crate::index_table::IndexTable;
use crate::resolver::get_candidates_for_class_name;
use crate::resolver::is_potentially_valid_target;
use crate::resolver::candidates_spec;
use crate::resolver::lemma_candidates_canonical;
use crate::sanitization::expand_candidate_import_requests;
use crate::sanitization::expand_spec;
use crate::sanitization::expanded_view;
use crate::sanitization::sanitize_label;
use crate::sanitization::sanitize_spec;
use crate::text::vec_contains_str;

verus! {

/// A failed call into the external build-file editor.
#[derive(Debug, PartialEq)]
pub struct BuildozerError {
    pub description: String,
}

/// The external build-file editor. The library never implements the real
/// one: a driver supplies a subprocess-backed implementation, and tests
/// supply fakes. Two ghost views carry the contracts: `deps_added` is the
/// editor's log of accepted additions, and `declared` is the dependency
/// listing it reports during one planning session, read once and fixed
/// for that session.
pub trait Buildozer {
    /// Every `(target, dependency)` pair accepted so far, in call order.
    spec fn deps_added(&self) -> Seq<(Seq<char>, Seq<char>)>;

    /// The declared dependency list the editor reports this session.
    spec fn declared(&self) -> Seq<Seq<char>>;

    /// Lists the declared dependencies of `label`.
    fn print_deps(&mut self, label: &String) -> (r: Result<Vec<String>, BuildozerError>)
        ensures
            final(self).deps_added() == old(self).deps_added(),
            final(self).declared() == old(self).declared(),
            r matches Ok(v) ==> v.deep_view() == old(self).declared(),
    ;

    /// Adds `dep` to the declared dependencies of `target_label`.
    fn add_dependency(&mut self, target_label: &String, dep: &String) -> (r: Result<
        (),
        BuildozerError,
    >)
        ensures
            r is Ok ==> final(self).deps_added() == old(self).deps_added().push(
                (target_label@, dep@),
            ),
            r is Err ==> final(self).deps_added() == old(self).deps_added(),
            final(self).declared() == old(self).declared(),
    ;
}

/// An in-memory editor: it answers dependency listings from a fixed list
/// and records every accepted addition. Drivers replay the recorded
/// additions through the real editor; tests inspect them.
pub struct RecordingBuildozer {
    pub declared_deps: Vec<String>,
    pub refuse_adds: bool,
    pub added: Vec<(String, String)>,
}

impl RecordingBuildozer {
    pub fn new(declared_deps: Vec<String>) -> (r: RecordingBuildozer)
        ensures
            r.deps_added() == Seq::<(Seq<char>, Seq<char>)>::empty(),
            r.declared() == declared_deps.deep_view(),
            r.declared_deps == declared_deps,
            r.refuse_adds == false,
    {
        let r = RecordingBuildozer { declared_deps, refuse_adds: false, added: Vec::new() };
        proof {
            assert(r.added.deep_view() =~= Seq::<(Seq<char>, Seq<char>)>::empty());
        }
        r
    }
}

impl Buildozer for RecordingBuildozer {
    open spec fn deps_added(&self) -> Seq<(Seq<char>, Seq<char>)> {
        self.added.deep_view()
    }

    open spec fn declared(&self) -> Seq<Seq<char>> {
        self.declared_deps.deep_view()
    }

    fn print_deps(&mut self, label: &String) -> (r: Result<Vec<String>, BuildozerError>) {
        let n = self.declared_deps.len();
        let mut out: Vec<String> = Vec::new();
        let mut i: usize = 0;
        proof {
            assert(out.deep_view() =~= self.declared_deps.deep_view().take(0));
        }
        while i < n
            invariant
                0 <= i <= n,
                n == self.declared_deps@.len(),
                *self == *old(self),
                out.deep_view() == self.declared_deps.deep_view().take(i as int),
            decreases n - i,
        {
            let ghost prev = out.deep_view();
            out.push(self.declared_deps[i].clone());
            proof {
                let dv = self.declared_deps.deep_view();
                assert(dv[i as int] == self.declared_deps@[i as int]@);
                assert(out.deep_view() =~= prev.push(dv[i as int]));
                assert(dv.take(i + 1) =~= dv.take(i as int).push(dv[i as int]));
            }
            i = i + 1;
        }
        proof {
            assert(self.declared_deps.deep_view().take(n as int) =~= self.declared());
        }
        Ok(out)
    }

    fn add_dependency(&mut self, target_label: &String, dep: &String) -> (r: Result<
        (),
        BuildozerError,
    >) {
        if self.refuse_adds {
            Err(BuildozerError { description: String::from_str("refused") })
        } else {
            let ghost prev = self.added.deep_view();
            self.added.push((target_label.clone(), dep.clone()));
            proof {
                assert(self.added.deep_view() =~= prev.push((target_label@, dep@)));
            }
            Ok(())
        }
    }
}

/// The canonical image of a label list.
pub open spec fn sanitized_all(v: Seq<Seq<char>>) -> Seq<Seq<char>> {
    v.map_values(|x: Seq<char>| sanitize_spec(x))
}

/// The dependencies the editor accepted between two points of its log, in
/// call order.
pub open spec fn added_deps(
    pre: Seq<(Seq<char>, Seq<char>)>,
    post: Seq<(Seq<char>, Seq<char>)>,
) -> Seq<Seq<char>> {
    post.skip(pre.len() as int).map_values(|p: (Seq<char>, Seq<char>)| p.1)
}

/// The attempted-set one planner pass returns when the dependency listing
/// succeeded: the canonicalized declared dependencies, then the
/// canonicalized previously-seen targets, the canonical failing label,
/// and the targets added this pass — nothing else.
pub open spec fn planner_result_set(
    declared: Seq<Seq<char>>,
    global_previous_seen: Seq<Seq<char>>,
    label: Seq<char>,
    added: Seq<Seq<char>>,
) -> Seq<Seq<char>> {
    sanitized_all(declared) + sanitized_all(global_previous_seen) + seq![sanitize_spec(label)]
        + added
}

/// Whether `dep` is a label the resolver proposes somewhere in a prepared
/// search plan: an entry of the candidate list of some name in some
/// surviving request's widening ladder.
pub open spec fn proposed_by_resolver(
    tbl: Seq<IndexRecord>,
    kind: Option<Seq<char>>,
    plan: Seq<(ClassImportRequest, Seq<Seq<char>>)>,
    dep: Seq<char>,
) -> bool {
    exists|q: int, a: int, c: int|
        #![trigger candidates_spec(tbl, kind, plan[q].1[a])[c]]
        0 <= q < plan.len() && 0 <= a < plan[q].1.len() && 0 <= c < candidates_spec(
            tbl,
            kind,
            plan[q].1[a],
        ).len() && dep == candidates_spec(tbl, kind, plan[q].1[a])[c].1
}

/// Every element of a planner result set is canonical, provided the
/// additions are.
pub proof fn lemma_result_set_canonical(
    declared: Seq<Seq<char>>,
    global_previous_seen: Seq<Seq<char>>,
    label: Seq<char>,
    added: Seq<Seq<char>>,
)
    requires
        forall|k: int| 0 <= k < added.len() ==> #[trigger] added[k] == sanitize_spec(added[k]),
    ensures
        forall|j: int|
            0 <= j < planner_result_set(declared, global_previous_seen, label, added).len()
                ==> #[trigger] planner_result_set(declared, global_previous_seen, label, added)[j]
                == sanitize_spec(planner_result_set(declared, global_previous_seen, label, added)[j]),
{
    let rs = planner_result_set(declared, global_previous_seen, label, added);
    let dl = sanitized_all(declared).len();
    let gl = sanitized_all(global_previous_seen).len();
    assert forall|j: int| 0 <= j < rs.len() implies #[trigger] rs[j] == sanitize_spec(rs[j]) by {
        if j < dl {
            assert(rs[j] == sanitize_spec(declared[j]));
            crate::sanitization::lemma_sanitize_idempotent(declared[j]);
        } else if j < dl + gl {
            assert(rs[j] == sanitize_spec(global_previous_seen[j - dl]));
            crate::sanitization::lemma_sanitize_idempotent(global_previous_seen[j - dl]);
        } else if j == dl + gl {
            assert(rs[j] == sanitize_spec(label));
            crate::sanitization::lemma_sanitize_idempotent(label);
        } else {
            assert(rs[j] == added[j - dl - gl - 1]);
        }
    }
}

/// What the planner guarantees of every dependency the editor accepted on
/// its behalf: it names the failing target, it is canonical, it is not the
/// failing target itself, it was not already attempted in this run, and it
/// was proposed at most once.
pub open spec fn planner_additions_ok(
    pre: Seq<(Seq<char>, Seq<char>)>,
    post: Seq<(Seq<char>, Seq<char>)>,
    label: Seq<char>,
    global_previous_seen: Seq<Seq<char>>,
) -> bool {
    &&& post.len() >= pre.len()
    &&& post.take(pre.len() as int) == pre
    &&& forall|k: int| pre.len() <= k < post.len() ==> (#[trigger] post[k]).0 == label
    &&& forall|k: int|
        pre.len() <= k < post.len() ==> (#[trigger] post[k]).1 == sanitize_spec(post[k].1)
    &&& forall|k: int|
        pre.len() <= k < post.len() ==> (#[trigger] post[k]).1 != sanitize_spec(label)
    &&& forall|k: int, g: int|
        pre.len() <= k < post.len() && 0 <= g < global_previous_seen.len() ==> (
        #[trigger] post[k]).1 != sanitize_spec(#[trigger] global_previous_seen[g])
    &&& forall|k1: int, k2: int|
        #![trigger post[k1], post[k2]]
        pre.len() <= k1 < k2 < post.len() ==> post[k1].1 != post[k2].1
}

/// Walks the requests of one failure and asks the editor to add at most
/// one new dependency per request. Returns the grown ignore set for this
/// label and the number of dependencies the editor accepted.
///
/// The planner never proposes the failing target itself, anything in its
/// declared dependencies (when the listing succeeded), anything already
/// attempted during this run, or any one target twice; every proposal is
/// canonical, and the editor accepts at most one dependency per surviving
/// request. The returned set holds exactly the canonicalized declared
/// dependencies (absent when the listing failed), the canonicalized
/// previously-seen targets, the canonical failing label, and this pass's
/// additions.
pub fn process_missing_dependency_errors<T: Buildozer>(
    candidate_import_requests: Vec<ClassImportRequest>,
    global_previous_seen: Vec<String>,
    buildozer: &mut T,
    error_info: &ActionFailedErrorInfo,
    index_table: &IndexTable,
) -> (r: (Vec<String>, u32))
    ensures
        planner_additions_ok(
            old(buildozer).deps_added(),
            final(buildozer).deps_added(),
            error_info.label@,
            global_previous_seen.deep_view(),
        ),
        final(buildozer).declared() == old(buildozer).declared(),
        final(buildozer).deps_added().len() - old(buildozer).deps_added().len() <= expand_spec(
            candidate_import_requests@,
        ).len(),
        r.1 as int == if final(buildozer).deps_added().len() - old(buildozer).deps_added().len()
            <= u32::MAX {
            final(buildozer).deps_added().len() - old(buildozer).deps_added().len()
        } else {
            u32::MAX as int
        },
        r.0.deep_view() == planner_result_set(
            old(buildozer).declared(),
            global_previous_seen.deep_view(),
            error_info.label@,
            added_deps(old(buildozer).deps_added(), final(buildozer).deps_added()),
        ) || r.0.deep_view() == planner_result_set(
            Seq::<Seq<char>>::empty(),
            global_previous_seen.deep_view(),
            error_info.label@,
            added_deps(old(buildozer).deps_added(), final(buildozer).deps_added()),
        ),
        r.0.deep_view() == planner_result_set(
            old(buildozer).declared(),
            global_previous_seen.deep_view(),
            error_info.label@,
            added_deps(old(buildozer).deps_added(), final(buildozer).deps_added()),
        ) ==> forall|k: int, j: int|
            old(buildozer).deps_added().len() <= k < final(buildozer).deps_added().len() && 0 <= j
                < old(buildozer).declared().len()
                ==> (#[trigger] final(buildozer).deps_added()[k]).1 != sanitize_spec(
                #[trigger] old(buildozer).declared()[j],
            ),
        r.0.deep_view().contains(sanitize_spec(error_info.label@)),
        forall|g: int|
            0 <= g < global_previous_seen.deep_view().len() ==> r.0.deep_view().contains(
                sanitize_spec(#[trigger] global_previous_seen.deep_view()[g]),
            ),
        forall|k: int|
            old(buildozer).deps_added().len() <= k < final(buildozer).deps_added().len()
                ==> r.0.deep_view().contains((#[trigger] final(buildozer).deps_added()[k]).1),
        forall|k: int|
            old(buildozer).deps_added().len() <= k < final(buildozer).deps_added().len()
                ==> proposed_by_resolver(
                index_table@,
                error_info.target_kind.deep_view(),
                expand_spec(candidate_import_requests@),
                (#[trigger] final(buildozer).deps_added()[k]).1,
            ),
{
    let ghost inputv = candidate_import_requests@;
    let ghost pre = buildozer.deps_added();
    let ghost declared0 = buildozer.declared();
    let ghost gv = global_previous_seen.deep_view();
    let ghost slabel = sanitize_spec(error_info.label@);
    let expanded = expand_candidate_import_requests(candidate_import_requests);
    proof {
        assert(expanded_view(expanded@) == expand_spec(inputv));
        assert(expanded_view(expanded@).len() == expanded@.len());
        assert(expand_spec(inputv).len() == expanded@.len());
    }

    // The ignore set, in a fixed order: canonicalized declared deps (when
    // the listing succeeds), the canonicalized previously-seen targets,
    // and the canonical failing label itself. A failed listing only costs
    // the declared portion; planning continues best-effort.
    let mut ignore: Vec<String> = Vec::new();
    match buildozer.print_deps(&error_info.label) {
        Ok(deps) => {
            let dn = deps.len();
            let mut d: usize = 0;
            proof {
                assert(ignore.deep_view() =~= sanitized_all(declared0).take(0));
            }
            while d < dn
                invariant
                    0 <= d <= dn,
                    dn == deps@.len(),
                    deps.deep_view() == declared0,
                    ignore.deep_view() == sanitized_all(declared0).take(d as int),
                decreases dn - d,
            {
                let ghost prev = ignore.deep_view();
                ignore.push(sanitize_label(deps[d].clone()));
                proof {
                    let sd = sanitized_all(declared0);
                    assert(declared0[d as int] == deps@[d as int]@);
                    assert(sd[d as int] == sanitize_spec(declared0[d as int]));
                    assert(ignore.deep_view() =~= prev.push(sd[d as int]));
                    assert(sd.take(d + 1) =~= sd.take(d as int).push(sd[d as int]));
                }
                d = d + 1;
            }
            proof {
                assert(sanitized_all(declared0).take(dn as int) =~= sanitized_all(declared0));
            }
        },
        Err(_) => {
            proof {
                assert(ignore.deep_view() =~= Seq::<Seq<char>>::empty());
            }
        },
    }
    let ghost base0 = ignore.deep_view();
    proof {
        assert(base0 == sanitized_all(declared0) || base0 == Seq::<Seq<char>>::empty());
    }
    let gn = global_previous_seen.len();
    let mut g: usize = 0;
    proof {
        assert(ignore.deep_view() =~= base0 + sanitized_all(gv).take(0));
    }
    while g < gn
        invariant
            0 <= g <= gn,
            gn == global_previous_seen@.len(),
            global_previous_seen.deep_view() == gv,
            ignore.deep_view() == base0 + sanitized_all(gv).take(g as int),
        decreases gn - g,
    {
        let ghost prev = ignore.deep_view();
        ignore.push(sanitize_label(global_previous_seen[g].clone()));
        proof {
            let sg = sanitized_all(gv);
            assert(gv[g as int] == global_previous_seen@[g as int]@);
            assert(sg[g as int] == sanitize_spec(gv[g as int]));
            assert(ignore.deep_view() =~= prev.push(sg[g as int]));
            assert(sg.take(g + 1) =~= sg.take(g as int).push(sg[g as int]));
            assert(base0 + sg.take(g + 1) =~= (base0 + sg.take(g as int)).push(sg[g as int]));
        }
        g = g + 1;
    }
    proof {
        assert(sanitized_all(gv).take(gn as int) =~= sanitized_all(gv));
    }
    ignore.push(sanitize_label(error_info.label.clone()));
    let ghost ignore0 = ignore.deep_view();
    proof {
        assert(ignore0 =~= base0 + sanitized_all(gv) + seq![slabel]);
        assert(ignore0[base0.len() + gv.len() as int] == slabel);
        assert(ignore0.contains(slabel));
        assert forall|j: int|
            0 <= j < gv.len() implies ignore0.contains(sanitize_spec(#[trigger] gv[j])) by {
            assert(ignore0[base0.len() + j] == sanitized_all(gv)[j]);
        }
    }

    let mut local_seen: Vec<String> = Vec::new();
    proof {
        assert(buildozer.deps_added().take(pre.len() as int) =~= pre);
        assert(local_seen.deep_view() =~= Seq::<Seq<char>>::empty());
    }

    let rn = expanded.len();
    let mut ri: usize = 0;
    while ri < rn
        invariant
            0 <= ri <= rn,
            rn == expanded@.len(),
            ignore.deep_view() == ignore0,
            expanded_view(expanded@) == expand_spec(inputv),
            planner_state_ok(
                pre,
                buildozer.deps_added(),
                local_seen.deep_view(),
                ignore0,
                error_info.label@,
            ),
            forall|k: int|
                0 <= k < local_seen.deep_view().len() ==> proposed_by_resolver(
                    index_table@,
                    error_info.target_kind.deep_view(),
                    expand_spec(inputv),
                    #[trigger] local_seen.deep_view()[k],
                ),
            local_seen.deep_view().len() <= ri,
            buildozer.declared() == declared0,
            ignore0.contains(sanitize_spec(error_info.label@)),
        decreases rn - ri,
    {
        let ghost base_seen = local_seen.deep_view().len();
        let attempts = &expanded[ri].1;
        proof {
            assert(expanded_view(expanded@)[ri as int].1 == expanded@[ri as int].1.deep_view());
            assert(attempts.deep_view() == expand_spec(inputv)[ri as int].1);
        }
        let an = attempts.len();
        let mut ai: usize = 0;
        let mut request_done = false;
        while ai < an && !request_done
            invariant
                0 <= ai <= an,
                an == attempts@.len(),
                ignore.deep_view() == ignore0,
                0 <= ri < expand_spec(inputv).len(),
                attempts.deep_view() == expand_spec(inputv)[ri as int].1,
                planner_state_ok(
                    pre,
                    buildozer.deps_added(),
                    local_seen.deep_view(),
                    ignore0,
                    error_info.label@,
                ),
                forall|k: int|
                    0 <= k < local_seen.deep_view().len() ==> proposed_by_resolver(
                        index_table@,
                        error_info.target_kind.deep_view(),
                        expand_spec(inputv),
                        #[trigger] local_seen.deep_view()[k],
                    ),
                !request_done ==> local_seen.deep_view().len() == base_seen,
                request_done ==> local_seen.deep_view().len() <= base_seen + 1,
                buildozer.declared() == declared0,
                ignore0.contains(sanitize_spec(error_info.label@)),
            decreases an - ai + (if request_done {
                0int
            } else {
                1int
            }),
        {
            let class_name = &attempts[ai];
            proof {
                assert(attempts.deep_view()[ai as int] == attempts@[ai as int]@);
                assert(class_name@ == expand_spec(inputv)[ri as int].1[ai as int]);
            }
            let candidates = get_candidates_for_class_name(
                error_info,
                class_name.as_str(),
                index_table,
            );
            let cn = candidates.len();
            let mut ci: usize = 0;
            while ci < cn && !request_done
                invariant
                    0 <= ci <= cn,
                    cn == candidates@.len(),
                    ignore.deep_view() == ignore0,
                    0 <= ri < expand_spec(inputv).len(),
                    0 <= ai < expand_spec(inputv)[ri as int].1.len(),
                    class_name@ == expand_spec(inputv)[ri as int].1[ai as int],
                    planner_state_ok(
                        pre,
                        buildozer.deps_added(),
                        local_seen.deep_view(),
                        ignore0,
                        error_info.label@,
                    ),
                    forall|k: int|
                        0 <= k < local_seen.deep_view().len() ==> proposed_by_resolver(
                            index_table@,
                            error_info.target_kind.deep_view(),
                            expand_spec(inputv),
                            #[trigger] local_seen.deep_view()[k],
                        ),
                    !request_done ==> local_seen.deep_view().len() == base_seen,
                    request_done ==> local_seen.deep_view().len() <= base_seen + 1,
                    buildozer.declared() == declared0,
                    candidates.deep_view() == crate::resolver::candidates_spec(
                        index_table@,
                        error_info.target_kind.deep_view(),
                        class_name@,
                    ),
                    ignore0.contains(sanitize_spec(error_info.label@)),
                decreases cn - ci + (if request_done {
                    0int
                } else {
                    1int
                }),
            {
                let target_name = &candidates[ci].1;
                if !vec_contains_str(&ignore, target_name.as_str())
                    && is_potentially_valid_target(target_name.as_str()) {
                    if vec_contains_str(&local_seen, target_name.as_str()) {
                        // Already added while handling this failure: stop
                        // widening this request.
                        request_done = true;
                    } else {
                        let dep = target_name.clone();
                        let ghost before = buildozer.deps_added();
                        proof {
                            assert(candidates.deep_view().len() == candidates@.len());
                            assert(candidates.deep_view()[ci as int].1 == target_name@);
                            lemma_candidates_canonical(
                                index_table@,
                                error_info.target_kind.deep_view(),
                                class_name@,
                                ci as int,
                            );
                            assert(target_name@ == sanitize_spec(target_name@));
                        }
                        match buildozer.add_dependency(&error_info.label, &dep) {
                            Ok(_) => {
                                let ghost seen_prev = local_seen.deep_view();
                                local_seen.push(dep);
                                proof {
                                    let post = buildozer.deps_added();
                                    assert(local_seen.deep_view() =~= seen_prev.push(
                                        target_name@,
                                    ));
                                    assert(post == before.push(
                                        (error_info.label@, target_name@),
                                    ));
                                    assert(post.take(pre.len() as int) =~= before.take(
                                        pre.len() as int,
                                    ));
                                    assert(forall|k: int|
                                        pre.len() <= k < before.len() ==> #[trigger] post[k]
                                            == before[k]);
                                    assert(post[post.len() - 1].1 == target_name@);
                                    assert(!ignore0.contains(target_name@));
                                    assert(forall|j: int|
                                        0 <= j < seen_prev.len()
                                            ==> #[trigger] local_seen.deep_view()[j]
                                            == seen_prev[j]);
                                    assert(local_seen.deep_view()[seen_prev.len() as int]
                                        == target_name@);
                                    // The accepted label is the resolver's
                                    // own proposal, at plan position
                                    // (ri, ai, ci).
                                    let plan = expand_spec(inputv);
                                    let kindv = error_info.target_kind.deep_view();
                                    assert(class_name@ == plan[ri as int].1[ai as int]);
                                    assert(candidates.deep_view()[ci as int]
                                        == candidates_spec(
                                        index_table@,
                                        kindv,
                                        plan[ri as int].1[ai as int],
                                    )[ci as int]);
                                    assert(candidates_spec(
                                        index_table@,
                                        kindv,
                                        plan[ri as int].1[ai as int],
                                    )[ci as int].1 == target_name@);
                                    assert(proposed_by_resolver(
                                        index_table@,
                                        kindv,
                                        plan,
                                        target_name@,
                                    ));
                                    assert forall|k: int|
                                        0 <= k < local_seen.deep_view().len()
                                        implies proposed_by_resolver(
                                        index_table@,
                                        kindv,
                                        plan,
                                        #[trigger] local_seen.deep_view()[k],
                                    ) by {
                                        if k < seen_prev.len() {
                                            assert(local_seen.deep_view()[k] == seen_prev[k]);
                                        } else {
                                            assert(local_seen.deep_view()[k] == target_name@);
                                        }
                                    }
                                }
                                request_done = true;
                            },
                            Err(_) => {
                                // A refused edit is a per-candidate skip:
                                // the candidate is not recorded as seen.
                            },
                        }
                    }
                }
                ci = ci + 1;
            }
            ai = ai + 1;
        }
        ri = ri + 1;
    }

    // The grown ignore set for this label: the prior set plus everything
    // added now, in the order it was added.
    let actions_completed: u32 = if local_seen.len() >= 4294967295usize {
        4294967295u32
    } else {
        local_seen.len() as u32
    };
    let ghost seen = local_seen.deep_view();
    let ln = local_seen.len();
    let mut li: usize = 0;
    proof {
        assert(ignore.deep_view() =~= ignore0 + seen.take(0));
    }
    while li < ln
        invariant
            0 <= li <= ln,
            ln == local_seen@.len(),
            local_seen.deep_view() == seen,
            ignore.deep_view() == ignore0 + seen.take(li as int),
        decreases ln - li,
    {
        let ghost prev = ignore.deep_view();
        ignore.push(local_seen[li].clone());
        proof {
            assert(seen[li as int] == local_seen@[li as int]@);
            assert(ignore.deep_view() =~= prev.push(seen[li as int]));
            assert(seen.take(li + 1) =~= seen.take(li as int).push(seen[li as int]));
            assert(ignore0 + seen.take(li + 1) =~= (ignore0 + seen.take(li as int)).push(
                seen[li as int],
            ));
        }
        li = li + 1;
    }
    proof {
        let post = buildozer.deps_added();
        assert(seen.take(ln as int) =~= seen);
        assert(ignore.deep_view() == ignore0 + seen);
        // Each addition, read off the log.
        assert forall|k: int|
            pre.len() <= k < post.len() implies ((#[trigger] post[k]).0 == error_info.label@
            && post[k].1 == seen[k - pre.len()] && post[k].1 == sanitize_spec(post[k].1)
            && !ignore0.contains(post[k].1)) by {
            let kk = k - pre.len();
            assert(post[pre.len() + kk].0 == error_info.label@);
            assert(post[pre.len() + kk].1 == seen[kk]);
            assert(seen[kk] == sanitize_spec(seen[kk]));
            assert(!ignore0.contains(seen[kk]));
        }
        assert forall|k: int|
            pre.len() <= k < post.len() implies (#[trigger] post[k]).1 != sanitize_spec(
            error_info.label@,
        ) by {
            if post[k].1 == sanitize_spec(error_info.label@) {
                assert(ignore0.contains(post[k].1));
            }
        }
        assert forall|k: int, g2: int|
            pre.len() <= k < post.len() && 0 <= g2 < gv.len() implies (#[trigger] post[k]).1
            != sanitize_spec(#[trigger] gv[g2]) by {
            if post[k].1 == sanitize_spec(gv[g2]) {
                assert(ignore0.contains(post[k].1));
            }
        }
        assert forall|k1: int, k2: int|
            #![trigger post[k1], post[k2]]
            pre.len() <= k1 < k2 < post.len() implies post[k1].1 != post[k2].1 by {
            assert(post[k1].1 == seen[k1 - pre.len()]);
            assert(post[k2].1 == seen[k2 - pre.len()]);
        }
        // Every addition is one of the resolver's proposals.
        assert forall|k: int|
            pre.len() <= k < post.len() implies proposed_by_resolver(
            index_table@,
            error_info.target_kind.deep_view(),
            expand_spec(inputv),
            (#[trigger] post[k]).1,
        ) by {
            let kk = k - pre.len();
            assert(post[pre.len() + kk].1 == seen[kk]);
        }
        // The additions of this pass are exactly `seen`, in order.
        assert(added_deps(pre, post) =~= seen) by {
            assert(post.skip(pre.len() as int).len() == seen.len());
            assert(forall|k: int|
                0 <= k < seen.len() ==> #[trigger] added_deps(pre, post)[k] == post[pre.len()
                    + k].1);
        }
        // The returned set, exactly.
        assert(ignore.deep_view() =~= base0 + sanitized_all(gv) + seq![slabel] + seen);
        if base0 == sanitized_all(declared0) {
            assert(ignore.deep_view() =~= planner_result_set(
                declared0,
                gv,
                error_info.label@,
                added_deps(pre, post),
            ));
            // No addition is among the canonicalized declared deps.
            assert forall|k: int, j: int|
                pre.len() <= k < post.len() && 0 <= j < declared0.len() implies (
            #[trigger] post[k]).1 != sanitize_spec(#[trigger] declared0[j]) by {
                assert(ignore0[j] == sanitized_all(declared0)[j]);
                assert(ignore0.contains(sanitize_spec(declared0[j])));
                if post[k].1 == sanitize_spec(declared0[j]) {
                    assert(ignore0.contains(post[k].1));
                }
            }
        } else {
            assert(base0 == Seq::<Seq<char>>::empty());
            assert(sanitized_all(Seq::<Seq<char>>::empty()) =~= Seq::<Seq<char>>::empty());
            assert(ignore.deep_view() =~= planner_result_set(
                Seq::<Seq<char>>::empty(),
                gv,
                error_info.label@,
                added_deps(pre, post),
            ));
            // Were the declared-bearing form to coincide, the declared
            // list is empty and the exclusion below is vacuous.
            if ignore.deep_view() == planner_result_set(
                declared0,
                gv,
                error_info.label@,
                added_deps(pre, post),
            ) {
                assert(sanitized_all(declared0).len() == 0);
                assert(declared0.len() == 0);
            }
        }
        // The membership facts the pipeline consumes.
        assert(ignore.deep_view()[base0.len() + gv.len() as int] == slabel);
        assert(ignore.deep_view().contains(slabel));
        assert forall|g2: int|
            0 <= g2 < gv.len() implies ignore.deep_view().contains(
            sanitize_spec(#[trigger] gv[g2]),
        ) by {
            assert(ignore.deep_view()[base0.len() + g2] == sanitized_all(gv)[g2]);
        }
        assert forall|k: int|
            pre.len() <= k < post.len() implies ignore.deep_view().contains(
            (#[trigger] post[k]).1,
        ) by {
            let kk = k - pre.len();
            assert(post[pre.len() + kk].1 == seen[kk]);
            assert(ignore.deep_view()[ignore0.len() + kk] == seen[kk]);
        }
    }
    (ignore, actions_completed)
}

/// The planner's loop invariant over the editor's log and the targets
/// added so far for this failure.
pub open spec fn planner_state_ok(
    pre: Seq<(Seq<char>, Seq<char>)>,
    cur: Seq<(Seq<char>, Seq<char>)>,
    seen: Seq<Seq<char>>,
    ignore0: Seq<Seq<char>>,
    label: Seq<char>,
) -> bool {
    &&& cur.len() == pre.len() + seen.len()
    &&& cur.take(pre.len() as int) == pre
    &&& forall|k: int| 0 <= k < seen.len() ==> (#[trigger] cur[pre.len() + k]).0 == label
    &&& forall|k: int| 0 <= k < seen.len() ==> (#[trigger] cur[pre.len() + k]).1 == seen[k]
    &&& forall|k: int| 0 <= k < seen.len() ==> !ignore0.contains(#[trigger] seen[k])
    &&& forall|k: int| 0 <= k < seen.len() ==> #[trigger] seen[k] == sanitize_spec(seen[k])
    &&& forall|k1: int, k2: int|
        #![trigger seen[k1], seen[k2]]
        0 <= k1 < k2 < seen.len() ==> seen[k1] != seen[k2]
}


} // verus!
