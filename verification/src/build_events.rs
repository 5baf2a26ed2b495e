//! The decoded build-event stream and its hydrator: per-target context is
//! buffered so that failure events can be annotated with the rule kind of
//! the target they belong to.

use vstd::prelude::*;

verus! {

/// A file reference carried by a build event: a URI or inline bytes.
#[derive(Debug, PartialEq, Eq)]
pub enum BuildFile {
    Uri(String),
    Contents(Vec<u8>),
}

/// A failed action, annotated with the failing target's rule kind when
/// the hydrator has seen it configured.
#[derive(Debug, PartialEq)]
pub struct ActionFailedErrorInfo {
    pub label: String,
    pub output_files: Vec<BuildFile>,
    pub target_kind: Option<String>,
}

/// An abort reported by the builder outside any action.
#[derive(Debug, PartialEq)]
pub struct BazelAbortErrorInfo {
    pub label: Option<String>,
    /// The protocol's numeric abort-reason code, carried through unread.
    pub reason: Option<i32>,
    pub description: String,
}

/// Diagnostic text emitted outside an action.
#[derive(Debug, PartialEq)]
pub struct ProgressEvt {
    pub stdout: String,
    pub stderr: String,
}

/// A completed target with its outputs; consumed by the indexer.
#[derive(Debug, PartialEq)]
pub struct TargetCompleteInfo {
    pub label: String,
    pub target_kind: String,
    pub output_files: Vec<BuildFile>,
}

/// A hydrated event, classified for the downstream pipeline.
#[derive(Debug, PartialEq)]
pub enum ErrorInfo {
    BazelAbort(BazelAbortErrorInfo),
    ActionFailed(ActionFailedErrorInfo),
    Progress(ProgressEvt),
    TargetComplete(TargetCompleteInfo),
}

#[derive(Debug, PartialEq)]
pub struct TargetConfiguredEvt {
    pub label: String,
    pub rule_kind: String,
}

#[derive(Debug, PartialEq)]
pub struct ActionCompletedEvt {
    pub label: String,
    pub success: bool,
    pub stdout: Option<BuildFile>,
    pub stderr: Option<BuildFile>,
}

#[derive(Debug, PartialEq)]
pub struct TestFailureEvt {
    pub label: String,
    pub failed_files: Vec<BuildFile>,
}

#[derive(Debug, PartialEq)]
pub struct AbortedEvt {
    pub label: Option<String>,
    pub reason: Option<i32>,
    pub description: String,
}

#[derive(Debug, PartialEq)]
pub struct TargetCompletedEvt {
    pub label: String,
    pub output_files: Vec<BuildFile>,
}

/// A decoded builder event.
#[derive(Debug, PartialEq)]
pub enum Evt {
    TargetConfigured(TargetConfiguredEvt),
    ActionCompleted(ActionCompletedEvt),
    TestFailure(TestFailureEvt),
    Progress(ProgressEvt),
    TargetComplete(TargetCompletedEvt),
    Aborted(AbortedEvt),
    UnknownEvent(String),
}

/// One message of the event feed: a decoded event, a lifecycle marker, or
/// the end-of-build sentinel.
#[derive(Debug, PartialEq)]
pub enum BuildEventAction {
    BuildEvent(Evt),
    LifecycleEvent,
    BuildCompleted,
}

/// What the hydrator hands downstream for one incoming message.
#[derive(Debug, PartialEq)]
pub enum HydratorOutput {
    /// The message carried nothing for the pipeline.
    Nothing,
    /// The end-of-build sentinel.
    Sentinel,
    /// A hydrated event.
    Emit(ErrorInfo),
}

/// The rule kind recorded for `label`, searching the most recent
/// configuration first.
pub open spec fn kind_lookup(st: Seq<(Seq<char>, Seq<char>)>, label: Seq<char>) -> Option<
    Seq<char>,
>
    decreases st.len(),
{
    if st.len() == 0 {
        None
    } else if st.last().0 == label {
        Some(st.last().1)
    } else {
        kind_lookup(st.drop_last(), label)
    }
}

/// The state after recording `label -> kind`.
pub open spec fn kind_insert(
    st: Seq<(Seq<char>, Seq<char>)>,
    label: Seq<char>,
    kind: Seq<char>,
) -> Seq<(Seq<char>, Seq<char>)> {
    st.push((label, kind))
}

/// The sequence `opt` contributes to a concatenated file list.
pub open spec fn opt_file_seq(o: Option<BuildFile>) -> Seq<BuildFile> {
    match o {
        Some(f) => seq![f],
        None => Seq::empty(),
    }
}

/// Buffers per-target rule kinds so failures can be annotated; cleared
/// when a build completes.
pub struct Hydrator {
    rule_kind_lookup: Vec<(String, String)>,
}

impl Hydrator {
    /// The recorded `label -> rule kind` pairs, oldest first.
    pub closed spec fn view(&self) -> Seq<(Seq<char>, Seq<char>)> {
        self.rule_kind_lookup.deep_view()
    }

    pub fn new() -> (r: Hydrator)
        ensures
            r@ == Seq::<(Seq<char>, Seq<char>)>::empty(),
    {
        let r = Hydrator { rule_kind_lookup: Vec::new() };
        proof {
            assert(r@ =~= Seq::<(Seq<char>, Seq<char>)>::empty());
        }
        r
    }

    fn lookup_kind(&self, label: &str) -> (r: Option<String>)
        ensures
            r.deep_view() == kind_lookup(self@, label@),
    {
        let n = self.rule_kind_lookup.len();
        let mut i: usize = n;
        proof {
            assert(self@.take(n as int) =~= self@);
        }
        while i > 0
            invariant
                0 <= i <= n,
                n == self.rule_kind_lookup@.len(),
                self@ == self.rule_kind_lookup.deep_view(),
                kind_lookup(self@, label@) == kind_lookup(self@.take(i as int), label@),
            decreases i,
        {
            i = i - 1;
            proof {
                assert(self@.take(i + 1).last() == self@[i as int]);
                assert(self@[i as int].0 == self.rule_kind_lookup@[i as int].0@);
                assert(self@.take(i + 1).drop_last() =~= self@.take(i as int));
            }
            if crate::text::str_eq(self.rule_kind_lookup[i].0.as_str(), label) {
                let k = self.rule_kind_lookup[i].1.clone();
                return Some(k);
            }
        }
        proof {
            assert(self@.take(0) =~= Seq::<(Seq<char>, Seq<char>)>::empty());
        }
        None
    }

    /// Processes one message of the event feed: updates the per-target
    /// context and classifies what, if anything, flows downstream.
    pub fn handle_event(&mut self, event: BuildEventAction) -> (out: HydratorOutput)
        ensures
            hydration_correct(old(self)@, final(self)@, event, out),
    {
        match event {
            BuildEventAction::BuildCompleted => {
                self.rule_kind_lookup = Vec::new();
                proof {
                    assert(self@ =~= Seq::<(Seq<char>, Seq<char>)>::empty());
                }
                HydratorOutput::Sentinel
            },
            BuildEventAction::LifecycleEvent => HydratorOutput::Nothing,
            BuildEventAction::BuildEvent(evt) => match evt {
                Evt::TargetConfigured(t) => {
                    let ghost prev = self@;
                    self.rule_kind_lookup.push((t.label, t.rule_kind));
                    proof {
                        assert(self@ =~= prev.push(
                            (self.rule_kind_lookup@.last().0@, self.rule_kind_lookup@.last().1@),
                        ));
                    }
                    HydratorOutput::Nothing
                },
                Evt::ActionCompleted(ace) => {
                    if ace.success {
                        HydratorOutput::Nothing
                    } else {
                        let target_kind = self.lookup_kind(ace.label.as_str());
                        let mut output_files: Vec<BuildFile> = Vec::new();
                        let ghost s0 = ace.stdout;
                        let ghost s1 = ace.stderr;
                        match ace.stdout {
                            Some(f) => {
                                output_files.push(f);
                            },
                            None => {},
                        }
                        match ace.stderr {
                            Some(f) => {
                                output_files.push(f);
                            },
                            None => {},
                        }
                        proof {
                            assert(output_files@ =~= opt_file_seq(s0) + opt_file_seq(s1));
                        }
                        HydratorOutput::Emit(
                            ErrorInfo::ActionFailed(
                                ActionFailedErrorInfo { label: ace.label, output_files, target_kind },
                            ),
                        )
                    }
                },
                Evt::TestFailure(tfe) => {
                    let target_kind = self.lookup_kind(tfe.label.as_str());
                    HydratorOutput::Emit(
                        ErrorInfo::ActionFailed(
                            ActionFailedErrorInfo {
                                label: tfe.label,
                                output_files: tfe.failed_files,
                                target_kind,
                            },
                        ),
                    )
                },
                Evt::Progress(p) => HydratorOutput::Emit(ErrorInfo::Progress(p)),
                Evt::Aborted(a) => HydratorOutput::Emit(
                    ErrorInfo::BazelAbort(
                        BazelAbortErrorInfo {
                            label: a.label,
                            reason: a.reason,
                            description: a.description,
                        },
                    ),
                ),
                Evt::TargetComplete(tce) => {
                    match self.lookup_kind(tce.label.as_str()) {
                        Some(kind) => HydratorOutput::Emit(
                            ErrorInfo::TargetComplete(
                                TargetCompleteInfo {
                                    label: tce.label,
                                    target_kind: kind,
                                    output_files: tce.output_files,
                                },
                            ),
                        ),
                        None => HydratorOutput::Nothing,
                    }
                },
                Evt::UnknownEvent(_) => HydratorOutput::Nothing,
            },
        }
    }
}

/// Full statement of one hydration step: how the state moves and what is
/// emitted, for every message shape.
pub open spec fn hydration_correct(
    pre: Seq<(Seq<char>, Seq<char>)>,
    post: Seq<(Seq<char>, Seq<char>)>,
    event: BuildEventAction,
    out: HydratorOutput,
) -> bool {
    match event {
        BuildEventAction::BuildCompleted => post == Seq::<(Seq<char>, Seq<char>)>::empty() && out
            == HydratorOutput::Sentinel,
        BuildEventAction::LifecycleEvent => post == pre && out == HydratorOutput::Nothing,
        BuildEventAction::BuildEvent(evt) => match evt {
            Evt::TargetConfigured(t) => post == kind_insert(pre, t.label@, t.rule_kind@) && out
                == HydratorOutput::Nothing,
            Evt::ActionCompleted(ace) => post == pre && (if ace.success {
                out == HydratorOutput::Nothing
            } else {
                out matches HydratorOutput::Emit(ErrorInfo::ActionFailed(af)) && af.label@
                    == ace.label@ && af.output_files@ == opt_file_seq(ace.stdout) + opt_file_seq(
                    ace.stderr,
                ) && af.target_kind.deep_view() == kind_lookup(pre, ace.label@)
            }),
            Evt::TestFailure(tfe) => post == pre && (out matches HydratorOutput::Emit(
                ErrorInfo::ActionFailed(af),
            ) && af.label@ == tfe.label@ && af.output_files@ == tfe.failed_files@
                && af.target_kind.deep_view() == kind_lookup(pre, tfe.label@)),
            Evt::Progress(p) => post == pre && out == HydratorOutput::Emit(ErrorInfo::Progress(p)),
            Evt::Aborted(a) => post == pre && (out matches HydratorOutput::Emit(
                ErrorInfo::BazelAbort(ab),
            ) && ab.label.deep_view() == a.label.deep_view() && ab.reason == a.reason
                && ab.description@ == a.description@),
            Evt::TargetComplete(tce) => post == pre && (match kind_lookup(pre, tce.label@) {
                Some(kind) => out matches HydratorOutput::Emit(ErrorInfo::TargetComplete(tc))
                    && tc.label@ == tce.label@ && tc.target_kind@ == kind && tc.output_files@
                    == tce.output_files@,
                None => out == HydratorOutput::Nothing,
            }),
            Evt::UnknownEvent(_) => post == pre && out == HydratorOutput::Nothing,
        },
    }
}

/// State reset law: a completed build empties the per-target context, so
/// a failure arriving before any new configuration is hydrated with no
/// target kind, and a fresh configuration for a label restores it.
pub proof fn lemma_hydrator_state_reset(label: Seq<char>, kind: Seq<char>)
    ensures
        kind_lookup(Seq::<(Seq<char>, Seq<char>)>::empty(), label) is None,
        kind_lookup(kind_insert(Seq::<(Seq<char>, Seq<char>)>::empty(), label, kind), label)
            == Some(kind),
{
    let st = kind_insert(Seq::<(Seq<char>, Seq<char>)>::empty(), label, kind);
    assert(st.last() == (label, kind));
}

} // verus!
