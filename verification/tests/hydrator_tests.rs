use bazelfe::build_events::ActionCompletedEvt;
use bazelfe::build_events::ActionFailedErrorInfo;
use bazelfe::build_events::BuildEventAction;
use bazelfe::build_events::BuildFile;
use bazelfe::build_events::ErrorInfo;
use bazelfe::build_events::Evt;
use bazelfe::build_events::Hydrator;
use bazelfe::build_events::HydratorOutput;
use bazelfe::build_events::TargetCompleteInfo;
use bazelfe::build_events::TargetCompletedEvt;
use bazelfe::build_events::TargetConfiguredEvt;

fn action_completed(stdout: Option<BuildFile>, stderr: Option<BuildFile>) -> BuildEventAction {
    BuildEventAction::BuildEvent(Evt::ActionCompleted(ActionCompletedEvt {
        label: String::from("foo_bar_baz"),
        success: false,
        stdout,
        stderr,
    }))
}

#[test]
fn test_no_history() {
    let mut hydrator = Hydrator::new();
    let received_res = hydrator.handle_event(action_completed(None, None));

    assert_eq!(
        received_res,
        HydratorOutput::Emit(ErrorInfo::ActionFailed(ActionFailedErrorInfo {
            target_kind: None,
            label: String::from("foo_bar_baz"),
            output_files: vec![],
        }))
    );
}

#[test]
fn test_with_files() {
    let mut hydrator = Hydrator::new();
    let received_res = hydrator.handle_event(action_completed(
        Some(BuildFile::Uri(String::from("path-to-stdout"))),
        Some(BuildFile::Uri(String::from("path-to-stderr"))),
    ));

    assert_eq!(
        received_res,
        HydratorOutput::Emit(ErrorInfo::ActionFailed(ActionFailedErrorInfo {
            target_kind: None,
            label: String::from("foo_bar_baz"),
            output_files: vec![
                BuildFile::Uri(String::from("path-to-stdout")),
                BuildFile::Uri(String::from("path-to-stderr")),
            ],
        }))
    );
}

#[test]
fn test_with_history() {
    let mut hydrator = Hydrator::new();
    let configured = hydrator.handle_event(BuildEventAction::BuildEvent(Evt::TargetConfigured(
        TargetConfiguredEvt {
            label: String::from("foo_bar_baz"),
            rule_kind: String::from("my_madeup_rule"),
        },
    )));
    assert_eq!(configured, HydratorOutput::Nothing);

    let received_res = hydrator.handle_event(action_completed(
        Some(BuildFile::Uri(String::from("path-to-stdout"))),
        Some(BuildFile::Uri(String::from("path-to-stderr"))),
    ));

    assert_eq!(
        received_res,
        HydratorOutput::Emit(ErrorInfo::ActionFailed(ActionFailedErrorInfo {
            target_kind: Some(String::from("my_madeup_rule")),
            label: String::from("foo_bar_baz"),
            output_files: vec![
                BuildFile::Uri(String::from("path-to-stdout")),
                BuildFile::Uri(String::from("path-to-stderr")),
            ],
        }))
    );
}

#[test]
fn state_resets_on_new_build() {
    let mut hydrator = Hydrator::new();
    let configured = hydrator.handle_event(BuildEventAction::BuildEvent(Evt::TargetConfigured(
        TargetConfiguredEvt {
            label: String::from("foo_bar_baz"),
            rule_kind: String::from("my_madeup_rule"),
        },
    )));
    assert_eq!(configured, HydratorOutput::Nothing);

    // First output is the sentinel marking the completed build.
    let completed = hydrator.handle_event(BuildEventAction::BuildCompleted);
    assert_eq!(completed, HydratorOutput::Sentinel);

    let received_res = hydrator.handle_event(action_completed(
        Some(BuildFile::Uri(String::from("path-to-stdout"))),
        Some(BuildFile::Uri(String::from("path-to-stderr"))),
    ));

    assert_eq!(
        received_res,
        HydratorOutput::Emit(ErrorInfo::ActionFailed(ActionFailedErrorInfo {
            target_kind: None,
            label: String::from("foo_bar_baz"),
            output_files: vec![
                BuildFile::Uri(String::from("path-to-stdout")),
                BuildFile::Uri(String::from("path-to-stderr")),
            ],
        }))
    );
}

#[test]
fn target_complete_needs_a_known_kind() {
    let mut hydrator = Hydrator::new();
    let unknown = hydrator.handle_event(BuildEventAction::BuildEvent(Evt::TargetComplete(
        TargetCompletedEvt {
            label: String::from("//lib:thing"),
            output_files: vec![],
        },
    )));
    assert_eq!(unknown, HydratorOutput::Nothing);

    hydrator.handle_event(BuildEventAction::BuildEvent(Evt::TargetConfigured(
        TargetConfiguredEvt {
            label: String::from("//lib:thing"),
            rule_kind: String::from("scala_library"),
        },
    )));
    let known = hydrator.handle_event(BuildEventAction::BuildEvent(Evt::TargetComplete(
        TargetCompletedEvt {
            label: String::from("//lib:thing"),
            output_files: vec![BuildFile::Uri(String::from("file:///tmp/out.jar"))],
        },
    )));
    assert_eq!(
        known,
        HydratorOutput::Emit(ErrorInfo::TargetComplete(TargetCompleteInfo {
            label: String::from("//lib:thing"),
            target_kind: String::from("scala_library"),
            output_files: vec![BuildFile::Uri(String::from("file:///tmp/out.jar"))],
        }))
    );
}
