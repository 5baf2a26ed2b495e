use bazelfe::build_events::ActionFailedErrorInfo;
use bazelfe::build_events::BuildFile;
use bazelfe::error_extraction::ClassImportRequest;
use bazelfe::error_extraction::java::FileParseCache;
use bazelfe::index_table::IndexTable;
use bazelfe::pipeline::PreviousSeenTracker;
use bazelfe::pipeline::handle_action_failed;
use bazelfe::pipeline::output_error_paths;
use bazelfe::planner::RecordingBuildozer;
use bazelfe::planner::process_missing_dependency_errors;

fn failing_info(label: &str, kind: &str) -> ActionFailedErrorInfo {
    ActionFailedErrorInfo {
        label: String::from(label),
        output_files: vec![],
        target_kind: Some(String::from(kind)),
    }
}

fn request(class_name: &str) -> ClassImportRequest {
    ClassImportRequest {
        class_name: String::from(class_name),
        exact_only: false,
        src_fn: String::from("extract_object_not_found"),
        priority: 1,
    }
}

// Labels here avoid the `//` workspace prefix so that candidate checks do
// not depend on the test machine's disk.
#[test]
fn planner_adds_one_dependency_per_request() {
    let index = IndexTable::from_entries(vec![(
        String::from("foo"),
        vec![(7, String::from("lib/foo:foo"))],
    )]);
    let mut editor = RecordingBuildozer::new(vec![]);
    let info = failing_info("src/main/thing:thing", "scala_library");
    let (ignore, actions) = process_missing_dependency_errors(
        vec![request("foo")],
        vec![],
        &mut editor,
        &info,
        &index,
    );
    assert_eq!(actions, 1);
    assert_eq!(
        editor.added,
        vec![(
            String::from("src/main/thing:thing"),
            String::from("lib/foo:foo")
        )]
    );
    // The returned attempted-set holds exactly the canonical failing
    // label followed by the addition: no declared deps, none previously
    // seen.
    assert_eq!(
        ignore,
        vec![
            String::from("src/main/thing:thing"),
            String::from("lib/foo:foo")
        ]
    );
}

#[test]
fn planner_never_proposes_the_failing_target() {
    // The only candidate is the failing target itself.
    let index = IndexTable::from_entries(vec![(
        String::from("foo"),
        vec![(7, String::from("src/main/thing:thing"))],
    )]);
    let mut editor = RecordingBuildozer::new(vec![]);
    let info = failing_info("src/main/thing", "scala_library");
    let (_, actions) = process_missing_dependency_errors(
        vec![request("foo")],
        vec![],
        &mut editor,
        &info,
        &index,
    );
    assert_eq!(actions, 0);
    assert_eq!(editor.added, Vec::<(String, String)>::new());
}

#[test]
fn planner_skips_declared_and_previously_seen() {
    let index = IndexTable::from_entries(vec![(
        String::from("foo"),
        vec![
            (9, String::from("lib/declared:declared")),
            (7, String::from("lib/seen:seen")),
            (5, String::from("lib/fresh:fresh")),
        ],
    )]);
    let mut editor = RecordingBuildozer::new(vec![String::from("lib/declared:declared")]);
    let info = failing_info("src/main/thing:thing", "scala_library");
    let (ignore, actions) = process_missing_dependency_errors(
        vec![request("foo")],
        vec![String::from("lib/seen:seen")],
        &mut editor,
        &info,
        &index,
    );
    assert_eq!(actions, 1);
    assert_eq!(
        editor.added,
        vec![(
            String::from("src/main/thing:thing"),
            String::from("lib/fresh:fresh")
        )]
    );
    // Exactly: sanitized declared deps, previously seen, the failing
    // label, then the addition.
    assert_eq!(
        ignore,
        vec![
            String::from("lib/declared:declared"),
            String::from("lib/seen:seen"),
            String::from("src/main/thing:thing"),
            String::from("lib/fresh:fresh"),
        ]
    );
}

#[test]
fn refused_edits_fall_through_to_the_next_candidate() {
    let index = IndexTable::from_entries(vec![(
        String::from("foo"),
        vec![(7, String::from("lib/foo:foo"))],
    )]);
    let mut editor = RecordingBuildozer::new(vec![]);
    editor.refuse_adds = true;
    let info = failing_info("src/main/thing:thing", "scala_library");
    let (ignore, actions) = process_missing_dependency_errors(
        vec![request("foo")],
        vec![],
        &mut editor,
        &info,
        &index,
    );
    assert_eq!(actions, 0);
    assert_eq!(editor.added, Vec::<(String, String)>::new());
    // The refused candidate is not recorded as attempted.
    assert!(!ignore.contains(&String::from("lib/foo:foo")));
}

#[test]
fn end_to_end_dry_run() {
    // One failure of a configured scala_library whose diagnostic names a
    // missing object; the index knows one provider; no declared deps.
    let err_log = "src/main/scala/com/example/Example.scala:40: error: not found: object foo
import foo.bar.baz
       ^
one error found";
    let index = IndexTable::from_entries(vec![(
        String::from("foo"),
        vec![(7, String::from("lib/foo:foo"))],
    )]);
    let mut editor = RecordingBuildozer::new(vec![]);
    let mut tracker = PreviousSeenTracker::new();
    let mut cache = FileParseCache::new();
    let info = failing_info("src/main/thing", "scala_library");
    let actions = handle_action_failed(
        &mut tracker,
        &mut editor,
        &info,
        &vec![String::from(err_log)],
        &index,
        &mut cache,
    );
    assert_eq!(actions, 1);
    assert_eq!(
        editor.added,
        vec![(
            String::from("src/main/thing:thing"),
            String::from("lib/foo:foo")
        )]
    );

    // Running the same failure again proposes nothing new.
    let again = handle_action_failed(
        &mut tracker,
        &mut editor,
        &info,
        &vec![String::from(err_log)],
        &index,
        &mut cache,
    );
    assert_eq!(again, 0);
    assert_eq!(editor.added.len(), 1);
}

#[test]
fn error_paths_keep_only_local_file_uris() {
    let info = ActionFailedErrorInfo {
        label: String::from("//a:b"),
        output_files: vec![
            BuildFile::Uri(String::from("file:///tmp/x.log")),
            BuildFile::Uri(String::from("https://elsewhere/x.log")),
            BuildFile::Contents(vec![1, 2, 3]),
        ],
        target_kind: None,
    };
    assert_eq!(output_error_paths(&info), vec![String::from("/tmp/x.log")]);
}

#[test]
fn nothing_extracted_changes_nothing() {
    let index = IndexTable::from_entries(vec![(
        String::from("foo"),
        vec![(7, String::from("lib/foo:foo"))],
    )]);
    let mut editor = RecordingBuildozer::new(vec![]);
    let mut tracker = PreviousSeenTracker::new();
    let mut cache = FileParseCache::new();
    let info = failing_info("src/main/thing", "scala_library");
    let actions = handle_action_failed(
        &mut tracker,
        &mut editor,
        &info,
        &vec![String::from("everything compiled cleanly")],
        &index,
        &mut cache,
    );
    assert_eq!(actions, 0);
    assert_eq!(editor.added, Vec::<(String, String)>::new());
    // The label gained no attempted-set record.
    assert_eq!(tracker.take_entry("src/main/thing:thing"), Vec::<String>::new());
}
