use bazelfe::build_events::ActionFailedErrorInfo;
use bazelfe::index_table::IndexTable;
use bazelfe::resolver::get_candidates_for_class_name;
use bazelfe::resolver::is_potentially_valid_target;

fn failing(kind: &str) -> ActionFailedErrorInfo {
    ActionFailedErrorInfo {
        label: String::from("//src/main/foo/asd/we:wer"),
        output_files: vec![],
        target_kind: Some(String::from(kind)),
    }
}

#[test]
fn get_candidates_from_map() {
    let index_table = IndexTable::from_entries(vec![(
        String::from("com.example.foo.bar.Baz"),
        vec![(13, String::from("//src/main/foop/blah:oop"))],
    )]);

    let error_info = failing("scala_library");

    assert_eq!(
        get_candidates_for_class_name(&error_info, "com.example.bar.Baz", &index_table),
        vec![]
    );

    assert_eq!(
        get_candidates_for_class_name(&error_info, "com.example.foo.bar.Baz", &index_table),
        vec![
            (13, String::from("//src/main/foop/blah:oop")),
            (0, String::from("//src/main/scala/com/example/foo/bar:bar")),
            (0, String::from("//src/main/java/com/example/foo/bar:bar")),
        ]
    );

    assert_eq!(
        get_candidates_for_class_name(&error_info, "com.example.a.b.c.Baz", &index_table),
        vec![
            (0, String::from("//src/main/scala/com/example/a/b/c:c")),
            (0, String::from("//src/main/java/com/example/a/b/c:c")),
        ]
    );
}

#[test]
fn forbidden_targets_are_filtered_for_kind() {
    let scalatest = String::from("@third_party_jvm//3rdparty/jvm/org/scalatest:scalatest");
    let index_table = IndexTable::from_entries(vec![(
        String::from("org.scalatest.FunSuite"),
        vec![(40, scalatest.clone()), (2, String::from("other:other"))],
    )]);

    // For a scala_test target the scalatest toolchain entry is forbidden.
    let candidates =
        get_candidates_for_class_name(&failing("scala_test"), "org.scalatest.FunSuite", &index_table);
    assert_eq!(candidates, vec![(2, String::from("other:other"))]);

    // For an unrelated rule kind nothing is filtered.
    let candidates =
        get_candidates_for_class_name(&failing("java_library"), "org.scalatest.FunSuite", &index_table);
    assert_eq!(
        candidates,
        vec![(40, scalatest), (2, String::from("other:other"))]
    );
}

#[test]
fn candidates_are_ranked_by_frequency() {
    let index_table = IndexTable::from_entries(vec![(
        String::from("com.example.Thing"),
        vec![
            (1, String::from("low:low")),
            (9, String::from("high:high")),
            (5, String::from("mid:mid")),
        ],
    )]);
    let candidates =
        get_candidates_for_class_name(&failing("scala_library"), "com.example.Thing", &index_table);
    assert_eq!(
        candidates,
        vec![
            (9, String::from("high:high")),
            (5, String::from("mid:mid")),
            (1, String::from("low:low")),
        ]
    );
}

#[test]
fn target_without_workspace_prefix_is_potentially_valid() {
    assert!(is_potentially_valid_target("@third_party_jvm//3rdparty/jvm/org:thing"));
    assert!(is_potentially_valid_target("plain_label:thing"));
}

#[test]
fn workspace_target_needs_build_file_on_disk() {
    assert!(!is_potentially_valid_target(
        "//surely/not/a/package/that/exists/here:target"
    ));
}
