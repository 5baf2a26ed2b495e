use bazelfe::indexer::build_reverse_index;
use bazelfe::indexer::build_rule_queries;
use bazelfe::indexer::class_name_from_entry;
use bazelfe::indexer::extract_class_names;
use bazelfe::indexer::parse_current_repo_name;
use bazelfe::indexer::parse_label_kind_line;
use bazelfe::indexer::union_batches;
use bazelfe::runner::ExecuteResult;
use bazelfe::runner::should_retry;
use bazelfe::runner::update_command;

fn strings(v: &[&str]) -> Vec<String> {
    v.iter().map(|s| String::from(*s)).collect()
}

#[test]
fn update_command_injects_event_flags() {
    let cmd = strings(&["bazel", "--host_jvm_args=-Xmx4g", "build", "//src:all"]);
    let updated = update_command(&cmd, 41234).unwrap();
    assert_eq!(
        updated,
        strings(&[
            "--host_jvm_args=-Xmx4g",
            "build",
            "--build_event_publish_all_actions",
            "--color",
            "yes",
            "--bes_backend",
            "grpc://127.0.0.1:41234",
            "//src:all",
        ])
    );
}

#[test]
fn update_command_recognizes_test_in_any_case() {
    let cmd = strings(&["bazel", "TEST", "//src:all_tests"]);
    let updated = update_command(&cmd, 40001).unwrap();
    assert_eq!(updated[0], String::from("TEST"));
    assert_eq!(updated[5], String::from("grpc://127.0.0.1:40001"));
}

#[test]
fn update_command_rejects_other_subcommands() {
    assert_eq!(update_command(&strings(&["bazel", "query", "deps(...)"]), 40000), None);
    assert_eq!(update_command(&strings(&["bazel", "--flag"]), 40000), None);
}

#[test]
fn retry_stops_on_success_or_quiescence() {
    let failed_with_fixes = ExecuteResult { exit_code: 1, errors_corrected: 2 };
    let failed_no_fixes = ExecuteResult { exit_code: 1, errors_corrected: 0 };
    let succeeded = ExecuteResult { exit_code: 0, errors_corrected: 3 };
    assert!(should_retry(&failed_with_fixes, 3, 15));
    assert!(!should_retry(&failed_with_fixes, 15, 15));
    assert!(!should_retry(&failed_no_fixes, 3, 15));
    assert!(!should_retry(&succeeded, 3, 15));
}

#[test]
fn rule_queries_cover_every_root_and_kind() {
    let queries = build_rule_queries(
        &strings(&["scala_library", "java_library"]),
        &strings(&["//...", "@dep//..."]),
    );
    assert_eq!(
        queries,
        strings(&[
            "kind(scala_library, //...)",
            "kind(java_library, //...)",
            "kind(scala_library, @dep//...)",
            "kind(java_library, @dep//...)",
        ])
    );
}

#[test]
fn batches_are_bounded_and_union_joined() {
    let queries = strings(&["a", "b", "c"]);
    assert_eq!(
        union_batches(&queries, 2),
        strings(&["a union b", "c"])
    );
    assert_eq!(union_batches(&queries, 5), strings(&["a union b union c"]));
}

#[test]
fn label_kind_lines_need_three_fields() {
    assert_eq!(
        parse_label_kind_line("scala_library rule //src/main:thing"),
        Some((String::from("scala_library"), String::from("//src/main:thing")))
    );
    assert_eq!(parse_label_kind_line("only two"), None);
    assert_eq!(parse_label_kind_line(""), None);
}

#[test]
fn class_names_come_from_class_entries() {
    assert_eq!(
        class_name_from_entry("com/example/Foo$Bar.class"),
        Some(String::from("com.example.Foo.Bar"))
    );
    assert_eq!(
        class_name_from_entry("com/example/Outer$.class"),
        Some(String::from("com.example.Outer"))
    );
    assert_eq!(class_name_from_entry("META-INF/MANIFEST.MF"), None);
    assert_eq!(
        extract_class_names(&strings(&[
            "com/example/A.class",
            "readme.txt",
            "com/example/B.class",
        ])),
        strings(&["com.example.A", "com.example.B"])
    );
}

#[test]
fn workspace_name_is_read_from_declaration() {
    let content = "# a comment\nworkspace(name = \"my_repo\")\n";
    assert_eq!(parse_current_repo_name(content), Some(String::from("my_repo")));
    assert_eq!(parse_current_repo_name("nothing here"), None);
}

#[test]
fn reverse_index_ranks_targets_by_popularity() {
    let results = vec![
        (
            String::from("//lib/a:a"),
            strings(&["com.example.Shared", "com.example.OnlyA"]),
        ),
        (String::from("//lib/b:b"), strings(&["com.example.Shared"])),
    ];
    let popularity = vec![
        (String::from("//lib/a:a"), 3u16),
        (String::from("//lib/b:b"), 9u16),
    ];
    let table = build_reverse_index(&results, &popularity);
    assert_eq!(
        table.get("com.example.Shared"),
        Some(&vec![
            (9, String::from("//lib/b:b")),
            (3, String::from("//lib/a:a"))
        ])
    );
    assert_eq!(
        table.get("com.example.OnlyA"),
        Some(&vec![(3, String::from("//lib/a:a"))])
    );

    // The built table survives the persisted format unchanged.
    let reparsed = bazelfe::index_table::parse_file(table.serialize().as_str()).unwrap();
    assert_eq!(reparsed.serialize(), table.serialize());
}
