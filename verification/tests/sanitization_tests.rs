use bazelfe::error_extraction::ClassImportRequest;
use bazelfe::sanitization::expand_candidate_import_requests;
use bazelfe::sanitization::prepare_class_import_requests;
use bazelfe::sanitization::sanitize_label;
use bazelfe::sanitization::split_clazz_to_lst;

fn req(class_name: &str, exact_only: bool, priority: i32) -> ClassImportRequest {
    ClassImportRequest {
        class_name: String::from(class_name),
        exact_only,
        src_fn: String::from("unused"),
        priority,
    }
}

#[test]
fn test_split_clazz_to_lst() {
    assert_eq!(
        split_clazz_to_lst("a.b.c.d"),
        vec![
            String::from("a.b.c.d"),
            String::from("a.b.c"),
            String::from("a.b"),
            String::from("a"),
        ]
    );

    assert_eq!(split_clazz_to_lst("abcd"), vec![String::from("abcd")]);
}

#[test]
fn test_sanitize_label() {
    assert_eq!(
        sanitize_label(String::from("foo_bar")),
        String::from("foo_bar:foo_bar")
    );

    assert_eq!(
        sanitize_label(String::from("foo/bar/baz:werwe_auto_gen_werewr")),
        String::from("foo/bar/baz:werwe")
    );

    assert_eq!(
        sanitize_label(String::from("foo/bar/baz:foop")),
        String::from("foo/bar/baz:foop")
    );

    assert_eq!(
        sanitize_label(String::from("foo/bar/baz")),
        String::from("foo/bar/baz:baz")
    );
}

#[test]
fn sanitize_label_is_idempotent_on_samples() {
    for s in [
        "foo_bar",
        "foo/bar/baz:werwe_auto_gen_werewr",
        "foo/bar/baz",
        "//src/main/scala/com/example/foo",
        "@third_party_jvm//3rdparty/jvm/org/scalatest",
    ] {
        let once = sanitize_label(String::from(s));
        let twice = sanitize_label(once.clone());
        assert_eq!(once, twice);
    }
}

#[test]
fn test_prepare_class_import_requests() {
    let input = vec![
        req("asdf.sadf.sdfwer.sdf", false, 1),
        req("foo_bar_baz.sadf.sdfwer.sdfee", false, 1),
    ];

    // pass through, no change
    assert_eq!(
        prepare_class_import_requests(input),
        vec![
            req("asdf.sadf.sdfwer.sdf", false, 1),
            req("foo_bar_baz.sadf.sdfwer.sdfee", false, 1),
        ]
    );

    // subset prune
    let input = vec![
        req("foo_bar_baz.sadf.sdfwer.sdf", false, 1),
        req("foo_bar_baz.sadf", false, 1),
    ];

    // only the longer one is kept
    assert_eq!(
        prepare_class_import_requests(input),
        vec![req("foo_bar_baz.sadf.sdfwer.sdf", false, 1)]
    );

    // cannot prune since set to exact only
    let input = vec![
        req("foo_bar_baz.sadf.sdfwer.sdf", true, 1),
        req("foo_bar_baz.sadf", false, 1),
    ];

    // only the longer one is kept
    assert_eq!(
        prepare_class_import_requests(input),
        vec![
            req("foo_bar_baz.sadf.sdfwer.sdf", true, 1),
            req("foo_bar_baz.sadf", false, 1),
        ]
    );
}

#[test]
fn test_expand_candidate_import_requests() {
    let input = vec![
        req("asdf.sadf.sdfwer.sdf", false, 1),
        req("foo_bar_baz.sadf.sdfwer.sdfee", true, 100),
    ];

    // pass through, no change
    assert_eq!(
        expand_candidate_import_requests(input),
        vec![
            (
                req("foo_bar_baz.sadf.sdfwer.sdfee", true, 100),
                vec![String::from("foo_bar_baz.sadf.sdfwer.sdfee")]
            ),
            (
                req("asdf.sadf.sdfwer.sdf", false, 1),
                vec![
                    String::from("asdf.sadf.sdfwer.sdf"),
                    String::from("asdf.sadf.sdfwer"),
                    String::from("asdf.sadf"),
                    String::from("asdf"),
                ]
            ),
        ]
    );
}
