use bazelfe::error_extraction::extract_errors;
use bazelfe::error_extraction::java;
use bazelfe::error_extraction::java::FileParseCache;
use bazelfe::error_extraction::scala;
use bazelfe::source_dependencies::Import;
use bazelfe::source_dependencies::ParsedFile;
use bazelfe::source_dependencies::SelectorType;

#[test]
fn error_is_not_a_member_of_package_test_not_a_member_of_package_error() {
    let sample_output =
        "src/main/scala/com/example/Example.scala:2: error: object foo is not a member of package com.example
import com.example.foo.bar.Baz
                   ^
src/main/scala/com/example/Example.scala:2: warning: Unused import
import com.example.foo.bar.Baz
                           ^
one warning found
one error found";

    assert_eq!(
        scala::error_is_not_a_member_of_package::extract_not_a_member_of_package(sample_output),
        Some(vec![
            scala::error_is_not_a_member_of_package::build_class_import_request("foo".to_string())
        ])
    );
}

#[test]
fn test_object_not_found_error() {
    let sample_output =
        "src/main/scala/com/example/Example.scala:40: error: not found: object foo
import foo.bar.baz
       ^
src/main/scala/com/example/Example.scala:40: warning: Unused import
import foo.bar.baz
               ^
one warning found
one error found
one warning found
one error found
java.lang.RuntimeException: Build failed
    at io.bazel.rulesscala.scalac.ScalacProcessor.compileScalaSources(ScalacProcessor.java:244)
    at io.bazel.rulesscala.scalac.ScalacProcessor.processRequest(ScalacProcessor.java:69)
    at io.bazel.rulesscala.worker.GenericWorker.runPersistentWorker(GenericWorker.java:45)
    at io.bazel.rulesscala.worker.GenericWorker.run(GenericWorker.java:111)
    at io.bazel.rulesscala.scalac.ScalaCInvoker.main(ScalaCInvoker.java:41)";

    assert_eq!(
        scala::error_object_not_found::extract(sample_output),
        Some(vec![
            scala::error_object_not_found::build_class_import_request("foo".to_string())
        ])
    );
}

#[test]
fn test_symbol_is_missing_from_classpath_error() {
    let sample_output = "
src/main/scala/com/example/D.scala:9: error: Symbol 'type com.example.a.ATrait' is missing from the classpath.
This symbol is required by 'trait com.example.b.BTraitExtendsA'.
Make sure that type ATrait is in your classpath and check for conflicting dependencies with `-Ylog-classpath`.
A full rebuild may help if 'BTraitExtendsA.class' was compiled against an incompatible version of com.example.a.
object DClass extends com.example.c.CTraitExtendsBTraitExtendsATrait
                                    ^
one error found
one error found";

    assert_eq!(
        scala::error_symbol_is_missing_from_classpath::extract_symbol_is_missing_from_classpath(
            sample_output
        ),
        Some(vec![
            scala::error_symbol_is_missing_from_classpath::build_class_import_request(
                "com.example.a.ATrait".to_string()
            )
        ])
    );
}

#[test]
fn test_symbol_type_missing_from_classpath_error() {
    let sample_output = "
src/main/scala/com/example/D.scala:9: error: Symbol 'type com.example.a.ATrait' is missing from the classpath.
This symbol is required by 'trait com.example.b.BTraitExtendsA'.
Make sure that type ATrait is in your classpath and check for conflicting dependencies with `-Ylog-classpath`.
A full rebuild may help if 'BTraitExtendsA.class' was compiled against an incompatible version of com.example.a.
object DClass extends com.example.c.CTraitExtendsBTraitExtendsATrait
                                    ^
one error found
one error found";

    assert_eq!(
        scala::error_symbol_type_missing_from_classpath::extract(sample_output),
        Some(vec![
            scala::error_symbol_type_missing_from_classpath::build_class_import_request(
                "com.example.a.ATrait".to_string()
            )
        ])
    );
}

#[test]
fn test_type_not_found_error() {
    let sample_output = "src/main/scala/com/example/Example.scala:8: error: not found: type asdf
class Foo extends asdf
                    ^
one error found
one error found";

    assert_eq!(
        scala::error_type_not_found::extract(sample_output),
        Some(vec![
            scala::error_type_not_found::build_class_import_request("asdf".to_string())
        ])
    );
}

#[test]
fn test_value_not_found_error() {
    let sample_output = "src/main/scala/com/example/Example.scala:8:: error: not found: value Foop
val myVal = Foop
            ^
one error found
one error found";

    assert_eq!(
        scala::error_value_not_found::extract_value_not_found(sample_output),
        Some(vec![
            scala::error_value_not_found::build_class_import_request("Foop".to_string())
        ])
    );
}

#[test]
fn error_package_does_not_exist_test_not_a_member_of_package_error() {
    let sample_output =
        "src/main/java/com/example/Example.java:3: error: package com.google.common.base does not exist
    import com.google.common.base.Preconditions;
";
    assert_eq!(
        java::error_package_does_not_exist::extract(sample_output),
        Some(vec![java::error_package_does_not_exist::build_class_import_request(
            String::from("src/main/java/com/example/Example.java"),
            "com.google.common.base".to_string()
        )])
    );
}

#[test]
fn error_cannot_find_symbol_test_not_a_member_of_package_error() {
    let mut file_cache = FileParseCache::init_from_par(
        String::from("src/main/java/com/example/foo/Example.java"),
        ParsedFile {
            package_name: None,
            imports: vec![Import {
                line_number: 16,
                prefix_section: String::from("javax.annotation.Nullable"),
                suffix: SelectorType::NoSelector(),
            }],
        },
    );
    let sample_output = "src/main/java/com/example/foo/Example.java:16: error: cannot find symbol
import javax.annotation.Nullable;
                       ^
  symbol:   class Nullable
  location: package javax.annotation";
    assert_eq!(
        java::error_cannot_find_symbol::extract(sample_output, &mut file_cache),
        Some(vec![java::error_package_does_not_exist::build_class_import_request(
            String::from("src/main/java/com/example/foo/Example.java"),
            "javax.annotation.Nullable".to_string()
        )])
    );
}

#[test]
fn java_wildcard_imports_widen_requests() {
    let mut cache = FileParseCache::init_from_par(
        String::from("src/main/java/com/example/Widget.java"),
        ParsedFile {
            package_name: Some(String::from("com.example")),
            imports: vec![Import {
                line_number: 2,
                prefix_section: String::from("com.acme.util"),
                suffix: SelectorType::WildcardSelector(),
            }],
        },
    );
    let sample_output =
        "src/main/java/com/example/Widget.java:9: error: package com.missing.dep does not exist
    import com.missing.dep.Thing;
";
    let out = java::extract_errors(sample_output, &mut cache).unwrap();
    assert_eq!(out.len(), 2);
    assert_eq!(out[0].class_name, String::from("com.acme.util.com.missing.dep"));
    assert_eq!(out[1].class_name, String::from("com.missing.dep"));
    assert_eq!(out[0].src_fn, String::from("java::package_does_not_exist"));
    assert!(!out[0].exact_only);
}

#[test]
fn scala_extract_errors_combines_families() {
    let sample_output = "src/main/scala/com/example/Example.scala:40: error: not found: object foo
src/main/scala/com/example/Example.scala:41: error: not found: type Bar
";
    let out = scala::extract_errors(sample_output).unwrap();
    assert_eq!(out.len(), 2);
    assert_eq!(out[0].class_name, String::from("foo"));
    assert_eq!(out[0].src_fn, String::from("extract_object_not_found"));
    assert_eq!(out[1].class_name, String::from("Bar"));
    assert_eq!(out[1].src_fn, String::from("extract_type_not_found"));
}

#[test]
fn no_diagnostics_yield_no_requests() {
    assert_eq!(scala::extract_errors("everything built fine"), None);
    let mut cache = FileParseCache::new();
    assert_eq!(java::extract_errors("everything built fine", &mut cache), None);
}

#[test]
fn file_cache_hands_back_recorded_files() {
    let mut cache = FileParseCache::new();
    assert!(cache.load_file("src/main/java/A.java").is_none());
    cache.insert_parsed(
        String::from("src/main/java/A.java"),
        ParsedFile {
            package_name: None,
            imports: vec![],
        },
    );
    let found = cache.load_file("src/main/java/A.java").unwrap();
    assert_eq!(found.imports.len(), 0);
}

#[test]
fn dispatch_follows_the_rule_kind() {
    let scala_log = "src/main/scala/com/example/Example.scala:40: error: not found: object foo";
    let mut cache = FileParseCache::new();
    let scala_kind = Some(String::from("scala_library"));
    let reqs = extract_errors(&scala_kind, scala_log, &mut cache).unwrap();
    assert_eq!(reqs[0].class_name, String::from("foo"));

    let unknown_kind = Some(String::from("rust_library"));
    assert_eq!(extract_errors(&unknown_kind, scala_log, &mut cache), None);
    assert_eq!(extract_errors(&None, scala_log, &mut cache), None);
}
