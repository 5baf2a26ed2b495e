use bazelfe::guesses::get_guesses_for_class_name;

#[test]
fn test_guess_for_class_name() {
    assert_eq!(
        get_guesses_for_class_name("com.example.foo.bar.baz"),
        vec![
            String::from("//src/main/scala/com/example/foo/bar/baz"),
            String::from("//src/main/java/com/example/foo/bar/baz"),
        ]
    );
}

#[test]
fn test_guess_for_class_name_too_short() {
    assert_eq!(
        get_guesses_for_class_name("com.example.foo"),
        Vec::<String>::new()
    );
}

#[test]
fn test_guess_for_class_name_strip_class_name() {
    assert_eq!(
        get_guesses_for_class_name("com.example.foo.bar.baz.MyObject.InnerObject"),
        vec![
            String::from("//src/main/scala/com/example/foo/bar/baz"),
            String::from("//src/main/java/com/example/foo/bar/baz"),
        ]
    );
}

#[test]
fn test_guess_for_class_name_too_short_post_strip() {
    assert_eq!(
        get_guesses_for_class_name("com.example.MyObject.MyObject.InnerObject"),
        Vec::<String>::new()
    );
}

#[test]
fn test_guess_for_class_start_with_class_name() {
    assert_eq!(
        get_guesses_for_class_name("MyObject.MyObject.InnerObject"),
        Vec::<String>::new()
    );
}
