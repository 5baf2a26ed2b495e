use bazelfe::source_dependencies::Error;
use bazelfe::source_dependencies::Import;
use bazelfe::source_dependencies::SelectorType;
use bazelfe::source_dependencies::parse_file;

#[test]
fn sub_sections() {
    let sample_input = "import com.twitter.scalding.{RichDate, DateOps}";
    let expected_results = vec![Import {
        line_number: 0,
        prefix_section: "com.twitter.scalding".to_string(),
        suffix: SelectorType::SelectorList(vec!["RichDate".to_string(), "DateOps".to_string()]),
    }];

    let parsed_result = Import::parse(sample_input).unwrap();
    assert_eq!(parsed_result, expected_results);
}

#[test]
fn test_wildcard() {
    let sample_input = "import com.twitter.scalding._";
    let expected_results = vec![Import {
        line_number: 0,
        prefix_section: "com.twitter.scalding".to_string(),
        suffix: SelectorType::WildcardSelector(),
    }];

    let parsed_result = Import::parse(sample_input).unwrap();
    assert_eq!(parsed_result, expected_results);
}

#[test]
fn plain_import_with_line_numbers() {
    let sample_input = "package com.example\n\nimport com.twitter.scalding.RichDate\nimport a.b.C;\n";
    let parsed_result = Import::parse(sample_input).unwrap();
    assert_eq!(
        parsed_result,
        vec![
            Import {
                line_number: 2,
                prefix_section: "com.twitter.scalding.RichDate".to_string(),
                suffix: SelectorType::NoSelector(),
            },
            Import {
                line_number: 3,
                prefix_section: "a.b.C".to_string(),
                suffix: SelectorType::NoSelector(),
            },
        ]
    );
}

#[test]
fn java_style_wildcard() {
    let sample_input = "import com.acme.util.*;";
    let parsed_result = Import::parse(sample_input).unwrap();
    assert_eq!(
        parsed_result,
        vec![Import {
            line_number: 0,
            prefix_section: "com.acme.util".to_string(),
            suffix: SelectorType::WildcardSelector(),
        }]
    );
}

#[test]
fn unreadable_import_line_is_an_error() {
    let sample_input = "import {nothing.to.see}";
    let parsed_result = Import::parse(sample_input);
    assert!(matches!(
        parsed_result,
        Err(Error::UnreadableImportLine(0))
    ));
}

#[test]
fn parse_file_reads_package_and_imports() {
    let sample_input = "package com.example.widgets\n\nimport com.acme.util._\n";
    let pf = parse_file(sample_input).unwrap();
    assert_eq!(pf.package_name, Some(String::from("com.example.widgets")));
    assert_eq!(pf.imports.len(), 1);
    assert_eq!(pf.imports[0].prefix_section, String::from("com.acme.util"));
    assert_eq!(pf.imports[0].suffix, SelectorType::WildcardSelector());
}
