use ubiquitous_lang::extract_ubiquitous::{extract_ubiquitous, get_ubiquitous, ExtractUbiquitousParam};
use ubiquitous_lang::ubiquitous::Ubiquitous;

fn doc(class_name: &str, doc_comment: &str) -> ExtractUbiquitousParam {
    ExtractUbiquitousParam {
        class_name: class_name.to_string(),
        doc_comment: doc_comment.to_string(),
    }
}

fn record(
    class_name: &str,
    ubiquitous: Option<&str>,
    context: Option<&str>,
    description: Option<&str>,
) -> Ubiquitous {
    Ubiquitous {
        class_name: class_name.to_string(),
        ubiquitous: ubiquitous.map(str::to_string),
        context: context.map(str::to_string),
        description: description.map(str::to_string),
    }
}

#[test]
fn test_extract_ubiquitous_empty() {
    let doc_comments = vec![];

    let result = extract_ubiquitous(doc_comments);
    assert!(result.is_empty());
}

#[test]
fn test_extract_ubiquitous_single() {
    let class_docs = vec![ExtractUbiquitousParam {
        class_name: "class_name".to_string(),
        doc_comment: r#"/**
    * @ubiquitous ubiquitous_lang
    */"#
        .to_string(),
    }];
    let result = extract_ubiquitous(class_docs);
    assert_eq!(result.len(), 1);
    assert_eq!(
        result[0],
        Ubiquitous::new()
            .set_class_name("class_name".to_string())
            .set_ubiquitous("ubiquitous_lang".to_string())
    );
}

#[test]
fn test_extract_ubiquitous_multi_fields() {
    let class_docs = vec![ExtractUbiquitousParam {
        class_name: "class_name".to_string(),
        doc_comment: r#"/**
    * @ubiquitous ubiquitous_lang
    * @context context_example
    * @description description_text
    */"#
        .to_string(),
    }];
    let result = extract_ubiquitous(class_docs);
    assert_eq!(result.len(), 1);

    let expected = Ubiquitous::new()
        .set_class_name("class_name".to_string())
        .set_ubiquitous("ubiquitous_lang".to_string())
        .set_context("context_example".to_string())
        .set_description("description_text".to_string());
    assert_eq!(result[0], expected);
}

#[test]
fn new_record_is_blank() {
    let r = Ubiquitous::new();
    assert_eq!(r, record("", None, None, None));
    assert!(r.is_all_none());
}

#[test]
fn setters_replace_one_field_each() {
    let r = Ubiquitous::new().set_class_name("A".to_string());
    assert_eq!(r, record("A", None, None, None));
    assert!(r.is_all_none());
    let r = r.set_ubiquitous("t".to_string());
    assert_eq!(r, record("A", Some("t"), None, None));
    assert!(!r.is_all_none());
    let r = r.set_context("c".to_string());
    assert_eq!(r, record("A", Some("t"), Some("c"), None));
    let r = r.set_description("d".to_string());
    assert_eq!(r, record("A", Some("t"), Some("c"), Some("d")));
    let r = r.set_ubiquitous("t2".to_string()).set_class_name("B".to_string());
    assert_eq!(r, record("B", Some("t2"), Some("c"), Some("d")));
}

#[test]
fn is_all_none_looks_at_each_field() {
    assert!(!record("A", Some(""), None, None).is_all_none());
    assert!(!record("A", None, Some(""), None).is_all_none());
    assert!(!record("A", None, None, Some("")).is_all_none());
    assert!(record("A", None, None, None).is_all_none());
}

#[test]
fn output_is_no_longer_than_input_and_keeps_order() {
    let docs = vec![
        doc("A", "@ubiquitous a"),
        doc("B", "nothing"),
        doc("C", "@context c"),
        doc("D", ""),
        doc("E", "@description e"),
        doc("A", "@ubiquitous again"),
    ];
    let n = docs.len();
    let result = extract_ubiquitous(docs);
    assert!(result.len() <= n);
    assert_eq!(
        result,
        vec![
            record("A", Some("a"), None, None),
            record("C", None, Some("c"), None),
            record("E", None, None, Some("e")),
            record("A", Some("again"), None, None),
        ]
    );
}

#[test]
fn comment_without_marker_is_dropped() {
    let result = extract_ubiquitous(vec![doc("Plain", "no tags here")]);
    assert!(result.is_empty());
    let result = extract_ubiquitous(vec![
        doc("Plain", "no tags here"),
        doc("User", "@ubiquitous user"),
    ]);
    assert_eq!(result.len(), 1);
    assert!(result.iter().all(|r| r.class_name != "Plain"));
    assert!(get_ubiquitous(doc("Plain", "no tags here")).is_all_none());
}

#[test]
fn empty_and_blank_comments_are_dropped() {
    assert!(extract_ubiquitous(vec![doc("A", "")]).is_empty());
    assert!(extract_ubiquitous(vec![doc("A", " \n\t\r\n  ")]).is_empty());
    assert_eq!(get_ubiquitous(doc("A", "")), record("A", None, None, None));
}

#[test]
fn near_markers_are_no_markers() {
    assert!(get_ubiquitous(doc("A", "@ubiquitou s\n@Context x\n@ description y\nubiquitous")).is_all_none());
}

#[test]
fn term_alone() {
    assert_eq!(
        get_ubiquitous(doc("Thing", "@ubiquitous X")),
        record("Thing", Some("X"), None, None)
    );
    assert_eq!(
        extract_ubiquitous(vec![doc("Thing", "@ubiquitous X")]),
        vec![record("Thing", Some("X"), None, None)]
    );
}

#[test]
fn context_alone_and_description_alone() {
    assert_eq!(
        get_ubiquitous(doc("Thing", "@context billing")),
        record("Thing", None, Some("billing"), None)
    );
    assert_eq!(
        get_ubiquitous(doc("Thing", "@description a thing")),
        record("Thing", None, None, Some("a thing"))
    );
}

#[test]
fn last_occurrence_wins() {
    assert_eq!(
        get_ubiquitous(doc("K", "@ubiquitous A\n@ubiquitous B")),
        record("K", Some("B"), None, None)
    );
    assert_eq!(
        get_ubiquitous(doc(
            "K",
            "@context one\n@ubiquitous A\n@description d1\n@context two\ntext\n@ubiquitous B\n@description d2"
        )),
        record("K", Some("B"), Some("two"), Some("d2"))
    );
    assert_eq!(
        get_ubiquitous(doc("K", "@ubiquitous A\n@ubiquitous")),
        record("K", Some(""), None, None)
    );
}

#[test]
fn marker_at_end_of_line_gives_empty_value() {
    assert_eq!(
        get_ubiquitous(doc("K", "@context")),
        record("K", None, Some(""), None)
    );
    assert_eq!(
        extract_ubiquitous(vec![doc("K", "@context")]),
        vec![record("K", None, Some(""), None)]
    );
    assert_eq!(
        get_ubiquitous(doc("K", "/**\n * @ubiquitous\n * @description   \n */")),
        record("K", Some(""), None, Some(""))
    );
}

#[test]
fn marker_anywhere_in_the_line() {
    assert_eq!(
        get_ubiquitous(doc("K", "see @ubiquitous  Order line  ")),
        record("K", Some("Order line"), None, None)
    );
    assert_eq!(
        get_ubiquitous(doc("K", "x@contextbilling")),
        record("K", None, Some("billing"), None)
    );
}

#[test]
fn first_occurrence_of_the_marker_in_a_line() {
    assert_eq!(
        get_ubiquitous(doc("K", "@ubiquitous a @ubiquitous b")),
        record("K", Some("a @ubiquitous b"), None, None)
    );
}

#[test]
fn one_tag_per_line_by_priority() {
    assert_eq!(
        get_ubiquitous(doc("K", "@context c @ubiquitous u")),
        record("K", Some("u"), None, None)
    );
    assert_eq!(
        get_ubiquitous(doc("K", "@description d @context c")),
        record("K", None, Some("c"), None)
    );
    assert_eq!(
        get_ubiquitous(doc("K", "@description d @context c @ubiquitous u")),
        record("K", Some("u"), None, None)
    );
    assert_eq!(
        get_ubiquitous(doc("K", "@ubiquitous u @context c @description d")),
        record("K", Some("u @context c @description d"), None, None)
    );
}

#[test]
fn values_are_trimmed_of_unicode_whitespace() {
    assert_eq!(
        get_ubiquitous(doc("K", "@ubiquitous\u{3000}\u{a0}注文\u{2003}\t")),
        record("K", Some("注文"), None, None)
    );
    assert_eq!(
        get_ubiquitous(doc("K", "@ubiquitous \u{200b}x")),
        record("K", Some("\u{200b}x"), None, None)
    );
}

#[test]
fn carriage_returns_end_lines_with_line_feeds() {
    assert_eq!(
        get_ubiquitous(doc("K", "/**\r\n * @ubiquitous Order\r\n * @context Sales\r\n */\r\n")),
        record("K", Some("Order"), Some("Sales"), None)
    );
    assert_eq!(
        get_ubiquitous(doc("K", "@ubiquitous a\rb\n@context c")),
        record("K", Some("a\rb"), Some("c"), None)
    );
}

#[test]
fn round_trip_record() {
    let result = extract_ubiquitous(vec![doc(
        "User",
        "/** \n * @ubiquitous ユビキタス\n * @context ユーザー\n * @description ユーザー情報\n */",
    )]);
    assert_eq!(
        result,
        vec![record("User", Some("ユビキタス"), Some("ユーザー"), Some("ユーザー情報"))]
    );
}

#[test]
fn class_name_is_carried_over_as_it_is() {
    assert_eq!(
        get_ubiquitous(doc("  App\\Model\\User \n", "@ubiquitous u")),
        record("  App\\Model\\User \n", Some("u"), None, None)
    );
    assert_eq!(
        get_ubiquitous(doc("", "@ubiquitous u")),
        record("", Some("u"), None, None)
    );
}

fn value_by_std(line: &str, marker: &str) -> Option<String> {
    line.find(marker)
        .map(|pos| line[pos + marker.len()..].trim().to_string())
}

fn record_by_std(class_name: &str, comment: &str) -> Ubiquitous {
    let mut r = record(class_name, None, None, None);
    for line in comment.trim().lines() {
        let line = line.trim();
        if let Some(v) = value_by_std(line, "@ubiquitous") {
            r.ubiquitous = Some(v);
        } else if let Some(v) = value_by_std(line, "@context") {
            r.context = Some(v);
        } else if let Some(v) = value_by_std(line, "@description") {
            r.description = Some(v);
        }
    }
    r
}

#[test]
fn agrees_with_std_text_functions() {
    let pieces = [
        "", " ", "\t", "\n", "\r\n", "\r", "@", "@ubiquitous", "@context", "@description",
        "@ubiquitou", "x", "注文", "\u{3000}", "\u{85}", "\u{2028}", "*", "/**", "*/", "@@",
    ];
    let mut count = 0;
    for a in pieces {
        for b in pieces {
            for c in pieces {
                for d in pieces {
                    let comment = format!("{a}{b}{c}{d}");
                    assert_eq!(
                        get_ubiquitous(doc("K", &comment)),
                        record_by_std("K", &comment),
                        "comment {comment:?}"
                    );
                    count += 1;
                }
            }
        }
    }
    assert_eq!(count, 160000);
}
