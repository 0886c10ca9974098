use ubiquitous_lang::extract_ubiquitous::{extract_ubiquitous, ExtractUbiquitousParam};
use ubiquitous_lang::generate_html::{generate_html, report_rows, GenerateHtmlParam};
use ubiquitous_lang::ubiquitous::Ubiquitous;

fn row(class_name: &str, ubiquitous: &str, context: &str, description: &str) -> GenerateHtmlParam {
    GenerateHtmlParam {
        class_name: class_name.to_string(),
        ubiquitous: ubiquitous.to_string(),
        context: context.to_string(),
        description: description.to_string(),
    }
}

fn cells(r: &GenerateHtmlParam) -> [String; 4] {
    [
        r.ubiquitous.clone(),
        r.class_name.clone(),
        r.context.clone(),
        r.description.clone(),
    ]
}

const HEADER: &str = "<html>\n  <head>\n    <title>Ubiquitous Language</title>\n  </head>\n  <body>\n    <h1>Ubiquitous Language</h1>\n    <table border='1'>\n      <tr><th>Ubiquitous</th><th>Class Name</th><th>Context</th><th>Description</th></tr>\n";
const FOOTER: &str = "    </table>\n  </body>\n</html>\n";

#[test]
fn test_generate_html() {
    let test_params = vec![
        GenerateHtmlParam {
            class_name: "User".to_string(),
            ubiquitous: "ユビキタス".to_string(),
            context: "ユーザー".to_string(),
            description: "ユーザー情報".to_string(),
        },
        GenerateHtmlParam {
            class_name: "Item".to_string(),
            ubiquitous: "ユビキタス".to_string(),
            context: "アイテム".to_string(),
            description: "アイテム情報".to_string(),
        },
    ];

    let html_content = generate_html(test_params);

    assert!(html_content.contains("<html>"));
    assert!(html_content.contains("<title>Ubiquitous Language</title>"));
    assert!(html_content.contains("<h1>Ubiquitous Language</h1>"));
    assert!(html_content.contains("<table border='1'>"));
    assert!(html_content.contains(
        "<tr><th>Ubiquitous</th><th>Class Name</th><th>Context</th><th>Description</th></tr>"
    ));
    assert!(html_content.contains("<td>ユビキタス</td>"));
    assert!(html_content.contains("<td>User</td>"));
    assert!(html_content.contains("<td>ユーザー</td>"));
    assert!(html_content.contains("<td>ユーザー情報</td>"));
    assert!(html_content.contains("<td>アイテム</td>"));
    assert!(html_content.contains("<td>アイテム情報</td>"));
}

#[test]
fn empty_list_gives_header_row_and_no_data_row() {
    let records = extract_ubiquitous(Vec::new());
    assert!(records.is_empty());
    let html = generate_html(report_rows(records));
    assert_eq!(html, format!("{HEADER}{FOOTER}"));
    assert_eq!(html.matches("<tr>").count(), 1);
    assert_eq!(html.matches("<td>").count(), 0);
}

#[test]
fn one_row_document_is_exact() {
    let html = generate_html(vec![row("Order", "注文", "Sales", "A customer order")]);
    let expected = format!(
        "{HEADER}      <tr>\n        <td>注文</td>\n        <td>Order</td>\n        <td>Sales</td>\n        <td>A customer order</td>\n      </tr>\n{FOOTER}"
    );
    assert_eq!(html, expected);
}

#[test]
fn rows_come_in_input_order() {
    let html = generate_html(vec![
        row("B", "tb", "cb", "db"),
        row("A", "ta", "ca", "da"),
        row("B", "tb", "cb", "db"),
    ]);
    let r = |c: &str, t: &str, x: &str, d: &str| {
        format!(
            "      <tr>\n        <td>{t}</td>\n        <td>{c}</td>\n        <td>{x}</td>\n        <td>{d}</td>\n      </tr>\n"
        )
    };
    let expected = format!(
        "{HEADER}{}{}{}{FOOTER}",
        r("B", "tb", "cb", "db"),
        r("A", "ta", "ca", "da"),
        r("B", "tb", "cb", "db")
    );
    assert_eq!(html, expected);
}

#[test]
fn empty_cells_and_unescaped_text() {
    let html = generate_html(vec![row("", "", "a<b & \"c\"", "</td>")]);
    let expected = format!(
        "{HEADER}      <tr>\n        <td></td>\n        <td></td>\n        <td>a<b & \"c\"</td>\n        <td></td></td>\n      </tr>\n{FOOTER}"
    );
    assert_eq!(html, expected);
}

#[test]
fn rendering_twice_gives_identical_bytes() {
    let make = || {
        vec![
            row("User", "ユビキタス", "ユーザー", "ユーザー情報"),
            row("Item", "", "アイテム", ""),
        ]
    };
    let first = generate_html(make());
    let second = generate_html(make());
    assert_eq!(first.as_bytes(), second.as_bytes());
}

#[test]
fn absent_fields_become_empty_cells() {
    let record = Ubiquitous {
        class_name: "User".to_string(),
        ubiquitous: None,
        context: Some("c".to_string()),
        description: None,
    };
    let r = GenerateHtmlParam::from_ubiquitous(record);
    assert_eq!(cells(&r), ["", "User", "c", ""].map(str::to_string));
    let record = Ubiquitous {
        class_name: "User".to_string(),
        ubiquitous: Some("t".to_string()),
        context: None,
        description: Some("d".to_string()),
    };
    let r = GenerateHtmlParam::from_ubiquitous(record);
    assert_eq!(cells(&r), ["t", "User", "", "d"].map(str::to_string));
}

#[test]
fn report_rows_projects_each_record_in_order() {
    let records = vec![
        Ubiquitous::new().set_class_name("A".to_string()).set_ubiquitous("ta".to_string()),
        Ubiquitous::new().set_class_name("B".to_string()),
        Ubiquitous::new()
            .set_class_name("C".to_string())
            .set_context("cc".to_string())
            .set_description("dc".to_string()),
    ];
    let rows = report_rows(records);
    assert_eq!(rows.len(), 3);
    assert_eq!(cells(&rows[0]), ["ta", "A", "", ""].map(str::to_string));
    assert_eq!(cells(&rows[1]), ["", "B", "", ""].map(str::to_string));
    assert_eq!(cells(&rows[2]), ["", "C", "cc", "dc"].map(str::to_string));
    assert!(report_rows(Vec::new()).is_empty());
}

#[test]
fn round_trip_document() {
    let records = extract_ubiquitous(vec![ExtractUbiquitousParam {
        class_name: "User".to_string(),
        doc_comment:
            "/** \n * @ubiquitous ユビキタス\n * @context ユーザー\n * @description ユーザー情報\n */"
                .to_string(),
    }]);
    assert_eq!(records.len(), 1);
    let html = generate_html(report_rows(records));
    let body = html
        .strip_prefix(HEADER)
        .and_then(|rest| rest.strip_suffix(FOOTER))
        .expect("header and footer");
    assert_eq!(
        body,
        "      <tr>\n        <td>ユビキタス</td>\n        <td>User</td>\n        <td>ユーザー</td>\n        <td>ユーザー情報</td>\n      </tr>\n"
    );
    let header_cells: Vec<&str> = HEADER
        .lines()
        .last()
        .unwrap()
        .split("<th>")
        .skip(1)
        .map(|c| c.split("</th>").next().unwrap())
        .collect();
    assert_eq!(header_cells, ["Ubiquitous", "Class Name", "Context", "Description"]);
}
