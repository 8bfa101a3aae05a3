use markbook::integrations::package_entry_names;
use markbook::marksets::{
    bulk_update_tally, check_bulk_row, BulkUpdateRow, RowRejection, UpdateOutcome,
};
use markbook::package::{
    check_package_index, comment_set_fields_of, package_index_check, package_mark_set_codes,
    read_comment_sets, source_comment_sets, CommentSetFields, JsonItem, SourceCommentSetRow,
};
use markbook::planner::{json_array_string, parse_json_array_string};
use markbook::setup::{SectionValues, SettingValue};

fn s(x: &str) -> String {
    x.to_string()
}

fn set_summary(r: &SourceCommentSetRow) -> (i64, String, i64, i64, i64, Option<String>, Vec<(String, String)>) {
    (
        r.set_number,
        r.title.clone(),
        r.max_chars,
        r.fit_width,
        r.fit_lines,
        r.bank_short.clone(),
        r.remarks.clone(),
    )
}

#[test]
fn package_index_with_current_format_is_accepted() {
    assert_eq!(check_package_index(r#"{"format":"mb-admin-transfer-v1","version":1}"#), Ok(()));
}

#[test]
fn package_index_with_other_format_is_refused_by_name() {
    assert_eq!(
        check_package_index(r#"{"format":"mb-admin-transfer-v2"}"#),
        Err(s("unsupported package format: mb-admin-transfer-v2"))
    );
    assert_eq!(
        check_package_index(r#"{"version":1}"#),
        Err(s("unsupported package format: "))
    );
    assert_eq!(
        check_package_index(r#"{"format":7}"#),
        Err(s("unsupported package format: "))
    );
    assert_eq!(
        check_package_index(r#"["mb-admin-transfer-v1"]"#),
        Err(s("unsupported package format: "))
    );
}

#[test]
fn package_index_that_is_no_json_gives_the_parser_message() {
    let r = check_package_index("{not json");
    let m = r.err().unwrap();
    assert!(!m.is_empty());
    assert!(!m.starts_with("unsupported package format"));
}

#[test]
fn package_index_check_on_each_kind_of_field() {
    assert_eq!(package_index_check(&JsonItem::Text(s("mb-admin-transfer-v1"))), Ok(()));
    assert_eq!(
        package_index_check(&JsonItem::Text(s("x"))),
        Err(s("unsupported package format: x"))
    );
    assert_eq!(package_index_check(&JsonItem::Invalid(s("eof"))), Err(s("eof")));
    assert_eq!(
        package_index_check(&JsonItem::Int(1)),
        Err(s("unsupported package format: "))
    );
    assert_eq!(
        package_index_check(&JsonItem::Absent),
        Err(s("unsupported package format: "))
    );
}

#[test]
fn comment_sets_take_defaults_and_drop_incomplete_rows() {
    let text = r#"{"sets":[
        {"setNumber":1,"title":"Term 1","maxChars":300,
         "remarks":[{"studentId":"s1","remark":"Good work"},{"studentId":"s2"},{"remark":"x"}]},
        {"title":"no number","maxChars":10},
        {"setNumber":"3"},
        {"setNumber":2,"bankShort":"BK","fitWidth":70,"fitLines":3,"title":5}
    ]}"#;
    let rows = read_comment_sets(text);
    let got: Vec<_> = rows.iter().map(set_summary).collect();
    assert_eq!(
        got,
        vec![
            (1, s("Term 1"), 300, 50, 1, None, vec![(s("s1"), s("Good work"))]),
            (2, s(""), 600, 70, 3, Some(s("BK")), vec![]),
        ]
    );
}

#[test]
fn comment_sets_of_text_without_sets_array_are_empty() {
    assert!(read_comment_sets("not json").is_empty());
    assert!(read_comment_sets(r#"{"sets":{"0":{"setNumber":1}}}"#).is_empty());
    assert!(read_comment_sets(r#"{"other":[]}"#).is_empty());
    assert!(read_comment_sets(r#"{"sets":[]}"#).is_empty());
}

#[test]
fn comment_set_fields_read_each_field_by_kind() {
    let f = comment_set_fields_of(
        r#"{"sets":[{"setNumber":4,"title":"A","maxChars":1.5,"remarks":[{"studentId":"a","remark":"b"}]}]}"#,
    );
    assert_eq!(f.len(), 1);
    assert_eq!(f[0].set_number, Some(4));
    assert_eq!(f[0].title, Some(s("A")));
    assert_eq!(f[0].max_chars, None);
    assert_eq!(f[0].fit_width, None);
    assert_eq!(f[0].bank_short, None);
    assert_eq!(f[0].remarks, vec![(Some(s("a")), Some(s("b")))]);
}

#[test]
fn source_comment_sets_from_given_fields() {
    let fields = vec![
        CommentSetFields {
            set_number: None,
            title: Some(s("dropped")),
            max_chars: None,
            fit_width: None,
            fit_lines: None,
            bank_short: None,
            remarks: vec![],
        },
        CommentSetFields {
            set_number: Some(9),
            title: None,
            max_chars: Some(0),
            fit_width: None,
            fit_lines: Some(2),
            bank_short: None,
            remarks: vec![(Some(s("a")), None), (Some(s("b")), Some(s("ok")))],
        },
    ];
    let got: Vec<_> = source_comment_sets(&fields).iter().map(set_summary).collect();
    assert_eq!(got, vec![(9, s(""), 0, 50, 2, None, vec![(s("b"), s("ok"))])]);
}

#[test]
fn package_codes_come_from_assessment_entries_once_each() {
    let names = vec![
        s("students.csv"),
        s("marksets/MAT1/assessments.csv"),
        s("marksets/MAT1/scores.csv"),
        s("comments/MAT1/sets.json"),
        s("marksets/ENG/assessments.csv"),
        s("marksets/MAT1/assessments.csv"),
        s("marksets/assessments.csv"),
        s("learning-skills/grid.csv"),
    ];
    assert_eq!(package_mark_set_codes(&names), vec![s("MAT1"), s("ENG")]);
}

#[test]
fn json_array_strings_read_back() {
    assert_eq!(parse_json_array_string(r#"["a","b c"]"#), vec![s("a"), s("b c")]);
    assert_eq!(parse_json_array_string("[]"), Vec::<String>::new());
    assert_eq!(parse_json_array_string("nope"), Vec::<String>::new());
    assert_eq!(parse_json_array_string("[1,2]"), Vec::<String>::new());
}

#[test]
fn json_array_strings_written() {
    assert_eq!(json_array_string(&[s("a"), s("b\"c")]), s(r#"["a","b\"c"]"#));
    assert_eq!(json_array_string(&[]), s("[]"));
    let list = vec![s("x"), s("y")];
    assert_eq!(parse_json_array_string(&json_array_string(&list)), list);
}

fn section(entries: Vec<(&str, SettingValue)>) -> SectionValues {
    let mut v = SectionValues::new();
    for (k, x) in entries {
        let key: Vec<char> = k.chars().collect();
        v.set(&key, x);
    }
    v
}

fn row(is_object: bool, id: Option<&str>, patch: Option<SectionValues>) -> BulkUpdateRow {
    BulkUpdateRow {
        is_object,
        assessment_id: id.map(s),
        patch,
    }
}

fn rejection(r: &RowRejection) -> (usize, Option<String>, String, String) {
    (r.index, r.assessment_id.clone(), r.code.clone(), r.message.clone())
}

#[test]
fn bulk_rows_are_checked_in_order() {
    assert_eq!(
        check_bulk_row(&row(false, Some("a1"), None)).err(),
        Some((None, s("update row must be object")))
    );
    assert_eq!(
        check_bulk_row(&row(true, None, Some(section(vec![])))).err(),
        Some((None, s("assessmentId is required")))
    );
    assert_eq!(
        check_bulk_row(&row(true, Some("a1"), None)).err(),
        Some((Some(s("a1")), s("patch is required")))
    );
    assert_eq!(
        check_bulk_row(&row(true, Some("a1"), Some(section(vec![])))).err(),
        Some((Some(s("a1")), s("patch must include at least one field")))
    );
    assert_eq!(
        check_bulk_row(&row(true, Some("a1"), Some(section(vec![("title", SettingValue::Text(s("  ")))])))).err(),
        Some((Some(s("a1")), s("patch.title must not be empty")))
    );
    let ok = check_bulk_row(&row(true, Some("a1"), Some(section(vec![("term", SettingValue::Int(2))]))));
    let (id, changes) = ok.ok().unwrap();
    assert_eq!(id, s("a1"));
    assert_eq!(changes.len(), 1);
    assert_eq!(changes[0].0, s("term"));
}

#[test]
fn bulk_update_accounts_for_every_row() {
    let good = || Some(section(vec![("title", SettingValue::Text(s("Quiz")))]));
    let rows = vec![
        row(true, Some("a1"), good()),
        row(true, Some("a2"), good()),
        row(false, None, None),
        row(true, Some("a4"), good()),
        row(true, None, good()),
    ];
    let outcomes = vec![
        UpdateOutcome::Changed(1),
        UpdateOutcome::Changed(0),
        UpdateOutcome::Changed(1),
        UpdateOutcome::Failed(s("disk I/O error")),
        UpdateOutcome::Changed(1),
    ];
    let t = bulk_update_tally(&rows, &outcomes);
    assert_eq!(t.updated, 1);
    let got: Vec<_> = t.rejected.iter().map(rejection).collect();
    assert_eq!(
        got,
        vec![
            (1, Some(s("a2")), s("not_found"), s("assessment not found")),
            (2, None, s("bad_params"), s("update row must be object")),
            (3, Some(s("a4")), s("db_update_failed"), s("disk I/O error")),
            (4, None, s("bad_params"), s("assessmentId is required")),
        ]
    );
    assert_eq!(t.updated + t.rejected.len(), rows.len());
}

#[test]
fn exported_entry_names_give_back_their_codes() {
    let codes = vec![s("MAT1"), s("ENG2"), s("SCI")];
    for (comments, skills) in [(true, true), (false, false), (true, false)] {
        let names = package_entry_names(&codes, comments, skills);
        assert_eq!(package_mark_set_codes(&names), codes);
    }
}
