use markbook::csv::write_csv_line;
use markbook::params::ParamValue;
use markbook::integrations::{
    csv_quote, find_student_match, matches_types_mask, non_empty_trimmed, now_unix_string,
    parse_admin_assessments_csv, parse_admin_learning_skills_csv, parse_admin_scores_csv,
    parse_admin_students_csv, parse_boolish, parse_csv_record, parse_sis_roster_rows,
    pick_unique_non_used, resolve_student_scope, sis_roster_csv, source_assessment_collision_key,
    package_students_csv, plan_sis_import, transfer_text_by_policy, IdIndex, PackageStudent,
    SisAction, SisRosterRow, RosterWarning, SisPreviewCounts, sis_preview_counts, parse_sis_mode,
    sis_deactivated, sis_matched_validity, package_entry_names, pick_package_mark_sets,
    named_mark_set_ids, package_index,
    SourceAssessmentRow, StudentRow,
};
use markbook::keys::{
    assessment_collision_key, class_meta_year_token_from_cl_file, entry_clone_key,
    hide_deleted_pref_key, normalize_key, normalize_opt_key, student_name_key,
};

fn strings(v: &[&str]) -> Vec<String> {
    v.iter().map(|s| s.to_string()).collect()
}

#[test]
fn keys_are_trimmed_and_lower_case() {
    assert_eq!(normalize_key("  Smith "), "smith");
    assert_eq!(normalize_key(&normalize_key("  ÉCOLE Ab ")), normalize_key("  ÉCOLE Ab "));
    assert_eq!(normalize_opt_key(Some("  ")), None);
    assert_eq!(normalize_opt_key(None), None);
    assert_eq!(normalize_opt_key(Some(" AB ")).as_deref(), Some("ab"));
    assert_eq!(student_name_key(" O'Shanter", "TAM "), "o'shanter|tam");
}

#[test]
fn assessment_keys() {
    assert_eq!(
        assessment_collision_key(Some("2024-09-05"), Some(" K/U"), "Quiz 1", Some(2)),
        "2024-09-05|k/u|quiz 1|2"
    );
    assert_eq!(assessment_collision_key(None, None, "T", None), "||t|0");
    assert_eq!(assessment_collision_key(None, None, "T", Some(-3)), "||t|-3");
    let row = SourceAssessmentRow {
        idx: 0,
        date: Some("2024-09-05".to_string()),
        category_name: None,
        title: " Test ".to_string(),
        term: Some(1),
        legacy_type: None,
        weight: None,
        out_of: None,
    };
    assert_eq!(source_assessment_collision_key(&row), "test|2024-09-05||1");
}

#[test]
fn preference_keys() {
    assert_eq!(hide_deleted_pref_key("c1", "m2"), "marks.hideDeleted.c1.m2");
    assert_eq!(entry_clone_key("c1"), "entries.clone.c1");
}

#[test]
fn year_token_of_class_file() {
    assert_eq!(class_meta_year_token_from_cl_file(Some("y25")).as_deref(), Some("Y25"));
    assert_eq!(class_meta_year_token_from_cl_file(Some(" Y ")), None);
    assert_eq!(class_meta_year_token_from_cl_file(Some("TXT")), None);
    assert_eq!(class_meta_year_token_from_cl_file(None), None);
}

#[test]
fn csv_records_and_quoting() {
    assert_eq!(parse_csv_record("a, b ,\"c,d\",\"e\"\"f\""), strings(&["a", " b ", "c,d", "e\"f"]));
    assert_eq!(parse_csv_record(""), strings(&[""]));
    assert_eq!(csv_quote("plain"), "plain");
    assert_eq!(csv_quote("a,b"), "\"a,b\"");
    assert_eq!(csv_quote("say \"hi\""), "\"say \"\"hi\"\"\"");
    assert_eq!(csv_quote("two\nlines"), "\"two\nlines\"");
    let fields = ["x", "a,b", "q\"q", " sp "];
    let line = fields.iter().map(|f| csv_quote(f)).collect::<Vec<_>>().join(",");
    assert_eq!(parse_csv_record(&line), strings(&fields));
}

#[test]
fn yes_no_fields() {
    assert_eq!(parse_boolish(" YES "), Some(true));
    assert_eq!(parse_boolish("y"), Some(true));
    assert_eq!(parse_boolish("1"), Some(true));
    assert_eq!(parse_boolish("False"), Some(false));
    assert_eq!(parse_boolish("n"), Some(false));
    assert_eq!(parse_boolish(""), None);
    assert_eq!(parse_boolish("maybe"), None);
    assert_eq!(non_empty_trimmed("  x "), Some("x".to_string()));
    assert_eq!(non_empty_trimmed("   "), None);
}

#[test]
fn type_masks() {
    assert!(matches_types_mask(None, Some(70)));
    assert!(matches_types_mask(Some(0b101), Some(2)));
    assert!(!matches_types_mask(Some(0b101), Some(1)));
    assert!(matches_types_mask(Some(1), None));
    assert!(!matches_types_mask(Some(-1), Some(-1)));
    assert!(!matches_types_mask(Some(-1), Some(63)));
    assert!(matches_types_mask(Some(-1), Some(62)));
}

#[test]
fn comment_transfer_policies() {
    assert_eq!(transfer_text_by_policy(" new ", "old", "replace", " ").as_deref(), Some("new"));
    assert_eq!(transfer_text_by_policy("new", " old ", "append", " / ").as_deref(), Some("old / new"));
    assert_eq!(transfer_text_by_policy("new", "  ", "append", " / ").as_deref(), Some("new"));
    assert_eq!(transfer_text_by_policy("  ", "old", "append", " "), None);
    assert_eq!(transfer_text_by_policy("new", "old", "fill_blank", " "), None);
    assert_eq!(transfer_text_by_policy("new", " ", "fill_blank", " ").as_deref(), Some("new"));
    assert_eq!(transfer_text_by_policy("longer", "short", "source_if_longer", " ").as_deref(), Some("longer"));
    assert_eq!(transfer_text_by_policy("ab", "abc", "source_if_longer", " "), None);
    assert_eq!(transfer_text_by_policy("x", "y", "unknown", " "), None);
}

#[test]
fn unique_free_ids() {
    let used = strings(&["s1"]);
    assert_eq!(pick_unique_non_used(None, &used), (None, false));
    let one = strings(&["s1", "s2", "s2"]);
    assert_eq!(pick_unique_non_used(Some(&one), &used), (Some("s2".to_string()), false));
    let two = strings(&["s2", "s3"]);
    assert_eq!(pick_unique_non_used(Some(&two), &used), (None, true));
    let none = strings(&["s1"]);
    assert_eq!(pick_unique_non_used(Some(&none), &used), (None, false));
}

#[test]
fn id_index_groups_ids() {
    let mut idx = IdIndex::new();
    idx.push("smith|ann", "s1".to_string());
    idx.push("doe|jo", "s2".to_string());
    idx.push("smith|ann", "s3".to_string());
    assert_eq!(idx.get("smith|ann"), Some(&strings(&["s1", "s3"])));
    assert_eq!(idx.get("doe|jo"), Some(&strings(&["s2"])));
    assert_eq!(idx.get("nobody"), None);
}

fn roster_row(no: Option<&str>, last: &str, first: &str) -> SisRosterRow {
    SisRosterRow {
        line_no: 2,
        student_no: no.map(|s| s.to_string()),
        last_name: last.to_string(),
        first_name: first.to_string(),
        birth_date: None,
        active: None,
    }
}

#[test]
fn matching_roster_rows() {
    let mut by_no = IdIndex::new();
    by_no.push("123", "s1".to_string());
    let mut by_name = IdIndex::new();
    by_name.push(&student_name_key("Smith", "Ann"), "s2".to_string());
    by_name.push(&student_name_key("Lee", "Bo"), "s3".to_string());
    by_name.push(&student_name_key("Lee", "Bo"), "s4".to_string());
    let by_sort = strings(&["s9", "s8"]);
    let used: Vec<String> = Vec::new();
    let row = roster_row(Some(" 123 "), "Smith", "Ann");
    assert_eq!(
        find_student_match(&row, "student_no_then_name", 0, &by_no, &by_name, &by_sort, &used),
        (Some("s1".to_string()), false)
    );
    assert_eq!(
        find_student_match(&row, "name", 0, &by_no, &by_name, &by_sort, &used),
        (Some("s2".to_string()), false)
    );
    assert_eq!(
        find_student_match(&row, "sort_order", 1, &by_no, &by_name, &by_sort, &used),
        (Some("s8".to_string()), false)
    );
    assert_eq!(
        find_student_match(&row, "sort_order", 5, &by_no, &by_name, &by_sort, &used),
        (None, false)
    );
    let lee = roster_row(Some("999"), "LEE", " bo");
    assert_eq!(
        find_student_match(&lee, "student_no_then_name", 0, &by_no, &by_name, &by_sort, &used),
        (None, true)
    );
    let used = strings(&["s4"]);
    assert_eq!(
        find_student_match(&lee, "student_no_then_name", 0, &by_no, &by_name, &by_sort, &used),
        (Some("s3".to_string()), false)
    );
}

#[test]
fn roster_file_rows_and_warnings() {
    let text = "Last,First,Student_No,Active\n\nSmith,Ann,123,yes\n,Bo,1,no\nDoe,Jo,,0\n";
    let (rows, warnings, total) = parse_sis_roster_rows(text);
    assert_eq!(total, 3);
    assert_eq!(rows.len(), 2);
    assert_eq!(warnings.len(), 1);
    assert_eq!(warnings[0].line, 4);
    assert_eq!(rows[0].line_no, 3);
    assert_eq!(rows[0].last_name, "Smith");
    assert_eq!(rows[0].first_name, "Ann");
    assert_eq!(rows[0].student_no.as_deref(), Some("123"));
    assert_eq!(rows[0].active, Some(true));
    assert_eq!(rows[0].birth_date, None);
    assert_eq!(rows[1].student_no, None);
    assert_eq!(rows[1].active, Some(false));
    let (rows, warnings, total) = parse_sis_roster_rows("");
    assert!(rows.is_empty() && warnings.is_empty() && total == 0);
}

#[test]
fn roster_file_without_known_columns_uses_positions() {
    let (rows, _, _) = parse_sis_roster_rows("a,b,c,d,e\n7,Smith,Ann,1,2001-02-03\n");
    assert_eq!(rows[0].student_no.as_deref(), Some("7"));
    assert_eq!(rows[0].last_name, "Smith");
    assert_eq!(rows[0].birth_date.as_deref(), Some("2001-02-03"));
    assert_eq!(rows[0].active, Some(true));
}

fn student(id: &str, last: &str, first: &str, active: bool, sort: i64) -> StudentRow {
    StudentRow {
        id: id.to_string(),
        student_no: None,
        last_name: last.to_string(),
        first_name: first.to_string(),
        birth_date: Some("2010-01-02".to_string()),
        active,
        sort_order: sort,
        mark_set_mask: "TBA".to_string(),
    }
}

#[test]
fn roster_export_writes_the_file() {
    let students = vec![student("s1", "O'Shanter", "Tam, Jr", true, 0), student("s2", "Lyons", "Melody", false, 1)];
    let (csv, n) = sis_roster_csv(&students, "active");
    assert_eq!(n, 1);
    assert_eq!(
        csv,
        "student_id,student_no,last_name,first_name,birth_date,active,sort_order,mark_set_mask\n\
s1,,O'Shanter,\"Tam, Jr\",2010-01-02,1,0,TBA\n"
    );
    let (csv_all, n_all) = sis_roster_csv(&students, "all");
    assert_eq!(n_all, 2);
    assert!(csv_all.ends_with("s2,,Lyons,Melody,2010-01-02,0,1,TBA\n"));
}

#[test]
fn roster_export_reads_back() {
    let mut s = student("s1", " Quote \"Q\" ", "Comma, C", true, -4);
    s.student_no = Some("77".to_string());
    let students = vec![s, student("s2", "Lyons", "Melody", false, 1)];
    let (csv, n) = sis_roster_csv(&students, "all");
    let (rows, warnings, total) = parse_sis_roster_rows(&csv);
    assert_eq!(total, n);
    assert!(warnings.is_empty());
    assert_eq!(rows.len(), 2);
    assert_eq!(rows[0].line_no, 2);
    assert_eq!(rows[0].last_name, "Quote \"Q\"");
    assert_eq!(rows[0].first_name, "Comma, C");
    assert_eq!(rows[0].student_no.as_deref(), Some("77"));
    assert_eq!(rows[0].active, Some(true));
    assert_eq!(rows[1].active, Some(false));
    assert_eq!(rows[1].birth_date.as_deref(), Some("2010-01-02"));
}

#[test]
fn scope_of_students() {
    assert!(resolve_student_scope("all", false, false));
    assert!(!resolve_student_scope("active", false, true));
    assert!(resolve_student_scope("active", true, false));
    assert!(resolve_student_scope("valid", false, true));
    assert!(!resolve_student_scope("valid", true, false));
}

#[test]
fn admin_package_files() {
    let students = parse_admin_students_csv(
        "header\n s1 , 12 ,Smith,Ann, ,no,x, 101 \nshort,line\n\ns2,,Doe,Jo,,,x,\n",
    );
    assert_eq!(students.len(), 2);
    assert_eq!(students[0].source_id, "s1");
    assert_eq!(students[0].student_no.as_deref(), Some("12"));
    assert_eq!(students[0].birth_date, None);
    assert!(!students[0].active);
    assert_eq!(students[0].mark_set_mask, "101");
    assert!(students[1].active);
    assert_eq!(students[1].mark_set_mask, "TBA");

    let assessments = parse_admin_assessments_csv(
        "h\n3,2024-01-02,K/U,Quiz,1,2,1.5,20\nx,a,b,c,d,e,f,g\n4,,,T,,,abc,1e2\n",
    );
    assert_eq!(assessments.len(), 2);
    assert_eq!(assessments[0].idx, 3);
    assert_eq!(assessments[0].category_name.as_deref(), Some("K/U"));
    assert_eq!(assessments[0].term, Some(1));
    assert_eq!(assessments[0].legacy_type, Some(2));
    assert_eq!(assessments[0].weight.as_deref(), Some("1.5"));
    assert_eq!(assessments[1].date, None);
    assert_eq!(assessments[1].weight, None);
    assert_eq!(assessments[1].out_of.as_deref(), Some("1e2"));

    let scores = parse_admin_scores_csv("h\n3,s1, SCORED ,12.5, good \n3,s2,zero,,\nbad,s3,x,1,\n");
    assert_eq!(scores.len(), 2);
    assert_eq!(scores[0].status, "scored");
    assert_eq!(scores[0].raw_value.as_deref(), Some("12.5"));
    assert_eq!(scores[0].remark.as_deref(), Some("good"));
    assert_eq!(scores[1].raw_value, None);
    assert_eq!(scores[1].remark, None);

    let skills = parse_admin_learning_skills_csv("h\ns1,1,RS,E\ns1,x,RS,G\ns2, 2 , WH , S \n");
    assert_eq!(skills.len(), 2);
    assert_eq!(skills[1].term, 2);
    assert_eq!(skills[1].skill_code, "WH");
    assert_eq!(skills[1].value, "S");
}

#[test]
fn clock_reading_is_a_number() {
    let now = now_unix_string();
    assert!(!now.is_empty());
    assert!(now.chars().all(|c| c.is_ascii_digit()));
    assert!(now.parse::<u64>().unwrap() > 1_600_000_000);
}

fn pkg(id: &str, no: Option<&str>, last: &str, active: i64, sort: i64, mask: &str) -> PackageStudent {
    PackageStudent {
        id: id.to_string(),
        student_no: no.map(|x| x.to_string()),
        last_name: last.to_string(),
        first_name: "Ann".to_string(),
        birth_date: None,
        active,
        sort_order: sort,
        mark_set_mask: mask.to_string(),
    }
}

#[test]
fn package_student_file_is_written() {
    let out = package_students_csv(&vec![
        pkg("s1", Some("12"), "Smith, Jr", 1, 0, "111"),
        pkg("s2", None, "Doe", 0, -3, ""),
    ]);
    assert_eq!(
        out,
        "student_id,student_no,last_name,first_name,birth_date,active,sort_order,mark_set_mask\n\
         s1,12,\"Smith, Jr\",Ann,,1,0,111\n\
         s2,,Doe,Ann,,0,-3,\n"
    );
}

#[test]
fn package_student_file_reads_back() {
    let out = package_students_csv(&vec![
        pkg(" s1 ", Some("12"), "Smith, Jr", 1, 0, "111"),
        pkg("s2", None, "Doe", 0, 7, " "),
        pkg("s3", Some(" "), "Lee", 5, 1, "01"),
    ]);
    let back = parse_admin_students_csv(&out);
    assert_eq!(back.len(), 3);
    assert_eq!(back[0].source_id, "s1");
    assert_eq!(back[0].student_no.as_deref(), Some("12"));
    assert_eq!(back[0].last_name, "Smith, Jr");
    assert!(back[0].active);
    assert_eq!(back[0].mark_set_mask, "111");
    assert_eq!(back[1].student_no, None);
    assert!(!back[1].active);
    assert_eq!(back[1].mark_set_mask, "TBA");
    assert_eq!(back[2].student_no, None);
    assert!(back[2].active);
    assert_eq!(back[2].mark_set_mask, "01");
}

#[test]
fn roster_import_plan() {
    let mut by_no = IdIndex::new();
    by_no.push("100", "s1".to_string());
    let mut by_name = IdIndex::new();
    by_name.push(&student_name_key("Smith", "Ann"), "s1".to_string());
    by_name.push(&student_name_key("Lee", "Bo"), "s2".to_string());
    by_name.push(&student_name_key("Kim", "Cy"), "s3".to_string());
    by_name.push(&student_name_key("Kim", "Cy"), "s4".to_string());
    let by_sort = strings(&["s1", "s2", "s3", "s4"]);
    let rows = vec![
        roster_row(Some("100"), "Smyth", "Ann"),
        roster_row(None, "smith", "ann"),
        roster_row(None, "Kim", "Cy"),
        roster_row(None, "New", "One"),
        roster_row(None, "Lee", "Bo"),
    ];
    let (acts, rest) = plan_sis_import(&rows, "student_no_then_name", &by_no, &by_name, &by_sort);
    assert_eq!(
        acts,
        vec![
            SisAction::Update("s1".to_string()),
            SisAction::Create,
            SisAction::Ambiguous,
            SisAction::Create,
            SisAction::Update("s2".to_string()),
        ]
    );
    assert_eq!(rest, strings(&["s3", "s4"]));
    let (acts, rest) = plan_sis_import(&rows, "sort_order", &by_no, &by_name, &by_sort);
    assert_eq!(acts[0], SisAction::Update("s1".to_string()));
    assert_eq!(acts[4], SisAction::Create);
    assert!(rest.is_empty());
}

#[test]
fn roster_import_counts_and_modes() {
    let acts = vec![
        SisAction::Update("s1".to_string()),
        SisAction::Create,
        SisAction::Ambiguous,
        SisAction::Create,
    ];
    let warnings = vec![RosterWarning { line: 3 }];
    assert_eq!(
        sis_preview_counts(&acts, &warnings),
        SisPreviewCounts { matched: 1, new: 2, ambiguous: 1, invalid: 2 }
    );
    assert_eq!(parse_sis_mode(None), Ok(false));
    assert_eq!(parse_sis_mode(Some(&ParamValue::Text("Replace_Snapshot".to_string()))), Ok(true));
    assert_eq!(
        parse_sis_mode(Some(&ParamValue::Text("merge".to_string()))),
        Err("mode must be one of: upsert_preserve, replace_snapshot".to_string())
    );
    assert_eq!(sis_deactivated(true, strings(&["s3"])), strings(&["s3"]));
    assert!(sis_deactivated(false, strings(&["s3"])).is_empty());
    assert_eq!(sis_matched_validity(true, false, "01".to_string(), Some(true)), (false, "01".to_string()));
    assert_eq!(sis_matched_validity(false, false, "01".to_string(), None), (true, "TBA".to_string()));
}

#[test]
fn package_layout() {
    let names = package_entry_names(&strings(&["MAT1", "SCI1"]), true, true);
    assert_eq!(
        names,
        strings(&[
            "students.csv",
            "marksets/MAT1/assessments.csv",
            "marksets/MAT1/scores.csv",
            "comments/MAT1/sets.json",
            "marksets/SCI1/assessments.csv",
            "marksets/SCI1/scores.csv",
            "comments/SCI1/sets.json",
            "learning-skills/grid.csv",
        ])
    );
    assert_eq!(package_entry_names(&strings(&["A"]), false, false).len(), 3);
    let ids = strings(&["m1", "m2", "m3"]);
    let deleted = vec![false, true, false];
    assert_eq!(pick_package_mark_sets(&ids, &deleted, &Vec::new()), vec![0, 2]);
    assert_eq!(pick_package_mark_sets(&ids, &deleted, &strings(&["m2", "m9"])), vec![1]);
    let list = ParamValue::List(vec![Some("m2".to_string()), None]);
    assert_eq!(named_mark_set_ids(Some(&list)), strings(&["m2"]));
    assert!(named_mark_set_ids(Some(&ParamValue::Text("m2".to_string()))).is_empty());
    let m = package_index(1700000000, "c1", "8D", vec![("MAT1".to_string(), "Math".to_string())]);
    assert_eq!(m.format, "mb-admin-transfer-v1");
    assert_eq!(m.version, 1);
    assert_eq!(m.exported_at, 1700000000);
    assert_eq!((m.class_id.as_str(), m.class_name.as_str()), ("c1", "8D"));
    assert_eq!(m.mark_sets, vec![("MAT1".to_string(), "Math".to_string())]);
    assert!(write_csv_line(&Vec::new()).is_empty());
    assert_eq!(write_csv_line(&vec!["a".chars().collect(), "b,c".chars().collect()]).iter().collect::<String>(), "a,\"b,c\"");
}
