use markbook::ipc::{route_method, HandlerFamily};
use markbook::lessons::{lesson_head, lesson_rest, unit_input};
use markbook::legacy::{ParsedTbkAssignment, ParsedTbkItem};
use markbook::merge::{
    plan_assessment_merge, plan_mark_set_merge, plan_student_merge, AssessmentCollision,
    AssessmentMerge, MarkSetMatch, MergeAction, MergeStudent, OrderSlot, transfer_collisions,
    mark_sets_deleted, matched_validity, parse_legacy_update_options,
};
use markbook::marksets::{
    assessment_patch_changes, cloned_entry_title, entry_insert_index, mark_set_clone_names,
    mark_set_code_free, mark_set_create_names, mark_set_create_options, mark_set_settings_changes,
    parse_entry_clone_options, parse_selected_ids, parse_transfer_options, transfer_title,
};
use markbook::params::ParamValue;
use markbook::reorder::{check_full_order, complete_order, parse_named_ids, IdListError, OrderError};
use markbook::students::{normalize_mark_set_mask, new_student_fields, set_membership, student_patch_changes};
use markbook::setup::{SectionValues, SettingValue};
use markbook::pairing::{
    comment_set_bank, pair_device_codes, pair_loans, pair_remark_cells, pair_seats,
    pair_student_texts,
};

fn st(last: &str, first: &str, no: Option<&str>) -> MergeStudent {
    MergeStudent {
        last_name: last.to_string(),
        first_name: first.to_string(),
        student_no: no.map(|x| x.to_string()),
    }
}

fn strings(v: &[&str]) -> Vec<String> {
    v.iter().map(|s| s.to_string()).collect()
}

#[test]
fn methods_route_to_their_handlers() {
    assert_eq!(route_method("setup.get"), Some(HandlerFamily::Setup));
    assert_eq!(route_method("seating.save"), Some(HandlerFamily::Seating));
    assert_eq!(route_method("marksets.list"), Some(HandlerFamily::ImportLegacy));
    assert_eq!(route_method("marksets.clone"), Some(HandlerFamily::MarksetSetup));
    assert_eq!(route_method("notes.update"), Some(HandlerFamily::Students));
    assert_eq!(route_method("calc.markSetSummary"), Some(HandlerFamily::Reports));
    assert_eq!(
        route_method("integrations.adminTransfer.exportPackage"),
        Some(HandlerFamily::Integrations)
    );
    assert_eq!(route_method("courseDescription.generateModel"), Some(HandlerFamily::Planner));
    assert_eq!(route_method("setup.delete"), None);
    assert_eq!(route_method("Setup.get"), None);
}

#[test]
fn legacy_students_merge_into_class() {
    let targets = vec![
        st("Smith", "Ann", Some("100")),
        st("Lee", "Bo", None),
        st("Kim", "Cy", Some("200")),
        st("Kim", "Cy", None),
        st("Old", "Only", None),
    ];
    let incoming = vec![
        st(" smith ", "ann", Some("999")),
        st("Lee", "Bo", Some(" ")),
        st("Kim", "Cy", None),
        st("New", "Kid", None),
        st("X", "Y", Some("200")),
        st("Lee", "Bo", None),
    ];
    let plan = plan_student_merge(&targets, &incoming);
    assert_eq!(plan.actions[0], MergeAction::Update(0));
    assert_eq!(plan.actions[1], MergeAction::Update(1));
    assert_eq!(plan.actions[2], MergeAction::Ambiguous(vec![2, 3]));
    assert_eq!(plan.actions[3], MergeAction::Create);
    assert_eq!(plan.actions[4], MergeAction::Update(2));
    assert_eq!(plan.actions[5], MergeAction::Ambiguous(vec![1]));
    assert_eq!(
        plan.order,
        vec![
            OrderSlot::Existing(0),
            OrderSlot::Existing(1),
            OrderSlot::Incoming(3),
            OrderSlot::Existing(2),
            OrderSlot::Existing(3),
            OrderSlot::Existing(4),
        ]
    );
    assert_eq!((plan.matched, plan.created, plan.ambiguous, plan.local_only), (3, 1, 2, 2));
    assert_eq!(plan.matched + plan.created + plan.ambiguous, incoming.len());
    assert_eq!(plan.matched + plan.local_only, targets.len());
}

#[test]
fn merge_into_empty_class_creates_all() {
    let plan = plan_student_merge(&Vec::new(), &vec![st("A", "B", None), st("C", "D", Some("1"))]);
    assert_eq!(plan.actions, vec![MergeAction::Create, MergeAction::Create]);
    assert_eq!(plan.order, vec![OrderSlot::Incoming(0), OrderSlot::Incoming(1)]);
    assert_eq!(plan.local_only, 0);
}

#[test]
fn assessments_merge_by_key() {
    let tk = strings(&["a", "b", "a"]);
    let ti = vec![0, 4, 2];
    let sk = strings(&["a", "a", "a", "c", "b"]);
    let r = plan_assessment_merge(&tk, &ti, &sk, "merge_existing").unwrap();
    assert_eq!(
        r,
        vec![
            AssessmentMerge::Merge(0),
            AssessmentMerge::Merge(2),
            AssessmentMerge::Append(5),
            AssessmentMerge::Append(6),
            AssessmentMerge::Merge(1),
        ]
    );
    let r = plan_assessment_merge(&tk, &ti, &sk, "append_new").unwrap();
    assert_eq!(r[0], AssessmentMerge::Append(5));
    assert_eq!(r[4], AssessmentMerge::Append(9));
    assert_eq!(
        plan_assessment_merge(&tk, &ti, &strings(&["c", "b"]), "stop_on_collision"),
        Err(AssessmentCollision { source: 1, target: 1 })
    );
    assert_eq!(
        plan_assessment_merge(&tk, &ti, &strings(&["c", "d"]), "stop_on_collision"),
        Ok(vec![AssessmentMerge::Append(5), AssessmentMerge::Append(6)])
    );
    assert_eq!(
        plan_assessment_merge(&Vec::new(), &Vec::new(), &strings(&["x"]), "merge_existing"),
        Ok(vec![AssessmentMerge::Append(0)])
    );
}

#[test]
fn mark_sets_merge_by_code() {
    let tc = strings(&["MAT1", "sci1", "Mat1", "ENG"]);
    let td = vec![false, true, false, false];
    let sc = strings(&["mat1", "SCI1", "HIS"]);
    let (m, gone) = plan_mark_set_merge(&tc, &td, &sc);
    assert_eq!(m[0], MarkSetMatch::Existing { target: 0, duplicate: true, undelete: false });
    assert_eq!(m[1], MarkSetMatch::Existing { target: 1, duplicate: false, undelete: true });
    assert_eq!(m[2], MarkSetMatch::New);
    assert_eq!(gone, vec![3]);
}

#[test]
fn legacy_files_pair_with_students() {
    let notes = strings(&[" likes math ", "", "  ", "quiet", "extra"]);
    assert_eq!(
        pair_student_texts(&notes, 4),
        vec![(0, "likes math".to_string()), (3, "quiet".to_string())]
    );
    assert_eq!(pair_student_texts(&notes, 1), vec![(0, "likes math".to_string())]);

    let rows = vec![strings(&[" good ", ""]), strings(&["", "late", "x"]), strings(&["never"])];
    let cells = pair_remark_cells(&rows, 2, 5, 3);
    let got: Vec<(usize, usize, String)> =
        cells.into_iter().map(|c| (c.entry, c.student, c.remark)).collect();
    assert_eq!(
        got,
        vec![(0, 0, "good".to_string()), (1, 1, "late".to_string()), (1, 2, "x".to_string())]
    );

    assert_eq!(pair_seats(&vec![3, 0, -1, 7], 3), vec![(0, 3)]);
    assert_eq!(pair_seats(&vec![3, 0, -1, 7], 9), vec![(0, 3), (3, 7)]);

    let codes = vec![
        strings(&["hdr", "x"]),
        strings(&["1", " ", " A12 ", "B"]),
        strings(&["2", "", ""]),
    ];
    assert_eq!(pair_device_codes(&codes, 5, 3), strings(&["A12", "", ""]));

    assert_eq!(comment_set_bank(Some(" B1 "), Some("F")), Some("B1".to_string()));
    assert_eq!(comment_set_bank(None, Some(" F ")), Some("F".to_string()));
    assert_eq!(comment_set_bank(Some("  "), Some("F")), None);
    assert_eq!(comment_set_bank(None, None), None);

    let items = vec![ParsedTbkItem {
        title: "Atlas".to_string(),
        publisher: "P".to_string(),
        cost: "12".to_string(),
        assignments: vec![
            ParsedTbkAssignment { item_id: " 7 ".to_string(), note: "".to_string() },
            ParsedTbkAssignment { item_id: " ".to_string(), note: " ".to_string() },
            ParsedTbkAssignment { item_id: "".to_string(), note: " torn ".to_string() },
        ],
    }];
    let loans = pair_loans(&items, 10, 4);
    let got: Vec<(usize, usize, String, String)> =
        loans.into_iter().map(|l| (l.item, l.student, l.item_id, l.note)).collect();
    assert_eq!(
        got,
        vec![(0, 0, "7".to_string(), "".to_string()), (0, 2, "".to_string(), "torn".to_string())]
    );
}

fn text(s: &str) -> ParamValue {
    ParamValue::Text(s.to_string())
}

#[test]
fn new_mark_set_names() {
    assert_eq!(
        mark_set_create_names(Some(&text(" MAT1 ")), Some(&text(" Term 1 "))),
        Ok(("MAT1".to_string(), "Term 1".to_string()))
    );
    assert_eq!(mark_set_create_names(None, Some(&text("d"))), Err("missing code".to_string()));
    assert_eq!(mark_set_create_names(Some(&ParamValue::Int(3)), None), Err("missing code".to_string()));
    assert_eq!(mark_set_create_names(Some(&text("  ")), None), Err("code must not be empty".to_string()));
    assert_eq!(
        mark_set_create_names(Some(&text("ABCDEFGHIJKLMNOP")), Some(&text("d"))),
        Err("code must be 15 chars or fewer".to_string())
    );
    assert_eq!(
        mark_set_create_names(Some(&text("ABCDEFGHIJKLMNO")), Some(&text("d"))),
        Ok(("ABCDEFGHIJKLMNO".to_string(), "d".to_string()))
    );
    assert_eq!(
        mark_set_create_names(Some(&text("ÉÉÉÉÉÉÉÉ")), Some(&text("d"))),
        Err("code must be 15 chars or fewer".to_string())
    );
    assert_eq!(mark_set_create_names(Some(&text("M")), None), Err("missing description".to_string()));
    assert_eq!(
        mark_set_create_names(Some(&text("M")), Some(&text(" "))),
        Err("description must not be empty".to_string())
    );
}

#[test]
fn new_mark_set_options() {
    let o = mark_set_create_options("MAT1", None, None, None, None, None, None, None, None, None).unwrap();
    assert_eq!(o.file_prefix, "MAT1");
    assert_eq!((o.weight_method, o.calc_method, o.make_default), (1, 0, false));
    assert!(o.full_code.is_none() && o.room.is_none());
    let o = mark_set_create_options(
        "MAT1",
        Some(&text(" M1 ")),
        Some(&text(" MPM1D ")),
        Some(&text("  ")),
        Some(&ParamValue::Null),
        Some(&text("2")),
        None,
        Some(&ParamValue::Int(2)),
        Some(&ParamValue::Int(4)),
        Some(&ParamValue::Bool(true)),
    )
    .unwrap();
    assert_eq!(o.file_prefix, "M1");
    assert_eq!(o.full_code.as_deref(), Some("MPM1D"));
    assert_eq!(o.room, None);
    assert_eq!(o.period.as_deref(), Some("2"));
    assert_eq!((o.weight_method, o.calc_method, o.make_default), (2, 4, true));
    let bad = mark_set_create_options("M", None, None, Some(&ParamValue::Int(1)), None, None, None, None, None, None);
    assert_eq!(bad.err(), Some("room must be string or null".to_string()));
    let bad = mark_set_create_options("M", None, None, None, None, None, None, Some(&ParamValue::Int(3)), None, None);
    assert_eq!(bad.err(), Some("weightMethod must be 0, 1, or 2".to_string()));
    let bad = mark_set_create_options("M", None, None, None, None, None, None, None, Some(&ParamValue::Int(-1)), None);
    assert_eq!(bad.err(), Some("calcMethod must be 0..4".to_string()));
}

#[test]
fn copied_mark_set_names() {
    assert_eq!(
        mark_set_clone_names(None, None, "MAT1", "Math"),
        Ok(("MAT1C".to_string(), "Math (Copy)".to_string()))
    );
    assert_eq!(
        mark_set_clone_names(Some(&text(" X2 ")), Some(&text(" ")), "MAT1", "Math"),
        Ok(("X2".to_string(), "Math (Copy)".to_string()))
    );
    assert_eq!(
        mark_set_clone_names(None, Some(&text("Copy two")), "ABCDEFGHIJKLMNO", "Math"),
        Err("code must be 15 chars or fewer".to_string())
    );
}

fn section(entries: Vec<(&str, SettingValue)>) -> SectionValues {
    let mut v = SectionValues::new();
    for (k, x) in entries {
        let key: Vec<char> = k.chars().collect();
        v.set(&key, x);
    }
    v
}

fn change_pairs(v: Vec<(String, SettingValue)>) -> Vec<(String, String)> {
    v.into_iter()
        .map(|(c, x)| {
            let shown = match x {
                SettingValue::Null => "null".to_string(),
                SettingValue::Int(n) => n.to_string(),
                SettingValue::Text(t) => t,
                _ => "?".to_string(),
            };
            (c, shown)
        })
        .collect()
}

#[test]
fn mark_set_settings_patch() {
    let p = section(vec![
        ("calcMethod", SettingValue::Int(3)),
        ("room", text_value(" 204 ")),
        ("day", text_value("  ")),
        ("fullCode", SettingValue::Null),
    ]);
    let got = change_pairs(mark_set_settings_changes(&p).unwrap());
    assert_eq!(
        got,
        vec![
            ("full_code".to_string(), "null".to_string()),
            ("room".to_string(), "204".to_string()),
            ("day".to_string(), "null".to_string()),
            ("calc_method".to_string(), "3".to_string()),
        ]
    );
    assert_eq!(
        mark_set_settings_changes(&SectionValues::new()).err(),
        Some("patch must include at least one field".to_string())
    );
    let bad = section(vec![("period", SettingValue::Int(2))]);
    assert_eq!(mark_set_settings_changes(&bad).err(), Some("patch.period must be string or null".to_string()));
    let bad = section(vec![("weightMethod", text_value("1"))]);
    assert_eq!(mark_set_settings_changes(&bad).err(), Some("patch.weightMethod must be integer".to_string()));
    let bad = section(vec![("weightMethod", SettingValue::Int(5))]);
    assert_eq!(mark_set_settings_changes(&bad).err(), Some("patch.weightMethod must be 0, 1, or 2".to_string()));
    let bad = section(vec![("calcMethod", SettingValue::Int(5)), ("room", SettingValue::Bool(true))]);
    assert_eq!(mark_set_settings_changes(&bad).err(), Some("patch.room must be string or null".to_string()));
}

fn text_value(s: &str) -> SettingValue {
    SettingValue::Text(s.to_string())
}

#[test]
fn full_orders_must_name_everyone_once() {
    let cur = strings(&["s1", "s2", "s3"]);
    assert_eq!(check_full_order(&strings(&["s3", "s1", "s2"]), &cur), Ok(()));
    assert_eq!(
        check_full_order(&strings(&["s3", "s1"]), &cur),
        Err(OrderError::Length { expected: 3, got: 2 })
    );
    assert_eq!(check_full_order(&strings(&["s3", "s3", "s1"]), &cur), Err(OrderError::Duplicate(1)));
    assert_eq!(check_full_order(&strings(&["s3", "s9", "s3"]), &cur), Err(OrderError::Unknown(1)));
    assert_eq!(check_full_order(&Vec::new(), &Vec::new()), Ok(()));
}

#[test]
fn planner_orders_are_completed() {
    let items = vec![Some(" u2 ".to_string()), Some("u3".to_string()), Some("u2".to_string())];
    let named = parse_named_ids(&items).unwrap();
    assert_eq!(named, strings(&["u2", "u3"]));
    assert_eq!(parse_named_ids(&vec![Some("a".to_string()), None]), Err(IdListError::NotText));
    assert_eq!(parse_named_ids(&vec![Some(" ".to_string()), None]), Err(IdListError::Blank));
    let existing = strings(&["u1", "u2", "u3", "u4"]);
    assert_eq!(complete_order(&named, &existing), Ok(strings(&["u2", "u3", "u1", "u4"])));
    assert_eq!(complete_order(&strings(&["u2", "u9"]), &existing), Err("u9".to_string()));
    assert_eq!(complete_order(&Vec::new(), &existing), Ok(existing.clone()));
}

#[test]
fn new_students_and_patches() {
    let s = new_student_fields(Some(&text(" Lee ")), Some(&text("Bo")), Some(&text(" ")), Some(&text(" 2010-01-02 ")), None)
        .unwrap();
    assert_eq!((s.last_name.as_str(), s.first_name.as_str()), ("Lee", "Bo"));
    assert_eq!(s.student_no, None);
    assert_eq!(s.birth_date.as_deref(), Some("2010-01-02"));
    assert!(s.active);
    let s = new_student_fields(Some(&text("A")), Some(&text("B")), Some(&text("7")), None, Some(&ParamValue::Bool(false)))
        .unwrap();
    assert_eq!(s.student_no.as_deref(), Some("7"));
    assert!(!s.active);
    assert_eq!(new_student_fields(None, None, None, None, None).err(), Some("missing lastName".to_string()));
    assert_eq!(new_student_fields(Some(&text("A")), None, None, None, None).err(), Some("missing firstName".to_string()));
    assert_eq!(
        new_student_fields(Some(&text(" ")), Some(&text("B")), None, None, None).err(),
        Some("firstName/lastName must not be empty".to_string())
    );

    let p = section(vec![
        ("active", SettingValue::Bool(false)),
        ("lastName", text_value(" Doe ")),
        ("studentNo", text_value("")),
    ]);
    assert_eq!(
        change_pairs(student_patch_changes(&p).unwrap()),
        vec![
            ("last_name".to_string(), "Doe".to_string()),
            ("student_no".to_string(), "null".to_string()),
            ("active".to_string(), "0".to_string()),
        ]
    );
    let bad = section(vec![("firstName", text_value(" "))]);
    assert_eq!(student_patch_changes(&bad).err(), Some("firstName must not be empty".to_string()));
    let bad = section(vec![("lastName", SettingValue::Int(1))]);
    assert_eq!(student_patch_changes(&bad).err(), Some("patch.lastName must be a string".to_string()));
    let bad = section(vec![("birthDate", SettingValue::Bool(true))]);
    assert_eq!(student_patch_changes(&bad).err(), Some("patch.birthDate must be a string or null".to_string()));
    let bad = section(vec![("active", SettingValue::Int(1))]);
    assert_eq!(student_patch_changes(&bad).err(), Some("patch.active must be a boolean".to_string()));
    assert_eq!(
        student_patch_changes(&SectionValues::new()).err(),
        Some("patch must include at least one field".to_string())
    );
}

#[test]
fn membership_is_set_bit_by_bit() {
    assert_eq!(set_membership(Some("101".to_string()), 3, 1, true), "111");
    assert_eq!(set_membership(None, 3, 0, false), "011");
    assert_eq!(set_membership(Some(" tba ".to_string()), 2, 1, false), "10");
    assert_eq!(set_membership(Some("10".to_string()), 4, 3, false), "1010");
    assert_eq!(set_membership(Some("10".to_string()), 2, 5, false), "10");
    let m = set_membership(Some("0101".to_string()), 4, 2, true);
    assert_eq!(m, "0111");
    assert_eq!(normalize_mark_set_mask(Some(m.clone()), 4), m);
}

#[test]
fn transfer_preview_lists_collisions() {
    let tk = strings(&["a", "b", "a"]);
    let got = transfer_collisions(&tk, &strings(&["a", "a", "c", "b"]));
    assert_eq!(
        got,
        vec![
            AssessmentCollision { source: 0, target: 0 },
            AssessmentCollision { source: 1, target: 0 },
            AssessmentCollision { source: 3, target: 1 },
        ]
    );
    assert!(transfer_collisions(&tk, &strings(&["x"])).is_empty());
    let refused = plan_assessment_merge(&tk, &vec![0, 1, 2], &strings(&["c", "b", "a"]), "stop_on_collision");
    let first = transfer_collisions(&tk, &strings(&["c", "b", "a"]))[0];
    assert_eq!(refused, Err(first));
}

#[test]
fn pasted_entry_options() {
    assert_eq!(parse_entry_clone_options(None, None), Ok((None, true)));
    assert_eq!(parse_entry_clone_options(Some(&ParamValue::Int(2)), Some(&text("same"))), Ok((Some(2), false)));
    assert_eq!(parse_entry_clone_options(Some(&text("2")), Some(&ParamValue::Int(1))), Ok((None, true)));
    assert_eq!(
        parse_entry_clone_options(Some(&ParamValue::Int(-1)), None),
        Err("insertAtIdx must be >= 0".to_string())
    );
    assert_eq!(
        parse_entry_clone_options(None, Some(&text("Same"))),
        Err("titleMode must be 'same' or 'appendClone'".to_string())
    );
    assert_eq!(entry_insert_index(Some(9), 4), 4);
    assert_eq!(entry_insert_index(Some(1), 4), 1);
    assert_eq!(entry_insert_index(None, 4), 4);
    assert_eq!(cloned_entry_title(Some("Quiz 1"), true), "Quiz 1 (Clone)");
    assert_eq!(cloned_entry_title(None, false), "Cloned Entry");
}

#[test]
fn new_unit_input() {
    let list = ParamValue::List(vec![Some(" A1 ".to_string()), Some(" ".to_string())]);
    let u = unit_input(Some(&text(" Unit 1 ")), Some(&text(" 2024-09-03 ")), None, None, Some(&list), None, None, None)
        .unwrap();
    assert_eq!(u.title, "Unit 1");
    assert_eq!(u.start_date.as_deref(), Some("2024-09-03"));
    assert_eq!(u.end_date, None);
    assert_eq!(u.summary, "");
    assert_eq!(u.expectations, strings(&["A1"]));
    assert!(u.resources.is_empty());
    assert!(!u.archived);
    assert_eq!(u.sort_order, None);
    let e = |r: Result<_, String>| r.err();
    assert_eq!(
        e(unit_input(None, None, None, None, None, None, None, None).map(|_| ())),
        Some("input.title is required".to_string())
    );
    assert_eq!(
        e(unit_input(Some(&text(" ")), None, None, None, None, None, None, None).map(|_| ())),
        Some("input.title must not be empty".to_string())
    );
    assert_eq!(
        e(unit_input(Some(&text("U")), None, Some(&ParamValue::Int(1)), None, None, None, None, None).map(|_| ())),
        Some("input.endDate must be string or null".to_string())
    );
    assert_eq!(
        e(unit_input(Some(&text("U")), None, None, None, None, Some(&text("x")), None, None).map(|_| ())),
        Some("input.resources must be array of strings".to_string())
    );
    assert_eq!(
        e(unit_input(Some(&text("U")), None, None, None, None, None, Some(&text("yes")), None).map(|_| ())),
        Some("input.archived must be boolean".to_string())
    );
    assert_eq!(
        e(unit_input(Some(&text("U")), None, None, None, None, None, None, Some(&ParamValue::Int(-2))).map(|_| ())),
        Some("input.sortOrder must be >= 0".to_string())
    );
    assert_eq!(
        e(unit_input(Some(&text("U")), None, None, None, None, None, None, Some(&text("2"))).map(|_| ())),
        Some("input.sortOrder must be integer or null".to_string())
    );
}

#[test]
fn new_lesson_input() {
    assert_eq!(
        lesson_head(Some(&text(" L1 ")), Some(&text(" u1 "))),
        Ok(("L1".to_string(), Some("u1".to_string())))
    );
    assert_eq!(lesson_head(Some(&text("L1")), None), Ok(("L1".to_string(), None)));
    assert_eq!(lesson_head(None, Some(&ParamValue::Int(1))), Err("input.title is required".to_string()));
    assert_eq!(
        lesson_head(Some(&text("L1")), Some(&ParamValue::Int(1))),
        Err("input.unitId must be string or null".to_string())
    );
    let l = lesson_rest(None, Some(&text(" intro ")), None, None, None, None, None, Some(&ParamValue::Int(3)), 75)
        .unwrap();
    assert_eq!(l.lesson_date, None);
    assert_eq!(l.outline, "intro");
    assert_eq!(l.detail, "");
    assert_eq!(l.duration_minutes, 75);
    assert_eq!(l.sort_order, Some(3));
    let l = lesson_rest(None, None, None, None, None, Some(&ParamValue::Int(50)), Some(&ParamValue::Bool(true)), None, 75)
        .unwrap();
    assert_eq!(l.duration_minutes, 50);
    assert!(l.archived);
    assert_eq!(
        lesson_rest(None, None, None, None, None, Some(&ParamValue::Int(0)), None, None, 75).err(),
        Some("input.durationMinutes must be > 0".to_string())
    );
    assert_eq!(
        lesson_rest(None, None, None, Some(&ParamValue::Bool(true)), None, Some(&ParamValue::Int(0)), None, None, 75).err(),
        Some("input.followUp must be string or null".to_string())
    );
    assert_eq!(
        lesson_rest(None, None, None, None, None, Some(&text("5")), None, None, 75).err(),
        Some("input.durationMinutes must be integer or null".to_string())
    );
}

#[test]
fn mark_set_codes_are_unique_in_class() {
    let ids = strings(&["m1", "m2"]);
    let codes = strings(&["MAT1", "Sci1"]);
    assert_eq!(mark_set_code_free(&ids, &codes, "ENG", None), Ok(()));
    assert_eq!(
        mark_set_code_free(&ids, &codes, "sci1", None),
        Err("mark set code already exists in class".to_string())
    );
    assert_eq!(mark_set_code_free(&ids, &codes, "SCI1", Some("m2")), Ok(()));
    assert_eq!(
        mark_set_code_free(&ids, &codes, "mat1", Some("m2")),
        Err("mark set code already exists in class".to_string())
    );
}

#[test]
fn transfer_options_and_titles() {
    assert_eq!(parse_transfer_options(None, None), Ok(("merge_existing".to_string(), false)));
    assert_eq!(
        parse_transfer_options(Some(&text("append_new")), Some(&text("appendTransfer"))),
        Ok(("append_new".to_string(), true))
    );
    assert_eq!(parse_transfer_options(Some(&text("Append_New")), None), Err("invalid collisionPolicy".to_string()));
    assert_eq!(parse_transfer_options(None, Some(&text("append"))), Err("invalid titleMode".to_string()));
    assert_eq!(transfer_title("Quiz", true), "Quiz (Transfer)");
    assert_eq!(transfer_title("Quiz", false), "Quiz");
    assert_eq!(parse_selected_ids(None), Ok(None));
    let list = ParamValue::List(vec![Some("a1".to_string()), None, Some("a2".to_string())]);
    assert_eq!(parse_selected_ids(Some(&list)), Ok(Some(strings(&["a1", "a2"]))));
    assert_eq!(
        parse_selected_ids(Some(&ParamValue::Null)),
        Err("assessmentIds must be an array of strings".to_string())
    );
}

#[test]
fn legacy_update_options_and_effects() {
    assert_eq!(parse_legacy_update_options(None, None, None), Ok((false, "merge_existing".to_string(), true)));
    assert_eq!(
        parse_legacy_update_options(Some(&text("replace_snapshot")), Some(&text("append_new")), Some(&ParamValue::Bool(false))),
        Ok((true, "append_new".to_string(), false))
    );
    assert_eq!(parse_legacy_update_options(Some(&text("Replace")), None, None), Err("invalid mode".to_string()));
    assert_eq!(
        parse_legacy_update_options(None, Some(&text("skip")), None),
        Err("invalid collisionPolicy".to_string())
    );
    assert_eq!(matched_validity(true, false, Some("01".to_string())), None);
    assert_eq!(matched_validity(false, false, Some("01".to_string())), Some((false, "01".to_string())));
    assert_eq!(matched_validity(false, true, None), Some((true, "TBA".to_string())));
    let tc = strings(&["MAT1", "ENG", "sci1"]);
    let sc = strings(&["SCI1", "mat1"]);
    assert_eq!(mark_sets_deleted(true, &tc, &sc), vec![1]);
    assert!(mark_sets_deleted(false, &tc, &sc).is_empty());
}

#[test]
fn bulk_assessment_rows() {
    let p = section(vec![
        ("weight", SettingValue::Number("1.5".to_string())),
        ("title", text_value(" Test 2 ")),
        ("term", SettingValue::Null),
        ("date", text_value(" ")),
        ("outOf", SettingValue::Int(40)),
    ]);
    let got: Vec<(String, String)> = assessment_patch_changes(&p)
        .unwrap()
        .into_iter()
        .map(|(c, v)| {
            let shown = match v {
                SettingValue::Null => "null".to_string(),
                SettingValue::Int(n) => n.to_string(),
                SettingValue::Number(t) => t,
                SettingValue::Text(t) => t,
                _ => "?".to_string(),
            };
            (c, shown)
        })
        .collect();
    assert_eq!(
        got,
        vec![
            ("date".to_string(), "null".to_string()),
            ("title".to_string(), "Test 2".to_string()),
            ("term".to_string(), "null".to_string()),
            ("weight".to_string(), "1.5".to_string()),
            ("out_of".to_string(), "40".to_string()),
        ]
    );
    let bad = section(vec![("title", text_value(" "))]);
    assert_eq!(assessment_patch_changes(&bad).err(), Some("patch.title must not be empty".to_string()));
    let bad = section(vec![("title", SettingValue::Int(1))]);
    assert_eq!(assessment_patch_changes(&bad).err(), Some("patch.title must be string".to_string()));
    let bad = section(vec![("term", SettingValue::Number("2.5".to_string()))]);
    assert_eq!(assessment_patch_changes(&bad).err(), Some("patch.term must be integer or null".to_string()));
    let bad = section(vec![("outOf", text_value("10"))]);
    assert_eq!(assessment_patch_changes(&bad).err(), Some("patch.outOf must be number or null".to_string()));
    let bad = section(vec![("categoryName", SettingValue::Bool(true))]);
    assert_eq!(assessment_patch_changes(&bad).err(), Some("patch.categoryName must be string or null".to_string()));
    assert_eq!(
        assessment_patch_changes(&SectionValues::new()).err(),
        Some("patch must include at least one field".to_string())
    );
}
