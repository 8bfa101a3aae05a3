use markbook::folder::{
    extension_is, is_all_idx_file_name, is_class_file_name, is_legacy_year_file, is_mark_file_name,
    is_note_file_name,
};
use markbook::course::{
    course_resources, course_setup_defaults, course_title, planner_setup_defaults,
    resolve_course_description_options, time_totals, CourseSetupDefaults, ProfileSchedule,
    ValueSource,
};
use markbook::ipc::method_in;
use markbook::params::{
    assessment_passes_filters, get_required_str, get_setup_string, normalized_opt_str,
    parse_collision_policy, parse_comment_policy, parse_filters, parse_scope,
    parse_student_match_mode, parse_bool, parse_opt_i64, parse_opt_string, parse_required_string_array,
    parse_string_array, parse_student_scope, parse_title_mode, validate_artifact_kind,
    validate_publish_status, ParamValue, StudentScope,
};
use markbook::planner::{apply_shift, shift_iso_date, shift_iso_date_checked};
use markbook::seating::{
    normalize_day_codes, seat_code_to_index, seat_index_to_code, seating_save_plan, seating_view,
    BlockedSeats,
};
use markbook::setup::{
    default_section, load_section, merge_section_patch, SectionValues, SettingValue, SetupSection,
};
use markbook::students::normalize_mark_set_mask;

#[test]
fn methods_by_name() {
    assert!(method_in("setup.get", &["setup.get", "setup.update"]));
    assert!(!method_in("setup.delete", &["setup.get", "setup.update"]));
    assert!(!method_in("x", &[]));
}

#[test]
fn day_codes_are_cut_or_padded() {
    assert_eq!(normalize_day_codes("PA", 4), "PA  ");
    assert_eq!(normalize_day_codes("PAPAP", 3), "PAP");
    assert_eq!(normalize_day_codes("", 0), "");
}

#[test]
fn seat_codes() {
    assert_eq!(seat_index_to_code(0, 5), 1);
    assert_eq!(seat_index_to_code(7, 5), 13);
    assert_eq!(seat_index_to_code(3, 0), 31);
    assert_eq!(seat_code_to_index(13, 6, 5), Some(7));
    assert_eq!(seat_code_to_index(0, 6, 5), None);
    assert_eq!(seat_code_to_index(60, 6, 5), None);
    assert_eq!(seat_code_to_index(16, 6, 5), None);
    assert_eq!(seat_code_to_index(10, 6, 5), None);
    for i in 0..30usize {
        assert_eq!(seat_code_to_index(seat_index_to_code(i, 5), 6, 5), Some(i));
    }
}

#[test]
fn seating_plan_view() {
    let students = vec![("s1".to_string(), 0i64), ("s2".to_string(), 1i64)];
    let placed = vec![("s1".to_string(), 12i64), ("s2".to_string(), 99i64), ("zz".to_string(), 11i64), ("s2".to_string(), 12i64)];
    let v = seating_view(Some((2, 3, "0101".to_string())), &students, &placed);
    assert_eq!(v.rows, 2);
    assert_eq!(v.seats_per_row, 3);
    assert_eq!(v.blocked_seat_codes, vec![2, 4]);
    assert_eq!(v.assignments, vec![None, None, None, None, Some(1), None]);
    let d = seating_view(None, &students, &Vec::new());
    assert_eq!((d.rows, d.seats_per_row), (6, 5));
    assert!(d.blocked_seat_codes.is_empty());
    assert_eq!(d.assignments.len(), 30);
}

#[test]
fn seating_plan_save() {
    let students = vec![("s1".to_string(), 0i64), ("s2".to_string(), 1i64), ("s3".to_string(), 1i64)];
    let assignments = vec![Some(1), None, Some(0), Some(1), Some(7), Some(0), Some(0)];
    let plan = seating_save_plan(0, 3, &assignments, &BlockedSeats::Codes(vec![1, 100, 101, 0]), &students);
    assert_eq!(plan.rows, 1);
    assert_eq!(plan.seats_per_row, 3);
    assert_eq!(plan.seats, vec![("s3".to_string(), 1i64), ("s1".to_string(), 3i64)]);
    let mut mask = "0".repeat(100);
    mask.replace_range(0..1, "1");
    mask.replace_range(99..100, "1");
    assert_eq!(plan.blocked_mask, mask);
    let by_mask = seating_save_plan(2, 2, &Vec::new(), &BlockedSeats::Mask("01x1".to_string()), &students);
    assert_eq!(&by_mask.blocked_mask[..5], "01010");
    assert!(by_mask.seats.is_empty());
    let none = seating_save_plan(2, 2, &Vec::new(), &BlockedSeats::Missing, &students);
    assert_eq!(none.blocked_mask, "0".repeat(100));
}

#[test]
fn setup_sections_by_name() {
    assert_eq!(SetupSection::parse("courseDescription"), Some(SetupSection::CourseDescription));
    assert_eq!(SetupSection::parse("Analysis"), None);
    assert_eq!(SetupSection::Email.key(), "setup.email");
    assert_eq!(SetupSection::Planner.name(), "planner");
}

fn text(s: &str) -> SettingValue {
    SettingValue::Text(s.to_string())
}

fn patch(entries: Vec<(&str, SettingValue)>) -> Vec<(String, SettingValue)> {
    entries.into_iter().map(|(k, v)| (k.to_string(), v)).collect()
}

fn get_text(v: &SectionValues, key: &str) -> Option<String> {
    match v.get(key) {
        Some(SettingValue::Text(s)) => Some(s.clone()),
        _ => None,
    }
}

fn get_int(v: &SectionValues, key: &str) -> Option<i64> {
    match v.get(key) {
        Some(SettingValue::Int(n)) => Some(*n),
        _ => None,
    }
}

#[test]
fn setup_defaults() {
    let a = default_section(SetupSection::Analysis);
    assert_eq!(get_text(&a, "defaultStudentScope").as_deref(), Some("valid"));
    assert_eq!(get_int(&a, "histogramBins"), Some(10));
    assert_eq!(a.fields().len(), 6);
    let s = default_section(SetupSection::Security);
    assert!(matches!(s.get("passwordHint"), Some(SettingValue::Null)));
    let e = default_section(SetupSection::Email);
    assert_eq!(get_text(&e, "subjectPrefix").as_deref(), Some("MarkBook"));
}

#[test]
fn setup_patch_applies_valid_fields() {
    let mut cur = default_section(SetupSection::Analysis);
    let p = patch(vec![
        ("defaultSortBy", text(" DisplayName ")),
        ("histogramBins", SettingValue::Int(12)),
        ("defaultStudentScope", text("ACTIVE")),
    ]);
    assert_eq!(merge_section_patch(SetupSection::Analysis, &mut cur, &p), Ok(()));
    assert_eq!(get_text(&cur, "defaultSortBy").as_deref(), Some("displayName"));
    assert_eq!(get_int(&cur, "histogramBins"), Some(12));
    assert_eq!(get_text(&cur, "defaultStudentScope").as_deref(), Some("active"));
    let again = cur.fields().len();
    assert_eq!(merge_section_patch(SetupSection::Analysis, &mut cur, &p), Ok(()));
    assert_eq!(cur.fields().len(), again);
    assert_eq!(get_text(&cur, "defaultSortBy").as_deref(), Some("displayName"));
}

#[test]
fn setup_patch_refusals() {
    let mut cur = default_section(SetupSection::Attendance);
    let p = patch(vec![("presentCode", text(" x ")), ("lateCode", text("   "))]);
    assert_eq!(
        merge_section_patch(SetupSection::Attendance, &mut cur, &p),
        Err("lateCode must not be empty".to_string())
    );
    assert_eq!(get_text(&cur, "presentCode").as_deref(), Some("X"));
    let mut c = default_section(SetupSection::Analysis);
    let cases: Vec<(&str, SettingValue, &str)> = vec![
        ("histogramBins", SettingValue::Int(3), "histogramBins must be in 4..=20"),
        ("histogramBins", text("5"), "histogramBins must be integer"),
        ("showDeletedEntries", SettingValue::Int(1), "showDeletedEntries must be boolean"),
        ("defaultSortBy", SettingValue::Bool(true), "defaultSortBy must be string"),
        ("defaultSortBy", text("name"), "defaultSortBy must be one of: sortOrder, displayName, finalMark"),
        ("defaultStudentScope", text("some"), "defaultStudentScope must be one of: all, active, valid"),
        ("defaultStudentScope", text("ééééééééé"), "defaultStudentScope length must be <= 16"),
        ("colour", SettingValue::Null, "unknown analysis field: colour"),
    ];
    for (k, v, msg) in cases {
        assert_eq!(merge_section_patch(SetupSection::Analysis, &mut c, &patch(vec![(k, v)])), Err(msg.to_string()));
    }
    let mut sec = default_section(SetupSection::Security);
    assert_eq!(
        merge_section_patch(SetupSection::Security, &mut sec, &patch(vec![("passwordHint", text(" hint "))])),
        Ok(())
    );
    assert_eq!(get_text(&sec, "passwordHint").as_deref(), Some("hint"));
    assert_eq!(
        merge_section_patch(SetupSection::Security, &mut sec, &patch(vec![("passwordHint", SettingValue::Null)])),
        Ok(())
    );
    assert!(matches!(sec.get("passwordHint"), Some(SettingValue::Null)));
    let mut com = default_section(SetupSection::Comments);
    assert_eq!(
        merge_section_patch(SetupSection::Comments, &mut com, &patch(vec![("defaultTransferPolicy", text("Nope"))])),
        Err("defaultTransferPolicy must be one of: replace, append, fill_blank, source_if_longer".to_string())
    );
    assert_eq!(
        merge_section_patch(SetupSection::Comments, &mut com, &patch(vec![("defaultMaxChars", SettingValue::Int(5001))])),
        Err("defaultMaxChars must be in 80..=5000".to_string())
    );
}

#[test]
fn setup_load_keeps_accepted_saved_fields() {
    let saved = patch(vec![("fontScale", SettingValue::Int(120)), ("repeatHeaders", text("no")), ("defaultMarginMm", SettingValue::Int(7))]);
    let loaded = load_section(SetupSection::Printer, Some(&saved));
    assert_eq!(get_int(&loaded, "fontScale"), Some(120));
    assert!(matches!(loaded.get("repeatHeaders"), Some(SettingValue::Bool(true))));
    assert_eq!(get_int(&loaded, "defaultMarginMm"), Some(12));
    let plain = load_section(SetupSection::Printer, None);
    assert_eq!(get_int(&plain, "fontScale"), Some(100));
}

#[test]
fn membership_masks() {
    assert_eq!(normalize_mark_set_mask(None, 3), "111");
    assert_eq!(normalize_mark_set_mask(Some(" tba ".to_string()), 2), "11");
    assert_eq!(normalize_mark_set_mask(Some("10".to_string()), 4), "1011");
    assert_eq!(normalize_mark_set_mask(Some("0101".to_string()), 2), "01");
    assert_eq!(normalize_mark_set_mask(Some("1x0".to_string()), 3), "111");
    assert_eq!(normalize_mark_set_mask(Some("".to_string()), 2), "11");
    assert_eq!(normalize_mark_set_mask(Some("0".to_string()), 0), "");
    let m = normalize_mark_set_mask(Some("010".to_string()), 5);
    assert_eq!(normalize_mark_set_mask(Some(m.clone()), 5), m);
}

#[test]
fn request_parameters() {
    assert_eq!(parse_bool(None, true), Ok(true));
    assert_eq!(parse_bool(Some(&ParamValue::Null), false), Ok(false));
    assert_eq!(parse_bool(Some(&ParamValue::Bool(true)), false), Ok(true));
    assert_eq!(parse_bool(Some(&ParamValue::Int(1)), false), Err("must be boolean"));
    assert_eq!(parse_opt_string(Some(&ParamValue::Text("  a ".to_string()))), Ok(Some("a".to_string())));
    assert_eq!(parse_opt_string(Some(&ParamValue::Text("  ".to_string()))), Ok(None));
    assert_eq!(parse_opt_string(Some(&ParamValue::Int(3))), Err("must be string or null"));
    assert_eq!(parse_opt_i64(Some(&ParamValue::Int(3))), Ok(Some(3)));
    assert_eq!(parse_opt_i64(Some(&ParamValue::Bool(true))), Err("must be integer or null"));
    let list = ParamValue::List(vec![Some(" a ".to_string()), Some("".to_string()), Some("a".to_string()), Some("b".to_string())]);
    assert_eq!(parse_string_array(Some(&list)), Ok(vec!["a".to_string(), "a".to_string(), "b".to_string()]));
    assert_eq!(parse_string_array(None), Ok(Vec::new()));
    let bad = ParamValue::List(vec![Some("a".to_string()), None]);
    assert_eq!(parse_string_array(Some(&bad)), Err("must be array of strings"));
    assert_eq!(parse_required_string_array(Some(&list), "lessonIds"), Ok(vec!["a".to_string(), "b".to_string()]));
    assert_eq!(parse_required_string_array(None, "lessonIds"), Err("missing lessonIds".to_string()));
    assert_eq!(parse_required_string_array(Some(&bad), "lessonIds"), Err("lessonIds must be array of strings".to_string()));
    let blank = ParamValue::List(vec![Some(" ".to_string())]);
    assert_eq!(
        parse_required_string_array(Some(&blank), "lessonIds"),
        Err("lessonIds must contain at least one lesson id".to_string())
    );
    assert_eq!(parse_required_string_array(Some(&ParamValue::Null), "ids"), Err("ids must be array of strings".to_string()));
}

#[test]
fn title_modes_and_validators() {
    assert_eq!(parse_title_mode(Some(&ParamValue::Text(" AppendCopy ".to_string())), "same"), Ok("appendCopy".to_string()));
    assert_eq!(parse_title_mode(None, "same"), Ok("same".to_string()));
    assert_eq!(parse_title_mode(Some(&ParamValue::Int(1)), "appendcopy"), Ok("appendCopy".to_string()));
    assert_eq!(
        parse_title_mode(Some(&ParamValue::Text("copy".to_string())), "same"),
        Err("titleMode must be one of: same, appendCopy".to_string())
    );
    assert!(validate_artifact_kind("course_description"));
    assert!(!validate_artifact_kind("Unit"));
    assert!(validate_publish_status("archived"));
    assert!(!validate_publish_status("deleted"));
    assert_eq!(normalized_opt_str(Some(&ParamValue::Int(2)), "code"), Err("code must be string or null".to_string()));
    assert_eq!(normalized_opt_str(Some(&ParamValue::Text(" x ".to_string())), "code"), Ok(Some("x".to_string())));
}

#[test]
fn report_scopes() {
    assert_eq!(parse_student_scope(None), Ok(StudentScope::All));
    assert_eq!(parse_student_scope(Some("VALID")), Ok(StudentScope::Valid));
    assert_eq!(parse_student_scope(Some("Some")), Err("some".to_string()));
    assert_eq!(StudentScope::Active.as_str(), "active");
}

#[test]
fn planner_dates_move() {
    assert_eq!(shift_iso_date(Some(" 2024-02-28 ".to_string()), 2).as_deref(), Some("2024-03-01"));
    assert_eq!(shift_iso_date(Some("2024-01-10".to_string()), -10).as_deref(), Some("2023-12-31"));
    assert_eq!(shift_iso_date(Some(" not a date ".to_string()), 3).as_deref(), Some("not a date"));
    assert_eq!(shift_iso_date(Some("2024-01-10".to_string()), 0).as_deref(), Some("2024-01-10"));
    assert_eq!(shift_iso_date(Some("  ".to_string()), 3), None);
    assert_eq!(shift_iso_date(None, 3), None);
    assert_eq!(shift_iso_date_checked(Some("2024-01-10".to_string()), i64::MAX), None);
    assert_eq!(shift_iso_date_checked(Some("2024-01-10".to_string()), 1), Some(Some("2024-01-11".to_string())));
    assert_eq!(apply_shift("d".to_string(), None), Some("d".to_string()));
    assert_eq!(apply_shift("d".to_string(), Some(None)), None);
}

#[test]
fn class_folder_file_names() {
    assert!(is_class_file_name("cl8d.y25"));
    assert!(!is_class_file_name("MAT18D.Y25"));
    assert!(is_legacy_year_file("MAT18D.y25"));
    assert!(!is_legacy_year_file("MAT18D.Y2X"));
    assert!(!is_legacy_year_file(".Y2"));
    assert!(is_mark_file_name("mat18d.Y25", "MAT18D"));
    assert!(!is_mark_file_name("CLMAT.Y25", "CL"));
    assert!(!is_mark_file_name("SNC28D.Y25", "MAT"));
    assert!(is_note_file_name("8dnote.txt"));
    assert!(extension_is("atn", "ATN"));
    assert!(!extension_is("atnx", "ATN"));
    assert!(is_all_idx_file_name("all!mat.idx"));
    assert!(!is_all_idx_file_name("mat.idx"));
}

fn section(entries: Vec<(&str, SettingValue)>) -> SectionValues {
    let mut v = SectionValues::new();
    for (k, x) in entries {
        let key: Vec<char> = k.chars().collect();
        v.set(&key, x);
    }
    v
}

#[test]
fn course_setup_defaults_fall_back() {
    let d = course_setup_defaults(&SectionValues::new());
    assert_eq!(
        d,
        CourseSetupDefaults {
            default_period_minutes: 75,
            default_periods_per_week: 5,
            default_total_weeks: 36,
            include_policy_by_default: true,
        }
    );
    let saved = section(vec![
        ("defaultPeriodMinutes", SettingValue::Int(60)),
        ("defaultPeriodsPerWeek", SettingValue::Int(0)),
        ("defaultTotalWeeks", text("40")),
        ("includePolicyByDefault", SettingValue::Bool(false)),
    ]);
    let d = course_setup_defaults(&saved);
    assert_eq!(d.default_period_minutes, 60);
    assert_eq!(d.default_periods_per_week, 5);
    assert_eq!(d.default_total_weeks, 36);
    assert!(!d.include_policy_by_default);
}

#[test]
fn planner_setup_defaults_fall_back() {
    let p = planner_setup_defaults(&SectionValues::new());
    assert_eq!(p.default_lesson_duration_minutes, 75);
    assert_eq!(p.default_publish_status, "draft");
    assert!(!p.show_archived_by_default);
    assert_eq!(p.default_unit_title_prefix, "Unit");
    let saved = section(vec![
        ("defaultLessonDurationMinutes", SettingValue::Int(50)),
        ("defaultPublishStatus", text("Published")),
        ("showArchivedByDefault", SettingValue::Bool(true)),
        ("defaultUnitTitlePrefix", text("  Module ")),
    ]);
    let p = planner_setup_defaults(&saved);
    assert_eq!(p.default_lesson_duration_minutes, 50);
    assert_eq!(p.default_publish_status, "published");
    assert!(p.show_archived_by_default);
    assert_eq!(p.default_unit_title_prefix, "Module");
    let odd = section(vec![("defaultPublishStatus", text("gone")), ("defaultUnitTitlePrefix", text(" "))]);
    let p = planner_setup_defaults(&odd);
    assert_eq!(p.default_publish_status, "draft");
    assert_eq!(p.default_unit_title_prefix, "Unit");
}

#[test]
fn course_options_resolve() {
    let defaults = CourseSetupDefaults {
        default_period_minutes: 75,
        default_periods_per_week: 5,
        default_total_weeks: 36,
        include_policy_by_default: false,
    };
    let profile = ProfileSchedule { period_minutes: Some(70), periods_per_week: Some(0), total_weeks: None };
    let o = resolve_course_description_options(profile, defaults, None).unwrap();
    assert_eq!(o.period_minutes, 70);
    assert_eq!(o.period_minutes_source, ValueSource::Profile);
    assert_eq!(o.periods_per_week, 5);
    assert_eq!(o.periods_per_week_source, ValueSource::SetupDefault);
    assert_eq!(o.total_weeks, 36);
    assert!(!o.include_policy);
    assert_eq!(o.include_policy_source, ValueSource::SetupDefault);
    assert!(o.include_strands && o.include_assessment_plan && o.include_resources);
    assert!(!o.include_archived);

    let opts = section(vec![
        ("totalWeeks", SettingValue::Int(18)),
        ("includePolicy", SettingValue::Bool(true)),
        ("includeArchived", SettingValue::Bool(true)),
    ]);
    let o = resolve_course_description_options(profile, defaults, Some(&opts)).unwrap();
    assert_eq!(o.total_weeks, 18);
    assert_eq!(o.total_weeks_source, ValueSource::Options);
    assert!(o.include_policy);
    assert_eq!(o.include_policy_source, ValueSource::Options);
    assert!(o.include_archived);
    assert_eq!(ValueSource::Options.as_str(), "options");
    assert_eq!(ValueSource::SetupDefault.as_str(), "setupDefault");

    let bad = section(vec![("periodMinutes", text("60"))]);
    assert_eq!(
        resolve_course_description_options(profile, defaults, Some(&bad)),
        Err("options.periodMinutes must be integer".to_string())
    );
    let bad = section(vec![("includeStrands", SettingValue::Int(1))]);
    assert_eq!(
        resolve_course_description_options(profile, defaults, Some(&bad)),
        Err("options.includeStrands must be boolean".to_string())
    );
    let zero = section(vec![("periodsPerWeek", SettingValue::Int(0))]);
    assert_eq!(
        resolve_course_description_options(profile, defaults, Some(&zero)),
        Err("periodMinutes, periodsPerWeek, totalWeeks must all be > 0".to_string())
    );
}

#[test]
fn course_time_and_resources() {
    assert_eq!(time_totals(&vec![75, 60, 45], 75, 5, 36), (180, 13500, 13320));
    assert_eq!(time_totals(&Vec::new(), 60, 4, 10), (0, 2400, 2400));
    let units = vec![
        vec![" Textbook ".to_string(), "".to_string(), "Lab kit".to_string()],
        vec!["Textbook".to_string(), "  ".to_string(), "Video".to_string()],
    ];
    assert_eq!(
        course_resources(&units),
        vec!["Textbook".to_string(), "Lab kit".to_string(), "Video".to_string()]
    );
    assert_eq!(course_title(Some("  Biology 11 "), "8B"), "Biology 11");
    assert_eq!(course_title(Some("   "), "8B"), "8B");
    assert_eq!(course_title(None, "8B"), "8B");
}

#[test]
fn exchange_options() {
    assert_eq!(get_required_str(Some(&ParamValue::Text(" c1 ".to_string())), "classId"), Ok("c1".to_string()));
    assert_eq!(get_required_str(Some(&ParamValue::Text(" ".to_string())), "classId"), Err("missing classId".to_string()));
    assert_eq!(get_required_str(Some(&ParamValue::Int(1)), "classId"), Err("missing classId".to_string()));
    assert_eq!(get_required_str(None, "path"), Err("missing path".to_string()));

    let setup = section(vec![("defaultMatchMode", text("Name_Only")), ("blank", text("  "))]);
    assert_eq!(get_setup_string(&setup, "defaultMatchMode", "student_no_then_name"), "name_only");
    assert_eq!(get_setup_string(&setup, "blank", "merge_existing"), "merge_existing");
    assert_eq!(get_setup_string(&setup, "other", "all"), "all");

    let dflt = "student_no_then_name".to_string();
    assert_eq!(parse_student_match_mode(None, &dflt), Ok(dflt.clone()));
    assert_eq!(parse_student_match_mode(Some("Sort_Order"), &dflt), Ok("sort_order".to_string()));
    assert_eq!(parse_student_match_mode(Some("name"), &dflt), Err("invalid matchMode".to_string()));
    let dflt = "merge_existing".to_string();
    assert_eq!(parse_collision_policy(Some("APPEND_NEW"), &dflt), Ok("append_new".to_string()));
    assert_eq!(parse_collision_policy(Some("skip"), &dflt), Err("invalid collisionPolicy".to_string()));
    let dflt = "fill_blank".to_string();
    assert_eq!(parse_comment_policy(None, &dflt), Ok("fill_blank".to_string()));
    assert_eq!(parse_comment_policy(Some("Source_If_Longer"), &dflt), Ok("source_if_longer".to_string()));
    assert_eq!(parse_comment_policy(Some("keep"), &dflt), Err("invalid commentPolicy".to_string()));
    let dflt = "bogus".to_string();
    assert_eq!(parse_scope(Some("Valid"), &dflt), Ok("valid".to_string()));
    assert_eq!(
        parse_scope(None, &dflt),
        Err("studentScope must be one of: all, active, valid".to_string())
    );
}

#[test]
fn export_filters_apply() {
    let f = parse_filters(None).unwrap();
    assert!(f.term.is_none() && f.category_name.is_none() && f.types_mask.is_none());
    assert!(assessment_passes_filters(&f, None, None, None));
    assert_eq!(parse_filters(Some(None)).err(), Some("filters must be object".to_string()));
    let bad = section(vec![("term", text("1"))]);
    assert_eq!(parse_filters(Some(Some(&bad))).err(), Some("filters.term must be integer or null".to_string()));
    let bad = section(vec![("categoryName", SettingValue::Int(2))]);
    assert_eq!(
        parse_filters(Some(Some(&bad))).err(),
        Some("filters.categoryName must be string or null".to_string())
    );
    let all = section(vec![("categoryName", text(" all ")), ("term", SettingValue::Null)]);
    let f = parse_filters(Some(Some(&all))).unwrap();
    assert!(f.category_name.is_none() && f.term.is_none());

    let m = section(vec![
        ("term", SettingValue::Int(2)),
        ("categoryName", text("  K/U ")),
        ("typesMask", SettingValue::Int(5)),
    ]);
    let f = parse_filters(Some(Some(&m))).unwrap();
    assert_eq!(f.term, Some(2));
    assert_eq!(f.category_name.as_deref(), Some("k/u"));
    assert_eq!(f.types_mask, Some(5));
    assert!(assessment_passes_filters(&f, Some(2), Some(0), Some("k/u ")));
    assert!(assessment_passes_filters(&f, Some(2), Some(2), Some("K/U")));
    assert!(!assessment_passes_filters(&f, Some(1), Some(0), Some("K/U")));
    assert!(!assessment_passes_filters(&f, Some(2), Some(1), Some("K/U")));
    assert!(!assessment_passes_filters(&f, Some(2), Some(0), None));
    assert!(!assessment_passes_filters(&f, Some(2), Some(0), Some("App")));
    let mask_text = section(vec![("typesMask", text("5"))]);
    let f = parse_filters(Some(Some(&mask_text))).unwrap();
    assert!(f.types_mask.is_none());
}

#[test]
fn defaults_saved_and_reloaded() {
    for section in [SetupSection::Analysis, SetupSection::Email, SetupSection::Security, SetupSection::Planner] {
        let d = default_section(section);
        let saved: Vec<(String, SettingValue)> = d.fields().iter().map(|(k, v)| (k.clone(), v.duplicate())).collect();
        let mut cur = default_section(section);
        assert_eq!(merge_section_patch(section, &mut cur, &saved), Ok(()));
        assert_eq!(cur.fields().len(), d.fields().len());
        for (k, v) in d.fields() {
            match (v, cur.get(k)) {
                (SettingValue::Text(a), Some(SettingValue::Text(b))) => assert_eq!(a, b),
                (SettingValue::Int(a), Some(SettingValue::Int(b))) => assert_eq!(a, b),
                (SettingValue::Bool(a), Some(SettingValue::Bool(b))) => assert_eq!(a, b),
                (SettingValue::Null, Some(SettingValue::Null)) => {}
                _ => panic!("field {} changed", k),
            }
        }
    }
    let d = default_section(SetupSection::Comments);
    let saved: Vec<(String, SettingValue)> = d.fields().iter().map(|(k, v)| (k.clone(), v.duplicate())).collect();
    let loaded = load_section(SetupSection::Comments, Some(&saved));
    assert_eq!(get_text(&d, "appendSeparator").as_deref(), Some(" "));
    assert_eq!(get_text(&loaded, "appendSeparator").as_deref(), Some(""));
}
