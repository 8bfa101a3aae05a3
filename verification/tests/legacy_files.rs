use markbook::legacy::parse_legacy_attendance_text;

#[test]
fn parse_legacy_attendance_file_from_synthetic() {
    let mut src = String::new();
    src.push_str("[MarkBook]\n[Version]\n\"\"\n");
    src.push_str("[This Attendance File belongs to...]\nFolder: TEST\n\"\"\n");
    src.push_str("[LastStudent]\n2\n\"\"\n");
    src.push_str("[School Year Starts]\n9\n\"\"\n");
    src.push_str("[Attendance Data - DO NOT EDIT!!!]\n");
    for m in 1..=12 {
        src.push_str(&format!("\"[Month{}]\"\n", m));
        src.push_str("\"PPPP\"\n");
        src.push_str("\"PA\"\n");
        src.push_str("\"LP\"\n");
    }
    let parsed = parse_legacy_attendance_text(&src).expect("parse atn");
    assert_eq!(parsed.last_student, 2);
    assert_eq!(parsed.school_year_start_month, 9);
    assert_eq!(parsed.months.len(), 12);
    assert_eq!(parsed.months[0].student_day_codes.len(), 2);
    assert_eq!(parsed.months[0].type_of_day_codes, "PPPP");
}

use markbook::bnk::{parse_bnk_text, serialize_bnk_file, ParsedBnkEntry, ParsedBnkFile};
use markbook::legacy::{
    parse_legacy_cl_text, parse_legacy_icc_text, parse_legacy_idx_text, parse_legacy_note_text,
    parse_legacy_r_comment_text, parse_legacy_rmk_text, parse_legacy_seating_text,
    parse_legacy_tbk_text, parse_legacy_typ_text,
};
use markbook::lines::LegacyError;
use markbook::marks::{parse_legacy_export_text, parse_legacy_mark_text};

#[test]
fn attendance_file_needs_its_sections() {
    assert_eq!(parse_legacy_attendance_text("").err(), Some(LegacyError::MissingSection));
    let no_data = "[LastStudent]\n2\n[School Year Starts]\n9\n";
    assert_eq!(parse_legacy_attendance_text(no_data).err(), Some(LegacyError::MissingSection));
    let bad_count = "[LastStudent]\nabc\n";
    assert_eq!(parse_legacy_attendance_text(bad_count).err(), Some(LegacyError::BadNumber));
}

#[test]
fn typ_file_reads_entry_types() {
    let text = "[MarkBook]\n[Last Entry]\n3\n\"\"\n1\nx\n-2\n";
    let v = parse_legacy_typ_text(text).expect("typ");
    assert_eq!(v, vec![1, 0, -2]);
    assert_eq!(parse_legacy_typ_text("[Last Entry]\n3\n1\n").err(), Some(LegacyError::UnexpectedEof));
    assert_eq!(parse_legacy_typ_text("nothing here").err(), Some(LegacyError::MissingSection));
    assert_eq!(parse_legacy_typ_text("[last entry]\n").err(), Some(LegacyError::MissingValue));
}

#[test]
fn note_file_reads_quoted_notes() {
    let text = "[Comments]\n2\n\"first note\"\n\"second\nspans lines\"\n";
    let v = parse_legacy_note_text(text).expect("notes");
    assert_eq!(v, vec!["first note".to_string(), "second\nspans lines".to_string()]);
    assert_eq!(
        parse_legacy_note_text("[Comments]\n1\n\"never closed\n").err(),
        Some(LegacyError::Unterminated)
    );
    assert_eq!(parse_legacy_note_text("[Comments]\n2\n\"one\"\n").err(), Some(LegacyError::UnexpectedEof));
}

#[test]
fn r_comment_file_counts_its_remarks() {
    let text = "[Comments]\n3\n\"Daniella works hard\"\n\"\"\n\"Good\"\n";
    let parsed = parse_legacy_r_comment_text(text).expect("r1");
    assert_eq!(parsed.last_student, 3);
    assert_eq!(parsed.remarks.len(), 3);
    assert!(parsed.remarks.iter().any(|s| s.contains("Daniella")));
    assert_eq!(parsed.remarks[1], "");
}

#[test]
fn rmk_file_drops_the_class_wide_line() {
    let text = "[LastStudent - Last Entry]\n2,2\n\"Test 1\"\n\"class\"\n\"a\"\n\"\"\n\"Test 2\"\n\"class\"\n\"b\"\n\"c\"\n";
    let r = parse_legacy_rmk_text(text).expect("rmk");
    assert_eq!(r.last_student, 2);
    assert_eq!(r.last_entry, 2);
    assert_eq!(r.entry_titles, vec!["Test 1".to_string(), "Test 2".to_string()]);
    assert_eq!(r.remarks_by_entry[0], vec!["a".to_string(), "".to_string()]);
    assert_eq!(r.remarks_by_entry[1], vec!["b".to_string(), "c".to_string()]);
    assert_eq!(
        parse_legacy_rmk_text("[LastStudent - Last Entry]\n2\n").err(),
        Some(LegacyError::BadLine)
    );
}

#[test]
fn seating_file_reads_plan() {
    let text = "[Number of Rows / Seats per Row]\n6,5\n[LastStudent]\n3\n0120\n11\nx\n25\n";
    let s = parse_legacy_seating_text(text).expect("spl");
    assert_eq!(s.rows, 6);
    assert_eq!(s.seats_per_row, 5);
    assert_eq!(s.last_student, 3);
    assert_eq!(s.blocked_mask, "0100");
    assert_eq!(s.seat_codes, vec![11, 0, 25]);
    assert_eq!(
        parse_legacy_seating_text("[Number of Rows / Seats per Row]\n6\n").err(),
        Some(LegacyError::BadLine)
    );
}

#[test]
fn class_file_reads_mark_sets_and_students() {
    let text = "[General Information]\n\"555-1234\"\n\"School\"\n\"8D Math\"\n\
[Mark Sets created for this class]\n2\n\"MAT18D&MAT1,Math Term 1,50\"\n\"SNC2,Science,abc\"\n\
[Class List]\n2\n1,O'Shanter,Tam,x,12345,a,b,c,d,2010-01-02,111111\n0,Lyons,Melody,x,,a,b,c,d,,000000\n";
    let cl = parse_legacy_cl_text(text);
    assert_eq!(cl.class_name, "8D Math");
    assert_eq!(cl.mark_sets.len(), 2);
    assert!(cl.mark_sets.iter().any(|m| m.code == "MAT1"));
    assert_eq!(cl.mark_sets[0].file_prefix, "MAT18D");
    assert_eq!(cl.mark_sets[0].weight, "50");
    assert_eq!(cl.mark_sets[1].file_prefix, "SNC2");
    assert_eq!(cl.mark_sets[1].code, "SNC2");
    assert_eq!(cl.mark_sets[1].sort_order, 1);
    let tam = cl
        .students
        .iter()
        .find(|s| s.last_name == "O'Shanter" && s.first_name == "Tam")
        .expect("Tam present");
    assert!(tam.active);
    assert_eq!(tam.student_no.as_deref(), Some("12345"));
    assert_eq!(tam.birth_date.as_deref(), Some("2010-01-02"));
    assert_eq!(tam.mark_set_mask.as_deref(), Some("111111"));
    let melody = cl
        .students
        .iter()
        .find(|s| s.last_name == "Lyons" && s.first_name == "Melody")
        .expect("Melody present");
    assert!(!melody.active);
    assert_eq!(melody.student_no, None);
    assert_eq!(melody.mark_set_mask.as_deref(), Some("000000"));
}

#[test]
fn class_file_without_general_information_has_default_name() {
    let cl = parse_legacy_cl_text("[Class List]\n1\n1,A,B,c\n");
    assert_eq!(cl.class_name, "Imported Class");
    assert_eq!(cl.students.len(), 1);
    assert_eq!(cl.students[0].mark_set_mask, None);
}

#[test]
fn idx_file_old_format() {
    let text = "2\n2\n\"First\"\n";
    let idx = parse_legacy_idx_text(text).expect("idx");
    assert_eq!(idx.default_set, 2);
    assert_eq!(idx.fit_max_letters, 100);
    assert_eq!(idx.sets.len(), 2);
    assert_eq!(idx.sets[0].title, "First");
    assert_eq!(idx.sets[1].title, "Set 2");
    assert!(idx.sets[1].is_default);
    assert_eq!(idx.sets[0].fit_width, 50);
    assert_eq!(idx.bank_short, None);
}

#[test]
fn idx_file_new_format() {
    let text = "[This Comment Index File belongs to...]\n\"Folder\"\n80\n1\n1\n\
\"First MAT1 Set\"\n\"1,9,83,12\"\n\"\"\n\"COMMENT.BNK\"\n\
[Max Characters for each Comment Set]\n60\n";
    let idx = parse_legacy_idx_text(text).expect("idx");
    assert_eq!(idx.fit_max_letters, 100);
    assert_eq!(idx.sets.len(), 1);
    assert_eq!(idx.default_set, 1);
    assert_eq!(idx.sets[0].title, "First MAT1 Set");
    assert_eq!(idx.sets[0].fit_mode, 1);
    assert_eq!(idx.sets[0].fit_font_size, 9);
    assert_eq!(idx.sets[0].fit_width, 83);
    assert_eq!(idx.sets[0].fit_lines, 12);
    assert_eq!(idx.sets[0].max_chars, 100);
    assert_eq!(idx.bank_short.as_deref(), Some("COMMENT.BNK"));
    assert_eq!(parse_legacy_idx_text("").err(), Some(LegacyError::EmptyFile));
}

#[test]
fn tbk_file_reads_items_and_loans() {
    let text = "[LastStudent]\n2\n[Loaned Items Data - DO NOT EDIT!!!]\n0\n\
Mathpower 8,McGraw,45.5\nw98-102,ok\n\nW98-103\n";
    let parsed = parse_legacy_tbk_text(text).expect("tbk");
    assert_eq!(parsed.last_student, 2);
    assert_eq!(parsed.items.len(), 1);
    assert_eq!(parsed.items[0].title, "Mathpower 8");
    assert_eq!(parsed.items[0].publisher, "McGraw");
    assert_eq!(parsed.items[0].cost, "45.5");
    assert_eq!(parsed.items[0].assignments.len(), 2);
    assert_eq!(parsed.items[0].assignments[0].item_id.to_uppercase(), "W98-102");
    assert_eq!(parsed.items[0].assignments[0].note, "ok");
    assert_eq!(parsed.items[0].assignments[1].note, "");
}

#[test]
fn icc_file_fills_its_grid() {
    let text = "\n2,1\nMAT,MAT2D1-01\n,,\nSCI\n";
    let parsed = parse_legacy_icc_text(text).expect("icc");
    assert_eq!(parsed.last_student, 2);
    assert_eq!(parsed.subject_count, 1);
    assert_eq!(parsed.codes.len(), 3);
    assert_eq!(parsed.codes[0], vec!["MAT".to_string(), "MAT2D1-01".to_string()]);
    assert_eq!(parsed.codes[1], vec!["".to_string(), "".to_string()]);
    assert_eq!(parsed.codes[2], vec!["".to_string(), "SCI".to_string()]);
    assert_eq!(parse_legacy_icc_text("").err(), Some(LegacyError::EmptyFile));
    assert_eq!(parse_legacy_icc_text("7").err(), Some(LegacyError::BadLine));
    assert_eq!(parse_legacy_icc_text("a,1").err(), Some(LegacyError::BadNumber));
}

#[test]
fn bnk_file_reads_entries_and_fit_profile() {
    let text = "\"A\",\"1\",\"Works hard, always\"\n\"FIT\",\"FIT\",\"Please DO NOT EDIT or DELETE this line: 9,83\"\nB,2,\"Says \"\"hi\"\"\"\nshort,line\n";
    let parsed = parse_bnk_text(text);
    assert_eq!(parsed.entries.len(), 2);
    assert_eq!(parsed.fit_profile.as_deref(), Some("9,83"));
    assert_eq!(parsed.entries[0].type_code, "A");
    assert_eq!(parsed.entries[0].text, "Works hard, always");
    assert_eq!(parsed.entries[1].sort_order, 1);
    assert_eq!(parsed.entries[1].text, "Says \"hi\"");
}

#[test]
fn bnk_file_serializes_with_fit_line() {
    let parsed = ParsedBnkFile {
        fit_profile: Some("9,83".to_string()),
        entries: vec![ParsedBnkEntry {
            sort_order: 0,
            type_code: "A".to_string(),
            level_code: "1".to_string(),
            text: "Say \"hi\"".to_string(),
        }],
    };
    let out = serialize_bnk_file(&parsed);
    assert_eq!(
        out,
        "\"A\",\"1\",\"Say \"\"hi\"\"\"\n\"FIT\",\"FIT\",\"Please DO NOT EDIT or DELETE this line: 9,83\"\n"
    );
    assert!(out.contains("FIT"));
    let back = parse_bnk_text(&out);
    assert_eq!(back.entries.len(), 1);
    assert_eq!(back.entries[0].text, "Say \"hi\"");
    assert_eq!(back.fit_profile.as_deref(), Some("9,83"));
}

const MARK_FILE: &str = "[Misc Info]\n\"MAT18D-01\"\n\"Room 5\"\n\"\"\n\"2\"\n\"1\"\n\"123.5\"\n\"2\"\n\"\"\n\
[Categories]\n2\n\"K/U, 25\"\n\"App,x\"\n\
[LastStudent]\n2\n\
[Marks]\n1\n\"2024 9 5\"\n\"K/U\"\n\"Quiz 1\"\n\"1\"\n\"0, 10, 75, 20, 15\"\n\"1, 2\"\n\"2, -1\"\n";

#[test]
fn mark_file_reads_categories_and_assessments() {
    let mf = parse_legacy_mark_text(MARK_FILE).expect("mark file");
    let misc = mf.misc.as_ref().expect("misc");
    assert_eq!(misc.full_code, "MAT18D-01");
    assert_eq!(misc.room, "Room 5");
    assert_eq!(misc.day, "");
    assert_eq!(misc.period, "2");
    assert_eq!(misc.weight_method, 1);
    assert_eq!(misc.legacy_serial.as_deref(), Some("123.5"));
    assert_eq!(misc.calc_method, 2);
    assert_eq!(mf.categories.len(), 2);
    assert_eq!(mf.categories[0].name, "K/U");
    assert_eq!(mf.categories[0].weight, "25");
    assert_eq!(mf.categories[1].weight, "x");
    assert_eq!(mf.last_student, 2);
    assert_eq!(mf.assessments.len(), 1);
    let a0 = &mf.assessments[0];
    assert_eq!(a0.idx, 0);
    assert_eq!(a0.date, "2024-09-05");
    assert_eq!(a0.category_name, "K/U");
    assert_eq!(a0.title, "Quiz 1");
    assert_eq!(a0.term, 1);
    assert_eq!(a0.legacy_kind, "0");
    assert_eq!(a0.weight, "10");
    assert_eq!(a0.avg_percent, "75");
    assert_eq!(a0.out_of, "20");
    assert_eq!(a0.avg_raw, "15");
    assert_eq!(a0.raw_scores, vec!["2".to_string(), "-1".to_string()]);
}

#[test]
fn mark_file_errors() {
    assert_eq!(parse_legacy_mark_text("[Categories]\n0\n[Marks]\n0\n").err(), Some(LegacyError::MissingSection));
    let bad_date = "[Categories]\n0\n[LastStudent]\n0\n[Marks]\n1\n\"2024 9\"\n";
    assert_eq!(parse_legacy_mark_text(bad_date).err(), Some(LegacyError::BadLine));
    let bad_summary = "[Categories]\n0\n[LastStudent]\n0\n[Marks]\n1\n2024 1 2\nc\nt\n1\n1,2,3\n";
    assert_eq!(parse_legacy_mark_text(bad_summary).err(), Some(LegacyError::BadLine));
    let bad_cat = "[Categories]\n1\nonlyname\n[LastStudent]\n0\n[Marks]\n0\n";
    assert_eq!(parse_legacy_mark_text(bad_cat).err(), Some(LegacyError::BadLine));
    let short = "[Categories]\n0\n[LastStudent]\n1\n[Marks]\n1\n2024 1 2\nc\nt\n1\n1,2,3,4,5\n";
    assert_eq!(parse_legacy_mark_text(short).err(), Some(LegacyError::UnexpectedEof));
}

#[test]
fn mark_file_pads_dates_and_reads_negative_years() {
    let text = "[Categories]\n0\n[LastStudent]\n0\n[Marks]\n1\n-5 1 2 extra\nc\nt\nx\n1,2,3,4,5\n";
    let mf = parse_legacy_mark_text(text).expect("mark file");
    assert!(mf.misc.is_none());
    assert_eq!(mf.assessments[0].date, "-005-01-02");
    assert_eq!(mf.assessments[0].term, 0);
}

#[test]
fn export_file_reads_blocks() {
    let text = "\"This file belongs to MAT18D\"\n\"Folder: X\"\n[LastStudent]\n2\n\
\"Group Report\"\n\"100,abc\"\n\"50\"\n\"60\"\n\"70\"\n\"80\"\n\
\"True / False\"\n\"9\"\n\"1\"\n\"\"\n\"2\"\nNot a number\nNo values\n[End]\n";
    let parsed = parse_legacy_export_text(text).expect("export");
    assert_eq!(parsed.last_student, 2);
    assert_eq!(parsed.blocks.len(), 2);
    assert_eq!(parsed.blocks[0].title, "Group Report");
    assert_eq!(parsed.blocks[0].out_of, "100");
    assert_eq!(parsed.blocks[0].values, vec!["50".to_string(), "60".to_string(), "70".to_string()]);
    assert_eq!(parsed.blocks[1].title, "True / False");
    assert_eq!(parsed.blocks[1].out_of, "9");
    assert_eq!(parsed.blocks[1].values, vec!["1".to_string(), "2".to_string()]);
}

#[test]
fn export_file_needs_a_student_count() {
    assert_eq!(parse_legacy_export_text("Title\n100\n1\n").err(), Some(LegacyError::MissingSection));
    assert_eq!(parse_legacy_export_text("[LastStudent]\n0\n").err(), Some(LegacyError::MissingSection));
}
