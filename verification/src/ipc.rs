//! Routing requests by method name.
use vstd::prelude::*;
use crate::text::{chars_eq, chars_eq_str, chars_of};

verus! {

/// Whether `method` is one of `methods`.
pub fn method_in(method: &str, methods: &[&str]) -> (r: bool)
    ensures
        r <==> exists|i: int| 0 <= i < methods@.len() && methods@[i]@ == method@,
{
    let m = chars_of(method);
    let mut i: usize = 0;
    while i < methods.len()
        invariant
            i <= methods@.len(),
            m@ == method@,
            forall|j: int| 0 <= j < i ==> methods@[j]@ != method@,
        decreases methods@.len() - i,
    {
        let c = chars_of(methods[i]);
        if chars_eq(c.as_slice(), m.as_slice()) {
            return true;
        }
        i += 1;
    }
    false
}

/// The groups of request methods, one for each set of handlers.
#[derive(Clone, Copy, Debug, PartialEq, Eq, Structural)]
pub enum HandlerFamily {
    ImportLegacy,
    Students,
    MarksetSetup,
    Seating,
    Reports,
    Integrations,
    Planner,
    Setup,
}

/// The methods of the import legacy handlers.
pub open spec fn import_legacy_method(m: Seq<char>) -> bool {
    m == "class.importLegacy"@
        || m == "classes.legacyPreview"@
        || m == "classes.updateFromLegacy"@
        || m == "classes.updateFromAttachedLegacy"@
        || m == "marksets.list"@
        || m == "markset.open"@
}

fn is_import_legacy_method(m: &[char]) -> (r: bool)
    ensures
        r == import_legacy_method(m@),
{
    chars_eq_str(m, "class.importLegacy")
        || chars_eq_str(m, "classes.legacyPreview")
        || chars_eq_str(m, "classes.updateFromLegacy")
        || chars_eq_str(m, "classes.updateFromAttachedLegacy")
        || chars_eq_str(m, "marksets.list")
        || chars_eq_str(m, "markset.open")
}

/// The methods of the students handlers.
pub open spec fn students_method(m: Seq<char>) -> bool {
    m == "students.list"@
        || m == "students.create"@
        || m == "students.update"@
        || m == "students.reorder"@
        || m == "students.delete"@
        || m == "students.membership.get"@
        || m == "students.membership.set"@
        || m == "notes.get"@
        || m == "notes.update"@
}

fn is_students_method(m: &[char]) -> (r: bool)
    ensures
        r == students_method(m@),
{
    chars_eq_str(m, "students.list")
        || chars_eq_str(m, "students.create")
        || chars_eq_str(m, "students.update")
        || chars_eq_str(m, "students.reorder")
        || chars_eq_str(m, "students.delete")
        || chars_eq_str(m, "students.membership.get")
        || chars_eq_str(m, "students.membership.set")
        || chars_eq_str(m, "notes.get")
        || chars_eq_str(m, "notes.update")
}

/// The methods of the markset setup handlers.
pub open spec fn markset_setup_method(m: Seq<char>) -> bool {
    m == "marks.pref.hideDeleted.get"@
        || m == "marks.pref.hideDeleted.set"@
        || m == "entries.delete"@
        || m == "entries.clone.save"@
        || m == "entries.clone.peek"@
        || m == "entries.clone.apply"@
        || m == "marksets.create"@
        || m == "marksets.delete"@
        || m == "marksets.undelete"@
        || m == "marksets.setDefault"@
        || m == "marksets.clone"@
        || m == "marksets.transfer.preview"@
        || m == "marksets.transfer.apply"@
        || m == "categories.list"@
        || m == "categories.create"@
        || m == "categories.update"@
        || m == "categories.delete"@
        || m == "assessments.list"@
        || m == "assessments.create"@
        || m == "assessments.bulkCreate"@
        || m == "assessments.update"@
        || m == "assessments.bulkUpdate"@
        || m == "assessments.delete"@
        || m == "assessments.reorder"@
        || m == "markset.settings.get"@
        || m == "markset.settings.update"@
}

fn is_markset_setup_method(m: &[char]) -> (r: bool)
    ensures
        r == markset_setup_method(m@),
{
    chars_eq_str(m, "marks.pref.hideDeleted.get")
        || chars_eq_str(m, "marks.pref.hideDeleted.set")
        || chars_eq_str(m, "entries.delete")
        || chars_eq_str(m, "entries.clone.save")
        || chars_eq_str(m, "entries.clone.peek")
        || chars_eq_str(m, "entries.clone.apply")
        || chars_eq_str(m, "marksets.create")
        || chars_eq_str(m, "marksets.delete")
        || chars_eq_str(m, "marksets.undelete")
        || chars_eq_str(m, "marksets.setDefault")
        || chars_eq_str(m, "marksets.clone")
        || chars_eq_str(m, "marksets.transfer.preview")
        || chars_eq_str(m, "marksets.transfer.apply")
        || chars_eq_str(m, "categories.list")
        || chars_eq_str(m, "categories.create")
        || chars_eq_str(m, "categories.update")
        || chars_eq_str(m, "categories.delete")
        || chars_eq_str(m, "assessments.list")
        || chars_eq_str(m, "assessments.create")
        || chars_eq_str(m, "assessments.bulkCreate")
        || chars_eq_str(m, "assessments.update")
        || chars_eq_str(m, "assessments.bulkUpdate")
        || chars_eq_str(m, "assessments.delete")
        || chars_eq_str(m, "assessments.reorder")
        || chars_eq_str(m, "markset.settings.get")
        || chars_eq_str(m, "markset.settings.update")
}

/// The methods of the seating handlers.
pub open spec fn seating_method(m: Seq<char>) -> bool {
    m == "seating.get"@
        || m == "seating.save"@
}

fn is_seating_method(m: &[char]) -> (r: bool)
    ensures
        r == seating_method(m@),
{
    chars_eq_str(m, "seating.get")
        || chars_eq_str(m, "seating.save")
}

/// The methods of the reports handlers.
pub open spec fn reports_method(m: Seq<char>) -> bool {
    m == "calc.assessmentStats"@
        || m == "calc.markSetSummary"@
        || m == "reports.markSetSummaryModel"@
        || m == "reports.categoryAnalysisModel"@
        || m == "reports.studentSummaryModel"@
        || m == "reports.attendanceMonthlyModel"@
        || m == "reports.classListModel"@
        || m == "reports.learningSkillsSummaryModel"@
        || m == "reports.markSetGridModel"@
}

fn is_reports_method(m: &[char]) -> (r: bool)
    ensures
        r == reports_method(m@),
{
    chars_eq_str(m, "calc.assessmentStats")
        || chars_eq_str(m, "calc.markSetSummary")
        || chars_eq_str(m, "reports.markSetSummaryModel")
        || chars_eq_str(m, "reports.categoryAnalysisModel")
        || chars_eq_str(m, "reports.studentSummaryModel")
        || chars_eq_str(m, "reports.attendanceMonthlyModel")
        || chars_eq_str(m, "reports.classListModel")
        || chars_eq_str(m, "reports.learningSkillsSummaryModel")
        || chars_eq_str(m, "reports.markSetGridModel")
}

/// The methods of the integrations handlers.
pub open spec fn integrations_method(m: Seq<char>) -> bool {
    m == "integrations.sis.previewImport"@
        || m == "integrations.sis.applyImport"@
        || m == "integrations.sis.exportRoster"@
        || m == "integrations.sis.exportMarks"@
        || m == "integrations.adminTransfer.previewPackage"@
        || m == "integrations.adminTransfer.applyPackage"@
        || m == "integrations.adminTransfer.exportPackage"@
}

fn is_integrations_method(m: &[char]) -> (r: bool)
    ensures
        r == integrations_method(m@),
{
    chars_eq_str(m, "integrations.sis.previewImport")
        || chars_eq_str(m, "integrations.sis.applyImport")
        || chars_eq_str(m, "integrations.sis.exportRoster")
        || chars_eq_str(m, "integrations.sis.exportMarks")
        || chars_eq_str(m, "integrations.adminTransfer.previewPackage")
        || chars_eq_str(m, "integrations.adminTransfer.applyPackage")
        || chars_eq_str(m, "integrations.adminTransfer.exportPackage")
}

/// The methods of the planner handlers.
pub open spec fn planner_method(m: Seq<char>) -> bool {
    m == "planner.units.list"@
        || m == "planner.units.open"@
        || m == "planner.units.create"@
        || m == "planner.units.update"@
        || m == "planner.units.reorder"@
        || m == "planner.units.archive"@
        || m == "planner.units.clone"@
        || m == "planner.lessons.list"@
        || m == "planner.lessons.open"@
        || m == "planner.lessons.create"@
        || m == "planner.lessons.update"@
        || m == "planner.lessons.reorder"@
        || m == "planner.lessons.archive"@
        || m == "planner.lessons.copyForward"@
        || m == "planner.lessons.bulkAssignUnit"@
        || m == "planner.publish.list"@
        || m == "planner.publish.preview"@
        || m == "planner.publish.commit"@
        || m == "planner.publish.updateStatus"@
        || m == "courseDescription.getProfile"@
        || m == "courseDescription.updateProfile"@
        || m == "courseDescription.generateModel"@
        || m == "courseDescription.timeManagementModel"@
}

fn is_planner_method(m: &[char]) -> (r: bool)
    ensures
        r == planner_method(m@),
{
    chars_eq_str(m, "planner.units.list")
        || chars_eq_str(m, "planner.units.open")
        || chars_eq_str(m, "planner.units.create")
        || chars_eq_str(m, "planner.units.update")
        || chars_eq_str(m, "planner.units.reorder")
        || chars_eq_str(m, "planner.units.archive")
        || chars_eq_str(m, "planner.units.clone")
        || chars_eq_str(m, "planner.lessons.list")
        || chars_eq_str(m, "planner.lessons.open")
        || chars_eq_str(m, "planner.lessons.create")
        || chars_eq_str(m, "planner.lessons.update")
        || chars_eq_str(m, "planner.lessons.reorder")
        || chars_eq_str(m, "planner.lessons.archive")
        || chars_eq_str(m, "planner.lessons.copyForward")
        || chars_eq_str(m, "planner.lessons.bulkAssignUnit")
        || chars_eq_str(m, "planner.publish.list")
        || chars_eq_str(m, "planner.publish.preview")
        || chars_eq_str(m, "planner.publish.commit")
        || chars_eq_str(m, "planner.publish.updateStatus")
        || chars_eq_str(m, "courseDescription.getProfile")
        || chars_eq_str(m, "courseDescription.updateProfile")
        || chars_eq_str(m, "courseDescription.generateModel")
        || chars_eq_str(m, "courseDescription.timeManagementModel")
}

/// The methods of the setup handlers.
pub open spec fn setup_method(m: Seq<char>) -> bool {
    m == "setup.get"@
        || m == "setup.update"@
}

fn is_setup_method(m: &[char]) -> (r: bool)
    ensures
        r == setup_method(m@),
{
    chars_eq_str(m, "setup.get")
        || chars_eq_str(m, "setup.update")
}

/// The handlers that answer a method, where any does.
pub open spec fn handler_family(m: Seq<char>) -> Option<HandlerFamily> {
    if import_legacy_method(m) {
        Some(HandlerFamily::ImportLegacy)
    } else if students_method(m) {
        Some(HandlerFamily::Students)
    } else if markset_setup_method(m) {
        Some(HandlerFamily::MarksetSetup)
    } else if seating_method(m) {
        Some(HandlerFamily::Seating)
    } else if reports_method(m) {
        Some(HandlerFamily::Reports)
    } else if integrations_method(m) {
        Some(HandlerFamily::Integrations)
    } else if planner_method(m) {
        Some(HandlerFamily::Planner)
    } else if setup_method(m) {
        Some(HandlerFamily::Setup)
    } else {
        None
    }
}

/// The handlers that answer `method` (see `handler_family`); `None` for a
/// method that no handler knows.
pub fn route_method(method: &str) -> (r: Option<HandlerFamily>)
    ensures
        r == handler_family(method@),
{
    let m = chars_of(method);
    if is_import_legacy_method(m.as_slice()) {
        Some(HandlerFamily::ImportLegacy)
    } else if is_students_method(m.as_slice()) {
        Some(HandlerFamily::Students)
    } else if is_markset_setup_method(m.as_slice()) {
        Some(HandlerFamily::MarksetSetup)
    } else if is_seating_method(m.as_slice()) {
        Some(HandlerFamily::Seating)
    } else if is_reports_method(m.as_slice()) {
        Some(HandlerFamily::Reports)
    } else if is_integrations_method(m.as_slice()) {
        Some(HandlerFamily::Integrations)
    } else if is_planner_method(m.as_slice()) {
        Some(HandlerFamily::Planner)
    } else if is_setup_method(m.as_slice()) {
        Some(HandlerFamily::Setup)
    } else {
        None
    }
}

} // verus!
