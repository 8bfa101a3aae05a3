//! The course-description and time-management models of the planner: the
//! setup defaults they start from, the options that override them, and the
//! totals and lists they compute.
use vstd::prelude::*;
use crate::params::texts;
use crate::setup::{SectionValues, SettingModel, SettingValue};
use crate::text::{chars_eq, chars_of, lower, lower_chars, string_of_seq, trim, trim_chars};

verus! {

/// The course-description defaults of the setup.
#[derive(Clone, Copy, Debug, PartialEq, Eq, Structural)]
pub struct CourseSetupDefaults {
    pub default_period_minutes: i64,
    pub default_periods_per_week: i64,
    pub default_total_weeks: i64,
    pub include_policy_by_default: bool,
}

/// The planner defaults of the setup.
pub struct PlannerSetupDefaults {
    pub default_lesson_duration_minutes: i64,
    pub default_publish_status: String,
    pub show_archived_by_default: bool,
    pub default_unit_title_prefix: String,
}

/// A positive integer setting, or `d`.
pub open spec fn positive_or(m: Map<Seq<char>, SettingModel>, k: Seq<char>, d: i64) -> i64 {
    match m.get(k) {
        Some(SettingModel::Int(n)) => if n > 0 {
            n
        } else {
            d
        },
        _ => d,
    }
}

/// A boolean setting, or `d`.
pub open spec fn flag_or(m: Map<Seq<char>, SettingModel>, k: Seq<char>, d: bool) -> bool {
    match m.get(k) {
        Some(SettingModel::Bool(b)) => b,
        _ => d,
    }
}

fn positive_setting(m: &SectionValues, k: &str, d: i64) -> (r: i64)
    ensures
        r == positive_or(m@, k@, d),
{
    match m.get(k) {
        Some(SettingValue::Int(n)) => if *n > 0 {
            *n
        } else {
            d
        },
        _ => d,
    }
}

fn flag_setting(m: &SectionValues, k: &str, d: bool) -> (r: bool)
    ensures
        r == flag_or(m@, k@, d),
{
    match m.get(k) {
        Some(SettingValue::Bool(b)) => *b,
        _ => d,
    }
}

/// The course-description defaults from the saved setup section (an empty
/// one where none is saved): 75-minute periods, 5 a week, 36 weeks and the
/// policy included, each where the section has no valid value.
pub fn course_setup_defaults(saved: &SectionValues) -> (r: CourseSetupDefaults)
    ensures
        r.default_period_minutes == positive_or(saved@, "defaultPeriodMinutes"@, 75),
        r.default_periods_per_week == positive_or(saved@, "defaultPeriodsPerWeek"@, 5),
        r.default_total_weeks == positive_or(saved@, "defaultTotalWeeks"@, 36),
        r.include_policy_by_default == flag_or(saved@, "includePolicyByDefault"@, true),
{
    CourseSetupDefaults {
        default_period_minutes: positive_setting(saved, "defaultPeriodMinutes", 75),
        default_periods_per_week: positive_setting(saved, "defaultPeriodsPerWeek", 5),
        default_total_weeks: positive_setting(saved, "defaultTotalWeeks", 36),
        include_policy_by_default: flag_setting(saved, "includePolicyByDefault", true),
    }
}

/// The planner's publishing status from the setup: the saved text in lower
/// case where it is a status, else `draft`.
pub open spec fn publish_status_or_draft(m: Map<Seq<char>, SettingModel>) -> Seq<char> {
    match m.get("defaultPublishStatus"@) {
        Some(SettingModel::Text(s)) => if lower(s) == "draft"@ || lower(s) == "published"@ || lower(s)
            == "archived"@ {
            lower(s)
        } else {
            "draft"@
        },
        _ => "draft"@,
    }
}

/// The planner's unit title prefix from the setup: the saved text trimmed
/// where that leaves something, else `Unit`.
pub open spec fn unit_prefix_or_default(m: Map<Seq<char>, SettingModel>) -> Seq<char> {
    match m.get("defaultUnitTitlePrefix"@) {
        Some(SettingModel::Text(s)) => if trim(s).len() > 0 {
            trim(s)
        } else {
            "Unit"@
        },
        _ => "Unit"@,
    }
}

/// The planner defaults from the saved setup section (an empty one where
/// none is saved): 75-minute lessons, status `draft`, archived items
/// hidden and units titled `Unit`, each where the section has no valid
/// value.
pub fn planner_setup_defaults(saved: &SectionValues) -> (r: PlannerSetupDefaults)
    ensures
        r.default_lesson_duration_minutes == positive_or(saved@, "defaultLessonDurationMinutes"@, 75),
        r.default_publish_status@ == publish_status_or_draft(saved@),
        r.show_archived_by_default == flag_or(saved@, "showArchivedByDefault"@, false),
        r.default_unit_title_prefix@ == unit_prefix_or_default(saved@),
{
    let status = match saved.get("defaultPublishStatus") {
        Some(SettingValue::Text(s)) => {
            let l = lower_chars(chars_of(s.as_str()).as_slice());
            let ls = string_of_seq(&l);
            if crate::params::validate_publish_status(ls.as_str()) {
                ls
            } else {
                String::from_str("draft")
            }
        },
        _ => String::from_str("draft"),
    };
    let prefix = match saved.get("defaultUnitTitlePrefix") {
        Some(SettingValue::Text(s)) => {
            let t = trim_chars(chars_of(s.as_str()).as_slice());
            if t.len() > 0 {
                string_of_seq(&t)
            } else {
                String::from_str("Unit")
            }
        },
        _ => String::from_str("Unit"),
    };
    PlannerSetupDefaults {
        default_lesson_duration_minutes: positive_setting(saved, "defaultLessonDurationMinutes", 75),
        default_publish_status: status,
        show_archived_by_default: flag_setting(saved, "showArchivedByDefault", false),
        default_unit_title_prefix: prefix,
    }
}

// ---------------------------------------------------------------------------
// Options of a course model
// ---------------------------------------------------------------------------

/// Where a resolved value comes from.
#[derive(Clone, Copy, Debug, PartialEq, Eq, Structural)]
pub enum ValueSource {
    Profile,
    SetupDefault,
    Options,
}

impl ValueSource {
    /// The source's name.
    pub fn as_str(self) -> (r: &'static str)
        ensures
            r@ == match self {
                ValueSource::Profile => "profile"@,
                ValueSource::SetupDefault => "setupDefault"@,
                ValueSource::Options => "options"@,
            },
    {
        match self {
            ValueSource::Profile => "profile",
            ValueSource::SetupDefault => "setupDefault",
            ValueSource::Options => "options",
        }
    }
}

/// The schedule a course profile records.
#[derive(Clone, Copy, Debug, PartialEq, Eq, Structural)]
pub struct ProfileSchedule {
    pub period_minutes: Option<i64>,
    pub periods_per_week: Option<i64>,
    pub total_weeks: Option<i64>,
}

/// The resolved options of a course model and where the schedule and the
/// policy choice come from.
#[derive(Clone, Copy, Debug, PartialEq, Eq, Structural)]
pub struct CourseOptions {
    pub period_minutes: i64,
    pub periods_per_week: i64,
    pub total_weeks: i64,
    pub include_policy: bool,
    pub include_strands: bool,
    pub include_assessment_plan: bool,
    pub include_resources: bool,
    pub include_archived: bool,
    pub period_minutes_source: ValueSource,
    pub periods_per_week_source: ValueSource,
    pub total_weeks_source: ValueSource,
    pub include_policy_source: ValueSource,
}

/// A profile value where it is above 0, else the setup default.
pub open spec fn from_profile(p: Option<i64>, d: i64) -> (i64, ValueSource) {
    match p {
        Some(n) => if n > 0 {
            (n, ValueSource::Profile)
        } else {
            (d, ValueSource::SetupDefault)
        },
        None => (d, ValueSource::SetupDefault),
    }
}

/// An integer option where the options give one; a refusal where they
/// give anything else.
pub open spec fn int_option(
    opts: Option<Map<Seq<char>, SettingModel>>,
    k: Seq<char>,
    current: (i64, ValueSource),
) -> Result<(i64, ValueSource), Seq<char>> {
    match opts {
        Some(m) => match m.get(k) {
            None => Ok(current),
            Some(SettingModel::Int(n)) => Ok((n, ValueSource::Options)),
            Some(_) => Err("options."@ + k + " must be integer"@),
        },
        None => Ok(current),
    }
}

/// A boolean option where the options give one; a refusal where they give
/// anything else.
pub open spec fn bool_option(opts: Option<Map<Seq<char>, SettingModel>>, k: Seq<char>, current: bool) -> Result<
    bool,
    Seq<char>,
> {
    match opts {
        Some(m) => match m.get(k) {
            None => Ok(current),
            Some(SettingModel::Bool(b)) => Ok(b),
            Some(_) => Err("options."@ + k + " must be boolean"@),
        },
        None => Ok(current),
    }
}

/// The options of a course model: the schedule from the profile where its
/// values are above 0, else from the setup defaults; the policy choice from
/// the setup; strands, assessment plan and resources included and archived
/// items left out; then each option given overrides, checked in the order
/// period minutes, periods per week, total weeks, policy, strands,
/// assessment plan, resources, archived. The schedule must end above 0.
pub open spec fn course_options(
    profile: ProfileSchedule,
    defaults: CourseSetupDefaults,
    opts: Option<Map<Seq<char>, SettingModel>>,
) -> Result<CourseOptions, Seq<char>> {
    let pm0 = from_profile(profile.period_minutes, defaults.default_period_minutes);
    let pw0 = from_profile(profile.periods_per_week, defaults.default_periods_per_week);
    let tw0 = from_profile(profile.total_weeks, defaults.default_total_weeks);
    match int_option(opts, "periodMinutes"@, pm0) {
        Err(e) => Err(e),
        Ok(pm) => match int_option(opts, "periodsPerWeek"@, pw0) {
            Err(e) => Err(e),
            Ok(pw) => match int_option(opts, "totalWeeks"@, tw0) {
                Err(e) => Err(e),
                Ok(tw) => match bool_option(opts, "includePolicy"@, defaults.include_policy_by_default) {
                    Err(e) => Err(e),
                    Ok(policy) => match bool_option(opts, "includeStrands"@, true) {
                        Err(e) => Err(e),
                        Ok(strands) => match bool_option(opts, "includeAssessmentPlan"@, true) {
                            Err(e) => Err(e),
                            Ok(plan) => match bool_option(opts, "includeResources"@, true) {
                                Err(e) => Err(e),
                                Ok(resources) => match bool_option(opts, "includeArchived"@, false) {
                                    Err(e) => Err(e),
                                    Ok(archived) => if pm.0 <= 0 || pw.0 <= 0 || tw.0 <= 0 {
                                        Err("periodMinutes, periodsPerWeek, totalWeeks must all be > 0"@)
                                    } else {
                                        Ok(
                                            CourseOptions {
                                                period_minutes: pm.0,
                                                periods_per_week: pw.0,
                                                total_weeks: tw.0,
                                                include_policy: policy,
                                                include_strands: strands,
                                                include_assessment_plan: plan,
                                                include_resources: resources,
                                                include_archived: archived,
                                                period_minutes_source: pm.1,
                                                periods_per_week_source: pw.1,
                                                total_weeks_source: tw.1,
                                                include_policy_source: match opts {
                                                    Some(m) => if m.contains_key("includePolicy"@) {
                                                        ValueSource::Options
                                                    } else {
                                                        ValueSource::SetupDefault
                                                    },
                                                    None => ValueSource::SetupDefault,
                                                },
                                            },
                                        )
                                    },
                                },
                            },
                        },
                    },
                },
            },
        },
    }
}

fn profile_value(p: Option<i64>, d: i64) -> (r: (i64, ValueSource))
    ensures
        r == from_profile(p, d),
{
    match p {
        Some(n) => if n > 0 {
            (n, ValueSource::Profile)
        } else {
            (d, ValueSource::SetupDefault)
        },
        None => (d, ValueSource::SetupDefault),
    }
}

fn option_message(k: &str, tail: &str) -> (r: String)
    ensures
        r@ == "options."@ + k@ + tail@,
{
    let mut out = chars_of("options.");
    crate::text::append_chars(&mut out, chars_of(k).as_slice());
    crate::text::append_chars(&mut out, chars_of(tail).as_slice());
    string_of_seq(&out)
}

pub open spec fn opts_view(o: Option<&SectionValues>) -> Option<Map<Seq<char>, SettingModel>> {
    match o {
        Some(m) => Some(m@),
        None => None,
    }
}

fn int_option_of(opts: Option<&SectionValues>, k: &str, current: (i64, ValueSource)) -> (r: Result<
    (i64, ValueSource),
    String,
>)
    ensures
        match r {
            Ok(x) => int_option(opts_view(opts), k@, current) == Ok::<(i64, ValueSource), Seq<char>>(x),
            Err(e) => int_option(opts_view(opts), k@, current) == Err::<(i64, ValueSource), Seq<char>>(e@),
        },
{
    match opts {
        Some(m) => match m.get(k) {
            None => Ok(current),
            Some(SettingValue::Int(n)) => Ok((*n, ValueSource::Options)),
            Some(_) => Err(option_message(k, " must be integer")),
        },
        None => Ok(current),
    }
}

fn bool_option_of(opts: Option<&SectionValues>, k: &str, current: bool) -> (r: Result<bool, String>)
    ensures
        match r {
            Ok(x) => bool_option(opts_view(opts), k@, current) == Ok::<bool, Seq<char>>(x),
            Err(e) => bool_option(opts_view(opts), k@, current) == Err::<bool, Seq<char>>(e@),
        },
{
    match opts {
        Some(m) => match m.get(k) {
            None => Ok(current),
            Some(SettingValue::Bool(b)) => Ok(*b),
            Some(_) => Err(option_message(k, " must be boolean")),
        },
        None => Ok(current),
    }
}

/// The options of a course model (see `course_options`).
pub fn resolve_course_description_options(
    profile: ProfileSchedule,
    defaults: CourseSetupDefaults,
    options: Option<&SectionValues>,
) -> (r: Result<CourseOptions, String>)
    ensures
        match r {
            Ok(o) => course_options(profile, defaults, opts_view(options)) == Ok::<CourseOptions, Seq<char>>(o),
            Err(e) => course_options(profile, defaults, opts_view(options)) == Err::<CourseOptions, Seq<char>>(e@),
        },
{
    let pm0 = profile_value(profile.period_minutes, defaults.default_period_minutes);
    let pw0 = profile_value(profile.periods_per_week, defaults.default_periods_per_week);
    let tw0 = profile_value(profile.total_weeks, defaults.default_total_weeks);
    let pm = int_option_of(options, "periodMinutes", pm0)?;
    let pw = int_option_of(options, "periodsPerWeek", pw0)?;
    let tw = int_option_of(options, "totalWeeks", tw0)?;
    let policy = bool_option_of(options, "includePolicy", defaults.include_policy_by_default)?;
    let strands = bool_option_of(options, "includeStrands", true)?;
    let plan = bool_option_of(options, "includeAssessmentPlan", true)?;
    let resources = bool_option_of(options, "includeResources", true)?;
    let archived = bool_option_of(options, "includeArchived", false)?;
    if pm.0 <= 0 || pw.0 <= 0 || tw.0 <= 0 {
        return Err(String::from_str("periodMinutes, periodsPerWeek, totalWeeks must all be > 0"));
    }
    let policy_source = match options {
        Some(m) => match m.get("includePolicy") {
            Some(_) => ValueSource::Options,
            None => ValueSource::SetupDefault,
        },
        None => ValueSource::SetupDefault,
    };
    Ok(
        CourseOptions {
            period_minutes: pm.0,
            periods_per_week: pw.0,
            total_weeks: tw.0,
            include_policy: policy,
            include_strands: strands,
            include_assessment_plan: plan,
            include_resources: resources,
            include_archived: archived,
            period_minutes_source: pm.1,
            periods_per_week_source: pw.1,
            total_weeks_source: tw.1,
            include_policy_source: policy_source,
        },
    )
}

// ---------------------------------------------------------------------------
// Totals and lists of the models
// ---------------------------------------------------------------------------

/// The sum of the first `k` durations.
pub open spec fn sum_first(d: Seq<i64>, k: int) -> int
    decreases k,
{
    if k <= 0 {
        0
    } else {
        sum_first(d, k - 1) + d[k - 1]
    }
}

/// Whether every running sum of the durations fits `i64`.
pub open spec fn sums_fit(d: Seq<i64>) -> bool {
    forall|k: int| 0 <= k <= d.len() ==> i64::MIN <= #[trigger] sum_first(d, k) <= i64::MAX
}

/// The time a course plans and has: the lessons' minutes, the minutes of
/// all periods (`minutes * periods a week * weeks`) and what remains.
pub fn time_totals(durations: &Vec<i64>, period_minutes: i64, periods_per_week: i64, total_weeks: i64) -> (r: (
    i64,
    i64,
    i64,
))
    requires
        sums_fit(durations@),
        i64::MIN <= period_minutes * periods_per_week <= i64::MAX,
        i64::MIN <= period_minutes * periods_per_week * total_weeks <= i64::MAX,
        i64::MIN <= period_minutes * periods_per_week * total_weeks - sum_first(
            durations@,
            durations@.len() as int,
        ) <= i64::MAX,
    ensures
        r.0 == sum_first(durations@, durations@.len() as int),
        r.1 == period_minutes * periods_per_week * total_weeks,
        r.2 == r.1 - r.0,
{
    let mut planned: i64 = 0;
    let mut k: usize = 0;
    while k < durations.len()
        invariant
            k <= durations@.len(),
            sums_fit(durations@),
            planned == sum_first(durations@, k as int),
        decreases durations@.len() - k,
    {
        assert(i64::MIN <= sum_first(durations@, k + 1) <= i64::MAX);
        planned = planned + durations[k];
        k += 1;
    }
    let available = period_minutes * periods_per_week * total_weeks;
    (planned, available, available - planned)
}

/// The resources of the units, trimmed, in order, each once, blank ones
/// left out.
pub open spec fn distinct_resources(items: Seq<Seq<char>>) -> Seq<Seq<char>>
    decreases items.len(),
{
    if items.len() == 0 {
        Seq::empty()
    } else {
        let prev = distinct_resources(items.drop_last());
        let t = trim(items.last());
        if t.len() > 0 && !prev.contains(t) {
            prev.push(t)
        } else {
            prev
        }
    }
}

pub open spec fn unit_resources(units: Seq<Vec<String>>) -> Seq<Seq<char>> {
    units.map_values(|u: Vec<String>| texts(u@)).flatten()
}

/// The resources of a course's units (see `distinct_resources`).
pub fn course_resources(units: &Vec<Vec<String>>) -> (r: Vec<String>)
    ensures
        texts(r@) == distinct_resources(unit_resources(units@)),
{
    let mut all: Vec<String> = Vec::new();
    let mut u: usize = 0;
    let ghost uv = units@.map_values(|u: Vec<String>| texts(u@));
    assert(uv.take(0).flatten() =~= Seq::<Seq<char>>::empty());
    assert(texts(all@) =~= Seq::<Seq<char>>::empty());
    while u < units.len()
        invariant
            u <= units@.len(),
            uv == units@.map_values(|u: Vec<String>| texts(u@)),
            texts(all@) == uv.take(u as int).flatten(),
        decreases units@.len() - u,
    {
        let unit = &units[u];
        let ghost start = texts(all@);
        let mut i: usize = 0;
        while i < unit.len()
            invariant
                i <= unit@.len(),
                texts(all@) == start + texts(unit@).take(i as int),
            decreases unit@.len() - i,
        {
            let ghost before = texts(all@);
            all.push(unit[i].clone());
            assert(texts(all@) == before.push(unit@[i as int]@));
            assert(texts(unit@).take(i + 1) == texts(unit@).take(i as int).push(unit@[i as int]@));
            i += 1;
        }
        assert(texts(unit@).take(unit@.len() as int) == texts(unit@));
        proof {
            assert(uv.take(u + 1) == uv.take(u as int).push(uv[u as int]));
            uv.take(u as int).lemma_flatten_push(uv[u as int]);
        }
        u += 1;
    }
    assert(uv.take(units@.len() as int) == uv);
    let ghost flat = texts(all@);
    let mut out: Vec<String> = Vec::new();
    let mut k: usize = 0;
    assert(flat.take(0) =~= Seq::<Seq<char>>::empty());
    assert(texts(out@) =~= Seq::<Seq<char>>::empty());
    while k < all.len()
        invariant
            k <= all@.len(),
            flat == texts(all@),
            texts(out@) == distinct_resources(flat.take(k as int)),
        decreases all@.len() - k,
    {
        assert(flat.take(k + 1).drop_last() == flat.take(k as int));
        let t = trim_chars(chars_of(all[k].as_str()).as_slice());
        if t.len() > 0 && !contains_text(&out, &t) {
            let ghost before = texts(out@);
            out.push(string_of_seq(&t));
            assert(texts(out@) == before.push(t@));
        }
        k += 1;
    }
    assert(flat.take(all@.len() as int) == flat);
    out
}

fn contains_text(v: &Vec<String>, s: &Vec<char>) -> (r: bool)
    ensures
        r == texts(v@).contains(s@),
{
    let mut i: usize = 0;
    while i < v.len()
        invariant
            i <= v@.len(),
            forall|j: int| 0 <= j < i ==> v@[j]@ != s@,
        decreases v@.len() - i,
    {
        if chars_eq(chars_of(v[i].as_str()).as_slice(), s.as_slice()) {
            assert(texts(v@)[i as int] == s@);
            return true;
        }
        i += 1;
    }
    assert(!texts(v@).contains(s@)) by {
        if texts(v@).contains(s@) {
            let j = choose|j: int| 0 <= j < texts(v@).len() && texts(v@)[j] == s@;
            assert(v@[j]@ == s@);
        }
    }
    false
}

/// The title of a course model: the profile's title trimmed, or the class
/// name where that is blank.
pub fn course_title(profile_title: Option<&str>, class_name: &str) -> (r: String)
    ensures
        r@ == match profile_title {
            Some(t) => if trim(t@).len() > 0 {
                trim(t@)
            } else {
                class_name@
            },
            None => class_name@,
        },
{
    match profile_title {
        Some(t) => {
            let tt = trim_chars(chars_of(t).as_slice());
            if tt.len() > 0 {
                string_of_seq(&tt)
            } else {
                String::from_str(class_name)
            }
        },
        None => String::from_str(class_name),
    }
}

/// The resources of a course model are distinct, and none is blank.
pub proof fn law_resources_distinct(items: Seq<Seq<char>>)
    ensures
        forall|i: int, j: int|
            0 <= i < j < distinct_resources(items).len() ==> distinct_resources(items)[i]
                != distinct_resources(items)[j],
        forall|i: int| 0 <= i < distinct_resources(items).len() ==> #[trigger] distinct_resources(items)[i].len() > 0,
    decreases items.len(),
{
    if items.len() > 0 {
        law_resources_distinct(items.drop_last());
        let prev = distinct_resources(items.drop_last());
        let cur = distinct_resources(items);
        if cur.len() > prev.len() {
            assert(cur == prev.push(cur.last()));
            assert(!prev.contains(cur.last()));
            assert forall|i: int, j: int| 0 <= i < j < cur.len() implies cur[i] != cur[j] by {
                if j == prev.len() {
                    assert(cur[i] == prev[i]);
                    if cur[i] == cur[j] {
                        assert(prev.contains(cur.last()));
                    }
                } else {
                    assert(cur[i] == prev[i] && cur[j] == prev[j]);
                }
            }
            assert forall|i: int| 0 <= i < cur.len() implies #[trigger] cur[i].len() > 0 by {
                if i < prev.len() {
                    assert(cur[i] == prev[i]);
                }
            }
        } else {
            assert(cur == prev);
        }
    }
}

} // verus!
