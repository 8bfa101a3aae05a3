//! Merging the students of a legacy class file into a class that already
//! has students: which incoming student updates which student of the
//! class, which ones are new, which ones match ambiguously, and the order
//! of the class afterwards.
use vstd::prelude::*;
use crate::keys::{key_of, name_key, normalize_opt_key, student_name_key};
use crate::params::opt_view;
use crate::text::{chars_eq, chars_of, upper, upper_chars};

verus! {

/// A student as the matching sees them: names and student number.
pub struct MergeStudent {
    pub last_name: String,
    pub first_name: String,
    pub student_no: Option<String>,
}

pub struct MergeStudentModel {
    pub last_name: Seq<char>,
    pub first_name: Seq<char>,
    pub student_no: Option<Seq<char>>,
}

impl View for MergeStudent {
    type V = MergeStudentModel;

    open spec fn view(&self) -> MergeStudentModel {
        MergeStudentModel {
            last_name: self.last_name@,
            first_name: self.first_name@,
            student_no: opt_view(self.student_no),
        }
    }
}

pub open spec fn students_view(v: Seq<MergeStudent>) -> Seq<MergeStudentModel> {
    v.map_values(|s: MergeStudent| s@)
}

/// What happens to an incoming student.
#[derive(Debug, PartialEq, Eq)]
pub enum MergeAction {
    /// It updates the class's student at this position.
    Update(usize),
    /// It is added as a new student.
    Create,
    /// It is skipped: these students of the class could each be it.
    Ambiguous(Vec<usize>),
}

pub enum MergeActionModel {
    Update(int),
    Create,
    Ambiguous(Seq<int>),
}

pub open spec fn positions_view(v: Seq<usize>) -> Seq<int> {
    v.map_values(|i: usize| i as int)
}

impl View for MergeAction {
    type V = MergeActionModel;

    open spec fn view(&self) -> MergeActionModel {
        match self {
            MergeAction::Update(t) => MergeActionModel::Update(*t as int),
            MergeAction::Create => MergeActionModel::Create,
            MergeAction::Ambiguous(c) => MergeActionModel::Ambiguous(positions_view(c@)),
        }
    }
}

/// A place in the class's order after the merge.
#[derive(Clone, Copy, Debug, PartialEq, Eq, Structural)]
pub enum OrderSlot {
    /// The class's student at this position.
    Existing(usize),
    /// The incoming student at this position, added as new.
    Incoming(usize),
}

pub enum SlotModel {
    Existing(int),
    Incoming(int),
}

impl View for OrderSlot {
    type V = SlotModel;

    open spec fn view(&self) -> SlotModel {
        match self {
            OrderSlot::Existing(t) => SlotModel::Existing(*t as int),
            OrderSlot::Incoming(j) => SlotModel::Incoming(*j as int),
        }
    }
}

/// The key of a student's number, where it has one that is not blank.
pub open spec fn number_key(s: MergeStudentModel) -> Option<Seq<char>> {
    match s.student_no {
        Some(n) => if key_of(n).len() > 0 {
            Some(key_of(n))
        } else {
            None
        },
        None => None,
    }
}

/// The positions, in order, of the students whose number has key `k`.
pub open spec fn with_number(ts: Seq<MergeStudentModel>, k: Seq<char>) -> Seq<int>
    decreases ts.len(),
{
    if ts.len() == 0 {
        Seq::empty()
    } else {
        let p = with_number(ts.drop_last(), k);
        if number_key(ts.last()) == Some(k) {
            p.push(ts.len() - 1)
        } else {
            p
        }
    }
}

/// The positions, in order, of the students whose name has key `k`.
pub open spec fn with_name(ts: Seq<MergeStudentModel>, k: Seq<char>) -> Seq<int>
    decreases ts.len(),
{
    if ts.len() == 0 {
        Seq::empty()
    } else {
        let p = with_name(ts.drop_last(), k);
        if name_key(ts.last().last_name, ts.last().first_name) == k {
            p.push(ts.len() - 1)
        } else {
            p
        }
    }
}

/// Of the candidates: the one to update where there is exactly one and it
/// is not taken yet; else no match, and the candidates that make the match
/// ambiguous (none where there is no candidate).
pub open spec fn pick_target(ids: Seq<int>, used: Set<int>) -> (Option<int>, Seq<int>) {
    if ids.len() > 1 {
        (None, ids)
    } else if ids.len() == 1 {
        if used.contains(ids[0]) {
            (None, ids)
        } else {
            (Some(ids[0]), Seq::empty())
        }
    } else {
        (None, Seq::empty())
    }
}

/// What happens to incoming student `s` when the students at `used` are
/// taken: matched by number first, then, where the number decides nothing,
/// by name.
pub open spec fn merge_action(ts: Seq<MergeStudentModel>, s: MergeStudentModel, used: Set<int>) -> MergeActionModel {
    let first = match number_key(s) {
        Some(k) => pick_target(with_number(ts, k), used),
        None => (None, Seq::empty()),
    };
    let second = if first.0 is None && first.1.len() == 0 {
        pick_target(with_name(ts, name_key(s.last_name, s.first_name)), used)
    } else {
        first
    };
    if second.1.len() > 0 {
        MergeActionModel::Ambiguous(second.1)
    } else {
        match second.0 {
            Some(t) => MergeActionModel::Update(t),
            None => MergeActionModel::Create,
        }
    }
}

pub open spec fn used_after(a: MergeActionModel, used: Set<int>) -> Set<int> {
    match a {
        MergeActionModel::Update(t) => used.insert(t),
        _ => used,
    }
}

/// The actions for the incoming students, in order, and the students of
/// the class they take.
pub open spec fn merge_actions(ts: Seq<MergeStudentModel>, ss: Seq<MergeStudentModel>) -> (
    Seq<MergeActionModel>,
    Set<int>,
)
    decreases ss.len(),
{
    if ss.len() == 0 {
        (Seq::empty(), Set::empty())
    } else {
        let (p, u) = merge_actions(ts, ss.drop_last());
        let a = merge_action(ts, ss.last(), u);
        (p.push(a), used_after(a, u))
    }
}

/// The places of the incoming students in the new order: the student each
/// updates, or itself where it is new; skipped ones have none.
pub open spec fn action_slots(acts: Seq<MergeActionModel>) -> Seq<SlotModel>
    decreases acts.len(),
{
    if acts.len() == 0 {
        Seq::empty()
    } else {
        let p = action_slots(acts.drop_last());
        match acts.last() {
            MergeActionModel::Update(t) => p.push(SlotModel::Existing(t)),
            MergeActionModel::Create => p.push(SlotModel::Incoming(acts.len() - 1)),
            MergeActionModel::Ambiguous(_) => p,
        }
    }
}

/// The positions below `n` that are not taken, in order.
pub open spec fn untaken(n: nat, used: Set<int>) -> Seq<int>
    decreases n,
{
    if n == 0 {
        Seq::empty()
    } else {
        let p = untaken((n - 1) as nat, used);
        if used.contains(n - 1) {
            p
        } else {
            p.push(n - 1)
        }
    }
}

/// The order of the class after the merge: the incoming students in their
/// order (each where it updates a student, as that student), then the
/// students of the class that none updates, in their order.
pub open spec fn merge_order(ts: Seq<MergeStudentModel>, ss: Seq<MergeStudentModel>) -> Seq<SlotModel> {
    let (acts, used) = merge_actions(ts, ss);
    action_slots(acts) + untaken(ts.len(), used).map_values(|t: int| SlotModel::Existing(t))
}

pub open spec fn count_updates(acts: Seq<MergeActionModel>) -> nat
    decreases acts.len(),
{
    if acts.len() == 0 {
        0
    } else {
        count_updates(acts.drop_last()) + if acts.last() is Update {
            1nat
        } else {
            0nat
        }
    }
}

pub open spec fn count_creates(acts: Seq<MergeActionModel>) -> nat
    decreases acts.len(),
{
    if acts.len() == 0 {
        0
    } else {
        count_creates(acts.drop_last()) + if acts.last() is Create {
            1nat
        } else {
            0nat
        }
    }
}

pub open spec fn count_ambiguous(acts: Seq<MergeActionModel>) -> nat
    decreases acts.len(),
{
    if acts.len() == 0 {
        0
    } else {
        count_ambiguous(acts.drop_last()) + if acts.last() is Ambiguous {
            1nat
        } else {
            0nat
        }
    }
}

/// The plan of a merge and its counts.
pub struct StudentMergePlan {
    pub actions: Vec<MergeAction>,
    pub order: Vec<OrderSlot>,
    pub matched: usize,
    pub created: usize,
    pub ambiguous: usize,
    pub local_only: usize,
}

pub open spec fn actions_view(v: Seq<MergeAction>) -> Seq<MergeActionModel> {
    v.map_values(|a: MergeAction| a@)
}

pub open spec fn slots_view(v: Seq<OrderSlot>) -> Seq<SlotModel> {
    v.map_values(|s: OrderSlot| s@)
}

proof fn lemma_with_number_bounds(ts: Seq<MergeStudentModel>, k: Seq<char>)
    ensures
        forall|j: int| 0 <= j < with_number(ts, k).len() ==> 0 <= #[trigger] with_number(ts, k)[j] < ts.len(),
    decreases ts.len(),
{
    if ts.len() > 0 {
        lemma_with_number_bounds(ts.drop_last(), k);
        let p = with_number(ts.drop_last(), k);
        let w = with_number(ts, k);
        assert forall|j: int| 0 <= j < w.len() implies 0 <= #[trigger] w[j] < ts.len() by {
            if j < p.len() {
                assert(w[j] == p[j]);
            }
        }
    }
}

proof fn lemma_with_name_bounds(ts: Seq<MergeStudentModel>, k: Seq<char>)
    ensures
        forall|j: int| 0 <= j < with_name(ts, k).len() ==> 0 <= #[trigger] with_name(ts, k)[j] < ts.len(),
    decreases ts.len(),
{
    if ts.len() > 0 {
        lemma_with_name_bounds(ts.drop_last(), k);
        let p = with_name(ts.drop_last(), k);
        let w = with_name(ts, k);
        assert forall|j: int| 0 <= j < w.len() implies 0 <= #[trigger] w[j] < ts.len() by {
            if j < p.len() {
                assert(w[j] == p[j]);
            }
        }
    }
}

/// The positions of the students whose number key is `k`.
fn number_positions(nkeys: &Vec<Option<String>>, k: &[char], Ghost(tv): Ghost<Seq<MergeStudentModel>>) -> (r: Vec<usize>)
    requires
        nkeys@.len() == tv.len(),
        forall|i: int| 0 <= i < tv.len() ==> opt_view(#[trigger] nkeys@[i]) == number_key(tv[i]),
    ensures
        positions_view(r@) == with_number(tv, k@),
{
    let mut out: Vec<usize> = Vec::new();
    let mut i: usize = 0;
    assert(tv.take(0) =~= Seq::<MergeStudentModel>::empty());
    assert(positions_view(out@) =~= Seq::<int>::empty());
    while i < nkeys.len()
        invariant
            i <= nkeys@.len() == tv.len(),
            forall|q: int| 0 <= q < tv.len() ==> opt_view(#[trigger] nkeys@[q]) == number_key(tv[q]),
            positions_view(out@) == with_number(tv.take(i as int), k@),
        decreases nkeys@.len() - i,
    {
        assert(tv.take(i + 1).drop_last() =~= tv.take(i as int));
        assert(tv.take(i + 1).last() == tv[i as int]);
        assert(opt_view(nkeys@[i as int]) == number_key(tv[i as int]));
        let hit = match &nkeys[i] {
            Some(x) => chars_eq(chars_of(x.as_str()).as_slice(), k),
            None => false,
        };
        if hit {
            let ghost before = out@;
            out.push(i);
            assert(positions_view(out@) =~= positions_view(before).push(i as int));
        }
        i += 1;
    }
    assert(tv.take(tv.len() as int) =~= tv);
    out
}

/// The positions of the students whose name key is `k`.
fn name_positions(keys: &Vec<String>, k: &[char], Ghost(tv): Ghost<Seq<MergeStudentModel>>) -> (r: Vec<usize>)
    requires
        keys@.len() == tv.len(),
        forall|i: int| 0 <= i < tv.len() ==> (#[trigger] keys@[i])@ == name_key(tv[i].last_name, tv[i].first_name),
    ensures
        positions_view(r@) == with_name(tv, k@),
{
    let mut out: Vec<usize> = Vec::new();
    let mut i: usize = 0;
    assert(tv.take(0) =~= Seq::<MergeStudentModel>::empty());
    assert(positions_view(out@) =~= Seq::<int>::empty());
    while i < keys.len()
        invariant
            i <= keys@.len() == tv.len(),
            forall|q: int| 0 <= q < tv.len() ==> (#[trigger] keys@[q])@ == name_key(tv[q].last_name, tv[q].first_name),
            positions_view(out@) == with_name(tv.take(i as int), k@),
        decreases keys@.len() - i,
    {
        assert(tv.take(i + 1).drop_last() =~= tv.take(i as int));
        assert(tv.take(i + 1).last() == tv[i as int]);
        assert(keys@[i as int]@ == name_key(tv[i as int].last_name, tv[i as int].first_name));
        if chars_eq(chars_of(keys[i].as_str()).as_slice(), k) {
            let ghost before = out@;
            out.push(i);
            assert(positions_view(out@) =~= positions_view(before).push(i as int));
        }
        i += 1;
    }
    assert(tv.take(tv.len() as int) =~= tv);
    out
}

pub open spec fn opt_pos(o: Option<usize>) -> Option<int> {
    match o {
        Some(i) => Some(i as int),
        None => None,
    }
}

/// Whether the taken marks agree with the set of taken positions.
pub open spec fn marks_taken(taken: Seq<bool>, used: Set<int>) -> bool {
    &&& forall|i: int| 0 <= i < taken.len() ==> (#[trigger] taken[i] <==> used.contains(i))
    &&& forall|i: int| #[trigger] used.contains(i) ==> 0 <= i < taken.len()
}

fn pick(ids: Vec<usize>, taken: &Vec<bool>, Ghost(used): Ghost<Set<int>>) -> (r: (Option<usize>, Vec<usize>))
    requires
        marks_taken(taken@, used),
        forall|j: int| 0 <= j < ids@.len() ==> #[trigger] ids@[j] < taken@.len(),
    ensures
        (opt_pos(r.0), positions_view(r.1@)) == pick_target(positions_view(ids@), used),
        forall|j: int| 0 <= j < r.1@.len() ==> #[trigger] r.1@[j] < taken@.len(),
        r.0 matches Some(t) ==> t < taken@.len(),
{
    if ids.len() > 1 {
        (None, ids)
    } else if ids.len() == 1 {
        let id = ids[0];
        if taken[id] {
            (None, ids)
        } else {
            let e: Vec<usize> = Vec::new();
            assert(positions_view(e@) =~= Seq::<int>::empty());
            (Some(id), e)
        }
    } else {
        let e: Vec<usize> = Vec::new();
        assert(positions_view(e@) =~= Seq::<int>::empty());
        (None, e)
    }
}

/// What happens to incoming student `s` (see `merge_action`).
fn decide(
    nkeys: &Vec<Option<String>>,
    nmkeys: &Vec<String>,
    s: &MergeStudent,
    taken: &Vec<bool>,
    Ghost(tv): Ghost<Seq<MergeStudentModel>>,
    Ghost(used): Ghost<Set<int>>,
) -> (r: MergeAction)
    requires
        nkeys@.len() == tv.len() == nmkeys@.len() == taken@.len(),
        forall|i: int| 0 <= i < tv.len() ==> opt_view(#[trigger] nkeys@[i]) == number_key(tv[i]),
        forall|i: int| 0 <= i < tv.len() ==> (#[trigger] nmkeys@[i])@ == name_key(tv[i].last_name, tv[i].first_name),
        marks_taken(taken@, used),
    ensures
        r@ == merge_action(tv, s@, used),
        r matches MergeAction::Update(t) ==> t < tv.len(),
{
    let no_key = match &s.student_no {
        Some(n) => normalize_opt_key(Some(n.as_str())),
        None => None,
    };
    assert(opt_view(no_key) == number_key(s@));
    let first: (Option<usize>, Vec<usize>) = match &no_key {
        Some(k) => {
            let ids = number_positions(nkeys, chars_of(k.as_str()).as_slice(), Ghost(tv));
            proof {
                lemma_with_number_bounds(tv, k@);
                assert forall|j: int| 0 <= j < ids@.len() implies #[trigger] ids@[j] < taken@.len() by {
                    assert(positions_view(ids@)[j] == ids@[j] as int);
                }
            }
            pick(ids, taken, Ghost(used))
        },
        None => {
            let e: Vec<usize> = Vec::new();
            assert(positions_view(e@) =~= Seq::<int>::empty());
            (None, e)
        },
    };
    let second: (Option<usize>, Vec<usize>) = if first.0.is_none() && first.1.len() == 0 {
        let nk = student_name_key(s.last_name.as_str(), s.first_name.as_str());
        let ids = name_positions(nmkeys, chars_of(nk.as_str()).as_slice(), Ghost(tv));
        proof {
            lemma_with_name_bounds(tv, nk@);
            assert forall|j: int| 0 <= j < ids@.len() implies #[trigger] ids@[j] < taken@.len() by {
                assert(positions_view(ids@)[j] == ids@[j] as int);
            }
        }
        pick(ids, taken, Ghost(used))
    } else {
        first
    };
    if second.1.len() > 0 {
        MergeAction::Ambiguous(second.1)
    } else {
        match second.0 {
            Some(t) => MergeAction::Update(t),
            None => MergeAction::Create,
        }
    }
}

proof fn lemma_counts(acts: Seq<MergeActionModel>)
    ensures
        count_updates(acts) + count_creates(acts) + count_ambiguous(acts) == acts.len(),
    decreases acts.len(),
{
    if acts.len() > 0 {
        lemma_counts(acts.drop_last());
    }
}

/// The plan of merging the incoming students into the class's students
/// (both in their order): each incoming student's action, the class's
/// order afterwards, and how many are matched, new, skipped as ambiguous,
/// and left untouched in the class.
pub fn plan_student_merge(targets: &Vec<MergeStudent>, incoming: &Vec<MergeStudent>) -> (r: StudentMergePlan)
    ensures
        actions_view(r.actions@) == merge_actions(students_view(targets@), students_view(incoming@)).0,
        slots_view(r.order@) == merge_order(students_view(targets@), students_view(incoming@)),
        r.matched == count_updates(merge_actions(students_view(targets@), students_view(incoming@)).0),
        r.created == count_creates(merge_actions(students_view(targets@), students_view(incoming@)).0),
        r.ambiguous == count_ambiguous(merge_actions(students_view(targets@), students_view(incoming@)).0),
        r.local_only == untaken(
            targets@.len(),
            merge_actions(students_view(targets@), students_view(incoming@)).1,
        ).len(),
{
    let ghost tv = students_view(targets@);
    let ghost sv = students_view(incoming@);
    let n = targets.len();
    let mut nkeys: Vec<Option<String>> = Vec::new();
    let mut nmkeys: Vec<String> = Vec::new();
    let mut taken: Vec<bool> = Vec::new();
    let mut i: usize = 0;
    while i < n
        invariant
            i <= n == targets@.len() == tv.len(),
            tv == students_view(targets@),
            nkeys@.len() == i && nmkeys@.len() == i && taken@.len() == i,
            forall|q: int| 0 <= q < i ==> opt_view(#[trigger] nkeys@[q]) == number_key(tv[q]),
            forall|q: int| 0 <= q < i ==> (#[trigger] nmkeys@[q])@ == name_key(tv[q].last_name, tv[q].first_name),
            forall|q: int| 0 <= q < i ==> !(#[trigger] taken@[q]),
        decreases n - i,
    {
        let t = &targets[i];
        assert(tv[i as int] == t@);
        let k = match &t.student_no {
            Some(x) => normalize_opt_key(Some(x.as_str())),
            None => None,
        };
        nkeys.push(k);
        nmkeys.push(student_name_key(t.last_name.as_str(), t.first_name.as_str()));
        taken.push(false);
        i += 1;
    }
    assert(marks_taken(taken@, Set::<int>::empty()));
    let mut actions: Vec<MergeAction> = Vec::new();
    let mut order: Vec<OrderSlot> = Vec::new();
    let mut matched: usize = 0;
    let mut created: usize = 0;
    let mut ambiguous: usize = 0;
    let ghost mut used: Set<int> = Set::empty();
    let mut j: usize = 0;
    assert(sv.take(0) =~= Seq::<MergeStudentModel>::empty());
    assert(actions_view(actions@) =~= Seq::<MergeActionModel>::empty());
    assert(slots_view(order@) =~= Seq::<SlotModel>::empty());
    while j < incoming.len()
        invariant
            j <= incoming@.len() == sv.len(),
            sv == students_view(incoming@),
            tv == students_view(targets@),
            n == tv.len(),
            nkeys@.len() == n && nmkeys@.len() == n && taken@.len() == n,
            forall|q: int| 0 <= q < n ==> opt_view(#[trigger] nkeys@[q]) == number_key(tv[q]),
            forall|q: int| 0 <= q < n ==> (#[trigger] nmkeys@[q])@ == name_key(tv[q].last_name, tv[q].first_name),
            marks_taken(taken@, used),
            (actions_view(actions@), used) == merge_actions(tv, sv.take(j as int)),
            slots_view(order@) == action_slots(actions_view(actions@)),
            matched == count_updates(actions_view(actions@)),
            created == count_creates(actions_view(actions@)),
            ambiguous == count_ambiguous(actions_view(actions@)),
            actions@.len() == j,
        decreases incoming@.len() - j,
    {
        proof {
            lemma_counts(actions_view(actions@));
        }
        let s = &incoming[j];
        assert(sv[j as int] == s@);
        assert(sv.take(j + 1).drop_last() =~= sv.take(j as int));
        assert(sv.take(j + 1).last() == sv[j as int]);
        let a = decide(&nkeys, &nmkeys, s, &taken, Ghost(tv), Ghost(used));
        let ghost av = a@;
        let ghost before = actions_view(actions@);
        let ghost slots_before = slots_view(order@);
        match &a {
            MergeAction::Update(t) => {
                let t = *t;
                taken.set(t, true);
                order.push(OrderSlot::Existing(t));
                matched += 1;
            },
            MergeAction::Create => {
                order.push(OrderSlot::Incoming(j));
                created += 1;
            },
            MergeAction::Ambiguous(_) => {
                ambiguous += 1;
            },
        }
        actions.push(a);
        proof {
            used = used_after(av, used);
            assert(actions_view(actions@) =~= before.push(av));
            assert(before.push(av).drop_last() =~= before);
            match av {
                MergeActionModel::Update(t) => {
                    assert(slots_view(order@) =~= slots_before.push(SlotModel::Existing(t)));
                },
                MergeActionModel::Create => {
                    assert(slots_view(order@) =~= slots_before.push(SlotModel::Incoming(j as int)));
                },
                MergeActionModel::Ambiguous(_) => {
                    assert(slots_view(order@) =~= slots_before);
                },
            }
        }
        j += 1;
    }
    assert(sv.take(sv.len() as int) =~= sv);
    let ghost slots_a = slots_view(order@);
    let mut local_only: usize = 0;
    let mut t: usize = 0;
    assert(untaken(0, used).map_values(|x: int| SlotModel::Existing(x)) =~= Seq::<SlotModel>::empty());
    assert(slots_a + Seq::<SlotModel>::empty() =~= slots_a);
    while t < n
        invariant
            t <= n == taken@.len(),
            marks_taken(taken@, used),
            slots_view(order@) == slots_a + untaken(t as nat, used).map_values(|x: int| SlotModel::Existing(x)),
            local_only == untaken(t as nat, used).len(),
            local_only <= t,
        decreases n - t,
    {
        let ghost prev = untaken(t as nat, used);
        let ghost before = slots_view(order@);
        assert(untaken((t + 1) as nat, used) == if used.contains(t as int) {
            prev
        } else {
            prev.push(t as int)
        });
        if !taken[t] {
            order.push(OrderSlot::Existing(t));
            local_only += 1;
            assert(prev.push(t as int).map_values(|x: int| SlotModel::Existing(x)) =~= prev.map_values(
                |x: int| SlotModel::Existing(x),
            ).push(SlotModel::Existing(t as int)));
            assert(slots_view(order@) =~= before.push(SlotModel::Existing(t as int)));
        }
        t += 1;
    }
    StudentMergePlan { actions, order, matched, created, ambiguous, local_only }
}

// ---------------------------------------------------------------------------
// Laws of a merge
// ---------------------------------------------------------------------------

spec fn updates_distinct(acts: Seq<MergeActionModel>) -> bool {
    forall|j1: int, j2: int|
        0 <= j1 < j2 < acts.len() && #[trigger] acts[j1] is Update && #[trigger] acts[j2] is Update ==> acts[j1]->Update_0
            != acts[j2]->Update_0
}

spec fn count_below(n: nat, used: Set<int>) -> nat
    decreases n,
{
    if n == 0 {
        0
    } else {
        count_below((n - 1) as nat, used) + if used.contains(n - 1) {
            1nat
        } else {
            0nat
        }
    }
}

proof fn lemma_count_below_insert(n: nat, used: Set<int>, t: int)
    requires
        0 <= t < n,
        !used.contains(t),
    ensures
        count_below(n, used.insert(t)) == count_below(n, used) + 1,
    decreases n,
{
    if n - 1 > t {
        lemma_count_below_insert((n - 1) as nat, used, t);
    } else {
        lemma_count_below_same((n - 1) as nat, used, t);
    }
}

proof fn lemma_count_below_empty(n: nat)
    ensures
        count_below(n, Set::<int>::empty()) == 0,
    decreases n,
{
    if n > 0 {
        lemma_count_below_empty((n - 1) as nat);
    }
}

proof fn lemma_count_below_same(n: nat, used: Set<int>, t: int)
    requires
        n <= t,
    ensures
        count_below(n, used.insert(t)) == count_below(n, used),
    decreases n,
{
    if n > 0 {
        lemma_count_below_same((n - 1) as nat, used, t);
    }
}

proof fn lemma_untaken(n: nat, used: Set<int>)
    ensures
        untaken(n, used).len() + count_below(n, used) == n,
        forall|t: int| untaken(n, used).contains(t) <==> 0 <= t < n && !used.contains(t),
        forall|i: int, j: int|
            0 <= i < j < untaken(n, used).len() ==> #[trigger] untaken(n, used)[i] < #[trigger] untaken(n, used)[j],
        forall|i: int| 0 <= i < untaken(n, used).len() ==> 0 <= #[trigger] untaken(n, used)[i] < n,
    decreases n,
{
    if n > 0 {
        lemma_untaken((n - 1) as nat, used);
        let p = untaken((n - 1) as nat, used);
        let u = untaken(n, used);
        if !used.contains(n - 1) {
            assert(u == p.push(n - 1));
            assert forall|t: int| u.contains(t) <==> 0 <= t < n && !used.contains(t) by {
                if u.contains(t) {
                    let k = choose|k: int| 0 <= k < u.len() && u[k] == t;
                    if k < p.len() {
                        assert(p.contains(t));
                    }
                }
                if 0 <= t < n && !used.contains(t) {
                    if t < n - 1 {
                        assert(p.contains(t));
                        let k = choose|k: int| 0 <= k < p.len() && p[k] == t;
                        assert(u[k] == t);
                    } else {
                        assert(u[u.len() - 1] == t);
                    }
                }
            }
            assert forall|i: int, j: int| 0 <= i < j < u.len() implies #[trigger] u[i] < #[trigger] u[j] by {
                if j < p.len() {
                    assert(u[i] == p[i] && u[j] == p[j]);
                } else {
                    assert(u[i] == p[i]);
                }
            }
            assert forall|i: int| 0 <= i < u.len() implies 0 <= #[trigger] u[i] < n by {
                if i < p.len() {
                    assert(u[i] == p[i]);
                }
            }
        } else {
            assert(u == p);
        }
    }
}

/// An update chooses a student of the class that is not taken yet.
proof fn lemma_action_update(ts: Seq<MergeStudentModel>, s: MergeStudentModel, used: Set<int>)
    ensures
        merge_action(ts, s, used) matches MergeActionModel::Update(t) ==> 0 <= t < ts.len() && !used.contains(t),
{
    match number_key(s) {
        Some(k) => {
            lemma_with_number_bounds(ts, k);
        },
        None => {},
    }
    lemma_with_name_bounds(ts, name_key(s.last_name, s.first_name));
    let first = match number_key(s) {
        Some(k) => pick_target(with_number(ts, k), used),
        None => (None, Seq::<int>::empty()),
    };
    if let Some(k) = number_key(s) {
        let w = with_number(ts, k);
        if w.len() == 1 {
            assert(0 <= w[0] < ts.len());
        }
    }
    let w2 = with_name(ts, name_key(s.last_name, s.first_name));
    if w2.len() == 1 {
        assert(0 <= w2[0] < ts.len());
    }
}

/// What the actions of a merge keep: the taken students are exactly the
/// updated ones, each updated once, all of them students of the class.
proof fn lemma_merge_actions(ts: Seq<MergeStudentModel>, ss: Seq<MergeStudentModel>)
    ensures
        merge_actions(ts, ss).0.len() == ss.len(),
        forall|t: int| #[trigger] merge_actions(ts, ss).1.contains(t) ==> 0 <= t < ts.len(),
        forall|j: int|
            0 <= j < ss.len() && #[trigger] merge_actions(ts, ss).0[j] is Update ==> merge_actions(ts, ss).1.contains(
                merge_actions(ts, ss).0[j]->Update_0,
            ),
        forall|t: int|
            #[trigger] merge_actions(ts, ss).1.contains(t) ==> exists|j: int|
                0 <= j < ss.len() && #[trigger] merge_actions(ts, ss).0[j] == MergeActionModel::Update(t),
        updates_distinct(merge_actions(ts, ss).0),
        count_updates(merge_actions(ts, ss).0) == count_below(ts.len(), merge_actions(ts, ss).1),
    decreases ss.len(),
{
    if ss.len() == 0 {
        lemma_count_below_empty(ts.len());
    } else {
        let (p, u) = merge_actions(ts, ss.drop_last());
        lemma_merge_actions(ts, ss.drop_last());
        let a = merge_action(ts, ss.last(), u);
        lemma_action_update(ts, ss.last(), u);
        let acts = p.push(a);
        let used = used_after(a, u);
        assert(merge_actions(ts, ss) == (acts, used));
        assert forall|j: int| 0 <= j < ss.len() && #[trigger] acts[j] is Update implies used.contains(acts[j]->Update_0) by {
            if j < p.len() {
                assert(acts[j] == p[j]);
            }
        }
        assert forall|t: int| #[trigger] used.contains(t) implies exists|j: int|
            0 <= j < ss.len() && #[trigger] acts[j] == MergeActionModel::Update(t) by {
            if u.contains(t) {
                let j = choose|j: int| 0 <= j < p.len() && #[trigger] p[j] == MergeActionModel::Update(t);
                assert(acts[j] == p[j]);
            } else {
                assert(acts[p.len() as int] == MergeActionModel::Update(t));
            }
        }
        assert forall|j1: int, j2: int|
            0 <= j1 < j2 < acts.len() && #[trigger] acts[j1] is Update && #[trigger] acts[j2] is Update implies acts[j1]->Update_0
                != acts[j2]->Update_0 by {
            assert(acts[j1] == p[j1]);
            if j2 < p.len() {
                assert(acts[j2] == p[j2]);
            } else {
                assert(u.contains(p[j1]->Update_0));
            }
        }
        assert(acts.drop_last() =~= p);
        assert(acts.last() == a);
        match a {
            MergeActionModel::Update(t) => {
                lemma_count_below_insert(ts.len(), u, t);
            },
            _ => {},
        }
    }
}

/// Where the incoming students stand in the new order.
proof fn lemma_action_slots(acts: Seq<MergeActionModel>)
    requires
        updates_distinct(acts),
    ensures
        forall|x: SlotModel|
            #[trigger] action_slots(acts).contains(x) <==> match x {
                SlotModel::Existing(t) => exists|j: int|
                    0 <= j < acts.len() && #[trigger] acts[j] == MergeActionModel::Update(t),
                SlotModel::Incoming(j) => 0 <= j < acts.len() && acts[j] is Create,
            },
        forall|i: int, k: int|
            0 <= i < k < action_slots(acts).len() ==> #[trigger] action_slots(acts)[i] != #[trigger] action_slots(
                acts,
            )[k],
    decreases acts.len(),
{
    if acts.len() > 0 {
        let p = acts.drop_last();
        assert forall|j1: int, j2: int|
            0 <= j1 < j2 < p.len() && #[trigger] p[j1] is Update && #[trigger] p[j2] is Update implies p[j1]->Update_0
                != p[j2]->Update_0 by {
            assert(p[j1] == acts[j1] && p[j2] == acts[j2]);
        }
        lemma_action_slots(p);
        let ps = action_slots(p);
        let cur = action_slots(acts);
        let last = acts.len() - 1;
        let fresh = match acts.last() {
            MergeActionModel::Update(t) => Some(SlotModel::Existing(t)),
            MergeActionModel::Create => Some(SlotModel::Incoming(last)),
            MergeActionModel::Ambiguous(_) => None,
        };
        match fresh {
            Some(f) => {
                assert(cur == ps.push(f));
                assert(!ps.contains(f)) by {
                    if ps.contains(f) {
                        match f {
                            SlotModel::Existing(t) => {
                                let j = choose|j: int| 0 <= j < p.len() && #[trigger] p[j] == MergeActionModel::Update(t);
                                assert(acts[j] == p[j]);
                                assert(acts[last] is Update && acts[j] is Update);
                            },
                            SlotModel::Incoming(j) => {},
                        }
                    }
                }
                assert forall|x: SlotModel| #[trigger] cur.contains(x) <==> match x {
                    SlotModel::Existing(t) => exists|j: int|
                        0 <= j < acts.len() && #[trigger] acts[j] == MergeActionModel::Update(t),
                    SlotModel::Incoming(j) => 0 <= j < acts.len() && acts[j] is Create,
                } by {
                    if cur.contains(x) {
                        let k = choose|k: int| 0 <= k < cur.len() && cur[k] == x;
                        if k < ps.len() {
                            assert(ps.contains(x));
                            match x {
                                SlotModel::Existing(t) => {
                                    let j = choose|j: int| 0 <= j < p.len() && #[trigger] p[j] == MergeActionModel::Update(t);
                                    assert(acts[j] == p[j]);
                                },
                                SlotModel::Incoming(j) => {
                                    assert(acts[j] == p[j]);
                                },
                            }
                        } else {
                            assert(x == f);
                        }
                    }
                    match x {
                        SlotModel::Existing(t) => {
                            if exists|j: int| 0 <= j < acts.len() && #[trigger] acts[j] == MergeActionModel::Update(t) {
                                let j = choose|j: int| 0 <= j < acts.len() && #[trigger] acts[j] == MergeActionModel::Update(t);
                                if j < p.len() {
                                    assert(p[j] == acts[j]);
                                    assert(ps.contains(x));
                                    let k = choose|k: int| 0 <= k < ps.len() && ps[k] == x;
                                    assert(cur[k] == x);
                                } else {
                                    assert(cur[cur.len() - 1] == x);
                                }
                            }
                        },
                        SlotModel::Incoming(j) => {
                            if 0 <= j < acts.len() && acts[j] is Create {
                                if j < p.len() {
                                    assert(p[j] == acts[j]);
                                    assert(ps.contains(x));
                                    let k = choose|k: int| 0 <= k < ps.len() && ps[k] == x;
                                    assert(cur[k] == x);
                                } else {
                                    assert(cur[cur.len() - 1] == x);
                                }
                            }
                        },
                    }
                }
                assert forall|i: int, k: int| 0 <= i < k < cur.len() implies #[trigger] cur[i] != #[trigger] cur[k] by {
                    if k < ps.len() {
                        assert(cur[i] == ps[i] && cur[k] == ps[k]);
                    } else {
                        assert(cur[i] == ps[i]);
                        assert(ps.contains(ps[i]));
                    }
                }
            },
            None => {
                assert(cur == ps);
                assert forall|x: SlotModel| #[trigger] cur.contains(x) <==> match x {
                    SlotModel::Existing(t) => exists|j: int|
                        0 <= j < acts.len() && #[trigger] acts[j] == MergeActionModel::Update(t),
                    SlotModel::Incoming(j) => 0 <= j < acts.len() && acts[j] is Create,
                } by {
                    match x {
                        SlotModel::Existing(t) => {
                            if cur.contains(x) {
                                let j = choose|j: int| 0 <= j < p.len() && #[trigger] p[j] == MergeActionModel::Update(t);
                                assert(acts[j] == p[j]);
                            }
                            if exists|j: int| 0 <= j < acts.len() && #[trigger] acts[j] == MergeActionModel::Update(t) {
                                let j = choose|j: int| 0 <= j < acts.len() && #[trigger] acts[j] == MergeActionModel::Update(t);
                                assert(j < p.len());
                                assert(p[j] == acts[j]);
                            }
                        },
                        SlotModel::Incoming(j) => {
                            if 0 <= j < p.len() {
                                assert(p[j] == acts[j]);
                            }
                        },
                    }
                }
            },
        }
    }
}

/// After a merge, the class's order lists every student of the class
/// exactly once and every incoming student that is added as new exactly
/// once, and nothing else.
pub proof fn law_merge_order_complete(ts: Seq<MergeStudentModel>, ss: Seq<MergeStudentModel>)
    ensures
        forall|i: int, k: int|
            0 <= i < k < merge_order(ts, ss).len() ==> #[trigger] merge_order(ts, ss)[i] != #[trigger] merge_order(
                ts,
                ss,
            )[k],
        forall|t: int| 0 <= t < ts.len() ==> #[trigger] merge_order(ts, ss).contains(SlotModel::Existing(t)),
        forall|j: int|
            0 <= j < ss.len() && #[trigger] merge_actions(ts, ss).0[j] is Create ==> merge_order(ts, ss).contains(
                SlotModel::Incoming(j),
            ),
        forall|k: int|
            0 <= k < merge_order(ts, ss).len() ==> match #[trigger] merge_order(ts, ss)[k] {
                SlotModel::Existing(t) => 0 <= t < ts.len(),
                SlotModel::Incoming(j) => 0 <= j < ss.len() && merge_actions(ts, ss).0[j] is Create,
            },
{
    let (acts, used) = merge_actions(ts, ss);
    lemma_merge_actions(ts, ss);
    lemma_action_slots(acts);
    lemma_untaken(ts.len(), used);
    let a = action_slots(acts);
    let un = untaken(ts.len(), used);
    let b = un.map_values(|t: int| SlotModel::Existing(t));
    let o = merge_order(ts, ss);
    assert(o == a + b);
    assert forall|k: int| 0 <= k < o.len() implies match #[trigger] o[k] {
        SlotModel::Existing(t) => 0 <= t < ts.len(),
        SlotModel::Incoming(j) => 0 <= j < ss.len() && acts[j] is Create,
    } by {
        if k < a.len() {
            assert(a.contains(o[k]));
            match o[k] {
                SlotModel::Existing(t) => {
                    let j = choose|j: int| 0 <= j < acts.len() && #[trigger] acts[j] == MergeActionModel::Update(t);
                    assert(acts[j] is Update);
                    assert(used.contains(t));
                },
                SlotModel::Incoming(j) => {},
            }
        } else {
            assert(o[k] == b[k - a.len()]);
            assert(b[k - a.len()] == SlotModel::Existing(un[k - a.len()]));
        }
    }
    assert forall|i: int, k: int| 0 <= i < k < o.len() implies #[trigger] o[i] != #[trigger] o[k] by {
        if k < a.len() {
            assert(o[i] == a[i] && o[k] == a[k]);
        } else if i >= a.len() {
            assert(o[i] == SlotModel::Existing(un[i - a.len()]));
            assert(o[k] == SlotModel::Existing(un[k - a.len()]));
        } else {
            assert(o[i] == a[i]);
            assert(o[k] == SlotModel::Existing(un[k - a.len()]));
            assert(un.contains(un[k - a.len()]));
            if o[i] == o[k] {
                assert(a.contains(o[i]));
                let j = choose|j: int| 0 <= j < acts.len() && #[trigger] acts[j] == MergeActionModel::Update(
                    un[k - a.len()],
                );
                assert(acts[j] is Update);
            }
        }
    }
    assert forall|t: int| 0 <= t < ts.len() implies #[trigger] o.contains(SlotModel::Existing(t)) by {
        if used.contains(t) {
            assert(a.contains(SlotModel::Existing(t)));
            let k = choose|k: int| 0 <= k < a.len() && a[k] == SlotModel::Existing(t);
            assert(o[k] == a[k]);
        } else {
            assert(un.contains(t));
            let k = choose|k: int| 0 <= k < un.len() && un[k] == t;
            assert(o[a.len() + k] == b[k]);
        }
    }
    assert forall|j: int| 0 <= j < ss.len() && #[trigger] acts[j] is Create implies o.contains(SlotModel::Incoming(j)) by {
        assert(a.contains(SlotModel::Incoming(j)));
        let k = choose|k: int| 0 <= k < a.len() && a[k] == SlotModel::Incoming(j);
        assert(o[k] == a[k]);
    }
}

/// Every incoming student is matched, added or skipped, and every student
/// of the class is either matched or left as it was.
pub proof fn law_merge_counts(ts: Seq<MergeStudentModel>, ss: Seq<MergeStudentModel>)
    ensures
        count_updates(merge_actions(ts, ss).0) + count_creates(merge_actions(ts, ss).0) + count_ambiguous(
            merge_actions(ts, ss).0,
        ) == ss.len(),
        count_updates(merge_actions(ts, ss).0) + untaken(ts.len(), merge_actions(ts, ss).1).len() == ts.len(),
{
    lemma_merge_actions(ts, ss);
    lemma_counts(merge_actions(ts, ss).0);
    lemma_untaken(ts.len(), merge_actions(ts, ss).1);
}

// ---------------------------------------------------------------------------
// Assessments
// ---------------------------------------------------------------------------

/// What happens to an incoming assessment.
#[derive(Clone, Copy, Debug, PartialEq, Eq, Structural)]
pub enum AssessmentMerge {
    /// It is merged into the target's assessment at this position.
    Merge(usize),
    /// It is added under this index.
    Append(i64),
}

pub enum AssessmentMergeModel {
    Merge(int),
    Append(int),
}

impl View for AssessmentMerge {
    type V = AssessmentMergeModel;

    open spec fn view(&self) -> AssessmentMergeModel {
        match self {
            AssessmentMerge::Merge(p) => AssessmentMergeModel::Merge(*p as int),
            AssessmentMerge::Append(i) => AssessmentMergeModel::Append(*i as int),
        }
    }
}

/// A collision that stops a transfer: the incoming assessment and the
/// target's assessment with the same key.
#[derive(Clone, Copy, Debug, PartialEq, Eq, Structural)]
pub struct AssessmentCollision {
    pub source: usize,
    pub target: usize,
}

pub open spec fn assessment_merges_view(v: Seq<AssessmentMerge>) -> Seq<AssessmentMergeModel> {
    v.map_values(|a: AssessmentMerge| a@)
}

/// The largest index, or -1 where there is none.
pub open spec fn max_index(idx: Seq<i64>) -> int
    decreases idx.len(),
{
    if idx.len() == 0 {
        -1
    } else {
        let m = max_index(idx.drop_last());
        if idx.last() > m {
            idx.last() as int
        } else {
            m
        }
    }
}

/// The first position whose key is `k` and that is not taken yet.
pub open spec fn first_free(keys: Seq<Seq<char>>, k: Seq<char>, taken: Set<int>) -> Option<int>
    decreases keys.len(),
{
    if keys.len() == 0 {
        None
    } else {
        match first_free(keys.drop_last(), k, taken) {
            Some(p) => Some(p),
            None => if keys.last() == k && !taken.contains(keys.len() - 1) {
                Some(keys.len() - 1)
            } else {
                None
            },
        }
    }
}

/// The merge of incoming assessments (by key, in order) into a target's
/// (keys and indices, in order) under a collision policy: each incoming
/// one is merged into the first target's assessment with its key that no
/// earlier one took, or, where there is none or the policy is
/// `append_new`, appended under the next free index (one past the
/// largest); under `stop_on_collision` the first such match is refused.
/// The result holds the actions, the taken targets and the next index.
pub open spec fn assessment_merges(
    tkeys: Seq<Seq<char>>,
    tidx: Seq<i64>,
    skeys: Seq<Seq<char>>,
    policy: Seq<char>,
) -> Result<(Seq<AssessmentMergeModel>, Set<int>, int), (int, int)>
    decreases skeys.len(),
{
    if skeys.len() == 0 {
        Ok((Seq::empty(), Set::empty(), max_index(tidx) + 1))
    } else {
        match assessment_merges(tkeys, tidx, skeys.drop_last(), policy) {
            Err(e) => Err(e),
            Ok((acts, taken, next)) => {
                let cand = if policy == "append_new"@ {
                    None
                } else {
                    first_free(tkeys, skeys.last(), taken)
                };
                match cand {
                    Some(p) => if policy == "stop_on_collision"@ {
                        Err((skeys.len() - 1, p))
                    } else {
                        Ok((acts.push(AssessmentMergeModel::Merge(p)), taken.insert(p), next))
                    },
                    None => Ok((acts.push(AssessmentMergeModel::Append(next)), taken, next + 1)),
                }
            },
        }
    }
}

proof fn lemma_max_index_bound(idx: Seq<i64>)
    ensures
        -1 <= max_index(idx),
        forall|i: int| 0 <= i < idx.len() ==> #[trigger] idx[i] <= max_index(idx),
        idx.len() > 0 ==> max_index(idx) <= i64::MAX,
    decreases idx.len(),
{
    if idx.len() > 0 {
        lemma_max_index_bound(idx.drop_last());
        assert forall|i: int| 0 <= i < idx.len() implies #[trigger] idx[i] <= max_index(idx) by {
            if i < idx.len() - 1 {
                assert(idx[i] == idx.drop_last()[i]);
            }
        }
    }
}

/// `first_free` is the least free position with the key.
proof fn lemma_first_free(keys: Seq<Seq<char>>, k: Seq<char>, taken: Set<int>)
    ensures
        match first_free(keys, k, taken) {
            Some(p) => 0 <= p < keys.len() && keys[p] == k && !taken.contains(p) && forall|q: int|
                0 <= q < p ==> !(#[trigger] keys[q] == k && !taken.contains(q)),
            None => forall|q: int| 0 <= q < keys.len() ==> !(#[trigger] keys[q] == k && !taken.contains(q)),
        },
    decreases keys.len(),
{
    if keys.len() > 0 {
        let d = keys.drop_last();
        lemma_first_free(d, k, taken);
        match first_free(d, k, taken) {
            Some(p) => {
                assert forall|q: int| 0 <= q < p implies !(#[trigger] keys[q] == k && !taken.contains(q)) by {
                    assert(keys[q] == d[q]);
                }
                assert(keys[p] == d[p]);
            },
            None => {
                assert forall|q: int| 0 <= q < keys.len() - 1 implies !(#[trigger] keys[q] == k && !taken.contains(q)) by {
                    assert(keys[q] == d[q]);
                }
            },
        }
    }
}

/// The largest of the indices, or -1.
fn largest_index(idx: &Vec<i64>) -> (r: i64)
    ensures
        r == max_index(idx@),
{
    let mut m: i64 = -1;
    let mut i: usize = 0;
    assert(idx@.take(0) =~= Seq::<i64>::empty());
    while i < idx.len()
        invariant
            i <= idx@.len(),
            m == max_index(idx@.take(i as int)),
        decreases idx@.len() - i,
    {
        assert(idx@.take(i + 1).drop_last() =~= idx@.take(i as int));
        proof {
            lemma_max_index_bound(idx@.take(i as int));
        }
        if idx[i] > m {
            m = idx[i];
        }
        i += 1;
    }
    assert(idx@.take(idx@.len() as int) =~= idx@);
    m
}

pub open spec fn texts_of(v: Seq<String>) -> Seq<Seq<char>> {
    v.map_values(|s: String| s@)
}

/// The first free target's assessment with key `k` (see `first_free`).
fn first_free_position(keys: &Vec<String>, k: &[char], taken: &Vec<bool>, Ghost(used): Ghost<Set<int>>) -> (r: Option<usize>)
    requires
        marks_taken(taken@, used),
        taken@.len() == keys@.len(),
    ensures
        opt_pos(r) == first_free(texts_of(keys@), k@, used),
{
    let ghost kv = texts_of(keys@);
    proof {
        lemma_first_free(kv, k@, used);
    }
    let mut i: usize = 0;
    while i < keys.len()
        invariant
            i <= keys@.len() == taken@.len(),
            kv == texts_of(keys@),
            marks_taken(taken@, used),
            forall|q: int| 0 <= q < i ==> !(#[trigger] kv[q] == k@ && !used.contains(q)),
        decreases keys@.len() - i,
    {
        assert(kv[i as int] == keys@[i as int]@);
        let hit = !taken[i] && chars_eq(chars_of(keys[i].as_str()).as_slice(), k);
        assert(hit == (kv[i as int] == k@ && !used.contains(i as int)));
        if hit {
            proof {
                lemma_first_free(kv, k@, used);
                match first_free(kv, k@, used) {
                    Some(p) => {
                        if p > i {
                            assert(!(kv[i as int] == k@ && !used.contains(i as int)));
                        }
                    },
                    None => {
                        assert(!(kv[i as int] == k@ && !used.contains(i as int)));
                    },
                }
            }
            return Some(i);
        }
        i += 1;
    }
    proof {
        lemma_first_free(kv, k@, used);
        match first_free(kv, k@, used) {
            Some(p) => {
                assert(!(kv[p] == k@ && !used.contains(p)));
            },
            None => {},
        }
    }
    None
}

/// A refusal stays a refusal as more assessments come in.
proof fn lemma_merges_refused(
    tk: Seq<Seq<char>>,
    tidx: Seq<i64>,
    sk: Seq<Seq<char>>,
    policy: Seq<char>,
    m: int,
)
    requires
        0 <= m <= sk.len(),
        assessment_merges(tk, tidx, sk.take(m), policy) is Err,
    ensures
        assessment_merges(tk, tidx, sk, policy) == assessment_merges(tk, tidx, sk.take(m), policy),
    decreases sk.len(),
{
    if m == sk.len() {
        assert(sk.take(m) =~= sk);
    } else {
        let d = sk.drop_last();
        assert(d.take(m) =~= sk.take(m));
        lemma_merges_refused(tk, tidx, d, policy, m);
    }
}

/// The merge of incoming assessments into a target's (see
/// `assessment_merges`): the action for each incoming assessment, or the
/// collision that stops the transfer.
pub fn plan_assessment_merge(
    target_keys: &Vec<String>,
    target_idx: &Vec<i64>,
    source_keys: &Vec<String>,
    policy: &str,
) -> (r: Result<Vec<AssessmentMerge>, AssessmentCollision>)
    requires
        target_keys@.len() == target_idx@.len(),
        max_index(target_idx@) + source_keys@.len() < i64::MAX,
    ensures
        match r {
            Ok(v) => assessment_merges(texts_of(target_keys@), target_idx@, texts_of(source_keys@), policy@) matches Ok(
                t,
            ) && t.0 == assessment_merges_view(v@),
            Err(c) => assessment_merges(texts_of(target_keys@), target_idx@, texts_of(source_keys@), policy@) == Err::<
                (Seq<AssessmentMergeModel>, Set<int>, int),
                (int, int),
            >((c.source as int, c.target as int)),
        },
{
    let ghost tk = texts_of(target_keys@);
    let ghost sk = texts_of(source_keys@);
    let p = chars_of(policy);
    let append_only = crate::text::chars_eq_str(p.as_slice(), "append_new");
    let stop = crate::text::chars_eq_str(p.as_slice(), "stop_on_collision");
    let mut next: i64 = largest_index(target_idx) + 1;
    let mut taken: Vec<bool> = Vec::new();
    let mut i: usize = 0;
    while i < target_keys.len()
        invariant
            i <= target_keys@.len(),
            taken@.len() == i,
            forall|q: int| 0 <= q < i ==> !(#[trigger] taken@[q]),
        decreases target_keys@.len() - i,
    {
        taken.push(false);
        i += 1;
    }
    let ghost mut used: Set<int> = Set::empty();
    let mut out: Vec<AssessmentMerge> = Vec::new();
    let mut j: usize = 0;
    assert(sk.take(0) =~= Seq::<Seq<char>>::empty());
    assert(assessment_merges_view(out@) =~= Seq::<AssessmentMergeModel>::empty());
    while j < source_keys.len()
        invariant
            j <= source_keys@.len() == sk.len(),
            sk == texts_of(source_keys@),
            tk == texts_of(target_keys@),
            taken@.len() == target_keys@.len(),
            marks_taken(taken@, used),
            append_only == (policy@ == "append_new"@),
            stop == (policy@ == "stop_on_collision"@),
            assessment_merges(tk, target_idx@, sk.take(j as int), policy@) == Ok::<
                (Seq<AssessmentMergeModel>, Set<int>, int),
                (int, int),
            >((assessment_merges_view(out@), used, next as int)),
            next <= max_index(target_idx@) + 1 + j,
            max_index(target_idx@) + source_keys@.len() < i64::MAX,
        decreases source_keys@.len() - j,
    {
        assert(sk.take(j + 1).drop_last() =~= sk.take(j as int));
        assert(sk.take(j + 1).last() == source_keys@[j as int]@);
        let ghost before = assessment_merges_view(out@);
        let cand = if append_only {
            None
        } else {
            first_free_position(target_keys, chars_of(source_keys[j].as_str()).as_slice(), &taken, Ghost(used))
        };
        match cand {
            Some(t) => {
                if stop {
                    proof {
                        lemma_merges_refused(tk, target_idx@, sk, policy@, j + 1);
                    }
                    return Err(AssessmentCollision { source: j, target: t });
                }
                proof {
                    lemma_first_free(tk, sk[j as int], used);
                }
                taken.set(t, true);
                out.push(AssessmentMerge::Merge(t));
                proof {
                    used = used.insert(t as int);
                    assert(assessment_merges_view(out@) =~= before.push(AssessmentMergeModel::Merge(t as int)));
                }
            },
            None => {
                out.push(AssessmentMerge::Append(next));
                assert(assessment_merges_view(out@) =~= before.push(AssessmentMergeModel::Append(next as int)));
                next = next + 1;
            },
        }
        j += 1;
    }
    assert(sk.take(sk.len() as int) =~= sk);
    Ok(out)
}

/// Under any policy, a merge that goes through merges each incoming
/// assessment only into a target's assessment with the same key, never
/// two into the same one, and appends the others under indices that are
/// above every index of the target and rise in order.
pub proof fn law_assessment_merge_sound(
    tk: Seq<Seq<char>>,
    tidx: Seq<i64>,
    sk: Seq<Seq<char>>,
    policy: Seq<char>,
)
    ensures
        assessment_merges(tk, tidx, sk, policy) matches Ok(t) ==> {
            &&& t.0.len() == sk.len()
            &&& forall|j: int|
                0 <= j < sk.len() && #[trigger] t.0[j] is Merge ==> 0 <= t.0[j]->Merge_0 < tk.len() && tk[t.0[j]->Merge_0]
                    == sk[j] && t.1.contains(t.0[j]->Merge_0)
            &&& forall|j1: int, j2: int|
                0 <= j1 < j2 < sk.len() && #[trigger] t.0[j1] is Merge && #[trigger] t.0[j2] is Merge ==> t.0[j1]->Merge_0
                    != t.0[j2]->Merge_0
            &&& forall|j: int|
                0 <= j < sk.len() && #[trigger] t.0[j] is Append ==> max_index(tidx) < t.0[j]->Append_0 < t.2
            &&& forall|j1: int, j2: int|
                0 <= j1 < j2 < sk.len() && #[trigger] t.0[j1] is Append && #[trigger] t.0[j2] is Append ==> t.0[j1]->Append_0
                    < t.0[j2]->Append_0
            &&& max_index(tidx) < t.2
        },
    decreases sk.len(),
{
    if sk.len() == 0 {
    } else {
        let d = sk.drop_last();
        law_assessment_merge_sound(tk, tidx, d, policy);
        match assessment_merges(tk, tidx, d, policy) {
            Err(_) => {},
            Ok((acts, taken, next)) => {
                let cand = if policy == "append_new"@ {
                    None
                } else {
                    first_free(tk, sk.last(), taken)
                };
                lemma_first_free(tk, sk.last(), taken);
                match assessment_merges(tk, tidx, sk, policy) {
                    Err(_) => {},
                    Ok((acts2, taken2, next2)) => {
                        let last = sk.len() - 1;
                        assert(acts2.drop_last() =~= acts);
                        assert forall|j: int|
                            0 <= j < sk.len() && #[trigger] acts2[j] is Merge implies 0 <= acts2[j]->Merge_0 < tk.len()
                                && tk[acts2[j]->Merge_0] == sk[j] && taken2.contains(acts2[j]->Merge_0) by {
                            if j < last {
                                assert(acts2[j] == acts[j]);
                                assert(sk[j] == d[j]);
                            }
                        }
                        assert forall|j1: int, j2: int|
                            0 <= j1 < j2 < sk.len() && #[trigger] acts2[j1] is Merge && #[trigger] acts2[j2] is Merge implies acts2[j1]->Merge_0
                                != acts2[j2]->Merge_0 by {
                            assert(acts2[j1] == acts[j1]);
                            if j2 < last {
                                assert(acts2[j2] == acts[j2]);
                            } else {
                                assert(taken.contains(acts[j1]->Merge_0));
                            }
                        }
                        assert forall|j: int|
                            0 <= j < sk.len() && #[trigger] acts2[j] is Append implies max_index(tidx) < acts2[j]->Append_0
                                < next2 by {
                            if j < last {
                                assert(acts2[j] == acts[j]);
                            }
                        }
                        assert forall|j1: int, j2: int|
                            0 <= j1 < j2 < sk.len() && #[trigger] acts2[j1] is Append && #[trigger] acts2[j2] is Append implies acts2[j1]->Append_0
                                < acts2[j2]->Append_0 by {
                            assert(acts2[j1] == acts[j1]);
                            if j2 < last {
                                assert(acts2[j2] == acts[j2]);
                            }
                        }
                    },
                }
            },
        }
    }
}

/// Under `append_new` every incoming assessment is appended, and the merge
/// is never refused.
pub proof fn law_append_new_appends(tk: Seq<Seq<char>>, tidx: Seq<i64>, sk: Seq<Seq<char>>)
    ensures
        assessment_merges(tk, tidx, sk, "append_new"@) matches Ok(t) && forall|j: int|
            0 <= j < t.0.len() ==> #[trigger] t.0[j] is Append,
    decreases sk.len(),
{
    if sk.len() > 0 {
        law_append_new_appends(tk, tidx, sk.drop_last());
        let t = assessment_merges(tk, tidx, sk.drop_last(), "append_new"@)->Ok_0;
        let t2 = assessment_merges(tk, tidx, sk, "append_new"@)->Ok_0;
        assert forall|j: int| 0 <= j < t2.0.len() implies #[trigger] t2.0[j] is Append by {
            if j < t.0.len() {
                assert(t2.0[j] == t.0[j]);
            }
        }
    }
}

/// Under `stop_on_collision` the merge is refused exactly where an
/// incoming assessment has the key of one of the target's, and the
/// refusal names such a pair.
pub proof fn law_stop_on_collision(tk: Seq<Seq<char>>, tidx: Seq<i64>, sk: Seq<Seq<char>>)
    ensures
        (assessment_merges(tk, tidx, sk, "stop_on_collision"@) is Err) <==> exists|j: int, p: int|
            0 <= j < sk.len() && 0 <= p < tk.len() && #[trigger] sk[j] == #[trigger] tk[p],
        assessment_merges(tk, tidx, sk, "stop_on_collision"@) matches Err(e) ==> 0 <= e.0 < sk.len() && 0 <= e.1
            < tk.len() && sk[e.0] == tk[e.1],
    decreases sk.len(),
{
    lemma_stop(tk, tidx, sk);
    let r = assessment_merges(tk, tidx, sk, "stop_on_collision"@);
    if r is Ok {
        if exists|j: int, p: int| 0 <= j < sk.len() && 0 <= p < tk.len() && #[trigger] sk[j] == #[trigger] tk[p] {
            let (j, p) = choose|j: int, p: int| 0 <= j < sk.len() && 0 <= p < tk.len() && #[trigger] sk[j] == #[trigger] tk[p];
            assert(tk[p] != sk[j]);
        }
    }
}

proof fn lemma_stop(tk: Seq<Seq<char>>, tidx: Seq<i64>, sk: Seq<Seq<char>>)
    ensures
        match assessment_merges(tk, tidx, sk, "stop_on_collision"@) {
            Ok(t) => t.1 == Set::<int>::empty() && forall|j: int, p: int|
                0 <= j < sk.len() && 0 <= p < tk.len() ==> #[trigger] tk[p] != #[trigger] sk[j],
            Err(e) => 0 <= e.0 < sk.len() && 0 <= e.1 < tk.len() && sk[e.0] == tk[e.1],
        },
    decreases sk.len(),
{
    reveal_strlit("append_new");
    reveal_strlit("stop_on_collision");
    assert("stop_on_collision"@ != "append_new"@) by {
        assert("stop_on_collision"@[0] != "append_new"@[0]);
    }
    if sk.len() > 0 {
        let d = sk.drop_last();
        lemma_stop(tk, tidx, d);
        match assessment_merges(tk, tidx, d, "stop_on_collision"@) {
            Err(e) => {
                assert(sk[e.0] == d[e.0]);
            },
            Ok((acts, taken, next)) => {
                lemma_first_free(tk, sk.last(), taken);
                match first_free(tk, sk.last(), taken) {
                    Some(p) => {},
                    None => {
                        assert forall|j: int, p: int| 0 <= j < sk.len() && 0 <= p < tk.len() implies #[trigger] tk[p]
                            != #[trigger] sk[j] by {
                            if j < sk.len() - 1 {
                                assert(sk[j] == d[j]);
                            } else {
                                assert(!(tk[p] == sk.last() && !taken.contains(p)));
                            }
                        }
                    },
                }
            },
        }
    }
}

// ---------------------------------------------------------------------------
// Mark sets
// ---------------------------------------------------------------------------

/// Where an incoming mark set goes.
#[derive(Clone, Copy, Debug, PartialEq, Eq, Structural)]
pub enum MarkSetMatch {
    /// Into the class's mark set at `target`, the first with the same code;
    /// `duplicate` where more than one has that code, `undelete` where the
    /// one chosen is deleted.
    Existing { target: usize, duplicate: bool, undelete: bool },
    /// Into a new mark set.
    New,
}

pub enum MarkSetMatchModel {
    Existing { target: int, duplicate: bool, undelete: bool },
    New,
}

impl View for MarkSetMatch {
    type V = MarkSetMatchModel;

    open spec fn view(&self) -> MarkSetMatchModel {
        match self {
            MarkSetMatch::Existing { target, duplicate, undelete } => MarkSetMatchModel::Existing {
                target: *target as int,
                duplicate: *duplicate,
                undelete: *undelete,
            },
            MarkSetMatch::New => MarkSetMatchModel::New,
        }
    }
}

/// The positions, in order, of the codes that are `u` in upper case.
pub open spec fn with_code(codes: Seq<Seq<char>>, u: Seq<char>) -> Seq<int>
    decreases codes.len(),
{
    if codes.len() == 0 {
        Seq::empty()
    } else {
        let p = with_code(codes.drop_last(), u);
        if upper(codes.last()) == u {
            p.push(codes.len() - 1)
        } else {
            p
        }
    }
}

/// Where the incoming mark set with `code` goes, among the class's mark
/// sets with codes `tcodes` and deleted marks `tdeleted`.
pub open spec fn mark_set_match(tcodes: Seq<Seq<char>>, tdeleted: Seq<bool>, code: Seq<char>) -> MarkSetMatchModel {
    let w = with_code(tcodes, upper(code));
    if w.len() == 0 {
        MarkSetMatchModel::New
    } else {
        MarkSetMatchModel::Existing { target: w[0], duplicate: w.len() > 1, undelete: tdeleted[w[0]] }
    }
}

/// The positions, in order, of the class's mark sets whose code no
/// incoming mark set has (ignoring ASCII case).
pub open spec fn codes_not_incoming(tcodes: Seq<Seq<char>>, scodes: Seq<Seq<char>>) -> Seq<int>
    decreases tcodes.len(),
{
    if tcodes.len() == 0 {
        Seq::empty()
    } else {
        let p = codes_not_incoming(tcodes.drop_last(), scodes);
        if with_code(scodes, upper(tcodes.last())).len() == 0 {
            p.push(tcodes.len() - 1)
        } else {
            p
        }
    }
}

/// The positions of the codes (given in upper case) equal to `u`.
fn code_positions(uppers: &Vec<Vec<char>>, u: &[char], Ghost(cv): Ghost<Seq<Seq<char>>>) -> (r: Vec<usize>)
    requires
        uppers@.len() == cv.len(),
        forall|i: int| 0 <= i < cv.len() ==> (#[trigger] uppers@[i])@ == upper(cv[i]),
    ensures
        positions_view(r@) == with_code(cv, u@),
        forall|j: int| 0 <= j < r@.len() ==> #[trigger] r@[j] < cv.len(),
{
    let mut out: Vec<usize> = Vec::new();
    let mut i: usize = 0;
    assert(cv.take(0) =~= Seq::<Seq<char>>::empty());
    assert(positions_view(out@) =~= Seq::<int>::empty());
    while i < uppers.len()
        invariant
            i <= uppers@.len() == cv.len(),
            forall|q: int| 0 <= q < cv.len() ==> (#[trigger] uppers@[q])@ == upper(cv[q]),
            positions_view(out@) == with_code(cv.take(i as int), u@),
            forall|j: int| 0 <= j < out@.len() ==> #[trigger] out@[j] < i,
        decreases uppers@.len() - i,
    {
        assert(cv.take(i + 1).drop_last() =~= cv.take(i as int));
        assert(cv.take(i + 1).last() == cv[i as int]);
        assert(uppers@[i as int]@ == upper(cv[i as int]));
        if chars_eq(uppers[i].as_slice(), u) {
            let ghost before = out@;
            out.push(i);
            assert(positions_view(out@) =~= positions_view(before).push(i as int));
        }
        i += 1;
    }
    assert(cv.take(cv.len() as int) =~= cv);
    out
}

fn upper_all(v: &Vec<String>) -> (r: Vec<Vec<char>>)
    ensures
        r@.len() == v@.len(),
        forall|i: int| 0 <= i < v@.len() ==> (#[trigger] r@[i])@ == upper(v@[i]@),
{
    let mut out: Vec<Vec<char>> = Vec::new();
    let mut i: usize = 0;
    while i < v.len()
        invariant
            i <= v@.len(),
            out@.len() == i,
            forall|q: int| 0 <= q < i ==> (#[trigger] out@[q])@ == upper(v@[q]@),
        decreases v@.len() - i,
    {
        out.push(upper_chars(chars_of(v[i].as_str()).as_slice()));
        i += 1;
    }
    out
}

/// Where each incoming mark set goes (see `mark_set_match`), and the
/// class's mark sets whose code no incoming one has (see
/// `codes_not_incoming`): those that a snapshot replace deletes.
pub fn plan_mark_set_merge(
    target_codes: &Vec<String>,
    target_deleted: &Vec<bool>,
    source_codes: &Vec<String>,
) -> (r: (Vec<MarkSetMatch>, Vec<usize>))
    requires
        target_codes@.len() == target_deleted@.len(),
    ensures
        r.0@.len() == source_codes@.len(),
        forall|j: int|
            0 <= j < source_codes@.len() ==> (#[trigger] r.0@[j])@ == mark_set_match(
                texts_of(target_codes@),
                target_deleted@,
                source_codes@[j]@,
            ),
        positions_view(r.1@) == codes_not_incoming(texts_of(target_codes@), texts_of(source_codes@)),
{
    let ghost tc = texts_of(target_codes@);
    let ghost sc = texts_of(source_codes@);
    let tu = upper_all(target_codes);
    let su = upper_all(source_codes);
    let mut out: Vec<MarkSetMatch> = Vec::new();
    let mut j: usize = 0;
    while j < source_codes.len()
        invariant
            j <= source_codes@.len() == su@.len(),
            tc == texts_of(target_codes@),
            tu@.len() == tc.len() == target_deleted@.len(),
            forall|q: int| 0 <= q < tc.len() ==> (#[trigger] tu@[q])@ == upper(tc[q]),
            forall|q: int| 0 <= q < su@.len() ==> (#[trigger] su@[q])@ == upper(source_codes@[q]@),
            out@.len() == j,
            forall|q: int|
                0 <= q < j ==> (#[trigger] out@[q])@ == mark_set_match(tc, target_deleted@, source_codes@[q]@),
        decreases source_codes@.len() - j,
    {
        let w = code_positions(&tu, su[j].as_slice(), Ghost(tc));
        let m = if w.len() == 0 {
            MarkSetMatch::New
        } else {
            let t = w[0];
            MarkSetMatch::Existing { target: t, duplicate: w.len() > 1, undelete: target_deleted[t] }
        };
        assert(w@.len() > 0 ==> positions_view(w@)[0] == w@[0] as int);
        out.push(m);
        j += 1;
    }
    let gone = codes_not_incoming_of(target_codes, &tu, &su, Ghost(sc));
    (out, gone)
}

proof fn lemma_with_code(codes: Seq<Seq<char>>, u: Seq<char>)
    ensures
        forall|k: int|
            0 <= k < with_code(codes, u).len() ==> 0 <= #[trigger] with_code(codes, u)[k] < codes.len() && upper(
                codes[with_code(codes, u)[k]],
            ) == u,
        forall|i: int| 0 <= i < codes.len() && upper(#[trigger] codes[i]) == u ==> with_code(codes, u).contains(i),
    decreases codes.len(),
{
    if codes.len() > 0 {
        let d = codes.drop_last();
        lemma_with_code(d, u);
        let p = with_code(d, u);
        let w = with_code(codes, u);
        assert forall|k: int| 0 <= k < w.len() implies 0 <= #[trigger] w[k] < codes.len() && upper(codes[w[k]]) == u by {
            if k < p.len() {
                assert(w[k] == p[k]);
                assert(codes[p[k]] == d[p[k]]);
            }
        }
        assert forall|i: int| 0 <= i < codes.len() && upper(#[trigger] codes[i]) == u implies w.contains(i) by {
            if i < codes.len() - 1 {
                assert(codes[i] == d[i]);
                assert(p.contains(i));
                let k = choose|k: int| 0 <= k < p.len() && p[k] == i;
                assert(w[k] == p[k]);
            } else {
                assert(w[w.len() - 1] == i);
            }
        }
    }
}

proof fn lemma_codes_not_incoming(tc: Seq<Seq<char>>, sc: Seq<Seq<char>>)
    ensures
        forall|i: int|
            #[trigger] codes_not_incoming(tc, sc).contains(i) <==> 0 <= i < tc.len() && with_code(sc, upper(tc[i])).len()
                == 0,
    decreases tc.len(),
{
    if tc.len() > 0 {
        let d = tc.drop_last();
        lemma_codes_not_incoming(d, sc);
        let p = codes_not_incoming(d, sc);
        let g = codes_not_incoming(tc, sc);
        assert forall|i: int| #[trigger] g.contains(i) <==> 0 <= i < tc.len() && with_code(sc, upper(tc[i])).len() == 0 by {
            if g.contains(i) {
                let k = choose|k: int| 0 <= k < g.len() && g[k] == i;
                if k < p.len() {
                    assert(p.contains(i));
                    assert(tc[i] == d[i]);
                }
            }
            if 0 <= i < tc.len() && with_code(sc, upper(tc[i])).len() == 0 {
                if i < tc.len() - 1 {
                    assert(tc[i] == d[i]);
                    assert(p.contains(i));
                    let k = choose|k: int| 0 <= k < p.len() && p[k] == i;
                    assert(g[k] == p[k]);
                } else {
                    assert(g[g.len() - 1] == i);
                }
            }
        }
    }
}

/// A snapshot replace deletes exactly the class's mark sets whose code no
/// incoming mark set has (ignoring ASCII case); so a mark set that an
/// incoming one goes into is never deleted.
pub proof fn law_mark_set_merge_keeps_targets(tc: Seq<Seq<char>>, tdeleted: Seq<bool>, sc: Seq<Seq<char>>)
    ensures
        forall|i: int|
            #[trigger] codes_not_incoming(tc, sc).contains(i) <==> 0 <= i < tc.len() && forall|j: int|
                0 <= j < sc.len() ==> upper(#[trigger] sc[j]) != upper(tc[i]),
        forall|j: int|
            0 <= j < sc.len() ==> (#[trigger] mark_set_match(tc, tdeleted, sc[j]) matches MarkSetMatchModel::Existing {
                target,
                ..
            } ==> 0 <= target < tc.len() && upper(tc[target]) == upper(sc[j]) && !codes_not_incoming(tc, sc).contains(
                target,
            )),
{
    lemma_codes_not_incoming(tc, sc);
    assert forall|i: int| 0 <= i < tc.len() implies (with_code(sc, upper(tc[i])).len() == 0 <==> forall|j: int|
        0 <= j < sc.len() ==> upper(#[trigger] sc[j]) != upper(tc[i])) by {
        lemma_with_code(sc, upper(tc[i]));
        let w = with_code(sc, upper(tc[i]));
        if w.len() > 0 {
            assert(upper(sc[w[0]]) == upper(tc[i]));
        }
        if exists|j: int| 0 <= j < sc.len() && upper(#[trigger] sc[j]) == upper(tc[i]) {
            let j = choose|j: int| 0 <= j < sc.len() && upper(#[trigger] sc[j]) == upper(tc[i]);
            assert(w.contains(j));
        }
    }
    assert forall|j: int| 0 <= j < sc.len() implies (#[trigger] mark_set_match(tc, tdeleted, sc[j]) matches MarkSetMatchModel::Existing {
        target,
        ..
    } ==> 0 <= target < tc.len() && upper(tc[target]) == upper(sc[j]) && !codes_not_incoming(tc, sc).contains(target)) by {
        lemma_with_code(tc, upper(sc[j]));
        let w = with_code(tc, upper(sc[j]));
        if w.len() > 0 {
            let t = w[0];
            assert(upper(tc[t]) == upper(sc[j]));
            lemma_with_code(sc, upper(tc[t]));
            assert(with_code(sc, upper(tc[t])).contains(j));
        }
    }
}

/// The collisions that a transfer preview lists: each incoming assessment
/// (in order) that has the key of one of the target's, with the first
/// such target's assessment.
pub open spec fn collisions(tk: Seq<Seq<char>>, sk: Seq<Seq<char>>) -> Seq<(int, int)>
    decreases sk.len(),
{
    if sk.len() == 0 {
        Seq::empty()
    } else {
        let p = collisions(tk, sk.drop_last());
        match first_free(tk, sk.last(), Set::empty()) {
            Some(t) => p.push((sk.len() - 1, t)),
            None => p,
        }
    }
}

/// The collisions of a transfer (see `collisions`).
pub fn transfer_collisions(target_keys: &Vec<String>, source_keys: &Vec<String>) -> (r: Vec<AssessmentCollision>)
    ensures
        r@.map_values(|c: AssessmentCollision| (c.source as int, c.target as int)) == collisions(
            texts_of(target_keys@),
            texts_of(source_keys@),
        ),
{
    let ghost sk = texts_of(source_keys@);
    let mut taken: Vec<bool> = Vec::new();
    let mut i: usize = 0;
    while i < target_keys.len()
        invariant
            i <= target_keys@.len(),
            taken@.len() == i,
            forall|q: int| 0 <= q < i ==> !(#[trigger] taken@[q]),
        decreases target_keys@.len() - i,
    {
        taken.push(false);
        i += 1;
    }
    assert(marks_taken(taken@, Set::<int>::empty()));
    let mut out: Vec<AssessmentCollision> = Vec::new();
    let mut j: usize = 0;
    assert(sk.take(0) =~= Seq::<Seq<char>>::empty());
    assert(out@.map_values(|c: AssessmentCollision| (c.source as int, c.target as int)) =~= Seq::<(int, int)>::empty());
    while j < source_keys.len()
        invariant
            j <= source_keys@.len(),
            sk == texts_of(source_keys@),
            taken@.len() == target_keys@.len(),
            marks_taken(taken@, Set::<int>::empty()),
            out@.map_values(|c: AssessmentCollision| (c.source as int, c.target as int)) == collisions(
                texts_of(target_keys@),
                sk.take(j as int),
            ),
        decreases source_keys@.len() - j,
    {
        assert(sk.take(j + 1).drop_last() =~= sk.take(j as int));
        assert(sk.take(j + 1).last() == source_keys@[j as int]@);
        let c = first_free_position(target_keys, chars_of(source_keys[j].as_str()).as_slice(), &taken, Ghost(Set::empty()));
        match c {
            Some(t) => {
                let ghost before = out@.map_values(|c: AssessmentCollision| (c.source as int, c.target as int));
                out.push(AssessmentCollision { source: j, target: t });
                assert(out@.map_values(|c: AssessmentCollision| (c.source as int, c.target as int)) =~= before.push(
                    (j as int, t as int),
                ));
            },
            None => {},
        }
        j += 1;
    }
    assert(sk.take(sk.len() as int) =~= sk);
    out
}

/// A transfer under `stop_on_collision` is refused exactly where its
/// preview lists a collision, and the refusal names the first one listed.
pub proof fn law_preview_predicts_refusal(tk: Seq<Seq<char>>, tidx: Seq<i64>, sk: Seq<Seq<char>>)
    ensures
        (assessment_merges(tk, tidx, sk, "stop_on_collision"@) is Err) <==> collisions(tk, sk).len() > 0,
        collisions(tk, sk).len() > 0 ==> assessment_merges(tk, tidx, sk, "stop_on_collision"@) == Err::<
            (Seq<AssessmentMergeModel>, Set<int>, int),
            (int, int),
        >(collisions(tk, sk)[0]),
    decreases sk.len(),
{
    reveal_strlit("append_new");
    reveal_strlit("stop_on_collision");
    assert("stop_on_collision"@ != "append_new"@) by {
        assert("stop_on_collision"@[0] != "append_new"@[0]);
    }
    if sk.len() > 0 {
        let d = sk.drop_last();
        law_preview_predicts_refusal(tk, tidx, d);
        lemma_stop(tk, tidx, d);
        let c = collisions(tk, d);
        if c.len() > 0 {
            assert(collisions(tk, sk)[0] == c[0]);
        } else {
            match first_free(tk, sk.last(), Set::empty()) {
                Some(t) => {
                    assert(collisions(tk, sk) =~= seq![(sk.len() - 1, t)]);
                },
                None => {
                    assert(collisions(tk, sk) =~= c);
                },
            }
        }
    }
}

/// The positions of the codes (given with their upper case) that none of
/// the other codes (upper case) matches.
fn codes_not_incoming_of(
    target_codes: &Vec<String>,
    tu: &Vec<Vec<char>>,
    su: &Vec<Vec<char>>,
    Ghost(sc): Ghost<Seq<Seq<char>>>,
) -> (r: Vec<usize>)
    requires
        tu@.len() == target_codes@.len(),
        su@.len() == sc.len(),
        forall|q: int| 0 <= q < target_codes@.len() ==> (#[trigger] tu@[q])@ == upper(target_codes@[q]@),
        forall|q: int| 0 <= q < sc.len() ==> (#[trigger] su@[q])@ == upper(sc[q]),
    ensures
        positions_view(r@) == codes_not_incoming(texts_of(target_codes@), sc),
{
    let ghost tc = texts_of(target_codes@);
    let mut gone: Vec<usize> = Vec::new();
    let mut i: usize = 0;
    assert(tc.take(0) =~= Seq::<Seq<char>>::empty());
    assert(positions_view(gone@) =~= Seq::<int>::empty());
    while i < target_codes.len()
        invariant
            i <= tc.len() == tu@.len(),
            tc == texts_of(target_codes@),
            su@.len() == sc.len(),
            forall|q: int| 0 <= q < tc.len() ==> (#[trigger] tu@[q])@ == upper(tc[q]),
            forall|q: int| 0 <= q < sc.len() ==> (#[trigger] su@[q])@ == upper(sc[q]),
            positions_view(gone@) == codes_not_incoming(tc.take(i as int), sc),
        decreases tc.len() - i,
    {
        assert(tc.take(i + 1).drop_last() =~= tc.take(i as int));
        assert(tc.take(i + 1).last() == tc[i as int]);
        assert(tu@[i as int]@ == upper(tc[i as int]));
        let w = code_positions(su, tu[i].as_slice(), Ghost(sc));
        if w.len() == 0 {
            let ghost before = gone@;
            gone.push(i);
            assert(positions_view(gone@) =~= positions_view(before).push(i as int));
        }
        i += 1;
    }
    assert(tc.take(tc.len() as int) =~= tc);
    gone
}

/// The options of updating a class from a legacy class folder: replace
/// with the snapshot (`replace_snapshot`) or not (`upsert_preserve`, where
/// none is given), the collision policy (`merge_existing` where none is
/// given; `append_new` or `stop_on_collision`), and whether the class
/// keeps its own active flags and masks (yes where not said). Words are
/// matched exactly; another word is refused.
pub open spec fn legacy_update_options(mode: Option<Seq<char>>, policy: Option<Seq<char>>, preserve: Option<bool>) -> Result<
    (bool, Seq<char>, bool),
    Seq<char>,
> {
    let m = match mode {
        Some(x) => x,
        None => "upsert_preserve"@,
    };
    let p = match policy {
        Some(x) => x,
        None => "merge_existing"@,
    };
    if m != "upsert_preserve"@ && m != "replace_snapshot"@ {
        Err("invalid mode"@)
    } else if p != "merge_existing"@ && p != "append_new"@ && p != "stop_on_collision"@ {
        Err("invalid collisionPolicy"@)
    } else {
        Ok(
            (
                m == "replace_snapshot"@,
                p,
                match preserve {
                    Some(b) => b,
                    None => true,
                },
            ),
        )
    }
}

/// The options of updating a class from a legacy class folder (see
/// `legacy_update_options`): whether it is a snapshot replace, the
/// collision policy, and whether local validity is kept. A parameter of
/// another kind counts as not given.
pub fn parse_legacy_update_options(
    mode: Option<&crate::params::ParamValue>,
    policy: Option<&crate::params::ParamValue>,
    preserve: Option<&crate::params::ParamValue>,
) -> (r: Result<(bool, String, bool), String>)
    ensures
        match r {
            Ok(o) => legacy_update_options(
                crate::params::text_of(mode),
                crate::params::text_of(policy),
                crate::students::bool_of(preserve),
            ) == Ok::<(bool, Seq<char>, bool), Seq<char>>((o.0, o.1@, o.2)),
            Err(e) => legacy_update_options(
                crate::params::text_of(mode),
                crate::params::text_of(policy),
                crate::students::bool_of(preserve),
            ) == Err::<(bool, Seq<char>, bool), Seq<char>>(e@),
        },
{
    let m = match mode {
        Some(crate::params::ParamValue::Text(x)) => chars_of(x.as_str()),
        _ => chars_of("upsert_preserve"),
    };
    let p = match policy {
        Some(crate::params::ParamValue::Text(x)) => chars_of(x.as_str()),
        _ => chars_of("merge_existing"),
    };
    let replace = crate::text::chars_eq_str(m.as_slice(), "replace_snapshot");
    if !crate::text::chars_eq_str(m.as_slice(), "upsert_preserve") && !replace {
        return Err(String::from_str("invalid mode"));
    }
    if !crate::text::chars_eq_str(p.as_slice(), "merge_existing") && !crate::text::chars_eq_str(
        p.as_slice(),
        "append_new",
    ) && !crate::text::chars_eq_str(p.as_slice(), "stop_on_collision") {
        return Err(String::from_str("invalid collisionPolicy"));
    }
    let keep = match preserve {
        Some(crate::params::ParamValue::Bool(b)) => *b,
        _ => true,
    };
    Ok((replace, crate::text::string_of_seq(&p), keep))
}

/// What an update from a legacy class writes to the active flag and mask
/// of a student it matches: nothing where the class keeps its own
/// validity; else the incoming flag, and the incoming mask (`TBA` where it
/// has none).
pub fn matched_validity(preserve_local_validity: bool, incoming_active: bool, incoming_mask: Option<String>) -> (r:
    Option<(bool, String)>)
    ensures
        match r {
            None => preserve_local_validity,
            Some(v) => !preserve_local_validity && v.0 == incoming_active && v.1@ == match incoming_mask {
                Some(m) => m@,
                None => "TBA"@,
            },
        },
{
    if preserve_local_validity {
        None
    } else {
        let m = match incoming_mask {
            Some(m) => m,
            None => String::from_str("TBA"),
        };
        Some((incoming_active, m))
    }
}

/// The class's mark sets that an update from a legacy class deletes:
/// under a snapshot replace, those whose code no incoming mark set has
/// (see `codes_not_incoming`); none otherwise.
pub fn mark_sets_deleted(replace_snapshot: bool, target_codes: &Vec<String>, source_codes: &Vec<String>) -> (r: Vec<
    usize,
>)
    ensures
        positions_view(r@) == if replace_snapshot {
            codes_not_incoming(texts_of(target_codes@), texts_of(source_codes@))
        } else {
            Seq::empty()
        },
{
    if !replace_snapshot {
        let e: Vec<usize> = Vec::new();
        assert(positions_view(e@) =~= Seq::<int>::empty());
        return e;
    }
    let tu = upper_all(target_codes);
    let su = upper_all(source_codes);
    codes_not_incoming_of(target_codes, &tu, &su, Ghost(texts_of(source_codes@)))
}

} // verus!
