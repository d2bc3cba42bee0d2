//! The table of abort flags of running build tasks.
//!
//! Each registration creates a flag of its own, named by a number that the
//! registering build keeps and polls. The table maps a task id to the flag of
//! its latest registration: an abort request for the id sets that flag, and a
//! later registration of the same id leaves the earlier build's flag as it
//! was. A build takes its id out of the table when it ends and then releases
//! its flag.
use vstd::prelude::*;

use crate::text::str_eq;

verus! {

/// A task id and the flag of its latest registration.
pub struct Registration {
    pub task_id: String,
    pub flag: u64,
}

/// The state of one abort flag.
pub struct FlagState {
    pub flag: u64,
    pub aborted: bool,
}

/// The registered task ids, no id twice, and the live flags, in ascending
/// order of their numbers.
pub struct AbortFlags {
    registrations: Vec<Registration>,
    states: Vec<FlagState>,
}

/// The table as the builds and abort requests see it: which flag each task id
/// names, and which live flags are set.
pub ghost struct AbortTable {
    pub ids: Map<Seq<char>, u64>,
    pub flags: Map<u64, bool>,
}

spec fn distinct_ids(regs: Seq<Registration>) -> bool {
    forall|i: int, j: int|
        0 <= i < regs.len() && 0 <= j < regs.len() && i != j ==> regs[i].task_id@
            != regs[j].task_id@
}

spec fn ascending(states: Seq<FlagState>) -> bool {
    forall|i: int, j: int| 0 <= i < j < states.len() ==> states[i].flag < states[j].flag
}

spec fn has_reg(regs: Seq<Registration>, k: Seq<char>) -> bool {
    exists|i: int| 0 <= i < regs.len() && regs[i].task_id@ == k
}

spec fn reg_index(regs: Seq<Registration>, k: Seq<char>) -> int {
    choose|i: int| 0 <= i < regs.len() && regs[i].task_id@ == k
}

spec fn ids_of(regs: Seq<Registration>) -> Map<Seq<char>, u64> {
    Map::new(|k: Seq<char>| has_reg(regs, k), |k: Seq<char>| regs[reg_index(regs, k)].flag)
}

spec fn has_state(states: Seq<FlagState>, g: u64) -> bool {
    exists|i: int| 0 <= i < states.len() && states[i].flag == g
}

spec fn state_index(states: Seq<FlagState>, g: u64) -> int {
    choose|i: int| 0 <= i < states.len() && states[i].flag == g
}

spec fn flags_of(states: Seq<FlagState>) -> Map<u64, bool> {
    Map::new(|g: u64| has_state(states, g), |g: u64| states[state_index(states, g)].aborted)
}

spec fn names_live_flags(regs: Seq<Registration>, states: Seq<FlagState>) -> bool {
    forall|i: int| 0 <= i < regs.len() ==> flags_of(states).contains_key(#[trigger] regs[i].flag)
}

spec fn distinct_flags(regs: Seq<Registration>) -> bool {
    forall|i: int, j: int|
        0 <= i < regs.len() && 0 <= j < regs.len() && i != j ==> regs[i].flag != regs[j].flag
}

spec fn representation_ok(regs: Seq<Registration>, states: Seq<FlagState>) -> bool {
    &&& distinct_ids(regs)
    &&& ascending(states)
    &&& names_live_flags(regs, states)
    &&& distinct_flags(regs)
}

impl AbortFlags {
    /// No task id occurs twice, no two ids name the same flag, every id names
    /// a live flag, and the flags are in ascending order.
    #[verifier::type_invariant]
    spec fn well_formed(self) -> bool {
        representation_ok(self.registrations@, self.states@)
    }
}

impl View for AbortFlags {
    type V = AbortTable;

    closed spec fn view(&self) -> AbortTable {
        AbortTable { ids: ids_of(self.registrations@), flags: flags_of(self.states@) }
    }
}

/// `g` is the least number that names no live flag.
pub open spec fn is_least_free(flags: Map<u64, bool>, g: u64) -> bool {
    !flags.contains_key(g) && forall|h: u64| h < g ==> flags.contains_key(h)
}

/// Some number names no live flag.
pub open spec fn has_free_flag(t: AbortTable) -> bool {
    exists|g: u64| is_least_free(t.flags, g)
}

/// What holds of every table: each registered id names a live flag, and some
/// number is free for a new one.
pub open spec fn table_well_formed(t: AbortTable) -> bool {
    &&& forall|k: Seq<char>| t.ids.contains_key(k) ==> t.flags.contains_key(#[trigger] t.ids[k])
    &&& has_free_flag(t)
}

/// The number a new registration gets: the least one that names no live flag.
pub open spec fn fresh_flag(t: AbortTable) -> u64 {
    choose|g: u64| is_least_free(t.flags, g)
}

/// The table after registering the new flag `g`, not set, for `task_id`.
pub open spec fn registered(t: AbortTable, task_id: Seq<char>, g: u64) -> AbortTable {
    AbortTable { ids: t.ids.insert(task_id, g), flags: t.flags.insert(g, false) }
}

/// The table after an abort request for `task_id`: the flag it names is set.
pub open spec fn aborted(t: AbortTable, task_id: Seq<char>) -> AbortTable {
    if t.ids.contains_key(task_id) && t.flags.contains_key(t.ids[task_id]) {
        AbortTable { ids: t.ids, flags: t.flags.insert(t.ids[task_id], true) }
    } else {
        t
    }
}

/// The table after taking `task_id` out.
pub open spec fn taken(t: AbortTable, task_id: Seq<char>) -> AbortTable {
    AbortTable { ids: t.ids.remove(task_id), flags: t.flags }
}

/// What taking `task_id` out hands back: the flag it named.
pub open spec fn take_answer(t: AbortTable, task_id: Seq<char>) -> Option<u64> {
    if t.ids.contains_key(task_id) {
        Some(t.ids[task_id])
    } else {
        None
    }
}

/// The table after the flag `g` is released by the build that held it; an id
/// that still names it is taken out with it.
pub open spec fn released(t: AbortTable, g: u64) -> AbortTable {
    AbortTable {
        ids: Map::new(
            |k: Seq<char>| t.ids.contains_key(k) && t.ids[k] != g,
            |k: Seq<char>| t.ids[k],
        ),
        flags: t.flags.remove(g),
    }
}

/// Whether the flag `g` is live and set.
pub open spec fn flag_set(t: AbortTable, g: u64) -> bool {
    t.flags.contains_key(g) && t.flags[g]
}

// ==================== the table's representation ====================

proof fn lemma_least_free_unique(flags: Map<u64, bool>, g: u64)
    requires
        is_least_free(flags, g),
    ensures
        (choose|h: u64| is_least_free(flags, h)) == g,
{
    let c = choose|h: u64| is_least_free(flags, h);
    assert(is_least_free(flags, c));
    if c < g {
        assert(flags.contains_key(c));
    } else if c > g {
        assert(flags.contains_key(g));
    }
}

proof fn lemma_reg_at(regs: Seq<Registration>, i: int)
    requires
        distinct_ids(regs),
        0 <= i < regs.len(),
    ensures
        ids_of(regs).contains_key(regs[i].task_id@),
        ids_of(regs)[regs[i].task_id@] == regs[i].flag,
{
    let k = regs[i].task_id@;
    assert(has_reg(regs, k));
    let c = reg_index(regs, k);
    assert(c == i);
}

proof fn lemma_state_at(states: Seq<FlagState>, i: int)
    requires
        ascending(states),
        0 <= i < states.len(),
    ensures
        flags_of(states).contains_key(states[i].flag),
        flags_of(states)[states[i].flag] == states[i].aborted,
{
    let g = states[i].flag;
    assert(has_state(states, g));
    let c = state_index(states, g);
    assert(c == i);
}

proof fn lemma_ids_set(regs: Seq<Registration>, i: int, r: Registration)
    requires
        distinct_ids(regs),
        0 <= i < regs.len(),
        regs[i].task_id@ == r.task_id@,
    ensures
        distinct_ids(regs.update(i, r)),
        ids_of(regs.update(i, r)) == ids_of(regs).insert(r.task_id@, r.flag),
{
    let n = regs.update(i, r);
    assert forall|a: int| 0 <= a < n.len() implies n[a].task_id@ == regs[a].task_id@ by {}
    let m = ids_of(regs).insert(r.task_id@, r.flag);
    assert forall|k: Seq<char>| #[trigger] ids_of(n).contains_key(k) == m.contains_key(k) by {
        if has_reg(regs, k) {
            let j = reg_index(regs, k);
            assert(n[j].task_id@ == k);
        }
        if has_reg(n, k) {
            let j = reg_index(n, k);
            assert(regs[j].task_id@ == k);
        }
        if k == r.task_id@ {
            assert(n[i].task_id@ == k);
        }
    }
    assert forall|k: Seq<char>| #[trigger] ids_of(n).contains_key(k) implies ids_of(n)[k] == m[k] by {
        let j = reg_index(n, k);
        lemma_reg_at(n, j);
        if j != i {
            lemma_reg_at(regs, j);
            assert(regs[j].task_id@ != regs[i].task_id@);
        }
    }
    assert(ids_of(n) =~= m);
}

proof fn lemma_ids_push(regs: Seq<Registration>, r: Registration)
    requires
        distinct_ids(regs),
        !has_reg(regs, r.task_id@),
    ensures
        distinct_ids(regs.push(r)),
        ids_of(regs.push(r)) == ids_of(regs).insert(r.task_id@, r.flag),
{
    let n = regs.push(r);
    let len = regs.len() as int;
    assert forall|j: int| 0 <= j < len implies regs[j].task_id@ != r.task_id@ by {
        if regs[j].task_id@ == r.task_id@ {
            assert(has_reg(regs, r.task_id@));
        }
    }
    assert forall|a: int, b: int|
        0 <= a < n.len() && 0 <= b < n.len() && a != b implies n[a].task_id@ != n[b].task_id@ by {
        if a < len && b < len {
            assert(n[a] == regs[a] && n[b] == regs[b]);
        }
    }
    let m = ids_of(regs).insert(r.task_id@, r.flag);
    assert forall|k: Seq<char>| #[trigger] ids_of(n).contains_key(k) == m.contains_key(k) by {
        if has_reg(regs, k) {
            let j = reg_index(regs, k);
            assert(n[j].task_id@ == k);
        }
        if has_reg(n, k) {
            let j = reg_index(n, k);
            if j < len {
                assert(regs[j].task_id@ == k);
            }
        }
        if k == r.task_id@ {
            assert(n[len].task_id@ == k);
        }
    }
    assert forall|k: Seq<char>| #[trigger] ids_of(n).contains_key(k) implies ids_of(n)[k] == m[k] by {
        let j = reg_index(n, k);
        lemma_reg_at(n, j);
        if j < len {
            lemma_reg_at(regs, j);
        }
    }
    assert(ids_of(n) =~= m);
}

proof fn lemma_ids_remove(regs: Seq<Registration>, i: int)
    requires
        distinct_ids(regs),
        0 <= i < regs.len(),
    ensures
        distinct_ids(regs.remove(i)),
        ids_of(regs.remove(i)) == ids_of(regs).remove(regs[i].task_id@),
{
    let n = regs.remove(i);
    let id = regs[i].task_id@;
    assert forall|a: int, b: int|
        0 <= a < n.len() && 0 <= b < n.len() && a != b implies n[a].task_id@ != n[b].task_id@ by {
        let a2 = if a < i { a } else { a + 1 };
        let b2 = if b < i { b } else { b + 1 };
        assert(n[a] == regs[a2] && n[b] == regs[b2]);
    }
    let m = ids_of(regs).remove(id);
    assert forall|k: Seq<char>| #[trigger] ids_of(n).contains_key(k) == m.contains_key(k) by {
        if k != id && has_reg(regs, k) {
            let j = reg_index(regs, k);
            if j < i {
                assert(n[j].task_id@ == k);
            } else {
                assert(j != i);
                assert(n[j - 1].task_id@ == k);
            }
        }
        if has_reg(n, k) {
            let j = reg_index(n, k);
            let j2 = if j < i { j } else { j + 1 };
            assert(regs[j2].task_id@ == k);
            assert(j2 != i);
        }
    }
    assert forall|k: Seq<char>| #[trigger] ids_of(n).contains_key(k) implies ids_of(n)[k] == m[k] by {
        let j = reg_index(n, k);
        lemma_reg_at(n, j);
        let j2 = if j < i { j } else { j + 1 };
        assert(n[j] == regs[j2]);
        lemma_reg_at(regs, j2);
    }
    assert(ids_of(n) =~= m);
}

proof fn lemma_states_set(states: Seq<FlagState>, j: int, s: FlagState)
    requires
        ascending(states),
        0 <= j < states.len(),
        states[j].flag == s.flag,
    ensures
        ascending(states.update(j, s)),
        flags_of(states.update(j, s)) == flags_of(states).insert(s.flag, s.aborted),
{
    let n = states.update(j, s);
    assert forall|a: int| 0 <= a < n.len() implies n[a].flag == states[a].flag by {}
    let m = flags_of(states).insert(s.flag, s.aborted);
    assert forall|g: u64| #[trigger] flags_of(n).contains_key(g) == m.contains_key(g) by {
        if has_state(states, g) {
            let c = state_index(states, g);
            assert(n[c].flag == g);
        }
        if has_state(n, g) {
            let c = state_index(n, g);
            assert(states[c].flag == g);
        }
        if g == s.flag {
            assert(n[j].flag == g);
        }
    }
    assert forall|g: u64| #[trigger] flags_of(n).contains_key(g) implies flags_of(n)[g] == m[g] by {
        let c = state_index(n, g);
        lemma_state_at(n, c);
        if c != j {
            lemma_state_at(states, c);
        }
    }
    assert(flags_of(n) =~= m);
}

proof fn lemma_states_insert(states: Seq<FlagState>, p: int, s: FlagState)
    requires
        ascending(states),
        0 <= p <= states.len(),
        forall|k: int| 0 <= k < p ==> states[k].flag < s.flag,
        forall|k: int| p <= k < states.len() ==> states[k].flag > s.flag,
    ensures
        ascending(states.insert(p, s)),
        flags_of(states.insert(p, s)) == flags_of(states).insert(s.flag, s.aborted),
{
    let n = states.insert(p, s);
    assert forall|a: int, b: int| 0 <= a < b < n.len() implies n[a].flag < n[b].flag by {
        let a2 = if a < p { a } else { a - 1 };
        let b2 = if b < p { b } else { b - 1 };
        if a != p && b != p {
            assert(n[a] == states[a2] && n[b] == states[b2]);
        } else if a == p {
            assert(n[b] == states[b2]);
        } else {
            assert(n[a] == states[a2]);
        }
    }
    let m = flags_of(states).insert(s.flag, s.aborted);
    assert forall|g: u64| #[trigger] flags_of(n).contains_key(g) == m.contains_key(g) by {
        if has_state(states, g) {
            let c = state_index(states, g);
            if c < p {
                assert(n[c].flag == g);
            } else {
                assert(n[c + 1].flag == g);
            }
        }
        if has_state(n, g) {
            let c = state_index(n, g);
            if c < p {
                assert(states[c].flag == g);
            } else if c > p {
                assert(states[c - 1].flag == g);
            }
        }
        if g == s.flag {
            assert(n[p].flag == g);
        }
    }
    assert forall|g: u64| #[trigger] flags_of(n).contains_key(g) implies flags_of(n)[g] == m[g] by {
        let c = state_index(n, g);
        lemma_state_at(n, c);
        if c < p {
            assert(n[c] == states[c]);
            lemma_state_at(states, c);
        } else if c > p {
            assert(n[c] == states[c - 1]);
            lemma_state_at(states, c - 1);
        }
    }
    assert(flags_of(n) =~= m);
}

proof fn lemma_states_remove(states: Seq<FlagState>, j: int)
    requires
        ascending(states),
        0 <= j < states.len(),
    ensures
        ascending(states.remove(j)),
        flags_of(states.remove(j)) == flags_of(states).remove(states[j].flag),
{
    let n = states.remove(j);
    let g0 = states[j].flag;
    assert forall|a: int, b: int| 0 <= a < b < n.len() implies n[a].flag < n[b].flag by {
        let a2 = if a < j { a } else { a + 1 };
        let b2 = if b < j { b } else { b + 1 };
        assert(n[a] == states[a2] && n[b] == states[b2]);
    }
    let m = flags_of(states).remove(g0);
    assert forall|g: u64| #[trigger] flags_of(n).contains_key(g) == m.contains_key(g) by {
        if g != g0 && has_state(states, g) {
            let c = state_index(states, g);
            if c < j {
                assert(n[c].flag == g);
            } else {
                assert(c != j);
                assert(n[c - 1].flag == g);
            }
        }
        if has_state(n, g) {
            let c = state_index(n, g);
            let c2 = if c < j { c } else { c + 1 };
            assert(states[c2].flag == g);
            assert(c2 != j);
        }
    }
    assert forall|g: u64| #[trigger] flags_of(n).contains_key(g) implies flags_of(n)[g] == m[g] by {
        let c = state_index(n, g);
        lemma_state_at(n, c);
        let c2 = if c < j { c } else { c + 1 };
        assert(n[c] == states[c2]);
        lemma_state_at(states, c2);
    }
    assert(flags_of(n) =~= m);
}

proof fn lemma_free_exists(states: Seq<FlagState>, i: int)
    requires
        ascending(states),
        states.len() <= usize::MAX,
        0 <= i <= states.len(),
        forall|k: int| 0 <= k < i ==> states[k].flag == k,
    ensures
        exists|g: u64| is_least_free(flags_of(states), g),
    decreases states.len() - i,
{
    if i < states.len() && states[i].flag == i {
        lemma_free_exists(states, i + 1);
    } else {
        let g = i as u64;
        if i < states.len() {
            assert(states[i].flag > i) by {
                if i > 0 {
                    assert(states[i - 1].flag == i - 1);
                }
            }
        }
        assert forall|k: int| i <= k < states.len() implies states[k].flag > g by {
            if k > i {
                assert(states[i].flag < states[k].flag);
            }
        }
        assert(!flags_of(states).contains_key(g)) by {
            if has_state(states, g) {
                let c = state_index(states, g);
                assert(states[c].flag == g);
            }
        }
        assert forall|h: u64| h < g implies #[trigger] flags_of(states).contains_key(h) by {
            assert(states[h as int].flag == h);
        }
        assert(is_least_free(flags_of(states), g));
    }
}

proof fn lemma_view_well_formed(regs: Seq<Registration>, states: Seq<FlagState>)
    requires
        representation_ok(regs, states),
        states.len() <= usize::MAX,
    ensures
        table_well_formed(AbortTable { ids: ids_of(regs), flags: flags_of(states) }),
{
    assert forall|k: Seq<char>| ids_of(regs).contains_key(k) implies flags_of(states).contains_key(
        #[trigger] ids_of(regs)[k],
    ) by {
        let c = reg_index(regs, k);
        lemma_reg_at(regs, c);
    }
    lemma_free_exists(states, 0);
    let t = AbortTable { ids: ids_of(regs), flags: flags_of(states) };
    let g = choose|g: u64| is_least_free(flags_of(states), g);
    assert(is_least_free(t.flags, g));
}

impl AbortFlags {
    /// What every table satisfies.
    fn view_well_formed(&self)
        ensures
            table_well_formed(self@),
    {
        proof {
            use_type_invariant(self);
        }
        let n = self.states.len();
        proof {
            lemma_view_well_formed(self.registrations@, self.states@);
        }
    }

    /// The position of the registration that names the flag `g`.
    fn flag_owner(&self, g: u64) -> (r: Option<usize>)
        ensures
            match r {
                Some(i) => {
                    &&& i < self.registrations@.len()
                    &&& self.registrations@[i as int].flag == g
                },
                None => forall|j: int|
                    0 <= j < self.registrations@.len() ==> self.registrations@[j].flag != g,
            },
    {
        let mut i: usize = 0;
        while i < self.registrations.len()
            invariant
                i <= self.registrations@.len(),
                forall|j: int| 0 <= j < i ==> self.registrations@[j].flag != g,
            decreases self.registrations@.len() - i,
        {
            if self.registrations[i].flag == g {
                return Some(i);
            }
            i += 1;
        }
        None
    }
}

impl AbortFlags {
    /// An empty table.
    pub fn new() -> (r: AbortFlags)
        ensures
            r@ == (AbortTable { ids: Map::empty(), flags: Map::empty() }),
            table_well_formed(r@),
    {
        let r = AbortFlags { registrations: Vec::new(), states: Vec::new() };
        assert(r@.ids =~= Map::<Seq<char>, u64>::empty());
        assert(r@.flags =~= Map::<u64, bool>::empty());
        r.view_well_formed();
        r
    }

    /// The position of `task_id` among the registrations.
    fn id_position(&self, task_id: &str) -> (r: Option<usize>)
        ensures
            match r {
                Some(i) => {
                    &&& i < self.registrations@.len()
                    &&& self.registrations@[i as int].task_id@ == task_id@
                },
                None => !has_reg(self.registrations@, task_id@),
            },
    {
        let mut i: usize = 0;
        while i < self.registrations.len()
            invariant
                i <= self.registrations@.len(),
                forall|j: int| 0 <= j < i ==> self.registrations@[j].task_id@ != task_id@,
            decreases self.registrations@.len() - i,
        {
            if str_eq(self.registrations[i].task_id.as_str(), task_id) {
                return Some(i);
            }
            i += 1;
        }
        None
    }

    /// The position of the flag `g` among the live flags.
    fn flag_position(&self, g: u64) -> (r: Option<usize>)
        ensures
            match r {
                Some(i) => {
                    &&& i < self.states@.len()
                    &&& self.states@[i as int].flag == g
                },
                None => !has_state(self.states@, g),
            },
    {
        let mut i: usize = 0;
        while i < self.states.len()
            invariant
                i <= self.states@.len(),
                forall|j: int| 0 <= j < i ==> self.states@[j].flag != g,
            decreases self.states@.len() - i,
        {
            if self.states[i].flag == g {
                return Some(i);
            }
            i += 1;
        }
        None
    }

    /// The least number that names no live flag, and the position where its
    /// flag goes.
    fn free_flag(&self) -> (r: (usize, u64))
        requires
            ascending(self.states@),
        ensures
            r.0 <= self.states@.len(),
            forall|k: int| 0 <= k < r.0 ==> self.states@[k].flag < r.1,
            forall|k: int| r.0 <= k < self.states@.len() ==> self.states@[k].flag > r.1,
            is_least_free(flags_of(self.states@), r.1),
    {
        let n = self.states.len();
        let mut i: usize = 0;
        while i < n && self.states[i].flag == i as u64
            invariant
                n == self.states@.len(),
                i <= n,
                ascending(self.states@),
                forall|k: int| 0 <= k < i ==> self.states@[k].flag == k,
            decreases n - i,
        {
            i += 1;
        }
        let g = i as u64;
        let ghost s = self.states@;
        if i < n {
            assert(s[i as int].flag > i) by {
                if i > 0 {
                    assert(s[i - 1].flag == i - 1);
                    assert(s[i - 1].flag < s[i as int].flag);
                }
            }
        }
        assert forall|k: int| i <= k < n implies s[k].flag > g by {
            if k > i {
                assert(s[i as int].flag < s[k].flag);
            }
        }
        assert(!flags_of(s).contains_key(g)) by {
            if has_state(s, g) {
                let c = state_index(s, g);
                assert(s[c].flag == g);
            }
        }
        assert forall|h: u64| h < g implies #[trigger] flags_of(s).contains_key(h) by {
            assert(s[h as int].flag == h);
        }
        (i, g)
    }
}

/// Registers a new flag, not set, for `task_id` and hands back its number;
/// the id now names it. A flag that an earlier registration of the id
/// created stays as it was.
pub fn register_abort_flag(flags: &mut AbortFlags, task_id: &str) -> (r: u64)
    ensures
        r == fresh_flag(old(flags)@),
        is_least_free(old(flags)@.flags, r),
        final(flags)@ == registered(old(flags)@, task_id@, r),
        table_well_formed(final(flags)@),
{
    proof {
        use_type_invariant(&*flags);
    }
    let ghost before = *flags;
    let (p, g) = flags.free_flag();
    proof {
        lemma_least_free_unique(before@.flags, g);
    }
    let pos = flags.id_position(task_id);
    let mut t = AbortFlags::new();
    std::mem::swap(&mut t, flags);
    let mut regs = t.registrations;
    let mut states = t.states;
    let ghost old_regs = regs@;
    let ghost old_states = states@;
    assert(old_regs == before.registrations@ && old_states == before.states@);
    let state = FlagState { flag: g, aborted: false };
    proof {
        lemma_states_insert(old_states, p as int, state);
    }
    states.insert(p, state);
    let reg = Registration { task_id: task_id.to_owned(), flag: g };
    let ghost idx: int = match pos {
        Some(i) => i as int,
        None => old_regs.len() as int,
    };
    match pos {
        Some(i) => {
            proof {
                lemma_ids_set(old_regs, i as int, reg);
            }
            regs.set(i, reg);
        },
        None => {
            proof {
                lemma_ids_push(old_regs, reg);
            }
            regs.push(reg);
        },
    }
    proof {
        assert(regs@[idx].flag == g);
        assert forall|j: int| 0 <= j < regs@.len() implies flags_of(states@).contains_key(
            #[trigger] regs@[j].flag,
        ) by {
            if j != idx {
                assert(regs@[j] == old_regs[j]);
            }
        }
        assert forall|a: int, b: int|
            0 <= a < regs@.len() && 0 <= b < regs@.len() && a != b implies regs@[a].flag
            != regs@[b].flag by {
            if a != idx {
                assert(regs@[a] == old_regs[a]);
                assert(flags_of(old_states).contains_key(old_regs[a].flag));
            }
            if b != idx {
                assert(regs@[b] == old_regs[b]);
                assert(flags_of(old_states).contains_key(old_regs[b].flag));
            }
        }
    }
    *flags = AbortFlags { registrations: regs, states };
    flags.view_well_formed();
    g
}

/// Takes `task_id` out of the table, handing back the flag it named; `None`
/// when the id is not registered. The flag itself stays with its build.
pub fn take_abort_flag(flags: &mut AbortFlags, task_id: &str) -> (r: Option<u64>)
    ensures
        r == take_answer(old(flags)@, task_id@),
        final(flags)@ == taken(old(flags)@, task_id@),
        table_well_formed(final(flags)@),
{
    proof {
        use_type_invariant(&*flags);
    }
    let ghost before = *flags;
    match flags.id_position(task_id) {
        Some(i) => {
            proof {
                lemma_reg_at(before.registrations@, i as int);
                lemma_ids_remove(before.registrations@, i as int);
            }
            let mut t = AbortFlags::new();
            std::mem::swap(&mut t, flags);
            let mut regs = t.registrations;
            let states = t.states;
            let ghost old_regs = regs@;
            assert(old_regs == before.registrations@ && states@ == before.states@);
            let reg = regs.remove(i);
            proof {
                assert forall|j: int| 0 <= j < regs@.len() implies regs@[j] == old_regs[if j < i {
                    j
                } else {
                    j + 1
                }] by {}
                assert forall|j: int| 0 <= j < regs@.len() implies flags_of(states@).contains_key(
                    #[trigger] regs@[j].flag,
                ) by {
                    let j2 = if j < i { j } else { j + 1 };
                    assert(regs@[j] == old_regs[j2]);
                }
                assert forall|a: int, b: int|
                    0 <= a < regs@.len() && 0 <= b < regs@.len() && a != b implies regs@[a].flag
                    != regs@[b].flag by {
                    let a2 = if a < i { a } else { a + 1 };
                    let b2 = if b < i { b } else { b + 1 };
                    assert(regs@[a] == old_regs[a2] && regs@[b] == old_regs[b2]);
                }
            }
            *flags = AbortFlags { registrations: regs, states };
            flags.view_well_formed();
            Some(reg.flag)
        },
        None => {
            proof {
                assert(before@.ids.remove(task_id@) =~= before@.ids);
            }
            flags.view_well_formed();
            None
        },
    }
}

/// Releases the flag `g` of a build that has ended; an id that still names
/// it is taken out with it.
pub fn release_abort_flag(flags: &mut AbortFlags, g: u64)
    ensures
        final(flags)@ == released(old(flags)@, g),
        table_well_formed(final(flags)@),
{
    proof {
        use_type_invariant(&*flags);
    }
    let ghost before = *flags;
    let sp = flags.flag_position(g);
    let rp = flags.flag_owner(g);
    let mut t = AbortFlags::new();
    std::mem::swap(&mut t, flags);
    let mut regs = t.registrations;
    let mut states = t.states;
    let ghost old_regs = regs@;
    let ghost old_states = states@;
    assert(old_regs == before.registrations@ && old_states == before.states@);
    let ghost ids0 = before@.ids;
    let ghost target = released(before@, g).ids;
    match rp {
        Some(i) => {
            proof {
                lemma_reg_at(old_regs, i as int);
                lemma_ids_remove(old_regs, i as int);
                assert forall|k: Seq<char>| ids0.contains_key(k) && ids0[k] == g implies k
                    == old_regs[i as int].task_id@ by {
                    let c = reg_index(old_regs, k);
                    lemma_reg_at(old_regs, c);
                }
            }
            regs.remove(i);
            proof {
                assert forall|j: int| 0 <= j < regs@.len() implies regs@[j] == old_regs[if j
                    < i {
                    j
                } else {
                    j + 1
                }] by {}
                assert(ids_of(regs@) =~= target);
            }
        },
        None => {
            proof {
                assert forall|k: Seq<char>| ids0.contains_key(k) implies ids0[k] != g by {
                    let c = reg_index(old_regs, k);
                    lemma_reg_at(old_regs, c);
                }
                assert(ids_of(regs@) =~= target);
            }
        },
    }
    match sp {
        Some(j) => {
            proof {
                lemma_states_remove(old_states, j as int);
            }
            states.remove(j);
        },
        None => {
            proof {
                assert(flags_of(old_states).remove(g) =~= flags_of(old_states));
            }
        },
    }
    proof {
        assert(flags_of(states@) == flags_of(old_states).remove(g));
        let ir: int = match rp {
            Some(i) => i as int,
            None => old_regs.len() as int,
        };
        assert forall|j: int| 0 <= j < regs@.len() implies regs@[j] == old_regs[if j < ir {
            j
        } else {
            j + 1
        }] by {}
        assert forall|j: int| 0 <= j < regs@.len() implies flags_of(states@).contains_key(
            #[trigger] regs@[j].flag,
        ) by {
            let j2 = if j < ir { j } else { j + 1 };
            assert(regs@[j] == old_regs[j2]);
            assert(flags_of(old_states).contains_key(old_regs[j2].flag));
            if rp is Some {
                assert(j2 != ir);
            }
        }
        assert forall|a: int, b: int|
            0 <= a < regs@.len() && 0 <= b < regs@.len() && a != b implies regs@[a].flag
            != regs@[b].flag by {
            let a2 = if a < ir { a } else { a + 1 };
            let b2 = if b < ir { b } else { b + 1 };
            assert(regs@[a] == old_regs[a2] && regs@[b] == old_regs[b2]);
        }
        assert forall|a: int, b: int|
            0 <= a < regs@.len() && 0 <= b < regs@.len() && a != b implies regs@[a].task_id@
            != regs@[b].task_id@ by {
            let a2 = if a < ir { a } else { a + 1 };
            let b2 = if b < ir { b } else { b + 1 };
            assert(regs@[a] == old_regs[a2] && regs@[b] == old_regs[b2]);
        }
    }
    *flags = AbortFlags { registrations: regs, states };
    flags.view_well_formed();
}

/// Requests the abort of `task_id`: sets the flag it names and answers `true`
/// when the id is registered, answers `false` (the task may have ended)
/// otherwise.
pub fn abort_build(flags: &mut AbortFlags, task_id: &str) -> (r: bool)
    ensures
        r == old(flags)@.ids.contains_key(task_id@),
        final(flags)@ == aborted(old(flags)@, task_id@),
        r ==> flag_set(final(flags)@, final(flags)@.ids[task_id@]),
        table_well_formed(final(flags)@),
{
    proof {
        use_type_invariant(&*flags);
    }
    let ghost before = *flags;
    match flags.id_position(task_id) {
        Some(i) => {
            proof {
                lemma_reg_at(before.registrations@, i as int);
            }
            let g = flags.registrations[i].flag;
            match flags.flag_position(g) {
                Some(j) => {
                    let state = FlagState { flag: g, aborted: true };
                    let mut t = AbortFlags::new();
                    std::mem::swap(&mut t, flags);
                    let regs = t.registrations;
                    let mut states = t.states;
                    let ghost old_states = states@;
                    assert(regs@ == before.registrations@ && old_states == before.states@);
                    proof {
                        lemma_state_at(old_states, j as int);
                        lemma_states_set(old_states, j as int, state);
                    }
                    states.set(j, state);
                    proof {
                        assert forall|k: int| 0 <= k < regs@.len() implies flags_of(
                            states@,
                        ).contains_key(#[trigger] regs@[k].flag) by {
                            assert(flags_of(old_states).contains_key(regs@[k].flag));
                        }
                    }
                    *flags = AbortFlags { registrations: regs, states };
                },
                None => {
                    assert(flags_of(before.states@).contains_key(before.registrations@[i as int].flag));
                },
            }
            flags.view_well_formed();
            true
        },
        None => {
            flags.view_well_formed();
            false
        },
    }
}

/// Whether the flag `g` is live and set.
pub fn is_abort_requested(flags: &AbortFlags, g: u64) -> (r: bool)
    ensures
        r == flag_set(flags@, g),
{
    proof {
        use_type_invariant(flags);
    }
    match flags.flag_position(g) {
        Some(j) => {
            proof {
                lemma_state_at(flags.states@, j as int);
            }
            flags.states[j].aborted
        },
        None => false,
    }
}

// ==================== laws ====================

/// An abort request for a task reaches the flag of its latest registration,
/// and is answered `true`.
pub proof fn law_abort_reaches_registered_task(t: AbortTable, task_id: Seq<char>, g: u64)
    ensures
        registered(t, task_id, g).ids.contains_key(task_id),
        flag_set(aborted(registered(t, task_id, g), task_id), g),
{
}

/// A new registration's flag is not set, whatever earlier registrations of
/// the id had.
pub proof fn law_register_starts_unset(t: AbortTable, task_id: Seq<char>, g: u64)
    ensures
        !flag_set(registered(t, task_id, g), g),
        take_answer(registered(t, task_id, g), task_id) == Some(g),
{
}

/// Registering a task id again, under a new flag, leaves every live flag as
/// it was, among them the one an earlier build of the id polls; an abort
/// request for the id then reaches only the new flag.
pub proof fn law_registration_keeps_earlier_flags(
    t: AbortTable,
    task_id: Seq<char>,
    g: u64,
    h: u64,
)
    requires
        !t.flags.contains_key(g),
        t.flags.contains_key(h),
    ensures
        registered(t, task_id, g).flags.contains_key(h),
        flag_set(registered(t, task_id, g), h) == flag_set(t, h),
        flag_set(aborted(registered(t, task_id, g), task_id), h) == flag_set(t, h),
{
}

/// Once a task id is taken out, an abort request for it is answered `false`
/// and changes nothing, and taking it again gives nothing.
pub proof fn law_taken_flag_is_gone(t: AbortTable, task_id: Seq<char>)
    ensures
        !taken(t, task_id).ids.contains_key(task_id),
        aborted(taken(t, task_id), task_id) == taken(t, task_id),
        take_answer(taken(t, task_id), task_id) is None,
{
}

/// An abort request changes no registration and sets no flag but the one its
/// id names.
pub proof fn law_abort_is_local(t: AbortTable, task_id: Seq<char>, h: u64)
    requires
        t.ids.contains_key(task_id) ==> h != t.ids[task_id],
    ensures
        aborted(t, task_id).ids == t.ids,
        aborted(t, task_id).flags.contains_key(h) == t.flags.contains_key(h),
        flag_set(aborted(t, task_id), h) == flag_set(t, h),
{
}

/// Requesting the abort of a task twice has the effect of once.
pub proof fn law_abort_idempotent(t: AbortTable, task_id: Seq<char>)
    ensures
        aborted(aborted(t, task_id), task_id) == aborted(t, task_id),
{
    assert(aborted(aborted(t, task_id), task_id).flags =~= aborted(t, task_id).flags);
}

/// Releasing a flag touches no registration of another flag and no other
/// flag.
pub proof fn law_release_is_local(t: AbortTable, g: u64, h: u64, k: Seq<char>)
    requires
        h != g,
    ensures
        t.ids.contains_key(k) && t.ids[k] != g ==> released(t, g).ids.contains_key(k)
            && released(t, g).ids[k] == t.ids[k],
        !(released(t, g).ids.contains_key(k) && released(t, g).ids[k] == g),
        !released(t, g).flags.contains_key(g),
        released(t, g).flags.contains_key(h) == t.flags.contains_key(h),
        flag_set(released(t, g), h) == flag_set(t, h),
{
}

} // verus!
