//! The sample store (last text sent per field) and the differ that turns a
//! tick's readings into the minimal change set.
use vstd::prelude::*;
use crate::field::{MetricField, Reading, FIELD_COUNT, readings_view};

verus! {

/// Whether `r` differs from what `store` last sent for its field, or the
/// field was never sent.
pub open spec fn is_changed(store: Map<MetricField, Seq<char>>, r: (MetricField, Seq<char>)) -> bool {
    !store.contains_key(r.0) || store[r.0] != r.1
}

/// Whether one of the workspace readings of `rs` changed.
pub open spec fn pair_changed(store: Map<MetricField, Seq<char>>, rs: Seq<(MetricField, Seq<char>)>) -> bool {
    exists|i: int| 0 <= i < rs.len() && (#[trigger] rs[i]).0.is_paired() && is_changed(store, rs[i])
}

/// Whether reading `r` of a tick goes into the change set.
pub open spec fn is_sent(store: Map<MetricField, Seq<char>>, paired: bool, r: (MetricField, Seq<char>)) -> bool {
    is_changed(store, r) || (paired && r.0.is_paired())
}

/// The readings among the first `n` of `rs` that are sent, in their order.
pub open spec fn sent_upto(
    store: Map<MetricField, Seq<char>>,
    rs: Seq<(MetricField, Seq<char>)>,
    paired: bool,
    n: int,
) -> Seq<(MetricField, Seq<char>)>
    decreases n,
{
    if n <= 0 {
        Seq::empty()
    } else {
        let prev = sent_upto(store, rs, paired, n - 1);
        if is_sent(store, paired, rs[n - 1]) {
            prev.push(rs[n - 1])
        } else {
            prev
        }
    }
}

/// The change set of a tick: the readings that differ from the store, and
/// both workspace readings whenever either of them differs.
pub open spec fn change_set(store: Map<MetricField, Seq<char>>, rs: Seq<(MetricField, Seq<char>)>) -> Seq<(MetricField, Seq<char>)> {
    sent_upto(store, rs, pair_changed(store, rs), rs.len() as int)
}

/// The store after a tick: each reading replaces its field's entry.
pub open spec fn committed(store: Map<MetricField, Seq<char>>, rs: Seq<(MetricField, Seq<char>)>) -> Map<MetricField, Seq<char>>
    decreases rs.len(),
{
    if rs.len() == 0 {
        store
    } else {
        committed(store, rs.drop_last()).insert(rs.last().0, rs.last().1)
    }
}

/// No field occurs twice.
pub open spec fn fields_distinct(rs: Seq<(MetricField, Seq<char>)>) -> bool {
    forall|i: int, j: int| 0 <= i < j < rs.len() ==> (#[trigger] rs[i]).0 != (#[trigger] rs[j]).0
}

/// A field that no reading of a tick names keeps its entry.
pub proof fn lemma_committed_other(store: Map<MetricField, Seq<char>>, rs: Seq<(MetricField, Seq<char>)>, f: MetricField)
    requires
        forall|i: int| 0 <= i < rs.len() ==> (#[trigger] rs[i]).0 != f,
    ensures
        committed(store, rs).contains_key(f) == store.contains_key(f),
        store.contains_key(f) ==> committed(store, rs)[f] == store[f],
    decreases rs.len(),
{
    if rs.len() > 0 {
        let p = rs.drop_last();
        assert(rs[rs.len() - 1].0 != f);
        assert forall|i: int| 0 <= i < p.len() implies (#[trigger] p[i]).0 != f by {
            assert(p[i] == rs[i]);
        }
        lemma_committed_other(store, p, f);
    }
}

/// After a tick with distinct fields, each field read holds its reading.
pub proof fn lemma_committed_entries(store: Map<MetricField, Seq<char>>, rs: Seq<(MetricField, Seq<char>)>)
    requires
        fields_distinct(rs),
    ensures
        forall|i: int|
            0 <= i < rs.len() ==> committed(store, rs).contains_key(#[trigger] rs[i].0)
                && committed(store, rs)[rs[i].0] == rs[i].1,
    decreases rs.len(),
{
    if rs.len() > 0 {
        let p = rs.drop_last();
        assert(fields_distinct(p)) by {
            assert forall|i: int, j: int| 0 <= i < j < p.len() implies (#[trigger] p[i]).0 != (#[trigger] p[j]).0 by {
                assert(p[i] == rs[i] && p[j] == rs[j]);
            }
        }
        lemma_committed_entries(store, p);
        assert forall|i: int| 0 <= i < rs.len() implies committed(store, rs).contains_key(#[trigger] rs[i].0)
            && committed(store, rs)[rs[i].0] == rs[i].1 by {
            if i < rs.len() - 1 {
                assert(p[i] == rs[i]);
                assert(rs[i].0 != rs[rs.len() - 1].0);
            }
        }
    }
}

/// The readings among the first `n` that are sent are exactly the members of
/// `sent_upto`.
proof fn lemma_sent_members(
    store: Map<MetricField, Seq<char>>,
    rs: Seq<(MetricField, Seq<char>)>,
    paired: bool,
    n: int,
)
    requires
        0 <= n <= rs.len(),
    ensures
        forall|i: int| 0 <= i < n && is_sent(store, paired, rs[i])
            ==> #[trigger] sent_upto(store, rs, paired, n).contains(rs[i]),
        forall|k: int| 0 <= k < sent_upto(store, rs, paired, n).len()
            ==> exists|i: int| 0 <= i < n && rs[i] == #[trigger] sent_upto(store, rs, paired, n)[k]
                && is_sent(store, paired, rs[i]),
    decreases n,
{
    if n > 0 {
        lemma_sent_members(store, rs, paired, n - 1);
        let prev = sent_upto(store, rs, paired, n - 1);
        let cur = sent_upto(store, rs, paired, n);
        assert forall|i: int| 0 <= i < n && is_sent(store, paired, rs[i]) implies #[trigger] cur.contains(rs[i]) by {
            if i < n - 1 {
                assert(prev.contains(rs[i]));
                let k = choose|k: int| 0 <= k < prev.len() && prev[k] == rs[i];
                assert(cur[k] == rs[i]);
            } else {
                assert(cur[cur.len() - 1] == rs[i]);
            }
        }
        assert forall|k: int| 0 <= k < cur.len() implies exists|i: int| 0 <= i < n && rs[i] == #[trigger] cur[k]
            && is_sent(store, paired, rs[i]) by {
            if k < prev.len() {
                assert(cur[k] == prev[k]);
                let i = choose|i: int| 0 <= i < n - 1 && rs[i] == #[trigger] prev[k] && is_sent(store, paired, rs[i]);
                assert(rs[i] == cur[k]);
            } else {
                assert(rs[n - 1] == cur[k]);
            }
        }
    }
}

/// Minimality: a reading of a tick is in the change set exactly when it
/// differs from the store, or when it is a workspace reading and either
/// workspace reading differs; the change set holds nothing else.
pub proof fn lemma_change_set_minimal(store: Map<MetricField, Seq<char>>, rs: Seq<(MetricField, Seq<char>)>)
    requires
        fields_distinct(rs),
    ensures
        forall|i: int|
            0 <= i < rs.len() ==> (change_set(store, rs).contains(#[trigger] rs[i]) <==> (is_changed(store, rs[i])
                || (rs[i].0.is_paired() && pair_changed(store, rs)))),
        forall|x: (MetricField, Seq<char>)| #[trigger] change_set(store, rs).contains(x) ==> rs.contains(x),
{
    let paired = pair_changed(store, rs);
    let cs = change_set(store, rs);
    lemma_sent_members(store, rs, paired, rs.len() as int);
    assert forall|i: int| 0 <= i < rs.len() && #[trigger] cs.contains(rs[i]) implies is_sent(store, paired, rs[i]) by {
        let k = choose|k: int| 0 <= k < cs.len() && cs[k] == rs[i];
        let j = choose|j: int| 0 <= j < rs.len() && rs[j] == #[trigger] cs[k] && is_sent(store, paired, rs[j]);
        if j != i {
            if j < i {
                assert(rs[j].0 != rs[i].0);
            } else {
                assert(rs[i].0 != rs[j].0);
            }
        }
    }
    assert forall|x: (MetricField, Seq<char>)| #[trigger] cs.contains(x) implies rs.contains(x) by {
        let k = choose|k: int| 0 <= k < cs.len() && cs[k] == x;
        let j = choose|j: int| 0 <= j < rs.len() && rs[j] == #[trigger] cs[k] && is_sent(store, paired, rs[j]);
        assert(rs[j] == x);
    }
}

/// Minimality, second half: the store after a tick is the store updated with
/// the change set alone, so each entry is the text of the latest event that
/// held its field.
pub proof fn lemma_store_tracks_events(store: Map<MetricField, Seq<char>>, rs: Seq<(MetricField, Seq<char>)>)
    requires
        fields_distinct(rs),
    ensures
        committed(store, rs) == committed(store, change_set(store, rs)),
{
    let paired = pair_changed(store, rs);
    lemma_prefix_tracks(store, rs, paired, rs.len() as int);
    assert(rs.subrange(0, rs.len() as int) =~= rs);
}

proof fn lemma_prefix_tracks(store: Map<MetricField, Seq<char>>, rs: Seq<(MetricField, Seq<char>)>, paired: bool, n: int)
    requires
        fields_distinct(rs),
        0 <= n <= rs.len(),
    ensures
        committed(store, rs.subrange(0, n)) == committed(store, sent_upto(store, rs, paired, n)),
    decreases n,
{
    if n > 0 {
        lemma_prefix_tracks(store, rs, paired, n - 1);
        let p = rs.subrange(0, n);
        let q = rs.subrange(0, n - 1);
        assert(p.drop_last() =~= q);
        let r = rs[n - 1];
        if !is_sent(store, paired, r) {
            assert forall|i: int| 0 <= i < q.len() implies (#[trigger] q[i]).0 != r.0 by {
                assert(q[i] == rs[i]);
            }
            lemma_committed_other(store, q, r.0);
            assert(committed(store, q).contains_key(r.0) && committed(store, q)[r.0] == r.1);
            assert(committed(store, p) =~= committed(store, q));
        } else {
            let s = sent_upto(store, rs, paired, n);
            assert(s.drop_last() =~= sent_upto(store, rs, paired, n - 1));
        }
    }
}

/// Idempotence: after a tick, a tick whose readings all repeat readings of
/// that tick dispatches nothing.
pub proof fn lemma_unchanged_tick_is_silent(
    store: Map<MetricField, Seq<char>>,
    rs: Seq<(MetricField, Seq<char>)>,
    next: Seq<(MetricField, Seq<char>)>,
)
    requires
        fields_distinct(rs),
        forall|x: (MetricField, Seq<char>)| #[trigger] next.contains(x) ==> rs.contains(x),
    ensures
        change_set(committed(store, rs), next).len() == 0,
{
    let after = committed(store, rs);
    lemma_committed_entries(store, rs);
    assert forall|i: int| 0 <= i < next.len() implies !is_changed(after, #[trigger] next[i]) by {
        assert(next.contains(next[i]));
        let j = choose|j: int| 0 <= j < rs.len() && rs[j] == next[i];
        assert(after.contains_key(rs[j].0));
    }
    let paired = pair_changed(after, next);
    assert(!paired);
    lemma_sent_members(after, next, paired, next.len() as int);
    let cs = change_set(after, next);
    if cs.len() > 0 {
        let i = choose|i: int| 0 <= i < next.len() && next[i] == #[trigger] cs[0] && is_sent(after, paired, next[i]);
        assert(false);
    }
}

/// Workspace pairing: when the workspace reading differs from the store,
/// the workspace list is sent in the same event even if it is unchanged.
pub proof fn lemma_workspace_pairing(store: Map<MetricField, Seq<char>>, rs: Seq<(MetricField, Seq<char>)>, i: int, j: int)
    requires
        fields_distinct(rs),
        0 <= i < rs.len(),
        0 <= j < rs.len(),
        rs[i].0 == MetricField::Workspace,
        rs[j].0 == MetricField::Workspaces,
        is_changed(store, rs[i]),
    ensures
        change_set(store, rs).contains(rs[i]),
        change_set(store, rs).contains(rs[j]),
{
    lemma_change_set_minimal(store, rs);
    assert(pair_changed(store, rs));
}

/// Two ticks that read the same battery texts: the first, from a store that
/// never sent them, sends both; the second sends neither.
pub proof fn lemma_battery_sent_once(
    store: Map<MetricField, Seq<char>>,
    first: Seq<(MetricField, Seq<char>)>,
    second: Seq<(MetricField, Seq<char>)>,
    level: Seq<char>,
    state: Seq<char>,
)
    requires
        !store.contains_key(MetricField::Battery),
        !store.contains_key(MetricField::BatteryState),
        fields_distinct(first),
        fields_distinct(second),
        first.contains((MetricField::Battery, level)),
        first.contains((MetricField::BatteryState, state)),
        second.contains((MetricField::Battery, level)),
        second.contains((MetricField::BatteryState, state)),
    ensures
        change_set(store, first).contains((MetricField::Battery, level)),
        change_set(store, first).contains((MetricField::BatteryState, state)),
        forall|x: (MetricField, Seq<char>)| #[trigger] change_set(committed(store, first), second).contains(x)
            ==> x.0 != MetricField::Battery && x.0 != MetricField::BatteryState,
{
    let after = committed(store, first);
    lemma_change_set_minimal(store, first);
    let a = choose|a: int| 0 <= a < first.len() && first[a] == (MetricField::Battery, level);
    let b = choose|b: int| 0 <= b < first.len() && first[b] == (MetricField::BatteryState, state);
    assert(change_set(store, first).contains(first[a]));
    assert(change_set(store, first).contains(first[b]));
    lemma_committed_entries(store, first);
    assert(after.contains_key(first[a].0));
    assert(after.contains_key(first[b].0));
    lemma_change_set_minimal(after, second);
    assert forall|x: (MetricField, Seq<char>)| #[trigger] change_set(after, second).contains(x)
        implies x.0 != MetricField::Battery && x.0 != MetricField::BatteryState by {
        let k = choose|k: int| 0 <= k < second.len() && second[k] == x;
        let c = choose|c: int| 0 <= c < second.len() && second[c] == (MetricField::Battery, level);
        let d = choose|d: int| 0 <= d < second.len() && second[d] == (MetricField::BatteryState, state);
        if x.0 == MetricField::Battery {
            if k != c {
                if k < c {
                    assert(second[k].0 != second[c].0);
                } else {
                    assert(second[c].0 != second[k].0);
                }
            }
        }
        if x.0 == MetricField::BatteryState {
            if k != d {
                if k < d {
                    assert(second[k].0 != second[d].0);
                } else {
                    assert(second[d].0 != second[k].0);
                }
            }
        }
    }
}

/// The last text dispatched for each field; a field is absent until it is
/// first dispatched.
pub struct SampleStore {
    last: Vec<Option<String>>,
}

impl View for SampleStore {
    type V = Map<MetricField, Seq<char>>;

    closed spec fn view(&self) -> Map<MetricField, Seq<char>> {
        Map::new(
            |f: MetricField| self.last@[f.slot() as int] is Some,
            |f: MetricField| self.last@[f.slot() as int]->Some_0@,
        )
    }
}

impl SampleStore {
    pub closed spec fn wf(&self) -> bool {
        self.last@.len() == FIELD_COUNT
    }

    /// An empty store: nothing has been dispatched yet.
    pub fn new() -> (s: SampleStore)
        ensures
            s.wf(),
            s@ == Map::<MetricField, Seq<char>>::empty(),
    {
        let mut last: Vec<Option<String>> = Vec::new();
        let mut i: usize = 0;
        while i < FIELD_COUNT
            invariant
                i <= FIELD_COUNT,
                last@.len() == i,
                forall|k: int| 0 <= k < i ==> last@[k] is None,
            decreases FIELD_COUNT - i,
        {
            last.push(None);
            i = i + 1;
        }
        let s = SampleStore { last };
        assert(s@ =~= Map::<MetricField, Seq<char>>::empty());
        s
    }

    /// The text last dispatched for `f`, if any.
    pub fn get(&self, f: MetricField) -> (r: Option<&String>)
        requires
            self.wf(),
        ensures
            r is Some <==> self@.contains_key(f),
            r is Some ==> r->Some_0@ == self@[f],
    {
        match &self.last[f.index()] {
            Some(v) => Some(v),
            None => None,
        }
    }

    /// Whether `r` differs from the stored text of its field.
    fn differs(&self, r: &Reading) -> (b: bool)
        requires
            self.wf(),
        ensures
            b == is_changed(self@, r@),
    {
        match &self.last[r.field.index()] {
            Some(v) => !(*v == r.value),
            None => true,
        }
    }

    fn record(&mut self, r: &Reading)
        requires
            old(self).wf(),
        ensures
            final(self).wf(),
            final(self)@ == old(self)@.insert(r.field, r.value@),
    {
        let i = r.field.index();
        self.last.set(i, Some(r.value.clone()));
        assert(self@ =~= old(self)@.insert(r.field, r.value@));
    }

    /// Compares a tick's readings with the store, returns the change set in
    /// reading order, and records every reading.
    pub fn diff(&mut self, readings: &Vec<Reading>) -> (changes: Vec<Reading>)
        requires
            old(self).wf(),
        ensures
            final(self).wf(),
            readings_view(changes@) == change_set(old(self)@, readings_view(readings@)),
            final(self)@ == committed(old(self)@, readings_view(readings@)),
    {
        let ghost rs = readings_view(readings@);
        let ghost store = self@;
        let n = readings.len();
        let mut paired = false;
        let mut i: usize = 0;
        while i < n
            invariant
                n == readings@.len(),
                rs == readings_view(readings@),
                self.wf(),
                i <= n,
                paired <==> exists|j: int| 0 <= j < i && (#[trigger] rs[j]).0.is_paired() && is_changed(self@, rs[j]),
            decreases n - i,
        {
            assert(rs[i as int] == readings@[i as int]@);
            if readings[i].field.paired() && self.differs(&readings[i]) {
                paired = true;
            }
            assert(paired <==> exists|j: int| 0 <= j < i + 1 && (#[trigger] rs[j]).0.is_paired() && is_changed(self@, rs[j]));
            i = i + 1;
        }
        assert(paired == pair_changed(store, rs));
        let mut changes: Vec<Reading> = Vec::new();
        i = 0;
        while i < n
            invariant
                n == readings@.len(),
                rs == readings_view(readings@),
                self.wf(),
                self@ == store,
                i <= n,
                readings_view(changes@) == sent_upto(store, rs, paired, i as int),
            decreases n - i,
        {
            let r = &readings[i];
            assert(rs[i as int] == r@);
            if self.differs(r) || (paired && r.field.paired()) {
                changes.push(r.duplicate());
            }
            assert(readings_view(changes@) =~= sent_upto(store, rs, paired, i as int + 1));
            i = i + 1;
        }
        i = 0;
        while i < n
            invariant
                n == readings@.len(),
                rs == readings_view(readings@),
                self.wf(),
                i <= n,
                self@ == committed(store, rs.subrange(0, i as int)),
            decreases n - i,
        {
            self.record(&readings[i]);
            assert(rs[i as int] == readings@[i as int]@);
            assert(rs.subrange(0, i as int + 1).drop_last() =~= rs.subrange(0, i as int));
            i = i + 1;
        }
        assert(rs.subrange(0, n as int) =~= rs);
        changes
    }
}

} // verus!
