//! The dispatcher and the aggregation engine: one tick turns a sample into at
//! most one `tick` update event holding the changed fields.
use vstd::prelude::*;
use crate::field::{MetricField, Reading, readings_view};
use crate::sample::{BatteryReading, DiskSpace, Sample, battery_level_text, battery_state_text, field_text, query_text, lemma_sample_readings_wf, sample_readings};
use crate::store::{SampleStore, change_set, committed, lemma_battery_sent_once, lemma_change_set_minimal, lemma_unchanged_tick_is_silent, lemma_workspace_pairing, is_changed};
use crate::text::{escaped, push_char, push_escaped, push_str};

verus! {

/// One payload entry: `key: 'text'`, the text with its quotes escaped.
pub open spec fn entry_text(r: (MetricField, Seq<char>)) -> Seq<char> {
    r.0.key_text() + ": '"@ + escaped(r.1) + seq!['\'']
}

/// The payload entries joined by `, `.
pub open spec fn payload_text(cs: Seq<(MetricField, Seq<char>)>) -> Seq<char>
    decreases cs.len(),
{
    if cs.len() == 0 {
        Seq::empty()
    } else if cs.len() == 1 {
        entry_text(cs[0])
    } else {
        payload_text(cs.drop_last()) + ", "@ + entry_text(cs.last())
    }
}

/// The script that raises the `tick` event on the surface with the change set.
pub open spec fn tick_script(cs: Seq<(MetricField, Seq<char>)>) -> Seq<char> {
    "window.dispatchEvent(new CustomEvent('tick', { detail: { "@ + payload_text(cs) + " } }));"@
}

/// The `tick` event script for a change set.
pub fn event_script(changes: &Vec<Reading>) -> (r: String)
    ensures
        r@ == tick_script(readings_view(changes@)),
{
    let ghost cs = readings_view(changes@);
    let mut out = String::new();
    push_str(&mut out, "window.dispatchEvent(new CustomEvent('tick', { detail: { ");
    let ghost start = out@;
    let n = changes.len();
    let mut i: usize = 0;
    while i < n
        invariant
            n == changes@.len(),
            cs == readings_view(changes@),
            i <= n,
            out@ == start + payload_text(cs.subrange(0, i as int)),
        decreases n - i,
    {
        let r = &changes[i];
        let ghost before = out@;
        if i > 0 {
            push_str(&mut out, ", ");
        }
        push_str(&mut out, r.field.key());
        push_str(&mut out, ": '");
        push_escaped(&mut out, r.value.as_str());
        push_char(&mut out, '\'');
        proof {
            let p = cs.subrange(0, i as int + 1);
            assert(p.drop_last() =~= cs.subrange(0, i as int));
            assert(p.last() == r@);
            if i == 0 {
                assert(p.len() == 1);
            }
        }
        assert(out@ =~= start + payload_text(cs.subrange(0, i as int + 1)));
        i = i + 1;
    }
    assert(cs.subrange(0, n as int) =~= cs);
    push_str(&mut out, " } }));");
    assert(out@ =~= tick_script(cs));
    out
}

/// The aggregation engine: owns the sample store and runs one tick per sample.
pub struct Aggregator {
    store: SampleStore,
}

impl Aggregator {
    pub closed spec fn wf(&self) -> bool {
        self.store.wf()
    }

    /// The text last dispatched for each field.
    pub closed spec fn sent(&self) -> Map<MetricField, Seq<char>> {
        self.store@
    }

    pub fn new() -> (a: Aggregator)
        ensures
            a.wf(),
            a.sent() == Map::<MetricField, Seq<char>>::empty(),
    {
        Aggregator { store: SampleStore::new() }
    }

    /// The text last dispatched for `f`, if any.
    pub fn last_sent(&self, f: MetricField) -> (r: Option<&String>)
        requires
            self.wf(),
        ensures
            r is Some <==> self.sent().contains_key(f),
            r is Some ==> r->Some_0@ == self.sent()[f],
    {
        self.store.get(f)
    }

    /// One tick: the change set of the sample's readings against what was
    /// sent; no event when it is empty, else the `tick` script holding it.
    pub fn tick(&mut self, sample: &Sample) -> (r: Option<String>)
        requires
            old(self).wf(),
            sample.wf(),
        ensures
            final(self).wf(),
            final(self).sent() == committed(old(self).sent(), sample_readings(*sample)),
            change_set(old(self).sent(), sample_readings(*sample)).len() == 0 ==> r is None,
            change_set(old(self).sent(), sample_readings(*sample)).len() > 0 ==> (r matches Some(t)
                && t@ == tick_script(change_set(old(self).sent(), sample_readings(*sample)))),
    {
        let readings = sample.readings();
        let changes = self.store.diff(&readings);
        if changes.len() == 0 {
            None
        } else {
            Some(event_script(&changes))
        }
    }
}

/// A tick whose sample reads the same as the previous tick's dispatches
/// no event.
pub proof fn lemma_repeated_sample_is_silent(sent: Map<MetricField, Seq<char>>, s: Sample)
    ensures
        change_set(committed(sent, sample_readings(s)), sample_readings(s)).len() == 0,
{
    lemma_sample_readings_wf(s);
    lemma_unchanged_tick_is_silent(sent, sample_readings(s), sample_readings(s));
}

/// A field whose probe produced nothing this tick is not in the tick's event.
pub proof fn lemma_unread_field_not_sent(sent: Map<MetricField, Seq<char>>, s: Sample, f: MetricField)
    requires
        field_text(s, f) is None,
    ensures
        forall|x: (MetricField, Seq<char>)| #[trigger] change_set(sent, sample_readings(s)).contains(x) ==> x.0 != f,
{
    let rs = sample_readings(s);
    lemma_sample_readings_wf(s);
    lemma_change_set_minimal(sent, rs);
    assert forall|x: (MetricField, Seq<char>)| #[trigger] change_set(sent, rs).contains(x) implies x.0 != f by {
        let i = choose|i: int| 0 <= i < rs.len() && rs[i] == x;
        assert(field_text(s, rs[i].0) == Some(rs[i].1));
    }
}

/// A filesystem of size zero never yields a disk-usage update, whatever is
/// reported available.
pub proof fn lemma_empty_disk_never_sent(sent: Map<MetricField, Seq<char>>, s: Sample, d: DiskSpace)
    requires
        s.disk == Some(d),
        d.blocks * d.block_size == 0,
    ensures
        forall|x: (MetricField, Seq<char>)| #[trigger] change_set(sent, sample_readings(s)).contains(x)
            ==> x.0 != MetricField::DiskUsage,
{
    lemma_unread_field_not_sent(sent, s, MetricField::DiskUsage);
}

/// The battery readings are the last two of every tick.
proof fn lemma_battery_readings(s: Sample)
    ensures
        sample_readings(s).contains((MetricField::Battery, battery_level_text(s.battery))),
        sample_readings(s).contains((MetricField::BatteryState, battery_state_text(s.battery))),
{
    let rs = sample_readings(s);
    assert(rs[rs.len() - 2] == (MetricField::Battery, battery_level_text(s.battery)));
    assert(rs[rs.len() - 1] == (MetricField::BatteryState, battery_state_text(s.battery)));
}

/// Two consecutive ticks without battery hardware: the first, if the
/// battery fields were never sent, sends `No Battery` and `Unknown`; the
/// second sends no battery field.
pub proof fn lemma_missing_battery_sent_once(sent: Map<MetricField, Seq<char>>, first: Sample, second: Sample)
    requires
        first.battery is Absent,
        second.battery is Absent,
        !sent.contains_key(MetricField::Battery),
        !sent.contains_key(MetricField::BatteryState),
    ensures
        change_set(sent, sample_readings(first)).contains((MetricField::Battery, "No Battery"@)),
        change_set(sent, sample_readings(first)).contains((MetricField::BatteryState, "Unknown"@)),
        forall|x: (MetricField, Seq<char>)| #[trigger] change_set(committed(sent, sample_readings(first)), sample_readings(second)).contains(x)
            ==> x.0 != MetricField::Battery && x.0 != MetricField::BatteryState,
{
    lemma_sample_readings_wf(first);
    lemma_sample_readings_wf(second);
    lemma_battery_readings(first);
    lemma_battery_readings(second);
    lemma_battery_sent_once(sent, sample_readings(first), sample_readings(second), "No Battery"@, "Unknown"@);
}

/// When a tick's active workspace differs from the one last sent, its event
/// holds both the workspace and the workspace list, changed or not.
pub proof fn lemma_workspace_sent_with_list(sent: Map<MetricField, Seq<char>>, s: Sample)
    requires
        is_changed(sent, (MetricField::Workspace, query_text(s.workspace))),
    ensures
        change_set(sent, sample_readings(s)).contains((MetricField::Workspace, query_text(s.workspace))),
        change_set(sent, sample_readings(s)).contains((MetricField::Workspaces, query_text(s.workspaces))),
{
    let rs = sample_readings(s);
    lemma_sample_readings_wf(s);
    assert(rs[rs.len() - 4] == (MetricField::Workspace, query_text(s.workspace)));
    assert(rs[rs.len() - 3] == (MetricField::Workspaces, query_text(s.workspaces)));
    lemma_workspace_pairing(sent, rs, rs.len() - 4, rs.len() - 3);
}

} // verus!
