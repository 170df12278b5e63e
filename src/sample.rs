//! One tick's raw probe results and the field texts they render to.
use vstd::prelude::*;
use crate::field::{MetricField, Reading, readings_view};
use crate::probes::{ClockTime, brightness_spec, brightness_percent, disk_blocks_spec, disk_percent_from_blocks, memory_spec, memory_percent};
use crate::store::fields_distinct;
use crate::text::{decimal, push_char, push_decimal, push_str};

verus! {

/// The charge state of a battery.
#[derive(Clone, Copy, Debug, PartialEq, Eq, Structural)]
pub enum ChargeState {
    Unknown,
    Charging,
    Discharging,
    Empty,
    Full,
}

impl ChargeState {
    pub open spec fn label_text(self) -> Seq<char> {
        match self {
            ChargeState::Unknown => "Unknown"@,
            ChargeState::Charging => "Charging"@,
            ChargeState::Discharging => "Discharging"@,
            ChargeState::Empty => "Empty"@,
            ChargeState::Full => "Full"@,
        }
    }

    pub fn label(&self) -> (r: &'static str)
        ensures
            r@ == self.label_text(),
    {
        match self {
            ChargeState::Unknown => "Unknown",
            ChargeState::Charging => "Charging",
            ChargeState::Discharging => "Discharging",
            ChargeState::Empty => "Empty",
            ChargeState::Full => "Full",
        }
    }
}

/// What the battery probe found.
#[derive(Clone, Debug)]
pub enum BatteryReading {
    /// The first battery, its charge as a rounded percent.
    Present { percent: u64, state: ChargeState },
    /// No battery hardware.
    Absent,
    /// The battery query failed; the text describes the failure.
    Failed(String),
}

/// What a compositor query gave: a textual snapshot, or the text of its failure.
#[derive(Clone, Debug)]
pub enum QueryResult {
    Snapshot(String),
    Failed(String),
}

/// Current and maximum level of the chosen backlight.
#[derive(Clone, Copy, Debug, PartialEq, Eq, Structural)]
pub struct Backlight {
    pub current: u64,
    pub maximum: u64,
}

/// CPU load percent and memory use: kibibytes used of a total in bytes.
#[derive(Clone, Copy, Debug, PartialEq, Eq, Structural)]
pub struct MachineLoad {
    pub cpu: i32,
    pub memory_used_kib: u64,
    pub memory_total_bytes: u64,
}

/// Block counts of the root filesystem.
#[derive(Clone, Copy, Debug, PartialEq, Eq, Structural)]
pub struct DiskSpace {
    pub blocks: u64,
    pub available: u64,
    pub block_size: u64,
}

/// The raw results of every probe in one tick. A probe that declined to
/// produce a value (unreadable sensor, failed query) leaves `None`; the
/// compositor queries carry their failure text.
#[derive(Clone, Debug)]
pub struct Sample {
    pub time: ClockTime,
    pub backlight: Option<Backlight>,
    pub load: Option<MachineLoad>,
    pub disk: Option<DiskSpace>,
    /// The active window, an empty snapshot when there is none.
    pub client: QueryResult,
    pub workspace: QueryResult,
    pub workspaces: QueryResult,
    pub battery: BatteryReading,
}

/// `n` followed by a percent sign.
pub open spec fn percent_text(n: nat) -> Seq<char> {
    decimal(n).push('%')
}

/// A signed `n` followed by a percent sign.
pub open spec fn signed_percent_text(n: int) -> Seq<char> {
    if n < 0 {
        seq!['-'] + percent_text((-n) as nat)
    } else {
        percent_text(n as nat)
    }
}

/// The text of a compositor query: its snapshot, or its failure after `Error: `.
pub open spec fn query_text(r: QueryResult) -> Seq<char> {
    match r {
        QueryResult::Snapshot(t) => t@,
        QueryResult::Failed(e) => "Error: "@ + e@,
    }
}

/// The battery level text.
pub open spec fn battery_level_text(b: BatteryReading) -> Seq<char> {
    match b {
        BatteryReading::Present { percent, .. } => percent_text(percent as nat),
        BatteryReading::Absent => "No Battery"@,
        BatteryReading::Failed(_) => "Error"@,
    }
}

/// The battery state text.
pub open spec fn battery_state_text(b: BatteryReading) -> Seq<char> {
    match b {
        BatteryReading::Present { state, .. } => state.label_text(),
        BatteryReading::Absent => "Unknown"@,
        BatteryReading::Failed(e) => "Error: "@ + e@,
    }
}

/// A reading when the probe gave a text.
pub open spec fn part(f: MetricField, v: Option<Seq<char>>) -> Seq<(MetricField, Seq<char>)> {
    match v {
        Some(t) => seq![(f, t)],
        None => Seq::empty(),
    }
}

pub open spec fn brightness_text(b: Option<Backlight>) -> Option<Seq<char>> {
    match b {
        Some(l) => match brightness_spec(l.current as nat, l.maximum as nat) {
            Some(p) => Some(percent_text(p)),
            None => None,
        },
        None => None,
    }
}

pub open spec fn memory_text(l: Option<MachineLoad>) -> Option<Seq<char>> {
    match l {
        Some(m) => match memory_spec(m.memory_used_kib as nat, m.memory_total_bytes as nat) {
            Some(p) => Some(percent_text(p)),
            None => None,
        },
        None => None,
    }
}

pub open spec fn cpu_text(l: Option<MachineLoad>) -> Option<Seq<char>> {
    match l {
        Some(m) => Some(signed_percent_text(m.cpu as int)),
        None => None,
    }
}

pub open spec fn disk_text(d: Option<DiskSpace>) -> Option<Seq<char>> {
    match d {
        Some(s) => match disk_blocks_spec(s.blocks as nat, s.available as nat, s.block_size as nat) {
            Some(p) => Some(percent_text(p)),
            None => None,
        },
        None => None,
    }
}

/// The text a sample gives a field, if its probe produced one.
pub open spec fn field_text(s: Sample, f: MetricField) -> Option<Seq<char>> {
    match f {
        MetricField::Time => Some(s.time.text()),
        MetricField::Brightness => brightness_text(s.backlight),
        MetricField::MemoryUsage => memory_text(s.load),
        MetricField::CpuUsage => cpu_text(s.load),
        MetricField::DiskUsage => disk_text(s.disk),
        MetricField::Client => Some(query_text(s.client)),
        MetricField::Workspace => Some(query_text(s.workspace)),
        MetricField::Workspaces => Some(query_text(s.workspaces)),
        MetricField::Battery => Some(battery_level_text(s.battery)),
        MetricField::BatteryState => Some(battery_state_text(s.battery)),
    }
}

/// The readings of a tick, in probe order; probes that gave nothing are left out.
pub open spec fn sample_readings(s: Sample) -> Seq<(MetricField, Seq<char>)> {
    part(MetricField::Time, field_text(s, MetricField::Time))
        + part(MetricField::Brightness, field_text(s, MetricField::Brightness))
        + part(MetricField::MemoryUsage, field_text(s, MetricField::MemoryUsage))
        + part(MetricField::CpuUsage, field_text(s, MetricField::CpuUsage))
        + part(MetricField::DiskUsage, field_text(s, MetricField::DiskUsage))
        + part(MetricField::Client, field_text(s, MetricField::Client))
        + part(MetricField::Workspace, field_text(s, MetricField::Workspace))
        + part(MetricField::Workspaces, field_text(s, MetricField::Workspaces))
        + part(MetricField::Battery, field_text(s, MetricField::Battery))
        + part(MetricField::BatteryState, field_text(s, MetricField::BatteryState))
}

fn percent_string(n: u128) -> (r: String)
    ensures
        r@ == percent_text(n as nat),
{
    let mut s = String::new();
    push_decimal(&mut s, n);
    push_char(&mut s, '%');
    assert(s@ =~= percent_text(n as nat));
    s
}

fn signed_percent_string(n: i32) -> (r: String)
    ensures
        r@ == signed_percent_text(n as int),
{
    if n < 0 {
        let mut s = String::new();
        push_char(&mut s, '-');
        let m: i64 = -(n as i64);
        let t = percent_string(m as u128);
        push_str(&mut s, t.as_str());
        assert(s@ =~= signed_percent_text(n as int));
        s
    } else {
        percent_string(n as u128)
    }
}

fn query_string(r: &QueryResult) -> (t: String)
    ensures
        t@ == query_text(*r),
{
    match r {
        QueryResult::Snapshot(t) => t.clone(),
        QueryResult::Failed(e) => {
            let mut s = String::new();
            push_str(&mut s, "Error: ");
            push_str(&mut s, e.as_str());
            s
        },
    }
}

fn push_part(out: &mut Vec<Reading>, f: MetricField, v: Option<String>)
    ensures
        readings_view(final(out)@) == readings_view(old(out)@) + part(f, match v {
            Some(t) => Some(t@),
            None => None,
        }),
{
    match v {
        Some(t) => {
            out.push(Reading::new(f, t));
        },
        None => {},
    }
    assert(readings_view(out@) =~= readings_view(old(out)@) + part(f, match v {
        Some(t) => Some(t@),
        None => None,
    }));
}

impl Sample {
    pub open spec fn wf(&self) -> bool {
        self.time.wf()
    }

    /// The readings of this tick, in probe order.
    pub fn readings(&self) -> (r: Vec<Reading>)
        requires
            self.wf(),
        ensures
            readings_view(r@) == sample_readings(*self),
    {
        let mut out: Vec<Reading> = Vec::new();
        push_part(&mut out, MetricField::Time, Some(self.time.format()));
        let b = match self.backlight {
            Some(l) => match brightness_percent(l.current, l.maximum) {
                Some(p) => Some(percent_string(p as u128)),
                None => None,
            },
            None => None,
        };
        push_part(&mut out, MetricField::Brightness, b);
        let m = match self.load {
            Some(l) => match memory_percent(l.memory_used_kib, l.memory_total_bytes) {
                Some(p) => Some(percent_string(p)),
                None => None,
            },
            None => None,
        };
        push_part(&mut out, MetricField::MemoryUsage, m);
        let c = match self.load {
            Some(l) => Some(signed_percent_string(l.cpu)),
            None => None,
        };
        push_part(&mut out, MetricField::CpuUsage, c);
        let d = match self.disk {
            Some(s) => match disk_percent_from_blocks(s.blocks, s.available, s.block_size) {
                Some(p) => Some(percent_string(p as u128)),
                None => None,
            },
            None => None,
        };
        push_part(&mut out, MetricField::DiskUsage, d);
        push_part(&mut out, MetricField::Client, Some(query_string(&self.client)));
        push_part(&mut out, MetricField::Workspace, Some(query_string(&self.workspace)));
        push_part(&mut out, MetricField::Workspaces, Some(query_string(&self.workspaces)));
        let (level, state) = battery_strings(&self.battery);
        push_part(&mut out, MetricField::Battery, Some(level));
        push_part(&mut out, MetricField::BatteryState, Some(state));
        assert(readings_view(out@) =~= sample_readings(*self));
        out
    }
}

fn battery_strings(b: &BatteryReading) -> (r: (String, String))
    ensures
        r.0@ == battery_level_text(*b),
        r.1@ == battery_state_text(*b),
{
    match b {
        BatteryReading::Present { percent, state } => {
            let mut s = String::new();
            push_str(&mut s, state.label());
            (percent_string(*percent as u128), s)
        },
        BatteryReading::Absent => {
            let mut a = String::new();
            push_str(&mut a, "No Battery");
            let mut s = String::new();
            push_str(&mut s, "Unknown");
            (a, s)
        },
        BatteryReading::Failed(e) => {
            let mut a = String::new();
            push_str(&mut a, "Error");
            let mut s = String::new();
            push_str(&mut s, "Error: ");
            push_str(&mut s, e.as_str());
            (a, s)
        },
    }
}

/// Each reading's field comes after those of the readings before it.
pub open spec fn slots_increasing(rs: Seq<(MetricField, Seq<char>)>) -> bool {
    forall|i: int, j: int| 0 <= i < j < rs.len() ==> (#[trigger] rs[i]).0.slot() < (#[trigger] rs[j]).0.slot()
}

/// Every reading carries the text the sample gives its field.
pub open spec fn texts_match(s: Sample, rs: Seq<(MetricField, Seq<char>)>) -> bool {
    forall|i: int| 0 <= i < rs.len() ==> field_text(s, (#[trigger] rs[i]).0) == Some(rs[i].1)
}

proof fn lemma_extend(s: Sample, rs: Seq<(MetricField, Seq<char>)>, f: MetricField)
    requires
        slots_increasing(rs),
        texts_match(s, rs),
        forall|i: int| 0 <= i < rs.len() ==> (#[trigger] rs[i]).0.slot() < f.slot(),
    ensures
        slots_increasing(rs + part(f, field_text(s, f))),
        texts_match(s, rs + part(f, field_text(s, f))),
        forall|i: int| 0 <= i < (rs + part(f, field_text(s, f))).len() ==> (#[trigger] (rs + part(f, field_text(s, f)))[i]).0.slot() <= f.slot(),
{
    let t = rs + part(f, field_text(s, f));
    assert forall|i: int, j: int| 0 <= i < j < t.len() implies (#[trigger] t[i]).0.slot() < (#[trigger] t[j]).0.slot() by {
        if j < rs.len() {
            assert(t[i] == rs[i] && t[j] == rs[j]);
        } else {
            assert(t[i] == rs[i]);
        }
    }
    assert forall|i: int| 0 <= i < t.len() implies (#[trigger] t[i]).0.slot() <= f.slot() && field_text(s, t[i].0) == Some(t[i].1) by {
        if i < rs.len() {
            assert(t[i] == rs[i]);
        }
    }
}

/// A tick reads each field at most once, so the differ's laws apply to it,
/// and each reading carries the text the sample gives its field.
pub proof fn lemma_sample_readings_wf(s: Sample)
    ensures
        fields_distinct(sample_readings(s)),
        texts_match(s, sample_readings(s)),
{
    let r0 = Seq::<(MetricField, Seq<char>)>::empty();
    lemma_extend(s, r0, MetricField::Time);
    let r1 = r0 + part(MetricField::Time, field_text(s, MetricField::Time));
    lemma_extend(s, r1, MetricField::Brightness);
    let r2 = r1 + part(MetricField::Brightness, field_text(s, MetricField::Brightness));
    lemma_extend(s, r2, MetricField::MemoryUsage);
    let r3 = r2 + part(MetricField::MemoryUsage, field_text(s, MetricField::MemoryUsage));
    lemma_extend(s, r3, MetricField::CpuUsage);
    let r4 = r3 + part(MetricField::CpuUsage, field_text(s, MetricField::CpuUsage));
    lemma_extend(s, r4, MetricField::DiskUsage);
    let r5 = r4 + part(MetricField::DiskUsage, field_text(s, MetricField::DiskUsage));
    lemma_extend(s, r5, MetricField::Client);
    let r6 = r5 + part(MetricField::Client, field_text(s, MetricField::Client));
    lemma_extend(s, r6, MetricField::Workspace);
    let r7 = r6 + part(MetricField::Workspace, field_text(s, MetricField::Workspace));
    lemma_extend(s, r7, MetricField::Workspaces);
    let r8 = r7 + part(MetricField::Workspaces, field_text(s, MetricField::Workspaces));
    lemma_extend(s, r8, MetricField::Battery);
    let r9 = r8 + part(MetricField::Battery, field_text(s, MetricField::Battery));
    lemma_extend(s, r9, MetricField::BatteryState);
    let r10 = r9 + part(MetricField::BatteryState, field_text(s, MetricField::BatteryState));
    assert(r1 =~= part(MetricField::Time, field_text(s, MetricField::Time)));
    assert(r10 =~= sample_readings(s));
}

} // verus!
