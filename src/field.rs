//! The metric fields shared with the rendering surface, and one reading of a field.
use vstd::prelude::*;

verus! {

/// A key of the update event; the names are part of the surface's event contract.
#[derive(Clone, Copy, Debug, PartialEq, Eq, Structural)]
pub enum MetricField {
    Time,
    Brightness,
    CpuUsage,
    MemoryUsage,
    DiskUsage,
    Client,
    Workspace,
    Workspaces,
    Battery,
    BatteryState,
}

/// How many fields there are.
pub const FIELD_COUNT: usize = 10;

impl MetricField {
    /// The slot of the field in a per-field table.
    pub open spec fn slot(self) -> nat {
        match self {
            MetricField::Time => 0,
            MetricField::Brightness => 1,
            MetricField::CpuUsage => 3,
            MetricField::MemoryUsage => 2,
            MetricField::DiskUsage => 4,
            MetricField::Client => 5,
            MetricField::Workspace => 6,
            MetricField::Workspaces => 7,
            MetricField::Battery => 8,
            MetricField::BatteryState => 9,
        }
    }

    /// The two workspace fields, which are always sent together.
    pub open spec fn is_paired(self) -> bool {
        self is Workspace || self is Workspaces
    }

    /// The field's key in the event payload.
    pub open spec fn key_text(self) -> Seq<char> {
        match self {
            MetricField::Time => "time"@,
            MetricField::Brightness => "brightness"@,
            MetricField::CpuUsage => "cpu_usage"@,
            MetricField::MemoryUsage => "memory_usage"@,
            MetricField::DiskUsage => "disk_usage"@,
            MetricField::Client => "client"@,
            MetricField::Workspace => "workspace"@,
            MetricField::Workspaces => "workspaces"@,
            MetricField::Battery => "battery"@,
            MetricField::BatteryState => "battery_state"@,
        }
    }

    pub fn index(&self) -> (r: usize)
        ensures
            r == self.slot(),
            r < FIELD_COUNT,
    {
        match self {
            MetricField::Time => 0,
            MetricField::Brightness => 1,
            MetricField::CpuUsage => 3,
            MetricField::MemoryUsage => 2,
            MetricField::DiskUsage => 4,
            MetricField::Client => 5,
            MetricField::Workspace => 6,
            MetricField::Workspaces => 7,
            MetricField::Battery => 8,
            MetricField::BatteryState => 9,
        }
    }

    pub fn paired(&self) -> (r: bool)
        ensures
            r == self.is_paired(),
    {
        match self {
            MetricField::Workspace | MetricField::Workspaces => true,
            _ => false,
        }
    }

    pub fn key(&self) -> (r: &'static str)
        ensures
            r@ == self.key_text(),
    {
        match self {
            MetricField::Time => "time",
            MetricField::Brightness => "brightness",
            MetricField::CpuUsage => "cpu_usage",
            MetricField::MemoryUsage => "memory_usage",
            MetricField::DiskUsage => "disk_usage",
            MetricField::Client => "client",
            MetricField::Workspace => "workspace",
            MetricField::Workspaces => "workspaces",
            MetricField::Battery => "battery",
            MetricField::BatteryState => "battery_state",
        }
    }
}

/// The text of one field as a probe rendered it this tick.
#[derive(Clone, Debug)]
pub struct Reading {
    pub field: MetricField,
    pub value: String,
}

impl View for Reading {
    type V = (MetricField, Seq<char>);

    open spec fn view(&self) -> (MetricField, Seq<char>) {
        (self.field, self.value@)
    }
}

/// The readings of a list as field/text pairs.
pub open spec fn readings_view(v: Seq<Reading>) -> Seq<(MetricField, Seq<char>)> {
    v.map_values(|r: Reading| r@)
}

impl Reading {
    pub fn new(field: MetricField, value: String) -> (r: Reading)
        ensures
            r@ == (field, value@),
    {
        Reading { field, value }
    }

    /// A copy with the same field and text.
    pub fn duplicate(&self) -> (r: Reading)
        ensures
            r@ == self@,
    {
        Reading { field: self.field, value: self.value.clone() }
    }
}

} // verus!
