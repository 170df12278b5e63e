use aether::dispatch::{event_script, Aggregator};
use aether::field::{MetricField, Reading};
use aether::probes::ClockTime;
use aether::sample::{Backlight, BatteryReading, ChargeState, DiskSpace, MachineLoad, QueryResult, Sample};

fn snap(s: &str) -> QueryResult {
    QueryResult::Snapshot(s.to_string())
}

fn base_sample() -> Sample {
    Sample {
        time: ClockTime::new(12, 0, 0).unwrap(),
        backlight: None,
        load: None,
        disk: None,
        client: snap(""),
        workspace: snap("1"),
        workspaces: snap("[1]"),
        battery: BatteryReading::Absent,
    }
}

fn wrap(payload: &str) -> String {
    format!("window.dispatchEvent(new CustomEvent('tick', {{ detail: {{ {} }} }}));", payload)
}

#[test]
fn first_tick_sends_every_read_field() {
    let mut a = Aggregator::new();
    let ev = a.tick(&base_sample()).unwrap();
    assert_eq!(
        ev,
        wrap("time: '12:00:00', client: '', workspace: '1', workspaces: '[1]', battery: 'No Battery', battery_state: 'Unknown'")
    );
}

#[test]
fn unchanged_tick_sends_nothing() {
    let mut a = Aggregator::new();
    assert!(a.tick(&base_sample()).is_some());
    assert_eq!(a.tick(&base_sample()), None);
    assert_eq!(a.tick(&base_sample()), None);
}

#[test]
fn only_changed_fields_are_sent() {
    let mut a = Aggregator::new();
    a.tick(&base_sample());
    let mut s = base_sample();
    s.time = ClockTime::new(12, 0, 1).unwrap();
    assert_eq!(a.tick(&s).unwrap(), wrap("time: '12:00:01'"));
    assert_eq!(a.last_sent(MetricField::Time).unwrap(), "12:00:01");
}

#[test]
fn brightness_half_is_fifty_percent() {
    let mut a = Aggregator::new();
    a.tick(&base_sample());
    let mut s = base_sample();
    s.backlight = Some(Backlight { current: 512, maximum: 1024 });
    assert_eq!(a.tick(&s).unwrap(), wrap("brightness: '50%'"));
}

#[test]
fn brightness_with_zero_maximum_is_omitted() {
    let mut a = Aggregator::new();
    let mut s = base_sample();
    s.backlight = Some(Backlight { current: 5, maximum: 0 });
    let ev = a.tick(&s).unwrap();
    assert!(!ev.contains("brightness"));
    assert!(a.last_sent(MetricField::Brightness).is_none());
}

#[test]
fn omitted_brightness_keeps_previous_value() {
    let mut a = Aggregator::new();
    let mut s = base_sample();
    s.backlight = Some(Backlight { current: 30, maximum: 100 });
    a.tick(&s);
    s.backlight = None;
    assert_eq!(a.tick(&s), None);
    assert_eq!(a.last_sent(MetricField::Brightness).unwrap(), "30%");
}

#[test]
fn empty_disk_never_sent() {
    let mut a = Aggregator::new();
    a.tick(&base_sample());
    for avail in [0u64, 1, 1000, u64::MAX] {
        let mut s = base_sample();
        s.disk = Some(DiskSpace { blocks: 0, available: avail, block_size: 4096 });
        assert_eq!(a.tick(&s), None);
    }
}

#[test]
fn disk_usage_is_sent_once() {
    let mut a = Aggregator::new();
    a.tick(&base_sample());
    let mut s = base_sample();
    s.disk = Some(DiskSpace { blocks: 1000, available: 250, block_size: 4096 });
    assert_eq!(a.tick(&s).unwrap(), wrap("disk_usage: '75%'"));
    assert_eq!(a.tick(&s), None);
}

#[test]
fn machine_load_fields() {
    let mut a = Aggregator::new();
    a.tick(&base_sample());
    let mut s = base_sample();
    s.load = Some(MachineLoad { cpu: 7, memory_used_kib: 3_906_250, memory_total_bytes: 8_000_000_000 });
    assert_eq!(a.tick(&s).unwrap(), wrap("memory_usage: '50%', cpu_usage: '7%'"));
    s.load = Some(MachineLoad { cpu: -3, memory_used_kib: 3_906_250, memory_total_bytes: 8_000_000_000 });
    assert_eq!(a.tick(&s).unwrap(), wrap("cpu_usage: '-3%'"));
}

#[test]
fn workspace_change_sends_both_workspace_fields() {
    let mut a = Aggregator::new();
    a.tick(&base_sample());
    let mut s = base_sample();
    s.workspace = snap("2");
    assert_eq!(a.tick(&s).unwrap(), wrap("workspace: '2', workspaces: '[1]'"));
}

#[test]
fn workspaces_change_sends_both_workspace_fields() {
    let mut a = Aggregator::new();
    a.tick(&base_sample());
    let mut s = base_sample();
    s.workspaces = snap("[1, 2]");
    assert_eq!(a.tick(&s).unwrap(), wrap("workspace: '1', workspaces: '[1, 2]'"));
}

#[test]
fn missing_battery_sent_once() {
    let mut a = Aggregator::new();
    let first = a.tick(&base_sample()).unwrap();
    assert!(first.contains("battery: 'No Battery'"));
    assert!(first.contains("battery_state: 'Unknown'"));
    assert_eq!(a.tick(&base_sample()), None);
}

#[test]
fn battery_present_and_failed() {
    let mut a = Aggregator::new();
    a.tick(&base_sample());
    let mut s = base_sample();
    s.battery = BatteryReading::Present { percent: 87, state: ChargeState::Discharging };
    assert_eq!(a.tick(&s).unwrap(), wrap("battery: '87%', battery_state: 'Discharging'"));
    s.battery = BatteryReading::Failed("NotFound".to_string());
    assert_eq!(a.tick(&s).unwrap(), wrap("battery: 'Error', battery_state: 'Error: NotFound'"));
}

#[test]
fn compositor_failure_is_sent_as_text() {
    let mut a = Aggregator::new();
    a.tick(&base_sample());
    let mut s = base_sample();
    s.client = QueryResult::Failed("socket".to_string());
    assert_eq!(a.tick(&s).unwrap(), wrap("client: 'Error: socket'"));
}

#[test]
fn quotes_are_escaped() {
    let mut a = Aggregator::new();
    a.tick(&base_sample());
    let mut s = base_sample();
    s.client = snap("it's");
    assert_eq!(a.tick(&s).unwrap(), wrap("client: 'it\\'s'"));
}

#[test]
fn event_script_of_two_readings() {
    let v = vec![
        Reading::new(MetricField::Time, "01:02:03".to_string()),
        Reading::new(MetricField::Client, "a'b".to_string()),
    ];
    assert_eq!(event_script(&v), wrap("time: '01:02:03', client: 'a\\'b'"));
    assert_eq!(event_script(&Vec::new()), wrap(""));
}

#[test]
fn field_keys() {
    assert_eq!(MetricField::BatteryState.key(), "battery_state");
    assert_eq!(MetricField::CpuUsage.key(), "cpu_usage");
    assert_eq!(MetricField::Workspaces.key(), "workspaces");
}
