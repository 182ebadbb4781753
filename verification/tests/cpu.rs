use sysgraph::cpu::{amd_name, plain_name, short_name, squeeze, strip_marks};
use sysgraph::monitors::{BatteryPace, KeyCommand};
use sysgraph::cpu::{
    cpu_times, frequency_path, parse_frequency_khz, watched_core, CountError, CpuFields,
    LscpuError, StatError, UsageTracker, ViewCore,
};

const INTEL: &str = "Architecture:            x86_64\nCPU(s):                  16\nModel name:              12th Gen Intel(R) Core(TM) i7-1260P\nCPU max MHz:             4700.0000\n";
const INTEL_OLD: &str = "CPU(s): 8\nModel name: Intel(R) Core(TM) i7-8550U CPU @ 1.80GHz\nCPU max MHz: 4000.0000\n";
const AMD: &str = "CPU(s): 16\nModel name: AMD Ryzen 7 5800X 8-Core Processor\nCPU max MHz: 3800.0000\n";

#[test]
fn view_core_from_arg() {
    assert_eq!(ViewCore::from_arg(Some("3"), 8), ViewCore::One(3));
    assert_eq!(ViewCore::from_arg(Some("x"), 8), ViewCore::All(8));
    assert_eq!(ViewCore::from_arg(None, 8), ViewCore::All(8));
    assert!(ViewCore::One(7).fits(8));
    assert!(!ViewCore::One(8).fits(8));
    assert!(ViewCore::All(8).fits(8));
}

#[test]
fn view_core_label() {
    assert_eq!(ViewCore::All(8).label(), "..#8");
    assert_eq!(ViewCore::One(3).label(), "#3");
}

#[test]
fn watched_core_only_for_one() {
    assert_eq!(watched_core(Some(ViewCore::One(2))), Some(2));
    assert_eq!(watched_core(Some(ViewCore::All(2))), None);
    assert_eq!(watched_core(None), None);
}

#[test]
fn lscpu_intel_name() {
    let f = CpuFields::read_lscpu(INTEL).unwrap();
    assert_eq!(f.name, "i7-1260p");
    assert_eq!(f.max_mhz, "4700.0000");
    assert_eq!(f.count, Ok(16));
    let f = CpuFields::read_lscpu(INTEL_OLD).unwrap();
    assert_eq!(f.name, "i7-8550u cpu ");
}

#[test]
fn lscpu_amd_name() {
    let f = CpuFields::read_lscpu(AMD).unwrap();
    assert_eq!(f.name, "Ryzen 7 5800X 8-Core");
}

#[test]
fn lscpu_plain_name() {
    assert_eq!(CpuFields::read_lscpu_plain(INTEL).unwrap().name, "i7-1260p");
    assert_eq!(CpuFields::read_lscpu_plain(INTEL_OLD).unwrap().name, "i7-8550u cpu");
    assert_eq!(
        CpuFields::read_lscpu_plain(AMD).unwrap().name,
        "amd ryzen 7 5800x 8- processor"
    );
}

#[test]
fn lscpu_errors() {
    assert_eq!(CpuFields::read_lscpu("CPU(s): 1\n").err(), Some(LscpuError::MissingModelName));
    assert_eq!(
        CpuFields::read_lscpu("Model name: AMD X\n").err(),
        Some(LscpuError::MissingMaxMhz)
    );
    let f = CpuFields::read_lscpu("Model name: AMD X\nCPU max MHz: 1\n").unwrap();
    assert_eq!(f.count, Err(CountError::Missing));
    let f = CpuFields::read_lscpu("Model name: AMD X\nCPU max MHz: 1\nCPU(s): many\n").unwrap();
    assert_eq!(f.count, Err(CountError::Invalid));
}

const STAT: &str = "cpu  10 20 30 40 50 60 70 80 0 0\ncpu0 1 2 3 4 5 6 7 8 0 0\n";

#[test]
fn stat_lines() {
    assert_eq!(cpu_times(STAT, None), Ok([10, 20, 30, 40, 50, 60, 70]));
    assert_eq!(cpu_times(STAT, Some(0)), Ok([1, 2, 3, 4, 5, 6, 7]));
    assert_eq!(cpu_times(STAT, Some(1)), Err(StatError::NoLine));
    assert_eq!(cpu_times("cpu 1 2 3\n", None), Err(StatError::Fields));
    assert_eq!(cpu_times("cpu 1 2 x 4 5 6 7\n", None), Err(StatError::Fields));
    assert_eq!(cpu_times("cpu 1 2 3 4 5 6 7 x\n", None), Ok([1, 2, 3, 4, 5, 6, 7]));
}

#[test]
fn usage_tracker_deltas() {
    let mut u = UsageTracker::new();
    assert_eq!(u.step([1, 2, 3, 4, 5, 6, 7]), Some((28, 9)));
    assert_eq!(u.step([2, 3, 4, 5, 6, 7, 8]), Some((7, 2)));
    assert_eq!((u.idle, u.total), (11, 35));
    assert_eq!(u.step([0, 0, 0, 0, 0, 0, 0]), None);
    assert_eq!((u.idle, u.total), (11, 35));
    assert_eq!(UsageTracker::new().step([u64::MAX, 1, 0, 0, 0, 0, 0]), None);
}

#[test]
fn frequency_file() {
    assert_eq!(parse_frequency_khz("2400000\n"), Some(2400000));
    assert_eq!(parse_frequency_khz("24\n00\n"), Some(2400));
    assert_eq!(parse_frequency_khz(" 1\n"), None);
    assert_eq!(frequency_path(3), "/sys/devices/system/cpu/cpu3/cpufreq/scaling_cur_freq");
}

fn cv(s: &str) -> Vec<char> {
    s.chars().collect()
}

#[test]
fn name_steps() {
    let s: String = strip_marks(&cv("Intel(R) Core(TM) i5")).into_iter().collect();
    assert_eq!(s, "  i5");
    let s: String = squeeze(&cv("   a   b ")).into_iter().collect();
    assert_eq!(s, "a b");
    assert_eq!(amd_name(&cv("AMD Ryzen 5 3600 6-Core Processor ")), "Ryzen 5 3600 6-Core");
    assert_eq!(short_name(&cv("12th Gen Intel(R) Core(TM) i7-1260P")), "i7-1260p");
    assert_eq!(plain_name(&cv("Intel(R) Core(TM) i7-8550U CPU @ 1.80GHz")), "i7-8550u cpu");
}

#[test]
fn battery_pace_from_any_start() {
    let mut p = BatteryPace { secs: u32::MAX };
    p.apply(KeyCommand::Increase);
    assert_eq!(p.secs, 100);
    let mut q = BatteryPace { secs: 0 };
    q.apply(KeyCommand::Decrease);
    assert_eq!(q.secs, 1);
}
