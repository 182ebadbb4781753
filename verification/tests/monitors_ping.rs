use sysgraph::monitors::{
    decode_key, disk_sectors, is_battery, parse_access, parse_battery_mode, parse_counter,
    parse_direction, sector_bytes, select_device, select_interface, short_gpu_name, BatteryPace,
    DirectionError, KeyCommand,
};
use sysgraph::ping::{graph_scale, pause_ms, PingSample, PingStats};

#[test]
fn keys() {
    assert_eq!(decode_key(b'q'), KeyCommand::Quit);
    assert_eq!(decode_key(b'+'), KeyCommand::Increase);
    assert_eq!(decode_key(b'-'), KeyCommand::Decrease);
    assert_eq!(decode_key(b'x'), KeyCommand::Ignore);
}

#[test]
fn battery_pace() {
    let mut p = BatteryPace::new();
    assert!(!p.apply(KeyCommand::Decrease));
    assert_eq!(p.secs, 1);
    p.apply(KeyCommand::Increase);
    assert_eq!(p.secs, 2);
    for _ in 0..200 {
        p.apply(KeyCommand::Increase);
    }
    assert_eq!(p.secs, 100);
    assert!(p.apply(KeyCommand::Quit));
    let q = BatteryPace { secs: 3 };
    assert!(q.sample_due(0));
    assert!(!q.sample_due(5));
    assert!(q.sample_due(6));
}

#[test]
fn battery_args_and_type() {
    assert_eq!(parse_battery_mode(None), Some(true));
    assert_eq!(parse_battery_mode(Some("charge")), Some(true));
    assert_eq!(parse_battery_mode(Some("usage")), Some(false));
    assert_eq!(parse_battery_mode(Some("x")), None);
    assert!(is_battery("Battery\n"));
    assert!(!is_battery("Mains\n"));
    assert!(!is_battery("\u{a0}Battery"));
}

#[test]
fn network_args() {
    assert_eq!(parse_direction(Some("down")), Ok(false));
    assert_eq!(parse_direction(Some("upload")), Ok(true));
    assert_eq!(parse_direction(Some("sideways")), Err(DirectionError::Unknown));
    assert_eq!(parse_direction(None), Err(DirectionError::Missing));
    assert_eq!(select_interface(&vec![b"lo".to_vec(), b"wlan0".to_vec()]), Some(1));
    assert_eq!(select_interface(&vec![b"lo".to_vec()]), None);
    assert_eq!(parse_counter(" 123\n"), Some(123));
    assert_eq!(parse_counter("x"), None);
}

#[test]
fn disk() {
    assert_eq!(parse_access(Some("r")), Some(false));
    assert_eq!(parse_access(Some("w")), Some(true));
    assert_eq!(parse_access(Some("rw")), None);
    assert_eq!(parse_access(None), None);
    let names = vec!["loop0".to_string(), "nvme0n1".to_string(), "sda".to_string()];
    assert_eq!(select_device(&names, "nvme"), Some(1));
    assert_eq!(select_device(&names, "sdb"), None);
    let stat = "  100 0 2000 50 10 0 300 20 0 0 0\n";
    assert_eq!(disk_sectors(stat, false), Some(2000));
    assert_eq!(disk_sectors(stat, true), Some(300));
    assert_eq!(disk_sectors("1 x 2 3 4 5 6 7 8", false), Some(3));
    assert_eq!(disk_sectors("1 2 3", false), None);
    assert_eq!(sector_bytes(10, 4), Some(3072));
    assert_eq!(sector_bytes(4, 10), None);
    assert_eq!(sector_bytes(u32::MAX, 0), None);
}

#[test]
fn gpu_name() {
    assert_eq!(short_gpu_name("NVIDIA GeForce RTX 3080"), "RTX 3080");
    assert_eq!(short_gpu_name("Quadro"), "Quadro");
}

#[test]
fn ping_statistics() {
    let mut s = PingStats::new();
    assert_eq!(s.record(None), None);
    assert_eq!(s.record(Some(20)), Some(PingSample { shown: 20, avg: 20 }));
    assert_eq!(s.record(Some(40)), Some(PingSample { shown: 40, avg: 30 }));
    assert_eq!(s.record(Some(u32::MAX)), Some(PingSample { shown: 30, avg: 30 }));
    assert_eq!(s.record(None), Some(PingSample { shown: 30, avg: 30 }));
    assert_eq!((s.min, s.max, s.sum, s.points, s.dropped), (20, 40, 60, 2, 2));
    assert!(s.min <= s.sum / s.points && s.sum / s.points <= s.max);
}

#[test]
fn ping_scale_and_pause() {
    assert_eq!(graph_scale(89), 100);
    assert_eq!(graph_scale(90), 250);
    assert_eq!(graph_scale(489), 500);
    assert_eq!(graph_scale(989), 1000);
    assert_eq!(graph_scale(2000), 2010);
    assert_eq!(graph_scale(u32::MAX), u32::MAX as u64 + 10);
    assert_eq!(pause_ms(250), 150);
    assert_eq!(pause_ms(50), 0);
}
