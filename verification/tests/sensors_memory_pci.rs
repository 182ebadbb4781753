use sysgraph::memory::{info, MemInfoError};
use sysgraph::pci::{pci_device_id, pci_device_name, PciIdError};
use sysgraph::sensors::{
    input_index, is_coretemp, is_temp_input, label_file, label_wanted, name_digits, select_sensor,
    SensorError,
};
use sysgraph::truncate::truncate_to;

fn labels(v: &[&str]) -> Vec<String> {
    v.iter().map(|s| s.to_string()).collect()
}

#[test]
fn sensor_files() {
    assert!(is_temp_input("temp1_input"));
    assert!(!is_temp_input("temp1_label"));
    assert!(!is_temp_input("in0_input"));
    assert_eq!(input_index(b"temp12_input"), Some(12));
    assert_eq!(input_index(b"temp_input"), Some(0));
    assert_eq!(input_index(b"tem"), Some(0));
    assert_eq!(input_index("temp7é".as_bytes()), Some(7));
    assert_eq!(name_digits("temp1_input"), Some(1));
    assert_eq!(name_digits("temp99999999999999999999_input"), None);
    assert_eq!(label_file(3), "temp3_label");
    assert!(is_coretemp("coretemp\n"));
    assert!(!is_coretemp("k10temp\n"));
}

#[test]
fn sensor_labels() {
    assert!(label_wanted("Core 3", Some(3)));
    assert!(!label_wanted("Core 4", Some(3)));
    assert!(label_wanted("Package id 0", None));
    assert!(!label_wanted("Core 0", None));
}

#[test]
fn sensor_selection() {
    let intel = labels(&["Package id 0", "Core 0", "Core 1"]);
    assert_eq!(select_sensor(&intel, Some(1)), Ok(2));
    assert_eq!(select_sensor(&intel, None), Ok(0));
    assert_eq!(select_sensor(&intel, Some(5)), Err(SensorError::NoIntel));
    assert_eq!(select_sensor(&labels(&["Tctl", "Tccd1"]), None), Ok(1));
    assert_eq!(select_sensor(&labels(&[]), None), Err(SensorError::NoAmd));
}

const MEMINFO: &str = "MemTotal:       16318716 kB\nMemFree:         1000 kB\nMemAvailable:    8000000 kB\n";

#[test]
fn meminfo_reading() {
    assert_eq!(info(MEMINFO), Ok([16318716, 8318716]));
    assert_eq!(info("MemAvailable: 1 kB\n"), Err(MemInfoError::MissingTotal));
    assert_eq!(info("MemTotal: 1 kB\n"), Err(MemInfoError::MissingAvailable));
    assert_eq!(info("MemTotal: 1 kB\nMemAvailable: 2 kB\n"), Err(MemInfoError::AvailableExceedsTotal));
    assert_eq!(
        info("MemTotal: 99999999999999999999 kB\nMemAvailable: 2 kB\n"),
        Err(MemInfoError::TotalTooLarge)
    );
    assert_eq!(
        info("MemTotal: 9 kB\nMemAvailable: 99999999999999999999\n"),
        Err(MemInfoError::AvailableTooLarge)
    );
}

#[test]
fn pci_ids() {
    let uevent = "DRIVER=e1000e\nPCI_CLASS=20000\nPCI_ID=8086:15BE\n";
    assert_eq!(pci_device_id(uevent), Ok("15be".to_string()));
    assert_eq!(pci_device_id("DRIVER=x\n"), Err(PciIdError::NoPciLine));
    assert_eq!(pci_device_id("PCI_ID\n"), Err(PciIdError::NoEquals));
    assert_eq!(pci_device_id("PCI_ID=8086\n"), Err(PciIdError::NoColon));
    let ids = "8086  Intel Corporation\n\t15bd  Other\n\t15be  Ethernet Connection (6) I219-V\n\t\t1028 15be  Sub\n";
    assert_eq!(pci_device_name(ids, "15be"), Some("Ethernet Connection (6) I219-V".to_string()));
    assert_eq!(pci_device_name(ids, "ffff"), None);
}

#[test]
fn truncation() {
    assert_eq!(truncate_to("hello", 10), "hello");
    assert_eq!(truncate_to("hello world", 5), "hell…");
    assert_eq!(truncate_to("abc", 3), "ab…");
    assert_eq!(truncate_to("", 0), "");
    assert_eq!(truncate_to("日本語", 4), "日…");
    assert_eq!(truncate_to("a\u{1}b", 2), "a\u{1}…");
}
