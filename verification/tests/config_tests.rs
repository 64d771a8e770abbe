use tapctl::config::default_device_name;
use tapctl::config::resolve_config;
use tapctl::config::resolve_mac;
use tapctl::config::LogSeverity;
use tapctl::config::MacSource;
use tapctl::config::DEFAULT_MTU;

#[test]
fn user_supplied_mac_is_kept_and_reported_as_such() {
    let (cfg, source) = resolve_config(
        String::from("tap0"),
        DEFAULT_MTU,
        Some([0x0a, 0x0b, 0x0c, 0x0d, 0x0e, 0x0f]),
    );
    assert_eq!(cfg.mac, [0x0a, 0x0b, 0x0c, 0x0d, 0x0e, 0x0f]);
    assert_eq!(source, MacSource::UserSupplied);
    assert_eq!(source.log_severity(), LogSeverity::Informational);
}

#[test]
fn missing_mac_is_generated_and_reported_as_warning() {
    let (cfg, source) = resolve_config(String::from("tap0"), DEFAULT_MTU, None);
    assert_eq!(cfg.mac[0] & 0x02, 0x02);
    assert_eq!(cfg.mac[0] & 0x01, 0x00);
    assert_eq!(source, MacSource::RandomlyGenerated);
    assert_eq!(source.log_severity(), LogSeverity::Warning);
}

#[test]
fn name_and_mtu_pass_through_unchanged() {
    let (cfg, _) = resolve_config(String::from("eth-test"), 1400, None);
    assert_eq!(cfg.name, "eth-test");
    assert_eq!(cfg.mtu, 1400);
}

#[test]
fn resolve_mac_keeps_requested_bytes() {
    let (mac, source) = resolve_mac(Some([1, 2, 3, 4, 5, 6]));
    assert_eq!(mac, [1, 2, 3, 4, 5, 6]);
    assert_eq!(source, MacSource::UserSupplied);
}

#[test]
fn defaults_match_the_documented_values() {
    assert_eq!(default_device_name(), "tap0");
    assert_eq!(DEFAULT_MTU, 1500);
}
