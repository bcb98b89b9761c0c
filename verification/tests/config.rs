use susspekt::args::AppArgs;
use susspekt::cidr::Ipv4Net;
use susspekt::keys::digest_to_string;
use susspekt::keys::generate_key;
use susspekt::logdata::LogData;
use susspekt::whitelist::Whitelist;

fn config_args(networks: &str, ja3s: &str) -> AppArgs {
    AppArgs {
        interface: None,
        file: Some("capture.pcap".to_string()),
        threshold: 1000,
        window: 60,
        alert_url: "http://localhost:8080/api/block/update".to_string(),
        dry_run: false,
        block_seconds: 86400,
        whitelist_networks: networks.to_string(),
        whitelist_ja3s: ja3s.to_string(),
        log_create_buckets: None,
        agg_ip: false,
    }
}

#[test]
fn default_networks_parse_to_two_entries() {
    let args = config_args("10.0.0.0/8, 192.168.0.0/16", "None");
    let nets = args.parse_whitelist_networks().unwrap();
    assert_eq!(nets.len(), 2);
    assert_eq!(nets[0].addr, 0x0A00_0000);
    assert_eq!(nets[0].prefix, 8);
    assert_eq!(nets[1].addr, 0xC0A8_0000);
    assert_eq!(nets[1].prefix, 16);
}

#[test]
fn malformed_network_entry_is_a_configuration_error() {
    // an invalid CIDR is fatal at startup: the first offending entry
    // comes back as the error
    let args = config_args("10.0.0.0/8, nonsense, 192.168.0.0/16, 1.2.3.4/40", "None");
    assert_eq!(args.parse_whitelist_networks().unwrap_err(), "nonsense");
    let args = config_args("10.0.0.0/8, 1.2.3.4/40", "None");
    assert_eq!(args.parse_whitelist_networks().unwrap_err(), "1.2.3.4/40");
}

#[test]
fn host_bits_are_masked_when_parsing_networks() {
    let args = config_args("10.1.2.3/8", "None");
    let nets = args.parse_whitelist_networks().unwrap();
    assert_eq!(nets.len(), 1);
    assert_eq!(nets[0].addr, 0x0A00_0000);
}

#[test]
fn parse_whitelist_ja3_splits_and_trims() {
    let args = config_args("", " a , b ,c");
    let ja3s = args.parse_whitelist_ja3();
    assert_eq!(ja3s, vec!["a".to_string(), "b".to_string(), "c".to_string()]);
}

#[test]
fn empty_whitelist_ja3_option_yields_no_entries() {
    let args = config_args("", "");
    assert!(args.parse_whitelist_ja3().is_empty());
}

#[test]
fn ip_whitelist_membership() {
    let args = config_args("10.0.0.0/8, 192.168.0.0/16", "");
    let wl = Whitelist::new(args.parse_whitelist_networks().unwrap(), args.parse_whitelist_ja3());
    assert!(wl.is_ip_whitelisted("10.5.5.5"));
    assert!(wl.is_ip_whitelisted("192.168.3.4"));
    assert!(!wl.is_ip_whitelisted("11.0.0.1"));
    assert!(!wl.is_ip_whitelisted("192.169.0.1"));
}

#[test]
fn unparseable_ip_is_not_whitelisted() {
    // even a catch-all network whitelists no string that fails to parse
    let wl = Whitelist::new(vec![Ipv4Net { addr: 0, prefix: 0 }], Vec::new());
    assert!(wl.is_ip_whitelisted("1.2.3.4"));
    assert!(!wl.is_ip_whitelisted("999.1.2.3"));
    assert!(!wl.is_ip_whitelisted("1.2.3"));
    assert!(!wl.is_ip_whitelisted("1.2.3.4.5"));
    assert!(!wl.is_ip_whitelisted("01.2.3.4"));
    assert!(!wl.is_ip_whitelisted("not an ip"));
    assert!(!wl.is_ip_whitelisted(""));
}

#[test]
fn empty_ja3_whitelist_matches_nothing() {
    let wl = Whitelist::new(Vec::new(), Vec::new());
    assert!(!wl.is_ja3_whitelisted(""));
    assert!(!wl.is_ja3_whitelisted("cafe"));
}

#[test]
fn ja3_whitelist_is_exact_match() {
    let wl = Whitelist::new(Vec::new(), vec!["cafe".to_string()]);
    assert!(wl.is_ja3_whitelisted("cafe"));
    assert!(!wl.is_ja3_whitelisted("cafe0"));
    assert!(!wl.is_ja3_whitelisted("caf"));
}

#[test]
fn digest_renders_as_lowercase_hex() {
    let digest = md5::compute("");
    let bytes: Vec<u8> = digest.0.to_vec();
    assert_eq!(digest_to_string(&bytes), "d41d8cd98f00b204e9800998ecf8427e");
    let digest2 = md5::compute("susspekt");
    assert_eq!(digest_to_string(&digest2.0.to_vec()), format!("{:x}", digest2));
}

#[test]
fn composite_key_forms() {
    let hash: Option<Vec<u8>> = Some(vec![0xca, 0xfe]);
    assert_eq!(generate_key(&hash, "1.2.3.4", false), "cafe");
    assert_eq!(generate_key(&hash, "1.2.3.4", true), "cafe-1.2.3.4");
    let none: Option<Vec<u8>> = None;
    assert_eq!(generate_key(&none, "1.2.3.4", false), "None");
    assert_eq!(generate_key(&none, "1.2.3.4", true), "None-1.2.3.4");
}

#[test]
fn only_control_and_handshake_frames_are_interesting() {
    let mut data = LogData {
        source: "1.2.3.4".to_string(),
        destination: "5.6.7.8".to_string(),
        ja3: "cafe".to_string(),
        packet_size: 100,
        is_handshake: false,
        ethernet_frame_size: 114,
        is_syn: false,
        is_fin: false,
        is_rst: false,
    };
    assert!(!data.is_interesting());
    data.is_syn = true;
    assert!(data.is_interesting());
    data.is_syn = false;
    data.is_handshake = true;
    assert!(data.is_interesting());
}
