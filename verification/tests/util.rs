use figma_agent::util::{
    cache_dir, config_dir, machine_id, now_secs, platform_uuid, secs_or_zero, uuid_from_ioreg,
    uuid_from_machine_id, UuidSource, UPSTREAM_API_VERSION, UPSTREAM_PACKAGE, VERSION,
};
use sha2::Digest;

#[test]
fn versions() {
    assert_eq!(VERSION, "0.1.0");
    assert_eq!(UPSTREAM_PACKAGE, "126.4.11");
    assert_eq!(UPSTREAM_API_VERSION, 24);
}

#[test]
fn config_dir_prefers_xdg() {
    assert_eq!(config_dir(Some(b"/xdg".to_vec()), Some(b"/home/u".to_vec())), Some(b"/xdg/figma-agent".to_vec()));
    assert_eq!(config_dir(None, Some(b"/home/u".to_vec())), Some(b"/home/u/.config/figma-agent".to_vec()));
    assert_eq!(config_dir(None, None), None);
    assert_eq!(config_dir(Some(Vec::new()), None), Some(b"figma-agent".to_vec()));
}

#[test]
fn cache_dir_prefers_xdg() {
    assert_eq!(cache_dir(Some(b"/c/".to_vec()), None), Some(b"/c/figma-agent".to_vec()));
    assert_eq!(cache_dir(None, Some(b"/home/u".to_vec())), Some(b"/home/u/.cache/figma-agent".to_vec()));
}

#[test]
fn clock() {
    assert_eq!(secs_or_zero(None), 0);
    assert_eq!(secs_or_zero(Some(5)), 5);
    assert!(now_secs() > 1_600_000_000);
}

#[test]
fn machine_id_is_salted_sha256() {
    let id = machine_id(Some(b"ABCD-1234".to_vec()));
    let mut h = sha2::Sha256::new();
    h.update(b"ABCD-1234");
    h.update(b"figma_agent_machine_id_salt_v1");
    assert_eq!(id, hex::encode(h.finalize()));
    assert_eq!(id.len(), 64);
    assert!(id.chars().all(|c| c.is_ascii_hexdigit() && !c.is_ascii_uppercase()));
    let empty = machine_id(None);
    assert_eq!(empty, hex::encode(sha2::Sha256::digest(b"figma_agent_machine_id_salt_v1")));
}

#[test]
fn ioreg_uuid() {
    let out = b"+-o Root  <class IORegistryEntry>\n    \"IOPlatformSerialNumber\" = \"C02X\"\n    \"IOPlatformUUID\" = \"1234-ABCD-5678\"\r\n";
    assert_eq!(uuid_from_ioreg(out), Some(b"1234-ABCD-5678".to_vec()));
    assert_eq!(uuid_from_ioreg(b"nothing here\n"), None);
    // Too few quotes on the first matching line: no UUID.
    assert_eq!(uuid_from_ioreg(b"IOPlatformUUID = \"x\"\n\"IOPlatformUUID\" = \"y\"\n"), None);
    assert_eq!(platform_uuid(UuidSource::Ioreg(None)), None);
    assert_eq!(platform_uuid(UuidSource::Unsupported), None);
}

#[test]
fn machine_id_file_is_trimmed() {
    assert_eq!(uuid_from_machine_id("  0123abcd\n"), b"0123abcd".to_vec());
    assert_eq!(uuid_from_machine_id("\u{3000}x y\u{2029}"), "x y".as_bytes().to_vec());
    assert_eq!(platform_uuid(UuidSource::MachineIdFile(Some("abc\n".to_string()))), Some(b"abc".to_vec()));
    assert_eq!(platform_uuid(UuidSource::MachineIdFile(None)), None);
}
