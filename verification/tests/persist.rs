use longfred_proto::persist::{
    crc32, id_from_entropy, wifi_hostname_from_entropy, Language, PersistRecord, SavedLoco, StaticIpConfig,
    DEVICE_ID_MAX, DEVICE_ID_MIN, MAGIC, MAX_CREDENTIALS, TAG_CRED, TAG_DEV, TAG_LOCO, TAG_NET, WIFI_HOSTNAME_PREFIX,
    WIFI_HOSTNAME_SUFFIX_LEN,
};

fn put_u8(buf: &mut Vec<u8>, v: u8) {
    buf.push(v);
}

fn put_u16(buf: &mut Vec<u8>, v: u16) {
    buf.extend_from_slice(&v.to_le_bytes());
}

fn put_u32(buf: &mut Vec<u8>, v: u32) {
    buf.extend_from_slice(&v.to_le_bytes());
}

fn seal(mut buf: Vec<u8>) -> Vec<u8> {
    let crc = crc32(&buf);
    put_u32(&mut buf, crc);
    buf
}

fn encode_v1(rec: &PersistRecord) -> Vec<u8> {
    let mut buf = Vec::new();
    put_u32(&mut buf, MAGIC);
    put_u16(&mut buf, 1);
    put_u16(&mut buf, rec.credentials.len() as u16);
    put_u16(&mut buf, rec.locos.len() as u16);
    for c in &rec.credentials {
        put_u8(&mut buf, TAG_CRED);
        put_u8(&mut buf, c.ssid.len() as u8);
        put_u8(&mut buf, c.password.len() as u8);
        buf.extend_from_slice(&c.ssid);
        buf.extend_from_slice(&c.password);
    }
    for l in &rec.locos {
        put_u8(&mut buf, TAG_LOCO);
        put_u8(&mut buf, l.throttle);
        put_u8(&mut buf, l.slot);
        put_u8(&mut buf, l.addr.len() as u8);
        buf.extend_from_slice(&l.addr);
    }
    seal(buf)
}

fn roundtrip(rec: &PersistRecord) -> PersistRecord {
    let mut buf = [0u8; 512];
    let n = rec.encode(&mut buf).unwrap();
    PersistRecord::decode(&buf[..n]).unwrap()
}

#[test]
fn roundtrip_empty() {
    let rec = PersistRecord::default();
    assert_eq!(roundtrip(&rec), rec);
}

#[test]
fn roundtrip_full() {
    let mut rec = PersistRecord::default();
    rec.set_password("HomeNet", "secret123");
    rec.set_password("ClubWiFi", "pass");
    rec.locos.push(SavedLoco { throttle: b'0', slot: 0, addr: b"S42".to_vec() });
    assert_eq!(roundtrip(&rec), rec);
}

#[test]
fn roundtrip_network_static() {
    let mut rec = PersistRecord::default();
    rec.network = Some(StaticIpConfig {
        dhcp: false,
        ip: [192, 168, 1, 50],
        prefix_len: 24,
        gateway: Some([192, 168, 1, 1]),
        dns: None,
    });
    assert_eq!(roundtrip(&rec), rec);
}

#[test]
fn roundtrip_network_dhcp() {
    let mut rec = PersistRecord::default();
    rec.network = Some(StaticIpConfig { dhcp: true, ..Default::default() });
    assert_eq!(roundtrip(&rec), rec);
}

#[test]
fn decode_v1_compat() {
    let mut rec = PersistRecord::default();
    rec.set_password("net", "pw");
    let bytes = encode_v1(&rec);
    let decoded = PersistRecord::decode(&bytes).unwrap();
    assert_eq!(decoded.credentials, rec.credentials);
    assert_eq!(decoded.locos, rec.locos);
    assert!(decoded.network.is_none());
    assert_eq!(decoded.device.id, 0);
}

#[test]
fn roundtrip_device() {
    let mut rec = PersistRecord::default();
    rec.device.name = b"MyPilot".to_vec();
    rec.device.id = 4321;
    assert_eq!(roundtrip(&rec).device, rec.device);
}

#[test]
fn decode_v2_without_device_tag() {
    let mut buf = Vec::new();
    put_u32(&mut buf, MAGIC);
    put_u16(&mut buf, 2);
    put_u16(&mut buf, 0);
    put_u16(&mut buf, 0);
    put_u8(&mut buf, TAG_NET);
    put_u8(&mut buf, 1);
    buf.extend_from_slice(&[0, 0, 0, 0]);
    put_u8(&mut buf, 24);
    put_u8(&mut buf, 0);
    buf.extend_from_slice(&[0, 0, 0, 0]);
    put_u8(&mut buf, 0);
    buf.extend_from_slice(&[0, 0, 0, 0]);
    let decoded = PersistRecord::decode(&seal(buf)).unwrap();
    assert!(decoded.network.is_some());
    assert_eq!(decoded.device.id, 0);
}

#[test]
fn wifi_hostname_from_entropy_format() {
    let host = wifi_hostname_from_entropy(0x1234_5678);
    assert!(host.starts_with(WIFI_HOSTNAME_PREFIX.as_bytes()));
    assert_eq!(host.len(), WIFI_HOSTNAME_PREFIX.len() + WIFI_HOSTNAME_SUFFIX_LEN);
    for &c in &host[WIFI_HOSTNAME_PREFIX.len()..] {
        assert!(c.is_ascii_digit() || c.is_ascii_lowercase());
    }
}

#[test]
fn roundtrip_wifi_hostname() {
    let mut rec = PersistRecord::default();
    rec.wifi_hostname = wifi_hostname_from_entropy(99);
    assert_eq!(roundtrip(&rec).wifi_hostname, rec.wifi_hostname);
}

#[test]
fn roundtrip_language() {
    let mut rec = PersistRecord::default();
    rec.language = Language::Pl;
    assert_eq!(roundtrip(&rec).language, Language::Pl);
}

#[test]
fn decode_without_lang_defaults_en() {
    let mut buf = Vec::new();
    put_u32(&mut buf, MAGIC);
    put_u16(&mut buf, 3);
    put_u16(&mut buf, 0);
    put_u16(&mut buf, 0);
    put_u8(&mut buf, TAG_DEV);
    put_u8(&mut buf, 0);
    put_u16(&mut buf, 1234);
    let decoded = PersistRecord::decode(&seal(buf)).unwrap();
    assert_eq!(decoded.language, Language::En);
    assert_eq!(decoded.device.id, 1234);
}

#[test]
fn id_from_entropy_range() {
    for e in [0, 1, 42, 0xFFFF_FFFF] {
        let id = id_from_entropy(e);
        assert!(id >= DEVICE_ID_MIN && id <= DEVICE_ID_MAX);
    }
}

#[test]
fn set_password_replace() {
    let mut rec = PersistRecord::default();
    rec.set_password("net", "old");
    rec.set_password("net", "new");
    assert_eq!(rec.credentials.len(), 1);
    assert_eq!(rec.find_password("net"), Some(&b"new"[..]));
}

#[test]
fn set_password_eviction() {
    let mut rec = PersistRecord::default();
    for i in 0..MAX_CREDENTIALS {
        let ssid = ((b'0' + i as u8) as char).to_string();
        rec.set_password(&ssid, "pw");
    }
    rec.set_password("overflow", "x");
    assert_eq!(rec.credentials.len(), MAX_CREDENTIALS);
    assert!(rec.find_password("0").is_none());
    assert_eq!(rec.find_password("overflow"), Some(&b"x"[..]));
}

#[test]
fn decode_invalid() {
    assert!(PersistRecord::decode(&[]).is_none());
    assert!(PersistRecord::decode(&[0u8; 4]).is_none());
    let mut buf = [0u8; 32];
    buf[0..4].copy_from_slice(&MAGIC.to_le_bytes());
    assert!(PersistRecord::decode(&buf).is_none());
}

#[test]
fn decode_rejects_corrupted_checksum() {
    let rec = PersistRecord::default();
    let mut bytes = rec.encode_vec();
    let last = bytes.len() - 1;
    bytes[last] ^= 0x55;
    assert!(PersistRecord::decode(&bytes).is_none());
}

#[test]
fn crc32_known_value() {
    assert_eq!(crc32(b"123456789"), 0xCBF4_3926);
    assert_eq!(crc32(b""), 0);
}

#[test]
fn encode_reports_small_buffer() {
    let rec = PersistRecord::default();
    let mut tiny = [0u8; 4];
    assert_eq!(rec.encode(&mut tiny), None);
    let mut buf = [0u8; 512];
    assert_eq!(rec.encode(&mut buf), Some(rec.encode_vec().len()));
}

#[test]
fn encode_writes_the_pieces_that_fit() {
    let rec = PersistRecord::default();
    let full = rec.encode_vec();
    // The magic number fits a four-byte buffer and is written.
    let mut tiny = [0xAAu8; 4];
    assert_eq!(rec.encode(&mut tiny), None);
    assert_eq!(tiny.to_vec(), full[..4].to_vec());
    // Header, device tag and name length fit in 12 bytes; the name does not.
    let mut small = [0xAAu8; 13];
    assert_eq!(rec.encode(&mut small), None);
    assert_eq!(small[..12].to_vec(), full[..12].to_vec());
    assert_eq!(small[12], 0xAA);
    // Everything but the CRC: the body is written, the CRC is not.
    let mut almost = vec![0xAAu8; full.len() - 1];
    assert_eq!(rec.encode(&mut almost), None);
    assert_eq!(almost[..full.len() - 4].to_vec(), full[..full.len() - 4].to_vec());
    assert_eq!(almost[full.len() - 4..].to_vec(), vec![0xAA; 3]);
}

#[test]
fn any_single_bit_flip_is_refused() {
    let rec = PersistRecord::default();
    let full = rec.encode_vec();
    assert!(PersistRecord::decode(&full).is_some());
    for pos in 0..full.len() {
        for bit in 0..8u8 {
            let mut bad = full.clone();
            bad[pos] ^= 1 << bit;
            assert!(PersistRecord::decode(&bad).is_none(), "flip at {} bit {}", pos, bit);
        }
    }
}
