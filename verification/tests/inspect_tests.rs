use ziphopp::inspect::{open, Error};

/// Builds an unencrypted in-memory ZIP archive with stored (not
/// compressed) entries, in the given order.
fn build_plain_zip(entries: &[(&str, &[u8])]) -> Vec<u8> {
    let cursor = std::io::Cursor::new(Vec::new());
    let mut writer = zip::ZipWriter::new(cursor);
    let options = zip::write::SimpleFileOptions::default()
        .compression_method(zip::CompressionMethod::Stored);
    for (name, data) in entries {
        writer.start_file(*name, options).unwrap();
        std::io::Write::write_all(&mut writer, data).unwrap();
    }
    writer.finish().unwrap().into_inner()
}

fn crc32(data: &[u8]) -> u32 {
    let mut crc: u32 = 0xFFFF_FFFF;
    for &b in data {
        crc ^= b as u32;
        for _ in 0..8 {
            let mask = (crc & 1).wrapping_neg();
            crc = (crc >> 1) ^ (0xEDB8_8320 & mask);
        }
    }
    !crc
}

/// The traditional PKWARE stream cipher.
struct Keys {
    k0: u32,
    k1: u32,
    k2: u32,
}

impl Keys {
    fn new(password: &[u8]) -> Keys {
        let mut keys = Keys { k0: 0x12345678, k1: 0x23456789, k2: 0x34567890 };
        for &b in password {
            keys.update(b);
        }
        keys
    }

    fn crc32_step(crc: u32, input: u8) -> u32 {
        let mut x = (crc ^ input as u32) & 0xff;
        for _ in 0..8 {
            x = if x & 1 != 0 { (x >> 1) ^ 0xEDB8_8320 } else { x >> 1 };
        }
        (crc >> 8) ^ x
    }

    fn update(&mut self, b: u8) {
        self.k0 = Keys::crc32_step(self.k0, b);
        self.k1 = self.k1.wrapping_add(self.k0 & 0xff).wrapping_mul(0x0808_8405).wrapping_add(1);
        self.k2 = Keys::crc32_step(self.k2, (self.k1 >> 24) as u8);
    }

    fn encrypt_byte(&mut self, b: u8) -> u8 {
        let temp: u16 = (self.k2 as u16) | 3;
        let cipher = (temp.wrapping_mul(temp ^ 1) >> 8) as u8 ^ b;
        self.update(b);
        cipher
    }
}

fn put_u16(out: &mut Vec<u8>, v: u16) {
    out.extend_from_slice(&v.to_le_bytes());
}

fn put_u32(out: &mut Vec<u8>, v: u32) {
    out.extend_from_slice(&v.to_le_bytes());
}

/// Builds an in-memory ZIP archive with one stored entry encrypted
/// with the traditional PKWARE cipher under `password`.
fn build_encrypted_zip(name: &str, data: &[u8], password: &[u8]) -> Vec<u8> {
    let crc = crc32(data);
    let mut keys = Keys::new(password);
    let mut plain: Vec<u8> = vec![1, 2, 3, 4, 5, 6, 7, 8, 9, 10, 11];
    plain.push((crc >> 24) as u8);
    plain.extend_from_slice(data);
    let enc: Vec<u8> = plain.iter().map(|&b| keys.encrypt_byte(b)).collect();
    let comp_len = enc.len() as u32;
    let uncomp_len = data.len() as u32;
    let name_bytes = name.as_bytes();
    let mut out: Vec<u8> = Vec::new();
    // local file header
    put_u32(&mut out, 0x04034b50);
    put_u16(&mut out, 20); // version needed to extract
    put_u16(&mut out, 1); // flags: encrypted
    put_u16(&mut out, 0); // method: stored
    put_u16(&mut out, 0); // modification time
    put_u16(&mut out, 0); // modification date
    put_u32(&mut out, crc);
    put_u32(&mut out, comp_len);
    put_u32(&mut out, uncomp_len);
    put_u16(&mut out, name_bytes.len() as u16);
    put_u16(&mut out, 0); // extra field length
    out.extend_from_slice(name_bytes);
    out.extend_from_slice(&enc);
    let cd_offset = out.len() as u32;
    // central directory header
    put_u32(&mut out, 0x02014b50);
    put_u16(&mut out, 20); // version made by
    put_u16(&mut out, 20); // version needed
    put_u16(&mut out, 1); // flags: encrypted
    put_u16(&mut out, 0); // method: stored
    put_u16(&mut out, 0); // modification time
    put_u16(&mut out, 0); // modification date
    put_u32(&mut out, crc);
    put_u32(&mut out, comp_len);
    put_u32(&mut out, uncomp_len);
    put_u16(&mut out, name_bytes.len() as u16);
    put_u16(&mut out, 0); // extra field length
    put_u16(&mut out, 0); // comment length
    put_u16(&mut out, 0); // disk number start
    put_u16(&mut out, 0); // internal attributes
    put_u32(&mut out, 0); // external attributes
    put_u32(&mut out, 0); // local header offset
    out.extend_from_slice(name_bytes);
    let cd_size = out.len() as u32 - cd_offset;
    // end of central directory
    put_u32(&mut out, 0x06054b50);
    put_u16(&mut out, 0); // this disk
    put_u16(&mut out, 0); // central directory disk
    put_u16(&mut out, 1); // entries on this disk
    put_u16(&mut out, 1); // entries in total
    put_u32(&mut out, cd_size);
    put_u32(&mut out, cd_offset);
    put_u16(&mut out, 0); // comment length
    out
}

/// Builds an in-memory ZIP archive whose single stored entry carries
/// an AES marker in its central-directory extra field while its
/// encryption flag is clear — a shape a crafted archive can take.
fn build_aes_marked_zip(name: &str, data: &[u8]) -> Vec<u8> {
    let crc = crc32(data);
    let comp_len = data.len() as u32;
    let uncomp_len = data.len() as u32;
    let name_bytes = name.as_bytes();
    let mut extra: Vec<u8> = Vec::new();
    put_u16(&mut extra, 0x9901); // AES marker
    put_u16(&mut extra, 7); // block length
    put_u16(&mut extra, 1); // vendor version AE-1
    put_u16(&mut extra, 0x4541); // vendor id "AE"
    extra.push(1); // AES-128
    put_u16(&mut extra, 0); // real method: stored
    let mut out: Vec<u8> = Vec::new();
    // local file header, flag clear, no extra field
    put_u32(&mut out, 0x04034b50);
    put_u16(&mut out, 20); // version needed to extract
    put_u16(&mut out, 0); // flags: not encrypted
    put_u16(&mut out, 0); // method: stored
    put_u16(&mut out, 0); // modification time
    put_u16(&mut out, 0); // modification date
    put_u32(&mut out, crc);
    put_u32(&mut out, comp_len);
    put_u32(&mut out, uncomp_len);
    put_u16(&mut out, name_bytes.len() as u16);
    put_u16(&mut out, 0); // extra field length
    out.extend_from_slice(name_bytes);
    out.extend_from_slice(data);
    let cd_offset = out.len() as u32;
    // central directory header carrying the AES extra field
    put_u32(&mut out, 0x02014b50);
    put_u16(&mut out, 20); // version made by
    put_u16(&mut out, 20); // version needed
    put_u16(&mut out, 0); // flags: not encrypted
    put_u16(&mut out, 0); // method: stored
    put_u16(&mut out, 0); // modification time
    put_u16(&mut out, 0); // modification date
    put_u32(&mut out, crc);
    put_u32(&mut out, comp_len);
    put_u32(&mut out, uncomp_len);
    put_u16(&mut out, name_bytes.len() as u16);
    put_u16(&mut out, extra.len() as u16);
    put_u16(&mut out, 0); // comment length
    put_u16(&mut out, 0); // disk number start
    put_u16(&mut out, 0); // internal attributes
    put_u32(&mut out, 0); // external attributes
    put_u32(&mut out, 0); // local header offset
    out.extend_from_slice(name_bytes);
    out.extend_from_slice(&extra);
    let cd_size = out.len() as u32 - cd_offset;
    // end of central directory
    put_u32(&mut out, 0x06054b50);
    put_u16(&mut out, 0); // this disk
    put_u16(&mut out, 0); // central directory disk
    put_u16(&mut out, 1); // entries on this disk
    put_u16(&mut out, 1); // entries in total
    put_u32(&mut out, cd_size);
    put_u32(&mut out, cd_offset);
    put_u16(&mut out, 0); // comment length
    out
}

#[test]
fn probe_aes_marked_unflagged_entry_fails_cleanly() {
    let bytes = build_aes_marked_zip("odd.bin", b"hi");
    let err = match open(String::from("odd.zip"), bytes, None) {
        Err(e) => e,
        Ok(_) => panic!("expected failure"),
    };
    assert!(!err.password_required);
    assert_eq!(err.path, "odd.zip");
    assert_eq!(err.message, "");
}

#[test]
fn probe_plain_archive_succeeds() {
    let bytes = build_plain_zip(&[("a.txt", b"abc"), ("dir/b.txt", b"hello")]);
    let result = open(String::from("/tmp/demo.zip"), bytes, None);
    let success = result.unwrap_or_else(|_| panic!("expected success"));
    assert_eq!(success.contents, vec!["a.txt", "dir/b.txt"]);
    assert_eq!(success.path, "/tmp/demo.zip");
    assert_eq!(success.meta.name, "demo.zip");
    // stored entries: compressed totals equal uncompressed totals
    assert_eq!(success.meta.size, "8.00B");
    assert_eq!(success.meta.compressed, "8.00B");
}

#[test]
fn probe_empty_archive_succeeds() {
    let bytes = build_plain_zip(&[]);
    let success = open(String::from("empty.zip"), bytes, None).unwrap_or_else(
        |_| panic!("expected success"),
    );
    assert_eq!(success.contents.len(), 0);
    assert_eq!(success.meta.size, "0.00B");
    assert_eq!(success.meta.compressed, "0.00B");
}

#[test]
fn probe_encrypted_archive_reports_password_required() {
    let bytes = build_encrypted_zip("secret.txt", b"top secret!", b"letmein");
    let err = match open(String::from("vault.zip"), bytes, None) {
        Err(e) => e,
        Ok(_) => panic!("expected failure"),
    };
    assert!(err.password_required);
    assert_eq!(err.path, "vault.zip");
    assert_eq!(err.message, "Password required to decrypt file");
}

#[test]
fn open_with_correct_password_succeeds() {
    let bytes = build_encrypted_zip("secret.txt", b"top secret!", b"letmein");
    let success = open(String::from("vault.zip"), bytes, Some(String::from("letmein")))
        .unwrap_or_else(|_| panic!("expected success"));
    assert_eq!(success.contents, vec!["secret.txt"]);
    // only entry 0 contributes: 11 data bytes, 12 + 11 stored bytes
    assert_eq!(success.meta.size, "11.00B");
    assert_eq!(success.meta.compressed, "23.00B");
}

#[test]
fn open_with_wrong_password_reports_password_required() {
    let bytes = build_encrypted_zip("secret.txt", b"top secret!", b"letmein");
    let err = match open(String::from("vault.zip"), bytes, Some(String::from("wrong"))) {
        Err(e) => e,
        Ok(_) => panic!("expected failure"),
    };
    assert!(err.password_required);
    assert_eq!(err.path, "vault.zip");
    assert_eq!(err.message, "provided password is incorrect");
}

#[test]
fn open_with_password_on_plain_archive_counts_first_entry_only() {
    let bytes = build_plain_zip(&[("a.txt", b"abc"), ("b.txt", b"hello")]);
    let success = open(String::from("demo.zip"), bytes, Some(String::from("ignored")))
        .unwrap_or_else(|_| panic!("expected success"));
    assert_eq!(success.contents, vec!["a.txt", "b.txt"]);
    assert_eq!(success.meta.size, "3.00B");
    assert_eq!(success.meta.compressed, "3.00B");
}

#[test]
fn open_with_password_on_empty_archive_is_blank_failure() {
    let bytes = build_plain_zip(&[]);
    let err = match open(String::from("empty.zip"), bytes, Some(String::from("pw"))) {
        Err(e) => e,
        Ok(_) => panic!("expected failure"),
    };
    assert!(!err.password_required);
    assert_eq!(err.path, "");
    assert_eq!(err.message, "");
}

#[test]
fn open_garbage_is_structural_failure() {
    let bytes = b"this is not an archive".to_vec();
    let err = match open(String::from("junk.zip"), bytes, None) {
        Err(e) => e,
        Ok(_) => panic!("expected failure"),
    };
    assert!(!err.password_required);
    assert_eq!(err.path, "junk.zip");
    assert_eq!(err.message, "invalid Zip archive: Could not find EOCD");
}

#[test]
fn error_blank_is_all_blank() {
    let e = Error::blank();
    assert!(!e.password_required);
    assert_eq!(e.path, "");
    assert_eq!(e.message, "");
}
