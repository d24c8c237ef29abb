//! Keystream transform and backpatching tests.

use slidetown::patch::{resolve_u32, write_placeholder_u32};
use slidetown::stream::{XorReader, XorWriter};

#[test]
fn keystream_round_trip_matching_offset() {
    let key = vec![0xA5, 0x3C, 0x77];
    let mut w = XorWriter::new(key.clone());
    let plain: Vec<u8> = (0..100u8).collect();
    w.write_all(&plain);
    let ciphered = w.into_bytes();
    // Bytes below the activation offset pass through unchanged.
    assert_eq!(&ciphered[..32], &plain[..32]);
    // Bytes at and above the activation offset are transformed.
    assert_ne!(&ciphered[32..], &plain[32..]);
    // Reading at matching absolute offsets restores every byte.
    let mut r = XorReader::new(ciphered, key);
    let back = r.read_exact(100).expect("within bounds");
    assert_eq!(back, plain);
}

#[test]
fn keystream_shifted_offset_corrupts() {
    let key = vec![0x10, 0x20, 0x30, 0x40, 0x51];
    let mut w = XorWriter::new(key.clone());
    let plain = vec![0xEEu8; 80];
    w.write_all(&plain);
    let ciphered = w.into_bytes();
    // Drop the first ciphered byte: every later byte now stands at a
    // shifted absolute offset, so decoding does not restore the plaintext.
    let shifted: Vec<u8> = ciphered[1..].to_vec();
    let mut r = XorReader::new(shifted, key);
    r.seek_to(32);
    let back = r.read_exact(40).expect("within bounds");
    assert_ne!(back, plain[33..73].to_vec());
}

#[test]
fn backpatch_final_content_ignores_provisional_values() {
    let key = vec![9, 8, 7];
    let reserved: [u32; 3] = [0xDEAD_BEEF, 0, 0x1234_5678];
    let mut outputs = Vec::new();
    for provisional in [0u32, 0xFFFF_FFFF] {
        let mut w = XorWriter::new(key.clone());
        w.write_all(&[0x55; 40]);
        let mut offsets: Vec<usize> = Vec::new();
        for _ in 0..3 {
            write_placeholder_u32(&mut w, &mut offsets, provisional);
        }
        w.write_all(&[0x66; 10]);
        for (i, off) in offsets.iter().enumerate() {
            resolve_u32(&mut w, *off, reserved[i]);
        }
        outputs.push(w.into_bytes());
    }
    assert_eq!(outputs[0], outputs[1]);
}

#[test]
fn seek_past_end_reads_back_as_zero_plaintext() {
    let key = vec![3, 1, 4, 1, 5];
    let mut w = XorWriter::new(key.clone());
    w.write_all(&[0xAA; 8]);
    w.seek_to(40);
    w.write_all(&[0xBB; 4]);
    let out = w.into_bytes();
    assert_eq!(out.len(), 44);
    let mut r = XorReader::new(out, key);
    r.seek_to(8);
    let gap = r.read_exact(32).unwrap();
    assert_eq!(gap, vec![0u8; 32]);
    let tail = r.read_exact(4).unwrap();
    assert_eq!(tail, vec![0xBB; 4]);
}
