use cryptolab::rc5::{CipherError, RC5};

// RC5-32/12/16
#[test]
fn simple() {
    let rc = RC5::<u32>::new(12, 16);

    let key = &[
        0x00, 0x01, 0x02, 0x03, 0x04, 0x05, 0x06, 0x07, 0x08, 0x09, 0x0A, 0x0B, 0x0C, 0x0D,
        0x0E, 0x0F,
    ];
    let pt = &[0x00u8, 0x11, 0x22, 0x33, 0x44, 0x55, 0x66, 0x77];
    let ct = &[0x2Du8, 0xDC, 0x14, 0x9B, 0xCF, 0x08, 0x8B, 0x9E];

    let ciphertext = rc.encrypt(pt, key).unwrap();

    assert_eq!(ciphertext, ct);

    let plain = rc.decrypt(&ciphertext[..], key).unwrap();

    assert_eq!(plain, pt);
}

fn counting(n: usize) -> Vec<u8> {
    (0..n).map(|i| i as u8).collect()
}

#[test]
fn known_answer_rc5_32_20_16() {
    let rc = RC5::<u32>::new(20, 16);
    let key = counting(16);
    let pt = counting(8);
    let ct = rc.encrypt(&pt, &key).unwrap();
    assert_eq!(ct, [0x2A, 0x0E, 0xDC, 0x0E, 0x94, 0x31, 0xFF, 0x73]);
    assert_eq!(rc.decrypt(&ct, &key).unwrap(), pt);
}

#[test]
fn known_answer_rc5_16_16_8() {
    let rc = RC5::<u16>::new(16, 8);
    let key = counting(8);
    let pt = counting(4);
    let ct = rc.encrypt(&pt, &key).unwrap();
    assert_eq!(ct, [0x23, 0xA8, 0xD7, 0x2E]);
    assert_eq!(rc.decrypt(&ct, &key).unwrap(), pt);
}

#[test]
fn known_answer_rc5_64_24_24() {
    let rc = RC5::<u64>::new(24, 24);
    let key = counting(24);
    let pt = counting(16);
    let ct = rc.encrypt(&pt, &key).unwrap();
    assert_eq!(
        ct,
        [
            0xA4, 0x67, 0x72, 0x82, 0x0E, 0xDB, 0xCE, 0x02, 0x35, 0xAB, 0xEA, 0x32, 0xAE,
            0x71, 0x78, 0xDA
        ]
    );
    assert_eq!(rc.decrypt(&ct, &key).unwrap(), pt);
}

#[test]
fn ecb_round_trip_all_widths() {
    let text = counting(48);
    let key = b"secret key bytes";
    let rc16 = RC5::<u16>::new(12, 16);
    let rc32 = RC5::<u32>::new(12, 16);
    let rc64 = RC5::<u64>::new(12, 16);
    let c16 = rc16.encrypt(&text, key).unwrap();
    let c32 = rc32.encrypt(&text, key).unwrap();
    let c64 = rc64.encrypt(&text, key).unwrap();
    assert_ne!(c16, text);
    assert_ne!(c32, text);
    assert_ne!(c64, text);
    assert_eq!(rc16.decrypt(&c16, key).unwrap(), text);
    assert_eq!(rc32.decrypt(&c32, key).unwrap(), text);
    assert_eq!(rc64.decrypt(&c64, key).unwrap(), text);
}

#[test]
fn ecb_empty_text() {
    let rc = RC5::<u32>::new(12, 16);
    assert_eq!(rc.encrypt(&[], b"k").unwrap(), Vec::<u8>::new());
    assert_eq!(rc.decrypt(&[], b"k").unwrap(), Vec::<u8>::new());
}

#[test]
fn ecb_rejects_partial_block() {
    let rc = RC5::<u32>::new(12, 16);
    let key = counting(16);
    assert_eq!(rc.encrypt(&counting(7), &key), Err(CipherError::InvalidBlockLength));
    assert_eq!(rc.decrypt(&counting(9), &key), Err(CipherError::InvalidBlockLength));
    let rc64 = RC5::<u64>::new(12, 16);
    assert_eq!(rc64.encrypt(&counting(8), &key), Err(CipherError::InvalidBlockLength));
}

#[test]
fn odd_and_empty_keys_are_accepted() {
    let rc = RC5::<u32>::new(12, 16);
    let text = counting(16);
    for key in [&b""[..], &b"k"[..], &b"five!"[..], &counting(33)[..]] {
        let ct = rc.encrypt(&text, key).unwrap();
        assert_eq!(rc.decrypt(&ct, key).unwrap(), text);
    }
    // A different key gives a different ciphertext.
    assert_ne!(rc.encrypt(&text, b"k").unwrap(), rc.encrypt(&text, b"j").unwrap());
}

#[test]
fn cbc_round_trip_whole_blocks() {
    let key = counting(16);
    let text = counting(32);
    let mut rc = RC5::<u32>::new(12, 16);
    let ct = rc.encrypt_cbc(&text, &key);
    assert_eq!(ct.len(), 32);
    assert_eq!(rc.decrypt_cbc(&ct, &key).unwrap(), text);

    let mut rc64 = RC5::<u64>::new(12, 16);
    let ct = rc64.encrypt_cbc(&text, &key);
    assert_eq!(rc64.decrypt_cbc(&ct, &key).unwrap(), text);
}

#[test]
fn cbc_first_block_matches_ecb() {
    // The first block is chained to the zero block, so it equals its ECB encryption.
    let key = counting(16);
    let text = counting(8);
    let mut rc = RC5::<u32>::new(12, 16);
    let cbc = rc.encrypt_cbc(&text, &key);
    let ecb = rc.encrypt(&text, &key).unwrap();
    assert_eq!(cbc, ecb);
}

#[test]
fn cbc_pad_integrity() {
    let key = b"another key";
    for len in [1usize, 5, 7, 9, 13, 15, 17] {
        let text = counting(len);
        let mut rc = RC5::<u32>::new(12, 16);
        let ct = rc.encrypt_cbc(&text, key);
        assert_eq!(ct.len() % 8, 0);
        assert!(ct.len() >= len && ct.len() < len + 8);
        assert_eq!(rc.decrypt_cbc(&ct, key).unwrap(), text);
    }
    let text = counting(13);
    let mut rc = RC5::<u64>::new(12, 16);
    let ct = rc.encrypt_cbc(&text, key);
    assert_eq!(ct.len(), 16);
    assert_eq!(rc.decrypt_cbc(&ct, key).unwrap(), text);
}

#[test]
fn cbc_empty_text() {
    let mut rc = RC5::<u32>::new(12, 16);
    let ct = rc.encrypt_cbc(&[], b"k");
    assert!(ct.is_empty());
    assert_eq!(rc.decrypt_cbc(&ct, b"k").unwrap(), Vec::<u8>::new());
}

#[test]
fn cbc_rejects_partial_block() {
    let mut rc = RC5::<u32>::new(12, 16);
    assert_eq!(rc.decrypt_cbc(&counting(10), b"k"), Err(CipherError::InvalidBlockLength));
}

#[test]
fn cbc_rejects_pad_longer_than_text() {
    let mut rc = RC5::<u32>::new(12, 16);
    // Three bytes are padded with five zero bytes.
    let _ = rc.encrypt_cbc(&counting(3), b"k");
    assert_eq!(rc.decrypt_cbc(&[], b"k"), Err(CipherError::PadLengthUnderflow));
}

fn blocks(c: &[u8], size: usize) -> Vec<Vec<u8>> {
    c.chunks(size).map(|b| b.to_vec()).collect()
}

#[test]
fn cbc_change_propagates_ecb_does_not() {
    let key = counting(16);
    let p = counting(32);
    let mut q = p.clone();
    q[10] ^= 0x01; // block 1 of 4

    let mut rc = RC5::<u32>::new(12, 16);
    let cp = blocks(&rc.encrypt_cbc(&p, &key), 8);
    let cq = blocks(&rc.encrypt_cbc(&q, &key), 8);
    assert_eq!(cp[0], cq[0]);
    assert_ne!(cp[1], cq[1]);
    assert_ne!(cp[2], cq[2]);
    assert_ne!(cp[3], cq[3]);

    let ep = blocks(&rc.encrypt(&p, &key).unwrap(), 8);
    let eq = blocks(&rc.encrypt(&q, &key).unwrap(), 8);
    assert_eq!(ep[0], eq[0]);
    assert_ne!(ep[1], eq[1]);
    assert_eq!(ep[2], eq[2]);
    assert_eq!(ep[3], eq[3]);
}

#[test]
fn equal_blocks_differ_only_under_cbc() {
    let key = counting(16);
    let p = vec![0x42u8; 16];
    let rc = RC5::<u32>::new(12, 16);
    let e = blocks(&rc.encrypt(&p, &key).unwrap(), 8);
    assert_eq!(e[0], e[1]);
    let mut rc = RC5::<u32>::new(12, 16);
    let c = blocks(&rc.encrypt_cbc(&p, &key), 8);
    assert_ne!(c[0], c[1]);
}
