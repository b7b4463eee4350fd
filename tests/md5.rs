use cryptolab::md5::MD5;

#[test]
fn empty_string() {
    assert_eq!(MD5::from(""), "D41D8CD98F00B204E9800998ECF8427E");
}

#[test]
fn site_example() {
    assert_eq!(
        MD5::from("They are deterministic"),
        "23DB6982CAEF9E9152F1A5B2589E6CA3"
    );
}

#[test]
fn single_letter() {
    assert_eq!(MD5::from("a"), "0CC175B9C0F1B6A831C399E269772661");
}

#[test]
fn abc_letters() {
    assert_eq!(MD5::from("abc"), "900150983CD24FB0D6963F7D28E17F72");
}

#[test]
fn long_message() {
    assert_eq!(
        MD5::from("message digest"),
        "F96B697D7CB7938D525A2F31AAF161D0"
    );
}

#[test]
fn alphabet_message() {
    assert_eq!(
        MD5::from("abcdefghijklmnopqrstuvwxyz"),
        "C3FCD3D76192E4007DFB496CCA67E13B"
    );
}

#[test]
fn letters_numbers_message() {
    assert_eq!(
        MD5::from("ABCDEFGHIJKLMNOPQRSTUVWXYZabcdefghijklmnopqrstuvwxyz0123456789"),
        "D174AB98D277D9F5A5611C2C9F419D9F"
    );
}

#[test]
fn repeated_numbers() {
    assert_eq!(
        MD5::from("12345678901234567890123456789012345678901234567890123456789012345678901234567890"),
        "57EDF4A22BE3C955AC49DA2E2107B67A"
    );
}

#[test]
fn digest_is_deterministic() {
    let first = MD5::from("repeat me");
    let second = MD5::from("repeat me");
    assert_eq!(first, second);
    assert_eq!(first.len(), 32);
    assert_ne!(first, MD5::from("repeat me!"));
}

#[test]
fn digest_of_bytes_matches_digest_of_text() {
    assert_eq!(MD5::from_bytes(b"abc"), MD5::from("abc"));
    assert_eq!(MD5::from_bytes(&[]), "D41D8CD98F00B204E9800998ECF8427E");
}

#[test]
fn padding_at_boundary_adds_a_whole_block() {
    let message = [b'x'; 56];
    let padded = MD5::pad(&message);
    assert_eq!(padded.len(), 128);
    assert_eq!(&padded[..56], &message[..]);
    assert_eq!(padded[56], 0x80);
    assert!(padded[57..120].iter().all(|&b| b == 0));
    // 56 bytes are 448 bits = 0x1C0, little-endian.
    assert_eq!(&padded[120..], &[0xC0, 0x01, 0, 0, 0, 0, 0, 0]);
}

#[test]
fn padding_of_short_and_empty_messages() {
    let padded = MD5::pad(&[]);
    assert_eq!(padded.len(), 64);
    assert_eq!(padded[0], 0x80);
    assert!(padded[1..].iter().all(|&b| b == 0));

    let padded = MD5::pad(&[1, 2, 3]);
    assert_eq!(padded.len(), 64);
    assert_eq!(&padded[..4], &[1, 2, 3, 0x80]);
    assert_eq!(&padded[56..], &[24, 0, 0, 0, 0, 0, 0, 0]);

    let padded = MD5::pad(&[7; 55]);
    assert_eq!(padded.len(), 64);
    assert_eq!(padded[55], 0x80);

    let padded = MD5::pad(&[7; 64]);
    assert_eq!(padded.len(), 128);
}

#[test]
fn digest_at_boundary_length() {
    let message = "abcdbcdecdefdefgefghfghighijhijkijkljklmklmnlmnomnopnopq";
    assert_eq!(message.len(), 56);
    assert_eq!(MD5::from(message), "8215EF0796A20BCAAAE116D3876C664A");
}
