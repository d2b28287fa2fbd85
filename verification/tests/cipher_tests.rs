use grain128::Grain128;
use grain128::GrainError;

#[test]
fn testvectors() {
    let tt: Vec<([u8; 16], [u8; 16], [u8; 12])> = vec![
        (
            [0x00, 0x00, 0x00, 0x00, 0x00, 0x00, 0x00, 0x00, 0x00, 0x00, 0x00, 0x00, 0x00, 0x00,
             0x00, 0x00],
            [0xf0, 0x9b, 0x7b, 0xf7, 0xd7, 0xf6, 0xb5, 0xc2, 0xde, 0x2f, 0xfc, 0x73, 0xac, 0x21,
             0x39, 0x7f],
            [0x00, 0x00, 0x00, 0x00, 0x00, 0x00, 0x00, 0x00, 0x00, 0x00, 0x00, 0x00],
        ),
        (
            [0x01, 0x23, 0x45, 0x67, 0x89, 0xab, 0xcd, 0xef, 0x12, 0x34, 0x56, 0x78, 0x9a, 0xbc,
             0xde, 0xf0],
            [0xaf, 0xb5, 0xba, 0xbf, 0xa8, 0xde, 0x89, 0x6b, 0x4b, 0x9c, 0x6a, 0xca, 0xf7, 0xc4,
             0xfb, 0xfd],
            [0x01, 0x23, 0x45, 0x67, 0x89, 0xab, 0xcd, 0xef, 0x12, 0x34, 0x56, 0x78],
        ),
    ];

    for (key, expect, iv) in tt.iter() {
        let mut g = Grain128::keysetup(key.as_ref(), 128, 96).unwrap();
        g.ivsetup(iv.as_ref()).unwrap();

        let ciphertext = g.keystream_bytes(16).unwrap();

        assert_eq!(ciphertext.as_slice(), expect.as_ref());
    }
}

#[test]
fn encrypt_test() {
    let test: Vec<([u8; 16], [u8; 16], [u8; 16])> = vec![
        (
            [0xd9, 0x5e, 0xbe, 0x35, 0x62, 0xca, 0xdd, 0x42, 0x98, 0x67, 0xb8, 0xcc, 0x7c, 0xd7,
             0xb7, 0xe8],
            [0x60, 0xb1, 0x78, 0xb8, 0xe2, 0x03, 0xdf, 0x01, 0xd0, 0x8a, 0xd1, 0xf3, 0x8b, 0xe2,
             0x5c, 0x82],
            [0x00, 0x00, 0x00, 0x00, 0x00, 0x00, 0x00, 0x00, 0x00, 0x00, 0x00, 0x00, 0x00, 0x00,
             0x00, 0x00],
        ),
        (
            [0x83, 0x1f, 0xad, 0x16, 0xa6, 0xbe, 0xbb, 0x9d, 0x30, 0x5e, 0xb8, 0x2c, 0x68, 0x0b,
             0x88, 0xf2],
            [0x6a, 0xb6, 0x53, 0x0a, 0x69, 0xc1, 0x87, 0xdd, 0x61, 0x31, 0xf1, 0x43, 0x25, 0x30,
             0x26, 0x0c],
            [0x00, 0x00, 0x00, 0x00, 0x00, 0x00, 0x00, 0x00, 0x00, 0x00, 0x00, 0x00, 0x00, 0x00,
             0x00, 0x00],
        ),
        (
            [0x51, 0x46, 0xd2, 0x70, 0xd4, 0x01, 0x4f, 0xe5, 0x3a, 0x20, 0x30, 0x50, 0xcf, 0x0a,
             0xcb, 0x53],
            [0x95, 0x51, 0x8e, 0x0d, 0x71, 0xba, 0xdc, 0xed, 0xff, 0x66, 0x32, 0xe1, 0x93, 0x66,
             0xdb, 0xca],
            [0x50, 0x5b, 0x96, 0x89, 0x98, 0xed, 0x76, 0x05, 0x0d, 0x0b, 0x9a, 0xc8, 0x84, 0x04,
             0x3e, 0x0d],
        ),
        (
            [0xff, 0xb2, 0x02, 0xf5, 0x67, 0xb2, 0x73, 0x27, 0xc3, 0x3d, 0x4c, 0x17, 0x95, 0x10,
             0xd0, 0x3f],
            [0xf0, 0xb4, 0xc6, 0x48, 0x0a, 0xb7, 0xae, 0xde, 0x6f, 0x62, 0x3b, 0x40, 0xf1, 0x1b,
             0xf9, 0x83],
            [0x4f, 0x9e, 0x44, 0xaa, 0x74, 0x49, 0x45, 0xf2, 0x65, 0x6f, 0xfb, 0x15, 0x9f, 0x56,
             0x7f, 0x61],
        ),
        (
            [0xfb, 0xdc, 0x92, 0x62, 0x0a, 0x07, 0x4e, 0x89, 0xae, 0x08, 0xb3, 0x9f, 0x88, 0xd8,
             0x9c, 0x0c],
            [0x11, 0xf9, 0x3b, 0xf5, 0x7b, 0xc3, 0x3e, 0x80, 0xa8, 0xee, 0xaf, 0x40, 0x24, 0x79,
             0x2c, 0x7d],
            [0x00, 0x00, 0x00, 0x00, 0x00, 0x00, 0x00, 0x00, 0x00, 0x00, 0x00, 0x00, 0x00, 0x00,
             0x00, 0x00],
        ),
    ];

    for (key, expect, plaintext) in test.iter() {
        let mut g = Grain128::keysetup(key.as_ref(), 128, 128).unwrap();
        g.ivsetup(vec![0u8; 16].as_ref()).unwrap();

        let ciphertext = g.encrypt_bytes(plaintext).unwrap();

        assert_eq!(ciphertext.as_slice(), expect.as_ref());
    }
}

#[test]
fn determinism_two_engines() {
    let key: [u8; 16] = [0x01, 0x23, 0x45, 0x67, 0x89, 0xab, 0xcd, 0xef, 0x12, 0x34, 0x56, 0x78,
                         0x9a, 0xbc, 0xde, 0xf0];
    let iv: [u8; 12] = [0x01, 0x23, 0x45, 0x67, 0x89, 0xab, 0xcd, 0xef, 0x12, 0x34, 0x56, 0x78];

    let mut g1 = Grain128::keysetup(key.as_ref(), 128, 96).unwrap();
    g1.ivsetup(iv.as_ref()).unwrap();
    let mut g2 = Grain128::keysetup(key.as_ref(), 128, 96).unwrap();
    g2.ivsetup(iv.as_ref()).unwrap();

    assert_eq!(g1.keystream_bytes(32).unwrap(), g2.keystream_bytes(32).unwrap());
}

#[test]
fn encrypt_then_decrypt_roundtrip() {
    let key: [u8; 16] = [0xd9, 0x5e, 0xbe, 0x35, 0x62, 0xca, 0xdd, 0x42, 0x98, 0x67, 0xb8, 0xcc,
                         0x7c, 0xd7, 0xb7, 0xe8];
    let iv: [u8; 12] = [0x0a, 0x0b, 0x0c, 0x0d, 0x0e, 0x0f, 0x10, 0x11, 0x12, 0x13, 0x14, 0x15];
    let plaintext: [u8; 21] = [0x50, 0x5b, 0x96, 0x89, 0x98, 0xed, 0x76, 0x05, 0x0d, 0x0b, 0x9a,
                               0xc8, 0x84, 0x04, 0x3e, 0x0d, 0x00, 0xff, 0x7f, 0x80, 0x01];

    let mut enc = Grain128::keysetup(key.as_ref(), 128, 96).unwrap();
    enc.ivsetup(iv.as_ref()).unwrap();
    let ciphertext = enc.encrypt_bytes(plaintext.as_ref()).unwrap();
    assert_ne!(ciphertext.as_slice(), plaintext.as_ref());

    let mut dec = Grain128::keysetup(key.as_ref(), 128, 96).unwrap();
    dec.ivsetup(iv.as_ref()).unwrap();
    let recovered = dec.decrypt_bytes(ciphertext.as_slice()).unwrap();
    assert_eq!(recovered.as_slice(), plaintext.as_ref());
}

#[test]
fn encrypting_zeros_yields_keystream() {
    let key: [u8; 16] = [0x51, 0x46, 0xd2, 0x70, 0xd4, 0x01, 0x4f, 0xe5, 0x3a, 0x20, 0x30, 0x50,
                         0xcf, 0x0a, 0xcb, 0x53];
    let iv: [u8; 12] = [0x00, 0x01, 0x02, 0x03, 0x04, 0x05, 0x06, 0x07, 0x08, 0x09, 0x0a, 0x0b];

    let mut g1 = Grain128::keysetup(key.as_ref(), 128, 96).unwrap();
    g1.ivsetup(iv.as_ref()).unwrap();
    let ciphertext = g1.encrypt_bytes(vec![0u8; 24].as_ref()).unwrap();

    let mut g2 = Grain128::keysetup(key.as_ref(), 128, 96).unwrap();
    g2.ivsetup(iv.as_ref()).unwrap();
    let keystream = g2.keystream_bytes(24).unwrap();

    assert_eq!(ciphertext, keystream);
}

#[test]
fn keystream_requests_compose() {
    let key: [u8; 16] = [0u8; 16];
    let iv: [u8; 12] = [0u8; 12];
    let expect: [u8; 16] = [0xf0, 0x9b, 0x7b, 0xf7, 0xd7, 0xf6, 0xb5, 0xc2, 0xde, 0x2f, 0xfc,
                            0x73, 0xac, 0x21, 0x39, 0x7f];

    let mut g = Grain128::keysetup(key.as_ref(), 128, 96).unwrap();
    g.ivsetup(iv.as_ref()).unwrap();

    let mut first = g.keystream_bytes(8).unwrap();
    let second = g.keystream_bytes(8).unwrap();
    first.extend(second);

    assert_eq!(first.as_slice(), expect.as_ref());
}

#[test]
fn avalanche_on_one_iv_bit() {
    let key: [u8; 16] = [0u8; 16];
    let iv_a: [u8; 12] = [0u8; 12];
    let mut iv_b: [u8; 12] = [0u8; 12];
    iv_b[0] = 0x01;

    let mut ga = Grain128::keysetup(key.as_ref(), 128, 96).unwrap();
    ga.ivsetup(iv_a.as_ref()).unwrap();
    let ks_a = ga.keystream_bytes(16).unwrap();

    let mut gb = Grain128::keysetup(key.as_ref(), 128, 96).unwrap();
    gb.ivsetup(iv_b.as_ref()).unwrap();
    let ks_b = gb.keystream_bytes(16).unwrap();

    assert_ne!(ks_a[0], ks_b[0]);
    assert_ne!(ks_a, ks_b);
}

#[test]
fn keysetup_rejects_bad_key_length() {
    let short_key: [u8; 15] = [0u8; 15];
    assert_eq!(
        Grain128::keysetup(short_key.as_ref(), 128, 96).err(),
        Some(GrainError::InvalidKeyLength)
    );

    let long_key: [u8; 17] = [0u8; 17];
    assert_eq!(
        Grain128::keysetup(long_key.as_ref(), 128, 96).err(),
        Some(GrainError::InvalidKeyLength)
    );
}

#[test]
fn keysetup_rejects_unsupported_sizes() {
    let key_32: [u8; 32] = [0u8; 32];
    assert_eq!(
        Grain128::keysetup(key_32.as_ref(), 256, 96).err(),
        Some(GrainError::UnsupportedConfiguration)
    );

    let key_16: [u8; 16] = [0u8; 16];
    assert_eq!(
        Grain128::keysetup(key_16.as_ref(), 128, 64).err(),
        Some(GrainError::UnsupportedConfiguration)
    );
}

#[test]
fn ivsetup_rejects_bad_iv_length() {
    let key: [u8; 16] = [0u8; 16];
    let mut g = Grain128::keysetup(key.as_ref(), 128, 96).unwrap();

    let short_iv: [u8; 11] = [0u8; 11];
    assert_eq!(g.ivsetup(short_iv.as_ref()).err(), Some(GrainError::InvalidIVLength));

    let iv_16: [u8; 16] = [0u8; 16];
    assert_eq!(g.ivsetup(iv_16.as_ref()).err(), Some(GrainError::InvalidIVLength));

    let iv_12: [u8; 12] = [0u8; 12];
    assert!(g.ivsetup(iv_12.as_ref()).is_ok());
}

#[test]
fn output_requires_initialization() {
    let key: [u8; 16] = [0u8; 16];
    let data: [u8; 4] = [0x01, 0x02, 0x03, 0x04];

    let mut g = Grain128::keysetup(key.as_ref(), 128, 96).unwrap();
    assert_eq!(g.keystream_bytes(4).err(), Some(GrainError::NotInitialized));
    assert_eq!(g.encrypt_bytes(data.as_ref()).err(), Some(GrainError::NotInitialized));
    assert_eq!(g.decrypt_bytes(data.as_ref()).err(), Some(GrainError::NotInitialized));

    let iv: [u8; 12] = [0u8; 12];
    g.ivsetup(iv.as_ref()).unwrap();
    assert!(g.keystream_bytes(4).is_ok());
}
