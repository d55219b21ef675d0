use jormungandr::paperwallet::{scramble, unscramble};

struct TestVector {
    iv: [u8; 4],
    input: [u8; 16],
    passphrase: &'static str,
    shielded_input: [u8; 20],
}

fn golden_tests() -> Vec<TestVector> {
    vec![
        TestVector {
            iv: [0x00, 0x00, 0x00, 0x00],
            input: [
                0x7f, 0x7f, 0x7f, 0x7f, 0x7f, 0x7f, 0x7f, 0x7f, 0x7f, 0x7f, 0x7f, 0x7f, 0x7f,
                0x7f, 0x7f, 0x7f,
            ],
            passphrase: "",
            shielded_input: [
                0x00, 0x00, 0x00, 0x00, 0x7d, 0xa9, 0x48, 0x4e, 0xbd, 0xbd, 0xf5, 0x78, 0x38,
                0xe2, 0x34, 0x9c, 0x58, 0xdd, 0x2f, 0xa4,
            ],
        },
        TestVector {
            iv: [0x00, 0x01, 0x02, 0x03],
            input: [
                0x5a, 0x94, 0x0d, 0x50, 0xab, 0x0d, 0x4e, 0x2e, 0xbf, 0x3b, 0x2c, 0x6e, 0xb3,
                0x99, 0xe8, 0x27,
            ],
            passphrase: "Cardano Ada",
            shielded_input: [
                0x00, 0x01, 0x02, 0x03, 0x3c, 0x73, 0x43, 0x17, 0xb8, 0xf9, 0x7b, 0xcf, 0x1f,
                0x42, 0xb9, 0x39, 0xf2, 0x82, 0x3c, 0x52,
            ],
        },
        TestVector {
            iv: [0x2a, 0x2a, 0x2a, 0x2a],
            input: [
                0xff, 0xff, 0xff, 0xff, 0xff, 0xff, 0xff, 0xff, 0xff, 0xff, 0xff, 0xff, 0xff,
                0xff, 0xff, 0xff,
            ],
            passphrase: "This is a very long passphrase. This is a very long passphrase. This is a very long passphrase. This is a very long passphrase.",
            shielded_input: [
                0x2a, 0x2a, 0x2a, 0x2a, 0xa5, 0x97, 0xfe, 0xb5, 0x08, 0xa5, 0x34, 0x06, 0xa3,
                0x48, 0xfa, 0xdd, 0x75, 0xc8, 0xa7, 0x02,
            ],
        },
    ]
}

#[test]
fn paper_scramble() {
    for tv in golden_tests().iter() {
        let r = scramble(&tv.iv[..], tv.passphrase.as_bytes(), &tv.input[..]);
        assert_eq!(&r[..], &tv.shielded_input[..]);
    }
}

#[test]
fn paper_unscramble() {
    for tv in golden_tests().iter() {
        let r = unscramble(tv.passphrase.as_bytes(), &tv.shielded_input[..]);
        assert_eq!(&r[..], &tv.input[..]);
    }
}

#[test]
fn scramble_keeps_the_iv_in_front() {
    let r = scramble(&[9, 8, 7, 6], b"secret", &[1, 2, 3]);
    assert_eq!(r.len(), 7);
    assert_eq!(&r[..4], &[9, 8, 7, 6]);
    assert_ne!(&r[4..], &[1, 2, 3]);
}

#[test]
fn scramble_of_nothing_is_the_iv() {
    let r = scramble(&[1, 2, 3, 4], b"pw", &[]);
    assert_eq!(r, vec![1, 2, 3, 4]);
}

#[test]
fn unscramble_undoes_scramble() {
    let input: Vec<u8> = (0u8..200).collect();
    let shielded = scramble(&[5, 6, 7, 8], b"a password", &input);
    assert_eq!(shielded.len(), 204);
    assert_eq!(unscramble(b"a password", &shielded), input);
    assert_ne!(unscramble(b"another password", &shielded), input);
}

#[test]
fn pad_depends_on_the_iv() {
    let a = scramble(&[0, 0, 0, 0], b"pw", &[0u8; 8]);
    let b = scramble(&[0, 0, 0, 1], b"pw", &[0u8; 8]);
    assert_ne!(&a[4..], &b[4..]);
}
