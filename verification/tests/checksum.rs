use file_splitter::crc::crc32;

#[test]
fn crc32_empty_buffer() {
    let mut buf: Vec<u8> = Vec::new();

    assert_eq!(crc32(&mut buf), 0);
}

#[test]
fn crc32_single_byte_buffer() {
    let mut buf: Vec<u8> = Vec::new();
    buf.push(b'a');

    assert_eq!(crc32(&mut buf), 3904355907);
}

#[test]
fn crc32_known_string() {
    let mut buf: Vec<u8> = Vec::from("123456789".as_bytes());

    assert_eq!(crc32(&mut buf), 3421780262);
}

#[test]
fn crc32_single_zero_byte() {
    let mut buf: Vec<u8> = vec![0];

    assert_eq!(crc32(&mut buf), 0xD202EF8D);
}

#[test]
fn crc32_known_sentence() {
    let mut buf: Vec<u8> = Vec::from("The quick brown fox jumps over the lazy dog".as_bytes());

    assert_eq!(crc32(&mut buf), 0x414FA339);
}

#[test]
fn crc32_repeated_calls_agree() {
    let mut first: Vec<u8> = (0..=255u8).collect();
    let mut second = first.clone();

    let a = crc32(&mut first);
    let b = crc32(&mut first);
    let c = crc32(&mut second);

    assert_eq!(a, b);
    assert_eq!(a, c);
    assert_eq!(a, 0x29058C73);
}

#[test]
fn crc32_leaves_buffer_unchanged() {
    let intact: Vec<u8> = Vec::from("123456789".as_bytes());
    let mut buf = intact.clone();

    crc32(&mut buf);

    assert_eq!(buf, intact);
}

#[test]
fn crc32_accepts_a_slice() {
    let mut buf = [b'1', b'2', b'3', b'4', b'5', b'6', b'7', b'8', b'9'];

    assert_eq!(crc32(&mut buf[..]), 0xCBF43926);
    assert_eq!(crc32(&mut buf[..0]), 0);
}

#[test]
fn crc32_detects_any_single_byte_change() {
    let intact: Vec<u8> = Vec::from("splitting files into parts".as_bytes());
    let expected = crc32(&mut intact.clone());

    for position in 0..intact.len() {
        for flip in [0x01u8, 0x80, 0xFF, 0x5A] {
            let mut changed = intact.clone();
            changed[position] ^= flip;
            assert_ne!(crc32(&mut changed), expected);
        }
    }
}

#[test]
fn crc32_depends_on_byte_order() {
    let mut forward: Vec<u8> = vec![1, 2];
    let mut backward: Vec<u8> = vec![2, 1];

    assert_ne!(crc32(&mut forward), crc32(&mut backward));
}
