use gmail_sender::{boundary_from_bytes, generate_boundary};

#[test]
fn test_generate_boundary_is_unique() {
    let b1 = generate_boundary();
    let b2 = generate_boundary();
    assert_ne!(b1, b2);
}

#[test]
fn test_generate_boundary_has_prefix() {
    let boundary = generate_boundary();
    assert!(boundary.starts_with("boundary_"));
}

#[test]
fn generated_boundary_is_sixteen_bytes_of_lowercase_hex() {
    let boundary = generate_boundary();
    assert_eq!(boundary.len(), "boundary_".len() + 32);
    assert!(boundary["boundary_".len()..]
        .chars()
        .all(|c| c.is_ascii_digit() || ('a'..='f').contains(&c)));
}

#[test]
fn boundary_from_bytes_writes_two_hex_digits_per_byte() {
    assert_eq!(boundary_from_bytes(&[0x00, 0xff, 0x1a, 0x09]), "boundary_00ff1a09");
    assert_eq!(boundary_from_bytes(&[]), "boundary_");
    let all: Vec<u8> = (0u8..16).collect();
    assert_eq!(
        boundary_from_bytes(&all),
        "boundary_000102030405060708090a0b0c0d0e0f"
    );
}

#[test]
fn different_bytes_give_different_boundaries() {
    assert_ne!(boundary_from_bytes(&[0x01, 0x10]), boundary_from_bytes(&[0x10, 0x01]));
    assert_ne!(boundary_from_bytes(&[0xab]), boundary_from_bytes(&[0xba]));
}
