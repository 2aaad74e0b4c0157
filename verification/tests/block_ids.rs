use feroha::block_id::{block_id_from_digest, generate_block_id, strip_block_ids};

#[test]
fn test_strip_block_ids() {
    let content = "Some paragraph\n<!--^abc12345-->\nAnother paragraph";
    let stripped = strip_block_ids(content);
    assert_eq!(stripped, "Some paragraph\nAnother paragraph");
}

#[test]
fn test_generate_block_id_deterministic() {
    let id1 = generate_block_id("Hello");
    let id2 = generate_block_id("Hello");
    assert_eq!(id1, id2);
}

#[test]
fn generate_block_id_hashes_the_trimmed_text() {
    // SHA-256("Hello") begins 18 5f 8d b3.
    assert_eq!(generate_block_id("Hello"), "185f8db3");
    assert_eq!(generate_block_id("  Hello\n"), "185f8db3");
}

#[test]
fn generate_block_id_for_blank_text_is_eight_hex_digits() {
    let id = generate_block_id("   ");
    assert_eq!(id.len(), 8);
    assert!(id.chars().all(|c| c.is_ascii_hexdigit() && !c.is_ascii_uppercase()));
}

#[test]
fn block_id_from_digest_uses_the_first_four_bytes() {
    assert_eq!(block_id_from_digest(&[0x00, 0x0f, 0xa0, 0xff, 0x12]), "000fa0ff");
}

#[test]
fn strip_block_ids_keeps_other_comments() {
    assert_eq!(strip_block_ids("a <!-- note --> b"), "a <!-- note --> b");
    assert_eq!(strip_block_ids("a<!-- open"), "a<!-- open");
    assert_eq!(strip_block_ids("a<!-- note -->b<!--^x-->\nc"), "a<!-- note -->bc");
    assert_eq!(strip_block_ids("x<!--^id-->\r\ny"), "x\ny");
    assert_eq!(strip_block_ids("x<!--^id-->\n\ry"), "xy");
    assert_eq!(strip_block_ids("<!--^id-->"), "");
}
