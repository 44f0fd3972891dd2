use infercache::embeddings::{mock_components, DIMENSIONS};

#[test]
fn bytes_fall_to_the_components_by_position() {
    let text: String = (0..1000).map(|i| char::from(b'a' + (i % 26) as u8)).collect();
    let components = mock_components(&text);
    assert_eq!(DIMENSIONS, 384);
    assert_eq!(components.len(), 384);
    let bytes = text.as_bytes();
    assert_eq!(components[0], vec![bytes[0], bytes[384], bytes[768]]);
    assert_eq!(components[231], vec![bytes[231], bytes[615], bytes[999]]);
    assert_eq!(components[232], vec![bytes[232], bytes[616]]);
    for (i, byte) in bytes.iter().enumerate() {
        assert_eq!(components[i % 384][i / 384], *byte);
    }
}

#[test]
fn short_texts_leave_components_empty() {
    assert!(mock_components("").iter().all(|c| c.is_empty()));
    let components = mock_components("\u{e9}");
    assert_eq!(components[0], vec![0xc3]);
    assert_eq!(components[1], vec![0xa9]);
    assert!(components[2].is_empty());
}
