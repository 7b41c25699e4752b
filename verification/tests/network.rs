use rsbtc::network::{frame, payload_length};

#[test]
fn frame_starts_with_the_length() {
    assert_eq!(frame(&vec![]), vec![0; 8]);
    assert_eq!(frame(&vec![7, 8, 9]), vec![0, 0, 0, 0, 0, 0, 0, 3, 7, 8, 9]);
    let long = vec![1u8; 70_000];
    let framed = frame(&long);
    assert_eq!(framed[..8], [0, 0, 0, 0, 0, 1, 0x11, 0x70]);
    assert_eq!(framed.len(), 70_008);
}

#[test]
fn length_is_read_back() {
    for n in [0usize, 1, 255, 256, 65_535, 65_536, 300_000] {
        let framed = frame(&vec![3u8; n]);
        let mut prefix = [0u8; 8];
        prefix.copy_from_slice(&framed[..8]);
        assert_eq!(payload_length(prefix), n as u64);
        assert_eq!(framed[8..], vec![3u8; n][..]);
    }
    assert_eq!(payload_length([255; 8]), u64::MAX);
    assert_eq!(payload_length([1, 2, 3, 4, 5, 6, 7, 8]), 0x0102_0304_0506_0708);
}
