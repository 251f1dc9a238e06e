use sliceparse::slice::{
    copy_into_slice, copy_into_slice_until, copy_slice_into, find_first_index_in_slice,
    map_slice_into, split_slice_once, u8_slice_into_char_slice,
};

#[test]
fn find_first_index_in_slice_passes() {
    let source_bytes = b"first\r\nsecond\r\nthird";
    let query = b"\r\n";

    assert_eq!(find_first_index_in_slice(source_bytes, query), Some(5));
}

#[test]
fn find_first_index_empty_query_is_zero() {
    let source: &[u8] = b"abc";
    assert_eq!(find_first_index_in_slice(source, b""), Some(0));

    let empty: &[u8] = b"";
    assert_eq!(find_first_index_in_slice(empty, b""), Some(0));
}

#[test]
fn find_first_index_query_longer_than_source() {
    let source: &[u8] = &[1, 2];
    let query: &[u8] = &[1, 2, 3];
    assert_eq!(find_first_index_in_slice(source, query), None);
}

#[test]
fn find_first_index_not_found() {
    let source: &[u8] = &[1, 2, 3, 4];
    let query: &[u8] = &[2, 4];
    assert_eq!(find_first_index_in_slice(source, query), None);
}

#[test]
fn find_first_index_returns_minimum() {
    let source: &[u8] = &[7, 5, 5, 5];
    let query: &[u8] = &[5, 5];
    assert_eq!(find_first_index_in_slice(source, query), Some(1));
}

#[test]
fn split_slice_once_passes() {
    let source_bytes = b"first\r\nsecond\r\nthird";
    let delimiter = b"\r\n";

    assert_eq!(
        split_slice_once(source_bytes, delimiter),
        Some((b"first" as &[u8], b"second\r\nthird" as &[u8]))
    );

    let source_bytes: &[u8] = &[1, 2, 3, 4, 5, 6, 7, 8, 9][..];
    let delimiter: &[u8] = &[3, 4][..];

    assert_eq!(
        split_slice_once(source_bytes, delimiter),
        Some((&[1, 2][..], &[5, 6, 7, 8, 9][..]))
    );
}

#[test]
fn split_slice_once_not_found() {
    let source: &[u8] = &[1, 2, 3];
    let delimiter: &[u8] = &[9];
    assert_eq!(split_slice_once(source, delimiter), None);
}

#[test]
fn copy_into_slice_passes() {
    let mut target = [0; 10];
    let source = [1; 5];

    copy_into_slice(&mut target, &source, 1, 4);

    assert_eq!(target[0], 0);
    assert_eq!(target[1], 1);
    assert_eq!(target[2], 1);
    assert_eq!(target[3], 1);
    assert_eq!(target[4], 1);
    assert_eq!(target[5], 0);
    assert_eq!(target[6], 0);
}

#[test]
fn copy_into_slice_whole_target() {
    let mut target = [0u8; 10];
    let source = [1u8; 5];

    copy_into_slice(&mut target, &source, 1, 4);

    assert_eq!(target, [0, 1, 1, 1, 1, 0, 0, 0, 0, 0]);
}

#[test]
fn copy_into_slice_until_passes() {
    let mut target = [0; 10];

    let mut source = [1; 10];
    for i in 7..10 {
        source[i] = 0;
    }
    let source = source;

    copy_into_slice_until(&mut target, &source, 2, |item, _, _| item == 0);

    assert_eq!(target[0], 0);
    assert_eq!(target[1], 0);
    assert_eq!(target[2], 1);
    assert_eq!(target[3], 1);
    assert_eq!(target[6], 1);
    assert_eq!(target[7], 1);
    assert_eq!(target[8], 1);
    assert_eq!(target[9], 0);
}

#[test]
fn copy_slice_into_copies_and_keeps_tail() {
    let mut target = [9u32; 4];
    let source = [1u32, 2];

    copy_slice_into(&source, &mut target);

    assert_eq!(target, [1, 2, 9, 9]);
}

#[test]
fn map_slice_into_transforms() {
    let mut target = [0u32; 4];
    let source = [1u32, 2, 3];

    map_slice_into(&source, &mut target, |item| item * 10);

    assert_eq!(target, [10, 20, 30, 0]);
}

#[test]
fn u8_slice_into_char_slice_widens_bytes() {
    let mut target = ['x'; 4];
    let source = b"AB";

    u8_slice_into_char_slice(source, &mut target);

    assert_eq!(target, ['A', 'B', 'x', 'x']);
}

#[test]
fn u8_slice_into_char_slice_is_not_utf8_decoding() {
    // Each byte maps to the scalar value with the same code: a byte in
    // the upper half becomes the corresponding Latin-1 character.
    let mut target = [' '; 1];
    let source: &[u8] = &[0xE9];

    u8_slice_into_char_slice(source, &mut target);

    assert_eq!(target[0], '\u{E9}');
}
