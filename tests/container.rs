use std::collections::HashMap;

use sc3tools::codec::{Error, Sc3String};
use sc3tools::container::{
    encode_offsets, layout_heap, merge_changes, parse_header, parse_offsets, StringHandle,
    StringIndex,
};

fn scenario_file() -> Vec<u8> {
    let mut f = b"SC3\0".to_vec();
    f.extend_from_slice(&[0x10, 0, 0, 0]);
    f.extend_from_slice(&[0x18, 0, 0, 0]);
    f.extend_from_slice(&[0, 0, 0, 0]);
    f.extend_from_slice(&[28, 0, 0, 0, 32, 0, 0, 0]);
    f.extend_from_slice(&[0xEE, 0xEE, 0xEE, 0xEE]);
    f.extend_from_slice(&[0x00, 0x01, 0x02, 0xFF]);
    f.extend_from_slice(&[0x80, 0x01, 0x00, 0xFF]);
    f
}

#[test]
fn header_and_table_locate_slots() {
    let f = scenario_file();
    let (start, end) = parse_header(&f[..12]).unwrap();
    assert_eq!((start, end), (16, 24));
    let offsets = parse_offsets(&f[start as usize..end as usize]);
    assert_eq!(offsets, vec![28, 32]);
    let index = StringIndex::new(offsets, f.len() as u32);
    assert_eq!(index.count(), 2);
    assert_eq!(index.get(0), Some(StringHandle { start: 28, end: 32 }));
    assert_eq!(index.get(1), Some(StringHandle { start: 32, end: 36 }));
    assert_eq!(index.get(2), None);
    assert_eq!(index.get(1).unwrap().size(), 4);
}

#[test]
fn index_iteration_visits_every_slot() {
    let index = StringIndex::new(vec![10, 12, 20], 25);
    let mut it = index.iter();
    let mut got = Vec::new();
    while let Some(h) = it.next() {
        got.push((h.start, h.end));
    }
    assert_eq!(got, vec![(10, 12), (12, 20), (20, 25)]);
    assert!(it.next().is_none());
}

#[test]
fn bad_magic_is_unrecognized() {
    let mut f = scenario_file();
    f[2] = b'4';
    assert_eq!(parse_header(&f[..12]), Err(Error::UnrecognizedFormat));
    assert_eq!(parse_header(&f[..8]), Err(Error::UnrecognizedFormat));
}

#[test]
fn offsets_ignore_a_partial_group() {
    assert_eq!(parse_offsets(&[1, 0, 0, 0, 0, 1, 0, 0, 9, 9]), vec![1, 256]);
    assert_eq!(parse_offsets(&[]), Vec::<u32>::new());
}

#[test]
fn inverted_handle_has_no_size() {
    assert_eq!(StringHandle { start: 10, end: 4 }.size(), 0);
}

#[test]
fn replacing_a_slot_recomputes_offsets() {
    let current = vec![Sc3String(vec![1, 2, 3, 0xFF]), Sc3String(vec![4, 5, 6, 0xFF])];
    let mut changes = HashMap::new();
    changes.insert(1usize, Sc3String(vec![7, 7, 7, 7, 7, 7, 0xFF]));
    let lines = merge_changes(current, &changes);
    assert_eq!(lines[0].0, vec![1, 2, 3, 0xFF]);
    assert_eq!(lines[1].0, vec![7, 7, 7, 7, 7, 7, 0xFF]);
    let (offsets, heap) = layout_heap(16, &lines).unwrap();
    assert_eq!(offsets, vec![16, 20]);
    assert_eq!(heap.len(), 11);
    assert_eq!(heap, vec![1, 2, 3, 0xFF, 7, 7, 7, 7, 7, 7, 0xFF]);
    let index = StringIndex::new(offsets.clone(), 16 + heap.len() as u32);
    assert_eq!(index.get(1), Some(StringHandle { start: 20, end: 27 }));
    assert_eq!(encode_offsets(&offsets), vec![16, 0, 0, 0, 20, 0, 0, 0]);
}

#[test]
fn shorter_slot_shifts_later_offsets() {
    let lines = vec![
        Sc3String(vec![1, 0xFF]),
        Sc3String(vec![2, 2, 2, 0xFF]),
        Sc3String(vec![3, 0xFF]),
    ];
    let (offsets, heap) = layout_heap(100, &lines).unwrap();
    assert_eq!(offsets, vec![100, 102, 106]);
    assert_eq!(heap.len(), 8);
    assert!(offsets.windows(2).all(|w| w[0] <= w[1]));
}

#[test]
fn empty_layout_writes_nothing() {
    let (offsets, heap) = layout_heap(40, &Vec::new()).unwrap();
    assert!(offsets.is_empty());
    assert!(heap.is_empty());
}

#[test]
fn heap_past_the_32_bit_range_is_refused() {
    let lines = vec![Sc3String(vec![0; 16])];
    assert!(layout_heap(u32::MAX - 8, &lines).is_none());
    assert!(layout_heap(u32::MAX - 16, &lines).is_some());
}

#[test]
fn offsets_are_little_endian() {
    assert_eq!(encode_offsets(&vec![0x01020304]), vec![4, 3, 2, 1]);
}
