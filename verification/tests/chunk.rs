use xxd::Chunker;

fn bytes(len: usize) -> Vec<u8> {
    (0..len).map(|i| (i % 251) as u8).collect()
}

#[test]
fn chunk_coverage() {
    for len in [0usize, 1, 15, 16, 17, 31, 32, 33, 48, 100, 256, 1000] {
        let buffer: Vec<u8> = bytes(len);
        let chunker: Chunker = Chunker::new(&buffer);
        let joined: Vec<u8> = chunker.groups().concat();
        assert_eq!(joined, buffer);
    }
}

#[test]
fn group_count_is_the_length_over_sixteen_rounded_up() {
    assert_eq!(Chunker::new(&bytes(0)).len(), 0);
    assert_eq!(Chunker::new(&bytes(1)).len(), 1);
    assert_eq!(Chunker::new(&bytes(15)).len(), 1);
    assert_eq!(Chunker::new(&bytes(16)).len(), 1);
    assert_eq!(Chunker::new(&bytes(17)).len(), 2);
    assert_eq!(Chunker::new(&bytes(32)).len(), 2);
    assert_eq!(Chunker::new(&bytes(33)).len(), 3);
    assert_eq!(Chunker::new(&bytes(4096)).len(), 256);
}

#[test]
fn empty_buffer_has_no_group() {
    let chunker: Chunker = Chunker::new(&[]);
    assert!(chunker.is_empty());
    assert_eq!(chunker.len(), 0);
    assert_eq!(chunker.group(0), None);
    assert!(chunker.groups().is_empty());
}

#[test]
fn exact_multiple_has_no_short_group() {
    let buffer: Vec<u8> = bytes(48);
    let chunker: Chunker = Chunker::new(&buffer);
    assert!(!chunker.is_empty());
    let groups: Vec<&[u8]> = chunker.groups();
    assert_eq!(groups.len(), 3);
    for group in groups.iter() {
        assert_eq!(group.len(), 16);
    }
    assert_eq!(chunker.group(3), None);
}

#[test]
fn last_group_holds_the_remainder() {
    let buffer: Vec<u8> = bytes(37);
    let chunker: Chunker = Chunker::new(&buffer);
    assert_eq!(chunker.len(), 3);
    assert_eq!(chunker.group(0), Some(&buffer[0..16]));
    assert_eq!(chunker.group(1), Some(&buffer[16..32]));
    assert_eq!(chunker.group(2), Some(&buffer[32..37]));
    assert_eq!(chunker.group(2).unwrap().len(), 37 % 16);
    assert_eq!(chunker.group(3), None);
    assert_eq!(chunker.group(usize::MAX), None);
}

#[test]
fn group_starts_at_sixteen_times_its_index() {
    let buffer: Vec<u8> = bytes(100);
    let chunker: Chunker = Chunker::new(&buffer);
    for index in 0..chunker.len() {
        let group: &[u8] = chunker.group(index).unwrap();
        assert_eq!(group[0], buffer[16 * index]);
        assert!(1 <= group.len() && group.len() <= 16);
    }
}

#[test]
fn groups_agree_with_group() {
    let buffer: Vec<u8> = bytes(70);
    let chunker: Chunker = Chunker::new(&buffer);
    let groups: Vec<&[u8]> = chunker.groups();
    assert_eq!(groups.len(), chunker.len());
    for (index, group) in groups.iter().enumerate() {
        assert_eq!(Some(*group), chunker.group(index));
    }
}
