use enigma::EntryDisk;

#[test]
fn test_first_index() {
    let disk = EntryDisk::identity();
    let encoded = disk.encode_from_right(0);
    assert_eq!(encoded, 0);
}

#[test]
fn test_middle_index() {
    let disk = EntryDisk::identity();
    let encoded = disk.encode_from_right(13);
    assert_eq!(encoded, 13);
}

#[test]
fn test_last_index() {
    let disk = EntryDisk::identity();
    let encoded = disk.encode_from_right(25);
    assert_eq!(encoded, 25);
}

#[test]
fn entry_disk_test_first_index() {
    let disk = EntryDisk::identity();
    let encoded = disk.encode_from_left(0);
    assert_eq!(encoded, 0);
}

#[test]
fn entry_disk_test_middle_index() {
    let disk = EntryDisk::identity();
    let encoded = disk.encode_from_left(13);
    assert_eq!(encoded, 13);
}

#[test]
fn entry_disk_test_last_index() {
    let disk = EntryDisk::identity();
    let encoded = disk.encode_from_left(25);
    assert_eq!(encoded, 25);
}

#[test]
fn custom_disk_encodes_through_its_alphabet() {
    // the disk that maps each standard letter one step forward
    let disk = EntryDisk::new("BCDEFGHIJKLMNOPQRSTUVWXYZA").unwrap();
    // from the right: where in the custom alphabet the standard letter sits
    assert_eq!(disk.encode_from_right(1), 0);
    assert_eq!(disk.encode_from_right(0), 25);
    // from the left: the standard position of the custom letter
    assert_eq!(disk.encode_from_left(0), 1);
    assert_eq!(disk.encode_from_left(25), 0);
}
