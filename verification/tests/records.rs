use storage::records::{append_one, init_empty, init_one, read_after, read_all, read_one};

#[test]
fn a_record_is_framed_by_its_length() {
    assert_eq!(init_one(b"abc"), vec![3, 0, 0, 0, 0, 0, 0, 0, b'a', b'b', b'c']);
    assert_eq!(init_one(b""), vec![0, 0, 0, 0, 0, 0, 0, 0]);
    assert_eq!(init_empty(), Vec::<u8>::new());
}

#[test]
fn records_are_read_back_in_order() {
    let mut file = init_empty();
    assert_eq!(read_all(&file), Vec::<Vec<u8>>::new());
    append_one(&mut file, b"first");
    append_one(&mut file, b"");
    append_one(&mut file, &[7u8; 300]);
    assert_eq!(read_all(&file), vec![b"first".to_vec(), Vec::new(), vec![7u8; 300]]);
    let before = read_all(&file);
    append_one(&mut file, b"last");
    let mut expected = before;
    expected.push(b"last".to_vec());
    assert_eq!(read_all(&file), expected);
}

#[test]
fn reading_stops_at_an_incomplete_frame() {
    let mut file = init_one(b"whole");
    append_one(&mut file, b"broken");
    file.truncate(file.len() - 1);
    assert_eq!(read_all(&file), vec![b"whole".to_vec()]);
    assert_eq!(read_all(&[1, 0, 0]), Vec::<Vec<u8>>::new());
    assert_eq!(read_all(&[0xff; 8]), Vec::<Vec<u8>>::new());
}

#[test]
fn one_record_is_read_from_a_file_of_one() {
    assert_eq!(read_one(&init_one(b"only")), Some(b"only".to_vec()));
    assert_eq!(read_one(&init_one(b"")), Some(Vec::new()));
    assert_eq!(read_one(&init_empty()), None);
    let mut two = init_one(b"a");
    append_one(&mut two, b"b");
    assert_eq!(read_one(&two), None);
    let mut short = init_one(b"abc");
    short.pop();
    assert_eq!(read_one(&short), None);
}

#[test]
fn records_after_the_first_hit() {
    let mut file = init_empty();
    for record in [&b"a"[..], b"bb", b"c", b"bb", b"d"] {
        append_one(&mut file, record);
    }
    assert_eq!(
        read_after(&file, |r: &Vec<u8>| r.len() == 2),
        vec![b"c".to_vec(), b"bb".to_vec(), b"d".to_vec()]
    );
    assert_eq!(read_after(&file, |r: &Vec<u8>| r == b"d"), Vec::<Vec<u8>>::new());
    assert_eq!(read_after(&file, |r: &Vec<u8>| r == b"x"), Vec::<Vec<u8>>::new());
    assert_eq!(read_after(&file, |_r: &Vec<u8>| true).len(), 4);
    assert_eq!(read_after(&init_empty(), |_r: &Vec<u8>| true), Vec::<Vec<u8>>::new());
}
