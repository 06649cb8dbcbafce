use tftpd::WindowError;
use tftpd::WindowRead;
use tftpd::WindowWrite;

#[test]
fn fills_and_removes_from_window() {
    let mut window = WindowRead::new(2, 5, b"Hello, world!".to_vec());
    window.fill();
    assert_eq!(window.get_elements().len(), 2);
    assert_eq!(window.get_elements()[0], b"Hello"[..]);
    assert_eq!(window.get_elements()[1], b", wor"[..]);

    window.remove(1).unwrap();
    assert_eq!(window.get_elements().len(), 1);
    assert_eq!(window.get_elements()[0], b", wor"[..]);

    window.fill();
    assert_eq!(window.get_elements().len(), 2);
    assert_eq!(window.get_elements()[0], b", wor"[..]);
    assert_eq!(window.get_elements()[1], b"ld!"[..]);
}

#[test]
fn adds_to_and_empties_window() {
    let mut window = WindowWrite::new(3);
    window.add(b"Hello".to_vec()).unwrap();
    assert_eq!(window.get_elements().len(), 1);
    assert_eq!(window.get_elements()[0], b"Hello"[..]);

    window.add(b", wor".to_vec()).unwrap();
    assert_eq!(window.get_elements().len(), 2);
    assert_eq!(window.get_elements()[0], b"Hello"[..]);
    assert_eq!(window.get_elements()[1], b", wor"[..]);

    window.add(b"ld!".to_vec()).unwrap();
    assert_eq!(window.get_elements().len(), 3);
    assert_eq!(window.get_elements()[0], b"Hello"[..]);
    assert_eq!(window.get_elements()[1], b", wor"[..]);
    assert_eq!(window.get_elements()[2], b"ld!"[..]);

    window.empty();
    assert_eq!(window.get_elements().len(), 0);
    assert_eq!(window.get_sink().as_slice(), b"Hello, world!");
    assert_eq!(window.file_len(), 13);
}

#[test]
fn fill_reports_full_and_eof() {
    // A source that is an exact multiple of the block size: the terminal
    // chunk is the empty one.
    let mut window = WindowRead::new(2, 5, b"HelloWorld".to_vec());
    assert!(window.fill());
    assert!(!window.hit_eof());
    assert_eq!(window.len(), 2);
    window.remove(2).unwrap();
    assert!(!window.fill());
    assert!(window.hit_eof());
    assert_eq!(window.len(), 1);
    assert_eq!(window.get_elements()[0], b""[..]);
}

#[test]
fn fill_after_eof_appends_nothing() {
    let mut window = WindowRead::new(4, 5, b"Hi".to_vec());
    assert!(!window.fill());
    assert!(window.hit_eof());
    assert_eq!(window.len(), 1);
    assert!(!window.fill());
    assert_eq!(window.len(), 1);
    assert_eq!(window.get_elements()[0], b"Hi"[..]);
}

#[test]
fn remove_rejects_more_than_held() {
    let mut window = WindowRead::new(2, 5, b"Hello, world!".to_vec());
    window.fill();
    assert_eq!(window.remove(3), Err(WindowError::OutOfRange));
    assert_eq!(window.len(), 2);
}

#[test]
fn prefill_changes_nothing() {
    let mut window = WindowRead::new(2, 5, b"Hello, world!".to_vec());
    window.fill();
    window.prefill();
    assert_eq!(window.len(), 2);
    assert_eq!(window.get_elements()[0], b"Hello"[..]);
}

#[test]
fn add_fails_at_capacity_and_recovers_after_flush() {
    let mut window = WindowWrite::new(2);
    window.add(b"ab".to_vec()).unwrap();
    window.add(b"cd".to_vec()).unwrap();
    assert!(window.is_full());
    assert_eq!(window.add(b"ef".to_vec()), Err(WindowError::Full));
    window.empty();
    assert!(window.is_empty());
    window.add(b"ef".to_vec()).unwrap();
    window.add(b"gh".to_vec()).unwrap();
    assert_eq!(window.add(b"ij".to_vec()), Err(WindowError::Full));
    window.empty();
    assert_eq!(window.get_sink().as_slice(), b"abcdefgh");
}

#[test]
fn round_trip_reproduces_source() {
    let source = b"Hello, world!".to_vec();
    assert_eq!(tftpd::window::transfer_round_trip(source.clone(), 5, 2), source);

    let exact = b"0123456789".to_vec();
    assert_eq!(tftpd::window::transfer_round_trip(exact.clone(), 5, 2), exact);

    let empty: Vec<u8> = Vec::new();
    assert_eq!(tftpd::window::transfer_round_trip(empty.clone(), 512, 1), empty);

    let long: Vec<u8> = (0..=255u8).cycle().take(5000).collect();
    assert_eq!(tftpd::window::transfer_round_trip(long.clone(), 7, 4), long);
}
