use tftpd::NegotiationError;
use tftpd::OptionKind;
use tftpd::OptionSet;
use tftpd::options::parse_u64;
use tftpd::options::render_u64;

#[test]
fn parses_decimal_values() {
    assert_eq!(parse_u64(b"512"), Some(512));
    assert_eq!(parse_u64(b"0"), Some(0));
    assert_eq!(parse_u64(b"18446744073709551615"), Some(u64::MAX));
    assert_eq!(parse_u64(b""), None);
    assert_eq!(parse_u64(b"12a4"), None);
    assert_eq!(parse_u64(b"-3"), None);
    assert_eq!(parse_u64(b"18446744073709551616"), None);
    assert_eq!(parse_u64(b"99999999999999999999999"), None);
}

#[test]
fn renders_decimal_values() {
    assert_eq!(render_u64(0), b"0".to_vec());
    assert_eq!(render_u64(7), b"7".to_vec());
    assert_eq!(render_u64(1432), b"1432".to_vec());
    assert_eq!(render_u64(u64::MAX), b"18446744073709551615".to_vec());
}

#[test]
fn prepare_omits_defaults() {
    let defaults = OptionSet::defaults();
    assert!(defaults.prepare().is_empty());

    let mut set = OptionSet::defaults();
    set.block_size = 1432;
    set.windowsize = 8;
    set.transfer_size = Some(13);
    let prepared = set.prepare();
    assert_eq!(
        prepared,
        vec![
            (OptionKind::BlockSize, b"1432".to_vec()),
            (OptionKind::TransferSize, b"13".to_vec()),
            (OptionKind::WindowSize, b"8".to_vec()),
        ]
    );
}

#[test]
fn accepting_a_full_echo_of_the_proposal_round_trips() {
    let mut proposed = OptionSet::defaults();
    proposed.block_size = 1432;
    proposed.windowsize = 8;
    proposed.timeout = 2;
    proposed.transfer_size = Some(13);
    let echoed = proposed.prepare();
    assert_eq!(proposed.apply(&echoed), Ok(proposed));
}

#[test]
fn apply_rejects_unsolicited_option() {
    let defaults = OptionSet::defaults();
    let accepted = vec![(OptionKind::BlockSize, b"1432".to_vec())];
    assert_eq!(defaults.apply(&accepted), Err(NegotiationError::UnknownOption));
}

#[test]
fn apply_rejects_malformed_value() {
    let mut proposed = OptionSet::defaults();
    proposed.block_size = 1432;
    assert_eq!(
        proposed.apply(&vec![(OptionKind::BlockSize, b"14x2".to_vec())]),
        Err(NegotiationError::MalformedValue)
    );
    assert_eq!(
        proposed.apply(&vec![(OptionKind::BlockSize, b"".to_vec())]),
        Err(NegotiationError::MalformedValue)
    );
    // Out of the option's registered range.
    assert_eq!(
        proposed.apply(&vec![(OptionKind::BlockSize, b"70000".to_vec())]),
        Err(NegotiationError::MalformedValue)
    );
}

#[test]
fn apply_installs_accepted_subset_onto_defaults() {
    let mut proposed = OptionSet::defaults();
    proposed.block_size = 1432;
    proposed.windowsize = 8;
    proposed.transfer_size = Some(13);
    // The peer accepts only the block size: everything else reverts to
    // the defaults, including options that were proposed.
    let accepted = vec![(OptionKind::BlockSize, b"1000".to_vec())];
    let active = proposed.apply(&accepted).unwrap();
    assert_eq!(active.block_size, 1000);
    assert_eq!(active.windowsize, 1);
    assert_eq!(active.timeout, 5);
    assert_eq!(active.transfer_size, None);
}

#[test]
fn apply_installs_every_echoed_value() {
    let mut proposed = OptionSet::defaults();
    proposed.block_size = 1432;
    proposed.windowsize = 8;
    proposed.timeout = 2;
    proposed.transfer_size = Some(13);
    let accepted = vec![
        (OptionKind::BlockSize, b"1432".to_vec()),
        (OptionKind::Timeout, b"2".to_vec()),
        (OptionKind::TransferSize, b"13".to_vec()),
        (OptionKind::WindowSize, b"8".to_vec()),
    ];
    let active = proposed.apply(&accepted).unwrap();
    assert_eq!(active.block_size, 1432);
    assert_eq!(active.timeout, 2);
    assert_eq!(active.windowsize, 8);
    assert_eq!(active.transfer_size, Some(13));
}
