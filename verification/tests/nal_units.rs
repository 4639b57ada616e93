use win_recorder::memory_byte_stream::{
    extract_annex_b_nal_units, extract_length_prefixed_nal_units, extract_nal_units, get_nal_type,
    has_annex_b_start_code,
};

#[test]
fn test_extract_nal_units() {
    let data = vec![
        0x00, 0x00, 0x00, 0x01, 0x67, 0x42, 0x00, 0x1E, 0x00, // SPS
        0x00, 0x00, 0x00, 0x01, 0x68, 0x00, 0xF8, // PPS
        0x00, 0x00, 0x00, 0x01, 0x65, 0x41, 0xFF, 0xFF, // IDR
    ];

    let nal_units = extract_nal_units(&data);
    assert!(nal_units.len() >= 2);
}

#[test]
fn test_extract_length_prefixed_nal_units() {
    let data = vec![
        0x00, 0x00, 0x00, 0x04, 0x67, 0x42, 0x00, 0x1E, 0x00, 0x00, 0x00, 0x03, 0x68, 0x00, 0xF8,
    ];

    let nal_units = extract_nal_units(&data);

    assert_eq!(nal_units.len(), 2);
    assert_eq!(nal_units[0], vec![0x67, 0x42, 0x00, 0x1E]);
    assert_eq!(nal_units[1], vec![0x68, 0x00, 0xF8]);
}

#[test]
fn test_reject_invalid_length_prefixed_nal_units() {
    let data = vec![0x00, 0x00, 0x00, 0x10, 0x67];

    assert!(extract_nal_units(&data).is_empty());
}

#[test]
fn start_codes_of_both_lengths() {
    let data = [0, 0, 0, 1, 0x67, 9, 0, 0, 1, 0x68, 8, 7];
    assert_eq!(extract_nal_units(&data), vec![vec![0x67, 9], vec![0x68, 8, 7]]);
}

#[test]
fn a_zero_before_a_start_code_belongs_to_it() {
    let data = [0, 0, 1, 0x67, 0, 0, 0, 0, 1, 0x68];
    assert_eq!(extract_annex_b_nal_units(&data), vec![vec![0x67, 0], vec![0x68]]);
}

#[test]
fn annex_b_units_come_back() {
    let units = vec![vec![0x67, 0x42], vec![0x68], vec![0x65, 0, 0, 2, 0]];
    let mut data = Vec::new();
    for unit in &units {
        data.extend_from_slice(&[0, 0, 0, 1]);
        data.extend_from_slice(unit);
    }
    assert_eq!(extract_nal_units(&data), units);
}

#[test]
fn length_prefixed_units_come_back() {
    let units = vec![vec![0x67, 0x42], vec![0x68], vec![0x65; 300]];
    let mut data = Vec::new();
    for unit in &units {
        data.extend_from_slice(&[0, 0, (unit.len() / 256) as u8, (unit.len() % 256) as u8]);
        data.extend_from_slice(unit);
    }
    assert_eq!(extract_length_prefixed_nal_units(&data), units);
}

#[test]
fn short_buffers_hold_no_annex_b_units() {
    assert!(extract_nal_units(&[]).is_empty());
    assert!(extract_nal_units(&[0, 0, 1]).is_empty());
    assert!(extract_nal_units(&[0, 0, 1, 0x65]).is_empty());
    assert_eq!(extract_nal_units(&[0, 0, 1, 0x65, 1]), vec![vec![0x65, 1]]);
}

#[test]
fn a_start_code_at_the_end() {
    assert!(extract_nal_units(&[9, 9, 0, 0, 0, 1]).is_empty());
    assert!(extract_nal_units(&[9, 9, 9, 0, 0, 1]).is_empty());
    assert_eq!(extract_nal_units(&[0, 0, 1, 5, 0, 0, 1]), vec![vec![5, 0, 0, 1]]);
}

#[test]
fn empty_and_cut_off_prefixed_units_are_rejected() {
    assert!(extract_length_prefixed_nal_units(&[0, 0, 0, 0]).is_empty());
    assert!(extract_length_prefixed_nal_units(&[0, 0, 0, 1, 7, 0]).is_empty());
    assert!(extract_length_prefixed_nal_units(&[0, 0, 0, 1, 7, 0, 0, 0, 2, 8]).is_empty());
    assert!(extract_length_prefixed_nal_units(&[]).is_empty());
}

#[test]
fn start_codes_are_found() {
    assert!(has_annex_b_start_code(&[0, 0, 1]));
    assert!(has_annex_b_start_code(&[7, 0, 0, 0, 1]));
    assert!(!has_annex_b_start_code(&[0, 0]));
    assert!(!has_annex_b_start_code(&[0, 1, 0, 0, 2]));
}

#[test]
fn types_of_units() {
    assert_eq!(get_nal_type(&[0x67, 1]), Some(7));
    assert_eq!(get_nal_type(&[0x68]), Some(8));
    assert_eq!(get_nal_type(&[0x65]), Some(5));
    assert_eq!(get_nal_type(&[0, 0, 0, 1, 0x41]), Some(1));
    assert_eq!(get_nal_type(&[0, 0, 1, 0xFF]), Some(31));
    assert_eq!(get_nal_type(&[0, 0, 1, 1]), Some(1));
}

#[test]
fn units_without_a_type() {
    assert_eq!(get_nal_type(&[]), None);
    assert_eq!(get_nal_type(&[0, 0, 0]), None);
    assert_eq!(get_nal_type(&[0, 0, 1]), None);
    assert_eq!(get_nal_type(&[1]), None);
}

#[test]
fn one_byte_units_read_alike_in_both_framings() {
    let data = [0, 0, 0, 1, 0x67, 0, 0, 0, 1, 0x68];
    let units = vec![vec![0x67], vec![0x68]];
    assert_eq!(extract_annex_b_nal_units(&data), units);
    assert_eq!(extract_length_prefixed_nal_units(&data), units);
    assert_eq!(extract_nal_units(&data), units);
}

#[test]
fn a_length_that_looks_like_a_start_code() {
    // A unit of 256 bytes: its length holds `00 00 01`.
    let mut data = vec![0, 0, 1, 0];
    data.extend_from_slice(&[0x65; 256]);
    assert_eq!(extract_length_prefixed_nal_units(&data), vec![vec![0x65; 256]]);
    let mut taken = vec![0];
    taken.extend_from_slice(&[0x65; 256]);
    assert_eq!(extract_nal_units(&data), vec![taken]);
}
