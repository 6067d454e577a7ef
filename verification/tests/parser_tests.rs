use rgfs::record::parse_diff;

fn line(s: &str) -> Vec<u8> {
    s.as_bytes().to_vec()
}

const HASH_A: &str = "aaaaaaaaaaaaaaaaaaaaaaaaaaaaaaaaaaaaaaaa";
const HASH_B: &str = "0123456789abcdef0123456789abcdef01234567";

#[test]
fn parses_modified_record() {
    let input = format!("100644 100755 {} {} M src/a.js", HASH_A, HASH_B);
    let rec = parse_diff(&line(&input)).unwrap();
    assert_eq!(rec.src_mode, b"100644".to_vec());
    assert_eq!(rec.dst_mode, b"100755".to_vec());
    assert_eq!(rec.src_hash, HASH_A.as_bytes().to_vec());
    assert_eq!(rec.dst_hash, HASH_B.as_bytes().to_vec());
    assert_eq!(rec.status, b'M');
    assert_eq!(rec.score_digits, Vec::<u8>::new());
    assert_eq!(rec.score(), None);
    assert_eq!(rec.src_path, b"src/a.js".to_vec());
    assert_eq!(rec.dst_path, Vec::<u8>::new());
}

#[test]
fn parses_rename_with_score_and_two_paths() {
    let input = format!("100644 100644 {} {} R075 old name.js\tnew name.js", HASH_A, HASH_B);
    let rec = parse_diff(&line(&input)).unwrap();
    assert_eq!(rec.status, b'R');
    assert_eq!(rec.score_digits, b"075".to_vec());
    assert_eq!(rec.score(), Some(75));
    assert_eq!(rec.src_path, b"old name.js".to_vec());
    assert_eq!(rec.dst_path, b"new name.js".to_vec());
}

#[test]
fn round_trips_captured_fields_exactly() {
    let inputs = [
        format!("100644 100644 {} {} A file with  spaces.txt", HASH_A, HASH_B),
        format!("000000 100644 {} {} C100 a\tb", HASH_A, HASH_B),
        format!("100644 120000 {} {} T x", HASH_A, HASH_B),
    ];
    for input in inputs.iter() {
        let rec = parse_diff(&line(input)).unwrap();
        let mut rebuilt = Vec::new();
        rebuilt.extend_from_slice(&rec.src_mode);
        rebuilt.push(b' ');
        rebuilt.extend_from_slice(&rec.dst_mode);
        rebuilt.push(b' ');
        rebuilt.extend_from_slice(&rec.src_hash);
        rebuilt.push(b' ');
        rebuilt.extend_from_slice(&rec.dst_hash);
        rebuilt.push(b' ');
        rebuilt.push(rec.status);
        rebuilt.extend_from_slice(&rec.score_digits);
        rebuilt.push(b' ');
        rebuilt.extend_from_slice(&rec.src_path);
        if !rec.dst_path.is_empty() {
            rebuilt.push(b'\t');
            rebuilt.extend_from_slice(&rec.dst_path);
        }
        assert_eq!(rebuilt, input.as_bytes().to_vec());
    }
}

#[test]
fn score_keeps_leading_zeros_in_digits() {
    let input = format!("100644 100644 {} {} C007 a\tb", HASH_A, HASH_B);
    let rec = parse_diff(&line(&input)).unwrap();
    assert_eq!(rec.score_digits, b"007".to_vec());
    assert_eq!(rec.score(), Some(7));
}

#[test]
fn rejects_malformed_lines() {
    let bad = [
        String::new(),
        "hello".to_string(),
        format!("10064 100644 {} {} M a", HASH_A, HASH_B),
        format!("100644 100644 {} {} Z a", HASH_A, HASH_B),
        format!("100644 100644 {} {} M1234 a", HASH_A, HASH_B),
        format!("100644 100644 {}X {} M a", &HASH_A[..39], HASH_B),
        format!("100644 100644 {} {} M", HASH_A, HASH_B),
        format!("100644 100644 {} {} Ma", HASH_A, HASH_B),
    ];
    for input in bad.iter() {
        assert!(parse_diff(&line(input)).is_err(), "accepted: {:?}", input);
    }
}

#[test]
fn tab_handling_at_line_end() {
    // A trailing tab cannot start a second path, so it stays in the first.
    let input = format!("100644 100644 {} {} M a\t", HASH_A, HASH_B);
    let rec = parse_diff(&line(&input)).unwrap();
    assert_eq!(rec.src_path, b"a\t".to_vec());
    assert_eq!(rec.dst_path, Vec::<u8>::new());
    // A tab with content after it splits, and later tabs belong to the
    // second path.
    let input = format!("100644 100644 {} {} M a\tb\tc", HASH_A, HASH_B);
    let rec = parse_diff(&line(&input)).unwrap();
    assert_eq!(rec.src_path, b"a".to_vec());
    assert_eq!(rec.dst_path, b"b\tc".to_vec());
}
