use orbital_time_server::tle::{
    assemble_tle_entry, finish_tle_line, parse_tle_lines, tle_cache_needs_refresh, tle_checksum,
};

const ISS_L1: &str = "1 25544U 98067A   08264.51782528 -.00002182  00000-0 -11606-4 0  2927";
const ISS_L2: &str = "2 25544  51.6416 247.4627 0006703 130.5360 325.0288 15.72125391563537";

fn lines(v: &[&str]) -> Vec<String> {
    v.iter().map(|s| s.to_string()).collect()
}

#[test]
fn checksum_of_reference_lines() {
    assert_eq!(tle_checksum(ISS_L1), 7);
    assert_eq!(tle_checksum(ISS_L2), 7);
    assert_eq!(tle_checksum(""), 0);
    assert_eq!(tle_checksum("---"), 3);
    assert_eq!(tle_checksum("19 a9"), 9);
}

#[test]
fn checksum_ignores_column_69_and_beyond() {
    let long = format!("{}{}", &ISS_L1[..68], "99999");
    assert_eq!(tle_checksum(&long), 7);
}

#[test]
fn finished_line_pads_and_appends_checksum() {
    let line = finish_tle_line("1 99999U");
    assert_eq!(line.len(), 69);
    assert!(line.starts_with("1 99999U   "));
    // 1 + 9*5 = 46 -> 6
    assert!(line.ends_with(" 6"));
    assert_eq!(finish_tle_line(&ISS_L1[..68]), ISS_L1);
}

#[test]
fn finished_line_truncates_long_body() {
    let body = format!("{}EXTRA", &ISS_L2[..68]);
    assert_eq!(finish_tle_line(&body), ISS_L2);
}

#[test]
fn entry_has_name_and_two_lines() {
    let entry = assemble_tle_entry("ISS", &ISS_L1[..68], &ISS_L2[..68]);
    assert_eq!(entry, format!("ISS\n{}\n{}\n", ISS_L1, ISS_L2));
}

#[test]
fn test_parse_tle_empty() {
    let res = parse_tle_lines(&lines(&[""]));
    assert!(res.is_empty());
    let res = parse_tle_lines(&Vec::new());
    assert!(res.is_empty());
}

#[test]
fn test_parse_tle_truncated_and_corrupt() {
    let garbage = lines(&[
        "This is a random sentence",
        "1 25544U 98067A   20351",
        "2 25544  51.6468",
    ]);
    let res = parse_tle_lines(&garbage);
    assert!(res.is_empty() || res.len() == 1);
    assert!(res.is_empty());
}

#[test]
fn parses_named_and_unnamed_sets() {
    let text = lines(&["ISS (ZARYA)", ISS_L1, ISS_L2, "", "  ", ISS_L1, ISS_L2]);
    let res = parse_tle_lines(&text);
    assert_eq!(res.len(), 2);
    assert_eq!(res[0].0, "ISS (ZARYA)");
    assert_eq!(res[0].1.norad_id, 25544);
    assert_eq!(res[1].0, "UNKNOWN");
}

#[test]
fn trims_lines_and_names() {
    let l1 = format!("  {}  ", ISS_L1);
    let text = lines(&["   ISS   ", &l1, ISS_L2]);
    let res = parse_tle_lines(&text);
    assert_eq!(res.len(), 1);
    assert_eq!(res[0].0, "ISS");
}

#[test]
fn bad_checksum_set_is_left_out() {
    let bad = format!("{}0", &ISS_L2[..68]);
    let text = lines(&["ISS", ISS_L1, &bad, "OTHER", ISS_L1, ISS_L2]);
    let res = parse_tle_lines(&text);
    assert_eq!(res.len(), 1);
    assert_eq!(res[0].0, "OTHER");
}

#[test]
fn blank_in_checksum_column_is_rejected_without_panic() {
    let bad = format!("{} ", &ISS_L2[..68]);
    let text = lines(&["ISS", ISS_L1, &bad]);
    assert!(parse_tle_lines(&text).is_empty());
}

#[test]
fn missing_exponent_sign_is_repaired() {
    // column 51 (index 50) holds a blank instead of the sign of the exponent
    let mut l1: Vec<u8> = ISS_L1.as_bytes().to_vec();
    assert_eq!(l1[50], b'-');
    l1[50] = b' ';
    // '-' counted one in the checksum; the repaired '+' counts nothing
    l1[68] = b'6';
    let l1 = String::from_utf8(l1).unwrap();
    let text = lines(&["ISS", &l1, ISS_L2]);
    let res = parse_tle_lines(&text);
    assert_eq!(res.len(), 1);
}

#[test]
fn name_line_without_elements_is_skipped() {
    let text = lines(&["JUNK", "NAME", ISS_L1, ISS_L2]);
    let res = parse_tle_lines(&text);
    assert_eq!(res.len(), 1);
    assert_eq!(res[0].0, "NAME");
}

#[test]
fn test_tle_cache_refresh_rule() {
    assert!(tle_cache_needs_refresh(true, true, Some(10)));
    assert!(tle_cache_needs_refresh(false, false, None));
    assert!(!tle_cache_needs_refresh(false, true, Some(43200)));
    assert!(tle_cache_needs_refresh(false, true, Some(43201)));
    assert!(!tle_cache_needs_refresh(false, true, None));
}

#[test]
fn test_finish_tle_line_counts_bytes() {
    let short = finish_tle_line("é-7");
    assert_eq!(short, format!("é-7{}8", " ".repeat(64)));
    assert_eq!(short.len(), 69);
    let long = format!("é{}", "9".repeat(70));
    let cut = finish_tle_line(&long);
    assert_eq!(cut, format!("é{}{}", "9".repeat(66), (66 * 9) % 10));
    assert_eq!(cut.len(), 69);
}
