use orbital_time_server::display::slider_bar;
use orbital_time_server::fields::{parse_usize, rss_bytes_from_stat, rss_pages_from_stat, split_whitespace_fields};
use orbital_time_server::numeric::p_adic_valuation;
use orbital_time_server::pass_file::{classify_pass_line, pass_sample_time, PassLine};
use orbital_time_server::text::{pass_file_stem, str_contains};

#[test]
fn whitespace_fields_match_std() {
    for s in ["", "   ", "a", " a  bb\tccc\n", "x\u{00A0}y\u{3000}z", "  lead trail  "] {
        let ours = split_whitespace_fields(s);
        let std: Vec<String> = s.split_whitespace().map(|t| t.to_string()).collect();
        assert_eq!(ours, std);
    }
}

#[test]
fn parse_usize_matches_std() {
    for s in ["0", "42", "+7", "", "+", "-1", "12a", "18446744073709551615", "18446744073709551616", "007"] {
        assert_eq!(parse_usize(s), s.parse::<usize>().ok(), "input {:?}", s);
    }
}

#[test]
fn rss_from_stat_text() {
    let mut fields: Vec<String> = (0..30).map(|i| i.to_string()).collect();
    fields[1] = "(sattime)".to_string();
    fields[23] = "1234".to_string();
    let stat = fields.join(" ");
    assert_eq!(rss_pages_from_stat(&stat), Some(1234));
    assert_eq!(rss_bytes_from_stat(&stat), 1234 * 4096);
    assert_eq!(rss_bytes_from_stat("1 2 3"), 0);
    fields[23] = "x".to_string();
    assert_eq!(rss_bytes_from_stat(&fields.join(" ")), 0);
}

#[test]
fn pass_file_lines() {
    assert_eq!(classify_pass_line("   "), PassLine::Skip);
    assert_eq!(
        classify_pass_line("# Satellite_Name: STARLINK-1234 "),
        PassLine::SatelliteName("STARLINK-1234".to_string())
    );
    assert_eq!(
        classify_pass_line("#center_frequency:150800000.5"),
        PassLine::CenterFrequency("150800000.5".to_string())
    );
    assert_eq!(classify_pass_line("# other: 3"), PassLine::Skip);
    assert_eq!(classify_pass_line("# no colon"), PassLine::Skip);
    assert_eq!(classify_pass_line("utc_timestamp,frequency_hz"), PassLine::Skip);
    assert_eq!(
        classify_pass_line("2026-01-01T00:00:00Z,150801234.5,extra"),
        PassLine::Sample { time: "2026-01-01T00:00:00Z".to_string(), freq: "150801234.5".to_string() }
    );
    assert_eq!(classify_pass_line("single-column"), PassLine::Skip);
}

#[test]
fn p_adic_valuations() {
    assert_eq!(p_adic_valuation(10, 5, 5), 1);
    assert_eq!(p_adic_valuation(0, 8, 2), 3);
    assert_eq!(p_adic_valuation(3, 4, 2), 0);
    assert_eq!(p_adic_valuation(1, 1 + 81 * 2, 3), 4);
    assert_eq!(p_adic_valuation(0, 1u64 << 63, 2), 63);
}

#[test]
fn slider_gauges() {
    assert_eq!(slider_bar(0, 3), "[\u{2591}\u{2591}\u{2591}]");
    assert_eq!(slider_bar(2, 3), "[\u{2588}\u{2588}\u{2591}]");
    assert_eq!(slider_bar(9, 2), "[\u{2588}\u{2588}]");
    assert_eq!(slider_bar(0, 0), "[]");
}

#[test]
fn substring_search() {
    assert!(str_contains("a corrupt line", "corrupt"));
    assert!(!str_contains("corrup", "corrupt"));
    assert!(str_contains("x", ""));
}

#[test]
fn test_pass_file_stem_replaces_spaces() {
    assert_eq!(pass_file_stem("NOAA 19"), "NOAA_19");
    assert_eq!(pass_file_stem(" ISS (ZARYA) "), "_ISS_(ZARYA)_");
    assert_eq!(pass_file_stem(""), "");
}

#[test]
fn test_pass_sample_time_parses_rfc3339() {
    let (t, f) = pass_sample_time("2024-01-02T03:04:05.25Z,137100123.5").unwrap();
    assert_eq!(t.secs, 1_704_164_645);
    assert_eq!(t.nanos, 250_000_000);
    assert_eq!(f, "137100123.5");
    let (t2, _) = pass_sample_time("  2024-01-02T05:04:05+02:00,1.0,x ").unwrap();
    assert_eq!(t2.secs, 1_704_164_645);
    assert_eq!(t2.nanos, 0);
    assert!(pass_sample_time("not-a-time,1.0").is_none());
    assert!(pass_sample_time("utc_timestamp,frequency").is_none());
    assert!(pass_sample_time("# satellite_name: NOAA 19").is_none());
    assert!(pass_sample_time("").is_none());
}
