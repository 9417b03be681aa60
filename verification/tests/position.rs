use brew_server::aprs::{build_object_packet, forwarding, login_line, object_name, Forwarding, Limiter};
use brew_server::calendar::{aprs_dhm_timestamp, civil_from_days, fmt_ts};
use brew_server::config::AprsConfig;
use brew_server::position::{
    decode_lip, decode_lip_hex, decode_lip_long, parse_aprs, parse_decimal, Candidate, DegMin, LipFix, Number,
};

#[derive(Debug, Clone, Copy)]
struct LatLon {
    lat: f64,
    lon: f64,
}

fn approx(a: f64, b: f64) -> bool {
    (a - b).abs() < 0.01
}

fn degrees(d: &DegMin) -> f64 {
    let v = d.degrees as f64 + d.minutes.parse::<f64>().unwrap() / 60.0;
    if d.negative {
        -v
    } else {
        v
    }
}

fn number(n: &Number) -> f64 {
    let v = n.spelling.parse::<f64>().unwrap();
    match n.compass {
        Some('S') | Some('W') => -v.abs(),
        Some(_) => v.abs(),
        None => v,
    }
}

fn on_earth(p: LatLon) -> Option<LatLon> {
    if (-90.0..=90.0).contains(&p.lat) && (-180.0..=180.0).contains(&p.lon) {
        Some(p)
    } else {
        None
    }
}

/// The first reading of a text that is a place on earth.
fn parse_position(s: &str) -> Option<LatLon> {
    brew_server::position::parse_position(s).iter().find_map(|c| {
        on_earth(match c {
            Candidate::Aprs(lat, lon) => LatLon { lat: degrees(lat), lon: degrees(lon) },
            Candidate::Decimal(lat, lon) => LatLon { lat: number(lat), lon: number(lon) },
            Candidate::Grid(g) => LatLon { lat: g.lat as f64 / 480.0, lon: g.lon as f64 / 240.0 },
        })
    })
}

fn lip(f: LipFix) -> LatLon {
    let unit = 180.0 / 16_777_216.0;
    LatLon { lat: f.lat as f64 * unit, lon: f.lon as f64 * unit }
}

#[test]
fn aprs_slash_symbol() {
    let p = parse_position("!4426.12N/02606.55E-").unwrap();
    assert!(approx(p.lat, 44.4353), "lat={}", p.lat);
    assert!(approx(p.lon, 26.1092), "lon={}", p.lon);
}

#[test]
fn aprs_backslash_and_space() {
    let a = parse_position("4426.12N\\02606.55E").unwrap();
    let b = parse_position("4426.12N 02606.55E").unwrap();
    assert!(approx(a.lat, b.lat) && approx(a.lon, b.lon));
}

#[test]
fn aprs_southern_western() {
    let p = parse_position("3350.00S 15112.00W").unwrap();
    assert!(p.lat < 0.0 && p.lon < 0.0);
    assert!(approx(p.lat, -33.8333), "lat={}", p.lat);
    assert!(approx(p.lon, -151.2), "lon={}", p.lon);
}

#[test]
fn decimal_comma() {
    let p = parse_position("44.4353, 26.1092").unwrap();
    assert!(approx(p.lat, 44.4353) && approx(p.lon, 26.1092));
}

#[test]
fn decimal_with_label_and_hemis() {
    let p = parse_position("POS 44.43N 26.10E").unwrap();
    assert!(approx(p.lat, 44.43) && approx(p.lon, 26.10));
}

#[test]
fn decimal_negative() {
    let p = parse_position("-33.87, 151.21").unwrap();
    assert!(approx(p.lat, -33.87) && approx(p.lon, 151.21));
}

#[test]
fn plain_integers_do_not_parse() {
    assert!(parse_position("1001 2002").is_none());
}

#[test]
fn maidenhead_6char() {
    let p = parse_position("KN34bk").unwrap();
    assert!((44.0..45.0).contains(&p.lat), "lat={}", p.lat);
    assert!((25.0..27.0).contains(&p.lon), "lon={}", p.lon);
}

#[test]
fn out_of_range_rejected() {
    assert!(parse_position("99.0, 200.0").is_none());
}

#[test]
fn lip_short_report_real_sample() {
    let bytes = [0x0a, 0x01, 0x0e, 0x62, 0x39, 0xb0, 0x43, 0x9a, 0xff, 0xe0, 0x20];
    let p = lip(decode_lip(&bytes).expect("should decode short location report"));
    assert!(approx(p.lat, 37.9920), "lat={}", p.lat);
    assert!(approx(p.lon, 23.7642), "lon={}", p.lon);
}

#[test]
fn lip_hex_string_matches_bytes() {
    let a = lip(decode_lip_hex("0a010e6239b0439affe020").unwrap());
    let b = lip(decode_lip_hex("0a 01 0e 62 39 b0 43 9a ff e0 20").unwrap());
    assert!(approx(a.lat, b.lat) && approx(a.lon, b.lon));
    assert!(approx(a.lat, 37.9920));
}

#[test]
fn lip_long_report_real_samples() {
    let samples = [
        "830011801313232f341f5c776dea66360868e310e616c15660",
        "8300128013132302341f5c776e0c663608688810e6193e5688",
        "830013801313232f341f5c776e40663608655510e60fe9563c",
        "83000d801313232f341f5c776d8c663608555510e61599568e",
        "83000a8013132302341f5c776d1766360865b010e62844561c",
    ];
    for s in samples {
        let bytes: Vec<u8> = (0..s.len())
            .step_by(2)
            .map(|i| u8::from_str_radix(&s[i..i + 2], 16).unwrap())
            .collect();
        let p = lip(decode_lip_long(&bytes).expect("long report should decode"));
        assert!((p.lat - 37.9917).abs() < 0.01, "lat={} for {s}", p.lat);
        assert!((p.lon - 23.7640).abs() < 0.01, "lon={} for {s}", p.lon);
    }
}

#[test]
fn lip_long_rejects_non_83_and_short() {
    assert!(decode_lip_long(&[0x0a, 0x01, 0x0e]).is_none());
    assert!(decode_lip_long(&[0x83, 0x00]).is_none());
}

#[test]
fn lip_no_fix_beacon_is_none() {
    let bytes = [0x0a, 0x30, 0x00, 0x00, 0x00, 0x00, 0x00, 0x07, 0xff, 0xe0, 0xf0];
    assert!(decode_lip(&bytes).is_none(), "all-zero position must be rejected");
}

#[test]
fn lip_rejects_non_lip_and_short() {
    assert!(decode_lip(&[0x82, 0x00, 0x01]).is_none(), "wrong PID");
    assert!(decode_lip(&[0x0a, 0x01]).is_none(), "too short");
    assert!(decode_lip(&[]).is_none());
}

#[test]
fn empty_and_garbage() {
    assert!(parse_position("").is_none());
    assert!(parse_position("hello world").is_none());
    assert!(parse_position("status: OK").is_none());
}

#[test]
fn degrees_and_minutes_are_read_exactly() {
    let text: Vec<char> = "!3759.50N/02345.84E>".chars().collect();
    let (lat, lon) = parse_aprs(&text).expect("should parse back");
    assert_eq!((lat.degrees, lat.minutes.as_str(), lat.negative), (37, "59.50", false));
    assert_eq!((lon.degrees, lon.minutes.as_str(), lon.negative), (23, "45.84", false));
}

#[test]
fn object_name_pads_to_nine_chars() {
    let n = object_name("MS", 90);
    assert_eq!(n.chars().count(), 9);
    assert_eq!(n, "MS90     ");
}

#[test]
fn object_name_truncates_when_too_long() {
    let n = object_name("MOBILESTATION", 1234567);
    assert_eq!(n.chars().count(), 9);
    assert_eq!(n, "MOBILESTA");
}

fn aprs_config() -> AprsConfig {
    AprsConfig {
        enabled: true,
        server: "example:14580".into(),
        callsign: "MYCALL-10".into(),
        passcode: "12345".into(),
        symbol_table: '/',
        symbol_code: 'j',
        comment: "TETRA MS".into(),
        object_name_prefix: "MS".into(),
        min_report_interval_seconds: 60,
        reconnect_interval_seconds: 15,
    }
}

#[test]
fn build_object_packet_has_expected_shape() {
    let packet = build_object_packet(&aprs_config(), 90, "3759.50N", "02345.84E", 0);
    assert!(packet.starts_with("MYCALL-10>APRS,TCPIP*:;MS90     *"));
    assert!(packet.contains("z3759.50N/02345.84Ej"));
    assert!(packet.ends_with("TETRA MS\r\n"));
}

#[test]
fn civil_from_days_matches_known_epoch_dates() {
    assert_eq!(civil_from_days(0), (1970, 1, 1));
    assert_eq!(civil_from_days(19_783), (2024, 3, 1));
}

#[test]
fn dates_before_the_epoch_are_known() {
    assert_eq!(civil_from_days(-1), (1969, 12, 31));
    assert_eq!(civil_from_days(-719_468), (0, 3, 1));
    assert_eq!(civil_from_days(11_016), (2000, 2, 29));
}

#[test]
fn times_are_spelled() {
    // 2024-03-01 12:34:56 UTC.
    let secs: u64 = 19_783 * 86_400 + 12 * 3600 + 34 * 60 + 56;
    assert_eq!(aprs_dhm_timestamp(secs), "011234");
    assert_eq!(fmt_ts(secs * 1000 + 7), "2024-03-01 12:34:56");
}

#[test]
fn packets_carry_the_time() {
    let secs: u64 = 19_783 * 86_400 + 12 * 3600 + 34 * 60;
    let packet = build_object_packet(&aprs_config(), 90, "3759.50N", "02345.84E", secs);
    assert_eq!(
        packet,
        "MYCALL-10>APRS,TCPIP*:;MS90     *011234z3759.50N/02345.84EjTETRA MS\r\n"
    );
}

#[test]
fn forwarding_needs_a_login() {
    let mut cfg = aprs_config();
    assert_eq!(forwarding(&cfg), Forwarding::Active);
    assert!(login_line(&cfg).starts_with("user MYCALL-10 pass 12345"));
    cfg.passcode = String::new();
    assert_eq!(forwarding(&cfg), Forwarding::NoLogin);
    cfg.enabled = false;
    assert_eq!(forwarding(&cfg), Forwarding::Disabled);
}

#[test]
fn reports_are_rate_limited() {
    let mut l = Limiter::new();
    let second: u64 = 1_000_000_000;
    assert!(l.admits(90, 5 * second, 60));
    l.sent(90, 5 * second);
    assert!(!l.admits(90, 64 * second, 60));
    assert!(l.admits(90, 65 * second, 60));
    assert!(l.admits(91, 6 * second, 60));
}

#[test]
fn one_of_the_two_numbers_has_a_point() {
    let pair = |text: &str| {
        let chars: Vec<char> = text.chars().collect();
        parse_decimal(&chars).map(|(a, b)| (a.spelling, b.spelling))
    };
    assert_eq!(pair("10 20 3.5"), None);
    assert_eq!(pair("10 20"), None);
    assert_eq!(pair("10. 20"), Some(("10.".to_string(), "20".to_string())));
    assert_eq!(pair("pos 10 20.5 7"), Some(("10".to_string(), "20.5".to_string())));
    assert_eq!(pair("44.43"), None);
}

#[test]
fn hexadecimal_marks_are_passed_over() {
    let plain = decode_lip_hex("0a010e6239b0439affe020").unwrap();
    let marked = decode_lip_hex("0x0a010e6239b0439affe020").unwrap();
    assert_eq!((plain.lat, plain.lon), (marked.lat, marked.lon));
    let each = "0x0A 0X01 0x0e 0x62 0x39 0xb0 0x43 0x9a 0xff 0xe0 0x20";
    let each = decode_lip_hex(each).unwrap();
    assert_eq!((plain.lat, plain.lon), (each.lat, each.lon));
    assert!(decode_lip_hex("0x").is_none());
    assert!(decode_lip_hex("0x0").is_none());
}
