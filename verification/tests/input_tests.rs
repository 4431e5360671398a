use std::str::FromStr;

use hype::input::{parse_targets, read_targets, strip_port, strip_scheme};
use hype::ipv4::{parse_ipv4, Ipv4Addr};
use hype::text::{before_first, char_is_whitespace, trim};

fn lines(v: &[&str]) -> Vec<String> {
    v.iter().map(|s| s.to_string()).collect()
}

#[test]
fn strip_scheme_removes_https_and_http() {
    assert_eq!(strip_scheme("https://10.0.0.1"), "10.0.0.1");
    assert_eq!(strip_scheme("http://10.0.0.1"), "10.0.0.1");
    assert_eq!(strip_scheme("10.0.0.1"), "10.0.0.1");
    assert_eq!(strip_scheme("ftp://10.0.0.1"), "ftp://10.0.0.1");
    assert_eq!(strip_scheme("https://"), "");
    assert_eq!(strip_scheme("http:/10.0.0.1"), "http:/10.0.0.1");
    assert_eq!(strip_scheme("HTTP://10.0.0.1"), "HTTP://10.0.0.1");
    // only one scheme is removed
    assert_eq!(strip_scheme("https://http://x"), "http://x");
}

#[test]
fn strip_port_removes_trailing_digits_after_last_colon() {
    assert_eq!(strip_port("10.0.0.1:8080"), "10.0.0.1");
    assert_eq!(strip_port("10.0.0.1:"), "10.0.0.1:");
    assert_eq!(strip_port("10.0.0.1"), "10.0.0.1");
    assert_eq!(strip_port("10.0.0.1:80a"), "10.0.0.1:80a");
    assert_eq!(strip_port("a:b:22"), "a:b");
    assert_eq!(strip_port(":22"), "");
    assert_eq!(strip_port("host:٣"), "host:٣");
    assert_eq!(strip_port(""), "");
}

#[test]
fn trim_and_comment_cut_match_std() {
    let samples = [
        "  1.2.3.4  ",
        "\u{3000}\u{a0}x\u{2028}",
        "\t\n",
        "",
        "a # b",
        "#only",
        "é#ü",
        "\u{85}mid\u{85}dle\u{85}",
    ];
    for s in samples {
        assert_eq!(trim(s), s.trim());
        assert_eq!(before_first(s, '#'), s.split('#').next().unwrap_or(""));
    }
}

#[test]
fn whitespace_set_matches_std_for_every_char() {
    for code in 0u32..=0x10FFFF {
        if let Some(c) = char::from_u32(code) {
            assert_eq!(char_is_whitespace(c), c.is_whitespace(), "U+{code:04X}");
        }
    }
}

#[test]
fn parse_ipv4_accepts_dotted_quads() {
    assert_eq!(parse_ipv4("192.168.0.1"), Some(Ipv4Addr::new(192, 168, 0, 1)));
    assert_eq!(parse_ipv4("0.0.0.0"), Some(Ipv4Addr::new(0, 0, 0, 0)));
    assert_eq!(parse_ipv4("255.255.255.255"), Some(Ipv4Addr::new(255, 255, 255, 255)));
}

#[test]
fn parse_ipv4_rejects_everything_else() {
    for s in [
        "", "1.2.3", "1.2.3.4.5", "256.0.0.1", "01.2.3.4", "1..3.4", "1.2.3.4 ", " 1.2.3.4",
        "1.2.3.-4", "1.2.3.+4", "a.b.c.d", "1.2.3.0004", "example.com", "1.2.3.4:80", "١.٢.٣.٤",
    ] {
        assert_eq!(parse_ipv4(s), None, "{s:?}");
    }
}

#[test]
fn parse_ipv4_agrees_with_std() {
    let mut samples: Vec<String> = Vec::new();
    for a in ["0", "1", "00", "01", "10", "99", "100", "199", "255", "256", "999", "1000", "", "x"] {
        for b in ["0", "7", "07", "255", "300"] {
            samples.push(format!("{a}.{b}.3.4"));
            samples.push(format!("1.2.{b}.{a}"));
            samples.push(format!("{a}.{b}"));
            samples.push(format!("{a}.{b}.1.2.3"));
        }
    }
    for s in samples {
        let ours = parse_ipv4(&s).map(|ip| ip.octets());
        let std_ip = core::net::Ipv4Addr::from_str(&s).ok().map(|ip| ip.octets());
        assert_eq!(ours, std_ip, "{s:?}");
    }
}

#[test]
fn dotted_text_round_trips() {
    for (a, b, c, d) in [(0, 0, 0, 0), (1, 22, 133, 255), (10, 0, 100, 9), (255, 99, 100, 10)] {
        let ip = Ipv4Addr::new(a, b, c, d);
        let text = ip.to_dotted();
        assert_eq!(text, core::net::Ipv4Addr::new(a, b, c, d).to_string());
        assert_eq!(parse_ipv4(&text), Some(ip));
    }
}

#[test]
fn to_bits_is_big_endian() {
    assert_eq!(Ipv4Addr::new(1, 2, 3, 4).to_bits(), 0x01020304);
    assert_eq!(Ipv4Addr::new(255, 0, 0, 1).to_bits(), u32::from(core::net::Ipv4Addr::new(255, 0, 0, 1)));
}

#[test]
fn parse_targets_cleans_dedupes_and_keeps_order() {
    let raw = lines(&[
        "10.0.0.2",
        "  10.0.0.1  # primary",
        "# a comment line",
        "",
        "https://10.0.0.3:8443",
        "http://10.0.0.2",
        "example.com",
        "10.0.0.1",
        "10.0.0.4:",
        "\t10.0.0.5\t",
        "10.0.0.300",
    ]);
    let targets = parse_targets(raw);
    assert_eq!(
        targets,
        vec![
            Ipv4Addr::new(10, 0, 0, 2),
            Ipv4Addr::new(10, 0, 0, 1),
            Ipv4Addr::new(10, 0, 0, 3),
            Ipv4Addr::new(10, 0, 0, 5),
        ]
    );
}

#[test]
fn parse_targets_of_nothing_is_empty() {
    assert!(parse_targets(Vec::new()).is_empty());
    assert!(parse_targets(lines(&["# nothing", "   "])).is_empty());
}

#[test]
fn read_targets_is_none_without_content() {
    assert_eq!(read_targets(Vec::new()), None);
    assert_eq!(read_targets(lines(&["", "  ", "\t"])), None);
}

#[test]
fn read_targets_with_content_parses() {
    // a comment is content, even though it names no target
    assert_eq!(read_targets(lines(&["# only a comment"])), Some(Vec::new()));
    assert_eq!(
        read_targets(lines(&["", "1.1.1.1", "1.1.1.1"])),
        Some(vec![Ipv4Addr::new(1, 1, 1, 1)])
    );
}

#[test]
fn targets_of_appended_lines() {
    let a = lines(&["10.0.0.1", "10.0.0.2"]);
    let b = lines(&["10.0.0.3", "10.0.0.1", "10.0.0.4"]);
    let ta = parse_targets(a.clone());
    let tb = parse_targets(b.clone());
    let mut expected = ta.clone();
    expected.extend(tb.into_iter().filter(|x| !ta.contains(x)));
    assert_eq!(parse_targets([a, b].concat()), expected);
}

#[test]
fn printed_targets_parse_back() {
    let raw = lines(&["https://10.1.1.1:443 # web", "10.1.1.2", "10.1.1.1", "255.0.0.9"]);
    let targets = parse_targets(raw);
    let printed: Vec<String> = targets.iter().map(|ip| ip.to_dotted()).collect();
    assert_eq!(parse_targets(printed), targets);
}
