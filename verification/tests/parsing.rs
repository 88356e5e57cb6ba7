//! Text parsers: names, decimal fields, addresses, lines, fields, quotes.

use blocka_dns::name::Name;
use blocka_dns::parse::{parse_dec, parse_i32, parse_ipv4, parse_ipv6, split_fields, split_on, trim_quotes};
use blocka_dns::text::split_lines;
use blocka_dns::session::parse_ip_list;
use blocka_dns::netif::IpAddress;

#[test]
fn names_normalize_and_validate() {
    let n = Name::parse("Example.COM").unwrap();
    assert_eq!(n.to_ascii(), "Example.COM.");
    let m = Name::parse("example.com.").unwrap();
    assert_eq!(m.to_ascii(), "example.com.");
    assert_eq!(Name::parse(".").unwrap().to_ascii(), ".");
    assert!(Name::parse("").is_none());
    assert!(Name::parse("a..b").is_none());
    assert!(Name::parse(".a").is_none());
    assert!(Name::parse("bad name").is_none());
    assert!(Name::parse("zw\u{00e9}.example").is_none());
}

#[test]
fn zones_cover_names() {
    let root = Name::parse(".").unwrap();
    let zone = Name::parse("example.com.").unwrap();
    let host = Name::parse("www.Example.Com.").unwrap();
    let other = Name::parse("example.org.").unwrap();
    assert!(root.zone_of(&host));
    assert!(zone.zone_of(&host));
    assert!(zone.zone_of(&zone.duplicate()));
    assert!(!zone.zone_of(&other));
    assert!(!zone.zone_of(&Name::parse("badexample.com.").unwrap()));
}

#[test]
fn decimal_fields() {
    assert_eq!(parse_dec("0", 255), Some(0));
    assert_eq!(parse_dec("007", 255), Some(7));
    assert_eq!(parse_dec("65535", 65535), Some(65535));
    assert_eq!(parse_dec("65536", 65535), None);
    assert_eq!(parse_dec("", 255), None);
    assert_eq!(parse_dec("1x", 255), None);
    assert_eq!(parse_i32("-2147483648"), Some(i32::MIN));
    assert_eq!(parse_i32("2147483647"), Some(i32::MAX));
    assert_eq!(parse_i32("2147483648"), None);
    assert_eq!(parse_i32("+17"), Some(17));
    assert_eq!(parse_i32("-0"), Some(0));
    assert_eq!(parse_i32("-"), None);
}

#[test]
fn ipv4_addresses() {
    assert_eq!(parse_ipv4("1.2.3.4"), Some(0x01020304));
    assert_eq!(parse_ipv4("0.0.0.0"), Some(0));
    assert_eq!(parse_ipv4("255.255.255.255"), Some(u32::MAX));
    assert_eq!(parse_ipv4("93.184.216.34"), Some(0x5DB8D822));
    assert_eq!(parse_ipv4("012.2.3.4"), Some(0x0C020304));
    assert_eq!(parse_ipv4("256.1.1.1"), None);
    assert_eq!(parse_ipv4("1.2.3"), None);
    assert_eq!(parse_ipv4("1.2.3.4.5"), None);
    assert_eq!(parse_ipv4("1.2.3."), None);
    assert_eq!(parse_ipv4("1234.1.1.1"), None);
}

#[test]
fn ipv6_addresses() {
    assert_eq!(parse_ipv6("::"), Some(0));
    assert_eq!(parse_ipv6("::1"), Some(1));
    assert_eq!(parse_ipv6("1::"), Some(0x0001_0000_0000_0000_0000_0000_0000_0000));
    assert_eq!(
        parse_ipv6("1:2:3:4:5:6:7:8"),
        Some(0x0001_0002_0003_0004_0005_0006_0007_0008),
    );
    assert_eq!(
        parse_ipv6("2606:4700:4700::1111"),
        Some(0x2606_4700_4700_0000_0000_0000_0000_1111),
    );
    assert_eq!(parse_ipv6("fe80::1"), Some(0xFE80_0000_0000_0000_0000_0000_0000_0001));
    assert_eq!(parse_ipv6("1::2::3"), None);
    assert_eq!(parse_ipv6(":::"), None);
    assert_eq!(parse_ipv6(":1:2:3:4:5:6:7"), None);
    assert_eq!(parse_ipv6("1:2:3:4:5:6:7"), None);
    assert_eq!(parse_ipv6("1:2:3:4:5:6:7:8:9"), None);
    assert_eq!(parse_ipv6("12345::"), None);
    assert_eq!(parse_ipv6("g::1"), None);
}

#[test]
fn address_lists() {
    let addrs = parse_ip_list("1.1.1.1, 2606:4700:4700::1111, nonsense, 8.8.8.8");
    assert_eq!(
        addrs,
        vec![
            IpAddress::V4(0x01010101),
            IpAddress::V6(0x2606_4700_4700_0000_0000_0000_0000_1111),
            IpAddress::V4(0x08080808),
        ],
    );
    assert_eq!(parse_ip_list(""), Vec::<IpAddress>::new());
}

#[test]
fn line_and_field_splitting() {
    let lines = split_lines("a\nb\n\nc");
    assert_eq!(lines, vec!["a".to_string(), "b".to_string(), "".to_string(), "c".to_string()]);
    let lines2 = split_lines("a\nb\n");
    assert_eq!(lines2, vec!["a".to_string(), "b".to_string()]);
    assert_eq!(split_lines(""), Vec::<String>::new());

    assert_eq!(split_on("a.b..c", '.'), vec!["a".to_string(), "b".to_string(), "".to_string(), "c".to_string()]);
    assert_eq!(split_on("", '.'), vec!["".to_string()]);

    assert_eq!(
        split_fields("10  mail.example.com "),
        vec!["10".to_string(), "mail.example.com".to_string()],
    );
    assert_eq!(split_fields("   "), Vec::<String>::new());
}

#[test]
fn quote_trimming() {
    assert_eq!(trim_quotes("\"hello\""), "hello");
    assert_eq!(trim_quotes("\"\"\"x\""), "x");
    assert_eq!(trim_quotes("\"\""), "");
    assert_eq!(trim_quotes("plain"), "plain");
    assert_eq!(trim_quotes("say \"hi\" now"), "say \"hi\" now");
}
