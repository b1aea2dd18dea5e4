use network_usage_monitoring::process::{
    find, name_or_unnamed, parse_u32, pid_from_listing, process_name, unnamed,
};

const LISTING: &str = "\
Netid State  Recv-Q Send-Q Local Address:Port  Peer Address:Port Process
udp   UNCONN 0      0      127.0.0.53%lo:53         0.0.0.0:*    users:((\"systemd-resolve\",pid=612,fd=13))
tcp   LISTEN 0      4096   127.0.0.53%lo:53         0.0.0.0:*    users:((\"systemd-resolve\",pid=612,fd=14))
tcp   LISTEN 0      128          0.0.0.0:22         0.0.0.0:*    users:((\"sshd\",pid=845,fd=3))
tcp   LISTEN 0      511          0.0.0.0:8080       0.0.0.0:*    users:((\"nginx\",pid=1201,fd=6),(\"nginx\",pid=1200,fd=6))
tcp   LISTEN 0      511          0.0.0.0:443        0.0.0.0:*
tcp   LISTEN 0      128             [::]:443           [::]:*    users:((\"caddy\",pid=77,fd=9))
";

/// Whether a line names a port: a colon and the port stand in it, with no
/// further digit behind them.
fn names(line: &str, port: u16) -> bool {
    let mark = format!(":{}", port);
    (0..line.len()).any(|at| {
        line.is_char_boundary(at)
            && line[at..].starts_with(&mark)
            && !line[at + mark.len()..].starts_with(|c: char| c.is_ascii_digit())
    })
}

/// The same search, written with the text functions of the standard library.
fn by_text(listing: &[u8], port: u16) -> Option<u32> {
    let text = String::from_utf8_lossy(listing);
    for line in text.lines() {
        if names(line, port) {
            if let Some(part) = line.split("pid=").nth(1) {
                let number = part.split(',').next()?;
                return number.parse().ok();
            }
        }
    }
    None
}

#[test]
fn the_owner_of_a_port_is_read_from_its_line() {
    assert_eq!(pid_from_listing(LISTING.as_bytes(), 22), Some(845));
    assert_eq!(pid_from_listing(LISTING.as_bytes(), 53), Some(612));
    assert_eq!(pid_from_listing(LISTING.as_bytes(), 8080), Some(1201));
}

#[test]
fn a_line_without_a_process_is_passed_over() {
    assert_eq!(pid_from_listing(LISTING.as_bytes(), 443), Some(77));
}

#[test]
fn a_port_that_no_line_names_has_no_owner() {
    assert_eq!(pid_from_listing(LISTING.as_bytes(), 9999), None);
    assert_eq!(pid_from_listing(b"", 22), None);
    assert_eq!(pid_from_listing(b"\n\n\n", 22), None);
}

#[test]
fn a_port_is_not_found_where_its_digits_only_begin_a_longer_number() {
    assert_eq!(pid_from_listing(LISTING.as_bytes(), 80), None);
    assert_eq!(pid_from_listing(LISTING.as_bytes(), 808), None);
    assert_eq!(pid_from_listing(LISTING.as_bytes(), 2), None);
    assert_eq!(pid_from_listing(LISTING.as_bytes(), 0), None);
    let listing = b"tcp LISTEN 0 128 0.0.0.0:2222 0.0.0.0:* users:((dropbear,pid=999,fd=3))";
    assert_eq!(pid_from_listing(listing, 22), None);
    assert_eq!(pid_from_listing(listing, 222), None);
    assert_eq!(pid_from_listing(listing, 2222), Some(999));
    assert_eq!(pid_from_listing(listing, 22222), None);
}

#[test]
fn a_port_is_found_behind_a_longer_number_that_begins_with_its_digits() {
    assert_eq!(pid_from_listing(b"a:2222 b:22 pid=5,", 22), Some(5));
    assert_eq!(pid_from_listing(b"a:2222 b:22", 22), None);
    assert_eq!(pid_from_listing(b"pid=5,a:222:22", 22), Some(5));
    assert_eq!(pid_from_listing(b"pid=5,a:22x", 22), Some(5));
    assert_eq!(pid_from_listing(b"pid=5,a:22:", 22), Some(5));
    assert_eq!(pid_from_listing(b"pid=5,a::22", 22), Some(5));
    assert_eq!(pid_from_listing(b"pid=5,a:220", 22), None);
    assert_eq!(pid_from_listing(b"pid=5,a:229", 22), None);
    assert_eq!(pid_from_listing(b"pid=5,a:22/", 22), Some(5));
    assert_eq!(pid_from_listing(b":2222 pid=1\n:22 pid=2\n", 22), Some(2));
}

#[test]
fn the_first_line_that_names_port_and_process_settles_the_matter() {
    let listing = b"x :80 users pid=oops,fd=1\ny :80 users pid=12,fd=3\n";
    assert_eq!(pid_from_listing(listing, 80), None);
    let listing = b"x :80 users pid=,fd=1\ny :80 users pid=12,fd=3\n";
    assert_eq!(pid_from_listing(listing, 80), None);
    let listing = b"x :80 users\ny :80 users pid=12,fd=3\n";
    assert_eq!(pid_from_listing(listing, 80), Some(12));
}

#[test]
fn the_process_number_ends_at_a_comma_or_at_the_next_mark_or_with_the_line() {
    assert_eq!(pid_from_listing(b":80 pid=31,fd=3", 80), Some(31));
    assert_eq!(pid_from_listing(b":80 pid=31", 80), Some(31));
    assert_eq!(pid_from_listing(b":80 pid=31pid=4", 80), Some(31));
    assert_eq!(pid_from_listing(b":80 pid=31 ", 80), None);
    assert_eq!(pid_from_listing(b":80 pid=31)", 80), None);
    assert_eq!(pid_from_listing(b"pid=31,:80", 80), Some(31));
    assert_eq!(pid_from_listing(b":80 pid=pid=31", 80), None);
}

#[test]
fn a_line_ends_at_a_line_feed_with_or_without_a_carriage_return() {
    assert_eq!(pid_from_listing(b":80 pid=31\r\n", 80), Some(31));
    assert_eq!(pid_from_listing(b":80 pid=31\n", 80), Some(31));
    assert_eq!(pid_from_listing(b":80 pid=31\r", 80), None);
    assert_eq!(pid_from_listing(b":80 pid=31\r\r\n", 80), None);
    assert_eq!(pid_from_listing(b"\r\n:80 pid=31\r\n", 80), Some(31));
    assert_eq!(pid_from_listing(b":8\n0 pid=31\n", 80), None);
    assert_eq!(pid_from_listing(b":80\npid=31\n", 80), None);
}

#[test]
fn the_search_agrees_with_the_text_functions_of_the_standard_library() {
    let listings: Vec<Vec<u8>> = vec![
        LISTING.as_bytes().to_vec(),
        LISTING.replace('\n', "\r\n").into_bytes(),
        b":80 pid=+7,".to_vec(),
        b":80 pid=-7,".to_vec(),
        b":80 pid=+,".to_vec(),
        b":80 pid=++7,".to_vec(),
        b":80 pid=007,".to_vec(),
        b":80 pid=4294967295,".to_vec(),
        b":80 pid=4294967296,".to_vec(),
        b":80 pid=99999999999999999999999,".to_vec(),
        b":80 pid=12\xff,".to_vec(),
        b"\xff:80\xfe pid=12,\xc3\n".to_vec(),
        b":80 pi\xffd=12,\n:80 pid=13,".to_vec(),
        "caf\u{e9} :80 pid=12,".as_bytes().to_vec(),
        b":80 pid=1 2,".to_vec(),
        b":80 ppid=5,pid=6".to_vec(),
        b"pid=5:80".to_vec(),
        b":65535 pid=1\n:6553 pid=2\n".to_vec(),
        b":8080 pid=1\n:808 pid=2\n:80 pid=3\n:8 pid=4\n".to_vec(),
        b":80\xff pid=9".to_vec(),
        "x:80\u{e9} pid=9".as_bytes().to_vec(),
        "x:80\u{663} pid=9".as_bytes().to_vec(),
        b"x:808:80 pid=9".to_vec(),
        b"no newline at all".to_vec(),
        b"\n".to_vec(),
        b"".to_vec(),
    ];
    for listing in &listings {
        for port in [0, 2, 7, 8, 22, 53, 80, 443, 808, 6553, 8080, 9999, 65535] {
            assert_eq!(
                pid_from_listing(listing, port),
                by_text(listing, port),
                "port {} in {:?}",
                port,
                String::from_utf8_lossy(listing)
            );
        }
    }
}

#[test]
fn a_number_is_digits_with_or_without_a_plus_sign() {
    assert_eq!(parse_u32(b"0"), Some(0));
    assert_eq!(parse_u32(b"845"), Some(845));
    assert_eq!(parse_u32(b"+845"), Some(845));
    assert_eq!(parse_u32(b"000845"), Some(845));
    assert_eq!(parse_u32(b"4294967295"), Some(u32::MAX));
    assert_eq!(parse_u32(b"00000000004294967295"), Some(u32::MAX));
}

#[test]
fn what_is_no_number_of_32_bits_is_not_read_as_one() {
    assert_eq!(parse_u32(b""), None);
    assert_eq!(parse_u32(b"+"), None);
    assert_eq!(parse_u32(b"-1"), None);
    assert_eq!(parse_u32(b"++1"), None);
    assert_eq!(parse_u32(b"1+"), None);
    assert_eq!(parse_u32(b" 1"), None);
    assert_eq!(parse_u32(b"1 "), None);
    assert_eq!(parse_u32(b"12a"), None);
    assert_eq!(parse_u32(b"1/"), None);
    assert_eq!(parse_u32(b"1:"), None);
    assert_eq!(parse_u32(b"4294967296"), None);
    assert_eq!(parse_u32(b"42949672950"), None);
    assert_eq!(parse_u32(b"18446744073709551616"), None);
    assert_eq!(parse_u32(b"99999999999999999999999999999999999999999"), None);
}

#[test]
fn reading_a_number_agrees_with_the_standard_library() {
    for text in ["", "+", "-", "0", "+0", "-0", "7", "+7", "٣", "1_000", "0x10", "4294967295", "4294967296"] {
        assert_eq!(parse_u32(text.as_bytes()), text.parse::<u32>().ok(), "{:?}", text);
    }
}

#[test]
fn find_gives_the_first_place_of_a_pattern() {
    assert_eq!(find(b"abcabc", b"bc"), Some(1));
    assert_eq!(find(b"abcabc", b"abc"), Some(0));
    assert_eq!(find(b"abcabc", b"cab"), Some(2));
    assert_eq!(find(b"abcabc", b"abcabc"), Some(0));
    assert_eq!(find(b"abcabc", b"abcabcd"), None);
    assert_eq!(find(b"abcabc", b"cb"), None);
    assert_eq!(find(b"aaab", b"aab"), Some(1));
    assert_eq!(find(b"abc", b""), Some(0));
    assert_eq!(find(b"", b""), Some(0));
    assert_eq!(find(b"", b"a"), None);
}

#[test]
fn a_name_is_shown_without_the_white_space_at_its_ends() {
    assert_eq!(process_name(Some("sshd\n")), "sshd");
    assert_eq!(process_name(Some("  kworker/0:1 \t\r\n")), "kworker/0:1");
    assert_eq!(process_name(Some("Web Content\n")), "Web Content");
    assert_eq!(process_name(Some("\u{a0}name\u{2003}")), "name");
    assert_eq!(process_name(Some("")), "");
    assert_eq!(process_name(Some(" \n")), "");
}

#[test]
fn a_process_without_a_name_is_shown_as_unnamed() {
    assert_eq!(process_name(None), "<unnamed>");
    assert_eq!(name_or_unnamed(None), "<unnamed>");
    assert_eq!(name_or_unnamed(Some(String::from("init"))), "init");
    assert_eq!(unnamed(), "<unnamed>");
}
