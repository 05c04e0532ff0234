use amcli::lrc::{parse_lrc, LrcError};

#[test]
fn test_parse_simple() {
    let lrc = "[00:12.34]Hello world";
    let lyrics = parse_lrc(lrc).unwrap();
    assert_eq!(lyrics.lines.len(), 1);
    assert_eq!(lyrics.lines[0].timestamp, 12340);
    assert_eq!(lyrics.lines[0].text, "Hello world");
}

#[test]
fn test_parse_multiple_timestamps() {
    let lrc = "[00:12.34][00:15.00]Repeated line";
    let lyrics = parse_lrc(lrc).unwrap();
    assert_eq!(lyrics.lines.len(), 2);
    assert_eq!(lyrics.lines[0].timestamp, 12340);
    assert_eq!(lyrics.lines[1].timestamp, 15000);
    assert_eq!(lyrics.lines[0].text, "Repeated line");
    assert_eq!(lyrics.lines[1].text, "Repeated line");
}

#[test]
fn test_parse_metadata() {
    let lrc = "[ti:Title]\n[ar:Artist]\n[00:01.00]Lyrics";
    let lyrics = parse_lrc(lrc).unwrap();
    assert_eq!(lyrics.metadata_value("ti").unwrap(), "Title");
    assert_eq!(lyrics.metadata_value("ar").unwrap(), "Artist");
    assert_eq!(lyrics.lines[0].text, "Lyrics");
}

#[test]
fn test_parse_offset() {
    let lrc = "[offset:500]\n[00:01.00]Lyrics";
    let lyrics = parse_lrc(lrc).unwrap();
    assert_eq!(lyrics.offset, 500);
    assert_eq!(lyrics.lines[0].timestamp, 1500);
}

#[test]
fn test_parse_negative_offset() {
    let lrc = "[offset:-500]\n[00:01.00]Lyrics";
    let lyrics = parse_lrc(lrc).unwrap();
    assert_eq!(lyrics.offset, -500);
    assert_eq!(lyrics.lines[0].timestamp, 500);
}

#[test]
fn test_filter_non_timestamped_lines() {
    let lrc = "作词 : 周杰伦\n作曲 : 周杰伦\n[00:12.34]真正的歌词\n纯文本行\n[00:15.00]第二行";
    let lyrics = parse_lrc(lrc).unwrap();
    assert_eq!(lyrics.lines.len(), 2);
    assert_eq!(lyrics.lines[0].text, "真正的歌词");
    assert_eq!(lyrics.lines[1].text, "第二行");
}

#[test]
fn lines_come_out_sorted_and_stable() {
    let lrc = "[00:20.00]c\n[00:05.00]a\n[00:20.00]d\n[00:10.50]b";
    let lyrics = parse_lrc(lrc).unwrap();
    let got: Vec<(u64, &str)> =
        lyrics.lines.iter().map(|l| (l.timestamp, l.text.as_str())).collect();
    assert_eq!(got, vec![(5000, "a"), (10500, "b"), (20000, "c"), (20000, "d")]);
}

#[test]
fn three_digit_fraction_is_milliseconds() {
    let lyrics = parse_lrc("[01:02.345]x").unwrap();
    assert_eq!(lyrics.lines[0].timestamp, 62345);
}

#[test]
fn negative_offset_saturates_at_zero() {
    let lyrics = parse_lrc("[offset:-5000]\n[00:01.00]a\n[00:09.00]b").unwrap();
    assert_eq!(lyrics.lines[0].timestamp, 0);
    assert_eq!(lyrics.lines[1].timestamp, 4000);
}

#[test]
fn malformed_offset_reads_as_zero() {
    let lyrics = parse_lrc("[offset:abc]\n[00:01.00]a").unwrap();
    assert_eq!(lyrics.offset, 0);
    assert_eq!(lyrics.lines[0].timestamp, 1000);
}

#[test]
fn offset_is_not_metadata() {
    let lyrics = parse_lrc("[offset:+250]\n[00:01.00]a").unwrap();
    assert_eq!(lyrics.offset, 250);
    assert!(lyrics.metadata_value("offset").is_none());
    assert!(lyrics.metadata.is_empty());
}

#[test]
fn malformed_timestamp_rejects_document() {
    assert_eq!(parse_lrc("[00:01.00]ok\n[0a:12.34]bad").unwrap_err(), LrcError::MalformedTimestamp);
    assert_eq!(parse_lrc("[1:02.00]short minutes").unwrap_err(), LrcError::MalformedTimestamp);
    assert_eq!(parse_lrc("[a0:12.34]text").unwrap_err(), LrcError::MalformedTimestamp);
    assert_eq!(parse_lrc("[00:1x.34]text").unwrap_err(), LrcError::MalformedTimestamp);
    assert_eq!(parse_lrc("[00:12.3x]text").unwrap_err(), LrcError::MalformedTimestamp);
    assert_eq!(parse_lrc("[00:01.00][A0:12.345]text").unwrap_err(), LrcError::MalformedTimestamp);
}

#[test]
fn key_shaped_tag_stays_metadata() {
    let lyrics = parse_lrc("[ab:12.34]\n[00:01.00]x").unwrap();
    assert_eq!(lyrics.metadata_value("ab").unwrap(), "12.34");
    assert_eq!(lyrics.lines.len(), 1);
}

#[test]
fn empty_and_text_free_lines_yield_nothing() {
    let lyrics = parse_lrc("").unwrap();
    assert!(lyrics.lines.is_empty());
    let lyrics = parse_lrc("\n\n[00:01.00]   \r\n  \n").unwrap();
    assert!(lyrics.lines.is_empty());
}

#[test]
fn crlf_and_padding_are_trimmed() {
    let lyrics = parse_lrc("  [00:02.00]  Hi there  \r\n[ar: Someone ]\r\n").unwrap();
    assert_eq!(lyrics.lines[0].text, "Hi there");
    assert_eq!(lyrics.lines[0].timestamp, 2000);
    assert_eq!(lyrics.metadata_value("ar").unwrap(), "Someone");
}

#[test]
fn repeated_metadata_key_keeps_last_value() {
    let lyrics = parse_lrc("[ti:One]\n[ti:Two]").unwrap();
    assert_eq!(lyrics.metadata.len(), 1);
    assert_eq!(lyrics.metadata_value("ti").unwrap(), "Two");
}

#[test]
fn find_index_tracks_position() {
    let lyrics = parse_lrc("[00:01.00]a\n[00:03.00]b\n[00:05.00]c").unwrap();
    assert_eq!(lyrics.find_index(0), 0);
    assert_eq!(lyrics.find_index(1000), 0);
    assert_eq!(lyrics.find_index(3500), 1);
    assert_eq!(lyrics.find_index(60000), 2);
}

#[test]
fn appended_plain_line_changes_nothing() {
    let base = "[ti:T]\n[00:02.00]b\n[00:01.00]a";
    let a = parse_lrc(base).unwrap();
    let b = parse_lrc(&format!("{}\n{}", base, "Credits: someone (c) 2020")).unwrap();
    let view = |l: &amcli::lyrics::Lyrics| {
        l.lines.iter().map(|x| (x.timestamp, x.text.clone())).collect::<Vec<_>>()
    };
    assert_eq!(view(&a), view(&b));
    assert_eq!(a.offset, b.offset);
    assert_eq!(a.metadata, b.metadata);
}

#[test]
fn metadata_and_timestamps_on_one_line() {
    let lyrics = parse_lrc("[ti:x][00:01.00]text\n[ar:a]b]").unwrap();
    assert_eq!(lyrics.metadata_value("ti").unwrap(), "x");
    assert_eq!(lyrics.metadata_value("ar").unwrap(), "a");
    assert_eq!(lyrics.lines.len(), 1);
    assert_eq!(lyrics.lines[0].timestamp, 1000);
    assert_eq!(lyrics.lines[0].text, "text");
    let lyrics = parse_lrc("[offset:500] [00:01.00][00:02.00] two").unwrap();
    assert_eq!(lyrics.offset, 500);
    assert_eq!(lyrics.lines.len(), 2);
    assert_eq!(lyrics.lines[1].timestamp, 2500);
    assert_eq!(parse_lrc("[ti:x][0a:01.00]bad").unwrap_err(), LrcError::MalformedTimestamp);
}
