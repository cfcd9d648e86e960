//! End-to-end tests of the parsing and analytics pipeline.

use tulip_core::analytics::parse_thread_content;
use tulip_core::parser::{parse_actual_id_from_info_str, parse_post_lines};

#[test]
fn single_line_example() {
    let text = "Alice<>alice@x<>2024/01/01 00:00 ID:abc123<>Hello";
    let out = parse_thread_content(text);
    assert_eq!(out.len(), 1);
    let r = &out[0];
    assert_eq!(r.id.as_str(), "1");
    assert_eq!(r.author.as_str(), "Alice");
    assert_eq!(r.mail.as_str(), "alice@x");
    assert_eq!(r.created_at.as_str(), "2024/01/01 00:00");
    assert_eq!(r.user_id_info.as_str(), "ID:abc123");
    assert_eq!(r.parsed_user_id.as_deref(), Some("abc123"));
    assert_eq!(r.content.as_str(), "Hello");
    assert_eq!(r.id_occurrence_count, 1);
    assert_eq!(r.id_total_count, 1);
}

#[test]
fn repeated_token_counts_run_one_to_three() {
    let line = "Alice<>alice@x<>2024/01/01 00:00 ID:abc123<>Hello";
    let text = format!("{}\n{}\n{}\n", line, line, line);
    let out = parse_thread_content(&text);
    assert_eq!(out.len(), 3);
    for (i, r) in out.iter().enumerate() {
        assert_eq!(r.id.as_str(), (i + 1).to_string().as_str());
        assert_eq!(r.parsed_user_id.as_deref(), Some("abc123"));
        assert_eq!(r.id_occurrence_count, (i + 1) as u32);
        assert_eq!(r.id_total_count, 3);
    }
}

#[test]
fn interleaved_tokens_count_independently() {
    let text = "a<>m<>d ID:aaa<>1\nb<>m<>d ID:bbb<>2\nc<>m<>d ID:aaa<>3\n";
    let out = parse_thread_content(text);
    assert_eq!(out.len(), 3);
    assert_eq!(out[0].parsed_user_id.as_deref(), Some("aaa"));
    assert_eq!(out[0].id_occurrence_count, 1);
    assert_eq!(out[0].id_total_count, 2);
    assert_eq!(out[1].parsed_user_id.as_deref(), Some("bbb"));
    assert_eq!(out[1].id_occurrence_count, 1);
    assert_eq!(out[1].id_total_count, 1);
    assert_eq!(out[2].parsed_user_id.as_deref(), Some("aaa"));
    assert_eq!(out[2].id_occurrence_count, 2);
    assert_eq!(out[2].id_total_count, 2);
}

#[test]
fn record_without_marker_has_zero_counts() {
    let text = "Bob<>bob@x<>2024/02/02 12:34<>No marker here";
    let out = parse_thread_content(text);
    assert_eq!(out.len(), 1);
    let r = &out[0];
    assert_eq!(r.created_at.as_str(), "2024/02/02 12:34");
    assert_eq!(r.user_id_info.as_str(), "");
    assert_eq!(r.parsed_user_id, None);
    assert_eq!(r.id_occurrence_count, 0);
    assert_eq!(r.id_total_count, 0);
}

#[test]
fn two_segment_line_is_skipped() {
    let text = "only<>two\nAlice<>alice@x<>2024/01/01 00:00 ID:abc123<>Hello\n";
    let out = parse_thread_content(text);
    assert_eq!(out.len(), 1);
    assert_eq!(out[0].author.as_str(), "Alice");
    assert_eq!(out[0].id.as_str(), "1");
    assert_eq!(out[0].id_total_count, 1);

    let (records, malformed) = parse_post_lines(text);
    assert_eq!(records.len(), 1);
    assert_eq!(malformed, 1);
}

#[test]
fn blank_lines_are_skipped_silently() {
    let text = "\n   \nAlice<>a@x<>d ID:x<>hi\n\n";
    let (records, malformed) = parse_post_lines(text);
    assert_eq!(records.len(), 1);
    assert_eq!(malformed, 0);
}

#[test]
fn order_and_bodies_are_kept() {
    let text = "A<>m1<>d1 ID:t1<>body one\nB<>m2<>d2<>body two\nC<>m3<>d3 ID:t1<>body three\n";
    let out = parse_thread_content(text);
    assert_eq!(out.len(), 3);
    assert_eq!(out[0].author.as_str(), "A");
    assert_eq!(out[1].author.as_str(), "B");
    assert_eq!(out[2].author.as_str(), "C");
    assert_eq!(out[0].content.as_str(), "body one");
    assert_eq!(out[1].content.as_str(), "body two");
    assert_eq!(out[2].content.as_str(), "body three");
    assert_eq!(out[0].id.as_str(), "1");
    assert_eq!(out[1].id.as_str(), "2");
    assert_eq!(out[2].id.as_str(), "3");
}

#[test]
fn fifth_segment_is_ignored_and_not_split_further() {
    let text = "A<>m<>d ID:x<>body<>extra<>more";
    let out = parse_thread_content(text);
    assert_eq!(out.len(), 1);
    assert_eq!(out[0].content.as_str(), "body");
}

#[test]
fn crlf_terminator_is_stripped_from_body() {
    let text = "A<>m<>d ID:x<>hello\r\nB<>m<>d<>there\r\n";
    let out = parse_thread_content(text);
    assert_eq!(out.len(), 2);
    assert_eq!(out[0].content.as_str(), "hello");
    assert_eq!(out[1].content.as_str(), "there");
}

#[test]
fn date_and_info_are_trimmed_around_last_marker() {
    let text = "A<>m<>  2024/01/01 00:00   ID:abc  <>b";
    let out = parse_thread_content(text);
    assert_eq!(out.len(), 1);
    assert_eq!(out[0].created_at.as_str(), "2024/01/01 00:00");
    assert_eq!(out[0].user_id_info.as_str(), "ID:abc");
    assert_eq!(out[0].parsed_user_id.as_deref(), Some("abc"));
}

#[test]
fn marker_split_uses_last_occurrence() {
    let text = "A<>m<>fake ID:one then real ID:two<>b";
    let out = parse_thread_content(text);
    assert_eq!(out.len(), 1);
    assert_eq!(out[0].created_at.as_str(), "fake ID:one then real");
    assert_eq!(out[0].user_id_info.as_str(), "ID:two");
    assert_eq!(out[0].parsed_user_id.as_deref(), Some("two"));
}

#[test]
fn empty_input_yields_no_records() {
    let out = parse_thread_content("");
    assert_eq!(out.len(), 0);
}

#[test]
fn token_extraction_rules() {
    assert_eq!(parse_actual_id_from_info_str("ID:abc123").as_deref(), Some("abc123"));
    assert_eq!(parse_actual_id_from_info_str("ID:"), None);
    assert_eq!(parse_actual_id_from_info_str("no marker"), None);
    assert_eq!(parse_actual_id_from_info_str("ID:abc(xyz)").as_deref(), Some("abc"));
    assert_eq!(parse_actual_id_from_info_str("xID:a-b_c!").as_deref(), Some("a-b_c"));
    assert_eq!(parse_actual_id_from_info_str(""), None);
    assert_eq!(parse_actual_id_from_info_str("ID: spaced"), None);
}
