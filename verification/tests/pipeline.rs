use std::io::Write;
use apache_logs::log_entry::ParseError;
use apache_logs::pipeline::DecompressionError;
use apache_logs::pipeline::EncodingError;
use apache_logs::pipeline::FileError;
use apache_logs::pipeline::decompress;
use apache_logs::pipeline::parse_lines;
use apache_logs::pipeline::process_file;
use apache_logs::pipeline::split_lines;

const GOOD_LINE: &str = "127.0.0.1 - frank [10/Oct/2023:13:55:36 +0000] \"GET /apache_pb.gif HTTP/1.0\" 200 2326 \"http://www.example.com/\" \"Mozilla/5.0\"";

fn gzip(text: &str) -> Vec<u8> {
    let mut enc = flate2::write::GzEncoder::new(Vec::new(), flate2::Compression::default());
    enc.write_all(text.as_bytes()).expect("write");
    enc.finish().expect("finish")
}

#[test]
fn gzip_round_trip_recovers_the_text_byte_for_byte() {
    let text = "alpha\nbeta\ngamma\n";
    let compressed = gzip(text);
    let bytes = decompress(&compressed).expect("inflate");
    assert_eq!(bytes, text.as_bytes());
    let lines = split_lines(&bytes).expect("split");
    assert_eq!(lines, vec!["alpha", "beta", "gamma"]);
}

#[test]
fn corrupt_gzip_fails_whole() {
    let garbage: Vec<u8> = vec![0x1f, 0x8b, 0x08, 0x00, 0x12, 0x34];
    assert_eq!(decompress(&garbage), Err(DecompressionError));
}

#[test]
fn truncated_gzip_yields_no_partial_output() {
    let compressed = gzip("a long enough stretch of text to be truncated midway\n");
    let cut = compressed[..compressed.len() / 2].to_vec();
    assert_eq!(decompress(&cut), Err(DecompressionError));
}

#[test]
fn invalid_utf8_fails_the_whole_buffer() {
    let bytes: Vec<u8> = vec![b'o', b'k', 0xff, 0xfe];
    assert_eq!(split_lines(&bytes), Err(EncodingError));
}

#[test]
fn line_splitting_edge_cases() {
    let bytes = b"a\r\nb\rc\n\nlast".to_vec();
    let lines = split_lines(&bytes).expect("split");
    assert_eq!(lines, vec!["a", "b\rc", "", "last"]);
}

#[test]
fn final_line_keeps_a_bare_trailing_carriage_return() {
    let bytes = b"foo\r\nbar\n\nbaz\r".to_vec();
    let lines = split_lines(&bytes).expect("split");
    assert_eq!(lines, vec!["foo", "bar", "", "baz\r"]);
}

#[test]
fn empty_buffer_has_no_lines() {
    let lines = split_lines(&Vec::new()).expect("split");
    assert_eq!(lines.len(), 0);
}

#[test]
fn parse_lines_fails_fast_on_the_first_bad_line() {
    let lines = vec![String::from(GOOD_LINE), String::from("not a log line")];
    assert_eq!(parse_lines(&lines).err(), Some(ParseError::Malformed));
}

#[test]
fn parse_lines_parses_every_line_in_order() {
    let other = GOOD_LINE.replace("/apache_pb.gif", "/index.html");
    let lines = vec![String::from(GOOD_LINE), other];
    let logs = parse_lines(&lines).expect("parse");
    assert_eq!(logs.len(), 2);
    assert_eq!(logs[0].uri, "/apache_pb.gif");
    assert_eq!(logs[1].uri, "/index.html");
}

#[test]
fn process_file_runs_all_three_stages() {
    let other = GOOD_LINE.replace(" 200 2326 ", " 404 - ");
    let text = format!("{}\n{}\n", GOOD_LINE, other);
    let logs = process_file(&gzip(&text)).expect("process");
    assert_eq!(logs.len(), 2);
    assert_eq!(logs[0].status_code, 200);
    assert_eq!(logs[1].status_code, 404);
    assert_eq!(logs[1].content_length, None);
}

#[test]
fn process_file_reports_the_failing_stage() {
    assert!(matches!(process_file(&vec![0u8; 4]).err(), Some(FileError::Decompression)));
    let bad_text = format!("{}\nmalformed\n", GOOD_LINE);
    assert!(matches!(process_file(&gzip(&bad_text)).err(), Some(FileError::Malformed)));
    let mut enc = flate2::write::GzEncoder::new(Vec::new(), flate2::Compression::default());
    enc.write_all(&[0xff, 0xfe, 0xfd]).expect("write");
    let not_text = enc.finish().expect("finish");
    assert!(matches!(process_file(&not_text).err(), Some(FileError::Encoding)));
}
