use apache_logs::log_entry::ApacheLog;
use apache_logs::log_entry::ParseError;
use apache_logs::log_entry::parse_string;
use apache_logs::timestamp::Timestamp;

const FULL_LINE: &str = "127.0.0.1 - frank [10/Oct/2023:13:55:36 +0000] \"GET /apache_pb.gif HTTP/1.0\" 200 2326 \"http://www.example.com/\" \"Mozilla/5.0\"";

fn parsed(line: &str) -> ApacheLog {
    parse_string(line).expect("line should parse")
}

#[test]
fn full_line_parses_to_expected_record() {
    let r = parsed(FULL_LINE);
    assert_eq!(r.source, "127.0.0.1");
    assert_eq!(
        r.timestamp,
        Timestamp {
            year: 2023,
            month: 10,
            day: 10,
            hour: 13,
            minute: 55,
            second: 36,
            offset_minutes: 0,
        }
    );
    assert_eq!(r.method, "GET");
    assert_eq!(r.uri, "/apache_pb.gif");
    assert_eq!(r.status_code, 200);
    assert_eq!(r.content_length, Some(2326));
    assert_eq!(r.referrer, "http://www.example.com/");
    assert_eq!(r.user_agent, "Mozilla/5.0");
}

#[test]
fn dash_content_length_is_absent_and_changes_nothing_else() {
    let line = FULL_LINE.replace(" 200 2326 ", " 200 - ");
    let r = parsed(&line);
    assert_eq!(r.content_length, None);
    let full = parsed(FULL_LINE);
    assert_eq!(r.source, full.source);
    assert_eq!(r.timestamp, full.timestamp);
    assert_eq!(r.method, full.method);
    assert_eq!(r.uri, full.uri);
    assert_eq!(r.status_code, full.status_code);
    assert_eq!(r.referrer, full.referrer);
    assert_eq!(r.user_agent, full.user_agent);
}

#[test]
fn non_numeric_content_length_is_absent() {
    let line = FULL_LINE.replace(" 200 2326 ", " 200 xyz ");
    assert_eq!(parsed(&line).content_length, None);
}

#[test]
fn unterminated_quote_fails() {
    let line = "127.0.0.1 - frank [10/Oct/2023:13:55:36 +0000] \"GET /apache_pb.gif HTTP/1.0\" 200 2326 \"http://www.example.com/\" \"Mozilla/5.0";
    assert_eq!(parse_string(line).err(), Some(ParseError::Malformed));
}

#[test]
fn non_numeric_status_fails() {
    let line = FULL_LINE.replace(" 200 2326 ", " 20x 2326 ");
    assert_eq!(parse_string(&line).err(), Some(ParseError::Malformed));
}

#[test]
fn status_overflowing_i64_fails() {
    let line = FULL_LINE.replace(" 200 2326 ", " 99999999999999999999 2326 ");
    assert_eq!(parse_string(&line).err(), Some(ParseError::Malformed));
}

#[test]
fn negative_status_is_read_as_an_integer() {
    let line = FULL_LINE.replace(" 200 2326 ", " -200 2326 ");
    assert_eq!(parsed(&line).status_code, -200);
}

#[test]
fn request_with_one_token_fails() {
    let line = FULL_LINE.replace("GET /apache_pb.gif HTTP/1.0", "GET");
    assert_eq!(parse_string(&line).err(), Some(ParseError::Malformed));
}

#[test]
fn request_with_two_tokens_parses_without_version() {
    let line = FULL_LINE.replace("GET /apache_pb.gif HTTP/1.0", "get /apache_pb.gif");
    let r = parsed(&line);
    assert_eq!(r.method, "GET");
    assert_eq!(r.uri, "/apache_pb.gif");
}

#[test]
fn request_with_four_tokens_fails() {
    let line = FULL_LINE.replace("GET /apache_pb.gif HTTP/1.0", "GET /a HTTP/1.0 extra");
    assert_eq!(parse_string(&line).err(), Some(ParseError::Malformed));
}

#[test]
fn empty_request_fails() {
    let line = FULL_LINE.replace("GET /apache_pb.gif HTTP/1.0", "");
    assert_eq!(parse_string(&line).err(), Some(ParseError::Malformed));
}

#[test]
fn request_splits_on_each_single_space_keeping_empty_pieces() {
    let line = FULL_LINE.replace("GET /apache_pb.gif HTTP/1.0", "GET  /apache_pb.gif");
    let r = parsed(&line);
    assert_eq!(r.method, "GET");
    assert_eq!(r.uri, "");
}

#[test]
fn method_case_is_normalized_to_uppercase() {
    let line = FULL_LINE.replace("GET /apache_pb.gif", "gEt /apache_pb.gif");
    assert_eq!(parsed(&line).method, "GET");
}

#[test]
fn loose_dotted_quad_accepts_empty_octets() {
    let line = FULL_LINE.replace("127.0.0.1 ", "... ");
    assert_eq!(parsed(&line).source, "...");
}

#[test]
fn dotted_quad_with_letters_fails() {
    let line = FULL_LINE.replace("127.0.0.1 ", "localhost ");
    assert_eq!(parse_string(&line).err(), Some(ParseError::Malformed));
}

#[test]
fn timestamp_with_impossible_day_fails() {
    let line = FULL_LINE.replace("[10/Oct/2023:", "[31/Jun/2023:");
    assert_eq!(parse_string(&line).err(), Some(ParseError::Malformed));
}

#[test]
fn timestamp_without_offset_fails() {
    let line = FULL_LINE.replace("[10/Oct/2023:13:55:36 +0000]", "[10/Oct/2023:13:55:36]");
    assert_eq!(parse_string(&line).err(), Some(ParseError::Malformed));
}

#[test]
fn timestamp_with_unknown_month_fails() {
    let line = FULL_LINE.replace("/Oct/", "/Okt/");
    assert_eq!(parse_string(&line).err(), Some(ParseError::Malformed));
}

#[test]
fn timestamp_month_name_is_matched_without_regard_to_case() {
    let line = FULL_LINE.replace("/Oct/", "/OCT/");
    assert_eq!(parsed(&line).timestamp.month, 10);
}

#[test]
fn negative_offset_is_minutes_west_of_utc() {
    let line = FULL_LINE.replace("+0000]", "-0530]");
    assert_eq!(parsed(&line).timestamp.offset_minutes, -330);
}

#[test]
fn offset_with_colon_parses() {
    let line = FULL_LINE.replace("+0000]", "+01:30]");
    assert_eq!(parsed(&line).timestamp.offset_minutes, 90);
}

#[test]
fn leap_day_parses_in_a_leap_year_only() {
    let leap = FULL_LINE.replace("[10/Oct/2023:", "[29/Feb/2024:");
    assert_eq!(parsed(&leap).timestamp.day, 29);
    let not_leap = FULL_LINE.replace("[10/Oct/2023:", "[29/Feb/2023:");
    assert_eq!(parse_string(&not_leap).err(), Some(ParseError::Malformed));
}

#[test]
fn runs_of_spaces_between_fields_are_tolerated() {
    let line = FULL_LINE
        .replace(" - frank ", "   -   frank   ")
        .replace(":36 +0000]", ":36   +0000]");
    let r = parsed(&line);
    assert_eq!(r.source, "127.0.0.1");
    assert_eq!(r.status_code, 200);
    assert_eq!(r.timestamp.offset_minutes, 0);
}

#[test]
fn missing_identd_and_username_shift_the_fields_and_fail() {
    let line = FULL_LINE.replace(" - frank ", " ");
    assert_eq!(parse_string(&line).err(), Some(ParseError::Malformed));
}

#[test]
fn empty_line_fails() {
    assert_eq!(parse_string("").err(), Some(ParseError::Malformed));
}

#[test]
fn trailing_text_after_user_agent_is_ignored() {
    let mut line = String::from(FULL_LINE);
    line.push_str(" trailing junk");
    let r = parsed(&line);
    assert_eq!(r.user_agent, "Mozilla/5.0");
}
