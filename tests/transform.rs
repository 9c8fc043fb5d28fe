use srt_delay::error::Error;
use srt_delay::transform::{check_input_name, delay_content, delay_line, delay_lines, split_lines};

#[test]
fn range_line_shifted_later() {
    assert_eq!(
        delay_line("00:00:01,500 --> 00:00:03,000", 2000),
        Ok("00:00:03,500 --> 00:00:05,000".to_string())
    );
}

#[test]
fn range_line_shifted_earlier() {
    assert_eq!(
        delay_line("00:00:01,000 --> 00:00:02,000", -500),
        Ok("00:00:00,500 --> 00:00:01,500".to_string())
    );
}

#[test]
fn index_and_blank_lines_pass_through() {
    for delay in [-100_000, -1, 0, 1, 2000, i64::MAX, i64::MIN] {
        assert_eq!(delay_line("42", delay), Ok("42".to_string()));
        assert_eq!(delay_line("", delay), Ok(String::new()));
    }
}

#[test]
fn other_lines_pass_through() {
    for line in ["Hello, world!", "00:00:01,500 -> 00:00:03,000", "00:00:01,500", "héllo --> ünïcode"] {
        assert_eq!(delay_line(line, 1234), Ok(line.to_string()));
    }
}

#[test]
fn zero_delay_normalizes_ranges() {
    assert_eq!(
        delay_line("00:75:00,000 --> 00:00:99,000", 0),
        Ok("01:15:00,000 --> 00:01:39,000".to_string())
    );
}

#[test]
fn delay_before_zero_is_an_error() {
    let line = "00:00:01,000 --> 00:00:02,000";
    assert_eq!(delay_line(line, -1001), Err(Error::NegativeTimestamp(line.to_string())));
    assert_eq!(delay_line(line, -1000), Ok("00:00:00,000 --> 00:00:01,000".to_string()));
}

#[test]
fn splits_lines_like_std() {
    assert_eq!(split_lines("a\r\nb\nc"), vec!["a", "b", "c"]);
    assert_eq!(split_lines("a\n\nb\n"), vec!["a", "", "b"]);
    assert_eq!(split_lines(""), Vec::<String>::new());
    assert_eq!(split_lines("\n"), vec![""]);
    assert_eq!(split_lines("x\r"), vec!["x\r"]);
    assert_eq!(split_lines("x\r\r\n"), vec!["x\r"]);
}

#[test]
fn whole_file_is_shifted() {
    let content = "1\r\n00:00:01,500 --> 00:00:03,000\r\nHello\r\n\r\n2\r\n00:00:04,000 --> 00:00:05,250\r\nBye";
    let expected = "1\n00:00:03,500 --> 00:00:05,000\nHello\n\n2\n00:00:06,000 --> 00:00:07,250\nBye\n";
    assert_eq!(delay_content(content, 2000), Ok(expected.to_string()));
}

#[test]
fn file_without_ranges_is_unchanged_but_for_line_ends() {
    let content = "42\n\nsome caption\nmore";
    assert_eq!(delay_content(content, -5000), Ok("42\n\nsome caption\nmore\n".to_string()));
    assert_eq!(delay_content("", 10), Ok(String::new()));
}

#[test]
fn file_with_a_negative_result_fails() {
    let content = "1\n00:00:01,000 --> 00:00:02,000\n2\n00:00:00,500 --> 00:00:01,000\n";
    assert_eq!(
        delay_content(content, -800),
        Err(Error::NegativeTimestamp("00:00:00,500 --> 00:00:01,000".to_string()))
    );
}

#[test]
fn delay_lines_joins_with_newlines() {
    let lines = vec!["7".to_string(), "00:00:00,000 --> 00:00:00,001".to_string()];
    assert_eq!(delay_lines(&lines, 1), Ok("7\n00:00:00,001 --> 00:00:00,002\n".to_string()));
}

#[test]
fn only_srt_names_are_accepted() {
    assert_eq!(check_input_name("dir/movie.srt", "movie.srt"), Ok(()));
    assert_eq!(check_input_name("a.b.srt", "a.b.srt"), Ok(()));
    for name in ["movie.txt", ".srt", "srt", "movie.SRT", "movie.srt.bak", "movie"] {
        assert_eq!(
            check_input_name(&format!("in/{name}"), name),
            Err(Error::InvalidFile(format!("in/{name}")))
        );
    }
}

#[test]
fn one_bad_input_does_not_affect_the_others() {
    let inputs = [
        ("a.srt", "00:00:01,000 --> 00:00:02,000\n"),
        ("b.txt", "00:00:01,000 --> 00:00:02,000\n"),
        ("c.srt", "3\n00:00:10,000 --> 00:00:12,000\n"),
    ];
    let results: Vec<Result<String, Error>> = inputs
        .iter()
        .map(|(name, content)| check_input_name(name, name).and_then(|_| delay_content(content, 500)))
        .collect();
    assert_eq!(results.len(), 3);
    assert_eq!(results[0], Ok("00:00:01,500 --> 00:00:02,500\n".to_string()));
    assert_eq!(results[1], Err(Error::InvalidFile("b.txt".to_string())));
    assert_eq!(results[2], Ok("3\n00:00:10,500 --> 00:00:12,500\n".to_string()));
}
