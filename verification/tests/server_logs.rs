use theseus::server_logs::{
    analyze_exit_reason, is_jna_macos_assertion, is_timestamped_log_line,
    process_server_output_line, strip_ansi, tailed_log_line_to_record,
    take_complete_pty_lines, BoundedLineReader, ExitReason,
    EXIT_ANALYSIS_TAIL_LINES, MAX_PTY_LINE_BYTES, MAX_SERVER_LOG_LINE_BYTES,
};

#[test]
fn strips_ansi_escape_sequences_from_server_output() {
    let line = "[16:02:30 INFO]: \u{1b}[38;2;255;170;0m/mspt: \u{1b}[38;2;255;255;255mView server tick times\u{1b}[0m";
    assert_eq!(
        strip_ansi(line),
        "[16:02:30 INFO]: /mspt: View server tick times"
    );

    assert_eq!(strip_ansi("\u{1b}]0;Server console\u{7}ready"), "ready");
    assert_eq!(strip_ansi("\u{1b}]0;Server console\u{1b}\\done"), "done");
    assert_eq!(strip_ansi("plain text stays"), "plain text stays");
    assert_eq!(strip_ansi("h\u{e9}llo \u{1b}[31mred"), "h\u{e9}llo red");
}

#[test]
fn splits_pty_output_without_losing_partial_or_raw_bytes() {
    let mut pending = Vec::new();
    assert_eq!(
        take_complete_pty_lines(&mut pending, b"first\r\nsecond"),
        vec![b"first\r\n".to_vec()]
    );
    assert_eq!(pending, b"second");
    assert_eq!(
        take_complete_pty_lines(&mut pending, b"\nthird\n"),
        vec![b"second\n".to_vec(), b"third\n".to_vec()]
    );
    assert!(pending.is_empty());
}

#[test]
fn bounds_unterminated_pty_output() {
    let mut pending = vec![b'x'; MAX_PTY_LINE_BYTES];
    assert!(take_complete_pty_lines(&mut pending, b"x").is_empty());
    assert!(pending.is_empty());

    let oversized = vec![b'x'; MAX_PTY_LINE_BYTES + 1];
    assert!(take_complete_pty_lines(&mut pending, &oversized).is_empty());
    assert!(pending.is_empty());
}

#[test]
fn detects_timestamped_log_lines() {
    assert!(is_timestamped_log_line(
        "[11:13:49 INFO]: [bootstrap] Running Java 25"
    ));
    assert!(is_timestamped_log_line(
        "[11:13:49] [ServerMain/INFO]: [bootstrap] Running"
    ));
    assert!(is_timestamped_log_line(
        "[11:13:49] [Server thread/INFO]: Stopped IO worker!"
    ));
    assert!(!is_timestamped_log_line("Downloading mojang_26.2.jar"));
    assert!(!is_timestamped_log_line("Applying patches"));
    assert!(!is_timestamped_log_line(
        "Starting org.bukkit.craftbukkit.Main"
    ));
    assert!(!is_timestamped_log_line(
        "WARNING: A terminally deprecated method in sun.misc.Unsafe"
    ));
    assert!(!is_timestamped_log_line(
        "2026-08-29T03:13:49.279070900Z ServerMain WARN Advanced terminal features",
    ));
}

#[test]
fn detects_jna_macos_assertion() {
    let line = "Assertion failed: (count <= len && \"snprintf() output has been truncated\"), function LOAD_ERROR, file dispatch.c, line 74.";
    assert!(is_jna_macos_assertion(line));
    assert!(!is_jna_macos_assertion(
        "Assertion failed: something else, file other.c, line 1."
    ));
    assert!(!is_jna_macos_assertion("regular log output"));
}

#[test]
fn classifies_eula_refusal_from_output_tail() {
    let eula_line = "[15:26:09] [main/INFO]: You need to agree to the EULA in order to run the server. Go to eula.txt for more info.".to_string();
    let mut lines = vec![
        "[15:26:09] [main/INFO]: Starting minecraft server version 26.2"
            .to_string(),
        eula_line.clone(),
    ];
    assert_eq!(analyze_exit_reason(&lines), Some(ExitReason::Eula));

    lines.push(
        "[16:44:23] [Server thread/INFO]: Stopped IO worker!".to_string(),
    );
    assert_eq!(analyze_exit_reason(&lines), Some(ExitReason::Eula));

    let normal = vec![
        "[16:44:18] [Server thread/INFO]: Stopping the server".to_string(),
        "[16:44:23] [Server thread/INFO]: Stopped IO worker!".to_string(),
    ];
    assert_eq!(analyze_exit_reason(&normal), None);
    assert_eq!(analyze_exit_reason(&[]), None);

    let mut old = vec![eula_line];
    old.resize(EXIT_ANALYSIS_TAIL_LINES + 10, "noise".to_string());
    assert_eq!(analyze_exit_reason(&old), None);
}

fn read_line(reader_input: &mut &[u8]) -> Option<String> {
    let mut reader = BoundedLineReader::new();
    loop {
        if reader_input.is_empty() {
            if !reader.saw_bytes() {
                return None;
            }
            break;
        }
        let (consumed, done) = reader.feed(reader_input);
        *reader_input = &reader_input[consumed..];
        if done {
            break;
        }
    }
    Some(String::from_utf8_lossy(&reader.finish()).into_owned())
}

#[test]
fn bounded_server_log_reader_consumes_oversized_line() {
    let input = format!("{}\nnext\n", "x".repeat(MAX_SERVER_LOG_LINE_BYTES * 2));
    let mut rest = input.as_bytes();
    let first = read_line(&mut rest).unwrap();
    let second = read_line(&mut rest).unwrap();
    assert!(first.contains("truncated by Axolotl"));
    assert!(first.len() <= MAX_SERVER_LOG_LINE_BYTES);
    assert_eq!(second, "next\n");
    assert!(read_line(&mut rest).is_none());
}

#[test]
fn short_log_line_is_returned_whole_across_chunks() {
    let mut reader = BoundedLineReader::new();
    assert_eq!(reader.feed(b"ab"), (2, false));
    assert_eq!(reader.feed(b"c\nrest"), (2, true));
    assert_eq!(reader.finish(), b"abc\n".to_vec());
}

#[test]
fn strip_ansi_is_idempotent_and_drops_stray_escapes() {
    let once = strip_ansi("a\u{1b}b\u{1b}[1mc\u{1b}");
    assert_eq!(once, "abc");
    assert_eq!(strip_ansi(&once), once);
    assert_eq!(strip_ansi("\u{1b}[unterminated"), "nterminated");
    assert_eq!(strip_ansi("\u{1b}[12;34"), "");
}

#[test]
fn pty_split_keeps_every_byte_within_bounds() {
    let mut pending = b"ab".to_vec();
    let lines = take_complete_pty_lines(&mut pending, b"c\nd\r\ne");
    let mut joined: Vec<u8> = lines.concat();
    joined.extend_from_slice(&pending);
    assert_eq!(joined, b"abc\nd\r\ne".to_vec());
}

#[test]
fn console_lines_are_filtered_and_jna_hint_is_emitted_once() {
    let mut emitted = false;
    let jna = "Assertion failed: \"snprintf() output has been truncated\" file dispatch.c";
    let first = process_server_output_line(jna, &mut emitted);
    assert_eq!(first.record.as_deref(), Some(jna));
    assert!(first.emit_jna_hint);
    assert!(emitted);
    let second = process_server_output_line(jna, &mut emitted);
    assert!(!second.emit_jna_hint);

    let mut fresh = false;
    assert!(process_server_output_line("", &mut fresh).record.is_none());
    assert!(process_server_output_line("[11:13:49] [x/INFO]: y", &mut fresh).record.is_none());
    assert!(process_server_output_line("> list", &mut fresh).record.is_none());
    assert_eq!(
        process_server_output_line("\u{1b}[31mDone\u{1b}[0m", &mut fresh).record.as_deref(),
        Some("Done")
    );
}

#[test]
fn tailed_lines_skip_duplicates_and_empty_lines() {
    let buffer = vec!["seen".to_string()];
    assert_eq!(tailed_log_line_to_record("seen\r\n", &buffer), None);
    assert_eq!(tailed_log_line_to_record("\r\n", &buffer), None);
    assert_eq!(
        tailed_log_line_to_record("\u{1b}[32mnew\u{1b}[0m\n", &buffer).as_deref(),
        Some("new")
    );
}

#[test]
fn pty_lines_within_the_bound_lose_no_bytes() {
    let long = vec![b'x'; 200_000];
    let mut pending = long.clone();
    let mut chunk = b"\n".to_vec();
    chunk.extend(vec![b'y'; 150_000]);
    chunk.extend(b"\ntail");
    let lines = take_complete_pty_lines(&mut pending, &chunk);
    let mut joined: Vec<u8> = lines.concat();
    joined.extend(&pending);
    let mut all = long;
    all.extend(&chunk);
    assert_eq!(joined, all);
    assert_eq!(lines.len(), 2);
    assert_eq!(pending, b"tail".to_vec());
}

#[test]
fn a_long_unterminated_tail_after_a_newline_stays_pending() {
    let mut pending = Vec::new();
    let mut chunk = b"line\n".to_vec();
    chunk.extend(vec![b'z'; 300_000]);
    let lines = take_complete_pty_lines(&mut pending, &chunk);
    assert_eq!(lines, vec![b"line\n".to_vec()]);
    assert_eq!(pending.len(), 300_000);
}
