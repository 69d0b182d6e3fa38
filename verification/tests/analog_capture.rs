use lib::analog_capture::{
    decode_state, encode_state, missing_capture_text, parse_command, select_stream, stream_query_matches,
    ManualPoint, PaneCommand, ViewState,
};
use lib::waveform::parse_table;

#[test]
fn stream_query_matches_the_bare_stem_the_tasks_panel_actually_shows() {
    assert!(stream_query_matches("primary.analog-capture", "primary"));
    assert!(stream_query_matches("some/dir/primary.analog-capture", "primary"));
}

#[test]
fn stream_query_matches_the_full_filename_too() {
    assert!(stream_query_matches("primary.analog-capture", "primary.analog-capture"));
    assert!(stream_query_matches("some/dir/primary.analog-capture", "primary.analog-capture"));
}

#[test]
fn stream_query_rejects_an_unrelated_or_partial_name() {
    assert!(!stream_query_matches("primary.analog-capture", "prim"));
    assert!(!stream_query_matches("primary.analog-capture", "vertex"));
    assert!(!stream_query_matches("primary.analog-capture", "primary.analog-captur"));
}

#[test]
fn stream_query_matches_a_trailing_path_and_a_stem_without_extension() {
    assert!(stream_query_matches("a/b/c.analog-capture", "b/c.analog-capture"));
    assert!(stream_query_matches("a/b/plain", "plain"));
    assert!(!stream_query_matches("a/b/c.analog-capture", "b/c"));
    assert!(!stream_query_matches("ab.analog-capture", "b.analog-capture"));
}

#[test]
fn select_stream_picks_the_first_match_or_the_first_file() {
    let paths = vec!["bt.analog-capture".to_string(), "x/eth.analog-capture".to_string(), "eth.analog-capture".to_string()];
    assert_eq!(select_stream(&paths, Some("eth")), Ok(Some("x/eth.analog-capture".to_string())));
    assert_eq!(select_stream(&paths, None), Ok(Some("bt.analog-capture".to_string())));
    assert_eq!(select_stream(&[], None), Ok(None));
    assert_eq!(
        select_stream(&paths[..1], Some("wifi")),
        Err("stream \"wifi\" not found among current .analog-capture files: [\"bt.analog-capture\"]".to_string())
    );
}

#[test]
fn missing_capture_text_names_the_pinned_stream() {
    assert_eq!(missing_capture_text(None), "no .analog-capture file found in this project");
    assert_eq!(missing_capture_text(Some("eth")), "no .analog-capture file matching \"eth\" found in this project");
}

#[test]
fn pane_commands_read_as_the_tick_a_pin_or_a_value() {
    assert_eq!(parse_command("\0tick"), Ok(PaneCommand::Tick));
    assert_eq!(parse_command("stream:  eth  "), Ok(PaneCommand::Stream(Some("eth".to_string()))));
    assert_eq!(parse_command("stream: -"), Ok(PaneCommand::Stream(None)));
    assert_eq!(parse_command("stream:"), Ok(PaneCommand::Stream(None)));
    assert_eq!(
        parse_command("value: ch1 0.5  -2"),
        Ok(PaneCommand::Value("ch1".to_string(), "0.5".to_string(), "-2".to_string()))
    );
    assert_eq!(parse_command("value: ch1 0.5"), Err("usage: value: <channel> <x> <y>".to_string()));
    assert_eq!(
        parse_command("zoom"),
        Err("unknown command: \"zoom\" (try the tick, \"stream: <filename>\", or \"value: <channel> <x> <y>\")"
            .to_string())
    );
}

#[test]
fn the_session_state_reads_back_what_was_stored() {
    let state = ViewState {
        stream_filter: Some("eth".to_string()),
        manual: vec![
            ManualPoint { channel: "ch1".to_string(), x_bits: 1.5f64.to_bits(), y_bits: (-0.25f64).to_bits() },
            ManualPoint { channel: "çh2".to_string(), x_bits: 0, y_bits: u64::MAX },
        ],
    };
    let bytes = encode_state(&state);
    assert_eq!(&bytes[..8], &[1, 3, 0, 0, 0, b'e', b't', b'h']);
    assert_eq!(decode_state(&bytes), Ok(state));
    let unpinned = ViewState { stream_filter: None, manual: vec![] };
    assert_eq!(encode_state(&unpinned), vec![0, 0, 0, 0, 0]);
    assert_eq!(decode_state(&[]), Ok(unpinned.clone()));
    assert_eq!(decode_state(&[0, 0, 0, 0, 0, 9, 9]), Ok(unpinned));
}

#[test]
fn a_corrupt_session_state_is_refused_with_its_reason() {
    assert_eq!(decode_state(&[0, 1, 0]), Err("corrupt view-state: truncated".to_string()));
    assert_eq!(decode_state(&[1, 5, 0, 0, 0, b'a']), Err("corrupt view-state: truncated string".to_string()));
    assert_eq!(decode_state(&[1, 1, 0, 0, 0, 0xff, 0, 0, 0, 0]), Err("corrupt view-state: invalid utf8".to_string()));
    assert_eq!(
        decode_state(&[0, 1, 0, 0, 0, 1, 0, 0, 0, b'c', 1, 2, 3]),
        Err("corrupt view-state: truncated".to_string())
    );
}

const SAMPLE: &str = "\
time,ch1,ch2
0.0,0.0,1.0
0.5,0.71,0.71
1.0,1.0,0.0
1.5,0.71,-0.71
2.0,0.0,-1.0
";

#[test]
fn parses_header_and_channel_names() {
    let cap = parse_table(SAMPLE).unwrap();
    assert_eq!(cap.time_label, "time");
    assert_eq!(cap.channel_names, vec!["ch1", "ch2"]);
}

#[test]
fn rejects_a_row_with_the_wrong_column_count() {
    let text = "time,ch1,ch2\n0.0,1.0\n";
    let err = parse_table(text).unwrap().malformed.unwrap();
    assert!(err.contains("line 2"));
}

#[test]
fn rejects_a_header_with_no_channels() {
    assert!(parse_table("time\n0.0\n").is_err());
}

#[test]
fn rejects_an_empty_file() {
    assert!(parse_table("").is_err());
}

#[test]
fn the_table_keeps_every_row_with_its_trimmed_cells_and_line_number() {
    let cap = parse_table(SAMPLE).unwrap();
    assert_eq!(cap.rows.len(), 5);
    assert_eq!(cap.rows[1], (3, vec!["0.5".to_string(), "0.71".to_string(), "0.71".to_string()]));
    assert_eq!(cap.malformed, None);
    let spaced = parse_table("\n time , a \n\n 1 , , \n2,3\n").unwrap();
    assert_eq!(spaced.time_label, "time");
    assert_eq!(spaced.channel_names, vec!["a"]);
    assert_eq!(spaced.rows, vec![]);
    assert_eq!(spaced.malformed, Some("line 2: expected 2 column(s), got 3: \" 1 , , \"".to_string()));
}

#[test]
fn table_errors_name_the_problem() {
    assert_eq!(parse_table("  \n\n").unwrap_err(), "empty file: no header row");
    assert_eq!(
        parse_table(" time \n").unwrap_err(),
        "header must have a time column plus at least one channel, got [\"time\"]"
    );
}

#[test]
fn reading_past_the_end_of_a_state_is_a_truncation_error() {
    let mut bytes = Vec::new();
    lib::analog_capture::write_string(&mut bytes, "ch1");
    let mut pos = bytes.len() + 3;
    assert_eq!(lib::analog_capture::read_string(&bytes, &mut pos).unwrap_err(), "corrupt view-state: truncated");
    let mut pos = 0;
    assert_eq!(lib::analog_capture::read_string(&bytes, &mut pos).unwrap(), "ch1");
    assert_eq!(pos, bytes.len());
    let mut far = usize::MAX;
    assert!(lib::analog_capture::read_u64(&bytes, &mut far).is_err());
}
