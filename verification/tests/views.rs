use lib::cellular::Rule;
use lib::checksums::crc32;
use lib::link_graph::Criterion;
use lib::view::{HeatmapCells, HeatmapView, Severity, StepSeries, TableCell, TableView, ViewPrimitive};
use lib::{checksum_inspector, emergence, frame_builder, invariant_checker, link_graph, tla, vcd, vcd_capture};

fn cell(text: &str, status: Option<Severity>) -> TableCell {
    TableCell { text: text.to_string(), status }
}

fn table_of(p: &ViewPrimitive) -> &TableView {
    match p {
        ViewPrimitive::Table(t) => t,
        other => panic!("expected a table, got {other:?}"),
    }
}

#[test]
fn checksum_inspector_flags_exactly_the_rotating_frame() {
    let v = checksum_inspector::render(checksum_inspector::encode_state(2)).unwrap();
    let t = table_of(&v[0]);
    assert_eq!(t.headers, vec!["Frame", "Bytes (hex)", "CRC-32", "Status"]);
    assert_eq!(t.rows.len(), 8);
    for (i, row) in t.rows.iter().enumerate() {
        let crc = crc32(&checksum_inspector::synthetic_payload(i));
        assert_eq!(row[0], cell(&format!("frame-{i:02}"), None));
        assert_eq!(row[2], cell(&format!("{crc:08x}"), None));
        if i == 2 {
            assert_eq!(row[3], cell(&format!("mismatch (got {:08x})", crc ^ 1), Some(Severity::Error)));
        } else {
            assert_eq!(row[3], cell("ok", Some(Severity::Info)));
        }
    }
    assert_eq!(t.rows[0][1], cell("07 18 29 3a 4b 5c 6d 7e", None));
    let (next, v2) = checksum_inspector::handle_command(checksum_inspector::encode_state(7), "\0tick".to_string()).unwrap();
    assert_eq!(next, checksum_inspector::encode_state(8));
    assert_eq!(table_of(&v2[0]).rows[0][3].status, Some(Severity::Error));
    assert_eq!(
        checksum_inspector::handle_command(checksum_inspector::encode_state(0), "zoom".to_string()).unwrap_err(),
        "unknown command: \"zoom\" (this view has no commands)"
    );
    assert_eq!(checksum_inspector::render(vec![1, 2, 3]).unwrap_err(), "corrupt view-state: expected 8 bytes, got 3");
}

const BLINKER: &str = "width,5\nheight,5\nbirth,3\nsurvive,2,3\ncell,1,2\ncell,2,2\ncell,3,2\n";

#[test]
fn emergence_state_holds_the_pattern_and_each_tick_is_one_generation() {
    let state = emergence::init_state(Some(BLINKER)).unwrap();
    assert_eq!(&state[..16], &[5, 0, 0, 0, 5, 0, 0, 0, 8, 0, 12, 0, 0, 0, 0, 0]);
    assert_eq!(state.len(), 16 + 25);
    assert_eq!(&state[16 + 11..16 + 14], &[1, 1, 1]);
    let v = emergence::render(state.clone()).unwrap();
    assert_eq!(v.len(), 2);
    let summary = table_of(&v[1]);
    assert_eq!(summary.rows[0], vec![cell("0", None), cell("3", None), cell("5x5", None)]);
    let (next, v2) = emergence::handle_command(state, "\0tick".to_string()).unwrap();
    assert_eq!(&next[12..16], &[1, 0, 0, 0]);
    let vertical: Vec<u8> = (0..25).map(|i| if i % 5 == 2 && (1..4).contains(&(i / 5)) { 1 } else { 0 }).collect();
    assert_eq!(&next[16..], &vertical[..]);
    match &v2[0] {
        ViewPrimitive::Heatmap(HeatmapView { width: 5, height: 5, cells: HeatmapCells::Rgb(rgb) }) => {
            assert_eq!(rgb.len(), 75);
            assert_eq!(&rgb[(5 + 2) * 3..(5 + 2) * 3 + 3], &[0, 180, 90]);
            assert_eq!(&rgb[0..3], &[255, 255, 255]);
        },
        other => panic!("expected the board heatmap, got {other:?}"),
    }
    assert_eq!(table_of(&v2[1]).rows[0][0], cell("1", None));
}

#[test]
fn emergence_without_a_pattern_shows_the_placeholder_and_refuses_commands() {
    let empty = emergence::init_state(None).unwrap();
    assert_eq!(empty, vec![0, 0, 0, 0, 0, 0, 0, 0, 8, 0, 12, 0, 0, 0, 0, 0]);
    let v = emergence::render(empty.clone()).unwrap();
    assert_eq!(table_of(&v[0]).rows[0][0].text, "no .ca-pattern file found in this project");
    assert_eq!(
        emergence::handle_command(empty, "\0tick".to_string()).unwrap_err(),
        "unknown command: \"\\0tick\" (no .ca-pattern file found)"
    );
    assert_eq!(emergence::render(vec![0; 3]).unwrap_err(), "view state too short");
    assert_eq!(emergence::render(vec![1, 0, 0, 0, 1, 0, 0, 0, 0, 0, 0, 0, 0, 0, 0, 0]).unwrap_err(), "view state cell data length mismatch");
    let state = emergence::init_state(Some(BLINKER)).unwrap();
    assert_eq!(
        emergence::handle_command(state, "go".to_string()).unwrap_err(),
        "unknown command: \"go\" (this view only supports live-refresh ticks \u{2014} press F5)"
    );
    assert!(emergence::init_state(Some("width,5\n")).is_err());
}

#[test]
fn emergence_rule_masks_round_trip_through_their_bits() {
    let life = Rule::life();
    assert_eq!(emergence::mask_to_u16(&life.birth), 0b1000);
    assert_eq!(emergence::mask_to_u16(&life.survive), 0b1100);
    assert_eq!(emergence::u16_to_mask(emergence::mask_to_u16(&life.survive)), life.survive);
    assert_eq!(emergence::u16_to_mask(0xFE01), [true, false, false, false, false, false, false, false, false]);
}

#[test]
fn tla_view_toggles_between_trace_and_graph() {
    let s = tla::init_state();
    let v = tla::render(s.clone());
    match &v[0] {
        ViewPrimitive::Trace(t) => {
            assert_eq!(t.steps.len(), 6);
            assert_eq!(t.steps[0].state_label, "Init");
            assert_eq!(t.steps[0].action_label, None);
            assert_eq!(t.steps[5].action_label.as_deref(), Some("Enter"));
        },
        other => panic!("expected the trace, got {other:?}"),
    }
    let (s2, v2) = tla::handle_command(s, "graph".to_string()).unwrap();
    assert_eq!(s2, vec![1]);
    match &v2[0] {
        ViewPrimitive::StateGraph(g) => {
            assert_eq!(g.nodes.len(), 6);
            assert_eq!(g.edges.len(), 7);
            assert!(g.edges[6].highlighted);
            assert_eq!(g.initial_node_id, "init");
        },
        other => panic!("expected the graph, got {other:?}"),
    }
    let (s3, _) = tla::handle_command(s2, "graph".to_string()).unwrap();
    assert_eq!(s3, vec![0]);
    assert_eq!(tla::handle_command(vec![], "zoom".to_string()).unwrap_err(), "unknown command: \"zoom\" (try \"graph\")");
}

const FORMAT: &str = "\
field,u8,version
field,u16le,seq
checksum,crc32
frame,boot
version=1
seq=0x0102
frame,bad
version=300
seq=1
";

#[test]
fn frame_builder_builds_inspects_and_catches_the_rotating_corruption() {
    let found = Some(("p.frame-format".to_string(), Ok(FORMAT.to_string())));
    let v = frame_builder::render_at(0, found.clone()).unwrap();
    let t = table_of(&v[0]);
    assert_eq!(t.headers, vec!["Frame", "Bytes (hex)", "Checksum"]);
    assert_eq!(t.rows[0][0], cell("boot", None));
    assert_eq!(t.rows[0][2].status, Some(Severity::Error));
    assert!(t.rows[0][2].text.starts_with("mismatch (expected "));
    assert_eq!(t.rows[1][0], cell("bad", None));
    assert_eq!(t.rows[1][2], cell("-", None));
    assert_eq!(t.rows[1][1].status, Some(Severity::Error));
    assert!(t.rows[1][1].text.starts_with("build failed: field \"version\""));
    let v1 = frame_builder::render_at(1, found.clone()).unwrap();
    assert_eq!(table_of(&v1[0]).rows[0][2], cell("ok", Some(Severity::Info)));
    assert!(table_of(&v1[0]).rows[0][1].text.starts_with("01 02 01 "));
    let (s, _) = frame_builder::handle_command(frame_builder::encode_state(0), "\0tick".to_string(), found.clone()).unwrap();
    assert_eq!(s, frame_builder::encode_state(1));
    assert_eq!(frame_builder::render(frame_builder::encode_state(1), found).unwrap(), v1);
    let none = frame_builder::render_at(0, None).unwrap();
    assert_eq!(table_of(&none[0]).rows[0][0].text, "no .frame-format file found in this project");
    let empty = frame_builder::render_at(0, Some(("a.frame-format".to_string(), Ok("field,u8,x\nchecksum,crc32\n".to_string())))).unwrap();
    assert_eq!(table_of(&empty[0]).rows[0][0].text, "a.frame-format: no frames declared");
    assert_eq!(frame_builder::render_at(0, Some(("a".to_string(), Err("denied".to_string())))).unwrap_err(), "denied");
}

#[test]
fn invariant_checker_lists_every_invariant_of_every_readable_file() {
    let files = vec![
        ("a.invariants".to_string(), Some("Mutex|violated|two in Critical\nLive|holds|progress\n".to_string())),
        ("b.invariants".to_string(), None),
        ("c.invariants".to_string(), Some("bad line\n".to_string())),
    ];
    let p = invariant_checker::build_table(&files);
    let t = table_of(&p);
    assert_eq!(t.headers, vec!["File", "Invariant", "Status", "Description"]);
    assert_eq!(t.rows.len(), 3);
    assert_eq!(t.rows[0], vec![
        cell("a.invariants", None),
        cell("Mutex", None),
        cell("violated", Some(Severity::Error)),
        cell("two in Critical", None),
    ]);
    assert_eq!(t.rows[1][2], cell("holds", Some(Severity::Info)));
    assert_eq!(t.rows[2][1], cell("(parse error)", None));
    assert_eq!(t.rows[2][2], cell("error", Some(Severity::Error)));
    assert!(t.rows[2][3].text.starts_with("line 1: "));
    assert_eq!(
        invariant_checker::handle_command(vec![], "x".to_string()).unwrap_err(),
        "unknown command: \"x\" (this view is static, no commands)"
    );
}

const VCD: &str = "\
$timescale 1 ns $end
$var wire 1 ! clk $end
$var wire 2 \" count $end
$enddefinitions $end
#0
0!
b00 \"
#5
1!
#10
0!
b01 \"
";

#[test]
fn vcd_capture_charts_scalar_signals_as_steps_and_tabulates_every_signal() {
    let capture = vcd::parse(VCD).unwrap();
    let v = vcd_capture::build_primitives(&capture);
    match &v[0] {
        ViewPrimitive::StepChart(series) => {
            assert_eq!(series.len(), 1);
            assert_eq!(series[0], StepSeries {
                name: "clk".to_string(),
                points: vec![(0, 0), (5, 0), (5, 1), (10, 1), (10, 0), (10, 0)],
            });
        },
        other => panic!("expected the chart, got {other:?}"),
    }
    let t = table_of(&v[1]);
    assert_eq!(t.headers, vec!["Signal", "Width", "Transitions"]);
    assert_eq!(t.rows[0], vec![cell("clk", None), cell("1 bit(s)", None), cell("3", None)]);
    assert_eq!(t.rows[1], vec![cell("count", None), cell("2 bit(s)", None), cell("2", None)]);
    assert_eq!(vcd_capture::step_points(&[(3, "1")], 9, 4), vec![(3, 5), (9, 5)]);
    assert_eq!(vcd_capture::step_points(&[(12, "x")], 9, 0), vec![(12, 0), (12, 0)]);
    let (s, v2) = vcd_capture::handle_command(vec![7], "\0tick".to_string(), Some(("c.vcd".to_string(), Ok(VCD.to_string())))).unwrap();
    assert_eq!(s, vec![7]);
    assert_eq!(v2, v);
    assert_eq!(
        vcd_capture::handle_command(vec![], "zoom".to_string(), None).unwrap_err(),
        "unknown command: \"zoom\" (this view only supports live-refresh, F5)"
    );
}

#[test]
fn link_graph_nodes_and_objectives() {
    let links = vec![
        ("a".to_string(), "b".to_string()),
        ("b".to_string(), "c".to_string()),
        ("a".to_string(), "c".to_string()),
    ];
    assert_eq!(link_graph::nodes(&links), vec!["a", "b", "c"]);
    assert_eq!(Criterion::from_byte(Criterion::Reliability.to_byte()), Criterion::Reliability);
    assert_eq!(Criterion::from_byte(9), Criterion::Latency);
    assert_eq!(Criterion::Bandwidth.label(), "widest-bandwidth");
    assert_eq!(link_graph::init_state(), vec![0]);
    assert_eq!(link_graph::handle_command(vec![2], "\0tick"), Ok((vec![2], Criterion::Reliability)));
    assert_eq!(link_graph::handle_command(vec![2], "bandwidth"), Ok((vec![1], Criterion::Bandwidth)));
    assert_eq!(
        link_graph::handle_command(vec![], "fastest"),
        Err("unknown command: \"fastest\" (try \"latency\", \"bandwidth\", or \"reliability\")".to_string())
    );
}

#[test]
fn frame_builder_knows_which_declarations_it_can_render() {
    let ok = Some(("a.frame-format".to_string(), Ok("field,u8,x\nchecksum,internet-checksum\nframe,f\nx=1\n".to_string())));
    assert!(frame_builder::found_is_buildable(&ok));
    assert!(frame_builder::found_is_buildable(&None));
    assert!(frame_builder::found_is_buildable(&Some(("a".to_string(), Err("denied".to_string())))));
    let split = Some(("a".to_string(), Ok("field,bytes2,x\nchecksum,crc32\nframe,f\nx=a\u{e9}b\n".to_string())));
    assert!(frame_builder::found_is_buildable(&split));
    assert!(frame_builder::render_at(0, split).is_err());
    let words = 65_538;
    let heavy = format!("field,bytes{},x\nchecksum,internet-checksum\nframe,f\nx={}\n", 2 * words, "f".repeat(4 * words));
    let heavy = Some(("a".to_string(), Ok(heavy)));
    assert!(frame_builder::found_is_buildable(&heavy));
    assert!(frame_builder::render_at(0, heavy).is_ok());
}

#[test]
fn emergence_refuses_a_state_whose_size_overflows_32_bits() {
    let bytes = [0xFF, 0xFF, 0xFF, 0xFF, 2, 0, 0, 0, 0, 0, 0, 0, 0, 0, 0, 0];
    assert_eq!(emergence::decode_state(&bytes).unwrap_err(), "view state cell data length mismatch");
    assert_eq!(emergence::render(bytes.to_vec()).unwrap_err(), "view state cell data length mismatch");
}
