use lib::color::{hex_color, swatch_heatmap, Rgb};
use lib::declaration::{option_kind, parse_declaration, OptionKind};
use lib::records::{scan_records, scan_topology, LinkRecord};
use lib::view::{HeatmapCells, HeatmapView, ViewPrimitive};

const SURFACE: &str = "\
# a surface
spot, 100
option, put
strike_steps, 5
strike_steps, 7
expiry_steps, +3
";

#[test]
fn a_declaration_keeps_the_last_value_of_each_key() {
    let d = parse_declaration(SURFACE).unwrap();
    assert_eq!(d.pairs.len(), 5);
    assert_eq!(d.get("spot"), Some("100".to_string()));
    assert_eq!(d.get("strike_steps"), Some("7".to_string()));
    assert_eq!(d.get("rate"), None);
    assert_eq!(d.require("rate"), Err("missing \"rate\"".to_string()));
    assert_eq!(d.get_usize("strike_steps"), Ok(7));
    assert_eq!(d.get_usize("expiry_steps"), Ok(3));
    assert_eq!(d.get_usize("spot"), Ok(100));
    assert_eq!(option_kind(&d), Ok(OptionKind::Put));
}

#[test]
fn declaration_errors_name_the_line_or_the_key() {
    assert_eq!(parse_declaration("spot,1\n\njunk\n").unwrap_err(), "line 3: expected \"key,value\", got \"junk\"");
    let d = parse_declaration("option,straddle\nsteps,-1\nbig,99999999999999999999999\n").unwrap();
    assert_eq!(option_kind(&d), Err("unknown option kind \"straddle\" (expected \"call\" or \"put\")".to_string()));
    assert_eq!(d.get_usize("steps"), Err("invalid steps \"-1\"".to_string()));
    assert_eq!(d.get_usize("big"), Err("invalid big \"99999999999999999999999\"".to_string()));
    assert_eq!(option_kind(&parse_declaration("").unwrap()), Err("missing \"option\"".to_string()));
    assert_eq!(option_kind(&parse_declaration("option , call").unwrap()), Ok(OptionKind::Call));
}

#[test]
fn records_are_read_up_to_the_first_malformed_line() {
    let text = "# swatches\nred, 53.2, 80.1, 67.2\n\nbad line\ngreen,1,2,3\n";
    let r = scan_records(text, 4, "label,L,a,b");
    assert_eq!(r.rows, vec![(2, vec!["red".to_string(), "53.2".to_string(), "80.1".to_string(), "67.2".to_string()])]);
    assert_eq!(r.malformed, Some("line 4: expected \"label,L,a,b\", got \"bad line\"".to_string()));
    let clean = scan_records("a,1,2,3\n", 4, "label,L,a,b");
    assert_eq!(clean.rows.len(), 1);
    assert_eq!(clean.malformed, None);
}

#[test]
fn a_topology_reads_links_and_queries() {
    let t = scan_topology("edge, a, b, 100, 5, 0.1\nquery,a,b\n");
    assert_eq!(t.records, vec![
        LinkRecord::Edge(1, "a".into(), "b".into(), "100".into(), "5".into(), "0.1".into()),
        LinkRecord::Query("a".into(), "b".into()),
    ]);
    assert_eq!(t.error, None);
    assert_eq!(scan_topology("query,a,b\n").error, Some("no \"edge,...\" lines declared".to_string()));
    let bad = scan_topology("edge,a,b,1,2,3\nedge,a,b\n");
    assert_eq!(bad.records.len(), 1);
    assert_eq!(
        bad.error,
        Some("line 2: expected \"edge,from,to,bandwidth,latency,loss\" or \"query,from,to\", got \"edge,a,b\"".to_string())
    );
}

#[test]
fn swatches_render_as_colour_bands_and_hex_text() {
    let colors = [Rgb { r: 255, g: 0, b: 10 }, Rgb { r: 1, g: 2, b: 3 }];
    match swatch_heatmap(&colors) {
        ViewPrimitive::Heatmap(HeatmapView { width: 8, height: 2, cells: HeatmapCells::Rgb(bytes) }) => {
            assert_eq!(bytes.len(), 48);
            assert_eq!(&bytes[21..27], &[255, 0, 10, 1, 2, 3]);
        },
        other => panic!("expected a heatmap, got {other:?}"),
    }
    assert_eq!(hex_color(Rgb { r: 255, g: 0, b: 171 }), "#FF00AB");
}
