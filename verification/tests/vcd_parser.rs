use lib::vcd::parse;

const SAMPLE: &str = "\
$date
   2026-08-09
$end
$version
   iderm test fixture
$end
$timescale 1 ns $end
$scope module top $end
$var wire 1 ! clk $end
$var wire 2 \" count $end
$upscope $end
$enddefinitions $end
$dumpvars
0!
b00 \"
$end
#5
1!
#10
0!
b01 \"
#15
1!
#20
0!
b10 \"
#25
1!
#30
0!
b11 \"
";

#[test]
fn parses_the_declared_signals() {
    let vcd = parse(SAMPLE).unwrap();
    assert_eq!(vcd.signals.len(), 2);
    assert_eq!(vcd.signals[0].name, "clk");
    assert_eq!(vcd.signals[0].width, 1);
    assert_eq!(vcd.signals[1].name, "count");
    assert_eq!(vcd.signals[1].width, 2);
}

#[test]
fn parses_the_timescale() {
    let vcd = parse(SAMPLE).unwrap();
    assert_eq!(vcd.timescale, "1 ns");
}

#[test]
fn clock_timeline_alternates_correctly() {
    let vcd = parse(SAMPLE).unwrap();
    let clk = vcd.timeline("!");
    assert_eq!(clk, vec![(0, "0"), (5, "1"), (10, "0"), (15, "1"), (20, "0"), (25, "1"), (30, "0")]);
}

#[test]
fn counter_timeline_shows_the_vector_values() {
    let vcd = parse(SAMPLE).unwrap();
    let count = vcd.timeline("\"");
    assert_eq!(count, vec![(0, "00"), (10, "01"), (20, "10"), (30, "11")]);
}

#[test]
fn duration_is_the_last_time_marker() {
    assert_eq!(parse(SAMPLE).unwrap().duration(), 30);
}

#[test]
fn clean_capture_has_no_unknown_or_high_z_values() {
    assert!(!parse(SAMPLE).unwrap().has_unknown_or_high_z());
}

#[test]
fn detects_an_unknown_scalar_value() {
    let text = "$timescale 1 ns $end\n$var wire 1 ! sig $end\n$enddefinitions $end\n#0\nx!\n";
    assert!(parse(text).unwrap().has_unknown_or_high_z());
}

#[test]
fn detects_an_unknown_value_within_a_vector() {
    let text = "$timescale 1 ns $end\n$var wire 2 # sig $end\n$enddefinitions $end\n#0\nbx0 #\n";
    assert!(parse(text).unwrap().has_unknown_or_high_z());
}

#[test]
fn detects_a_high_z_value_within_a_vector() {
    let text = "$timescale 1 ns $end\n$var wire 2 # sig $end\n$enddefinitions $end\n#0\nb1z #\n";
    assert!(parse(text).unwrap().has_unknown_or_high_z());
}

#[test]
fn duration_of_an_empty_capture_is_zero() {
    let text = "$timescale 1 ns $end\n$var wire 1 ! sig $end\n$enddefinitions $end\n";
    assert_eq!(parse(text).unwrap().duration(), 0);
}

#[test]
fn rejects_a_var_missing_required_fields() {
    let text = "$var wire 1 $end\n$enddefinitions $end\n";
    assert!(parse(text).is_err());
}

#[test]
fn each_error_names_what_went_wrong() {
    assert_eq!(parse("$var wire").unwrap_err(), "$var: truncated (missing size)");
    assert_eq!(parse("$var wire 1").unwrap_err(), "$var: truncated (missing id)");
    assert_eq!(parse("$var wire 1 !").unwrap_err(), "$var: truncated (missing name)");
    assert_eq!(parse("$var wire w ! a $end").unwrap_err(), "$var: invalid size \"w\"");
    assert_eq!(parse("hello").unwrap_err(), "unexpected token in header: \"hello\"");
    assert_eq!(parse("$enddefinitions $end #x").unwrap_err(), "invalid time marker \"#x\"");
    assert_eq!(parse("$enddefinitions $end b01").unwrap_err(), "vector value \"b01\" missing its id");
    assert_eq!(parse("$enddefinitions $end r1.5").unwrap_err(), "real value \"r1.5\" missing its id");
    assert_eq!(parse("$enddefinitions $end 1").unwrap_err(), "malformed scalar value change \"1\"");
}

#[test]
fn real_values_are_kept_as_text_and_times_carry_over() {
    let vcd = parse("$var real 64 % temp $end $enddefinitions #7 r3.25 % 1!").unwrap();
    assert_eq!(vcd.timeline("%"), vec![(7, "3.25")]);
    assert_eq!(vcd.timeline("!"), vec![(7, "1")]);
    assert_eq!(vcd.duration(), 7);
}

#[test]
fn timeline_entries_never_exceed_the_duration() {
    let vcd = parse(SAMPLE).unwrap();
    for id in ["!", "\""] {
        for (t, _) in vcd.timeline(id) {
            assert!(t <= vcd.duration());
        }
    }
}
