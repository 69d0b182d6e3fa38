use lib::emulation::{
    bus_tick, frame_block, frame_emulator_seed, initial_bus, max_for_width, next_u64, random_field_text, vcd_header,
    BusState,
};
use lib::frame::{FieldKind, FieldSpec, FrameSpec};
use lib::vcd::parse;

fn step(s: u64) -> u64 {
    let a = s ^ (s << 13);
    let b = a ^ (a >> 7);
    b ^ (b << 17)
}

#[test]
fn next_u64_is_one_xorshift_step() {
    let mut s: u64 = 1;
    assert_eq!(next_u64(&mut s), 0x4082_2041);
    assert_eq!(s, 0x4082_2041);
    let mut t: u64 = 0x6672_616d_655f;
    let v = next_u64(&mut t);
    assert_eq!(v, step(0x6672_616d_655f));
    assert_eq!(frame_emulator_seed(), 0x6672_616d_655f);
}

#[test]
fn max_for_width_covers_the_numeric_widths() {
    assert_eq!(max_for_width(1), 255);
    assert_eq!(max_for_width(2), 65535);
    assert_eq!(max_for_width(4), 4_294_967_295);
    assert_eq!(max_for_width(3), u64::MAX);
}

#[test]
fn random_field_text_fits_or_overflows_the_field() {
    let mut s: u64 = 42;
    let text = random_field_text(FieldKind::U8, &mut s, false);
    assert_eq!(text, (step(42) % 256).to_string());
    assert_eq!(s, step(42));
    let mut s: u64 = 42;
    let over = random_field_text(FieldKind::U16Be, &mut s, true);
    assert_eq!(over, (step(42) % 65536 + 65536).to_string());
    let mut s: u64 = 7;
    let hex = random_field_text(FieldKind::Bytes(3), &mut s, true);
    let (a, b, c) = (step(7), step(step(7)), step(step(step(7))));
    assert_eq!(hex, format!("{:02x}{:02x}{:02x}", a % 256, b % 256, c % 256));
    assert_eq!(s, c);
}

#[test]
fn frame_block_appends_one_line_per_declared_field() {
    let spec = FrameSpec {
        fields: vec![
            FieldSpec { name: "version".to_string(), kind: FieldKind::U8 },
            FieldSpec { name: "id".to_string(), kind: FieldKind::Bytes(2) },
        ],
        checksum: lib::frame::ChecksumKind::Crc32,
    };
    let mut s = frame_emulator_seed();
    let text = frame_block(&spec, 3, &mut s);
    assert!(text.starts_with("\nframe,emulated-3\nversion="));
    let lines: Vec<&str> = text.lines().collect();
    assert_eq!(lines.len(), 4);
    assert!(lines[2].starts_with("version="));
    assert!(lines[3].starts_with("id="));
    assert_eq!(lines[3].len(), 3 + 4);
}

#[test]
fn the_bus_ticks_five_units_and_toggles_the_clock() {
    let mut bus = initial_bus();
    assert_eq!(bus, BusState { rng: 0x564d_5f76_6364, time: 0, clk: false, cs: true, data: false });
    let text = bus_tick(&mut bus);
    let roll = step(0x564d_5f76_6364);
    assert_eq!(bus.time, 5);
    assert!(bus.clk);
    assert_eq!(bus.rng, roll);
    assert_eq!(bus.cs, if roll % 7 == 0 { false } else { true });
    let data = if roll % 20 == 0 { "x".to_string() } else { u8::from(bus.data).to_string() };
    assert_eq!(text, format!("#5\n1!\n{}#\n{}\"\n", u8::from(bus.cs), data));
}

#[test]
fn the_emulated_capture_parses_as_vcd() {
    let mut text = vcd_header();
    let mut bus = initial_bus();
    for _ in 0..40 {
        text.push_str(&bus_tick(&mut bus));
    }
    let vcd = parse(&text).unwrap();
    assert_eq!(vcd.signals.len(), 3);
    assert_eq!(vcd.duration(), 200);
    assert_eq!(vcd.timeline("!").len(), 41);
}
