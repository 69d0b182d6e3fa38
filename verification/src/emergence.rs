//! The emergence view: a cellular-automaton pattern stepped forward one
//! generation per live tick. The running simulation travels in the opaque
//! view state: width, height, the two rule masks as bit sets, the
//! generation and one byte per cell.

use vstd::prelude::*;
use vstd::arithmetic::div_mod::lemma_fundamental_div_mod_converse;
use crate::cellular::{Board, Rule, cells_from_live, count_true, step_cells};
use crate::pattern::{parse_pattern, pattern_spec};
use crate::text::{debug_str, decimal, push_char, push_debug_str, push_decimal, push_str};
use crate::text::lit;
use crate::view::{
    HeatmapCells, HeatmapView, Severity, TableCell, TableView, ViewPrimitive, cell, is_tick, le_at, le_bytes,
    le_value, lemma_le_value_round_trip, message_table, pow256, push_le_bytes, table_view, tick_command,
};

verus! {

// ---------------------------------------------------------------------
// Rule masks as bit sets.
// ---------------------------------------------------------------------

/// A mask read as a number: slot `i` is bit `i`.
pub open spec fn mask_value(m: Seq<bool>) -> nat
    decreases m.len(),
{
    if m.len() == 0 {
        0
    } else {
        (if m[0] { 1nat } else { 0nat }) + 2 * mask_value(m.drop_first())
    }
}

/// `v` shifted right by `i` bits.
pub open spec fn shr(v: nat, i: nat) -> nat
    decreases i,
{
    if i == 0 {
        v
    } else {
        shr(v, (i - 1) as nat) / 2
    }
}

/// Bit `i` of `v`.
pub open spec fn bit(v: nat, i: nat) -> bool {
    shr(v, i) % 2 == 1
}

/// The mask whose slot `i` is bit `i` of `v`, for the nine slots.
pub open spec fn bits_mask(v: nat) -> Seq<bool> {
    Seq::new(9, |i: int| bit(v, i as nat))
}

/// `2^n`.
pub open spec fn two_pow(n: nat) -> nat
    decreases n,
{
    if n == 0 {
        1
    } else {
        2 * two_pow((n - 1) as nat)
    }
}

proof fn lemma_mask_value_bound(m: Seq<bool>)
    ensures
        mask_value(m) < two_pow(m.len()),
    decreases m.len(),
{
    if m.len() > 0 {
        lemma_mask_value_bound(m.drop_first());
    }
}

proof fn lemma_two_pow_nine(n: nat)
    requires
        n <= 9,
    ensures
        two_pow(n) <= 512,
{
    reveal_with_fuel(two_pow, 10);
}

proof fn lemma_shr_mask_value(m: Seq<bool>, i: nat)
    requires
        i <= m.len(),
    ensures
        shr(mask_value(m), i) == mask_value(m.skip(i as int)),
    decreases i,
{
    if i == 0 {
        assert(m.skip(0) =~= m);
    } else {
        lemma_shr_mask_value(m, (i - 1) as nat);
        let s = m.skip(i - 1);
        assert(s.drop_first() =~= m.skip(i as int));
        let b: nat = if s[0] { 1nat } else { 0nat };
        assert((b + 2 * mask_value(s.drop_first())) / 2 == mask_value(s.drop_first())) by (nonlinear_arith)
            requires
                b <= 1,
        ;
    }
}

/// The nine-slot mask as a bit set: slot `i` is bit `i`.
pub fn mask_to_u16(mask: &[bool; 9]) -> (bits: u16)
    ensures
        bits == mask_value(mask@),
{
    let mut acc: u16 = 0;
    let mut i: usize = 9;
    while i > 0
        invariant
            i <= 9,
            mask@.len() == 9,
            acc == mask_value(mask@.skip(i as int)),
        decreases i,
    {
        let s = Ghost(mask@.skip(i - 1));
        assert(s@.drop_first() =~= mask@.skip(i as int));
        assert(s@[0] == mask@[i - 1]);
        proof {
            lemma_mask_value_bound(s@);
            lemma_two_pow_nine(s@.len());
        }
        acc = 2 * acc + if mask[i - 1] { 1 } else { 0 };
        i = i - 1;
    }
    assert(mask@.skip(0) =~= mask@);
    acc
}

/// The nine-slot mask whose slot `i` is bit `i` of `bits`; higher bits
/// are ignored.
pub fn u16_to_mask(bits: u16) -> (mask: [bool; 9])
    ensures
        mask@ == bits_mask(bits as nat),
{
    let mut mask = [false; 9];
    let mut rest: u16 = bits;
    let mut i: usize = 0;
    while i < 9
        invariant
            i <= 9,
            mask@.len() == 9,
            rest == shr(bits as nat, i as nat),
            forall|k: int| 0 <= k < i ==> mask@[k] == bit(bits as nat, k as nat),
        decreases 9 - i,
    {
        mask[i] = rest % 2 == 1;
        rest = rest / 2;
        i = i + 1;
    }
    assert(mask@ =~= bits_mask(bits as nat));
    mask
}

/// Reading back a mask written as a bit set gives the mask.
pub proof fn mask_bits_round_trip(m: Seq<bool>)
    requires
        m.len() == 9,
    ensures
        mask_value(m) < 512,
        bits_mask(mask_value(m)) == m,
{
    lemma_mask_value_bound(m);
    lemma_two_pow_nine(9);
    assert forall|i: int| 0 <= i < 9 implies bit(mask_value(m), i as nat) == m[i] by {
        lemma_shr_mask_value(m, i as nat);
        let s = m.skip(i);
        assert(s[0] == m[i]);
        let b: nat = if s[0] { 1nat } else { 0nat };
        assert((b + 2 * mask_value(s.drop_first())) % 2 == b) by (nonlinear_arith)
            requires
                b <= 1,
        ;
    }
    assert(bits_mask(mask_value(m)) =~= m);
}

// ---------------------------------------------------------------------
// The view state.
// ---------------------------------------------------------------------

/// The byte a cell is kept as.
pub open spec fn cell_byte(alive: bool) -> u8 {
    if alive {
        1
    } else {
        0
    }
}

/// Byte `i` of the window of a board `bw` wide that is `w` cells wide and
/// starts at the top-left corner, read row by row.
pub open spec fn window_byte(cells: Seq<bool>, bw: int, w: int, i: int) -> u8 {
    cell_byte(cells[(i / w) * bw + i % w])
}

/// The `w` x `h` top-left window of a board `bw` wide, one byte per cell.
pub open spec fn window_bytes(cells: Seq<bool>, bw: int, w: int, h: int) -> Seq<u8> {
    Seq::new((w * h) as nat, |i: int| window_byte(cells, bw, w, i))
}

/// A state: width and height (four bytes each), the birth and survive
/// masks (two bytes each), the generation (four bytes), all little-endian,
/// then the cell bytes.
pub open spec fn state_bytes(w: nat, h: nat, birth: nat, survive: nat, g: nat, cells: Seq<u8>) -> Seq<u8> {
    le_bytes(w, 4) + le_bytes(h, 4) + le_bytes(birth, 2) + le_bytes(survive, 2) + le_bytes(g, 4) + cells
}

/// The little-endian field `n` bytes wide at `start`.
pub open spec fn field(b: Seq<u8>, start: int, n: int) -> nat {
    le_value(b.subrange(start, start + n))
}

/// What a state of at least sixteen bytes holds: width, height, birth
/// mask, survive mask, generation, and the cells (alive where the byte is
/// 1).
pub open spec fn state_fields(b: Seq<u8>) -> (nat, nat, Seq<bool>, Seq<bool>, nat, Seq<bool>) {
    (
        field(b, 0, 4),
        field(b, 4, 4),
        bits_mask(field(b, 8, 2)),
        bits_mask(field(b, 10, 2)),
        field(b, 12, 4),
        b.skip(16).map_values(|x: u8| x == 1),
    )
}

/// The state of a `width` x `height` simulation at `generation`; the cells
/// are read from the top-left window of `board` of that size.
pub fn encode_state(width: u32, height: u32, rule: &Rule, generation: u32, board: &Board) -> (bytes: Vec<u8>)
    requires
        board.wf(),
        width <= board.width,
        height <= board.height,
    ensures
        bytes@ == state_bytes(
            width as nat,
            height as nat,
            mask_value(rule.birth@),
            mask_value(rule.survive@),
            generation as nat,
            window_bytes(board.cells(), board.width as int, width as int, height as int),
        ),
{
    let mut bytes: Vec<u8> = Vec::new();
    push_le_bytes(&mut bytes, width as u64, 4);
    push_le_bytes(&mut bytes, height as u64, 4);
    let birth = mask_to_u16(&rule.birth);
    push_le_bytes(&mut bytes, birth as u64, 2);
    let survive = mask_to_u16(&rule.survive);
    push_le_bytes(&mut bytes, survive as u64, 2);
    push_le_bytes(&mut bytes, generation as u64, 4);
    let ghost header = bytes@;
    let ghost cells = board.cells();
    let ghost bw = board.width as int;
    let mut y: u32 = 0;
    while y < height
        invariant
            board.wf(),
            cells == board.cells(),
            bw == board.width,
            width <= board.width,
            height <= board.height,
            y <= height,
            bytes@ == header + Seq::new(
                (y * width) as nat,
                |i: int| window_byte(cells, bw, width as int, i),
            ),
        decreases height - y,
    {
        let mut x: u32 = 0;
        while x < width
            invariant
                board.wf(),
                cells == board.cells(),
                bw == board.width,
                width <= board.width,
                height <= board.height,
                y < height,
                x <= width,
                bytes@ == header + Seq::new(
                    (y * width + x) as nat,
                    |i: int| window_byte(cells, bw, width as int, i),
                ),
            decreases width - x,
        {
            proof {
                assert(y * bw + x < bw * board.height) by (nonlinear_arith)
                    requires
                        x < width <= bw,
                        y < height <= board.height,
                ;
                assert(0 <= y * width) by (nonlinear_arith);
                lemma_fundamental_div_mod_converse(
                    y * width + x,
                    width as int,
                    y as int,
                    x as int,
                );
            }
            let alive = board.get(x as usize, y as usize);
            let ghost before = bytes@;
            bytes.push(if alive { 1 } else { 0 });
            assert(bytes@ =~= header + Seq::new(
                (y * width + x + 1) as nat,
                |i: int| window_byte(cells, bw, width as int, i),
            ));
            x = x + 1;
        }
        assert((y + 1) * width == y * width + width) by (nonlinear_arith);
        y = y + 1;
    }
    assert(Seq::new((height * width) as nat, |i: int| window_byte(cells, bw, width as int, i))
        =~= window_bytes(cells, bw, width as int, height as int)) by {
        assert(height * width == width * height) by (nonlinear_arith);
    }
    bytes
}

/// Why a state cannot be read, if it cannot.
pub open spec fn decode_error(b: Seq<u8>) -> Option<Seq<char>> {
    if b.len() < 16 {
        Some("view state too short"@)
    } else if b.len() - 16 != field(b, 0, 4) * field(b, 4, 4) {
        Some("view state cell data length mismatch"@)
    } else {
        None
    }
}

/// `width`, `height`, `rule`, `generation` and `board` are what the
/// readable state `b` holds.
pub open spec fn decoded_as(b: Seq<u8>, width: u32, height: u32, rule: Rule, generation: u32, board: Board) -> bool {
    &&& state_fields(b) == (
        width as nat,
        height as nat,
        rule.birth@,
        rule.survive@,
        generation as nat,
        board.cells(),
    )
    &&& board.wf()
    &&& board.width == width
    &&& board.height == height
}

proof fn lemma_field_bound(b: Seq<u8>, start: int, n: nat)
    requires
        0 <= start,
        start + n <= b.len(),
        n <= 4,
    ensures
        field(b, start, n as int) < pow256(n),
        pow256(n) <= 0x1_0000_0000,
{
    lemma_le_value_round_trip(b.subrange(start, start + n));
    reveal_with_fuel(pow256, 5);
}

/// Reads a state back: its dimensions, rule, generation and board.
pub fn decode_state(bytes: &[u8]) -> (r: Result<(u32, u32, Rule, u32, Board), String>)
    requires
        bytes@.len() <= isize::MAX,
    ensures
        decode_error(bytes@) matches Some(m) ==> (r matches Err(e) && e@ == m),
        decode_error(bytes@) is None ==> (r matches Ok((w, h, rule, g, board)) && decoded_as(
            bytes@,
            w,
            h,
            rule,
            g,
            board,
        )),
{
    if bytes.len() < 16 {
        return Err(lit("view state too short"));
    }
    proof {
        lemma_field_bound(bytes@, 0, 4);
        lemma_field_bound(bytes@, 4, 4);
        lemma_field_bound(bytes@, 8, 2);
        lemma_field_bound(bytes@, 10, 2);
        lemma_field_bound(bytes@, 12, 4);
        reveal_with_fuel(pow256, 3);
    }
    let width = le_at(bytes, 0, 4) as u32;
    let height = le_at(bytes, 4, 4) as u32;
    let birth = le_at(bytes, 8, 2) as u16;
    let survive = le_at(bytes, 10, 2) as u16;
    let generation = le_at(bytes, 12, 4) as u32;
    assert((width as u64) * (height as u64) <= u64::MAX) by (nonlinear_arith)
        requires
            width <= u32::MAX,
            height <= u32::MAX,
    ;
    let n = (width as u64) * (height as u64);
    let len = bytes.len();
    if ((len - 16) as u64) != n {
        return Err(lit("view state cell data length mismatch"));
    }
    let count = len - 16;
    let mut cells: Vec<bool> = Vec::new();
    let mut i: usize = 0;
    while i < count
        invariant
            len == bytes@.len(),
            count == bytes@.len() - 16,
            i <= count,
            cells@ =~= Seq::new(i as nat, |k: int| bytes@[16 + k] == 1),
        decreases count - i,
    {
        cells.push(bytes[16 + i] == 1);
        i = i + 1;
    }
    let board = Board { width: width as usize, height: height as usize, cells };
    let rule = Rule { birth: u16_to_mask(birth), survive: u16_to_mask(survive) };
    assert(board.cells() =~= bytes@.skip(16).map_values(|x: u8| x == 1));
    Ok((width, height, rule, generation, board))
}

/// Decoding a state written from a whole board gives back its size, its
/// rule, its generation and its cells.
pub proof fn state_round_trip(w: u32, h: u32, rule: Rule, g: u32, cells: Seq<bool>)
    requires
        cells.len() == w * h,
    ensures
        ({
            let b = state_bytes(
                w as nat,
                h as nat,
                mask_value(rule.birth@),
                mask_value(rule.survive@),
                g as nat,
                window_bytes(cells, w as int, w as int, h as int),
            );
            &&& decode_error(b) is None
            &&& state_fields(b) == (w as nat, h as nat, rule.birth@, rule.survive@, g as nat, cells)
        }),
{
    let c = window_bytes(cells, w as int, w as int, h as int);
    lemma_full_window(cells, w as int, h as int);
    mask_bits_round_trip(rule.birth@);
    mask_bits_round_trip(rule.survive@);
    let lw = le_bytes(w as nat, 4);
    let lh = le_bytes(h as nat, 4);
    let lb = le_bytes(mask_value(rule.birth@), 2);
    let ls = le_bytes(mask_value(rule.survive@), 2);
    let lg = le_bytes(g as nat, 4);
    assert(pow256(4) == 0x1_0000_0000 && pow256(2) == 0x1_0000) by {
        reveal_with_fuel(pow256, 5);
    }
    crate::view::lemma_le_round_trip(w as nat, 4);
    crate::view::lemma_le_round_trip(h as nat, 4);
    crate::view::lemma_le_round_trip(mask_value(rule.birth@), 2);
    crate::view::lemma_le_round_trip(mask_value(rule.survive@), 2);
    crate::view::lemma_le_round_trip(g as nat, 4);
    let b = lw + lh + lb + ls + lg + c;
    assert(b.subrange(0, 4) =~= lw);
    assert(b.subrange(4, 8) =~= lh);
    assert(b.subrange(8, 10) =~= lb);
    assert(b.subrange(10, 12) =~= ls);
    assert(b.subrange(12, 16) =~= lg);
    assert(b.skip(16) =~= c);
    assert(c.map_values(|x: u8| x == 1) =~= cells);
}

/// A window as wide and high as the board is all of its cells.
proof fn lemma_full_window(cells: Seq<bool>, w: int, h: int)
    requires
        0 <= w,
        0 <= h,
        cells.len() == w * h,
    ensures
        window_bytes(cells, w, w, h) == cells.map_values(|c: bool| cell_byte(c)),
{
    assert forall|i: int| 0 <= i < w * h implies #[trigger] window_byte(cells, w, w, i) == cell_byte(
        cells[i],
    ) by {
        assert(w > 0) by (nonlinear_arith)
            requires
                0 <= i < w * h,
                0 <= h,
        ;
        assert(i == (i / w) * w + i % w) by (nonlinear_arith)
            requires
                w > 0,
        ;
    }
    assert(window_bytes(cells, w, w, h) =~= cells.map_values(|c: bool| cell_byte(c)));
}

// ---------------------------------------------------------------------
// Rendering.
// ---------------------------------------------------------------------

/// The colour bytes of one cell: green when alive, white when dead.
pub open spec fn pixel(alive: bool) -> Seq<u8> {
    if alive {
        seq![0u8, 180u8, 90u8]
    } else {
        seq![255u8, 255u8, 255u8]
    }
}

/// The colour bytes of `cells`, in order.
pub open spec fn rgb_bytes(cells: Seq<bool>) -> Seq<u8>
    decreases cells.len(),
{
    if cells.len() == 0 {
        Seq::empty()
    } else {
        rgb_bytes(cells.drop_last()) + pixel(cells.last())
    }
}

/// `p` is the `w` x `h` heatmap of `cells`.
pub open spec fn is_board_heatmap(p: ViewPrimitive, w: nat, h: nat, cells: Seq<bool>) -> bool {
    p matches ViewPrimitive::Heatmap(hm) && hm.width == w as u32 && hm.height == h as u32
        && (hm.cells matches HeatmapCells::Rgb(b) && b@ == rgb_bytes(cells))
}

/// `p` is the summary table of a `w` x `h` board with `cells` at
/// generation `g`.
pub open spec fn is_summary_table(p: ViewPrimitive, g: nat, w: nat, h: nat, cells: Seq<bool>) -> bool {
    p matches ViewPrimitive::Table(t) && table_view(t) == (
        seq!["Generation"@, "Live cells"@, "Board"@],
        seq![
            seq![
                (decimal(g), None::<Severity>),
                (decimal(count_true(cells)), None),
                (decimal(w) + seq!['x'] + decimal(h), None),
            ],
        ],
    )
}

/// The heatmap of `board` and a table of its generation, live-cell count
/// and size.
pub fn build_primitives(board: &Board, generation: u32) -> (v: Vec<ViewPrimitive>)
    ensures
        v@.len() == 2,
        is_board_heatmap(v@[0], board.width as nat, board.height as nat, board.cells()),
        is_summary_table(v@[1], generation as nat, board.width as nat, board.height as nat, board.cells()),
{
    let mut bytes: Vec<u8> = Vec::new();
    let mut i: usize = 0;
    while i < board.cells.len()
        invariant
            i <= board.cells@.len(),
            bytes@ == rgb_bytes(board.cells@.take(i as int)),
        decreases board.cells.len() - i,
    {
        assert(board.cells@.take(i + 1).drop_last() =~= board.cells@.take(i as int));
        if board.cells[i] {
            bytes.push(0);
            bytes.push(180);
            bytes.push(90);
        } else {
            bytes.push(255);
            bytes.push(255);
            bytes.push(255);
        }
        assert(bytes@ =~= rgb_bytes(board.cells@.take(i + 1)));
        i = i + 1;
    }
    assert(board.cells@.take(board.cells@.len() as int) =~= board.cells@);
    let heatmap = ViewPrimitive::Heatmap(
        HeatmapView {
            width: #[verifier::truncate] (board.width as u32),
            height: #[verifier::truncate] (board.height as u32),
            cells: HeatmapCells::Rgb(bytes),
        },
    );
    let mut g_text = String::new();
    push_decimal(&mut g_text, generation as u128);
    let mut live_text = String::new();
    push_decimal(&mut live_text, board.live_count() as u128);
    let mut size_text = String::new();
    push_decimal(&mut size_text, board.width as u128);
    push_char(&mut size_text, 'x');
    push_decimal(&mut size_text, board.height as u128);
    assert(size_text@ =~= decimal(board.width as nat) + seq!['x'] + decimal(board.height as nat));
    assert(g_text@ =~= decimal(generation as nat));
    let mut row: Vec<TableCell> = Vec::new();
    row.push(cell(g_text, None));
    row.push(cell(live_text, None));
    row.push(cell(size_text, None));
    assert(crate::view::row_view(row) =~= seq![
        (decimal(generation as nat), None::<Severity>),
        (decimal(count_true(board.cells())), None),
        (decimal(board.width as nat) + seq!['x'] + decimal(board.height as nat), None),
    ]);
    let mut rows: Vec<Vec<TableCell>> = Vec::new();
    rows.push(row);
    let mut headers: Vec<String> = Vec::new();
    headers.push(lit("Generation"));
    headers.push(lit("Live cells"));
    headers.push(lit("Board"));
    let t = TableView { headers, rows };
    assert(table_view(t).0 =~= seq!["Generation"@, "Live cells"@, "Board"@]);
    assert(table_view(t).1 =~= seq![
        seq![
            (decimal(generation as nat), None::<Severity>),
            (decimal(count_true(board.cells())), None),
            (decimal(board.width as nat) + seq!['x'] + decimal(board.height as nat), None),
        ],
    ]);
    let mut v: Vec<ViewPrimitive> = Vec::new();
    v.push(heatmap);
    v.push(ViewPrimitive::Table(t));
    v
}

/// The message shown when the project has no pattern file.
pub open spec fn no_pattern_message() -> Seq<char> {
    "no .ca-pattern file found in this project"@
}

/// `p` is the one-cell table saying that no pattern file was found.
pub open spec fn is_placeholder(p: ViewPrimitive) -> bool {
    p matches ViewPrimitive::Table(t) && table_view(t) == (seq![Seq::<char>::empty()], seq![
        seq![(no_pattern_message(), None::<Severity>)],
    ])
}

/// The placeholder shown when the project has no pattern file.
pub fn placeholder() -> (v: Vec<ViewPrimitive>)
    ensures
        v@.len() == 1,
        is_placeholder(v@[0]),
{
    let mut v: Vec<ViewPrimitive> = Vec::new();
    v.push(message_table(lit("no .ca-pattern file found in this project")));
    v
}

/// The view's identifier.
pub fn view_id() -> (id: String)
    ensures
        id@ == "emergence"@,
{
    lit("emergence")
}

/// The rule whose masks are `birth` and `survive`.
pub open spec fn rule_of(birth: Seq<bool>, survive: Seq<bool>) -> Rule {
    choose|r: Rule| r.birth@ == birth && r.survive@ == survive
}

/// The primitives of a readable state: the placeholder when its width is
/// zero, else the heatmap and summary of its board.
pub fn render(state: Vec<u8>) -> (r: Result<Vec<ViewPrimitive>, String>)
    requires
        state@.len() <= isize::MAX,
    ensures
        decode_error(state@) matches Some(m) ==> (r matches Err(e) && e@ == m),
        decode_error(state@) is None && state_fields(state@).0 == 0 ==> (r matches Ok(v) && v@.len() == 1
            && is_placeholder(v@[0])),
        decode_error(state@) is None && state_fields(state@).0 != 0 ==> (r matches Ok(v) && v@.len() == 2
            && is_board_heatmap(
            v@[0],
            state_fields(state@).0,
            state_fields(state@).1,
            state_fields(state@).5,
        ) && is_summary_table(
            v@[1],
            state_fields(state@).4,
            state_fields(state@).0,
            state_fields(state@).1,
            state_fields(state@).5,
        )),
{
    let (width, _height, _rule, generation, board) = match decode_state(state.as_slice()) {
        Ok(d) => d,
        Err(e) => {
            return Err(e);
        },
    };
    if width == 0 {
        return Ok(placeholder());
    }
    Ok(build_primitives(&board, generation))
}

/// One live tick: the board one generation on, kept in the new state and
/// rendered; any other command, or any command without a pattern, is
/// refused.
pub fn handle_command(state: Vec<u8>, command: String) -> (r: Result<(Vec<u8>, Vec<ViewPrimitive>), String>)
    requires
        state@.len() <= isize::MAX,
        decode_error(state@) is None && state_fields(state@).0 != 0 && command@ == tick_command()
            ==> state_fields(state@).4 < u32::MAX,
    ensures
        decode_error(state@) matches Some(m) ==> (r matches Err(e) && e@ == m),
        decode_error(state@) is None && state_fields(state@).0 == 0 ==> (r matches Err(e) && e@
            == "unknown command: "@ + debug_str(command@) + " (no .ca-pattern file found)"@),
        decode_error(state@) is None && state_fields(state@).0 != 0 && command@ != tick_command() ==> (r matches Err(e)
            && e@ == "unknown command: "@ + debug_str(command@)
            + " (this view only supports live-refresh ticks \u{2014} press F5)"@),
        decode_error(state@) is None && state_fields(state@).0 != 0 && command@ == tick_command() ==> ({
            let f = state_fields(state@);
            let next = step_cells(f.5, f.0 as int, f.1 as int, rule_of(f.2, f.3));
            r matches Ok((s, v)) && s@ == state_bytes(
                f.0,
                f.1,
                mask_value(f.2),
                mask_value(f.3),
                f.4 + 1,
                next.map_values(|c: bool| cell_byte(c)),
            ) && v@.len() == 2 && is_board_heatmap(v@[0], f.0, f.1, next) && is_summary_table(
                v@[1],
                f.4 + 1,
                f.0,
                f.1,
                next,
            )
        }),
{
    let (width, height, rule, generation, board) = match decode_state(state.as_slice()) {
        Ok(d) => d,
        Err(e) => {
            return Err(e);
        },
    };
    if width == 0 {
        let mut e = lit("unknown command: ");
        push_debug_str(&mut e, command.as_str());
        push_str(&mut e, " (no .ca-pattern file found)");
        return Err(e);
    }
    if is_tick(command.as_str()) {
        let next_board = board.step(&rule);
        let next_generation = generation + 1;
        proof {
            let f = state_fields(state@);
            let r2 = rule_of(f.2, f.3);
            assert(r2.birth@ == rule.birth@ && r2.survive@ == rule.survive@);
            assert(step_cells(f.5, f.0 as int, f.1 as int, r2) =~= step_cells(
                board.cells(),
                width as int,
                height as int,
                rule,
            ));
            lemma_full_window(next_board.cells(), width as int, height as int);
        }
        let new_state = encode_state(width, height, &rule, next_generation, &next_board);
        let primitives = build_primitives(&next_board, next_generation);
        return Ok((new_state, primitives));
    }
    let mut e = lit("unknown command: ");
    push_debug_str(&mut e, command.as_str());
    push_str(&mut e, " (this view only supports live-refresh ticks \u{2014} press F5)");
    Err(e)
}

/// The first state: generation zero of the pattern in `pattern`, or the
/// empty state (width zero) when the project has no pattern file.
pub fn init_state(pattern: Option<&str>) -> (r: Result<Vec<u8>, String>)
    requires
        pattern matches Some(text) ==> (pattern_spec(text@) matches Ok(p) ==> p.0 * p.1 <= isize::MAX),
    ensures
        pattern is None ==> (r matches Ok(s) && s@ == state_bytes(
            0,
            0,
            mask_value(crate::cellular::life_rule().birth@),
            mask_value(crate::cellular::life_rule().survive@),
            0,
            Seq::empty(),
        )),
        pattern matches Some(text) ==> (pattern_spec(text@) matches Err(m) ==> (r matches Err(e) && e@ == m)),
        pattern matches Some(text) ==> (pattern_spec(text@) matches Ok(p) ==> (r matches Ok(s) && s@
            == state_bytes(
            (p.0 as u32) as nat,
            (p.1 as u32) as nat,
            mask_value(p.2),
            mask_value(p.3),
            0,
            window_bytes(cells_from_live(p.0, p.1, p.4), p.0 as int, (p.0 as u32) as int, (p.1 as u32) as int),
        ))),
{
    match pattern {
        None => {
            let board = Board::new(0, 0);
            let bytes = encode_state(0, 0, &Rule::life(), 0, &board);
            assert(window_bytes(board.cells(), 0, 0, 0) =~= Seq::<u8>::empty());
            Ok(bytes)
        },
        Some(text) => {
            let (board, rule) = match parse_pattern(text) {
                Ok(p) => p,
                Err(e) => {
                    return Err(e);
                },
            };
            let w = board.width;
            let h = board.height;
            assert((w as u32) as usize <= w) by (bit_vector);
            assert((h as u32) as usize <= h) by (bit_vector);
            Ok(encode_state(w as u32, h as u32, &rule, 0, &board))
        },
    }
}

} // verus!
