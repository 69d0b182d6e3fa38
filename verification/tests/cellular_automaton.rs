use lib::cellular::{simulate_until_stable, Board, Outcome, Rule};

fn sorted(mut cells: Vec<(usize, usize)>) -> Vec<(usize, usize)> {
    cells.sort_unstable();
    cells
}

#[test]
fn block_is_a_still_life() {
    let board = Board::from_live_cells(10, 10, &[(4, 4), (5, 4), (4, 5), (5, 5)]);
    let next = board.step(&Rule::life());
    assert_eq!(next, board);
}

#[test]
fn blinker_oscillates_with_period_two() {
    let horizontal = Board::from_live_cells(10, 10, &[(3, 4), (4, 4), (5, 4)]);
    let vertical = horizontal.step(&Rule::life());
    assert_eq!(sorted(vertical.live_cells()), sorted(vec![(4, 3), (4, 4), (4, 5)]));
    let back_to_horizontal = vertical.step(&Rule::life());
    assert_eq!(back_to_horizontal, horizontal);
}

#[test]
fn glider_translates_by_one_one_every_four_generations() {
    let start = [(1, 0), (2, 1), (0, 2), (1, 2), (2, 2)];
    let board = Board::from_live_cells(20, 20, &start);
    let mut current = board.clone();
    for _ in 0..4 {
        current = current.step(&Rule::life());
    }
    let expected: Vec<(usize, usize)> = start.iter().map(|&(x, y)| (x + 1, y + 1)).collect();
    assert_eq!(sorted(current.live_cells()), sorted(expected));
}

#[test]
fn a_lone_cell_dies_out_after_one_generation() {
    let board = Board::from_live_cells(10, 10, &[(5, 5)]);
    let outcome = simulate_until_stable(&board, &Rule::life(), 20, 8);
    assert_eq!(outcome, Outcome::DiedOut { generation: 1 });
}

#[test]
fn a_block_is_reported_stabilized_at_generation_one_with_period_one() {
    let board = Board::from_live_cells(10, 10, &[(4, 4), (5, 4), (4, 5), (5, 5)]);
    let outcome = simulate_until_stable(&board, &Rule::life(), 20, 8);
    assert_eq!(outcome, Outcome::Stabilized { generation: 1, period: 1 });
}

#[test]
fn a_blinker_is_reported_stabilized_at_generation_two_with_period_two() {
    let board = Board::from_live_cells(10, 10, &[(3, 4), (4, 4), (5, 4)]);
    let outcome = simulate_until_stable(&board, &Rule::life(), 20, 8);
    assert_eq!(outcome, Outcome::Stabilized { generation: 2, period: 2 });
}

#[test]
fn a_glider_on_a_large_board_reads_as_still_evolving_within_a_short_budget() {
    let board = Board::from_live_cells(30, 30, &[(1, 0), (2, 1), (0, 2), (1, 2), (2, 2)]);
    let outcome = simulate_until_stable(&board, &Rule::life(), 20, 8);
    assert_eq!(outcome, Outcome::StillEvolving);
}

#[test]
fn a_blinker_with_a_one_generation_window_reads_as_still_evolving() {
    let board = Board::from_live_cells(10, 10, &[(3, 4), (4, 4), (5, 4)]);
    assert_eq!(simulate_until_stable(&board, &Rule::life(), 20, 1), Outcome::StillEvolving);
    assert_eq!(simulate_until_stable(&board, &Rule::life(), 20, 0), Outcome::StillEvolving);
}

#[test]
fn a_zero_generation_budget_finds_nothing() {
    let board = Board::from_live_cells(10, 10, &[(5, 5)]);
    assert_eq!(simulate_until_stable(&board, &Rule::life(), 0, 8), Outcome::StillEvolving);
}

#[test]
fn neighbours_wrap_around_every_edge() {
    // a blinker straddling the corner of the torus still oscillates.
    let board = Board::from_live_cells(6, 6, &[(5, 0), (0, 0), (1, 0)]);
    let next = board.step(&Rule::life());
    assert_eq!(sorted(next.live_cells()), sorted(vec![(0, 5), (0, 0), (0, 1)]));
}

#[test]
fn live_cells_come_back_in_row_major_order_and_rebuild_the_board() {
    let board = Board::from_live_cells(5, 4, &[(4, 3), (0, 1), (2, 1), (3, 0)]);
    let cells = board.live_cells();
    assert_eq!(cells, vec![(3, 0), (0, 1), (2, 1), (4, 3)]);
    assert_eq!(board.live_count(), cells.len());
    assert_eq!(Board::from_live_cells(5, 4, &cells), board);
}

#[test]
fn from_counts_sets_exactly_the_listed_counts() {
    assert_eq!(Rule::from_counts(&[3]), Rule::life().birth);
    assert_eq!(Rule::from_counts(&[2, 3, 3, 9, 200]), Rule::life().survive);
}

use lib::pattern::parse_pattern;

#[test]
fn parse_pattern_reads_a_real_declaration() {
    let text = "\
# a blinker
width,10
height,10
birth,3
survive,2,3
cell,3,4
cell,4,4
cell,5,4
";
    let (board, rule) = parse_pattern(text).unwrap();
    assert_eq!(board.width, 10);
    assert_eq!(board.height, 10);
    assert_eq!(rule, Rule::life());
    assert_eq!(sorted(board.live_cells()), sorted(vec![(3, 4), (4, 4), (5, 4)]));
}

#[test]
fn parse_pattern_rejects_a_cell_outside_the_board() {
    let text = "width,5\nheight,5\nbirth,3\nsurvive,2,3\ncell,9,9\n";
    let err = parse_pattern(text).unwrap_err();
    assert!(err.contains("outside"), "error should explain the out-of-bounds cell: {err}");
}

#[test]
fn parse_pattern_rejects_a_missing_required_line() {
    let err = parse_pattern("width,5\nheight,5\n").unwrap_err();
    assert!(err.contains("birth"), "error should name the missing line: {err}");
}

#[test]
fn parse_pattern_messages_name_the_line_and_the_problem() {
    assert_eq!(parse_pattern("width,5\nheight,5\nbirth,3\nsurvive,2,3\ncell,9,9\n").unwrap_err(),
        "cell (9, 9) is outside the 5x5 board");
    assert_eq!(parse_pattern("width\n").unwrap_err(), "line 1: width needs a value");
    assert_eq!(parse_pattern("\nwidth, x\n").unwrap_err(), "line 2: invalid width \"x\"");
    assert_eq!(parse_pattern("birth\n").unwrap_err(), "line 1: birth needs at least one value");
    assert_eq!(parse_pattern("survive,2,300\n").unwrap_err(), "line 1: invalid survive value \"300\"");
    assert_eq!(parse_pattern("cell,1\n").unwrap_err(), "line 1: expected \"cell,x,y\", got \"cell,1\"");
    assert_eq!(parse_pattern("cell,1,-2\n").unwrap_err(), "line 1: invalid cell y \"-2\"");
    assert_eq!(parse_pattern("depth,3\n").unwrap_err(), "line 1: unknown tag \"depth\"");
    assert_eq!(parse_pattern("width,5\nheight,5\nbirth,3\n").unwrap_err(), "missing \"survive\" line");
}

#[test]
fn parse_pattern_takes_the_last_value_and_trims_fields() {
    let (board, rule) = parse_pattern(" width , 4 \nwidth,6\nheight,3\nbirth, 1 ,2\nsurvive,8,9\ncell, 5 ,2\n").unwrap();
    assert_eq!((board.width, board.height), (6, 3));
    assert_eq!(rule.birth, [false, true, true, false, false, false, false, false, false]);
    assert_eq!(rule.survive, [false, false, false, false, false, false, false, false, true]);
    assert_eq!(board.live_cells(), vec![(5, 2)]);
}

#[test]
fn live_count_matches_the_number_of_listed_live_cells() {
    let board = Board::from_live_cells(6, 4, &[(0, 0), (5, 3), (2, 1), (2, 1), (3, 2)]);
    assert_eq!(board.live_count(), 4);
    assert_eq!(board.live_cells().len(), board.live_count());
    let stepped = board.step(&Rule::life());
    assert_eq!(stepped.live_cells().len(), stepped.live_count());
}

#[test]
fn a_zero_history_window_compares_with_no_earlier_generation() {
    let block = Board::from_live_cells(10, 10, &[(4, 4), (5, 4), (4, 5), (5, 5)]);
    assert_eq!(simulate_until_stable(&block, &Rule::life(), 20, 0), Outcome::StillEvolving);
    assert_eq!(
        simulate_until_stable(&block, &Rule::life(), 20, 1),
        Outcome::Stabilized { generation: 1, period: 1 }
    );
    let lone = Board::from_live_cells(10, 10, &[(5, 5)]);
    assert_eq!(simulate_until_stable(&lone, &Rule::life(), 20, 0), Outcome::DiedOut { generation: 1 });
}
