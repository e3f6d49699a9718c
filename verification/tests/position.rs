use arduino_arcade::game::position::Position;
use arduino_arcade::game::sokoban::LevelPosition;

#[test]
fn new_packs_column_and_row() {
    let p = Position::new(5, 1);
    assert_eq!(p.column(), 5);
    assert_eq!(p.row(), 1);
}

#[test]
fn new_keeps_only_low_bits() {
    let p = Position::new(0x1f, 3);
    assert_eq!(p.column(), 15);
    assert_eq!(p.row(), 1);
}

#[test]
fn level_position_has_two_row_bits() {
    let p = LevelPosition::new(9, 3);
    assert_eq!(p.column(), 9);
    assert_eq!(p.row(), 3);
    assert_eq!(LevelPosition::row_mask(), 3);
    assert_eq!(Position::row_mask(), 1);
}

#[test]
fn with_row_and_with_column_change_one_coordinate() {
    let p = Position::new(7, 0);
    let q = p.with_row(1);
    assert_eq!((q.column(), q.row()), (7, 1));
    let r = q.with_column(12);
    assert_eq!((r.column(), r.row()), (12, 1));
}

#[test]
fn position_round_trip_law() {
    for column in 0u8..32 {
        for row in 0u8..4 {
            let p = Position::new(column, row);
            assert!(p.column() <= 15);
            assert_eq!(Position::new(p.column(), p.row()), p);
            assert_eq!(p.with_column(p.column()), p);
            let q = LevelPosition::new(column, row);
            assert!(q.column() <= 15);
            assert_eq!(LevelPosition::new(q.column(), q.row()), q);
            assert_eq!(q.with_column(q.column()), q);
        }
    }
}

#[test]
fn nudge_column_saturating_stops_at_edges() {
    let p = Position::new(14, 1);
    assert_eq!(p.nudge_column_saturating(1).column(), 15);
    assert_eq!(p.nudge_column_saturating(5).column(), 15);
    assert_eq!(p.nudge_column_saturating(-20).column(), 0);
    assert_eq!(p.nudge_column_saturating(-3).column(), 11);
    assert_eq!(p.nudge_column_saturating(-3).row(), 1);
}

#[test]
fn nudge_column_overflowing_reports_leaving_the_screen() {
    let p = Position::new(15, 0);
    let (q, blocked) = p.nudge_column_overflowing(1);
    assert_eq!(q.column(), 15);
    assert!(blocked);
    let (q, blocked) = p.nudge_column_overflowing(-1);
    assert_eq!(q.column(), 14);
    assert!(!blocked);
    let (q, blocked) = Position::new(0, 0).nudge_column_overflowing(-1);
    assert_eq!(q.column(), 0);
    assert!(blocked);
    let (_, blocked) = Position::new(1, 0).nudge_column_overflowing(-2);
    assert!(blocked);
}

#[test]
fn nudge_row_overflowing_keeps_rows_in_range() {
    let p = LevelPosition::new(4, 2);
    let (q, blocked) = p.nudge_row_overflowing(1);
    assert_eq!((q.column(), q.row(), blocked), (4, 3, false));
    let (q, blocked) = p.nudge_row_overflowing(2);
    assert_eq!((q.column(), q.row(), blocked), (4, 3, true));
    let (q, blocked) = p.nudge_row_overflowing(-2);
    assert_eq!((q.row(), blocked), (0, false));
    let (q, blocked) = p.nudge_row_overflowing(-3);
    assert_eq!((q.row(), blocked), (0, true));
    assert_eq!(p.nudge_row_saturating(-1).row(), 1);
}
