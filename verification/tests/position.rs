use chia_compiler::common::position::{Position, PositionRange};

#[test]
fn test_position_new() {
    let pos = Position::new();
    assert_eq!(pos.line, 1);
    assert_eq!(pos.column, 1);
    assert_eq!(pos.index, 0);
}

#[test]
fn test_position_to_string() {
    let pos = Position {
        line: 13,
        column: 23,
        index: 50,
    };
    assert_eq!(
        pos.to_string(),
        format!(
            "(Line: {}, Column: {}, Index: {})",
            pos.line, pos.column, pos.index
        )
    );
    let pos = Position {
        line: 812,
        column: 343,
        index: 903,
    };
    assert_eq!(
        pos.to_string(),
        format!(
            "(Line: {}, Column: {}, Index: {})",
            pos.line, pos.column, pos.index
        )
    );
}

#[test]
fn test_position_range_to_string() {
    let pos1 = Position {
        line: 32,
        column: 43,
        index: 103,
    };
    let pos2 = Position {
        line: 90,
        column: 18,
        index: 190,
    };
    let range = PositionRange {
        start: pos1,
        end: pos2,
    };
    assert_eq!(
        range.to_string(),
        format!(
            "{{Start: {}, End: {}}}",
            range.start.to_string(),
            range.end.to_string()
        )
    );
}

#[test]
fn position_display_is_exact() {
    let pos = Position {
        line: 7,
        column: 10,
        index: 0,
    };
    assert_eq!(pos.to_string(), "(Line: 7, Column: 10, Index: 0)");
    let range = PositionRange {
        start: Position::new(),
        end: pos,
    };
    assert_eq!(
        range.to_string(),
        "{Start: (Line: 1, Column: 1, Index: 0), End: (Line: 7, Column: 10, Index: 0)}"
    );
}
