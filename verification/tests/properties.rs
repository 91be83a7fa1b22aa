use papergrid::{
    default_cell_style, AlignmentHorizontal, CellOption, Entity, Grid, MinWidth, Settings,
    Truncate, Wrap,
};

fn sample_grid(rows: usize, cols: usize) -> Grid {
    let mut grid = Grid::new(rows, cols);
    grid.set_cell_borders(default_cell_style());
    for row in 0..rows {
        for column in 0..cols {
            let text = format!("{}-{}", row, column);
            grid.set(&Entity::Cell(row, column), Settings::new().text(&text));
        }
    }
    grid
}

#[test]
fn every_printed_line_has_the_total_width() {
    let mut grid = sample_grid(3, 3);
    grid.set(&Entity::Cell(0, 0), Settings::new().span(2));
    grid.set(
        &Entity::Cell(2, 1),
        Settings::new().text("a longer cell value"),
    );

    let rendered = grid.render();
    let widths: Vec<usize> = rendered.lines().map(|l| l.chars().count()).collect();
    assert!(!widths.is_empty());
    for w in &widths {
        assert_eq!(*w, widths[0]);
    }
}

#[test]
fn extract_of_everything_renders_the_same() {
    let mut grid = sample_grid(3, 2);
    grid.set(&Entity::Cell(1, 0), Settings::new().span(2));
    grid.set(
        &Entity::Cell(2, 1),
        Settings::new()
            .text("wide")
            .alignment(AlignmentHorizontal::Center),
    );

    let copy = grid.extract(0, 3, 0, 2);
    assert_eq!(copy.render(), grid.render());
}

#[test]
fn rows_sharing_a_span_range_render_equal_widths() {
    let mut grid = sample_grid(2, 2);
    grid.set(&Entity::Cell(0, 0), Settings::new().text("top").span(2));
    grid.set(&Entity::Cell(1, 0), Settings::new().text("low"));
    grid.set(&Entity::Cell(1, 1), Settings::new().text("levels"));

    let rendered = grid.render();
    let lines: Vec<&str> = rendered.lines().collect();
    let top_row = lines[1];
    let bottom_row = lines[3];
    assert_eq!(top_row.chars().count(), bottom_row.chars().count());
}

#[test]
fn zero_span_cell_is_left_out_of_width_accounting() {
    let mut grid = sample_grid(2, 2);
    grid.set(
        &Entity::Cell(0, 1),
        Settings::new().text("this cell takes no space").span(0),
    );

    let expected = "+---+---+\n|0-0    |\n+---+---+\n|1-0|1-1|\n+---+---+\n";
    assert_eq!(expected, grid.render());
}

#[test]
fn zero_span_row_occupies_one_printed_line() {
    let mut grid = sample_grid(2, 2);
    grid.set(&Entity::Cell(0, 0), Settings::new().span(0));
    grid.set(&Entity::Cell(0, 1), Settings::new().span(0));

    let rendered = grid.render();
    let lines: Vec<&str> = rendered.lines().collect();
    assert_eq!(lines.len(), 5);
    assert_eq!(lines[0], lines[2]);
    assert_eq!(lines[2], lines[4]);
}

#[test]
fn truncate_cuts_and_appends_the_suffix() {
    let mut grid = sample_grid(1, 1);
    grid.set(&Entity::Cell(0, 0), Settings::new().text("Hello World!"));

    let mut tr = Truncate::new(3).suffix("...");
    tr.change_cell(&mut grid, 0, 0);

    assert_eq!(grid.get_cell_content(0, 0), "Hel...");
}

#[test]
fn truncate_leaves_short_content_whole() {
    let mut grid = sample_grid(1, 1);
    grid.set(&Entity::Cell(0, 0), Settings::new().text("ok"));

    let mut tr = Truncate::new(3).suffix("...");
    tr.change_cell(&mut grid, 0, 0);

    assert_eq!(grid.get_cell_content(0, 0), "ok");
}

#[test]
fn wrap_splits_at_the_width() {
    let mut grid = sample_grid(1, 1);
    grid.set(&Entity::Cell(0, 0), Settings::new().text("Hello World!"));

    let mut wr = Wrap::new(3);
    wr.change_cell(&mut grid, 0, 0);

    assert_eq!(grid.get_cell_content(0, 0), "Hel\nlo \nWor\nld!");
}

#[test]
fn wrap_keeping_words_moves_a_started_word() {
    let mut grid = sample_grid(1, 1);
    grid.set(&Entity::Cell(0, 0), Settings::new().text("hi you"));

    let mut wr = Wrap::new(4).keep_words();
    wr.change_cell(&mut grid, 0, 0);

    assert_eq!(grid.get_cell_content(0, 0), "hi \nyou");
}

#[test]
fn min_width_pads_narrow_lines() {
    let mut grid = sample_grid(1, 1);
    grid.set(&Entity::Cell(0, 0), Settings::new().text("abc"));

    let mut mw = MinWidth::new(5).fill_with('_');
    mw.change_cell(&mut grid, 0, 0);

    assert_eq!(grid.get_cell_content(0, 0), "abc__");
}

#[test]
fn override_split_line_replaces_leading_characters() {
    let mut grid = sample_grid(2, 2);
    grid.override_split_line(0, " Title ");

    let rendered = grid.render();
    let first = rendered.lines().next().unwrap();
    assert_eq!(first, " Title -+");
}

#[test]
fn total_width_matches_the_printed_lines() {
    let mut grid = sample_grid(2, 3);
    grid.set(&Entity::Cell(0, 1), Settings::new().text("widest cell"));

    let rendered = grid.render();
    let first = rendered.lines().next().unwrap();
    assert_eq!(grid.total_width(), first.chars().count());
}

#[test]
fn lines_align_to_the_cell_by_default() {
    let mut grid = sample_grid(1, 1);
    grid.set(
        &Entity::Cell(0, 0),
        Settings::new()
            .text("aa\nb")
            .alignment(AlignmentHorizontal::Right),
    );

    assert_eq!(grid.render(), "+--+\n|aa|\n|b |\n+--+\n");
}

#[test]
fn lines_align_to_the_column_when_asked() {
    let mut grid = sample_grid(1, 1);
    grid.set(
        &Entity::Cell(0, 0),
        Settings::new()
            .text("aa\nb")
            .alignment(AlignmentHorizontal::Right)
            .formatting(papergrid::Formatting {
                horizontal_trim: false,
                vertical_trim: false,
                allow_lines_alignement: true,
                tab_width: 4,
            }),
    );

    assert_eq!(grid.render(), "+--+\n|aa|\n| b|\n+--+\n");
}

#[test]
fn vertical_trim_drops_blank_edge_lines() {
    let mut grid = sample_grid(1, 2);
    grid.set(
        &Entity::Cell(0, 0),
        Settings::new().text("\nx\n").formatting(papergrid::Formatting {
            horizontal_trim: false,
            vertical_trim: true,
            allow_lines_alignement: false,
            tab_width: 4,
        }),
    );
    grid.set(&Entity::Cell(0, 1), Settings::new().text("a\nb\nc"));

    assert_eq!(grid.render(), "+-+-+\n|x|a|\n| |b|\n| |c|\n+-+-+\n");
}

#[test]
fn horizontal_trim_strips_each_line() {
    let mut grid = sample_grid(1, 1);
    grid.set(
        &Entity::Cell(0, 0),
        Settings::new().text(" hi ").formatting(papergrid::Formatting {
            horizontal_trim: true,
            vertical_trim: false,
            allow_lines_alignement: false,
            tab_width: 4,
        }),
    );

    assert_eq!(grid.render(), "+----+\n|hi  |\n+----+\n");
}

#[test]
fn margins_wrap_the_whole_block() {
    let mut grid = sample_grid(1, 1);
    grid.margin(papergrid::Margin {
        top: papergrid::Indent::new(1, '^'),
        bottom: papergrid::Indent::new(1, 'v'),
        left: papergrid::Indent::new(1, '>'),
        right: papergrid::Indent::new(1, '<'),
    });

    assert_eq!(
        grid.render(),
        "^^^^^^^\n>+---+<\n>|0-0|<\n>+---+<\nvvvvvvv\n"
    );
}

#[test]
fn tabs_become_spaces_when_rendered() {
    let mut grid = sample_grid(1, 1);
    grid.set(&Entity::Cell(0, 0), Settings::new().text("\tx"));

    assert_eq!(grid.render(), "+-----+\n|    x|\n+-----+\n");
}

#[test]
fn extract_a_column() {
    let grid = sample_grid(3, 3);
    let column = grid.extract(0, 3, 0, 1);

    assert_eq!(
        column.render(),
        "+---+\n|0-0|\n+---+\n|1-0|\n+---+\n|2-0|\n+---+\n"
    );
}

#[test]
fn row_text_applies_to_every_cell_of_the_row() {
    let mut grid = sample_grid(2, 2);
    grid.set(&Entity::Row(0), Settings::new().text("row 1"));

    assert_eq!(
        grid.render(),
        "+-----+-----+\n|row 1|row 1|\n+-----+-----+\n|1-0  |1-1  |\n+-----+-----+\n"
    );
}

#[test]
fn cell_lookup_prefers_column_over_row() {
    let mut grid = sample_grid(1, 2);
    grid.set(
        &Entity::Row(0),
        Settings::new().alignment(AlignmentHorizontal::Center),
    );
    grid.set(
        &Entity::Column(0),
        Settings::new().alignment(AlignmentHorizontal::Right),
    );

    assert_eq!(
        grid.style(&Entity::Cell(0, 0)).alignment_h,
        AlignmentHorizontal::Right
    );
    assert_eq!(
        grid.style(&Entity::Cell(0, 1)).alignment_h,
        AlignmentHorizontal::Center
    );
}

#[test]
fn materialized_override_ignores_later_global_updates() {
    let mut grid = sample_grid(1, 2);
    grid.set(&Entity::Cell(0, 0), Settings::new().span(1));
    grid.set(
        &Entity::Global,
        Settings::new().alignment(AlignmentHorizontal::Right),
    );

    assert_eq!(
        grid.style(&Entity::Cell(0, 0)).alignment_h,
        AlignmentHorizontal::Left
    );
    assert_eq!(
        grid.style(&Entity::Cell(0, 1)).alignment_h,
        AlignmentHorizontal::Right
    );
}

#[test]
fn get_border_reads_back_what_was_drawn() {
    let mut grid = sample_grid(2, 2);
    let border = grid.get_border(0, 0);
    assert_eq!(border, default_cell_style());
}

#[test]
fn row_width_counts_cells_and_their_splits() {
    let grid = sample_grid(1, 2);
    assert_eq!(grid.row_width(0), 7);
}

#[test]
fn cleared_override_lines_render_normally() {
    let mut grid = sample_grid(1, 1);
    grid.override_split_line(0, "##");
    grid.clear_overide_split_lines();

    assert_eq!(grid.render(), "+---+\n|0-0|\n+---+\n");
}

#[test]
fn margin_option_applies_to_the_grid() {
    let mut grid = sample_grid(1, 1);
    let mut option = papergrid::margin::Margin::new(1, 1, 0, 0).set_fill('>', '<', '^', 'v');
    papergrid::TableOption::change(&mut option, &mut grid);

    assert_eq!(grid.render(), ">+---+<\n>|0-0|<\n>+---+<\n");
}
