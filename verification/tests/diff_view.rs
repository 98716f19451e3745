use syntaxis::diff_view::{
    collapse_unchanged_lines, plain_diff_tokens, trim_diff_line_ending, unified_diff_rows, DiffLine, DiffLineKind,
    DiffRow, DiffSegment,
};

fn rows_for(original: &str, current: &str, old_offset: usize, new_offset: usize, collapse: bool) -> Vec<DiffRow> {
    unified_diff_rows(
        original,
        current,
        &plain_diff_tokens(original),
        &plain_diff_tokens(current),
        old_offset,
        new_offset,
        collapse,
    )
}

fn lines_of(rows: &[DiffRow]) -> Vec<&DiffLine> {
    rows.iter()
        .filter_map(|row| match row {
            DiffRow::Line(line) => Some(line),
            DiffRow::Fold { .. } => None,
        })
        .collect()
}

fn segment(text: &str, emphasized: bool) -> DiffSegment {
    DiffSegment { text: text.into(), emphasized }
}

fn equal_line(n: usize) -> DiffLine {
    DiffLine {
        kind: DiffLineKind::Equal,
        old_line: Some(n),
        new_line: Some(n),
        segments: vec![segment(&format!("line {n}"), false)],
        tokens: Vec::new(),
    }
}

#[test]
fn unified_diff_marks_replacements_and_inline_changes() {
    let rows = rows_for("same\nold value\nend\n", "same\nnew value\nend\n", 0, 0, true);
    let lines = lines_of(&rows);
    assert!(lines.iter().any(|line| line.kind == DiffLineKind::Delete));
    assert!(lines.iter().any(|line| line.kind == DiffLineKind::Insert));
    assert!(lines.iter().any(|line| {
        line.kind != DiffLineKind::Equal && line.segments.iter().any(|segment| segment.emphasized)
    }));
}

#[test]
fn unified_diff_applies_fragment_line_offsets() {
    let rows = rows_for("old", "new", 9, 19, false);
    let lines = lines_of(&rows);
    assert!(lines.iter().any(|line| line.kind == DiffLineKind::Delete && line.old_line == Some(10)));
    assert!(lines.iter().any(|line| line.kind == DiffLineKind::Insert && line.new_line == Some(20)));
}

#[test]
fn unified_diff_collapses_large_unchanged_regions() {
    let mut original = String::new();
    for line in 1..=30 {
        original.push_str(&format!("line {line}\n"));
    }
    let current = original.replace("line 15\n", "changed 15\n");
    let rows = rows_for(&original, &current, 0, 0, true);
    assert!(rows.iter().any(|row| matches!(row, DiffRow::Fold { .. })));
    assert!(rows.iter().any(|row| matches!(row, DiffRow::Line(line) if line.kind == DiffLineKind::Delete)));
    assert!(rows.iter().any(|row| matches!(row, DiffRow::Line(line) if line.kind == DiffLineKind::Insert)));
}

#[test]
fn equal_texts_have_no_rows() {
    assert!(rows_for("a\nb\n", "a\nb\n", 0, 0, true).is_empty());
}

#[test]
fn line_endings_are_trimmed_from_the_last_piece() {
    let mut crlf = vec![segment("value", false), segment("x\r\n", true)];
    trim_diff_line_ending(&mut crlf);
    assert_eq!(crlf, vec![segment("value", false), segment("x", true)]);
    let mut only_newline = vec![segment("value", false), segment("\n", true)];
    trim_diff_line_ending(&mut only_newline);
    assert_eq!(only_newline, vec![segment("value", false)]);
    let mut single = vec![segment("\n", false)];
    trim_diff_line_ending(&mut single);
    assert_eq!(single, vec![segment("", false)]);
    let mut carriage_only = vec![segment("a\r", false)];
    trim_diff_line_ending(&mut carriage_only);
    assert_eq!(carriage_only, vec![segment("a\r", false)]);
}

#[test]
fn folding_keeps_a_margin_and_every_line() {
    let lines: Vec<DiffLine> = (1..=20).map(equal_line).collect();
    let rows = collapse_unchanged_lines(&lines);
    assert_eq!(rows.len(), 9);
    assert!(matches!(&rows[4], DiffRow::Fold { id: 0, lines } if lines.len() == 12));
    let mut opened = Vec::new();
    for row in &rows {
        match row {
            DiffRow::Line(line) => opened.push(line.old_line),
            DiffRow::Fold { lines, .. } => opened.extend(lines.iter().map(|line| line.old_line)),
        }
    }
    assert_eq!(opened, (1..=20).map(Some).collect::<Vec<_>>());
    let short: Vec<DiffLine> = (1..=11).map(equal_line).collect();
    assert_eq!(collapse_unchanged_lines(&short).len(), 11);
}

#[test]
fn plain_tokens_hold_one_line_each() {
    let tokens = plain_diff_tokens("a\nbc\n");
    assert_eq!(tokens.len(), 3);
    assert_eq!(tokens[1][0].text, "bc");
    assert!(tokens[2][0].text.is_empty());
}
