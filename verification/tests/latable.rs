use latable::arguments::{dimension_check, LatableArgs};
use latable::column_def::{column_def_check, ColumnDef};
use latable::formatter::{format_latex_table, format_latex_table_csv, reconcile, Warning};
use latable::text::parse_records;

fn args_with(columns: Option<usize>, def: ColumnDef) -> LatableArgs {
    LatableArgs::new(None, columns, def, None)
}

#[test]
fn scenario_empty_grid() {
    let def = ColumnDef::Centered;
    let align = def.expand(3);
    assert_eq!(align.as_str(), "ccc");
    let out = format_latex_table(2, 3, align);
    assert_eq!(
        out.as_str(),
        "\\begin{table}[ht]\n\t\\begin{tabular}{ccc}\n\t\t & & \\\\\n\t\t & & \n\t\\end{tabular}\n\\end{table}\n"
    );
    assert!(!out.contains("Warnings:"));
}

#[test]
fn scenario_column_surplus() {
    let out = format_latex_table_csv(2, 2, String::from("cc"), "a,b,c\nd,e\n");
    assert_eq!(
        out.as_str(),
        "\\begin{table}[ht]\n\t\\begin{tabular}{cc}\n\t\ta & b \\\\\n\t\td & e\n\t\\end{tabular}\n\\end{table}\n\nWarnings:\nColumns should be 2. Skipped 1 columns from at least one row.\n"
    );
    assert_eq!(out.matches("Columns should be").count(), 1);
    assert!(!out.contains("Passed row arg"));
}

#[test]
fn scenario_row_deficit() {
    let out = format_latex_table_csv(3, 2, String::from("cc"), "a,b\n");
    assert_eq!(
        out.as_str(),
        "\\begin{table}[ht]\n\t\\begin{tabular}{cc}\n\t\ta & b \\\\\n\t\t &  \\\\\n\t\t & \n\t\\end{tabular}\n\\end{table}\n\nWarnings:\nPassed row arg (3) but csv has 1 lines. Generate 2 empty lines.\n"
    );
}

#[test]
fn scenario_custom_alignment() {
    let def = column_def_check("lcr").unwrap();
    assert!(matches!(&def, ColumnDef::Custom(s) if s == "lcr"));
    let args = args_with(Some(3), def);
    assert!(args.is_user_defined());
    assert!(args.col_def_size_validation().is_ok());
    let align = args.get_column_def().expand(3);
    assert_eq!(align.as_str(), "lcr");
    let out = format_latex_table(1, 3, align);
    assert!(out.contains("\\begin{tabular}{lcr}"));
}

#[test]
fn empty_grid_separator_counts() {
    // Every sourceless table has one line end per row, two backslashes per
    // row separator, and columns - 1 ampersands per row line.
    let rows = 4;
    let columns = 3;
    let out = format_latex_table(rows, columns, String::from("ccc"));
    let body: &str = out
        .strip_prefix("\\begin{table}[ht]\n\t\\begin{tabular}{ccc}\n")
        .unwrap()
        .strip_suffix("\t\\end{tabular}\n\\end{table}\n")
        .unwrap();
    assert_eq!(body.matches('\n').count(), rows);
    assert_eq!(body.matches('\\').count(), 2 * (rows - 1));
    for line in body.lines() {
        assert_eq!(line.matches('&').count(), columns - 1);
    }
}

#[test]
fn round_trip_exact_shape() {
    let recs = parse_records("a,b\nc,d\n");
    assert_eq!(recs, vec![vec!["a", "b"], vec!["c", "d"]]);
    let (grid, w) = reconcile(&recs, 2, 2);
    assert_eq!(grid, recs);
    assert!(!w.has_warnings());
    assert_eq!(w.message().as_str(), "");
    let out = format_latex_table_csv(2, 2, String::from("cc"), "a,b\nc,d\n");
    assert!(!out.contains("Warnings:"));
    assert!(out.contains("\t\ta & b \\\\\n\t\tc & d\n"));
}

#[test]
fn column_surplus_latches_once() {
    // Every record has too many fields, yet the warning fires only once and
    // carries the first record's numbers.
    let recs = parse_records("a,b,c\nd,e,f,g\nh,i,j\n");
    let (grid, w) = reconcile(&recs, 3, 2);
    assert_eq!(grid.len(), 3);
    assert!(w.more_columns);
    assert!(!w.more_rows && !w.less_rows && !w.less_columns);
    assert_eq!(
        w.message().as_str(),
        "Columns should be 2. Skipped 1 columns from at least one row.\n"
    );
    assert_eq!(w.message().matches("Columns should be").count(), 1);
}

#[test]
fn warning_methods_latch() {
    let mut w = Warning::new();
    assert!(!w.has_warnings());
    w.warn_more_rows(2, 5);
    w.warn_more_rows(2, 9);
    assert!(w.has_warnings());
    assert_eq!(w.more_rows_found, 5);
    assert_eq!(w.message().as_str(), "Passed row arg (2). Skipped 3 lines from csv.\n");
}

#[test]
fn warning_fixed_order() {
    // A surplus of columns comes before a deficit of rows in the report,
    // whatever order they latched in.
    let out = format_latex_table_csv(2, 2, String::from("cc"), "a,b,c\n");
    assert_eq!(
        out.split("Warnings:\n").nth(1).unwrap(),
        "Columns should be 2. Skipped 1 columns from at least one row.\nPassed row arg (2) but csv has 1 lines. Generate 1 empty lines.\n"
    );
}

#[test]
fn row_surplus_counts_all_lines() {
    let out = format_latex_table_csv(2, 2, String::from("cc"), "a,b\nc,d\ne,f\ng,h\n");
    assert!(out.contains("Passed row arg (2). Skipped 2 lines from csv.\n"));
    assert!(out.contains("\t\ta & b \\\\\n\t\tc & d\n"));
    assert!(!out.contains("e & f"));
}

#[test]
fn column_deficit_pads_with_empty_fields() {
    let out = format_latex_table_csv(1, 3, String::from("ccc"), "a\n");
    assert!(out.contains("\t\ta &  & \n"));
    assert!(out.contains("Columns should be 3. Filled 2 columns in at least one row.\n"));
}

#[test]
fn fields_are_trimmed() {
    let recs = parse_records("  a\t,  b  \n");
    assert_eq!(recs, vec![vec!["a", "b"]]);
}

#[test]
fn dimension_check_accepts_positive_numbers() {
    assert_eq!(dimension_check("3"), Ok(3));
    assert_eq!(dimension_check("+7"), Ok(7));
    assert_eq!(dimension_check("12"), Ok(12));
}

#[test]
fn dimension_check_rejects_zero() {
    assert_eq!(dimension_check("0"), Err(String::from("Should have at least 1 cell")));
    assert_eq!(dimension_check("00"), Err(String::from("Should have at least 1 cell")));
}

#[test]
fn dimension_check_rejects_garbage() {
    assert_eq!(dimension_check("abc"), Err(String::from("'abc' isn't a valid dimension")));
    assert_eq!(dimension_check(""), Err(String::from("'' isn't a valid dimension")));
    assert_eq!(dimension_check("-3"), Err(String::from("'-3' isn't a valid dimension")));
    assert_eq!(
        dimension_check("18446744073709551616"),
        Err(String::from("'18446744073709551616' isn't a valid dimension"))
    );
}

#[test]
fn column_def_check_named_modes() {
    assert!(matches!(column_def_check("centered"), Ok(ColumnDef::Centered)));
    assert!(matches!(column_def_check("left"), Ok(ColumnDef::Left)));
    assert!(matches!(column_def_check("right"), Ok(ColumnDef::Right)));
}

#[test]
fn column_def_check_rejects_bad_marks() {
    assert_eq!(
        column_def_check("xyz").err().unwrap(),
        String::from("possible values: centered, left, right, <sequence of 'l', 'c' and 'r'>")
    );
}

#[test]
fn alignment_length_mismatch_is_fatal() {
    // A custom alignment whose length is not the column count never reaches
    // reconciliation: the validation itself fails.
    let args = args_with(Some(3), ColumnDef::Custom(String::from("lc")));
    assert_eq!(
        args.col_def_size_validation().err().unwrap(),
        String::from(
            "The column definition should contain the same number of columns. Expected: 3 found: 2"
        )
    );
    let ok = args_with(Some(2), ColumnDef::Custom(String::from("lc")));
    assert!(ok.col_def_size_validation().is_ok());
    let named = args_with(Some(9), ColumnDef::Left);
    assert!(named.col_def_size_validation().is_ok());
}

#[test]
fn expand_named_modes() {
    assert_eq!(ColumnDef::Centered.expand(4).as_str(), "cccc");
    assert_eq!(ColumnDef::Left.expand(1).as_str(), "l");
    assert_eq!(ColumnDef::Right.expand(2).as_str(), "rr");
}

#[test]
fn parse_sizes_infers_missing_dimensions() {
    let mut args = LatableArgs::new(None, None, ColumnDef::Centered, Some(String::from("t.csv")));
    assert!(args.has_csv());
    assert!(args.parse_sizes("a,b,c\nd,e\n").is_ok());
    assert_eq!(args.get_rows(), 2);
    assert_eq!(args.get_columns(), 3);
}

#[test]
fn parse_sizes_keeps_explicit_dimensions() {
    let mut args = LatableArgs::new(Some(5), Some(4), ColumnDef::Centered, None);
    assert!(args.parse_sizes("a,b\n").is_ok());
    assert_eq!(args.get_rows(), 5);
    assert_eq!(args.get_columns(), 4);
}

#[test]
fn parse_sizes_uses_first_record_only() {
    let mut args = LatableArgs::new(None, None, ColumnDef::Centered, None);
    assert!(args.parse_sizes("a\nb,c,d\n").is_ok());
    assert_eq!(args.get_rows(), 2);
    assert_eq!(args.get_columns(), 1);
}

#[test]
fn parse_sizes_rejects_empty_source() {
    let mut args = LatableArgs::new(None, None, ColumnDef::Centered, None);
    assert_eq!(
        args.parse_sizes(""),
        Err(String::from("The csv source is empty or starts with an empty line"))
    );
    let mut again = LatableArgs::new(None, None, ColumnDef::Centered, None);
    assert!(again.parse_sizes("\na,b\n").is_err());
}

#[test]
fn source_without_trailing_newline() {
    let out = format_latex_table_csv(1, 2, String::from("cc"), "a,b");
    assert!(out.contains("\t\ta & b\n"));
    assert!(!out.contains("Warnings:"));
}
