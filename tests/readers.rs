use mobius_kit::{
    new_reader, read_assignment_from_top, AdamSpecReader, Cell, ConfigReader, Kind, ReadError,
    SdtmSpecReader, Sheet, TopReader, Workbook,
};

fn text(s: &str) -> Cell {
    Cell::Text(s.to_string())
}

fn sheet(name: &str, rows: Vec<Vec<Cell>>) -> Sheet {
    Sheet { name: name.to_string(), rows }
}

/// Six header rows, then one row per code, then an empty code cell.
fn content(codes: &[&str]) -> Sheet {
    let mut rows = vec![];
    for _ in 0..6 {
        rows.push(vec![text("header")]);
    }
    for code in codes {
        rows.push(vec![text(code), text("description")]);
    }
    rows.push(vec![Cell::Empty, text("trailing")]);
    sheet("CONTENT", rows)
}

/// A detail sheet whose group column holds `groups`, top to bottom.
fn detail(name: &str, groups: &[Option<&str>]) -> Sheet {
    let mut rows = vec![];
    for g in groups {
        let mut row = vec![Cell::Empty; 10];
        row[0] = text("VAR");
        if let Some(g) = g {
            row[9] = text(g);
        }
        rows.push(row);
    }
    sheet(name, rows)
}

/// A row of the tracking sheet.
fn top_row(level: Cell, name: Cell, sourcer: Cell, qcer: Cell) -> Vec<Cell> {
    let mut row = vec![Cell::Empty; 11];
    row[0] = level;
    row[4] = name;
    row[9] = sourcer;
    row[10] = qcer;
    row
}

fn top(rows: Vec<Vec<Cell>>) -> Sheet {
    let mut all = vec![top_row(text("Level"), text("Output"), text("Sourcer"), text("QCer"))];
    all.extend(rows);
    sheet("top", all)
}

fn output(level: Cell, name: &str) -> Vec<Cell> {
    top_row(level, text(name), Cell::Empty, Cell::Empty)
}

fn names(items: &[mobius_kit::ConfigItem]) -> Vec<String> {
    items.iter().map(|i| i.name.clone()).collect()
}

#[test]
fn read_sdtm_spec_test() {
    let codes: Vec<String> = (0..37).map(|i| format!("D{:02}", i)).collect();
    let refs: Vec<&str> = codes.iter().map(|s| s.as_str()).collect();
    let wb = Workbook { sheets: vec![content(&refs)] };
    let reader = new_reader(&Kind::SDTM, wb);
    let result = reader.read(false).unwrap();
    assert_eq!(result.len(), 37);
}

#[test]
fn read_adam_spec_test() {
    let codes: Vec<String> = (0..17).map(|i| format!("AD{:02}", i)).collect();
    let refs: Vec<&str> = codes.iter().map(|s| s.as_str()).collect();
    let wb = Workbook { sheets: vec![content(&refs)] };
    let reader = new_reader(&Kind::ADAM, wb);
    let result = reader.read(false).unwrap();
    assert_eq!(result.len(), 17);
}

#[test]
fn read_tfl_spec_test() {
    let rows: Vec<Vec<Cell>> = (0..144).map(|i| output(text("3"), &format!("t-14-{:03}", i))).collect();
    let wb = Workbook { sheets: vec![top(rows)] };
    let reader = new_reader(&Kind::TFL, wb);
    let result = reader.read(false).unwrap();
    assert_eq!(result.len(), 144);
}

#[test]
fn read_assignment_test() {
    let rows = vec![
        top_row(text("3"), text("t-14-01-01"), text("yuki"), text("chen")),
        top_row(text("2"), text("l-16-02"), text("chen"), Cell::Empty),
    ];
    let wb = Workbook { sheets: vec![top(rows)] };
    let reader = TopReader::new(wb);
    let assignment = reader.assignement().unwrap();
    assert!(assignment.len().gt(&0));
}

#[test]
fn adam_reads_datasets_in_order_lowercased() {
    let wb = Workbook { sheets: vec![content(&["ADSL", "ADAE"])] };
    let items = AdamSpecReader::new(wb).read(false).unwrap();
    assert_eq!(names(&items), vec!["adsl", "adae"]);
    assert!(items.iter().all(|i| !i.supp && i.qc_required));
}

#[test]
fn content_scan_stops_at_first_empty_code() {
    let mut sheet = content(&["DM", "AE"]);
    sheet.rows.push(vec![text("LB")]);
    let wb = Workbook { sheets: vec![sheet.clone()] };
    let items = AdamSpecReader::new(wb).read(false).unwrap();
    assert_eq!(names(&items), vec!["dm", "ae"]);
    let wb = Workbook { sheets: vec![sheet] };
    let items = SdtmSpecReader::new(wb).read(false).unwrap();
    assert_eq!(names(&items), vec!["dm", "ae"]);
}

#[test]
fn content_scan_stops_at_short_row() {
    let mut sheet = content(&["DM"]);
    let last = sheet.rows.len() - 1;
    sheet.rows[last] = vec![];
    sheet.rows.push(vec![text("AE")]);
    let items = AdamSpecReader::new(Workbook { sheets: vec![sheet] }).read(false).unwrap();
    assert_eq!(names(&items), vec!["dm"]);
}

#[test]
fn sdtm_declared_supp_without_marker_is_flagged() {
    let wb = Workbook {
        sheets: vec![
            content(&["DM", "AE", "SUPPAE"]),
            detail("AE", &[Some("AE"), None, Some("AE")]),
        ],
    };
    let items = SdtmSpecReader::new(wb).read(false).unwrap();
    assert_eq!(names(&items), vec!["dm", "ae"]);
    assert!(!items[0].supp);
    assert!(items[1].supp);
    assert!(items.iter().all(|i| i.qc_required));
}

#[test]
fn sdtm_detail_marker_flags_undeclared_domain() {
    let wb = Workbook {
        sheets: vec![content(&["LB", "VS"]), detail("LB", &[Some("LB"), Some("SUPP"), None, None])],
    };
    let items = SdtmSpecReader::new(wb).read(false).unwrap();
    assert_eq!(names(&items), vec!["lb", "vs"]);
    assert!(items[0].supp);
    assert!(!items[1].supp);
}

#[test]
fn sdtm_first_non_empty_group_cell_from_bottom_decides() {
    let wb = Workbook {
        sheets: vec![content(&["LB"]), detail("LB", &[Some("SUPP"), Some("LB"), None])],
    };
    let items = SdtmSpecReader::new(wb).read(false).unwrap();
    assert!(!items[0].supp);
}

#[test]
fn sdtm_missing_detail_sheet_is_no_error() {
    let wb = Workbook { sheets: vec![content(&["DM"])] };
    let items = SdtmSpecReader::new(wb).read(false).unwrap();
    assert_eq!(items.len(), 1);
    assert!(!items[0].supp);
}

#[test]
fn sdtm_decode_error_in_detail_sheet() {
    let mut d = detail("LB", &[Some("LB")]);
    d.rows[0][9] = Cell::Other;
    let wb = Workbook { sheets: vec![content(&["LB"]), d] };
    match SdtmSpecReader::new(wb).read(false) {
        Err(ReadError::CellDecode { sheet, row, column }) => {
            assert_eq!(sheet, "LB");
            assert_eq!(row, 0);
            assert_eq!(column, 9);
        }
        other => panic!("unexpected {:?}", other),
    }
}

#[test]
fn missing_content_sheet_is_an_error() {
    let wb = Workbook { sheets: vec![sheet("Other", vec![])] };
    match AdamSpecReader::new(wb.clone()).read(false) {
        Err(ReadError::MissingSheet(name)) => assert_eq!(name, "CONTENT"),
        other => panic!("unexpected {:?}", other),
    }
    assert!(matches!(SdtmSpecReader::new(wb.clone()).read(false), Err(ReadError::MissingSheet(_))));
    match TopReader::new(wb.clone()).read(true) {
        Err(ReadError::MissingSheet(name)) => assert_eq!(name, "top"),
        other => panic!("unexpected {:?}", other),
    }
    assert!(matches!(read_assignment_from_top(&wb), Err(ReadError::MissingSheet(_))));
}

#[test]
fn non_text_code_is_a_decode_error() {
    let mut sheet = content(&["DM", "AE"]);
    sheet.rows[7][0] = Cell::Other;
    match AdamSpecReader::new(Workbook { sheets: vec![sheet] }).read(false) {
        Err(ReadError::CellDecode { sheet, row, column }) => {
            assert_eq!((sheet.as_str(), row, column), ("CONTENT", 7, 0));
        }
        other => panic!("unexpected {:?}", other),
    }
}

#[test]
fn top_eleven_empty_names_end_the_scan() {
    let mut rows = vec![output(text("3"), "t-01")];
    for _ in 0..11 {
        rows.push(top_row(Cell::Empty, Cell::Empty, Cell::Empty, Cell::Empty));
    }
    rows.push(output(text("3"), "t-02"));
    let items = TopReader::new(Workbook { sheets: vec![top(rows)] }).read(false).unwrap();
    assert_eq!(names(&items), vec!["t-01"]);
}

#[test]
fn top_ten_empty_names_are_passed_over() {
    let mut rows = vec![output(text("3"), "t-01")];
    for _ in 0..10 {
        rows.push(top_row(Cell::Empty, Cell::Empty, Cell::Empty, Cell::Empty));
    }
    rows.push(output(text("3"), "t-02"));
    for _ in 0..10 {
        rows.push(top_row(Cell::Empty, Cell::Empty, Cell::Empty, Cell::Empty));
    }
    rows.push(output(text("3"), "t-03"));
    let items = TopReader::new(Workbook { sheets: vec![top(rows)] }).read(false).unwrap();
    assert_eq!(names(&items), vec!["t-01", "t-02", "t-03"]);
}

#[test]
fn top_empty_level_inherits_previous() {
    let rows = vec![
        output(text("3"), "t-01"),
        output(Cell::Empty, "t-02"),
        output(text("2"), "t-03"),
    ];
    let items = TopReader::new(Workbook { sheets: vec![top(rows)] }).read(false).unwrap();
    let qc: Vec<bool> = items.iter().map(|i| i.qc_required).collect();
    assert_eq!(qc, vec![true, true, false]);
}

#[test]
fn top_level_is_trimmed() {
    let rows = vec![output(text(" 3 "), "t-01"), output(text("33"), "t-02")];
    let items = TopReader::new(Workbook { sheets: vec![top(rows)] }).read(false).unwrap();
    let qc: Vec<bool> = items.iter().map(|i| i.qc_required).collect();
    assert_eq!(qc, vec![true, false]);
}

#[test]
fn top_qc_defaults_to_required() {
    let rows = vec![output(Cell::Empty, "L-16-01")];
    let items = TopReader::new(Workbook { sheets: vec![top(rows)] }).read(false).unwrap();
    assert_eq!(names(&items), vec!["l-16-01"]);
    assert!(items[0].qc_required);
    assert!(!items[0].supp);
}

#[test]
fn top_long_name_fails_unless_forced() {
    let long = "t-14-01-01-abcdefghijklmnopqrst";
    assert_eq!(long.chars().count(), 31);
    let rows = vec![output(text("3"), "t-01"), output(text("3"), long)];
    let wb = Workbook { sheets: vec![top(rows)] };
    match TopReader::new(wb.clone()).read(false) {
        Err(ReadError::Naming(errors)) => {
            assert_eq!(errors.len(), 1);
            assert_eq!(errors[0].item, long);
            assert_eq!(errors[0].message, "Length of output name exceed 30");
        }
        other => panic!("unexpected {:?}", other),
    }
    let items = TopReader::new(wb).read(true).unwrap();
    assert_eq!(names(&items), vec!["t-01", long]);
}

#[test]
fn top_name_of_thirty_characters_is_accepted() {
    let name = "t-14-01-01-abcdefghijklmnopqrs";
    assert_eq!(name.chars().count(), 30);
    let rows = vec![output(text("3"), name)];
    let items = TopReader::new(Workbook { sheets: vec![top(rows)] }).read(false).unwrap();
    assert_eq!(items.len(), 1);
}

#[test]
fn top_name_length_counts_characters() {
    let name = "t-ééééééééééééééééééééééééééé";
    assert_eq!(name.chars().count(), 29);
    let rows = vec![output(text("3"), name)];
    let items = TopReader::new(Workbook { sheets: vec![top(rows)] }).read(false).unwrap();
    assert_eq!(items.len(), 1);
}

#[test]
fn top_decode_errors() {
    let rows = vec![top_row(text("3"), Cell::Other, Cell::Empty, Cell::Empty)];
    match TopReader::new(Workbook { sheets: vec![top(rows)] }).read(true) {
        Err(ReadError::CellDecode { row, column, .. }) => assert_eq!((row, column), (1, 4)),
        other => panic!("unexpected {:?}", other),
    }
    let rows = vec![top_row(Cell::Other, text("t-01"), Cell::Empty, Cell::Empty)];
    match TopReader::new(Workbook { sheets: vec![top(rows)] }).read(true) {
        Err(ReadError::CellDecode { row, column, .. }) => assert_eq!((row, column), (1, 0)),
        other => panic!("unexpected {:?}", other),
    }
}

#[test]
fn assignments_per_role() {
    let rows = vec![
        top_row(text("3"), text("t-14-01-01"), text("yuki"), text("chen")),
        top_row(text("2"), text("l-16-02"), text("chen"), Cell::Empty),
        top_row(text("2"), Cell::Empty, text("nobody"), text("nobody")),
        top_row(text("2"), text("f-02"), Cell::Empty, text("yuki")),
    ];
    let wb = Workbook { sheets: vec![top(rows)] };
    let a = read_assignment_from_top(&wb).unwrap();
    let pairs: Vec<(String, String)> = a.iter().map(|x| (x.developer.clone(), x.task.clone())).collect();
    assert_eq!(
        pairs,
        vec![
            ("yuki".to_string(), "t-14-01-01|dev".to_string()),
            ("chen".to_string(), "t-14-01-01|qc".to_string()),
            ("chen".to_string(), "l-16-02|dev".to_string()),
            ("yuki".to_string(), "f-02|qc".to_string()),
        ]
    );
}

#[test]
fn repeated_names_are_kept_once_in_first_seen_order() {
    let wb = Workbook { sheets: vec![content(&["DM", "AE", "dm", "LB", "AE"])] };
    let items = AdamSpecReader::new(wb).read(false).unwrap();
    assert_eq!(names(&items), vec!["dm", "ae", "lb"]);
}

#[test]
fn sdtm_repeated_domain_is_reported_once() {
    let wb = Workbook {
        sheets: vec![
            content(&["AE", "DM", "AE", "SUPPDM"]),
            detail("AE", &[Some("SUPP")]),
        ],
    };
    let items = SdtmSpecReader::new(wb).read(false).unwrap();
    assert_eq!(names(&items), vec!["ae", "dm"]);
    assert!(items[0].supp);
    assert!(items[1].supp);
}

#[test]
fn top_repeated_output_keeps_first_row() {
    let rows = vec![
        output(text("3"), "T-01"),
        output(text("2"), "t-02"),
        output(text("2"), "t-01"),
    ];
    let items = TopReader::new(Workbook { sheets: vec![top(rows)] }).read(false).unwrap();
    assert_eq!(names(&items), vec!["t-01", "t-02"]);
    assert!(items[0].qc_required);
    assert!(!items[1].qc_required);
}

#[test]
fn top_rows_below_empty_run_give_no_violation() {
    let mut rows = vec![output(text("3"), "t-01")];
    for _ in 0..11 {
        rows.push(top_row(Cell::Empty, Cell::Empty, Cell::Empty, Cell::Empty));
    }
    rows.push(output(text("3"), "t-14-01-01-abcdefghijklmnopqrstuvwxyz"));
    let items = TopReader::new(Workbook { sheets: vec![top(rows)] }).read(false).unwrap();
    assert_eq!(names(&items), vec!["t-01"]);
}
