use mobius_kit::{
    filename, purpose, Assignment, Cell, FileResult, GenerateError, Generator, Group, Kind, Param,
    Render, Rendering, Sheet, Workbook,
};

fn text(s: &str) -> Cell {
    Cell::Text(s.to_string())
}

fn content(codes: &[&str]) -> Sheet {
    let mut rows = vec![];
    for _ in 0..6 {
        rows.push(vec![text("header")]);
    }
    for code in codes {
        rows.push(vec![text(code)]);
    }
    Sheet { name: "CONTENT".to_string(), rows }
}

fn top(outputs: &[(&str, &str)]) -> Sheet {
    let mut rows = vec![vec![text("Level"), Cell::Empty, Cell::Empty, Cell::Empty, text("Output")]];
    for (level, name) in outputs {
        rows.push(vec![text(level), Cell::Empty, Cell::Empty, Cell::Empty, text(name)]);
    }
    Sheet { name: "top".to_string(), rows }
}

fn param(group: Group) -> Param {
    Param {
        study: "AK112-303".into(),
        engine: "SAS EG".into(),
        group,
        custom_code: vec!["%format".into(), "%checklog".into()],
        template: "".into(),
        path: "".into(),
    }
}

fn files(r: &[Rendering]) -> Vec<FileResult> {
    r.iter().map(|x| x.file.clone()).collect()
}

fn file_names(r: &[Rendering]) -> Vec<String> {
    r.iter().map(|x| x.file.name.clone()).collect()
}

#[test]
fn adam_generate_test() {
    let wb = Workbook { sheets: vec![content(&["ADSL", "ADAE"])] };
    let g = Generator::new(wb, Kind::ADAM, vec![], false).unwrap();
    let start = "14MAR2023".to_string();
    let dev = g.render(&param(Group::Dev), &start, &vec![]).unwrap();
    let qc = g.render(&param(Group::Qc), &start, &vec![]).unwrap();
    assert_eq!(file_names(&dev), vec!["adsl.sas", "adae.sas"]);
    assert_eq!(file_names(&qc), vec!["v-adsl.sas", "v-adae.sas"]);
    assert_eq!(dev[0].item.purpose, "To Create ADAM.ADSL dataset");
    assert_eq!(qc[1].item.purpose, "To Qc ADAM.ADAE dataset");
}

#[test]
fn tfl_generate_test() {
    let wb = Workbook { sheets: vec![top(&[("3", "t-14-01-01"), ("2", "l-16-02-07-06-irae-ss")])] };
    let g = Generator::new(wb, Kind::TFL, vec![], false).unwrap();
    let start = "14MAR2023".to_string();
    let dev = g.render(&param(Group::Dev), &start, &vec![]).unwrap();
    let qc = g.render(&param(Group::Qc), &start, &vec![]).unwrap();
    assert_eq!(file_names(&dev), vec!["t-14-01-01.sas", "l-16-02-07-06-irae-ss.sas"]);
    assert_eq!(file_names(&qc), vec!["v-t-14-01-01.sas"]);
}

#[test]
fn qc_run_skips_items_without_qc() {
    let wb = Workbook { sheets: vec![top(&[("2", "t-14-01-01")])] };
    let g = Generator::new(wb, Kind::TFL, vec![], false).unwrap();
    let start = "1JAN2024".to_string();
    let dev = g.render(&param(Group::Dev), &start, &vec![]).unwrap();
    assert_eq!(file_names(&dev), vec!["t-14-01-01.sas"]);
    let qc = g.render(&param(Group::Qc), &start, &vec![]).unwrap();
    assert!(qc.is_empty());
}

#[test]
fn second_render_finds_every_file() {
    let wb = Workbook { sheets: vec![content(&["DM", "AE", "LB"])] };
    let g = Generator::new(wb, Kind::SDTM, vec![], false).unwrap();
    let start = "14MAR2023".to_string();
    let first = g.render(&param(Group::Dev), &start, &vec!["ae.sas".to_string()]).unwrap();
    let existed: Vec<bool> = files(&first).iter().map(|f| f.existed).collect();
    assert_eq!(existed, vec![false, true, false]);
    let mut present = vec!["ae.sas".to_string()];
    present.extend(file_names(&first));
    let second = g.render(&param(Group::Dev), &start, &present).unwrap();
    assert_eq!(file_names(&second), file_names(&first));
    assert!(files(&second).iter().all(|f| f.existed));
}

#[test]
fn descriptor_fields() {
    let wb = Workbook { sheets: vec![content(&["LB"])] };
    let g = Generator::new(wb, Kind::SDTM, vec![], false).unwrap();
    let start = "14MAR2023".to_string();
    let mut p = param(Group::Dev);
    p.path = "/studies/ak112".into();
    let r = g.render(&p, &start, &vec![]).unwrap();
    assert_eq!(r.len(), 1);
    let item = &r[0].item;
    assert_eq!(item.name, "lb");
    assert_eq!(item.study, "AK112-303");
    assert_eq!(item.engine, "SAS EG");
    assert_eq!(item.purpose, "To Create SDTM.LB dataset");
    assert_eq!(item.start, "14MAR2023");
    assert_eq!(item.description, "Create");
    assert!(!item.supp);
    assert_eq!(item.developer, " ".repeat(27));
    assert_eq!(item.slot, vec!["%format".to_string(), "%checklog".to_string()]);
    assert_eq!(item.path, "/studies/ak112");
}

#[test]
fn developer_from_assignments() {
    let wb = Workbook { sheets: vec![top(&[("3", "t-14-01-01"), ("3", "f-02")])] };
    let assignment = vec![
        Assignment { developer: "chen".into(), task: "t-14-01-01|dev".into() },
        Assignment { developer: "yuki".into(), task: "t-14-01-01|dev".into() },
        Assignment { developer: "mei".into(), task: "t-14-01-01|qc".into() },
    ];
    let g = Generator::new(wb, Kind::TFL, assignment, false).unwrap();
    let start = "14MAR2023".to_string();
    let dev = g.render(&param(Group::Dev), &start, &vec![]).unwrap();
    assert_eq!(dev[0].item.developer, format!("yuki{}", " ".repeat(23)));
    assert_eq!(dev[1].item.developer, " ".repeat(27));
    let qc = g.render(&param(Group::Qc), &start, &vec![]).unwrap();
    assert_eq!(qc[0].item.developer, format!("mei{}", " ".repeat(24)));
}

#[test]
fn long_developer_name_is_kept_whole() {
    let wb = Workbook { sheets: vec![content(&["DM"])] };
    let who = "a-developer-with-a-very-long-name";
    let assignment = vec![Assignment { developer: who.into(), task: "dm|dev".into() }];
    let g = Generator::new(wb, Kind::ADAM, assignment, false).unwrap();
    let dev = g.render(&param(Group::Dev), &"x".to_string(), &vec![]).unwrap();
    assert_eq!(dev[0].item.developer, who);
}

#[test]
fn generator_forwards_read_errors() {
    let long = "t-14-01-01-abcdefghijklmnopqrst";
    let wb = Workbook { sheets: vec![top(&[("3", long)])] };
    assert!(Generator::new(wb.clone(), Kind::TFL, vec![], false).is_err());
    assert!(Generator::new(wb.clone(), Kind::TFL, vec![], true).is_ok());
    assert!(Generator::new(wb, Kind::SDTM, vec![], true).is_err());
}

#[test]
fn tfl_purpose_branches() {
    assert_eq!(purpose("t-14-01-01", &Group::Dev, &Kind::TFL).unwrap(), "To Create table 14.01.01");
    assert!(purpose("t-14-01-01", &Group::Dev, &Kind::TFL).unwrap().contains("table 14.01.01"));
    assert_eq!(purpose("f-02", &Group::Qc, &Kind::TFL).unwrap(), "To Qc figure 02");
    assert_eq!(purpose("l-16-02", &Group::Dev, &Kind::TFL).unwrap(), "To Create listing 16.02");
    assert_eq!(purpose("x-1-2", &Group::Dev, &Kind::TFL).unwrap(), "To Create listing 1.2");
}

#[test]
fn dataset_purpose() {
    assert_eq!(purpose("lb", &Group::Qc, &Kind::SDTM).unwrap(), "To Qc SDTM.LB dataset");
    assert_eq!(purpose("adsl", &Group::Dev, &Kind::ADAM).unwrap(), "To Create ADAM.ADSL dataset");
}

#[test]
fn tfl_purpose_decode_errors() {
    match purpose("t", &Group::Dev, &Kind::TFL) {
        Err(GenerateError::Decode(name)) => assert_eq!(name, "t"),
        other => panic!("unexpected {:?}", other),
    }
    assert!(matches!(purpose("té-01", &Group::Dev, &Kind::TFL), Err(GenerateError::Decode(_))));
    assert_eq!(purpose("é-01", &Group::Dev, &Kind::TFL).unwrap(), "To Create listing -01".replace("-01", ".01"));
}

#[test]
fn render_fails_on_undecodable_name() {
    let wb = Workbook { sheets: vec![top(&[("3", "t-01"), ("3", "t")])] };
    let g = Generator::new(wb, Kind::TFL, vec![], false).unwrap();
    match g.render(&param(Group::Dev), &"x".to_string(), &vec![]) {
        Err(GenerateError::Decode(name)) => assert_eq!(name, "t"),
        other => panic!("unexpected {:?}", other),
    }
}

#[test]
fn file_names_per_group() {
    assert_eq!(filename("lb", &Group::Dev), "lb.sas");
    assert_eq!(filename("lb", &Group::Qc), "v-lb.sas");
}

#[test]
fn sdtm_template_test() {
    let r = Render::new();
    let bytes = r.encode("%let study = AK112-303;");
    assert_eq!(&bytes[..3], &[239, 187, 191]);
    assert_eq!(&bytes[3..], "%let study = AK112-303;".as_bytes());
}

#[test]
fn adam_template_test() {
    let r = Render::new();
    assert_eq!(r.encode(""), vec![239, 187, 191]);
}

#[test]
fn tfl_template_test() {
    let r = Render::new();
    let bytes = r.encode("l-16-02-07-06-irae-ss é");
    assert_eq!(bytes.len(), 3 + "l-16-02-07-06-irae-ss é".len());
    assert_eq!(String::from_utf8(bytes[3..].to_vec()).unwrap(), "l-16-02-07-06-irae-ss é");
}
