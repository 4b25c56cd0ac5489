use mobius_kit::{
    select_products, walk, Builder, DocumentSkeleton, Folders, Kind, Node, Product, Skeleton,
    StatSkeleton, Trial, Version, VersionManager, VersionManagerParam,
};

fn leaf(name: &str) -> Node {
    Node { name: name.to_string(), children: None }
}

fn folders(nodes: Vec<Node>) -> Folders {
    let mut list = Folders::Empty;
    for node in nodes.into_iter().rev() {
        list = Folders::More(Box::new(node), Box::new(list));
    }
    list
}

fn dir(name: &str, children: Vec<Node>) -> Node {
    Node { name: name.to_string(), children: Some(folders(children)) }
}

fn manager() -> VersionManager {
    VersionManager::new(&VersionManagerParam {
        offical_path: "/templates/official".into(),
        private_path: "/templates/private".into(),
        kind: Kind::SDTM,
    })
}

fn strings(v: &[&str]) -> Vec<String> {
    v.iter().map(|s| s.to_string()).collect()
}

#[test]
fn walk_lists_leaf_paths() {
    let node = dir("product", vec![dir("dataset", vec![leaf("sdtm"), leaf("adam")]), leaf("macros"), dir("empty", vec![])]);
    assert_eq!(
        walk("stats\\CSR", &node),
        strings(&[
            "stats\\CSR\\product\\dataset\\sdtm",
            "stats\\CSR\\product\\dataset\\adam",
            "stats\\CSR\\product\\macros",
        ])
    );
    assert_eq!(walk("", &leaf("top")), strings(&["top"]));
}

#[test]
fn document_and_stat_skeletons() {
    let docs = DocumentSkeleton::new(folders(vec![leaf("specs"), leaf("protocol")]));
    assert_eq!(docs.paths(), strings(&["documents\\specs", "documents\\protocol"]));
    let stat = StatSkeleton::new("CSR", folders(vec![dir("product", vec![dir("dataset", vec![leaf("sdtm")])])]));
    assert_eq!(stat.paths(), strings(&["stats\\CSR\\product\\dataset\\sdtm"]));
}

#[test]
fn builder_keeps_ids() {
    let mut b = Builder::new("/studies");
    assert_eq!(b.product_id(), "");
    b.set_product_id("ak101");
    b.set_trial_id("202");
    assert_eq!(b.root(), "/studies");
    assert_eq!(b.product_id(), "ak101");
    assert_eq!(b.trial_id(), "202");
}

#[test]
fn test_version_manager() {
    let m = manager();
    let official = strings(&["dev.v1.sas", "qc.v1.sas", "dev.v2.sas", "notes.txt"]);
    let private = strings(&["dev.v1.2.sas", "qc.v3.sas", "readme.sas"]);
    let templates = m.list_templates(&official, &private);
    assert_eq!(5, templates.len());
    let ver = Version { name: "v1".into(), role: "dev".into(), offical: true };
    assert_eq!(m.template_filename(&ver), "dev.v1.sas");
    assert_eq!(m.base_directory(true), strings(&["/templates/official", "sdtm"]));
    let new_ver = Version { name: "v1.2".into(), role: "dev".into(), offical: false };
    assert_eq!(m.template_filename(&new_ver), "dev.v1.2.sas");
    assert_eq!(m.base_directory(false), strings(&["/templates/private", "sdtm"]));
}

#[test]
fn file_names_to_versions() {
    let m = manager();
    let v = m.filename_to_version("dev.v1.2.sas", false).unwrap();
    assert_eq!((v.role.as_str(), v.name.as_str(), v.offical), ("dev", "v1.2", false));
    let v = m.filename_to_version("qc..sas", true).unwrap();
    assert_eq!((v.role.as_str(), v.name.as_str(), v.offical), ("qc", "", true));
    assert!(m.filename_to_version("dev.sas", true).is_none());
    assert!(m.filename_to_version("dev.v1.txt", true).is_none());
    assert!(m.filename_to_version("devsas", true).is_none());
}

#[test]
fn versions_keep_store_order() {
    let m = manager();
    let list = m.list_templates(&strings(&["b.v2.sas", "a.v1.sas"]), &strings(&["c.v3.sas"]));
    let got: Vec<(String, String, bool)> = list.into_iter().map(|v| (v.role, v.name, v.offical)).collect();
    assert_eq!(
        got,
        vec![
            ("b".to_string(), "v2".to_string(), true),
            ("a".to_string(), "v1".to_string(), true),
            ("c".to_string(), "v3".to_string(), false),
        ]
    );
}

#[test]
fn template_folder_per_kind() {
    for (kind, folder) in [(Kind::SDTM, "sdtm"), (Kind::ADAM, "adam"), (Kind::TFL, "tfls")] {
        let m = VersionManager::new(&VersionManagerParam { offical_path: "o".into(), private_path: "p".into(), kind });
        assert_eq!(m.base_directory(true), strings(&["o", folder]));
    }
}

#[test]
fn list_projects_test() {
    let found = select_products(&strings(&["ak101", "ak12", "bk101", "ak1234", "ak202", "AK303"])).unwrap();
    assert_eq!(found, strings(&["ak101", "ak202"]));
    let trial = Trial::new("ak101", "202", &strings(&["CSR", "idmc"]));
    assert_eq!(trial.id, "ak101-202");
    assert_eq!(trial.name, "202");
    let ids: Vec<String> = trial.purpose.iter().map(|p| p.id.clone()).collect();
    assert_eq!(ids, strings(&["ak101-202-CSR", "ak101-202-idmc"]));
    let product = Product::new("ak101", vec![trial]);
    assert_eq!(product.id, "ak101");
    assert_eq!(product.name, "ak101");
    assert_eq!(product.trials.len(), 1);
}
