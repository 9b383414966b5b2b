use cargo_select::manifest::ManifestData;
use cargo_select::manifest::ProductDecl;
use cargo_select::manifest::Resolver;
use cargo_select::manifest::ResolverAction;
use cargo_select::manifest::targets_from_manifest;
use cargo_select::select::RunTarget;
use cargo_select::select::Target;
use cargo_select::select::join_path;

fn product(name: &str, path: Option<&str>) -> ProductDecl {
    ProductDecl { name: Some(name.to_string()), path: path.map(|p| p.to_string()) }
}

fn manifest(bins: Vec<ProductDecl>, examples: Vec<ProductDecl>, members: Vec<&str>) -> ManifestData {
    ManifestData { bins, examples, members: members.iter().map(|m| m.to_string()).collect() }
}

fn run_fields(t: &Target) -> (&RunTarget, &'static str) {
    match t {
        Target::Bin(rt) => (rt, "bin"),
        Target::Example(rt) => (rt, "example"),
        Target::Test(_) => panic!("no test targets expected here"),
    }
}

/// Drives a resolver against a scripted filesystem: a list of
/// (path, manifest) pairs and a list of (path, subdirectories) pairs.
fn drive(root: &str, manifests: &[(&str, ManifestData)], dirs: &[(&str, Vec<&str>)]) -> Vec<Target> {
    let mut r = Resolver::new(root.to_string());
    loop {
        match r.next_action() {
            ResolverAction::Done => return r.targets,
            ResolverAction::LoadManifest(p) => {
                let (_, m) = manifests
                    .iter()
                    .find(|(mp, _)| *mp == p)
                    .unwrap_or_else(|| panic!("no manifest scripted for {p}"));
                r.on_manifest(m, &p);
            }
            ResolverAction::ListDirs(p) => {
                let (_, ds) = dirs
                    .iter()
                    .find(|(dp, _)| *dp == p)
                    .unwrap_or_else(|| panic!("no directory listing scripted for {p}"));
                let owned: Vec<String> = ds.iter().map(|d| d.to_string()).collect();
                r.on_dirs(&owned, &p);
            }
        }
    }
}

#[test]
fn direct_targets_come_bins_first_in_declaration_order() {
    let m = manifest(
        vec![product("b1", Some("src/b1.rs")), product("b2", None)],
        vec![product("e1", Some("examples/e1.rs"))],
        vec![],
    );
    let ts = targets_from_manifest(&m, "root");
    assert_eq!(ts.len(), 3);
    let (rt, kind) = run_fields(&ts[0]);
    assert_eq!(kind, "bin");
    assert_eq!(rt.name, "b1");
    assert_eq!(rt.path, "root/src/b1.rs");
    assert_eq!(rt.workspace_path, "root");
    let (rt, kind) = run_fields(&ts[1]);
    assert_eq!(kind, "bin");
    assert_eq!(rt.name, "b2");
    assert_eq!(rt.path, "root/");
    let (rt, kind) = run_fields(&ts[2]);
    assert_eq!(kind, "example");
    assert_eq!(rt.name, "e1");
    assert_eq!(rt.path, "root/examples/e1.rs");
}

#[test]
fn join_path_appends_behind_a_separator() {
    assert_eq!(join_path("root", "sub"), "root/sub");
    assert_eq!(join_path("root", ""), "root/");
    assert_eq!(join_path("root", "/abs"), "/abs");
}

#[test]
fn omitted_name_stays_empty() {
    let m = manifest(vec![ProductDecl { name: None, path: Some("s.rs".to_string()) }], vec![], vec![]);
    let ts = targets_from_manifest(&m, ".");
    assert_eq!(ts.len(), 1);
    let (rt, _) = run_fields(&ts[0]);
    assert_eq!(rt.name, "");
    assert_eq!(rt.path, "./s.rs");
}

#[test]
fn scenario_wildcard_members_resolve_in_listing_order() {
    // the root manifest declares no products of its own, only "crates/*";
    // "crates" holds "a" and "b", each with one binary
    let targets = drive(
        "root",
        &[
            ("root", manifest(vec![], vec![], vec!["crates/*"])),
            ("root/crates/a", manifest(vec![product("abin", Some("a.rs"))], vec![], vec![])),
            ("root/crates/b", manifest(vec![product("bbin", Some("b.rs"))], vec![], vec![])),
        ],
        &[("root/crates", vec!["a", "b"])],
    );
    assert_eq!(targets.len(), 2);
    let (rt, kind) = run_fields(&targets[0]);
    assert_eq!(kind, "bin");
    assert_eq!(rt.name, "abin");
    assert_eq!(rt.workspace_path, "root/crates/a");
    let (rt, kind) = run_fields(&targets[1]);
    assert_eq!(kind, "bin");
    assert_eq!(rt.name, "bbin");
    assert_eq!(rt.workspace_path, "root/crates/b");
}

#[test]
fn scenario_self_referential_member_is_skipped() {
    // a manifest that lists itself as a member must not recurse
    let targets = drive(
        "root",
        &[("root", manifest(vec![product("only", Some("m.rs"))], vec![], vec!["."]))],
        &[],
    );
    assert_eq!(targets.len(), 1);
    let (rt, _) = run_fields(&targets[0]);
    assert_eq!(rt.name, "only");
}

#[test]
fn slash_dot_member_is_skipped_too() {
    let targets = drive(
        "root",
        &[("root", manifest(vec![], vec![], vec!["/."]))],
        &[],
    );
    assert_eq!(targets.len(), 0);
}

#[test]
fn members_resolve_depth_first_after_own_targets() {
    let targets = drive(
        "root",
        &[
            (
                "root",
                manifest(vec![product("own", Some("o.rs"))], vec![], vec!["m1", "m2"]),
            ),
            (
                "root/m1",
                manifest(vec![product("first", Some("f.rs"))], vec![], vec!["inner"]),
            ),
            ("root/m1/inner", manifest(vec![product("deep", Some("d.rs"))], vec![], vec![])),
            ("root/m2", manifest(vec![product("second", Some("s.rs"))], vec![], vec![])),
        ],
        &[],
    );
    let names: Vec<&str> = targets
        .iter()
        .map(|t| run_fields(t).0.name.as_str())
        .collect();
    assert_eq!(names, vec!["own", "first", "deep", "second"]);
}
