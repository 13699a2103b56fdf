use lice::config::Config;
use lice::engine::{Dispatch, LiceEngine};
use lice::exclude::is_excluded;
use lice::walk::{Step, Walk};

fn parts(v: &[&str]) -> Vec<Option<String>> {
    v.iter().map(|s| Some(s.to_string())).collect()
}

fn engine(jobs: Option<usize>, excludes: &[&str]) -> LiceEngine {
    let config = Config {
        license_file: Some("H".to_string()),
        excludes: excludes.iter().map(|s| s.to_string()).collect(),
        targets: vec![".".to_string()],
        jobs,
    };
    LiceEngine::new(config, "N".to_string())
}

#[test]
fn exclusion_is_exact_component_match() {
    let pats = vec!["vendor".to_string(), "build".to_string()];
    assert!(is_excluded(&parts(&["src", "vendor", "a.rs"]), &pats));
    assert!(is_excluded(&parts(&["build"]), &pats));
    assert!(!is_excluded(&parts(&["src", "vendored", "a.rs"]), &pats));
    assert!(!is_excluded(&parts(&["src", "my-build", "a.rs"]), &pats));
    assert!(!is_excluded(&parts(&[]), &pats));
}

#[test]
fn undecodable_component_is_excluded() {
    let mut p = parts(&["src"]);
    p.push(None);
    assert!(is_excluded(&p, &Vec::new()));
    assert!(engine(None, &[]).is_excluded(&p));
    assert!(!engine(None, &[]).is_excluded(&parts(&["src", "a.rs"])));
}

#[test]
fn walk_pops_last_pushed_first() {
    let mut w = Walk::new(vec![parts(&["a"]), parts(&["b"])]);
    let none: Vec<String> = Vec::new();
    assert_eq!(w.next(&none), Step::Candidate(parts(&["b"])));
    w.descend(&parts(&["b"]), vec![Some("x.rs".to_string()), Some("y.rs".to_string())]);
    assert_eq!(w.next(&none), Step::Candidate(parts(&["b", "y.rs"])));
    assert_eq!(w.next(&none), Step::Candidate(parts(&["b", "x.rs"])));
    assert_eq!(w.next(&none), Step::Candidate(parts(&["a"])));
    assert!(w.is_done());
    assert_eq!(w.next(&none), Step::Finished);
}

#[test]
fn excluded_directory_hides_everything_below() {
    let excludes = vec!["vendor".to_string()];
    let tree: Vec<(Vec<Option<String>>, Vec<&str>)> = vec![
        (parts(&["root"]), vec!["vendor", "src", "main.rs"]),
        (parts(&["root", "vendor"]), vec!["dep", "lib.rs"]),
        (parts(&["root", "vendor", "dep"]), vec!["deep.rs"]),
        (parts(&["root", "src"]), vec!["a.rs", "vendor"]),
        (parts(&["root", "src", "vendor"]), vec!["b.rs"]),
    ];
    let mut w = Walk::new(vec![parts(&["root"])]);
    let mut files: Vec<Vec<Option<String>>> = Vec::new();
    loop {
        match w.next(&excludes) {
            Step::Finished => break,
            Step::Excluded(p) => assert!(p.iter().any(|c| c.as_deref() == Some("vendor"))),
            Step::Candidate(p) => match tree.iter().find(|(d, _)| *d == p) {
                Some((_, names)) => {
                    w.descend(&p, names.iter().map(|n| Some(n.to_string())).collect())
                }
                None => files.push(p),
            },
        }
    }
    files.sort();
    assert_eq!(files, vec![parts(&["root", "main.rs"]), parts(&["root", "src", "a.rs"])]);
}

#[test]
fn dispatch_modes() {
    assert_eq!(engine(Some(1), &[]).dispatch(Some(8)), Dispatch::Sequential);
    assert_eq!(engine(Some(3), &[]).dispatch(Some(8)), Dispatch::Pooled(3));
    assert_eq!(engine(None, &[]).dispatch(Some(8)), Dispatch::Pooled(8));
    assert_eq!(engine(None, &[]).dispatch(Some(1)), Dispatch::Sequential);
    assert_eq!(engine(None, &[]).dispatch(None), Dispatch::Pooled(4));
    assert_eq!(engine(Some(0), &[]).dispatch(Some(8)), Dispatch::Sequential);
}
