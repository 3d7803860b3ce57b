use bundler::engine::{bundle, formatted_or_raw, render, BundleError, Workspace};
use bundler::graph::{Dep, Graph, Package, Target, TargetKind};
use bundler::source::{SourceFile, SrcPath, Stem};
use bundler::tree::{strip_leading_segment, Item, Token};

fn s(x: &str) -> String {
    x.to_string()
}

fn dir(parts: &[&str]) -> Vec<String> {
    parts.iter().map(|p| s(p)).collect()
}

fn named(d: &[&str], stem: &str) -> SrcPath {
    SrcPath { dir: dir(d), stem: Stem::Named(s(stem)) }
}

/// Splits `text` on spaces into tokens; `::` and `.` get their own variants.
fn toks(text: &str) -> Vec<Token> {
    text.split_whitespace()
        .map(|t| match t {
            "::" => Token::PathSep,
            "." => Token::Dot,
            _ if t.chars().all(|c| c.is_alphanumeric() || c == '_') => Token::Ident(s(t)),
            _ => Token::Other(s(t)),
        })
        .collect()
}

fn other(text: &str) -> Item {
    Item::Other { tokens: toks(text) }
}

fn extern_crate(name: &str) -> Item {
    Item::ExternCrate { name: s(name), tokens: toks(&format!("extern crate {} ;", name)) }
}

fn use_of(lead: &str, text: &str) -> Item {
    Item::Use { lead: Some(s(lead)), tokens: toks(text) }
}

fn module(name: &str) -> Item {
    Item::Module { head: Vec::new(), name: s(name), content: None }
}

fn target(name: &str, kind: TargetKind, d: &[&str], stem: &str) -> Target {
    Target { name: s(name), kinds: vec![kind], src_path: named(d, stem) }
}

fn file(path: SrcPath, items: Vec<Item>) -> SourceFile {
    SourceFile { path, items: Some(items) }
}

fn text(items: &Vec<Item>) -> String {
    render(items).join(" ")
}

/// One package `app` with a binary at `app/src/main.rs` and, when `lib` is set,
/// a library of that name at `app/src/lib.rs`.
fn single(lib: Option<&str>, deps: Vec<Dep>, files: Vec<SourceFile>, skip: &[&str]) -> Workspace {
    let mut targets = vec![target("app", TargetKind::Bin, &["app", "src"], "main")];
    if let Some(l) = lib {
        targets.push(target(l, TargetKind::Lib, &["app", "src"], "lib"));
    }
    let mut packages = vec![Package { name: s("app"), targets, deps }];
    packages.push(Package {
        name: s("foo"),
        targets: vec![target("foo", TargetKind::Lib, &["foo", "src"], "lib")],
        deps: Vec::new(),
    });
    Workspace { graph: Graph { root: 0, packages }, files, skip: dir(skip) }
}

#[test]
fn sibling_library_merges_flat() {
    let main = vec![
        extern_crate("mylib"),
        use_of("mylib", "use mylib :: f ;"),
        other("fn main ( ) { mylib :: f ( ) ; }"),
    ];
    let lib = vec![other("pub fn f ( ) { }")];
    let ws = single(
        Some("mylib"),
        Vec::new(),
        vec![file(named(&["app", "src"], "main"), main), file(named(&["app", "src"], "lib"), lib)],
        &["std", "core"],
    );
    let mut warnings = Vec::new();
    let out = bundle(&ws, &mut warnings).unwrap();
    assert_eq!(text(&out), "pub fn f ( ) { } fn main ( ) { f ( ) ; }");
    assert!(warnings.is_empty());
}

#[test]
fn library_items_appear_once_unwrapped() {
    let main = vec![extern_crate("mylib"), other("fn main ( ) { }")];
    let lib = vec![other("pub fn f ( ) { }"), other("pub fn g ( ) { }")];
    let ws = single(
        Some("mylib"),
        Vec::new(),
        vec![file(named(&["app", "src"], "main"), main), file(named(&["app", "src"], "lib"), lib)],
        &[],
    );
    let out = bundle(&ws, &mut Vec::new()).unwrap();
    assert_eq!(out.len(), 3);
    let t = text(&out);
    assert_eq!(t.matches("pub fn f").count(), 1);
    assert!(!t.contains("mod"));
}

#[test]
fn module_file_is_inlined() {
    let main = vec![module("a"), other("fn main ( ) { a :: g ( ) ; }")];
    let a = vec![other("pub fn g ( ) { }")];
    let ws = single(
        None,
        Vec::new(),
        vec![file(named(&["app", "src"], "main"), main), file(named(&["app", "src"], "a"), a)],
        &[],
    );
    let out = bundle(&ws, &mut Vec::new()).unwrap();
    match &out[0] {
        Item::Module { name, content: Some(items), .. } => {
            assert_eq!(name, "a");
            assert_eq!(items.len(), 1);
        }
        _ => panic!("module a was not inlined"),
    }
    assert_eq!(text(&out), "mod a { pub fn g ( ) { } } fn main ( ) { a :: g ( ) ; }");
}

#[test]
fn module_directory_entry_file_is_used() {
    let main = vec![module("b")];
    let b = vec![module("c")];
    let c = vec![other("fn h ( ) { }")];
    let ws = single(
        None,
        Vec::new(),
        vec![
            file(named(&["app", "src"], "main"), main),
            file(SrcPath { dir: dir(&["app", "src", "b"]), stem: Stem::ModRs }, b),
            file(named(&["app", "src", "b"], "c"), c),
        ],
        &[],
    );
    let out = bundle(&ws, &mut Vec::new()).unwrap();
    assert_eq!(text(&out), "mod b { mod c { fn h ( ) { } } }");
}

#[test]
fn sibling_file_wins_over_directory() {
    let ws = single(
        None,
        Vec::new(),
        vec![
            file(named(&["app", "src"], "main"), vec![module("a")]),
            file(named(&["app", "src"], "a"), vec![other("fn from_file ( ) { }")]),
            file(SrcPath { dir: dir(&["app", "src", "a"]), stem: Stem::ModRs }, vec![other("fn from_dir ( ) { }")]),
        ],
        &[],
    );
    let out = bundle(&ws, &mut Vec::new()).unwrap();
    assert_eq!(text(&out), "mod a { fn from_file ( ) { } }");
}

#[test]
fn skipped_crate_is_kept_verbatim() {
    let ws = single(
        None,
        vec![Dep { name: s("foo"), pkg: 1 }],
        vec![file(named(&["app", "src"], "main"), vec![extern_crate("foo"), other("fn main ( ) { }")])],
        &["foo"],
    );
    let mut warnings = Vec::new();
    let out = bundle(&ws, &mut warnings).unwrap();
    assert_eq!(text(&out), "extern crate foo ; fn main ( ) { }");
    assert!(warnings.is_empty());
}

#[test]
fn dependency_is_wrapped_in_module() {
    let ws = single(
        None,
        vec![Dep { name: s("foo"), pkg: 1 }],
        vec![
            file(named(&["app", "src"], "main"), vec![extern_crate("foo"), other("fn main ( ) { foo :: x ( ) ; }")]),
            file(named(&["foo", "src"], "lib"), vec![module("inner"), other("pub fn x ( ) { }")]),
            file(named(&["foo", "src"], "inner"), vec![other("fn y ( ) { }")]),
        ],
        &[],
    );
    let out = bundle(&ws, &mut Vec::new()).unwrap();
    assert_eq!(
        text(&out),
        "pub mod foo { mod inner { fn y ( ) { } } pub fn x ( ) { } } fn main ( ) { foo :: x ( ) ; }"
    );
}

#[test]
fn unresolved_crate_is_dropped_with_warning() {
    let ws = single(
        None,
        Vec::new(),
        vec![file(named(&["app", "src"], "main"), vec![extern_crate("bar"), other("fn main ( ) { }")])],
        &["std"],
    );
    let mut warnings = Vec::new();
    let out = bundle(&ws, &mut warnings).unwrap();
    assert_eq!(text(&out), "fn main ( ) { }");
    assert_eq!(warnings, vec![s("bar")]);
}

#[test]
fn missing_module_fails() {
    let ws = single(
        None,
        Vec::new(),
        vec![file(named(&["app", "src"], "main"), vec![module("b")])],
        &[],
    );
    match bundle(&ws, &mut Vec::new()) {
        Err(BundleError::ModuleNotFound(name)) => assert_eq!(name, "b"),
        r => panic!("unexpected result {:?}", r),
    }
}

#[test]
fn self_declaring_module_fails() {
    let ws = single(
        None,
        Vec::new(),
        vec![
            file(named(&["app", "src"], "main"), vec![module("a")]),
            file(named(&["app", "src"], "a"), vec![module("a")]),
        ],
        &[],
    );
    assert!(matches!(bundle(&ws, &mut Vec::new()), Err(BundleError::TooDeep)));
}

#[test]
fn package_without_target_fails() {
    let ws = Workspace {
        graph: Graph { root: 0, packages: vec![Package { name: s("p"), targets: Vec::new(), deps: Vec::new() }] },
        files: Vec::new(),
        skip: Vec::new(),
    };
    assert!(matches!(bundle(&ws, &mut Vec::new()), Err(BundleError::NoTarget)));
}

#[test]
fn dependency_without_library_fails() {
    let mut ws = single(
        None,
        vec![Dep { name: s("foo"), pkg: 1 }],
        vec![file(named(&["app", "src"], "main"), vec![extern_crate("foo")])],
        &[],
    );
    ws.graph.packages[1].targets[0].kinds = vec![TargetKind::Bin];
    match bundle(&ws, &mut Vec::new()) {
        Err(BundleError::NoLibrary(name)) => assert_eq!(name, "foo"),
        r => panic!("unexpected result {:?}", r),
    }
}

#[test]
fn unparsable_and_missing_files_fail() {
    let mut ws = single(None, Vec::new(), Vec::new(), &[]);
    assert!(matches!(bundle(&ws, &mut Vec::new()), Err(BundleError::Unreadable)));
    ws.files.push(SourceFile { path: named(&["app", "src"], "main"), items: None });
    assert!(matches!(bundle(&ws, &mut Vec::new()), Err(BundleError::Unparsable)));
}

#[test]
fn library_root_keeps_its_paths() {
    // A package with only a library is expanded from it: no flat merge takes place,
    // so a declaration of its own name is an unresolved reference.
    let ws = Workspace {
        graph: Graph {
            root: 0,
            packages: vec![Package {
                name: s("onlylib"),
                targets: vec![target("onlylib", TargetKind::Lib, &["l"], "lib")],
                deps: Vec::new(),
            }],
        },
        files: vec![file(named(&["l"], "lib"), vec![extern_crate("onlylib"), other("pub fn z ( ) { }")])],
        skip: Vec::new(),
    };
    let mut warnings = Vec::new();
    let out = bundle(&ws, &mut warnings).unwrap();
    assert_eq!(text(&out), "pub fn z ( ) { }");
    assert_eq!(warnings, vec![s("onlylib")]);
}

#[test]
fn leading_segment_is_stripped_only_at_path_start() {
    let t = toks("mylib :: f ( ) ; x . mylib ; a :: mylib :: g ; mylib ; mylib :: b :: c");
    let r = strip_leading_segment(&t, &s("mylib"));
    let out = render(&vec![Item::Other { tokens: r }]).join(" ");
    assert_eq!(out, "f ( ) ; x . mylib ; a :: mylib :: g ; mylib ; b :: c");
}

#[test]
fn other_package_paths_are_untouched() {
    let t = toks("other :: f ( )");
    let r = strip_leading_segment(&t, &s("mylib"));
    assert_eq!(render(&vec![Item::Other { tokens: r }]).join(" "), "other :: f ( )");
}

#[test]
fn formatter_failure_falls_back() {
    assert_eq!(formatted_or_raw(s("fn a(){}"), None), "fn a(){}");
    assert_eq!(formatted_or_raw(s("fn a(){}"), Some(s("fn a() {}\n"))), "fn a() {}\n");
}
