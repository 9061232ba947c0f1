use factorize::bundler::{Bundler, BundlerOptions, Module, ModuleGraph, ScanState};
use factorize::imports::{extract_quoted, parse_imports};
use factorize::resolve::{pick_candidate, resolve_candidates};

fn s(x: &str) -> String {
    x.to_string()
}

#[test]
fn imports_are_found_after_each_marker() {
    let code = "import x from './a';\nimport './b.css'\nconst y = require(\"./c\");\nimport z from 'react';\n";
    assert_eq!(parse_imports(code), vec![s("./a"), s("./b.css"), s("./c")]);
}

#[test]
fn one_line_can_give_several_specifiers() {
    // `from ` and `require(` both occur on this line.
    let code = "  x from './a' ; require('./b')  ";
    assert_eq!(parse_imports(code), vec![s("./a"), s("./b")]);
}

#[test]
fn carriage_returns_and_indentation_are_trimmed() {
    let code = "\t import \"./x\"\r\n";
    assert_eq!(parse_imports(code), vec![s("./x")]);
}

#[test]
fn unterminated_quotes_and_bare_specifiers_are_skipped() {
    assert_eq!(parse_imports("import './never"), Vec::<String>::new());
    assert_eq!(parse_imports("import 'lodash'"), Vec::<String>::new());
    assert_eq!(parse_imports(""), Vec::<String>::new());
}

#[test]
fn quoted_text_after_parentheses_and_spaces() {
    assert_eq!(extract_quoted("( './a')"), Some(s("./a")));
    assert_eq!(extract_quoted("\"x\" more"), Some(s("x")));
    assert_eq!(extract_quoted("x'y'"), None);
    assert_eq!(extract_quoted("'open"), None);
}

#[test]
fn candidates_are_tried_in_order() {
    let c = resolve_candidates("./util", "/src/main.js").unwrap();
    assert_eq!(
        c,
        vec![
            s("/src/./util"),
            s("/src/./util.js"),
            s("/src/./util.ts"),
            s("/src/./util/index.js"),
            s("/src/./util/index.ts"),
        ]
    );
    assert_eq!(resolve_candidates("./a", "/"), None);
}

#[test]
fn the_first_file_is_picked() {
    let c = vec![s("a"), s("b"), s("c")];
    assert_eq!(pick_candidate(c.clone(), &vec![false, true, true]), Some(s("b")));
    assert_eq!(pick_candidate(c, &vec![false, false, false]), None);
}

fn scan_all(entry: &str, edges: &[(&str, &[&str])]) -> ModuleGraph {
    let mut st = ScanState::new(s(entry));
    while let Some(id) = st.next_module() {
        let deps: Vec<Option<String>> = edges
            .iter()
            .find(|(m, _)| *m == id)
            .map(|(_, ds)| ds.iter().map(|d| Some(s(d))).collect())
            .unwrap_or_default();
        st.finish_module(format!("code of {id}"), deps);
    }
    st.into_graph()
}

#[test]
fn each_module_is_scanned_once_breadth_first() {
    let g = scan_all("/e.js", &[("/e.js", &["/a.js", "/b.js"]), ("/a.js", &["/b.js", "/e.js"]), ("/b.js", &[])]);
    let ids: Vec<&str> = g.modules.iter().map(|m| m.id.as_str()).collect();
    assert_eq!(ids, vec!["/e.js", "/a.js", "/b.js"]);
    assert_eq!(g.modules[1].deps, vec![s("/b.js"), s("/e.js")]);
}

#[test]
fn next_module_repeats_the_pending_module() {
    let mut st = ScanState::new(s("/e.js"));
    assert_eq!(st.next_module(), Some(s("/e.js")));
    assert_eq!(st.next_module(), Some(s("/e.js")));
    st.finish_module(s(""), vec![None, Some(s("/x.js"))]);
    assert_eq!(st.next_module(), Some(s("/x.js")));
    st.finish_module(s(""), vec![]);
    assert_eq!(st.next_module(), None);
    let g = st.into_graph();
    assert_eq!(g.modules[0].deps, vec![s("/x.js")]);
}

#[test]
fn link_puts_imports_first_and_generate_concatenates() {
    let b: Bundler<()> = Bundler::new(BundlerOptions { input: s("/e.js") });
    assert_eq!(b.options().input, "/e.js");
    assert!(b.plugins().is_empty());
    let g = ModuleGraph {
        modules: vec![
            Module { id: s("/e.js"), code: s("main();  \n\n"), deps: vec![s("/a.js")] },
            Module { id: s("/a.js"), code: s("lib();"), deps: vec![] },
        ],
    };
    let linked = b.link(g);
    let out = b.generate(linked);
    assert_eq!(out.modules, vec![s("/a.js"), s("/e.js")]);
    assert_eq!(out.code, "// === /a.js ===\nlib();\n\n// === /e.js ===\nmain();\n\n");
}

#[test]
fn link_orders_an_import_shared_by_two_modules_first() {
    // main imports a and b, b imports a: scan order is main, a, b.
    let b: Bundler<()> = Bundler::new(BundlerOptions { input: s("/main.js") });
    let g = ModuleGraph {
        modules: vec![
            Module { id: s("/main.js"), code: s("m"), deps: vec![s("/a.js"), s("/b.js")] },
            Module { id: s("/a.js"), code: s("a"), deps: vec![] },
            Module { id: s("/b.js"), code: s("b"), deps: vec![s("/a.js")] },
        ],
    };
    let ids: Vec<String> = b.link(g).modules.into_iter().map(|m| m.id).collect();
    assert_eq!(ids, vec![s("/a.js"), s("/b.js"), s("/main.js")]);
}

#[test]
fn link_keeps_every_module_of_an_import_cycle() {
    // a and b import each other; c imports a.
    let b: Bundler<()> = Bundler::new(BundlerOptions { input: s("/c.js") });
    let g = ModuleGraph {
        modules: vec![
            Module { id: s("/c.js"), code: s("c"), deps: vec![s("/a.js")] },
            Module { id: s("/a.js"), code: s("a"), deps: vec![s("/b.js")] },
            Module { id: s("/b.js"), code: s("b"), deps: vec![s("/a.js")] },
        ],
    };
    let ids: Vec<String> = b.link(g).modules.into_iter().map(|m| m.id).collect();
    // No module is ready, so the last waiting one (b) is taken; then a is
    // ready, and the entry c comes last.
    assert_eq!(ids, vec![s("/b.js"), s("/a.js"), s("/c.js")]);
}

#[test]
fn link_ends_with_the_entry_when_it_is_on_a_cycle() {
    let b: Bundler<()> = Bundler::new(BundlerOptions { input: s("/e.js") });
    let g = ModuleGraph {
        modules: vec![
            Module { id: s("/e.js"), code: s("e"), deps: vec![s("/x.js")] },
            Module { id: s("/x.js"), code: s("x"), deps: vec![s("/e.js")] },
        ],
    };
    let out = b.generate(b.link(g));
    assert_eq!(out.modules, vec![s("/x.js"), s("/e.js")]);
}

#[test]
fn link_keeps_scan_order_reversed_for_independent_imports() {
    let b: Bundler<()> = Bundler::new(BundlerOptions { input: s("/m.js") });
    let g = ModuleGraph {
        modules: vec![
            Module { id: s("/m.js"), code: s("m"), deps: vec![s("/a.js"), s("/b.js")] },
            Module { id: s("/a.js"), code: s("a"), deps: vec![] },
            Module { id: s("/b.js"), code: s("b"), deps: vec![] },
        ],
    };
    let ids: Vec<String> = b.link(g).modules.into_iter().map(|m| m.id).collect();
    assert_eq!(ids, vec![s("/b.js"), s("/a.js"), s("/m.js")]);
}

#[test]
fn plugins_are_kept_in_order() {
    let b = Bundler::with_plugins(BundlerOptions { input: s("x") }, vec![1, 2, 3]);
    assert_eq!(b.plugins(), &vec![1, 2, 3]);
}
