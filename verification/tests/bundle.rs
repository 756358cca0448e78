use rpack::codegen::{
    bundle, codegen, generate_module_id, map_statements, module_id_from_digest, require_binding,
    ModuleId, BOOTSTRAP,
};
use rpack::context::Context;
use rpack::dependency::{parse_dependency_graph, resolve_paths_to_absolute, DependencyGraph};
use rpack::error::BuildError;
use rpack::io_utils::{read_file, FileEntry, FileKind, FileSystem};
use rpack::javascript::ast::{
    Expression, ImportBinding, ImportSpecifier, Literal, Pattern, Statement, VariableDeclaration,
    VariableDeclarationKind, VariableDeclarator,
};
use rpack::javascript::error::ParseErrorKind;
use rpack::javascript::parse_js_module;
use rpack::javascript::queries::get_dependencies;

fn file(path: &str, canonical: &str, content: &str) -> FileEntry {
    FileEntry {
        path: path.to_string(),
        kind: FileKind::File,
        canonical: canonical.to_string(),
        content: content.to_string(),
    }
}

fn directory(path: &str) -> FileEntry {
    FileEntry {
        path: path.to_string(),
        kind: FileKind::Directory,
        canonical: path.to_string(),
        content: String::new(),
    }
}

fn missing(path: &str) -> FileEntry {
    FileEntry {
        path: path.to_string(),
        kind: FileKind::Missing,
        canonical: String::new(),
        content: String::new(),
    }
}

fn view(entries: Vec<FileEntry>) -> FileSystem {
    let mut fs = FileSystem::new();
    fs.add(directory("/tmp/root"));
    for entry in entries {
        fs.add(entry);
    }
    fs
}

/// The edges of the graph, in the order in which they were added.
fn edges(graph: &DependencyGraph) -> Vec<(usize, usize)> {
    graph.graph.raw_edges().iter().map(|e| (e.source().index(), e.target().index())).collect()
}

fn context(fs: &FileSystem) -> Context {
    Context::new(fs, "/tmp/root").unwrap()
}

#[test]
fn module_id_is_the_start_of_the_digest() {
    // SHA-512 of "abc" begins with ddaf35a1, that of the empty text with cf83e135
    assert_eq!(generate_module_id("abc"), "ddaf");
    assert_eq!(generate_module_id(""), "cf83");
    assert_eq!(generate_module_id("var x").len(), 4);
    assert_ne!(generate_module_id("var x"), generate_module_id("var y"));
}

#[test]
fn entry_with_one_import_gives_two_entries() {
    let fs = view(vec![
        file("/proj/main.js", "/proj/main.js", "import x from './a.js'"),
        file("/proj/./a.js", "/proj/a.js", "var x"),
        file("/proj/a.js", "/proj/a.js", "var x"),
    ]);
    let (graph, entry) = parse_dependency_graph(&context(&fs), &fs, "/proj/main.js").unwrap();
    assert_eq!(entry, 0);
    assert_eq!(graph.node_count(), 2);
    assert_eq!(graph.edge_count(), 1);
    let entry_id = generate_module_id("import x from './a.js'");
    let other_id = generate_module_id("var x");
    assert_ne!(entry_id, other_id);
    let bundle = codegen(&graph, entry).unwrap();
    let expected = format!(
        "{}var modules = {{'{}':function(module,exports,_rpack_require){{var x = _rpack_require('{}')}},'{}':function(module,exports,_rpack_require){{var x}}}};_rpack_bootstrap(modules,'{}')",
        BOOTSTRAP, entry_id, other_id, other_id, entry_id
    );
    assert_eq!(bundle, expected);
}

#[test]
fn missing_relative_import_is_a_resolution_error() {
    let fs = view(vec![
        file("/proj/main.js", "/proj/main.js", "import x from './missing.js'"),
        missing("/proj/./missing.js"),
    ]);
    let result = parse_dependency_graph(&context(&fs), &fs, "/proj/main.js");
    assert!(matches!(result, Err(BuildError::NotFound(ref s)) if s == "./missing.js"));
    assert_eq!(
        BuildError::NotFound("./missing.js".to_string()).to_string(),
        "Could not find './missing.js'"
    );
}

#[test]
fn bare_import_falls_back_to_the_index_of_a_directory() {
    let fs = view(vec![
        directory("/tmp/root/lib"),
        file("/tmp/root/lib/index.js", "/tmp/root/lib/index.js", "var lib"),
    ]);
    let resolved = context(&fs).resolve(&fs, "/proj/main.js", "lib");
    assert_eq!(resolved, Ok("/tmp/root/lib/index.js".to_string()));
}

#[test]
fn resolving_twice_gives_the_same_path() {
    let fs = view(vec![
        file("/proj/./a.js", "/proj/a.js", "var x"),
        missing("/proj/./b"),
        file("/proj/./b.js", "/proj/b.js", "var y"),
    ]);
    let context = context(&fs);
    let first = context.resolve(&fs, "/proj/main.js", "./a.js");
    let second = context.resolve(&fs, "/proj/main.js", "./a.js");
    assert_eq!(first, Ok("/proj/a.js".to_string()));
    assert_eq!(first, second);
    // a specifier without extension gets the extension js
    assert_eq!(context.resolve(&fs, "/proj/main.js", "./b"), Ok("/proj/b.js".to_string()));
}

#[test]
fn two_specifiers_of_one_file_share_a_node() {
    let fs = view(vec![
        file("/proj/main.js", "/proj/main.js", "import a from './a.js'; import b from './lib/../a.js'"),
        file("/proj/./a.js", "/proj/a.js", "var x"),
        file("/proj/./lib/../a.js", "/proj/a.js", "var x"),
        file("/proj/a.js", "/proj/a.js", "var x"),
    ]);
    let (graph, entry) = parse_dependency_graph(&context(&fs), &fs, "/proj/main.js").unwrap();
    assert_eq!(graph.node_count(), 2);
    assert_eq!(graph.edge_count(), 2);
    assert_eq!(graph.find("/proj/a.js"), Some(1));
    assert_eq!(graph.modules[entry].path, "/proj/main.js");
    assert_eq!(edges(&graph), vec![(0, 1), (0, 1)]);
}

#[test]
fn import_cycle_builds_two_nodes_and_two_edges() {
    let fs = view(vec![
        file("/proj/a.js", "/proj/a.js", "import b from './b.js'"),
        file("/proj/b.js", "/proj/b.js", "import a from './a.js'"),
        file("/proj/./a.js", "/proj/a.js", ""),
        file("/proj/./b.js", "/proj/b.js", ""),
    ]);
    let (graph, entry) = parse_dependency_graph(&context(&fs), &fs, "/proj/a.js").unwrap();
    assert_eq!(graph.node_count(), 2);
    assert_eq!(graph.edge_count(), 2);
    assert_eq!(graph.modules[entry].path, "/proj/a.js");
    assert_eq!(graph.modules[1].path, "/proj/b.js");
    assert_eq!(edges(&graph), vec![(1, 0), (0, 1)]);
    let bundle = codegen(&graph, entry).unwrap();
    let a = generate_module_id("import b from './b.js'");
    let b = generate_module_id("import a from './a.js'");
    assert!(bundle.contains(&format!("'{}':function(module,exports,_rpack_require){{var b = _rpack_require('{}')}}", a, b)));
    assert!(bundle.contains(&format!("'{}':function(module,exports,_rpack_require){{var a = _rpack_require('{}')}}", b, a)));
    assert!(bundle.ends_with(&format!("_rpack_bootstrap(modules,'{}')", a)));
}

#[test]
fn unknown_path_asks_for_a_look() {
    let fs = view(vec![file("/proj/main.js", "/proj/main.js", "import x from './a.js'")]);
    let result = parse_dependency_graph(&context(&fs), &fs, "/proj/main.js");
    assert!(matches!(result, Err(BuildError::Unknown(ref p)) if p == "/proj/./a.js"));
    let none = FileSystem::new();
    assert!(matches!(read_file(&none, "/x"), Err(BuildError::Unknown(ref p)) if p == "/x"));
}

#[test]
fn syntax_error_names_the_file() {
    let fs = view(vec![file("/proj/main.js", "/proj/main.js", "var 1")]);
    let result = parse_js_module(&fs, "/proj/main.js");
    match result {
        Err(BuildError::Syntax(path, error)) => {
            assert_eq!(path, "/proj/main.js");
            assert_eq!(error.kind, ParseErrorKind::Identifier);
            assert_eq!(error.position, 4);
            assert_eq!(
                BuildError::Syntax(path, error).to_string(),
                "Error in /proj/main.js\nexpected an identifier"
            );
        }
        other => panic!("{:?}", other),
    }
}

#[test]
fn directory_cannot_be_read() {
    let fs = view(vec![directory("/proj")]);
    assert!(matches!(read_file(&fs, "/proj"), Err(BuildError::Unreadable(ref p)) if p == "/proj"));
}

#[test]
fn search_path_must_exist() {
    let fs = view(vec![missing("/nowhere"), directory("/other")]);
    assert!(matches!(Context::new(&fs, "/tmp/root:/nowhere"), Err(BuildError::NotFound(_))));
    assert!(matches!(Context::new(&fs, "/tmp/root:/unseen"), Err(BuildError::Unknown(_))));
    let context = Context::new(&fs, "/tmp/root:/other").unwrap();
    assert_eq!(context.resolve_paths, vec!["/tmp/root".to_string(), "/other".to_string()]);
}

#[test]
fn bare_import_takes_the_first_root_that_has_it() {
    let fs = view(vec![
        directory("/other"),
        missing("/tmp/root/lib.js"),
        file("/other/lib.js", "/other/lib.js", "var lib"),
        missing("/tmp/root/gone"),
        missing("/other/gone"),
    ]);
    let context = Context::new(&fs, "/tmp/root:/other").unwrap();
    assert_eq!(context.resolve(&fs, "/proj/main.js", "lib.js"), Ok("/other/lib.js".to_string()));
    assert!(matches!(
        context.resolve(&fs, "/proj/main.js", "gone"),
        Err(BuildError::NotFound(ref s)) if s == "gone"
    ));
}

#[test]
fn imports_are_pointed_at_canonical_paths() {
    let fs = view(vec![
        file("/proj/main.js", "/proj/main.js", "import x from './a.js' var y"),
        file("/proj/./a.js", "/proj/a.js", "var x"),
    ]);
    let mut module = parse_js_module(&fs, "/proj/main.js").unwrap();
    let context = context(&fs);
    assert_eq!(get_dependencies(&context, &module), vec!["./a.js".to_string()]);
    let deps = resolve_paths_to_absolute(&context, &fs, &mut module).unwrap();
    assert_eq!(deps, vec!["/proj/a.js".to_string()]);
    assert_eq!(module.program.to_string(), "import x from '/proj/a.js';var y");
    assert_eq!(get_dependencies(&context, &module), vec!["/proj/a.js".to_string()]);
}

#[test]
fn import_without_module_is_a_bundling_error() {
    let ids = vec![ModuleId { path: "/proj/a.js".to_string(), id: "abcd".to_string() }];
    let known = Statement::Import(
        ImportSpecifier::ImportDefault("x".to_string()),
        "/proj/a.js".to_string(),
    );
    let bound = map_statements(&ids, known).unwrap();
    assert_eq!(bound.to_string(), "var x = _rpack_require('abcd')");
    assert_eq!(
        bound,
        Statement::VariableDeclaration {
            declaration: VariableDeclaration {
                kind: VariableDeclarationKind::Var,
                declarations: vec![VariableDeclarator {
                    id: Pattern::Id { id: "x".to_string() },
                    init: Some(Expression::Call {
                        callee: Box::new(Expression::Id { id: "_rpack_require".to_string() }),
                        arguments: vec![Expression::Literal {
                            literal: Literal::StringLiteral("abcd".to_string()),
                        }],
                    }),
                }],
            },
        }
    );
    let unknown = Statement::Import(
        ImportSpecifier::ImportDefault("x".to_string()),
        "/proj/b.js".to_string(),
    );
    assert_eq!(map_statements(&ids, unknown), Err(BuildError::MissingModule("/proj/b.js".to_string())));
    assert_eq!(map_statements(&ids, Statement::Debugger), Ok(Statement::Debugger));
}

#[test]
fn named_imports_bind_members() {
    let named = ImportSpecifier::Import(vec![
        ImportBinding { imported: "a".to_string(), local: "a".to_string() },
        ImportBinding { imported: "b".to_string(), local: "c".to_string() },
    ]);
    assert_eq!(
        require_binding(&named, "abcd").to_string(),
        "var a = _rpack_require('abcd').a,c = _rpack_require('abcd').b"
    );
    assert_eq!(
        require_binding(&ImportSpecifier::Import(vec![]), "abcd").to_string(),
        "_rpack_require('abcd')"
    );
    assert_eq!(
        require_binding(&ImportSpecifier::ImportNamespaced("ns".to_string()), "abcd").to_string(),
        "var ns = _rpack_require('abcd')"
    );
}

#[test]
fn empty_graph_has_no_nodes() {
    let graph = DependencyGraph::new();
    assert_eq!(graph.node_count(), 0);
    assert_eq!(graph.edge_count(), 0);
    assert_eq!(graph.find("/proj/a.js"), None);
}

#[test]
fn import_of_an_unreached_module_stops_the_bundle() {
    let fs = view(vec![file("/proj/main.js", "/proj/main.js", "var x")]);
    let (mut graph, entry) = parse_dependency_graph(&context(&fs), &fs, "/proj/main.js").unwrap();
    graph.modules[0].program.body.push(Statement::Import(
        ImportSpecifier::ImportDefault("y".to_string()),
        "/proj/elsewhere.js".to_string(),
    ));
    assert_eq!(
        codegen(&graph, entry),
        Err(BuildError::MissingModule("/proj/elsewhere.js".to_string()))
    );
    assert_eq!(codegen(&graph, 1), Err(BuildError::NoEntry));
}

#[test]
fn canonical_paths_must_be_their_own() {
    let fs = view(vec![
        file("/proj/main.js", "/proj/main.js", "import a from './a.js'"),
        file("/proj/./a.js", "/real/a.js", ""),
        file("/real/a.js", "/elsewhere/a.js", ""),
    ]);
    let result = parse_dependency_graph(&context(&fs), &fs, "/proj/main.js");
    assert!(matches!(result, Err(BuildError::Unreadable(ref p)) if p == "/real/a.js"));
}

#[test]
fn entry_is_known_by_its_canonical_path() {
    let fs = view(vec![
        file("main.js", "/proj/main.js", "import a from './a'; import * as b from 'lib'"),
        file("/proj/main.js", "/proj/main.js", "import a from './a'; import * as b from 'lib'"),
        missing("/proj/./a"),
        file("/proj/./a.js", "/proj/a.js", "import {c} from './main.js'"),
        file("/proj/a.js", "/proj/a.js", "import {c} from './main.js'"),
        file("/proj/./main.js", "/proj/main.js", ""),
        directory("/tmp/root/lib"),
        file("/tmp/root/lib/index.js", "/tmp/root/lib/index.js", "function lib() {}"),
    ]);
    let (graph, entry) = parse_dependency_graph(&context(&fs), &fs, "main.js").unwrap();
    assert_eq!(graph.node_count(), 3);
    assert_eq!(graph.edge_count(), 3);
    assert_eq!(graph.modules[entry].path, "/proj/main.js");
    assert_eq!(
        graph.modules[0].program.to_string(),
        "import a from '/proj/a.js';import * as b from '/tmp/root/lib/index.js'"
    );
    let main = generate_module_id("import a from './a'; import * as b from 'lib'");
    let a = generate_module_id("import {c} from './main.js'");
    let lib = generate_module_id("function lib() {}");
    let bundle = codegen(&graph, entry).unwrap();
    assert!(bundle.starts_with(BOOTSTRAP));
    assert!(bundle.contains(&format!(
        "'{}':function(module,exports,_rpack_require){{var a = _rpack_require('{}');var b = _rpack_require('{}')}}",
        main, a, lib
    )));
    assert!(bundle.contains(&format!(
        "'{}':function(module,exports,_rpack_require){{var c = _rpack_require('{}').c}}",
        a, main
    )));
    assert!(bundle.contains(&format!(
        "'{}':function(module,exports,_rpack_require){{function lib(){{}}}}",
        lib
    )));
}

#[test]
fn identifier_is_the_start_of_a_digest_in_hexadecimal() {
    assert_eq!(module_id_from_digest(&[0xde, 0xad, 0xbe, 0xef]), "dead");
    assert_eq!(module_id_from_digest(&[0x01, 0xf0]), "01f0");
    assert_eq!(module_id_from_digest(&[0x0a]), "0a");
    assert_eq!(module_id_from_digest(&[]), "");
    let id = generate_module_id("any text");
    assert!(id.chars().all(|c| c.is_ascii_digit() || ('a'..='f').contains(&c)));
}

#[test]
fn bundle_holds_the_modules_of_the_order() {
    let fs = view(vec![
        file("/proj/main.js", "/proj/main.js", "import x from './a.js'"),
        file("/proj/./a.js", "/proj/a.js", "var x"),
        file("/proj/a.js", "/proj/a.js", "var x"),
    ]);
    let (graph, entry) = parse_dependency_graph(&context(&fs), &fs, "/proj/main.js").unwrap();
    let entry_id = generate_module_id("import x from './a.js'");
    let other_id = generate_module_id("var x");
    let text = bundle(&graph, entry, &vec![0, 1]).unwrap();
    assert_eq!(Ok(text.clone()), codegen(&graph, entry));
    assert_eq!(text.matches("var modules = {").count(), 1);
    assert_eq!(text.matches(":function(module,exports,_rpack_require){").count(), 2);
    assert!(text.starts_with(BOOTSTRAP));
    assert_eq!(text[BOOTSTRAP.len()..].matches("_rpack_bootstrap(modules,").count(), 1);
    assert!(text.ends_with(&format!("}};_rpack_bootstrap(modules,'{}')", entry_id)));
    // the other order puts the other module first and still starts the entry
    let turned = bundle(&graph, entry, &vec![1, 0]).unwrap();
    assert!(turned.contains(&format!("var modules = {{'{}':", other_id)));
    assert!(turned.ends_with(&format!("_rpack_bootstrap(modules,'{}')", entry_id)));
    // a module that is left out cannot be imported
    assert_eq!(
        bundle(&graph, entry, &vec![0]),
        Err(BuildError::MissingModule("/proj/a.js".to_string()))
    );
    assert_eq!(bundle(&graph, entry, &vec![0, 2]), Err(BuildError::NoEntry));
    assert_eq!(bundle(&graph, 2, &vec![0, 1]), Err(BuildError::NoEntry));
}

#[test]
fn bundle_has_one_entry_for_each_module_that_imports_reach() {
    let fs = view(vec![
        file("/proj/main.js", "/proj/main.js", "import b from './b.js';import c from './c.js'"),
        file("/proj/./b.js", "/proj/b.js", "import d from './d.js';var b"),
        file("/proj/b.js", "/proj/b.js", "import d from './d.js';var b"),
        file("/proj/./c.js", "/proj/c.js", "import d from './d.js';var c"),
        file("/proj/c.js", "/proj/c.js", "import d from './d.js';var c"),
        file("/proj/./d.js", "/proj/d.js", "var d"),
        file("/proj/d.js", "/proj/d.js", "var d"),
    ]);
    let (graph, entry) = parse_dependency_graph(&context(&fs), &fs, "/proj/main.js").unwrap();
    assert_eq!(graph.node_count(), 4);
    assert_eq!(graph.edge_count(), 4);
    let opening = ":function(module,exports,_rpack_require){";
    let text = codegen(&graph, entry).unwrap();
    assert_eq!(text.matches(opening).count(), 4);
    for module in &graph.modules {
        let key = format!("'{}'{}", generate_module_id(&module.source), opening);
        assert_eq!(text.matches(key.as_str()).count(), 1);
    }
    let first = format!("var modules = {{'{}':", generate_module_id(&graph.modules[0].source));
    assert!(text.contains(first.as_str()));
    // from a module further down the walk reaches only what that one imports
    let b = graph.find("/proj/b.js").unwrap();
    let d = graph.find("/proj/d.js").unwrap();
    let part = codegen(&graph, b).unwrap();
    assert_eq!(part.matches(opening).count(), 2);
    assert_eq!(Ok(part), bundle(&graph, b, &vec![b, d]));
}
