use rpack::assets::{Asset, AssetType};
use rpack::codegen::{codegen, BOOTSTRAP};
use rpack::context::{split_at_char, Context};
use rpack::dependency::DependencyGraph;
use rpack::error::BuildError;
use rpack::io_utils::{FileEntry, FileKind, FileSystem};
use rpack::modules::{Module, ModuleType};
use rpack::javascript::error::ParseErrorKind;
use rpack::parser::html::{parse_html_module, resolve_references};
use rpack::parser::{parse_module_graph, ModuleGraph, Page};
use rpack::parser::javascript::parse_javascript_module;
use rpack::parser::plaintext::{parse_plaintext_module, parse_unknown_module};
use rpack::paths::{
    add_js_extension, extension, extension_present, join_paths, parent, set_js_extension,
};
use rpack::text::{append_str, equal, from_chars, same_text, starts_with_at, to_chars};

fn entry(path: &str, kind: FileKind, canonical: &str, content: &str) -> FileEntry {
    FileEntry {
        path: path.to_string(),
        kind,
        canonical: canonical.to_string(),
        content: content.to_string(),
    }
}

#[test]
fn paths_are_taken_apart_and_joined() {
    assert_eq!(parent("/src/main.js"), "/src");
    assert_eq!(parent("/main.js"), "/");
    assert_eq!(parent("main.js"), "");
    assert_eq!(parent("/a/b/"), "/a");
    assert_eq!(parent("/a//b/."), "/a");
    assert_eq!(parent("a/./b"), "a");
    assert_eq!(parent("a/.."), "a");
    assert_eq!(parent("/"), "/");
    assert_eq!(parent(""), "");
    assert_eq!(parent("."), "");
    assert_eq!(join_paths("/src", "./a.js"), "/src/./a.js");
    assert_eq!(join_paths("/src/", "a.js"), "/src/a.js");
    assert_eq!(join_paths("/src", "/abs.js"), "/abs.js");
    assert_eq!(join_paths("", "a.js"), "a.js");
    assert_eq!(join_paths("/src", ""), "/src/");
    assert!(extension_present("/a/b.js"));
    assert!(extension_present("/a/b.js/"));
    assert!(extension_present("b."));
    assert!(!extension_present("/a.d/b"));
    assert!(!extension_present("/a/.hidden"));
    assert!(!extension_present("/a/.."));
    assert!(!extension_present("."));
    assert_eq!(extension("/a/b.tar.gz"), Some("gz".to_string()));
    assert_eq!(extension("a.js/"), Some("js".to_string()));
    assert_eq!(extension("a.js//./"), Some("js".to_string()));
    assert_eq!(extension("/a/b"), None);
    assert_eq!(add_js_extension("/a/b"), "/a/b.js");
    assert_eq!(add_js_extension("/a/"), "/a.js");
    assert_eq!(add_js_extension("/"), "/");
    assert_eq!(add_js_extension("/a/.."), "/a/..");
    assert_eq!(add_js_extension("b"), "b.js");
    assert_eq!(set_js_extension("./a"), "./a.js");
    assert_eq!(set_js_extension("./a.json"), "./a.js");
    assert_eq!(set_js_extension("a.tar.gz/"), "a.tar.js");
    assert_eq!(set_js_extension("/a/.hidden"), "/a/.hidden.js");
    assert_eq!(set_js_extension("/a/.."), "/a/..");
    assert_eq!(set_js_extension(""), "");
}

#[test]
fn texts_are_compared_and_copied() {
    assert_eq!(to_chars("aé"), vec!['a', 'é']);
    assert_eq!(from_chars(&['a', 'b', 'c'], 1, 3), "bc");
    let mut out = vec!['x'];
    append_str(&mut out, "yz");
    assert_eq!(out, vec!['x', 'y', 'z']);
    assert!(equal("abc", "abc"));
    assert!(!equal("abc", "abd"));
    assert!(!equal("abc", "ab"));
    assert!(same_text(&['a'], "a"));
    assert!(!same_text(&['a', 'b'], "a"));
    assert!(starts_with_at(&['a', 'b', 'c'], 1, "bc"));
    assert!(!starts_with_at(&['a', 'b', 'c'], 2, "bc"));
    assert!(!starts_with_at(&['a'], 5, "a"));
    assert!(starts_with_at(&['a'], 1, ""));
    assert_eq!(split_at_char("a:b::c", ':'), vec!["a", "b", "", "c"]);
    assert_eq!(split_at_char("", ':'), vec![""]);
}

#[test]
fn module_kinds_follow_the_extension() {
    assert_eq!(ModuleType::parse_from_path("/a/b.html"), ModuleType::Html);
    assert_eq!(ModuleType::parse_from_path("/a/b.js"), ModuleType::JavaScript);
    assert_eq!(ModuleType::parse_from_path("/a/b.css"), ModuleType::Css);
    assert_eq!(ModuleType::parse_from_path("/a/b.txt"), ModuleType::PlainText);
    assert_eq!(ModuleType::parse_from_path("/a/b"), ModuleType::PlainText);
    assert_eq!(ModuleType::parse_from_path("/a/.js"), ModuleType::PlainText);
    assert_eq!(ModuleType::parse_from_path("a.js/"), ModuleType::JavaScript);
    assert_eq!(ModuleType::parse_from_path("a.html//"), ModuleType::Html);
    assert_eq!(ModuleType::parse_from_path("a.JS"), ModuleType::PlainText);
    let module = Module::new("/a/b.css", "body {}".to_string());
    assert_eq!(module.path, "/a/b.css");
    assert_eq!(module.content, "body {}");
    assert_eq!(module.mtype, ModuleType::Css);
    assert_eq!(Module::new("/a", "abc".to_string()).id(), Some("ddaf".to_string()));
}

#[test]
fn plain_files_depend_on_nothing() {
    let mut fs = FileSystem::new();
    fs.add(entry("/a/./b.txt", FileKind::File, "/a/b.txt", "hello"));
    let (module, dependencies) = parse_plaintext_module(&fs, "/a/./b.txt").unwrap();
    assert_eq!(module, Module { path: "/a/b.txt".to_string(), content: "hello".to_string(), mtype: ModuleType::PlainText });
    assert!(dependencies.is_empty());
    assert_eq!(parse_unknown_module(&fs, "/a/./b.txt").unwrap().0, module);
    assert_eq!(Module::from_path(&fs, "/a/./b.txt"), Ok(module));
    assert_eq!(
        parse_plaintext_module(&fs, "/a/c.txt"),
        Err(BuildError::Unknown("/a/c.txt".to_string()))
    );
    assert_eq!(BuildError::Unknown("/a".to_string()).to_string(), "Nothing is known of '/a'");
    assert_eq!(BuildError::Unreadable("/a".to_string()).to_string(), "Could not read '/a'");
    assert_eq!(BuildError::MissingModule("/a".to_string()).to_string(), "No module for '/a'");
    assert_eq!(BuildError::TooLarge.to_string(), "The build is too large");
    assert_eq!(BuildError::NoEntry.to_string(), "The entry point is no module of the graph");
}

#[test]
fn pages_depend_on_what_they_refer_to() {
    let mut fs = FileSystem::new();
    fs.add(entry("/root", FileKind::Directory, "/root", ""));
    fs.add(entry("/site/index.html", FileKind::File, "/site/index.html", "<html></html>"));
    fs.add(entry("/site/./style.css", FileKind::File, "/site/style.css", ""));
    fs.add(entry("/site/./main", FileKind::Missing, "", ""));
    fs.add(entry("/site/./main.js", FileKind::File, "/site/main.js", ""));
    fs.add(entry("/site/./gone.js", FileKind::Missing, "", ""));
    let context = Context::new(&fs, "/root").unwrap();
    let stylesheets = vec!["./style.css".to_string()];
    let scripts = vec!["./main".to_string()];
    let (module, dependencies) =
        parse_html_module(&context, &fs, "/site/index.html", &stylesheets, &scripts).unwrap();
    assert_eq!(module.mtype, ModuleType::Html);
    assert_eq!(dependencies, vec!["/site/style.css".to_string(), "/site/main.js".to_string()]);
    let broken = vec!["./gone.js".to_string(), "./main".to_string()];
    assert_eq!(
        resolve_references(&context, &fs, "/site/index.html", &broken),
        Err(BuildError::NotFound("./gone.js".to_string()))
    );
}

#[test]
fn first_entry_of_a_path_counts() {
    let mut fs = FileSystem::new();
    fs.add(entry("/a", FileKind::File, "/a", "first"));
    fs.add(entry("/a", FileKind::File, "/a", "second"));
    assert_eq!(fs.lookup("/a").unwrap().content, "first");
    assert!(fs.lookup("/b").is_none());
}

#[test]
fn assets_gather_text() {
    let mut asset = Asset::new("build/out.js", AssetType::JavaScriptChunk);
    assert_eq!(asset.output_path, "build/out.js");
    assert_eq!(asset.content, "");
    asset.push_str("var a;");
    asset.push_str("var b;");
    assert_eq!(asset.content, "var a;var b;");
    assert_eq!(asset.atype, AssetType::JavaScriptChunk);
}

#[test]
fn graph_without_entry_is_refused() {
    let graph = DependencyGraph::new();
    assert_eq!(codegen(&graph, 0), Err(BuildError::NoEntry));
    assert!(BOOTSTRAP.starts_with("function _rpack_bootstrap(modules, entry)"));
}

#[test]
fn scripts_depend_on_what_they_import() {
    let mut fs = FileSystem::new();
    fs.add(entry("/root", FileKind::Directory, "/root", ""));
    fs.add(entry(
        "/site/main.js",
        FileKind::File,
        "/site/main.js",
        "import a from './a.js'\nimport b from 'b'\nconst c = require('./a.json')\nlet d = require('./a')",
    ));
    fs.add(entry("/site/./a.js", FileKind::File, "/site/a.js", ""));
    fs.add(entry("/root/b", FileKind::File, "/root/b", ""));
    fs.add(entry("/site/bad.js", FileKind::File, "/site/bad.js", "import"));
    let context = Context::new(&fs, "/root").unwrap();
    let (module, dependencies) = parse_javascript_module(&context, &fs, "/site/main.js").unwrap();
    assert_eq!(module.mtype, ModuleType::JavaScript);
    assert_eq!(module.path, "/site/main.js");
    // a constant bound with require counts, with the extension js; a variable does not
    assert_eq!(
        dependencies,
        vec!["/site/a.js".to_string(), "/root/b".to_string(), "/site/a.js".to_string()]
    );
    match parse_javascript_module(&context, &fs, "/site/bad.js") {
        Err(BuildError::Syntax(path, e)) => {
            assert_eq!(path, "/site/bad.js");
            assert_eq!(e.kind, ParseErrorKind::Identifier);
        }
        other => panic!("{:?}", other),
    }
}

fn site() -> FileSystem {
    let mut fs = FileSystem::new();
    fs.add(entry("/root", FileKind::Directory, "/root", ""));
    fs.add(entry("index.html", FileKind::File, "/site/index.html", "<html></html>"));
    fs.add(entry("/site/index.html", FileKind::File, "/site/index.html", "<html></html>"));
    fs.add(entry("/site/./style.css", FileKind::File, "/site/style.css", "body {}"));
    fs.add(entry("/site/style.css", FileKind::File, "/site/style.css", "body {}"));
    fs.add(entry("/site/./main.js", FileKind::File, "/site/main.js", "import a from './a.js'"));
    fs.add(entry("/site/main.js", FileKind::File, "/site/main.js", "import a from './a.js'"));
    fs.add(entry("/site/./a.js", FileKind::File, "/site/a.js", "import m from './main.js'"));
    fs.add(entry("/site/a.js", FileKind::File, "/site/a.js", "import m from './main.js'"));
    fs
}

fn module_edges(graph: &ModuleGraph) -> Vec<(usize, usize)> {
    graph.graph.raw_edges().iter().map(|e| (e.source().index(), e.target().index())).collect()
}

#[test]
fn files_of_every_kind_stand_in_one_graph() {
    let fs = site();
    let context = Context::new(&fs, "/root").unwrap();
    assert_eq!(
        parse_module_graph(&context, &fs, &vec![], "index.html").err(),
        Some(BuildError::Unscanned("/site/index.html".to_string()))
    );
    assert_eq!(
        BuildError::Unscanned("/p".to_string()).to_string(),
        "Nothing is known of what '/p' refers to"
    );
    let pages = vec![Page {
        path: "/site/index.html".to_string(),
        stylesheets: vec!["./style.css".to_string()],
        scripts: vec!["./main.js".to_string(), "./a.js".to_string()],
    }];
    let (graph, start) = parse_module_graph(&context, &fs, &pages, "index.html").unwrap();
    assert_eq!(start, 0);
    let paths: Vec<&str> = graph.modules.iter().map(|m| m.path.as_str()).collect();
    assert_eq!(paths, vec!["/site/index.html", "/site/style.css", "/site/main.js", "/site/a.js"]);
    let kinds: Vec<ModuleType> = graph.modules.iter().map(|m| m.mtype).collect();
    assert_eq!(
        kinds,
        vec![ModuleType::Html, ModuleType::Css, ModuleType::JavaScript, ModuleType::JavaScript]
    );
    assert_eq!(graph.node_count(), 4);
    assert_eq!(graph.edge_count(), 5);
    assert_eq!(module_edges(&graph), vec![(0, 1), (3, 2), (2, 3), (0, 2), (0, 3)]);
    assert_eq!(graph.find("/site/a.js"), Some(3));
    assert_eq!(graph.find("/site/b.js"), None);
}

#[test]
fn a_broken_dependency_stops_the_graph() {
    let mut fs = site();
    fs.add(entry("/site/./gone.css", FileKind::Missing, "", ""));
    let context = Context::new(&fs, "/root").unwrap();
    let pages = vec![Page {
        path: "/site/index.html".to_string(),
        stylesheets: vec!["./gone.css".to_string()],
        scripts: vec![],
    }];
    assert_eq!(
        parse_module_graph(&context, &fs, &pages, "index.html").err(),
        Some(BuildError::NotFound("./gone.css".to_string()))
    );
    assert_eq!(
        parse_module_graph(&context, &fs, &pages, "nowhere.html").err(),
        Some(BuildError::Unknown("nowhere.html".to_string()))
    );
    let empty = ModuleGraph::new();
    assert_eq!(empty.node_count(), 0);
    assert_eq!(empty.edge_count(), 0);
}

#[test]
fn paths_are_read_as_the_standard_library_reads_them() {
    let samples = [
        "", ".", "..", "/", "//", "a", "a/", "a//", "a/.", "a/./", "a/..", "a/../", "./a", "../a",
        "/a", "/a/", "/a/b", "/a/b/", "/a//b", "/a/./b", "/a/b/.", "/a/b/./", "/a/b//.//", "a.js",
        "a.js/", "a.js/.", "a.", ".a", ".a.b", "a.b.c", "/x.y/a", "/x.y/a.b", "/x.y/.a", "/x/...",
        "/x/..a", "a..", "/.", "/..", "./", "./.", "/a.js//./",
    ];
    for sample in samples.iter() {
        let mut popped = std::path::PathBuf::from(sample);
        popped.pop();
        assert_eq!(parent(sample), popped.to_str().unwrap(), "directory of {:?}", sample);
        let taken = std::path::Path::new(sample).extension().map(|e| e.to_str().unwrap().to_string());
        assert_eq!(extension(sample), taken, "extension of {:?}", sample);
        assert_eq!(extension_present(sample), taken.is_some(), "extension of {:?}", sample);
        let mut set = std::path::PathBuf::from(sample);
        set.set_extension("js");
        assert_eq!(set_js_extension(sample), set.to_str().unwrap(), "new extension of {:?}", sample);
        if taken.is_none() {
            assert_eq!(add_js_extension(sample), set.to_str().unwrap(), "extension for {:?}", sample);
        }
        for other in samples.iter() {
            let mut pushed = std::path::PathBuf::from(sample);
            pushed.push(other);
            assert_eq!(
                join_paths(sample, other),
                pushed.to_str().unwrap(),
                "{:?} from {:?}",
                other,
                sample
            );
        }
    }
}
