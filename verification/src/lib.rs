//! A bundler for JavaScript modules: it reads an entry file, follows its
//! imports, and writes every module it reached into one script.
//!
//! A build goes in three steps. [`context::Context`] says where imports are
//! looked for. [`dependency::parse_dependency_graph`] reads the entry module
//! and every module that imports lead to from it, each once, into a graph.
//! [`codegen::codegen`] writes the graph as one script: a runtime, a table
//! with a function for each module, and a call that starts the entry module.
//!
//! [`parser::parse_module_graph`] builds the graph of a site in the same
//! way, from a page: the page, the stylesheets and scripts that it names,
//! and what the scripts import.
//!
//! The library never touches the disk. It reads files through an
//! [`io_utils::FileSystem`], a list of what is known of some paths. Where a
//! build meets a path that the list says nothing of, it stops with
//! [`error::BuildError::Unknown`] and names the path; the caller looks at
//! that path, adds what it found to the list, and builds again. In the same
//! way a page comes as a [`parser::Page`], the list of what it names, and a
//! build that meets a page without one stops with
//! [`error::BuildError::Unscanned`].

pub mod assets;
pub mod codegen;
pub mod context;
pub mod dependency;
pub mod error;
pub mod graph;
pub mod io_utils;
pub mod javascript;
pub mod modules;
pub mod parser;
pub mod paths;
pub mod text;
