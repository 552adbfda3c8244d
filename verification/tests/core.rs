use rolldown_core::ast_symbols::{AstSymbols, SymbolTable};
use rolldown_core::bitset::BitSet;
use rolldown_core::chunk::{Chunk, ChunkGraph, ChunkKind};
use rolldown_core::common::{
    FileNameTemplate, NamedImport, OutputOptions, SourceMapMode, Specifier, SymbolRef,
};
use rolldown_core::errors::BuildError;
use rolldown_core::linker::wire_cross_chunk_links;
use rolldown_core::module::{ExternalModule, LinkStageOutput, Module, NormalModule, Part};
use rolldown_core::names::assign_canonical_names;
use rolldown_core::resolver::{probed_specifier, resolve_context, resolve_outcome, Resolver};
use rolldown_core::sourcemap::{collapse_sourcemaps, concat_sourcemaps, SourceMap, Token};
use rolldown_core::text::{count_newlines, u64_to_string};

fn sym(owner: u32, symbol: u32) -> SymbolRef {
    SymbolRef { owner, symbol }
}

fn options(mode: SourceMapMode) -> OutputOptions {
    OutputOptions {
        sourcemap: mode,
        entry_file_names: FileNameTemplate { template: "[name].js".to_string() },
        chunk_file_names: FileNameTemplate { template: "[name]-[hash].js".to_string() },
    }
}

fn token(dst_line: u64, dst_col: u64, src_id: u64, src_line: u64, src_col: u64) -> Token {
    Token { dst_line, dst_col, src_id, src_line, src_col }
}

/// A graph of two normal modules and one external module, with parsed bodies.
fn sample_graph(chain0: Vec<SourceMap>) -> LinkStageOutput {
    LinkStageOutput {
        modules: vec![
            Module::Normal(NormalModule {
                id: 0,
                resource_path: "/src/a.js".to_string(),
                source: "const a = 1;".to_string(),
                sourcemap_chain: chain0,
            }),
            Module::External(ExternalModule { id: 1, path: "react".to_string() }),
            Module::Normal(NormalModule {
                id: 2,
                resource_path: "/src/b.js".to_string(),
                source: "const b = 2;".to_string(),
                sourcemap_chain: vec![],
            }),
        ],
        ast_table: vec![
            vec![
                Part::Text("const ".to_string()),
                Part::Ref(sym(0, 0)),
                Part::Text(" = 1;".to_string()),
            ],
            vec![],
            vec![
                Part::Text("const ".to_string()),
                Part::Ref(sym(2, 0)),
                Part::Text(" = 2;".to_string()),
            ],
        ],
    }
}

fn sample_names() -> rolldown_core::names::CanonicalNames {
    let wanted = vec![
        (sym(0, 0), "a".to_string()),
        (sym(1, 0), "useState".to_string()),
        (sym(2, 0), "b".to_string()),
    ];
    assign_canonical_names(&wanted, &vec![])
}

#[test]
fn external_module_contributes_no_body() {
    let graph = sample_graph(vec![]);
    let mut chunk = Chunk::new(None, BitSet::new(1), vec![0], ChunkKind::Common);
    chunk.canonical_names = sample_names();
    chunk.imports_from_external_modules = vec![(
        1,
        vec![NamedImport {
            imported: Specifier::Literal("useState".to_string()),
            imported_as: sym(1, 0),
        }],
    )];
    let cg = ChunkGraph { chunks: vec![] };
    let ((content, map), metas) =
        chunk.render(&graph, &cg, &options(SourceMapMode::Hidden)).unwrap();
    assert_eq!(
        content,
        "import { useState as useState } from \"react\";\n\nconst a = 1;"
    );
    assert!(map.is_none());
    assert_eq!(metas.len(), 1);
    assert_eq!(metas[0].0, "/src/a.js");
    assert_eq!(metas[0].1.original_length, 12);
    assert_eq!(metas[0].1.rendered_length, 12);
}

#[test]
fn modules_render_in_stored_order() {
    let graph = sample_graph(vec![]);
    let mut chunk = Chunk::new(None, BitSet::new(1), vec![0, 2], ChunkKind::Common);
    chunk.canonical_names = sample_names();
    let cg = ChunkGraph { chunks: vec![] };
    let ((content, _), metas) =
        chunk.render(&graph, &cg, &options(SourceMapMode::Hidden)).unwrap();
    assert_eq!(content, "\nconst a = 1;\nconst b = 2;");
    let pa = content.find("const a = 1;").unwrap();
    let pb = content.find("const b = 2;").unwrap();
    assert!(pa < pb);
    assert_eq!(metas[0].0, "/src/a.js");
    assert_eq!(metas[1].0, "/src/b.js");
}

#[test]
fn hidden_sourcemap_mode_carries_no_map() {
    let graph = sample_graph(vec![SourceMap {
        sources: vec!["/orig/a.js".to_string()],
        tokens: vec![token(0, 0, 0, 3, 1)],
    }]);
    let mut chunk = Chunk::new(None, BitSet::new(1), vec![0], ChunkKind::Common);
    chunk.canonical_names = sample_names();
    let cg = ChunkGraph { chunks: vec![] };
    let ((_, map), _) = chunk.render(&graph, &cg, &options(SourceMapMode::Hidden)).unwrap();
    assert!(map.is_none());
}

#[test]
fn external_sourcemap_mode_composes_a_map() {
    let graph = sample_graph(vec![SourceMap {
        sources: vec!["/orig/a.js".to_string()],
        tokens: vec![token(0, 6, 0, 3, 1)],
    }]);
    let mut chunk = Chunk::new(None, BitSet::new(1), vec![0], ChunkKind::Common);
    chunk.canonical_names = sample_names();
    let cg = ChunkGraph { chunks: vec![] };
    let ((content, map), _) =
        chunk.render(&graph, &cg, &options(SourceMapMode::External)).unwrap();
    assert_eq!(content, "\nconst a = 1;");
    let map = map.unwrap();
    assert_eq!(map.sources, vec!["/orig/a.js".to_string()]);
    // the preamble is empty, so the module body starts on line 1
    assert_eq!(map.tokens, vec![token(1, 6, 0, 3, 1)]);
}

#[test]
fn rendering_twice_is_byte_identical() {
    let graph = sample_graph(vec![SourceMap {
        sources: vec!["/orig/a.js".to_string()],
        tokens: vec![token(0, 0, 0, 3, 1)],
    }]);
    let mut chunk = Chunk::new(None, BitSet::new(1), vec![0, 2], ChunkKind::Common);
    chunk.canonical_names = sample_names();
    let cg = ChunkGraph { chunks: vec![] };
    let opts = options(SourceMapMode::External);
    let ((c1, m1), r1) = chunk.render(&graph, &cg, &opts).unwrap();
    let ((c2, m2), r2) = chunk.render(&graph, &cg, &opts).unwrap();
    assert_eq!(c1, c2);
    let (m1, m2) = (m1.unwrap(), m2.unwrap());
    assert_eq!(m1.sources, m2.sources);
    assert_eq!(m1.tokens, m2.tokens);
    assert_eq!(r1, r2);
}

#[test]
fn malformed_chain_fails_the_whole_render() {
    // the single token points outside the (empty) source list
    let graph = sample_graph(vec![SourceMap { sources: vec![], tokens: vec![token(0, 0, 5, 0, 0)] }]);
    let mut chunk = Chunk::new(None, BitSet::new(1), vec![0], ChunkKind::Common);
    chunk.canonical_names = sample_names();
    let cg = ChunkGraph { chunks: vec![] };
    let r = chunk.render(&graph, &cg, &options(SourceMapMode::External));
    assert_eq!(
        r.err().unwrap(),
        BuildError::SourceMapChain { path: "/src/a.js".to_string() }
    );
}

#[test]
fn export_footer_rendered_for_common_chunks_only() {
    let graph = sample_graph(vec![]);
    let mut chunk = Chunk::new(None, BitSet::new(1), vec![0], ChunkKind::Common);
    chunk.canonical_names = sample_names();
    chunk.exports_to_other_chunks = vec![(sym(0, 0), "shared".to_string())];
    let cg = ChunkGraph { chunks: vec![] };
    let ((content, _), _) = chunk.render(&graph, &cg, &options(SourceMapMode::Hidden)).unwrap();
    assert_eq!(content, "\nconst a = 1;\nexport { a as shared };");

    let mut entry = Chunk::new(
        None,
        BitSet::new(1),
        vec![0],
        ChunkKind::EntryPoint { is_user_defined: true, bit: 0, module: 0 },
    );
    entry.canonical_names = sample_names();
    entry.exports_to_other_chunks = vec![(sym(0, 0), "shared".to_string())];
    let ((content, _), _) = entry.render(&graph, &cg, &options(SourceMapMode::Hidden)).unwrap();
    assert_eq!(content, "\nconst a = 1;");
}

#[test]
fn cross_chunk_imports_render_against_sibling_file_names() {
    let graph = sample_graph(vec![]);
    let mut sibling = Chunk::new(None, BitSet::new(1), vec![2], ChunkKind::Common);
    sibling.file_name = Some("chunk-b.js".to_string());
    let cg = ChunkGraph { chunks: vec![sibling] };
    let mut chunk = Chunk::new(None, BitSet::new(1), vec![0], ChunkKind::Common);
    chunk.canonical_names = sample_names();
    chunk.imports_from_other_chunks = vec![(
        0,
        vec![rolldown_core::chunk::CrossChunkImportItem {
            export_alias: Some(Specifier::Literal("shared".to_string())),
            import_ref: sym(0, 0),
        }],
    )];
    let ((content, _), _) = chunk.render(&graph, &cg, &options(SourceMapMode::Hidden)).unwrap();
    assert_eq!(
        content,
        "import { shared as a } from \"./chunk-b.js\";\n\nconst a = 1;"
    );
}

#[test]
fn file_name_template_follows_chunk_kind() {
    let opts = options(SourceMapMode::Off);
    let user_entry = Chunk::new(
        None,
        BitSet::new(1),
        vec![],
        ChunkKind::EntryPoint { is_user_defined: true, bit: 0, module: 0 },
    );
    assert_eq!(user_entry.file_name_template(&opts).template, "[name].js");
    let dynamic_entry = Chunk::new(
        None,
        BitSet::new(1),
        vec![],
        ChunkKind::EntryPoint { is_user_defined: false, bit: 1, module: 0 },
    );
    assert_eq!(dynamic_entry.file_name_template(&opts).template, "[name]-[hash].js");
    let common = Chunk::new(None, BitSet::new(1), vec![], ChunkKind::Common);
    assert_eq!(common.file_name_template(&opts).template, "[name]-[hash].js");
    assert!(user_entry.is_entry_point());
    assert!(!common.is_entry_point());
}

#[test]
fn canonical_names_avoid_collisions_and_reserved_names() {
    let wanted = vec![
        (sym(0, 1), "x".to_string()),
        (sym(0, 2), "x".to_string()),
        (sym(0, 3), "x$1".to_string()),
        (sym(0, 4), "y".to_string()),
        (sym(0, 1), "ignored".to_string()),
    ];
    let reserved = vec!["y".to_string()];
    let cn = assign_canonical_names(&wanted, &reserved);
    assert_eq!(cn.get(sym(0, 1)).unwrap(), "x");
    assert_eq!(cn.get(sym(0, 2)).unwrap(), "x$1");
    assert_eq!(cn.get(sym(0, 3)).unwrap(), "x$1$1");
    assert_eq!(cn.get(sym(0, 4)).unwrap(), "y$1");
    assert!(cn.get(sym(9, 9)).is_none());
    let names = vec![
        cn.get(sym(0, 1)).unwrap(),
        cn.get(sym(0, 2)).unwrap(),
        cn.get(sym(0, 3)).unwrap(),
        cn.get(sym(0, 4)).unwrap(),
    ];
    for i in 0..names.len() {
        for j in 0..names.len() {
            if i != j {
                assert_ne!(names[i], names[j]);
            }
        }
    }
}

#[test]
fn wiring_makes_imports_and_exports_agree() {
    let shared = sym(0, 7);
    let mut c0 = Chunk::new(None, BitSet::new(2), vec![0], ChunkKind::Common);
    c0.canonical_names = assign_canonical_names(&vec![(shared, "foo".to_string())], &vec![]);
    let c1 = Chunk::new(None, BitSet::new(2), vec![2], ChunkKind::Common);
    let needs = vec![vec![], vec![(0u32, vec![shared])]];
    let wired = wire_cross_chunk_links(vec![c0, c1], &needs);
    assert_eq!(wired.len(), 2);
    // the importing side
    assert_eq!(wired[1].imports_from_other_chunks.len(), 1);
    let (from, items) = &wired[1].imports_from_other_chunks[0];
    assert_eq!(*from, 0);
    assert_eq!(items.len(), 1);
    assert_eq!(items[0].import_ref, shared);
    let alias = match &items[0].export_alias {
        Some(Specifier::Literal(a)) => a.clone(),
        _ => panic!("expected a literal alias"),
    };
    // the exporting side carries the same alias for the same symbol
    assert_eq!(wired[0].exports_to_other_chunks.len(), 1);
    assert_eq!(wired[0].exports_to_other_chunks[0].0, shared);
    assert_eq!(wired[0].exports_to_other_chunks[0].1, alias);
    assert_eq!(alias, "foo");
    // chunks that need nothing import nothing
    assert_eq!(wired[0].imports_from_other_chunks.len(), 0);
    assert_eq!(wired[1].exports_to_other_chunks.len(), 0);
}

#[test]
fn resolution_context_is_the_importer_directory() {
    let importer = "/proj/src/a.js".to_string();
    let cwd = "/cwd".to_string();
    assert_eq!(resolve_context(Some(&importer), &cwd), "/proj/src");
    assert_eq!(resolve_context(None, &cwd), "/cwd");
    assert_eq!(resolve_context(Some(&"/a".to_string()), &cwd), "/");
    assert_eq!(resolve_context(Some(&"a.js".to_string()), &cwd), "");
}

#[test]
fn entry_specifiers_are_probed_against_the_working_directory() {
    let cwd = "/proj".to_string();
    assert_eq!(probed_specifier(None, &cwd, "index.js"), "/proj/index.js");
    assert_eq!(probed_specifier(None, &cwd, "/abs/x.js"), "/abs/x.js");
    assert_eq!(probed_specifier(Some(&"/proj/a.js".to_string()), &cwd, "./b"), "./b");
}

#[test]
fn missing_import_yields_an_unresolved_import_error() {
    let r = Resolver::with_cwd("/rolldown_core_missing_dir".to_string(), true);
    assert_eq!(r.cwd().as_str(), "/rolldown_core_missing_dir");
    let importer = "/rolldown_core_missing_dir/a.js".to_string();
    let err = r.resolve(Some(&importer), "./b").err().unwrap();
    assert_eq!(
        err,
        BuildError::UnresolvedImport {
            specifier: "./b".to_string(),
            importer: importer.clone(),
        }
    );
    assert_eq!(
        err.message(),
        "Could not resolve \"./b\" from /rolldown_core_missing_dir/a.js."
    );
}

#[test]
fn missing_entry_yields_an_unresolved_entry_error() {
    let r = Resolver::with_cwd("/rolldown_core_missing_dir".to_string(), true);
    let err = r.resolve(None, "index.js").err().unwrap();
    assert_eq!(
        err,
        BuildError::UnresolvedEntry {
            specifier: "/rolldown_core_missing_dir/index.js".to_string(),
        }
    );
    assert_eq!(
        err.message(),
        "Could not resolve entry module \"/rolldown_core_missing_dir/index.js\"."
    );
}

#[test]
fn resolve_outcome_maps_success_and_failure() {
    let got = resolve_outcome(None, "/p/x.js".to_string(), "x.js", Some("/p/x.js".to_string()));
    assert_eq!(got.unwrap().resolved, "/p/x.js");
    let importer = "/p/a.js".to_string();
    let got = resolve_outcome(Some(&importer), "./x".to_string(), "./x", None);
    assert_eq!(
        got.err().unwrap(),
        BuildError::UnresolvedImport { specifier: "./x".to_string(), importer }
    );
}

#[test]
fn collapse_merges_a_transform_chain() {
    let m1 = SourceMap {
        sources: vec!["/orig.js".to_string()],
        tokens: vec![token(5, 2, 0, 1, 1)],
    };
    let m2 = SourceMap { sources: vec!["/step1.js".to_string()], tokens: vec![token(0, 0, 0, 5, 2)] };
    let merged = collapse_sourcemaps(&vec![m1, m2]).unwrap();
    assert_eq!(merged.sources, vec!["/orig.js".to_string()]);
    assert_eq!(merged.tokens, vec![token(0, 0, 0, 1, 1)]);
    // a token whose source position has no mapping upstream is dropped
    let m1 = SourceMap { sources: vec!["/orig.js".to_string()], tokens: vec![token(5, 2, 0, 1, 1)] };
    let m3 = SourceMap { sources: vec!["/step1.js".to_string()], tokens: vec![token(0, 0, 0, 9, 9)] };
    let merged = collapse_sourcemaps(&vec![m1, m3]).unwrap();
    assert_eq!(merged.tokens, vec![]);
    // the empty chain merges to the empty map
    let merged = collapse_sourcemaps(&vec![]).unwrap();
    assert!(merged.sources.is_empty() && merged.tokens.is_empty());
    // a malformed member fails the merge
    let bad = SourceMap { sources: vec![], tokens: vec![token(0, 0, 3, 0, 0)] };
    assert!(collapse_sourcemaps(&vec![bad]).is_err());
}

#[test]
fn concat_offsets_lines_and_source_indices() {
    let ma = SourceMap { sources: vec!["/a.js".to_string()], tokens: vec![token(0, 4, 0, 2, 2)] };
    let mb = SourceMap { sources: vec!["/b.js".to_string()], tokens: vec![token(1, 0, 0, 7, 7)] };
    let pieces = vec![
        ("line0\nline1".to_string(), Some(ma)),
        ("tail".to_string(), Some(mb)),
    ];
    let (content, map) = concat_sourcemaps(&pieces);
    assert_eq!(content, "line0\nline1\ntail");
    assert_eq!(map.sources, vec!["/a.js".to_string(), "/b.js".to_string()]);
    // the second piece starts two lines down; its token keeps its column and
    // its source index moves behind the first piece's sources
    assert_eq!(map.tokens, vec![token(0, 4, 0, 2, 2), token(3, 0, 1, 7, 7)]);
}

#[test]
fn bitset_stores_entry_point_reachability() {
    let mut b = BitSet::new(10);
    assert_eq!(b.len(), 10);
    for i in 0..10 {
        assert!(!b.has_bit(i));
    }
    b.set_bit(3);
    b.set_bit(9);
    for i in 0..10 {
        assert_eq!(b.has_bit(i), i == 3 || i == 9);
    }
}

#[test]
fn symbol_table_appends_monotonically() {
    let table = SymbolTable {
        names: vec!["a".to_string(), "b".to_string()],
        scope_ids: vec![0, 1],
    };
    let mut syms = AstSymbols::from_symbol_table(table);
    assert_eq!(syms.names, vec!["a".to_string(), "b".to_string()]);
    let id = syms.create_symbol("c".to_string(), 7);
    assert_eq!(id, 2);
    let id = syms.create_symbol("d".to_string(), 9);
    assert_eq!(id, 3);
    assert_eq!(syms.scope_id_for(2), 7);
    assert_eq!(syms.scope_id_for(3), 9);
    assert_eq!(syms.scope_id_for(0), 0);
    assert_eq!(syms.names[3], "d");
}

#[test]
fn decimal_rendering_and_newline_counting() {
    assert_eq!(u64_to_string(0), "0");
    assert_eq!(u64_to_string(7), "7");
    assert_eq!(u64_to_string(1234567890), "1234567890");
    assert_eq!(count_newlines(""), 0);
    assert_eq!(count_newlines("abc"), 0);
    assert_eq!(count_newlines("a\nb\n"), 2);
}

#[test]
fn sourcemap_chain_error_message_names_the_module() {
    let e = BuildError::SourceMapChain { path: "/src/a.js".to_string() };
    assert_eq!(e.message(), "Could not merge the source-map chain of \"/src/a.js\".");
}

#[test]
fn cross_chunk_import_bindings_without_literal_aliases() {
    let graph = sample_graph(vec![]);
    let mut sibling = Chunk::new(None, BitSet::new(1), vec![2], ChunkKind::Common);
    sibling.file_name = Some("shared.js".to_string());
    let cg = ChunkGraph { chunks: vec![sibling] };
    let mut chunk = Chunk::new(None, BitSet::new(1), vec![0], ChunkKind::Common);
    chunk.canonical_names = sample_names();
    chunk.imports_from_other_chunks = vec![(
        0,
        vec![
            rolldown_core::chunk::CrossChunkImportItem {
                export_alias: None,
                import_ref: sym(0, 0),
            },
            rolldown_core::chunk::CrossChunkImportItem {
                export_alias: Some(Specifier::Star),
                import_ref: sym(2, 0),
            },
        ],
    )];
    let ((content, _), _) = chunk.render(&graph, &cg, &options(SourceMapMode::Hidden)).unwrap();
    assert_eq!(content, "import { a, * as b } from \"./shared.js\";\n\nconst a = 1;");
}
