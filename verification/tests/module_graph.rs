use sigil::ast::{Position, Program, SourceLocation};
use sigil::module_graph::{LoadedModule, ModuleGraph};

fn module(id: &str, source: &str) -> LoadedModule {
    let pos = Position { line: 1, column: 1, offset: 0 };
    LoadedModule {
        id: id.to_string(),
        file_path: format!("{}.sigil", id),
        source: source.to_string(),
        ast: Program { declarations: vec![], location: SourceLocation { start: pos, end: pos } },
        project: None,
    }
}

#[test]
fn modules_are_stored_by_id_in_order() {
    let mut graph = ModuleGraph::new();
    graph.add_module(module("a", "1"));
    graph.add_module(module("b", "2"));
    graph.add_module(module("a", "3"));
    assert_eq!(graph.len(), 2);
    assert_eq!(graph.get(&"a".to_string()).unwrap().source, "3");
    assert_eq!(graph.get(&"b".to_string()).unwrap().file_path, "b.sigil");
    assert!(graph.get(&"c".to_string()).is_none());
    assert_eq!(graph.topo_order, vec!["a".to_string(), "b".to_string(), "a".to_string()]);
}
