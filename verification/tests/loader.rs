use graph_utility::error::{ConfigurationFault, Field, GraphError, LineFault};
use graph_utility::loader::GraphLoader;

#[test]
fn weighted_edges_are_read_line_by_line() {
    let loader = GraphLoader::default();
    let edges = loader.load_weighted_graph(b"0 1 5\n1 2 7\n2 0 1\n").unwrap();
    assert_eq!(edges, vec![(0, 1, 5), (1, 2, 7), (2, 0, 1)]);
}

#[test]
fn unweighted_edges_are_read_line_by_line() {
    let loader = GraphLoader::default();
    let edges = loader.load_unweighted_graph(b"0 1\n1 2\n2 0").unwrap();
    assert_eq!(edges, vec![(0, 1), (1, 2), (2, 0)]);
}

#[test]
fn comments_are_left_out() {
    let loader = GraphLoader::default();
    let text = b"# nodes: 3\n0 1 5\n#1 2 7\n2 0 1\n# the end";
    assert_eq!(loader.load_weighted_graph(text).unwrap(), vec![(0, 1, 5), (2, 0, 1)]);
    assert_eq!(loader.load_unweighted_graph(text).unwrap(), vec![(0, 1), (2, 0)]);
}

#[test]
fn fields_are_parted_by_any_white_space() {
    let loader = GraphLoader::default();
    let text = b"  0\t1   5  \r\n7 8\t\t9\r\n+3 04 005\n";
    assert_eq!(loader.load_weighted_graph(text).unwrap(), vec![(0, 1, 5), (7, 8, 9), (3, 4, 5)]);
}

#[test]
fn what_follows_the_last_field_is_not_read() {
    let loader = GraphLoader::default();
    assert_eq!(loader.load_weighted_graph(b"0 1 5 rest of the line\n").unwrap(), vec![(0, 1, 5)]);
    assert_eq!(loader.load_unweighted_graph(b"0 1 5\n3 4 x\n").unwrap(), vec![(0, 1), (3, 4)]);
}

#[test]
fn an_empty_text_holds_no_edges() {
    let loader = GraphLoader::default();
    assert_eq!(loader.load_weighted_graph(b"").unwrap(), vec![]);
    assert_eq!(loader.load_unweighted_graph(b"").unwrap(), vec![]);
}

#[test]
fn a_missing_field_is_a_fault_of_its_line() {
    let loader = GraphLoader::default();
    assert_eq!(
        loader.load_weighted_graph(b"0 1 5\n1 2\n"),
        Err(GraphError::DataFormat { line: 1, fault: LineFault::Missing(Field::Weight) })
    );
    assert_eq!(
        loader.load_weighted_graph(b"# c\n0 1 5\n7\n"),
        Err(GraphError::DataFormat { line: 2, fault: LineFault::Missing(Field::To) })
    );
    assert_eq!(
        loader.load_unweighted_graph(b"0 1\n\n2 3\n"),
        Err(GraphError::DataFormat { line: 1, fault: LineFault::Missing(Field::From) })
    );
    assert_eq!(
        loader.load_weighted_graph(b"0 1 5\n   \t \n"),
        Err(GraphError::DataFormat { line: 1, fault: LineFault::Missing(Field::From) })
    );
}

#[test]
fn a_field_that_is_no_number_is_a_fault_of_its_line() {
    let loader = GraphLoader::default();
    assert_eq!(
        loader.load_weighted_graph(b"a 1 5\n"),
        Err(GraphError::DataFormat { line: 0, fault: LineFault::Invalid(Field::From) })
    );
    assert_eq!(
        loader.load_weighted_graph(b"0 1 5\n0 -1 5\n"),
        Err(GraphError::DataFormat { line: 1, fault: LineFault::Invalid(Field::To) })
    );
    assert_eq!(
        loader.load_weighted_graph(b"0 1 5\n0 1 5\n0 1 4294967296\n"),
        Err(GraphError::DataFormat { line: 2, fault: LineFault::Invalid(Field::Weight) })
    );
    assert_eq!(
        loader.load_unweighted_graph(b"0 1.0\n"),
        Err(GraphError::DataFormat { line: 0, fault: LineFault::Invalid(Field::To) })
    );
}

#[test]
fn the_first_fault_is_the_one_reported() {
    let loader = GraphLoader::default();
    assert_eq!(
        loader.load_weighted_graph(b"0 1 5\nx\n0 1\n"),
        Err(GraphError::DataFormat { line: 1, fault: LineFault::Invalid(Field::From) })
    );
}

#[test]
fn a_loader_takes_the_lines_of_its_index() {
    let text = b"0 0 0\n1 1 1\n2 2 2\n3 3 3\n4 4 4\n5 5 5\n6 6 6\n";
    assert_eq!(GraphLoader::new(0, 3).load_weighted_graph(text).unwrap(), vec![(0, 0, 0), (3, 3, 3), (6, 6, 6)]);
    assert_eq!(GraphLoader::new(1, 3).load_weighted_graph(text).unwrap(), vec![(1, 1, 1), (4, 4, 4)]);
    assert_eq!(GraphLoader::new(2, 3).load_weighted_graph(text).unwrap(), vec![(2, 2, 2), (5, 5, 5)]);
    assert_eq!(GraphLoader::new(3, 3).load_weighted_graph(text).unwrap(), vec![]);
}

#[test]
fn comments_count_as_lines() {
    let text = b"# zero\n1 1\n# two\n3 3\n4 4\n";
    assert_eq!(GraphLoader::new(0, 2).load_unweighted_graph(text).unwrap(), vec![(4, 4)]);
    assert_eq!(GraphLoader::new(1, 2).load_unweighted_graph(text).unwrap(), vec![(1, 1), (3, 3)]);
}

#[test]
fn a_loader_does_not_read_the_lines_of_its_peers() {
    let text = b"0 0 0\nnot an edge\n2 2 2\n";
    assert_eq!(GraphLoader::new(0, 2).load_weighted_graph(text).unwrap(), vec![(0, 0, 0), (2, 2, 2)]);
    assert_eq!(
        GraphLoader::new(1, 2).load_weighted_graph(text),
        Err(GraphError::DataFormat { line: 1, fault: LineFault::Invalid(Field::From) })
    );
}

#[test]
fn the_loaders_together_read_what_one_reads_alone() {
    let mut text = String::new();
    for i in 0..50u32 {
        if i % 7 == 3 {
            text.push_str("# skip\n");
        }
        text.push_str(&format!("{} {} {}\n", i, (i * 13) % 50, i % 5));
    }
    let mut alone = GraphLoader::default().load_weighted_graph(text.as_bytes()).unwrap();
    alone.sort();
    for peers in 1..8usize {
        let mut together = Vec::new();
        for index in 0..peers {
            together.extend(GraphLoader::new(index, peers).load_weighted_graph(text.as_bytes()).unwrap());
        }
        together.sort();
        assert_eq!(together, alone);
    }
}

#[test]
fn one_of_no_loaders_reads_nothing() {
    assert_eq!(
        GraphLoader::new(0, 0).load_weighted_graph(b"0 1 5\n"),
        Err(GraphError::Configuration(ConfigurationFault::NoPeers))
    );
    assert_eq!(
        GraphLoader::new(0, 0).load_unweighted_graph(b""),
        Err(GraphError::Configuration(ConfigurationFault::NoPeers))
    );
}
