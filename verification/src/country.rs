//! Countries as nodes: what a chain of country names needs to know of each
//! name, and a small sample graph.

use crate::graph::{lemma_index_of, Graph, GraphModel};
use crate::graph_laws::{lemma_with_nodes, with_nodes};
use vstd::prelude::*;
use vstd::string::StrSliceExecFns;

verus! {

/// A country's name with its first and its last letter.
#[derive(Debug, PartialEq, Eq)]
pub struct CountryData {
    pub name: String,
    pub first_letter: char,
    pub last_letter: char,
}

impl CountryData {
    /// Reads the first and the last letter off a name. The name must not be
    /// empty.
    pub fn from_name(name: String) -> (data: CountryData)
        requires
            name@.len() > 0,
        ensures
            data.name@ == name@,
            data.first_letter == name@[0],
            data.last_letter == name@[name@.len() - 1],
    {
        let length = name.as_str().unicode_len();
        let first_letter = name.as_str().get_char(0);
        let last_letter = name.as_str().get_char(length - 1);
        CountryData { name, first_letter, last_letter }
    }
}

/// The labels of the sample graph, in order of insertion.
pub open spec fn sample_labels() -> Seq<Seq<char>> {
    seq!["Albania"@, "Cambodia"@, "Cameroon"@, "Nigeria"@]
}

/// The sample graph: four countries, and an edge from Cambodia to Albania,
/// from Cameroon to Nigeria and from Nigeria to Albania.
pub open spec fn sample_graph() -> GraphModel {
    with_nodes(sample_labels()).link(true, 1, 0).link(true, 2, 3).link(true, 3, 0)
}

/// The four labels of the sample graph differ from each other.
pub proof fn lemma_sample_labels_distinct()
    ensures
        sample_labels().no_duplicates(),
        sample_labels().len() == 4,
{
    reveal_strlit("Albania");
    reveal_strlit("Cambodia");
    reveal_strlit("Cameroon");
    reveal_strlit("Nigeria");
    let labels = sample_labels();
    assert(labels[0].len() == 7 && labels[1].len() == 8 && labels[2].len() == 8 && labels[3].len()
        == 7);
    assert(labels[0][0] == 'A' && labels[3][0] == 'N');
    assert(labels[1][3] == 'b' && labels[2][3] == 'e');
}

/// Builds the sample graph.
pub fn build_graph() -> (graph: Graph)
    ensures
        graph.wf(),
        graph@ == sample_graph(),
{
    let mut graph = Graph::new();
    proof {
        lemma_sample_labels_distinct();
        lemma_with_nodes(sample_labels());
        assert(sample_labels().take(0) =~= Seq::empty());
        assert(sample_labels().take(1) =~= seq!["Albania"@]);
        assert(sample_labels().take(2) =~= seq!["Albania"@, "Cambodia"@]);
        assert(sample_labels().take(3) =~= seq!["Albania"@, "Cambodia"@, "Cameroon"@]);
        assert(sample_labels().take(4) =~= sample_labels());
    }
    let ghost labels = sample_labels();
    let _ = graph.add_node("Albania");
    assert(graph@ == with_nodes(labels.take(1))) by {
        assert(labels.take(1).drop_last() =~= labels.take(0));
        assert(with_nodes(labels.take(0)) == GraphModel::empty());
    }
    let _ = graph.add_node("Cambodia");
    assert(graph@ == with_nodes(labels.take(2))) by {
        assert(labels.take(2).drop_last() =~= labels.take(1));
    }
    let _ = graph.add_node("Cameroon");
    assert(graph@ == with_nodes(labels.take(3))) by {
        assert(labels.take(3).drop_last() =~= labels.take(2));
    }
    let _ = graph.add_node("Nigeria");
    assert(graph@ == with_nodes(labels)) by {
        assert(labels.take(4).drop_last() =~= labels.take(3));
    }
    let ghost nodes_only = graph@;
    assert(labels[0] == "Albania"@ && labels[1] == "Cambodia"@ && labels[2] == "Cameroon"@
        && labels[3] == "Nigeria"@);
    let _ = graph.add_edge_by_name("Cambodia", "Albania");
    let ghost one_edge = graph@;
    assert(one_edge == nodes_only.link(true, 1, 0));
    proof {
        assert(one_edge.is_labelled(2, labels[2]) && one_edge.is_labelled(3, labels[3]));
        lemma_index_of(one_edge, 2, labels[2]);
        lemma_index_of(one_edge, 3, labels[3]);
    }
    let _ = graph.add_edge_by_name("Cameroon", "Nigeria");
    let ghost two_edges = graph@;
    assert(two_edges == one_edge.link(true, 2, 3));
    proof {
        assert(two_edges.is_labelled(3, labels[3]) && two_edges.is_labelled(0, labels[0]));
        lemma_index_of(two_edges, 3, labels[3]);
        lemma_index_of(two_edges, 0, labels[0]);
    }
    let _ = graph.add_edge_by_name("Nigeria", "Albania");
    graph
}

} // verus!
