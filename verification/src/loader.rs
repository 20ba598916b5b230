//! Edge lists as text: one edge per line, its fields parted by white
//! space, and loaders that share the lines of one text among them.

use vstd::prelude::*;
use vstd::seq_lib::lemma_multiset_commutative;
use crate::error::{ConfigurationFault, Field, GraphError, LineFault};
use crate::graph::{UnweightedEdge, WeightedEdge};
use crate::text::{decimal_u32, field_end, field_start, line_len, parse_u32, skip_field, skip_line, skip_spaces};

verus! {

/// What a line of an edge list holds.
pub enum Row<E> {
    /// A line that begins with `#`.
    Comment,
    Edge(E),
    Fault(LineFault),
}

/// The number that the next field of `line` at or after `from` writes, and
/// the place where that field ends.
pub open spec fn parse_field(line: Seq<u8>, from: int, field: Field) -> Result<(u32, int), LineFault> {
    let start = field_start(line, from);
    let end = field_end(line, start);
    if start >= line.len() {
        Err(LineFault::Missing(field))
    } else {
        match decimal_u32(line.subrange(start, end)) {
            Some(value) => Ok((value, end)),
            None => Err(LineFault::Invalid(field)),
        }
    }
}

/// A line that begins with `#` is a comment.
pub open spec fn is_comment(line: Seq<u8>) -> bool {
    line.len() > 0 && line[0] == 35
}

/// A line `from to weight`; what follows the weight is not read.
pub open spec fn weighted_row(line: Seq<u8>) -> Row<WeightedEdge> {
    if is_comment(line) {
        Row::Comment
    } else {
        match parse_field(line, 0, Field::From) {
            Err(fault) => Row::Fault(fault),
            Ok((from, after_from)) => match parse_field(line, after_from, Field::To) {
                Err(fault) => Row::Fault(fault),
                Ok((to, after_to)) => match parse_field(line, after_to, Field::Weight) {
                    Err(fault) => Row::Fault(fault),
                    Ok((weight, _)) => Row::Edge((from, to, weight)),
                },
            },
        }
    }
}

/// A line `from to`; what follows the second node is not read.
pub open spec fn unweighted_row(line: Seq<u8>) -> Row<UnweightedEdge> {
    if is_comment(line) {
        Row::Comment
    } else {
        match parse_field(line, 0, Field::From) {
            Err(fault) => Row::Fault(fault),
            Ok((from, after_from)) => match parse_field(line, after_from, Field::To) {
                Err(fault) => Row::Fault(fault),
                Ok((to, _)) => Row::Edge((from, to)),
            },
        }
    }
}

/// How a line of weighted edges is read.
pub open spec fn weighted_rows() -> spec_fn(Seq<u8>) -> Row<WeightedEdge> {
    |line: Seq<u8>| weighted_row(line)
}

/// How a line of edges without weights is read.
pub open spec fn unweighted_rows() -> spec_fn(Seq<u8>) -> Row<UnweightedEdge> {
    |line: Seq<u8>| unweighted_row(line)
}

/// The loader `index` of `peers` takes the lines whose number, counted
/// from 0, leaves `index` when divided by `peers`.
pub open spec fn takes_line(ordinal: nat, index: nat, peers: nat) -> bool {
    peers > 0 && ordinal % peers == index
}

/// The edges that the loader `index` of `peers` reads from the lines of
/// `text` that begin at or after `from`, the first of which is line
/// `ordinal`: the edges of its lines in their order, comments left out, or
/// the fault of the first of its lines that has one.
pub open spec fn edges_from<E>(
    text: Seq<u8>,
    from: int,
    ordinal: nat,
    index: nat,
    peers: nat,
    rows: spec_fn(Seq<u8>) -> Row<E>,
) -> Result<Seq<E>, GraphError>
    decreases text.len() - from,
{
    if from < 0 || from >= text.len() {
        Ok(Seq::empty())
    } else {
        let end = from + line_len(text, from);
        let rest = if end < text.len() {
            edges_from(text, end + 1, ordinal + 1, index, peers, rows)
        } else {
            Ok(Seq::empty())
        };
        if takes_line(ordinal, index, peers) {
            match rows(text.subrange(from, end)) {
                Row::Comment => rest,
                Row::Fault(fault) => Err(GraphError::DataFormat { line: ordinal as usize, fault }),
                Row::Edge(edge) => match rest {
                    Ok(edges) => Ok(seq![edge] + edges),
                    Err(error) => Err(error),
                },
            }
        } else {
            rest
        }
    }
}

/// The edges that the loader `index` of `peers` reads from `text`.
pub open spec fn shard_edges<E>(text: Seq<u8>, index: nat, peers: nat, rows: spec_fn(Seq<u8>) -> Row<E>) -> Result<
    Seq<E>,
    GraphError,
> {
    edges_from(text, 0, 0, index, peers, rows)
}

/// What the first `count` of `peers` loaders read from the lines at or
/// after `from`, one loader's edges after the other's.
pub open spec fn joined_from<E>(
    text: Seq<u8>,
    from: int,
    ordinal: nat,
    peers: nat,
    count: nat,
    rows: spec_fn(Seq<u8>) -> Row<E>,
) -> Seq<E>
    decreases count,
{
    if count == 0 {
        Seq::empty()
    } else {
        joined_from(text, from, ordinal, peers, (count - 1) as nat, rows) + match edges_from(
            text,
            from,
            ordinal,
            (count - 1) as nat,
            peers,
            rows,
        ) {
            Ok(edges) => edges,
            Err(_) => Seq::empty(),
        }
    }
}

/// What `peers` loaders read from `text`, one loader's edges after the
/// other's.
pub open spec fn joined_shards<E>(text: Seq<u8>, peers: nat, rows: spec_fn(Seq<u8>) -> Row<E>) -> Seq<E> {
    joined_from(text, 0, 0, peers, peers, rows)
}

/// Where a single loader reads all lines without fault, so does each of
/// any number of loaders its own.
pub proof fn lemma_shard_loads<E>(
    text: Seq<u8>,
    from: int,
    ordinal: nat,
    index: nat,
    peers: nat,
    rows: spec_fn(Seq<u8>) -> Row<E>,
)
    requires
        edges_from(text, from, ordinal, 0, 1, rows) is Ok,
    ensures
        edges_from(text, from, ordinal, index, peers, rows) is Ok,
    decreases text.len() - from,
{
    if 0 <= from < text.len() {
        let end = from + line_len(text, from);
        if end < text.len() {
            lemma_shard_loads(text, end + 1, ordinal + 1, index, peers, rows);
        }
    }
}

proof fn lemma_joined_step<E>(
    text: Seq<u8>,
    from: int,
    ordinal: nat,
    peers: nat,
    count: nat,
    rows: spec_fn(Seq<u8>) -> Row<E>,
)
    requires
        0 <= from < text.len(),
        edges_from(text, from, ordinal, 0, 1, rows) is Ok,
        count <= peers,
        peers > 0,
    ensures
        joined_from(text, from, ordinal, peers, count, rows).to_multiset() == match rows(
            text.subrange(from, from + line_len(text, from)),
        ) {
            Row::Edge(edge) if ordinal % peers < count => joined_from(
                text,
                from + line_len(text, from) + 1,
                ordinal + 1,
                peers,
                count,
                rows,
            ).to_multiset().insert(edge),
            _ => joined_from(
                text,
                from + line_len(text, from) + 1,
                ordinal + 1,
                peers,
                count,
                rows,
            ).to_multiset(),
        },
    decreases count,
{
    broadcast use vstd::seq_lib::group_to_multiset_ensures;

    let end = from + line_len(text, from);
    let next = end + 1;
    let row = rows(text.subrange(from, end));
    if count > 0 {
        let index = (count - 1) as nat;
        lemma_joined_step(text, from, ordinal, peers, index, rows);
        lemma_shard_loads(text, from, ordinal, index, peers, rows);
        let before_here = joined_from(text, from, ordinal, peers, index, rows);
        let before_next = joined_from(text, next, ordinal + 1, peers, index, rows);
        let shard_here = edges_from(text, from, ordinal, index, peers, rows)->Ok_0;
        let shard_next = edges_from(text, next, ordinal + 1, index, peers, rows)->Ok_0;
        lemma_multiset_commutative(before_here, shard_here);
        lemma_multiset_commutative(before_next, shard_next);
        if row is Edge && ordinal % peers == index {
            let edge = row->Edge_0;
            lemma_multiset_commutative(seq![edge], shard_next);
        }
    }
}

/// From any line on, the loaders together read the edges that a single
/// loader reads, each as often.
proof fn lemma_joined_from<E>(
    text: Seq<u8>,
    from: int,
    ordinal: nat,
    peers: nat,
    rows: spec_fn(Seq<u8>) -> Row<E>,
)
    requires
        peers > 0,
        edges_from(text, from, ordinal, 0, 1, rows) is Ok,
    ensures
        joined_from(text, from, ordinal, peers, peers, rows).to_multiset() == edges_from(
            text,
            from,
            ordinal,
            0,
            1,
            rows,
        )->Ok_0.to_multiset(),
    decreases text.len() - from,
{
    broadcast use vstd::seq_lib::group_to_multiset_ensures;

    if 0 <= from < text.len() {
        let end = from + line_len(text, from);
        if end < text.len() {
            lemma_joined_from(text, end + 1, ordinal + 1, peers, rows);
        } else {
            lemma_joined_empty(text, end + 1, ordinal + 1, peers, peers, rows);
        }
        lemma_joined_step(text, from, ordinal, peers, peers, rows);
        match rows(text.subrange(from, end)) {
            Row::Edge(edge) => {
                let rest = edges_from(text, end + 1, ordinal + 1, 0, 1, rows)->Ok_0;
                lemma_multiset_commutative(seq![edge], rest);
            },
            _ => {},
        }
    } else {
        lemma_joined_empty(text, from, ordinal, peers, peers, rows);
    }
}

proof fn lemma_joined_empty<E>(
    text: Seq<u8>,
    from: int,
    ordinal: nat,
    peers: nat,
    count: nat,
    rows: spec_fn(Seq<u8>) -> Row<E>,
)
    requires
        from < 0 || from >= text.len(),
    ensures
        joined_from(text, from, ordinal, peers, count, rows) == Seq::<E>::empty(),
    decreases count,
{
    if count > 0 {
        lemma_joined_empty(text, from, ordinal, peers, (count - 1) as nat, rows);
    }
}

/// Where a single loader reads `text` without fault, any number of loaders
/// that share its lines read without fault too, and together they read the
/// edges that the single loader reads, each as often.
pub proof fn lemma_shards_complete<E>(text: Seq<u8>, peers: nat, rows: spec_fn(Seq<u8>) -> Row<E>)
    requires
        peers > 0,
        shard_edges(text, 0, 1, rows) is Ok,
    ensures
        forall|index: nat| index < peers ==> (#[trigger] shard_edges(text, index, peers, rows)) is Ok,
        joined_shards(text, peers, rows).to_multiset() == shard_edges(text, 0, 1, rows)->Ok_0.to_multiset(),
{
    assert forall|index: nat| index < peers implies (#[trigger] shard_edges(text, index, peers, rows)) is Ok by {
        lemma_shard_loads(text, 0, 0, index, peers, rows);
    }
    lemma_joined_from(text, 0, 0, peers, rows);
}

/// `done`, then what `rest` holds.
pub open spec fn edges_then<E>(done: Seq<E>, rest: Result<Seq<E>, GraphError>) -> Result<Seq<E>, GraphError> {
    match rest {
        Ok(edges) => Ok(done + edges),
        Err(error) => Err(error),
    }
}

/// `result` holds what `expected` does.
pub open spec fn loads<E>(result: Result<Vec<E>, GraphError>, expected: Result<Seq<E>, GraphError>) -> bool {
    match result {
        Ok(edges) => expected == Ok::<Seq<E>, GraphError>(edges@),
        Err(error) => expected == Err::<Seq<E>, GraphError>(error),
    }
}

/// Reads the next field of `line` at or after `from`.
fn read_field(line: &[u8], from: usize, field: Field) -> (result: Result<(u32, usize), LineFault>)
    requires
        from <= line.len(),
    ensures
        match result {
            Ok((value, end)) => parse_field(line@, from as int, field) == Ok::<(u32, int), LineFault>(
                (value, end as int),
            ) && end <= line.len(),
            Err(fault) => parse_field(line@, from as int, field) == Err::<(u32, int), LineFault>(fault),
        },
{
    let start = skip_spaces(line, from);
    if start >= line.len() {
        return Err(LineFault::Missing(field));
    }
    let end = skip_field(line, start);
    match parse_u32(&line[start..end]) {
        Some(value) => Ok((value, end)),
        None => Err(LineFault::Invalid(field)),
    }
}

/// Reads a line `from to weight`.
pub fn read_weighted_row(line: &[u8]) -> (row: Row<WeightedEdge>)
    ensures
        row == weighted_row(line@),
{
    if line.len() > 0 && line[0] == 35 {
        return Row::Comment;
    }
    let (from, after_from) = match read_field(line, 0, Field::From) {
        Ok(read) => read,
        Err(fault) => {
            return Row::Fault(fault);
        },
    };
    let (to, after_to) = match read_field(line, after_from, Field::To) {
        Ok(read) => read,
        Err(fault) => {
            return Row::Fault(fault);
        },
    };
    match read_field(line, after_to, Field::Weight) {
        Ok((weight, _)) => Row::Edge((from, to, weight)),
        Err(fault) => Row::Fault(fault),
    }
}

/// Reads a line `from to`.
pub fn read_unweighted_row(line: &[u8]) -> (row: Row<UnweightedEdge>)
    ensures
        row == unweighted_row(line@),
{
    if line.len() > 0 && line[0] == 35 {
        return Row::Comment;
    }
    let (from, after_from) = match read_field(line, 0, Field::From) {
        Ok(read) => read,
        Err(fault) => {
            return Row::Fault(fault);
        },
    };
    match read_field(line, after_from, Field::To) {
        Ok((to, _)) => Row::Edge((from, to)),
        Err(fault) => Row::Fault(fault),
    }
}

/// Reads the lines of `text` that the loader `index` of `peers` takes.
fn load_rows<E, F: Fn(&[u8]) -> Row<E>>(
    text: &[u8],
    index: usize,
    peers: usize,
    read: F,
    Ghost(rows): Ghost<spec_fn(Seq<u8>) -> Row<E>>,
) -> (result: Result<Vec<E>, GraphError>)
    requires
        peers > 0,
        forall|line: &[u8]| call_requires(read, (line,)),
        forall|line: &[u8], row: Row<E>| call_ensures(read, (line,), row) ==> row == rows(line@),
    ensures
        loads(result, shard_edges(text@, index as nat, peers as nat, rows)),
{
    let mut edges: Vec<E> = Vec::new();
    let mut from: usize = 0;
    let mut ordinal: usize = 0;
    while from < text.len()
        invariant
            from <= text.len(),
            ordinal <= from,
            peers > 0,
            forall|line: &[u8]| call_requires(read, (line,)),
            forall|line: &[u8], row: Row<E>| call_ensures(read, (line,), row) ==> row == rows(line@),
            shard_edges(text@, index as nat, peers as nat, rows) == edges_then(
                edges@,
                edges_from(text@, from as int, ordinal as nat, index as nat, peers as nat, rows),
            ),
        decreases text.len() - from,
    {
        let end = skip_line(text, from);
        let next = if end < text.len() {
            end + 1
        } else {
            end
        };
        let ghost rest = edges_from(text@, next as int, (ordinal + 1) as nat, index as nat, peers as nat, rows);
        let ghost done = edges@;
        if ordinal % peers == index {
            match read(&text[from..end]) {
                Row::Comment => {},
                Row::Fault(fault) => {
                    return Err(GraphError::DataFormat { line: ordinal, fault });
                },
                Row::Edge(edge) => {
                    edges.push(edge);
                    proof {
                        if rest is Ok {
                            assert(done + (seq![edge] + rest->Ok_0) =~= done.push(edge) + rest->Ok_0);
                        }
                    }
                },
            }
        }
        ordinal += 1;
        from = next;
    }
    Ok(edges)
}

/// One of `peers` loaders that share the lines of an edge list: the
/// loader `index` takes every line whose number leaves `index` when
/// divided by `peers`.
pub struct GraphLoader {
    index: usize,
    peers: usize,
}

impl View for GraphLoader {
    type V = (nat, nat);

    /// The loader's index, and the number of its peers.
    closed spec fn view(&self) -> (nat, nat) {
        (self.index as nat, self.peers as nat)
    }
}

impl GraphLoader {
    /// The single loader, which takes every line.
    pub fn default() -> (loader: GraphLoader)
        ensures
            loader@ == (0nat, 1nat),
    {
        GraphLoader { index: 0, peers: 1 }
    }

    /// The loader `index` of `peers`.
    pub fn new(index: usize, peers: usize) -> (loader: GraphLoader)
        ensures
            loader@ == (index as nat, peers as nat),
    {
        GraphLoader { index, peers }
    }

    /// Reads the weighted edges of this loader's lines of `text`, each line
    /// `from to weight`. A line that begins with `#` is a comment. There is
    /// nothing to read for one of no loaders.
    pub fn load_weighted_graph(&self, text: &[u8]) -> (result: Result<Vec<WeightedEdge>, GraphError>)
        ensures
            self@.1 == 0 ==> result == Err::<Vec<WeightedEdge>, GraphError>(
                GraphError::Configuration(ConfigurationFault::NoPeers),
            ),
            self@.1 > 0 ==> loads(result, shard_edges(text@, self@.0, self@.1, weighted_rows())),
    {
        if self.peers == 0 {
            return Err(GraphError::Configuration(ConfigurationFault::NoPeers));
        }
        load_rows(text, self.index, self.peers, read_weighted_row, Ghost(weighted_rows()))
    }

    /// Reads the edges of this loader's lines of `text`, each line
    /// `from to`. A line that begins with `#` is a comment. There is nothing
    /// to read for one of no loaders.
    pub fn load_unweighted_graph(&self, text: &[u8]) -> (result: Result<Vec<UnweightedEdge>, GraphError>)
        ensures
            self@.1 == 0 ==> result == Err::<Vec<UnweightedEdge>, GraphError>(
                GraphError::Configuration(ConfigurationFault::NoPeers),
            ),
            self@.1 > 0 ==> loads(result, shard_edges(text@, self@.0, self@.1, unweighted_rows())),
    {
        if self.peers == 0 {
            return Err(GraphError::Configuration(ConfigurationFault::NoPeers));
        }
        load_rows(text, self.index, self.peers, read_unweighted_row, Ghost(unweighted_rows()))
    }
}

} // verus!
