use vstd::prelude::*;

use crate::text::{decimal_value, is_decimal, lines, parse_decimal, split_lines, split_words, words};
use crate::types::{CommId, VId, VIdList};
use vstd::slice::slice_subrange;

verus! {

/// Why a text graph cannot be loaded.
#[derive(Debug, Clone, Copy, PartialEq, Eq, Structural)]
pub enum GraphError {
    /// The text has no line.
    EmptyInput,
    /// The first line is not `t <num_vertices> <num_edges>`.
    BadHeader,
    /// A line that is not a valid record of the kind it is read as.
    BadRecord,
}

/// The header `t <num_vertices> <num_edges>` that the words of a line spell, if any.
pub open spec fn header_record(ws: Seq<Seq<u8>>) -> Option<(int, int)> {
    if ws.len() >= 3 && ws[0] == seq![116u8] && is_decimal(ws[1]) && decimal_value(ws[1])
        <= 0x1_0000_0000 && decimal_value(ws[1]) <= usize::MAX && is_decimal(ws[2]) && decimal_value(ws[2]) <= usize::MAX {
        Some((decimal_value(ws[1]) as int, decimal_value(ws[2]) as int))
    } else {
        None
    }
}

/// The vertex record `v <vid> <label> <community>` that the words of a line spell, with a
/// vertex below `nv` and a community below `u32::MAX`, if any.
pub open spec fn vertex_record(ws: Seq<Seq<u8>>, nv: int) -> Option<(int, int)> {
    if ws.len() >= 4 && ws[0] == seq![118u8] && is_decimal(ws[1]) && decimal_value(ws[1])
        <= usize::MAX && is_decimal(ws[3]) && decimal_value(ws[3]) < u32::MAX && decimal_value(
        ws[1],
    ) < nv {
        Some((decimal_value(ws[1]) as int, decimal_value(ws[3]) as int))
    } else {
        None
    }
}

/// The edge record `e <src> <dst>` that the words of a line spell, with a source below
/// `nv`, if any.
pub open spec fn edge_record(ws: Seq<Seq<u8>>, nv: int) -> Option<(int, int)> {
    if ws.len() >= 3 && ws[0] == seq![101u8] && is_decimal(ws[1]) && decimal_value(ws[1])
        <= usize::MAX && is_decimal(ws[2]) && decimal_value(ws[2]) <= u32::MAX && decimal_value(
        ws[1],
    ) < nv {
        Some((decimal_value(ws[1]) as int, decimal_value(ws[2]) as int))
    } else {
        None
    }
}

/// What loading has gathered: each vertex's community, each vertex's out-neighbors in
/// file order, and the largest community id seen.
pub type LoadState = (Seq<u32>, Seq<Seq<u32>>, u32);

/// One line applied to a load state: a vertex record sets a community, an edge record
/// appends a neighbor, anything else is skipped.
pub open spec fn load_step(st: LoadState, line: Seq<u8>) -> LoadState {
    let ws = words(line);
    match vertex_record(ws, st.0.len() as int) {
        Some((v, c)) => (
            st.0.update(v, c as u32),
            st.1,
            if c > st.2 {
                c as u32
            } else {
                st.2
            },
        ),
        None => match edge_record(ws, st.1.len() as int) {
            Some((s, d)) => (st.0, st.1.update(s, st.1[s].push(d as u32)), st.2),
            None => st,
        },
    }
}

/// The state after the record lines `ls` of a graph of `nv` vertices.
pub open spec fn load_lines(ls: Seq<Seq<u8>>, nv: nat) -> LoadState
    decreases ls.len(),
{
    if ls.len() == 0 {
        (Seq::new(nv, |i: int| 0u32), Seq::new(nv, |i: int| Seq::<u32>::empty()), 0u32)
    } else {
        load_step(load_lines(ls.drop_last(), nv), ls.last())
    }
}

/// The contents of nested vectors.
pub open spec fn lists_view(v: Seq<Vec<u32>>) -> Seq<Seq<u32>> {
    Seq::new(v.len(), |i: int| v[i]@)
}

/// Whether `cl` lists, for each community `c <= max_comm`, the vertices of community `c`
/// in ascending order.
pub open spec fn is_community_list(cl: Seq<Seq<u32>>, map: Seq<u32>, max_comm: u32) -> bool {
    &&& cl.len() == max_comm + 1
    &&& forall|c: int, i: int, j: int|
        0 <= c < cl.len() && 0 <= i < j < cl[c].len() ==> #[trigger] cl[c][i] < #[trigger] cl[c][j]
    &&& forall|c: int, x: u32|
        0 <= c < cl.len() ==> (#[trigger] cl[c].contains(x) <==> (x < map.len() && map[x as int] == c))
}

/// A directed graph in compressed sparse row form, with a community per vertex.
#[derive(Debug)]
pub struct CsrGraph {
    pub num_vertices: usize,
    pub num_edges: usize,
    /// Vertex `v`'s neighbors are `neighbors[offsets[v]..offsets[v + 1]]`.
    pub offsets: Vec<usize>,
    pub neighbors: VIdList,
    /// The community of each vertex.
    pub community_map: Vec<CommId>,
    /// The largest community id.
    pub max_comm_id: CommId,
    /// The vertices of each community, once computed.
    pub community_list: Option<Vec<Vec<VId>>>,
}

impl CsrGraph {
    pub open spec fn wf(&self) -> bool {
        &&& self.num_vertices <= 0x1_0000_0000
        &&& self.offsets@.len() == self.num_vertices + 1
        &&& self.offsets@[0] == 0
        &&& forall|i: int, j: int| 0 <= i <= j <= self.num_vertices ==> self.offsets@[i] <= self.offsets@[j]
        &&& self.offsets@[self.num_vertices as int] == self.neighbors@.len()
        &&& self.community_map@.len() == self.num_vertices
        &&& forall|v: int| 0 <= v < self.num_vertices ==> #[trigger] self.community_map@[v] <= self.max_comm_id
        &&& self.max_comm_id < u32::MAX
        &&& (self.community_list matches Some(cl) ==> is_community_list(
            lists_view(cl@),
            self.community_map@,
            self.max_comm_id,
        ))
    }

    /// The out-neighbors of `v`.
    pub open spec fn adj(&self, v: int) -> Seq<u32> {
        self.neighbors@.subrange(self.offsets@[v] as int, self.offsets@[v + 1] as int)
    }

    /// An empty graph.
    pub fn new() -> (r: Self)
        ensures
            r.wf(),
            r.num_vertices == 0,
            r.community_list is None,
    {
        let mut offsets: Vec<usize> = Vec::new();
        offsets.push(0);
        CsrGraph {
            num_vertices: 0,
            num_edges: 0,
            offsets,
            neighbors: Vec::new(),
            community_map: Vec::new(),
            max_comm_id: 0,
            community_list: None,
        }
    }

    /// Groups the vertices by community.
    pub fn compute_community_list(&mut self)
        requires
            old(self).wf(),
        ensures
            final(self).wf(),
            final(self).community_list is Some,
            final(self).num_vertices == old(self).num_vertices,
            final(self).offsets == old(self).offsets,
            final(self).neighbors == old(self).neighbors,
            final(self).community_map == old(self).community_map,
            final(self).max_comm_id == old(self).max_comm_id,
    {
        let n = self.community_map.len();
        let count = self.max_comm_id as usize + 1;
        let mut communities: Vec<Vec<VId>> = Vec::new();
        let mut c: usize = 0;
        while c < count
            invariant
                c <= count,
                communities@.len() == c,
                forall|k: int| 0 <= k < c ==> (#[trigger] communities@[k])@.len() == 0,
            decreases count - c,
        {
            communities.push(Vec::new());
            c = c + 1;
        }
        let ghost map = self.community_map@;
        let mut v: usize = 0;
        while v < n
            invariant
                n == map.len(),
                n == self.num_vertices,
                map == self.community_map@,
                self.wf(),
                count == self.max_comm_id + 1,
                v <= n,
                communities@.len() == count,
                forall|k: int, i: int, j: int|
                    0 <= k < count && 0 <= i < j < communities@[k]@.len() ==> #[trigger] communities@[k]@[i]
                        < #[trigger] communities@[k]@[j],
                forall|k: int, i: int| 0 <= k < count && 0 <= i < communities@[k]@.len() ==> #[trigger] communities@[k]@[i] < v,
                forall|k: int, x: u32|
                    0 <= k < count ==> (#[trigger] communities@[k]@.contains(x) <==> (x < v && map[x as int] == k)),
            decreases n - v,
        {
            let comm = self.community_map[v] as usize;
            let ghost before = communities@;
            communities[comm].push(v as u32);
            proof {
                assert forall|k: int, x: u32| 0 <= k < count implies (#[trigger] communities@[k]@.contains(x)
                    <==> (x < v + 1 && map[x as int] == k)) by {
                    let bf = before[k]@;
                    let nw = communities@[k]@;
                    if bf.contains(x) {
                        let i = choose|i: int| 0 <= i < bf.len() && bf[i] == x;
                        assert(bf[i] < v);
                    }
                    if k == comm {
                        assert(nw == bf.push(v as u32));
                        if x == v as u32 {
                            assert(nw[bf.len() as int] == x);
                        } else {
                            if nw.contains(x) {
                                let i = choose|i: int| 0 <= i < nw.len() && nw[i] == x;
                                assert(i < bf.len());
                                assert(bf[i] == x);
                            }
                            if bf.contains(x) {
                                let i = choose|i: int| 0 <= i < bf.len() && bf[i] == x;
                                assert(nw[i] == x);
                            }
                        }
                    } else {
                        assert(communities@[k] == before[k]);
                    }
                }
                assert forall|k: int, i: int, j: int|
                    0 <= k < count && 0 <= i < j < communities@[k]@.len() implies #[trigger] communities@[k]@[i]
                        < #[trigger] communities@[k]@[j] by {
                    if k == comm {
                        assert(communities@[k]@ == before[k]@.push(v as u32));
                        if j < before[k]@.len() {
                            assert(before[k]@[i] < before[k]@[j]);
                        } else {
                            assert(before[k]@[i] < v);
                        }
                    } else {
                        assert(communities@[k] == before[k]);
                    }
                }
                assert forall|k: int, i: int| 0 <= k < count && 0 <= i < communities@[k]@.len() implies #[trigger] communities@[k]@[i] < v + 1 by {
                    if k == comm {
                        assert(communities@[k]@ == before[k]@.push(v as u32));
                        if i < before[k]@.len() {
                            assert(before[k]@[i] < v);
                        }
                    } else {
                        assert(communities@[k] == before[k]);
                    }
                }
            }
            v = v + 1;
        }
        self.community_list = Some(communities);
        proof {
            let cl = lists_view(communities@);
            assert forall|c: int, i: int, j: int|
                0 <= c < cl.len() && 0 <= i < j < cl[c].len() implies #[trigger] cl[c][i] < #[trigger] cl[c][j] by {
                assert(cl[c] == communities@[c]@);
            }
            assert forall|c: int, x: u32| 0 <= c < cl.len() implies (#[trigger] cl[c].contains(x) <==> (x
                < map.len() && map[x as int] == c)) by {
                assert(cl[c] == communities@[c]@);
            }
        }
    }

    /// Number of vertices.
    pub fn num_vertices(&self) -> (r: usize)
        ensures
            r == self.num_vertices,
    {
        self.num_vertices
    }

    /// Number of edges that the graph's header announced.
    pub fn num_edges(&self) -> (r: usize)
        ensures
            r == self.num_edges,
    {
        self.num_edges
    }

    /// The CSR offsets.
    pub fn offsets(&self) -> (r: &[usize])
        ensures
            r@ == self.offsets@,
    {
        self.offsets.as_slice()
    }

    /// The CSR neighbor array.
    pub fn neighbors(&self) -> (r: &[VId])
        ensures
            r@ == self.neighbors@,
    {
        self.neighbors.as_slice()
    }

    /// The community of each vertex.
    pub fn communities(&self) -> (r: &[CommId])
        ensures
            r@ == self.community_map@,
    {
        self.community_map.as_slice()
    }

    /// The community of each vertex.
    pub fn community_map(&self) -> (r: &[CommId])
        ensures
            r@ == self.community_map@,
    {
        self.community_map.as_slice()
    }

    /// The out-neighbors of `vertex_id`.
    pub fn get_neighbor_iter(&self, vertex_id: VId) -> (r: &[VId])
        requires
            self.wf(),
            vertex_id < self.num_vertices,
        ensures
            r@ == self.adj(vertex_id as int),
    {
        let start = self.offsets[vertex_id as usize];
        let end = self.offsets[vertex_id as usize + 1];
        slice_subrange(self.neighbors.as_slice(), start, end)
    }

    /// The out-neighbors of each of `vertex_ids`.
    pub fn induced_graph(&self, vertex_ids: &[VId]) -> (r: Vec<Vec<VId>>)
        requires
            self.wf(),
            forall|i: int| 0 <= i < vertex_ids@.len() ==> #[trigger] vertex_ids@[i] < self.num_vertices,
        ensures
            r@.len() == vertex_ids@.len(),
            forall|i: int| 0 <= i < r@.len() ==> (#[trigger] r@[i])@ == self.adj(vertex_ids@[i] as int),
    {
        let mut out: Vec<Vec<VId>> = Vec::new();
        let mut i: usize = 0;
        while i < vertex_ids.len()
            invariant
                self.wf(),
                i <= vertex_ids@.len(),
                forall|k: int| 0 <= k < vertex_ids@.len() ==> #[trigger] vertex_ids@[k] < self.num_vertices,
                out@.len() == i,
                forall|k: int| 0 <= k < i ==> (#[trigger] out@[k])@ == self.adj(vertex_ids@[k] as int),
            decreases vertex_ids@.len() - i,
        {
            let ns = self.get_neighbor_iter(vertex_ids[i]);
            out.push(vstd::slice::slice_to_vec(ns));
            i = i + 1;
        }
        out
    }

    /// The vertices of each community, computed on first use.
    pub fn get_community_structure(&mut self) -> (r: &Vec<Vec<VId>>)
        requires
            old(self).wf(),
        ensures
            final(self).wf(),
            is_community_list(lists_view(r@), old(self).community_map@, old(self).max_comm_id),
            final(self).num_vertices == old(self).num_vertices,
            final(self).offsets == old(self).offsets,
            final(self).neighbors == old(self).neighbors,
            final(self).community_map == old(self).community_map,
            final(self).max_comm_id == old(self).max_comm_id,
            final(self).community_list == Some(*r),
    {
        if self.community_list.is_none() {
            self.compute_community_list();
        }
        match &self.community_list {
            Some(cl) => cl,
            None => {
                assert(false);
                unreached()
            },
        }
    }

    /// The out-degree of `vertex_id`.
    pub fn get_degree(&self, vertex_id: VId) -> (r: u32)
        requires
            self.wf(),
            vertex_id < self.num_vertices,
        ensures
            r == self.adj(vertex_id as int).len() as u32,
    {
        let start = self.offsets[vertex_id as usize];
        let end = self.offsets[vertex_id as usize + 1];
        (end - start) as u32
    }

    /// The community of each vertex, taking the graph apart.
    pub fn take_community_map(self) -> (r: Vec<CommId>)
        ensures
            r@ == self.community_map@,
    {
        self.community_map
    }

    /// The vertices of each community, taking the graph apart.
    pub fn take_community_list(self) -> (r: Vec<Vec<VId>>)
        requires
            self.community_list is Some,
        ensures
            Some(r) == self.community_list,
    {
        match self.community_list {
            Some(cl) => cl,
            None => unreached(),
        }
    }
}

/// Whether a word is the single byte `c`.
fn word_is(w: &Vec<u8>, c: u8) -> (r: bool)
    ensures
        r == (w@ == seq![c]),
{
    if w.len() == 1 && w[0] == c {
        assert(w@ =~= seq![c]);
        true
    } else {
        false
    }
}

impl CsrGraph {
    /// Reads the header line `t <num_vertices> <num_edges>`.
    pub fn parse_metadata(line: &[u8]) -> (r: Result<(usize, usize), GraphError>)
        ensures
            r is Ok <==> header_record(words(line@)) is Some,
            r matches Ok((nv, ne)) ==> header_record(words(line@)) == Some((nv as int, ne as int)),
            r is Err ==> r == Err::<(usize, usize), GraphError>(GraphError::BadHeader),
    {
        let parts = split_words(line);
        if parts.len() < 3 || !word_is(&parts[0], 116u8) {
            return Err(GraphError::BadHeader);
        }
        let num_vertices = match parse_decimal(parts[1].as_slice(), 0x1_0000_0000u64) {
            Some(n) => n,
            None => {
                return Err(GraphError::BadHeader);
            },
        };
        let num_edges = match parse_decimal(parts[2].as_slice(), usize::MAX as u64) {
            Some(n) => n,
            None => {
                return Err(GraphError::BadHeader);
            },
        };
        if num_vertices > usize::MAX as u64 {
            return Err(GraphError::BadHeader);
        }
        Ok((num_vertices as usize, num_edges as usize))
    }

    /// Reads a vertex line `v <vid> <label> <community>` and records the vertex's
    /// community; changes nothing on any other line.
    pub fn parse_vertex(line: &[u8], communities: &mut Vec<CommId>, max_comm_id: &mut CommId) -> (r: Result<(), GraphError>)
        ensures
            r is Ok <==> vertex_record(words(line@), old(communities)@.len() as int) is Some,
            match vertex_record(words(line@), old(communities)@.len() as int) {
                Some((v, c)) => final(communities)@ == old(communities)@.update(v, c as u32)
                    && *final(max_comm_id) == if c > *old(max_comm_id) { c as u32 } else { *old(max_comm_id) },
                None => final(communities)@ == old(communities)@ && *final(max_comm_id) == *old(max_comm_id),
            },
    {
        let parts = split_words(line);
        if parts.len() < 4 || !word_is(&parts[0], 118u8) {
            return Err(GraphError::BadRecord);
        }
        let vertex_id = match parse_decimal(parts[1].as_slice(), usize::MAX as u64) {
            Some(n) => n,
            None => {
                return Err(GraphError::BadRecord);
            },
        };
        let community_id = match parse_decimal(parts[3].as_slice(), (u32::MAX - 1) as u64) {
            Some(n) => n as u32,
            None => {
                return Err(GraphError::BadRecord);
            },
        };
        if vertex_id >= communities.len() as u64 {
            return Err(GraphError::BadRecord);
        }
        communities.set(vertex_id as usize, community_id);
        if community_id > *max_comm_id {
            *max_comm_id = community_id;
        }
        Ok(())
    }

    /// Reads an edge line `e <src> <dst>` and appends `dst` to `src`'s neighbors; changes
    /// nothing on any other line.
    pub fn parse_edge(line: &[u8], edge_lists: &mut Vec<Vec<VId>>) -> (r: Result<(), GraphError>)
        ensures
            r is Ok <==> edge_record(words(line@), old(edge_lists)@.len() as int) is Some,
            match edge_record(words(line@), old(edge_lists)@.len() as int) {
                Some((s, d)) => lists_view(final(edge_lists)@) == lists_view(old(edge_lists)@).update(
                    s,
                    lists_view(old(edge_lists)@)[s].push(d as u32),
                ),
                None => lists_view(final(edge_lists)@) == lists_view(old(edge_lists)@),
            },
    {
        let parts = split_words(line);
        if parts.len() < 3 || !word_is(&parts[0], 101u8) {
            return Err(GraphError::BadRecord);
        }
        let source = match parse_decimal(parts[1].as_slice(), usize::MAX as u64) {
            Some(n) => n,
            None => {
                return Err(GraphError::BadRecord);
            },
        };
        let target = match parse_decimal(parts[2].as_slice(), u32::MAX as u64) {
            Some(n) => n as u32,
            None => {
                return Err(GraphError::BadRecord);
            },
        };
        if source >= edge_lists.len() as u64 {
            return Err(GraphError::BadRecord);
        }
        let ghost before = edge_lists@;
        edge_lists[source as usize].push(target);
        assert(lists_view(edge_lists@) =~= lists_view(before).update(
            source as int,
            lists_view(before)[source as int].push(target),
        ));
        Ok(())
    }

    /// Lays out per-vertex neighbor lists as CSR.
    pub fn build_csr(
        num_vertices: usize,
        num_edges: usize,
        edge_lists: Vec<Vec<VId>>,
        communities: Vec<CommId>,
        max_comm_id: CommId,
    ) -> (r: Self)
        requires
            num_vertices <= 0x1_0000_0000,
            edge_lists@.len() == num_vertices,
            communities@.len() == num_vertices,
            forall|v: int| 0 <= v < num_vertices ==> #[trigger] communities@[v] <= max_comm_id,
            max_comm_id < u32::MAX,
        ensures
            r.wf(),
            r.num_vertices == num_vertices,
            r.num_edges == num_edges,
            r.community_map@ == communities@,
            r.max_comm_id == max_comm_id,
            r.community_list is None,
            forall|v: int| 0 <= v < num_vertices ==> #[trigger] r.adj(v) == edge_lists@[v]@,
    {
        let mut offsets: Vec<usize> = Vec::new();
        offsets.push(0);
        let mut neighbors: Vec<VId> = Vec::new();
        let mut v: usize = 0;
        while v < num_vertices
            invariant
                v <= num_vertices,
                edge_lists@.len() == num_vertices,
                offsets@.len() == v + 1,
                offsets@[0] == 0,
                forall|i: int, j: int| 0 <= i <= j <= v ==> offsets@[i] <= offsets@[j],
                offsets@[v as int] == neighbors@.len(),
                forall|k: int| 0 <= k < v ==> neighbors@.subrange(offsets@[k] as int, offsets@[k + 1] as int)
                    == #[trigger] edge_lists@[k]@,
            decreases num_vertices - v,
        {
            let list = &edge_lists[v];
            let ghost start = neighbors@;
            let mut j: usize = 0;
            while j < list.len()
                invariant
                    j <= list@.len(),
                    neighbors@ == start + list@.subrange(0, j as int),
                decreases list@.len() - j,
            {
                neighbors.push(list[j]);
                assert(neighbors@ =~= start + list@.subrange(0, j + 1));
                j = j + 1;
            }
            let ghost old_offsets = offsets@;
            offsets.push(neighbors.len());
            proof {
                assert(neighbors@ =~= start + list@);
                assert forall|k: int| 0 <= k < v + 1 implies neighbors@.subrange(offsets@[k] as int, offsets@[k + 1] as int)
                    == #[trigger] edge_lists@[k]@ by {
                    if k < v {
                        assert(offsets@[k] == old_offsets[k]);
                        assert(offsets@[k + 1] == old_offsets[k + 1]);
                        assert(neighbors@.subrange(offsets@[k] as int, offsets@[k + 1] as int) =~= start.subrange(
                            old_offsets[k] as int,
                            old_offsets[k + 1] as int,
                        ));
                    } else {
                        assert(neighbors@.subrange(offsets@[k] as int, offsets@[k + 1] as int) =~= list@);
                    }
                }
            }
            v = v + 1;
        }
        CsrGraph {
            num_vertices,
            num_edges,
            offsets,
            neighbors,
            community_map: communities,
            max_comm_id,
            community_list: None,
        }
    }

    /// Loads a graph from its text: a header line `t <num_vertices> <num_edges>`, then
    /// vertex lines `v <vid> <label> <community>` and edge lines `e <src> <dst>`. Lines
    /// that are not valid records are skipped.
    pub fn from_text(text: &[u8]) -> (r: Result<Self, GraphError>)
        ensures
            r is Ok <==> lines(text@).len() > 0 && header_record(words(lines(text@)[0])) is Some,
            r matches Ok(g) ==> {
                let (nv, ne) = header_record(words(lines(text@)[0])).unwrap();
                let st = load_lines(lines(text@).drop_first(), nv as nat);
                &&& g.wf()
                &&& g.num_vertices == nv
                &&& g.num_edges == ne
                &&& g.community_map@ == st.0
                &&& g.max_comm_id == st.2
                &&& forall|v: int| 0 <= v < nv ==> #[trigger] g.adj(v) == st.1[v]
            },
            r matches Err(e) ==> e == (if lines(text@).len() == 0 {
                GraphError::EmptyInput
            } else {
                GraphError::BadHeader
            }),
    {
        let ls = split_lines(text);
        if ls.len() == 0 {
            return Err(GraphError::EmptyInput);
        }
        let (num_vertices, num_edges) = match Self::parse_metadata(ls[0].as_slice()) {
            Ok(h) => h,
            Err(e) => {
                return Err(e);
            },
        };
        let mut communities: Vec<CommId> = Vec::new();
        let mut edge_lists: Vec<Vec<VId>> = Vec::new();
        let mut v: usize = 0;
        while v < num_vertices
            invariant
                v <= num_vertices,
                communities@ == Seq::new(v as nat, |i: int| 0u32),
                lists_view(edge_lists@) == Seq::new(v as nat, |i: int| Seq::<u32>::empty()),
                edge_lists@.len() == v,
            decreases num_vertices - v,
        {
            communities.push(0);
            let empty: Vec<VId> = Vec::new();
            assert(empty@ =~= Seq::<u32>::empty());
            let ghost before = edge_lists@;
            edge_lists.push(empty);
            assert(communities@ =~= Seq::new((v + 1) as nat, |i: int| 0u32));
            assert forall|i: int| 0 <= i < v + 1 implies lists_view(edge_lists@)[i] == Seq::<u32>::empty() by {
                if i < v {
                    assert(edge_lists@[i] == before[i]);
                    assert(lists_view(before)[i] == Seq::<u32>::empty());
                }
            }
            assert(lists_view(edge_lists@) =~= Seq::new((v + 1) as nat, |i: int| Seq::<u32>::empty()));
            v = v + 1;
        }
        let mut max_comm_id: CommId = 0;
        let ghost all_lines = lines(text@);
        let ghost nv = num_vertices as nat;
        let mut k: usize = 1;
        proof {
            assert(all_lines.drop_first().subrange(0, 0) =~= Seq::<Seq<u8>>::empty());
        }
        while k < ls.len()
            invariant
                1 <= k <= ls@.len(),
                ls@.len() == all_lines.len(),
                forall|i: int| 0 <= i < ls@.len() ==> (#[trigger] ls@[i])@ == all_lines[i],
                communities@.len() == nv,
                edge_lists@.len() == nv,
                nv == num_vertices,
                (communities@, lists_view(edge_lists@), max_comm_id) == load_lines(
                    all_lines.drop_first().subrange(0, k - 1),
                    nv,
                ),
            decreases ls@.len() - k,
        {
            let line = ls[k].as_slice();
            let ghost prev = load_lines(all_lines.drop_first().subrange(0, k - 1), nv);
            proof {
                let sub = all_lines.drop_first().subrange(0, k as int);
                assert(sub.drop_last() =~= all_lines.drop_first().subrange(0, k - 1));
                assert(sub.last() == all_lines[k as int]);
                assert(lists_view(edge_lists@).len() == nv);
            }
            match Self::parse_vertex(line, &mut communities, &mut max_comm_id) {
                Ok(()) => {},
                Err(_) => {
                    let _ = Self::parse_edge(line, &mut edge_lists);
                },
            }
            proof {
                assert(lists_view(edge_lists@).len() == edge_lists@.len());
            }
            k = k + 1;
        }
        proof {
            assert(all_lines.drop_first().subrange(0, all_lines.len() - 1) =~= all_lines.drop_first());
            let st = load_lines(all_lines.drop_first(), nv);
            lemma_load_bounds(all_lines.drop_first(), nv);
        }
        let g = Self::build_csr(num_vertices, num_edges, edge_lists, communities, max_comm_id);
        Ok(g)
    }
}

/// The communities gathered by loading stay within the largest one seen.
proof fn lemma_load_bounds(ls: Seq<Seq<u8>>, nv: nat)
    ensures
        load_lines(ls, nv).0.len() == nv,
        load_lines(ls, nv).1.len() == nv,
        forall|v: int| 0 <= v < nv ==> #[trigger] load_lines(ls, nv).0[v] <= load_lines(ls, nv).2,
        load_lines(ls, nv).2 < u32::MAX,
    decreases ls.len(),
{
    if ls.len() > 0 {
        lemma_load_bounds(ls.drop_last(), nv);
    }
}

} // verus!
