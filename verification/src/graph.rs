//! A rectangular grid of active/inactive cells seen as a graph whose edges
//! join orthogonally adjacent active cells, and a breadth-first search over
//! it that gathers active cells into connected groups.

use std::collections::VecDeque;
use vstd::prelude::*;
use vstd::seq_lib::to_multiset_update;

verus! {

/// A rectangular grid of boolean cells, stored column-major:
/// `vertices[x][y]` is the state of the cell at column `x`, row `y`.
pub struct RectangleGraph {
    pub width: usize,
    pub height: usize,
    pub vertices: Vec<Vec<bool>>,
}

/// Number of `false` entries in a row of cells.
pub open spec fn seq_false_count(s: Seq<bool>) -> nat {
    s.to_multiset().count(false)
}

/// Total number of `false` entries in a column-major grid of cells.
pub open spec fn grid_false_count(d: Seq<Vec<bool>>) -> nat
    decreases d.len(),
{
    if d.len() == 0 {
        0
    } else {
        seq_false_count(d[0]@) + grid_false_count(d.drop_first())
    }
}

/// Setting one entry of a row to `true` removes one `false` entry when the
/// old entry was `false` and changes nothing when it was already `true`.
proof fn lemma_seq_false_count_update(s: Seq<bool>, j: int)
    requires
        0 <= j < s.len(),
    ensures
        s[j] ==> seq_false_count(s.update(j, true)) == seq_false_count(s),
        !s[j] ==> seq_false_count(s.update(j, true)) + 1 == seq_false_count(s),
{
    broadcast use vstd::multiset::group_multiset_axioms;

    s.to_multiset_ensures();
    to_multiset_update(s, j, true);
    if !s[j] {
        assert(s.contains(false));
    }
}

/// Replacing one column changes the grid count by the difference of the two
/// column counts.
proof fn lemma_grid_false_count_update(d: Seq<Vec<bool>>, x: int, row: Vec<bool>)
    requires
        0 <= x < d.len(),
    ensures
        grid_false_count(d.update(x, row)) + seq_false_count(d[x]@) == grid_false_count(d)
            + seq_false_count(row@),
    decreases d.len(),
{
    if x == 0 {
        assert(d.update(0, row).drop_first() =~= d.drop_first());
    } else {
        assert(d.update(x, row)[0] == d[0]);
        assert(d.update(x, row).drop_first() =~= d.drop_first().update(x - 1, row));
        lemma_grid_false_count_update(d.drop_first(), x - 1, row);
    }
}

impl RectangleGraph {
    /// The grid really is `width` columns of `height` cells each.
    pub open spec fn wf(self) -> bool {
        &&& self.vertices@.len() == self.width
        &&& forall|x: int|
            0 <= x < self.width ==> (#[trigger] self.vertices@[x])@.len() == self.height
    }

    /// The cell lies inside the grid.
    pub open spec fn in_bounds(self, node: (usize, usize)) -> bool {
        node.0 < self.width && node.1 < self.height
    }

    /// The cell at the node is active.
    pub open spec fn active(self, node: (usize, usize)) -> bool {
        self.vertices@[node.0 as int]@[node.1 as int]
    }

    /// Builds the grid from a row-major rectangle of values, marking active
    /// the cells on which the closure returns true. The input must be
    /// non-empty and rectangular; the stored grid is its transpose, so that
    /// the first index is the column.
    pub fn new<N: Copy, F: Fn(N) -> bool>(vect: &Vec<Vec<N>>, closure: F) -> (g: RectangleGraph)
        requires
            vect@.len() > 0,
            forall|y: int| 0 <= y < vect@.len() ==> (#[trigger] vect@[y])@.len() == vect@[0]@.len(),
            forall|n: N| closure.requires((n,)),
        ensures
            g.wf(),
            g.height == vect@.len(),
            g.width == vect@[0]@.len(),
            forall|x: int, y: int|
                0 <= x < g.width && 0 <= y < g.height ==> call_ensures(
                    closure,
                    (vect@[y]@[x],),
                    #[trigger] g.vertices@[x]@[y],
                ),
    {
        let width = vect[0].len();
        let height = vect.len();
        let mut vertices: Vec<Vec<bool>> = Vec::new();
        let mut x: usize = 0;
        while x < width
            invariant
                width == vect@[0]@.len(),
                height == vect@.len(),
                height > 0,
                forall|y: int| 0 <= y < height ==> (#[trigger] vect@[y])@.len() == width,
                forall|n: N| closure.requires((n,)),
                x <= width,
                vertices@.len() == x,
                forall|x2: int| 0 <= x2 < x ==> (#[trigger] vertices@[x2])@.len() == height,
                forall|x2: int, y: int|
                    0 <= x2 < x && 0 <= y < height ==> call_ensures(
                        closure,
                        (vect@[y]@[x2],),
                        #[trigger] vertices@[x2]@[y],
                    ),
            decreases width - x,
        {
            let mut col: Vec<bool> = Vec::with_capacity(height);
            let mut y: usize = 0;
            while y < height
                invariant
                    width == vect@[0]@.len(),
                    height == vect@.len(),
                    forall|yy: int| 0 <= yy < height ==> (#[trigger] vect@[yy])@.len() == width,
                    forall|n: N| closure.requires((n,)),
                    x < width,
                    y <= height,
                    col@.len() == y,
                    forall|y2: int|
                        0 <= y2 < y ==> call_ensures(
                            closure,
                            (vect@[y2]@[x as int],),
                            #[trigger] col@[y2],
                        ),
            decreases height - y,
            {
                let val = vect[y][x];
                let b = closure(val);
                col.push(b);
                y = y + 1;
            }
            vertices.push(col);
            x = x + 1;
        }
        RectangleGraph { width, height, vertices }
    }

    /// State of the cell at column `x`, row `y`.
    pub fn bstate(&self, x: usize, y: usize) -> (b: bool)
        requires
            self.wf(),
            x < self.width,
            y < self.height,
        ensures
            b == self.active((x, y)),
    {
        self.vertices[x][y]
    }

    /// State of the cell at column `x`, row `y`, as 0 or 1.
    pub fn ustate(&self, x: usize, y: usize) -> (u: usize)
        requires
            self.wf(),
            x < self.width,
            y < self.height,
        ensures
            u == (if self.active((x, y)) {
                1int
            } else {
                0int
            }),
    {
        if self.vertices[x][y] {
            1
        } else {
            0
        }
    }

    /// Number of in-bounds orthogonal neighbours of the node that are active.
    pub open spec fn spec_active_degree(self, node: (usize, usize)) -> int {
        (if node.0 + 1 < self.width && self.active(((node.0 + 1) as usize, node.1)) {
            1int
        } else {
            0int
        }) + (if node.1 + 1 < self.height && self.active((node.0, (node.1 + 1) as usize)) {
            1int
        } else {
            0int
        }) + (if node.0 > 0 && self.active(((node.0 - 1) as usize, node.1)) {
            1int
        } else {
            0int
        }) + (if node.1 > 0 && self.active((node.0, (node.1 - 1) as usize)) {
            1int
        } else {
            0int
        })
    }

    /// Number of in-bounds orthogonal neighbours of the node that are
    /// inactive.
    pub open spec fn spec_inactive_degree(self, node: (usize, usize)) -> int {
        (if node.0 + 1 < self.width && !self.active(((node.0 + 1) as usize, node.1)) {
            1int
        } else {
            0int
        }) + (if node.1 + 1 < self.height && !self.active((node.0, (node.1 + 1) as usize)) {
            1int
        } else {
            0int
        }) + (if node.0 > 0 && !self.active(((node.0 - 1) as usize, node.1)) {
            1int
        } else {
            0int
        }) + (if node.1 > 0 && !self.active((node.0, (node.1 - 1) as usize)) {
            1int
        } else {
            0int
        })
    }

    /// Counts the active and inactive in-bounds orthogonal neighbours of the
    /// node, in that order.
    pub fn degrees(&self, node: (usize, usize)) -> (r: (usize, usize))
        requires
            self.wf(),
            self.in_bounds(node),
        ensures
            r.0 == self.spec_active_degree(node),
            r.1 == self.spec_inactive_degree(node),
    {
        let mut act: usize = 0;
        let mut inact: usize = 0;
        if node.0 + 1 != self.width {
            if self.bstate(node.0 + 1, node.1) {
                act = act + 1;
            } else {
                inact = inact + 1;
            }
        }
        if node.1 + 1 != self.height {
            if self.bstate(node.0, node.1 + 1) {
                act = act + 1;
            } else {
                inact = inact + 1;
            }
        }
        if node.0 != 0 {
            if self.bstate(node.0 - 1, node.1) {
                act = act + 1;
            } else {
                inact = inact + 1;
            }
        }
        if node.1 != 0 {
            if self.bstate(node.0, node.1 - 1) {
                act = act + 1;
            } else {
                inact = inact + 1;
            }
        }
        (act, inact)
    }

    /// The in-bounds active orthogonal neighbours of the node, in the fixed
    /// probe order: right, up, left, down.
    pub open spec fn spec_neighbours(self, node: (usize, usize)) -> Seq<(usize, usize)> {
        let s0 = Seq::<(usize, usize)>::empty();
        let s1 = if node.0 + 1 < self.width && self.active(((node.0 + 1) as usize, node.1)) {
            s0.push(((node.0 + 1) as usize, node.1))
        } else {
            s0
        };
        let s2 = if node.1 + 1 < self.height && self.active((node.0, (node.1 + 1) as usize)) {
            s1.push((node.0, (node.1 + 1) as usize))
        } else {
            s1
        };
        let s3 = if node.0 > 0 && self.active(((node.0 - 1) as usize, node.1)) {
            s2.push(((node.0 - 1) as usize, node.1))
        } else {
            s2
        };
        if node.1 > 0 && self.active((node.0, (node.1 - 1) as usize)) {
            s3.push((node.0, (node.1 - 1) as usize))
        } else {
            s3
        }
    }

    /// Collects the in-bounds active orthogonal neighbours of the node.
    pub fn neighbours(&self, node: (usize, usize)) -> (r: Vec<(usize, usize)>)
        requires
            self.wf(),
            self.in_bounds(node),
        ensures
            r@ == self.spec_neighbours(node),
            forall|i: int|
                0 <= i < r@.len() ==> self.in_bounds(#[trigger] r@[i]) && self.active(r@[i]),
    {
        let mut ans: Vec<(usize, usize)> = Vec::with_capacity(4);
        if node.0 + 1 != self.width && self.bstate(node.0 + 1, node.1) {
            ans.push((node.0 + 1, node.1));
        }
        if node.1 + 1 != self.height && self.bstate(node.0, node.1 + 1) {
            ans.push((node.0, node.1 + 1));
        }
        if node.0 != 0 && self.bstate(node.0 - 1, node.1) {
            ans.push((node.0 - 1, node.1));
        }
        if node.1 != 0 && self.bstate(node.0, node.1 - 1) {
            ans.push((node.0, node.1 - 1));
        }
        proof {
            assert(ans@ =~= self.spec_neighbours(node));
        }
        ans
    }

    /// True when `node2` is an in-bounds active orthogonal neighbour of
    /// `node1`.
    pub fn has_edge(&self, node1: (usize, usize), node2: (usize, usize)) -> (r: bool)
        requires
            self.wf(),
            self.in_bounds(node1),
        ensures
            r == self.spec_neighbours(node1).contains(node2),
    {
        let neigh = self.neighbours(node1);
        let mut i: usize = 0;
        while i < neigh.len()
            invariant
                i <= neigh@.len(),
                neigh@ == self.spec_neighbours(node1),
                forall|k: int| 0 <= k < i ==> neigh@[k] != node2,
            decreases neigh@.len() - i,
        {
            let c = neigh[i];
            if c.0 == node2.0 && c.1 == node2.1 {
                assert(self.spec_neighbours(node1)[i as int] == node2);
                return true;
            }
            i = i + 1;
        }
        false
    }

    /// Gathers the active cells into the connected groups found by
    /// breadth-first search. Every listed cell is an in-bounds active cell,
    /// every in-bounds active cell appears in some group, and no cell appears
    /// twice.
    pub fn components(&self) -> (ans: Vec<Vec<(usize, usize)>>)
        requires
            self.wf(),
        ensures
            forall|g: int, i: int|
                0 <= g < ans@.len() && 0 <= i < ans@[g]@.len() ==> self.in_bounds(
                    #[trigger] ans@[g]@[i],
                ) && self.active(ans@[g]@[i]),
            forall|c: (usize, usize)|
                self.in_bounds(c) ==> (self.active(c) <==> groups_contain(ans@, c)),
            forall|g1: int, i1: int, g2: int, i2: int|
                #![trigger ans@[g1]@[i1], ans@[g2]@[i2]]
                0 <= g1 < ans@.len() && 0 <= i1 < ans@[g1]@.len() && 0 <= g2 < ans@.len() && 0 <= i2
                    < ans@[g2]@.len() && (g1 != g2 || i1 != i2) ==> ans@[g1]@[i1] != ans@[g2]@[i2],
    {
        let mut bfs = RectangleBfs::new(self);
        let ans = bfs.components();
        proof {
            assert forall|c: (usize, usize)|
                self.in_bounds(c) && groups_contain(ans@, c) implies self.active(c) by {
                let g = choose|g: int| 0 <= g < ans@.len() && (#[trigger] ans@[g])@.contains(c);
                let i = choose|i: int| 0 <= i < ans@[g]@.len() && (#[trigger] ans@[g]@[i]) == c;
                assert(ans@[g]@[i] == c);
            }
        }
        ans
    }
}

/// Some group of the collection contains the cell.
pub open spec fn groups_contain(groups: Seq<Vec<(usize, usize)>>, c: (usize, usize)) -> bool {
    exists|g: int| 0 <= g < groups.len() && (#[trigger] groups[g])@.contains(c)
}

/// Appending a group to the collection adds exactly its cells.
proof fn lemma_groups_contain_push(
    groups: Seq<Vec<(usize, usize)>>,
    comp: Vec<(usize, usize)>,
    c: (usize, usize),
)
    ensures
        groups_contain(groups.push(comp), c) <==> (groups_contain(groups, c) || comp@.contains(c)),
{
    if groups_contain(groups, c) {
        let g = choose|g: int| 0 <= g < groups.len() && (#[trigger] groups[g])@.contains(c);
        assert(groups.push(comp)[g]@.contains(c));
    }
    if comp@.contains(c) {
        assert(groups.push(comp)[groups.len() as int]@.contains(c));
    }
    if groups_contain(groups.push(comp), c) {
        let g = choose|g: int|
            0 <= g < groups.push(comp).len() && (#[trigger] groups.push(comp)[g])@.contains(c);
        if g < groups.len() {
            assert(groups[g]@.contains(c));
        }
    }
}

/// Breadth-first search state over a rectangular grid graph: a queue of
/// discovered cells still to hand out, and the column-major map of the cells
/// discovered so far.
pub struct RectangleBfs<'a> {
    pub queue: VecDeque<(usize, usize)>,
    pub discovered: Vec<Vec<bool>>,
    pub graph: &'a RectangleGraph,
}

impl<'a> RectangleBfs<'a> {
    /// The discovery map matches the grid's dimensions and every queued cell
    /// is an in-bounds active cell.
    pub open spec fn wf(self) -> bool {
        &&& self.graph.wf()
        &&& self.discovered@.len() == self.graph.width
        &&& forall|x: int|
            0 <= x < self.graph.width ==> (#[trigger] self.discovered@[x])@.len()
                == self.graph.height
        &&& forall|i: int|
            0 <= i < self.queue@.len() ==> self.graph.in_bounds(#[trigger] self.queue@[i])
                && self.graph.active(self.queue@[i])
    }

    /// The measure that every search step shrinks: undiscovered cells plus
    /// queued cells.
    pub open spec fn measure(self) -> int {
        grid_false_count(self.discovered@) + self.queue@.len() as int
    }

    /// The cell has been discovered by the search.
    pub open spec fn discovered_at(self, c: (usize, usize)) -> bool {
        self.discovered@[c.0 as int]@[c.1 as int]
    }

    /// Fresh search state over the graph: empty queue, nothing discovered.
    pub fn new(graph: &'a RectangleGraph) -> (b: RectangleBfs<'a>)
        requires
            graph.wf(),
        ensures
            b.wf(),
            b.graph == graph,
            b.queue@.len() == 0,
            forall|c: (usize, usize)| graph.in_bounds(c) ==> !b.discovered_at(c),
    {
        let mut discovered: Vec<Vec<bool>> = Vec::new();
        let mut x: usize = 0;
        while x < graph.width
            invariant
                graph.wf(),
                x <= graph.width,
                discovered@.len() == x,
                forall|x2: int| 0 <= x2 < x ==> (#[trigger] discovered@[x2])@.len() == graph.height,
                forall|x2: int, y2: int|
                    0 <= x2 < x && 0 <= y2 < graph.height ==> !(#[trigger] discovered@[x2]@[y2]),
            decreases graph.width - x,
        {
            discovered.push(vec![false; graph.height]);
            x = x + 1;
        }
        RectangleBfs { queue: VecDeque::new(), discovered, graph }
    }

    /// Seeds the search with a starting cell.
    pub fn spawn(&mut self, node: (usize, usize))
        requires
            old(self).wf(),
            old(self).graph.in_bounds(node),
            old(self).graph.active(node),
        ensures
            final (self).wf(),
            final (self).graph == old(self).graph,
            final (self).queue@ == old(self).queue@.push(node),
            final (self).discovered == old(self).discovered,
    {
        self.queue.push_back(node)
    }

    /// Marks the cell as discovered and reports whether it already was. A
    /// first visit shrinks the count of undiscovered cells by one; a repeated
    /// visit changes nothing. No other cell's state changes.
    fn visit(&mut self, a: (usize, usize)) -> (r: bool)
        requires
            old(self).wf(),
            old(self).graph.in_bounds(a),
        ensures
            final (self).wf(),
            final (self).graph == old(self).graph,
            final (self).queue == old(self).queue,
            r == old(self).discovered_at(a),
            final (self).discovered_at(a),
            forall|c: (usize, usize)|
                old(self).graph.in_bounds(c) && c != a ==> final (self).discovered_at(c) == old(
                    self,
                ).discovered_at(c),
            r ==> grid_false_count(final (self).discovered@) == grid_false_count(
                old(self).discovered@,
            ),
            !r ==> grid_false_count(final (self).discovered@) + 1 == grid_false_count(
                old(self).discovered@,
            ),
    {
        let ghost d0 = self.discovered@;
        let row = &mut self.discovered[a.0];
        let ghost r0 = row@;
        let ans = row[a.1];
        row[a.1] = true;
        proof {
            lemma_seq_false_count_update(r0, a.1 as int);
            lemma_grid_false_count_update(d0, a.0 as int, self.discovered@[a.0 as int]);
        }
        ans
    }

    /// True when the cell has been discovered before.
    pub fn is_visited(&self, a: &(usize, usize)) -> (r: bool)
        requires
            self.wf(),
            self.graph.in_bounds(*a),
        ensures
            r == self.discovered_at(*a),
    {
        self.discovered[a.0][a.1]
    }

    /// Hands out the next discovered cell, first marking and queueing its
    /// not-yet-discovered active neighbours; `None` exactly when the queue is
    /// empty. A step that returns a cell strictly shrinks the measure, keeps
    /// the rest of the queue in order, appends exactly the newly discovered
    /// neighbours of the returned cell, and discovers exactly its neighbours.
    pub fn next(&mut self) -> (r: Option<(usize, usize)>)
        requires
            old(self).wf(),
            forall|t: int|
                0 <= t < old(self).queue@.len() ==> old(self).discovered_at(
                    #[trigger] old(self).queue@[t],
                ),
        ensures
            final (self).wf(),
            final (self).graph == old(self).graph,
            forall|t: int|
                0 <= t < final (self).queue@.len() ==> final (self).discovered_at(
                    #[trigger] final (self).queue@[t],
                ),
            r is None ==> old(self).queue@.len() == 0 && final (self).queue@.len() == 0 && final (
            self).discovered == old(self).discovered,
            r is Some ==> {
                &&& old(self).queue@.len() > 0
                &&& r == Some(old(self).queue@[0])
                &&& final (self).measure() < old(self).measure()
                &&& final (self).queue@.len() >= old(self).queue@.len() - 1
                &&& final (self).queue@.subrange(0, old(self).queue@.len() - 1)
                    == old(self).queue@.subrange(1, old(self).queue@.len() as int)
                &&& forall|t: int|
                    old(self).queue@.len() - 1 <= t < final (self).queue@.len()
                        ==> old(self).graph.spec_neighbours(old(self).queue@[0]).contains(
                        #[trigger] final (self).queue@[t],
                    ) && !old(self).discovered_at(final (self).queue@[t])
                &&& forall|t1: int, t2: int|
                    old(self).queue@.len() - 1 <= t1 < t2 < final (self).queue@.len() ==> final (
                    self).queue@[t1] != final (self).queue@[t2]
                &&& forall|c: (usize, usize)|
                    old(self).graph.in_bounds(c) ==> (final (self).discovered_at(c) <==> (old(
                        self,
                    ).discovered_at(c) || old(self).graph.spec_neighbours(
                        old(self).queue@[0],
                    ).contains(c)))
                &&& forall|c: (usize, usize)|
                    old(self).graph.spec_neighbours(old(self).queue@[0]).contains(c) && !old(
                        self,
                    ).discovered_at(c) ==> exists|t: int|
                        old(self).queue@.len() - 1 <= t < final (self).queue@.len() && final (
                        self).queue@[t] == c
            },
    {
        let node = match self.queue.pop_front() {
            None => {
                return None;
            },
            Some(n) => n,
        };
        let g = self.graph;
        let succs = g.neighbours(node);
        let ghost m0 = self.measure();
        let ghost base = old(self).queue@.len() - 1;
        let mut i: usize = 0;
        while i < succs.len()
            invariant
                self.wf(),
                self.graph == old(self).graph,
                g == old(self).graph,
                node == old(self).queue@[0],
                old(self).queue@.len() > 0,
                base == old(self).queue@.len() - 1,
                succs@ == g.spec_neighbours(node),
                forall|k: int|
                    0 <= k < succs@.len() ==> g.in_bounds(#[trigger] succs@[k]) && g.active(
                        succs@[k],
                    ),
                i <= succs@.len(),
                self.queue@.len() >= base,
                self.queue@.subrange(0, base as int) == old(self).queue@.subrange(
                    1,
                    old(self).queue@.len() as int,
                ),
                forall|t: int|
                    base <= t < self.queue@.len() ==> succs@.subrange(0, i as int).contains(
                        #[trigger] self.queue@[t],
                    ) && !old(self).discovered_at(self.queue@[t]),
                forall|t1: int, t2: int|
                    base <= t1 < t2 < self.queue@.len() ==> self.queue@[t1] != self.queue@[t2],
                forall|c: (usize, usize)|
                    g.in_bounds(c) ==> (self.discovered_at(c) <==> (old(self).discovered_at(c)
                        || succs@.subrange(0, i as int).contains(c))),
                forall|c: (usize, usize)|
                    succs@.subrange(0, i as int).contains(c) && !old(self).discovered_at(c)
                        ==> exists|t: int| base <= t < self.queue@.len() && self.queue@[t] == c,
                forall|t: int|
                    0 <= t < self.queue@.len() ==> self.discovered_at(#[trigger] self.queue@[t]),
                self.measure() <= m0,
            decreases succs@.len() - i,
        {
            let ghost pre = *self;
            let s = succs[i];
            let seen = self.visit(s);
            if !seen {
                self.queue.push_back(s);
            }
            i = i + 1;
            proof {
                assert(succs@.subrange(0, i as int) =~= succs@.subrange(0, i - 1).push(
                    succs@[i - 1],
                ));
                assert forall|t: int|
                    base <= t < self.queue@.len() implies succs@.subrange(0, i as int).contains(
                    #[trigger] self.queue@[t],
                ) && !old(self).discovered_at(self.queue@[t]) by {
                    if t < pre.queue@.len() {
                        assert(self.queue@[t] == pre.queue@[t]);
                        assert(succs@.subrange(0, i - 1).contains(pre.queue@[t]));
                        let u = choose|u: int|
                            0 <= u < i - 1 && (#[trigger] succs@.subrange(0, i - 1)[u]) == pre.queue@[t];
                        assert(succs@.subrange(0, i as int)[u] == self.queue@[t]);
                    } else {
                        assert(self.queue@[t] == s);
                        assert(succs@.subrange(0, i as int)[i - 1] == s);
                        assert(!pre.discovered_at(s));
                    }
                }
                assert forall|c: (usize, usize)|
                    g.in_bounds(c) implies (self.discovered_at(c) <==> (old(self).discovered_at(c)
                        || succs@.subrange(0, i as int).contains(c))) by {
                    if succs@.subrange(0, i as int).contains(c) {
                        let u = choose|u: int|
                            0 <= u < i && (#[trigger] succs@.subrange(0, i as int)[u]) == c;
                        if u < i - 1 {
                            assert(succs@.subrange(0, i - 1)[u] == c);
                        } else {
                            assert(c == s);
                        }
                    }
                    if succs@.subrange(0, i - 1).contains(c) {
                        let u = choose|u: int|
                            0 <= u < i - 1 && (#[trigger] succs@.subrange(0, i - 1)[u]) == c;
                        assert(succs@.subrange(0, i as int)[u] == c);
                    }
                    if c == s {
                        assert(succs@.subrange(0, i as int)[i - 1] == c);
                    } else {
                        assert(self.discovered_at(c) == pre.discovered_at(c));
                    }
                }
                assert forall|c: (usize, usize)|
                    succs@.subrange(0, i as int).contains(c) && !old(self).discovered_at(c)
                        implies exists|t: int|
                    base <= t < self.queue@.len() && self.queue@[t] == c by {
                    if c == s && !seen {
                        assert(self.queue@[self.queue@.len() - 1] == c);
                    } else {
                        let t = choose|t: int|
                            base <= t < pre.queue@.len() && (#[trigger] pre.queue@[t]) == c;
                        assert(self.queue@[t] == c);
                    }
                }
            }
        }
        proof {
            assert(succs@.subrange(0, succs@.len() as int) =~= succs@);
        }
        Some(node)
    }

    /// Hands out cells until the queue is empty and collects them. The
    /// collected cells are in-bounds, active and pairwise distinct; they
    /// cover the starting queue; each of them was queued at the start or
    /// undiscovered; and the cells discovered at the end are exactly those
    /// discovered at the start plus the collected ones.
    fn collect_component(&mut self) -> (comp: Vec<(usize, usize)>)
        requires
            old(self).wf(),
            forall|t: int|
                0 <= t < old(self).queue@.len() ==> old(self).discovered_at(
                    #[trigger] old(self).queue@[t],
                ),
            forall|t1: int, t2: int|
                0 <= t1 < t2 < old(self).queue@.len() ==> old(self).queue@[t1] != old(
                    self,
                ).queue@[t2],
        ensures
            final (self).wf(),
            final (self).graph == old(self).graph,
            final (self).queue@.len() == 0,
            forall|i: int|
                0 <= i < comp@.len() ==> old(self).graph.in_bounds(#[trigger] comp@[i]) && old(
                    self,
                ).graph.active(comp@[i]),
            forall|t1: int, t2: int| 0 <= t1 < t2 < comp@.len() ==> comp@[t1] != comp@[t2],
            forall|c: (usize, usize)|
                old(self).graph.in_bounds(c) ==> (final (self).discovered_at(c) <==> (old(
                    self,
                ).discovered_at(c) || comp@.contains(c))),
            forall|t: int|
                0 <= t < comp@.len() ==> old(self).queue@.contains(#[trigger] comp@[t]) || !old(
                    self,
                ).discovered_at(comp@[t]),
            forall|t: int|
                0 <= t < old(self).queue@.len() ==> comp@.contains(#[trigger] old(self).queue@[t]),
    {
        let mut comp: Vec<(usize, usize)> = Vec::new();
        loop
            invariant
                self.wf(),
                self.graph == old(self).graph,
                forall|t: int|
                    0 <= t < self.queue@.len() ==> self.discovered_at(#[trigger] self.queue@[t]),
                forall|t1: int, t2: int|
                    0 <= t1 < t2 < self.queue@.len() ==> self.queue@[t1] != self.queue@[t2],
                forall|i: int|
                    0 <= i < comp@.len() ==> self.graph.in_bounds(#[trigger] comp@[i])
                        && self.graph.active(comp@[i]) && self.discovered_at(comp@[i]),
                forall|t1: int, t2: int| 0 <= t1 < t2 < comp@.len() ==> comp@[t1] != comp@[t2],
                forall|t: int, u: int|
                    0 <= t < comp@.len() && 0 <= u < self.queue@.len() ==> comp@[t]
                        != self.queue@[u],
                forall|c: (usize, usize)|
                    self.graph.in_bounds(c) ==> (self.discovered_at(c) <==> (old(
                        self,
                    ).discovered_at(c) || comp@.contains(c) || self.queue@.contains(c))),
                forall|t: int|
                    0 <= t < comp@.len() ==> old(self).queue@.contains(#[trigger] comp@[t]) || !old(
                        self,
                    ).discovered_at(comp@[t]),
                forall|u: int|
                    0 <= u < self.queue@.len() ==> old(self).queue@.contains(
                        #[trigger] self.queue@[u],
                    ) || !old(self).discovered_at(self.queue@[u]),
                forall|t: int|
                    0 <= t < old(self).queue@.len() ==> comp@.contains(#[trigger] old(self).queue@[t])
                        || self.queue@.contains(old(self).queue@[t]),
            ensures
                self.wf(),
                self.graph == old(self).graph,
                self.queue@.len() == 0,
                forall|i: int|
                    0 <= i < comp@.len() ==> self.graph.in_bounds(#[trigger] comp@[i])
                        && self.graph.active(comp@[i]),
                forall|t1: int, t2: int| 0 <= t1 < t2 < comp@.len() ==> comp@[t1] != comp@[t2],
                forall|c: (usize, usize)|
                    self.graph.in_bounds(c) ==> (self.discovered_at(c) <==> (old(
                        self,
                    ).discovered_at(c) || comp@.contains(c))),
                forall|t: int|
                    0 <= t < comp@.len() ==> old(self).queue@.contains(#[trigger] comp@[t]) || !old(
                        self,
                    ).discovered_at(comp@[t]),
                forall|t: int|
                    0 <= t < old(self).queue@.len() ==> comp@.contains(
                        #[trigger] old(self).queue@[t],
                    ),
            decreases self.measure(),
        {
            let ghost pre = *self;
            let ghost comp0 = comp@;
            let popped = self.next();
            match popped {
                Some(node) => {
                    comp.push(node);
                    proof {
                        let q0 = pre.queue@;
                        let q1 = self.queue@;
                        let nb = pre.graph.spec_neighbours(q0[0]);
                        let base = q0.len() - 1;
                        assert(pre.discovered_at(q0[0]));
                        assert forall|t: int| 0 <= t < base implies q1[t] == q0[t + 1] by {
                            assert(q1.subrange(0, base as int)[t] == q0.subrange(
                                1,
                                q0.len() as int,
                            )[t]);
                        }
                        assert forall|t1: int, t2: int| 0 <= t1 < t2 < q1.len() implies q1[t1]
                            != q1[t2] by {
                            if t1 < base && t2 >= base {
                                assert(pre.discovered_at(q0[t1 + 1]));
                            }
                        }
                        assert forall|t: int, u: int|
                            0 <= t < comp@.len() && 0 <= u < q1.len() implies comp@[t]
                            != q1[u] by {
                            if t < comp0.len() {
                                assert(pre.discovered_at(comp0[t]));
                                if u < base {
                                    assert(comp0[t] != q0[u + 1]);
                                }
                            } else {
                                if u < base {
                                    assert(q1[u] == q0[u + 1]);
                                }
                            }
                        }
                        assert forall|c: (usize, usize)|
                            self.graph.in_bounds(c) && self.discovered_at(c) implies (old(
                            self,
                        ).discovered_at(c) || comp@.contains(c) || q1.contains(c)) by {
                            if pre.discovered_at(c) {
                                if !old(self).discovered_at(c) && !comp0.contains(c) {
                                    let u = choose|u: int| 0 <= u < q0.len() && (#[trigger] q0[u]) == c;
                                    if u == 0 {
                                        assert(comp@[comp@.len() - 1] == c);
                                    } else {
                                        assert(q1[u - 1] == c);
                                    }
                                } else if comp0.contains(c) {
                                    let t = choose|t: int| 0 <= t < comp0.len() && (#[trigger] comp0[t]) == c;
                                    assert(comp@[t] == c);
                                }
                            }
                        }
                        assert forall|c: (usize, usize)|
                            self.graph.in_bounds(c) && (old(self).discovered_at(c)
                                || comp@.contains(c) || q1.contains(c)) implies self.discovered_at(
                            c,
                        ) by {
                            if comp@.contains(c) {
                                let t = choose|t: int| 0 <= t < comp@.len() && (#[trigger] comp@[t]) == c;
                                if t < comp0.len() {
                                    assert(pre.discovered_at(comp0[t]));
                                } else {
                                    assert(c == q0[0]);
                                }
                            } else if q1.contains(c) {
                                let t = choose|t: int| 0 <= t < q1.len() && (#[trigger] q1[t]) == c;
                                assert(self.discovered_at(q1[t]));
                            }
                        }
                        assert forall|t: int|
                            0 <= t < comp@.len() implies old(self).queue@.contains(
                            #[trigger] comp@[t],
                        ) || !old(self).discovered_at(comp@[t]) by {
                            if t == comp@.len() - 1 {
                                assert(comp@[t] == q0[0]);
                            }
                        }
                        assert forall|u: int|
                            0 <= u < q1.len() implies old(self).queue@.contains(
                            #[trigger] q1[u],
                        ) || !old(self).discovered_at(q1[u]) by {
                            if u < base {
                                assert(q1[u] == q0[u + 1]);
                            } else {
                                assert(!pre.discovered_at(q1[u]));
                                assert(pre.discovered_at(q1[u]) <==> (old(self).discovered_at(
                                    q1[u],
                                ) || comp0.contains(q1[u]) || q0.contains(q1[u])));
                            }
                        }
                        assert forall|t: int|
                            0 <= t < old(self).queue@.len() implies comp@.contains(
                            #[trigger] old(self).queue@[t],
                        ) || q1.contains(old(self).queue@[t]) by {
                            let c = old(self).queue@[t];
                            if comp0.contains(c) {
                                let w = choose|w: int| 0 <= w < comp0.len() && (#[trigger] comp0[w]) == c;
                                assert(comp@[w] == c);
                            } else if q0.contains(c) {
                                let u = choose|u: int| 0 <= u < q0.len() && (#[trigger] q0[u]) == c;
                                if u == 0 {
                                    assert(comp@[comp@.len() - 1] == c);
                                } else {
                                    assert(q1[u - 1] == c);
                                }
                            }
                        }
                    }
                },
                None => {
                    break ;
                },
            }
        }
        comp
    }

    /// Sweeps the whole grid, starting a breadth-first search at every active
    /// cell not discovered yet, and collects the cells each search hands out.
    /// Every listed cell is an in-bounds active cell and none appears twice;
    /// every in-bounds active cell ends up discovered, and the cells listed
    /// are exactly those newly discovered by this sweep.
    pub fn components(&mut self) -> (ans: Vec<Vec<(usize, usize)>>)
        requires
            old(self).wf(),
        ensures
            final (self).wf(),
            final (self).graph == old(self).graph,
            forall|g: int, i: int|
                0 <= g < ans@.len() && 0 <= i < ans@[g]@.len() ==> old(self).graph.in_bounds(
                    #[trigger] ans@[g]@[i],
                ) && old(self).graph.active(ans@[g]@[i]),
            forall|g1: int, i1: int, g2: int, i2: int|
                #![trigger ans@[g1]@[i1], ans@[g2]@[i2]]
                0 <= g1 < ans@.len() && 0 <= i1 < ans@[g1]@.len() && 0 <= g2 < ans@.len() && 0 <= i2
                    < ans@[g2]@.len() && (g1 != g2 || i1 != i2) ==> ans@[g1]@[i1] != ans@[g2]@[i2],
            forall|c: (usize, usize)|
                old(self).graph.in_bounds(c) ==> (final (self).discovered_at(c) <==> (old(
                    self,
                ).discovered_at(c) || groups_contain(ans@, c))),
            forall|c: (usize, usize)|
                old(self).graph.in_bounds(c) && old(self).graph.active(c) ==> final (
                self).discovered_at(c),
    {
        let mut ans: Vec<Vec<(usize, usize)>> = Vec::new();
        self.queue.clear();
        let g = self.graph;
        let mut x: usize = 0;
        while x < g.width
            invariant
                self.wf(),
                self.graph == old(self).graph,
                g == old(self).graph,
                x <= g.width,
                self.queue@.len() == 0,
                forall|gi: int, i: int|
                    0 <= gi < ans@.len() && 0 <= i < ans@[gi]@.len() ==> g.in_bounds(
                        #[trigger] ans@[gi]@[i],
                    ) && g.active(ans@[gi]@[i]),
                forall|g1: int, i1: int, g2: int, i2: int|
                    #![trigger ans@[g1]@[i1], ans@[g2]@[i2]]
                    0 <= g1 < ans@.len() && 0 <= i1 < ans@[g1]@.len() && 0 <= g2 < ans@.len() && 0
                        <= i2 < ans@[g2]@.len() && (g1 != g2 || i1 != i2) ==> ans@[g1]@[i1]
                        != ans@[g2]@[i2],
                forall|c: (usize, usize)|
                    g.in_bounds(c) ==> (self.discovered_at(c) <==> (old(self).discovered_at(c)
                        || groups_contain(ans@, c))),
                forall|c: (usize, usize)|
                    g.in_bounds(c) && g.active(c) && c.0 < x ==> self.discovered_at(c),
            decreases g.width - x,
        {
            let mut y: usize = 0;
            while y < g.height
                invariant
                    self.wf(),
                    self.graph == old(self).graph,
                    g == old(self).graph,
                    x < g.width,
                    y <= g.height,
                    self.queue@.len() == 0,
                    forall|gi: int, i: int|
                        0 <= gi < ans@.len() && 0 <= i < ans@[gi]@.len() ==> g.in_bounds(
                            #[trigger] ans@[gi]@[i],
                        ) && g.active(ans@[gi]@[i]),
                    forall|g1: int, i1: int, g2: int, i2: int|
                        #![trigger ans@[g1]@[i1], ans@[g2]@[i2]]
                        0 <= g1 < ans@.len() && 0 <= i1 < ans@[g1]@.len() && 0 <= g2 < ans@.len()
                            && 0 <= i2 < ans@[g2]@.len() && (g1 != g2 || i1 != i2) ==> ans@[g1]@[i1]
                            != ans@[g2]@[i2],
                    forall|c: (usize, usize)|
                        g.in_bounds(c) ==> (self.discovered_at(c) <==> (old(self).discovered_at(c)
                            || groups_contain(ans@, c))),
                    forall|c: (usize, usize)|
                        g.in_bounds(c) && g.active(c) && (c.0 < x || (c.0 == x && c.1 < y))
                            ==> self.discovered_at(c),
                decreases g.height - y,
            {
                let ghost pre = *self;
                let ghost ans0 = ans@;
                if g.bstate(x, y) && !self.visit((x, y)) {
                    let ghost seeded = *self;
                    self.spawn((x, y));
                    let ghost spawned = *self;
                    let comp = self.collect_component();
                    ans.push(comp);
                    proof {
                        let seed = (x, y);
                        assert(spawned.queue@.len() == 1);
                        assert(spawned.queue@[0] == seed);
                        assert(comp@.contains(seed));
                        assert forall|c: (usize, usize)|
                            g.in_bounds(c) implies (self.discovered_at(c) <==> (old(
                            self,
                        ).discovered_at(c) || groups_contain(ans@, c))) by {
                            lemma_groups_contain_push(ans0, comp, c);
                            if c != seed {
                                assert(seeded.discovered_at(c) == pre.discovered_at(c));
                            }
                        }
                        assert forall|g1: int, i1: int, g2: int, i2: int|
                            #![trigger ans@[g1]@[i1], ans@[g2]@[i2]]
                            0 <= g1 < ans@.len() && 0 <= i1 < ans@[g1]@.len() && 0 <= g2
                                < ans@.len() && 0 <= i2 < ans@[g2]@.len() && (g1 != g2 || i1 != i2)
                                implies ans@[g1]@[i1] != ans@[g2]@[i2] by {
                            let last = ans@.len() - 1;
                            if g1 == last && g2 == last {
                            } else if g1 == last || g2 == last {
                                let gp = if g1 == last {
                                    g2
                                } else {
                                    g1
                                };
                                let ip = if g1 == last {
                                    i2
                                } else {
                                    i1
                                };
                                let ic = if g1 == last {
                                    i1
                                } else {
                                    i2
                                };
                                let p = ans0[gp]@[ip];
                                let q = comp@[ic];
                                assert(ans0[gp]@.contains(p));
                                assert(groups_contain(ans0, p));
                                assert(pre.discovered_at(p));
                                if spawned.queue@.contains(q) {
                                    assert(q == seed);
                                    assert(!pre.discovered_at(seed));
                                } else {
                                    assert(!spawned.discovered_at(q));
                                    assert(pre.discovered_at(p) ==> spawned.discovered_at(p));
                                }
                            }
                        }
                    }
                }
                y = y + 1;
            }
            x = x + 1;
        }
        ans
    }
}

} // verus!
