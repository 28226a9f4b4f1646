use vstd::prelude::*;

use crate::text::{decimal, push_decimal};
use crate::transform::Transformation;

verus! {

/// Identifier of a transformation inside a graph.
#[derive(Debug, Copy, Clone, PartialEq, Eq, Structural, PartialOrd, Ord, Hash)]
pub struct TransformIdx(pub usize);

/// Index of an output of a transformation.
#[derive(Debug, Copy, Clone, PartialEq, Eq, Structural, Hash)]
pub struct OutputIdx(pub usize);

/// Index of an input of a transformation.
#[derive(Debug, Copy, Clone, PartialEq, Eq, Structural, Hash)]
pub struct InputIdx(pub usize);

/// Identifier of an output attached to a graph.
#[derive(Debug, Copy, Clone, PartialEq, Eq, Structural, PartialOrd, Ord, Hash)]
pub struct OutputId(pub usize);

/// An output of a transformation of the graph.
#[derive(Debug, Copy, Clone, PartialEq, Eq, Structural, Hash)]
pub struct Output {
    pub t_idx: TransformIdx,
    pub ouput_i: OutputIdx,
}

/// An input of a transformation of the graph.
#[derive(Debug, Copy, Clone, PartialEq, Eq, Structural, Hash)]
pub struct Input {
    pub t_idx: TransformIdx,
    pub input_i: InputIdx,
}

/// The inputs that an output feeds, with a cache for the computed value.
pub struct InputList<T> {
    /// List of all inputs to which the data is fed
    pub inputs: Vec<Input>,
    /// Compute cache
    pub cache: Option<T>,
}

impl<T> InputList<T> {
    pub fn new(inputs: Vec<Input>) -> (l: Self)
        ensures
            l.inputs@ == inputs@,
            l.cache is None,
    {
        Self { inputs, cache: None }
    }

    pub fn push(&mut self, input: Input)
        ensures
            final(self).inputs@ == old(self).inputs@.push(input),
            final(self).cache == old(self).cache,
    {
        self.inputs.push(input);
    }

    pub fn contains(&self, input: &Input) -> (b: bool)
        ensures
            b == self.inputs@.contains(*input),
    {
        let mut k: usize = 0;
        while k < self.inputs.len()
            invariant
                k <= self.inputs@.len(),
                forall|j: int| 0 <= j < k ==> self.inputs@[j] != *input,
            decreases self.inputs@.len() - k,
        {
            if self.inputs[k] == *input {
                return true;
            }
            k = k + 1;
        }
        false
    }
}

impl TransformIdx {
    pub fn incr(self) -> (r: Self)
        requires
            self.0 < usize::MAX,
        ensures
            r.0 == self.0 + 1,
    {
        TransformIdx(self.0 + 1)
    }
}

impl OutputId {
    pub fn incr(self) -> (r: Self)
        requires
            self.0 < usize::MAX,
        ensures
            r.0 == self.0 + 1,
    {
        OutputId(self.0 + 1)
    }
}

impl From<OutputIdx> for usize {
    fn from(output: OutputIdx) -> usize {
        output.0
    }
}

impl vstd::std_specs::convert::FromSpecImpl<OutputIdx> for usize {
    open spec fn obeys_from_spec() -> bool {
        true
    }

    open spec fn from_spec(output: OutputIdx) -> usize {
        output.0
    }
}

impl From<InputIdx> for usize {
    fn from(input: InputIdx) -> usize {
        input.0
    }
}

impl vstd::std_specs::convert::FromSpecImpl<InputIdx> for usize {
    open spec fn obeys_from_spec() -> bool {
        true
    }

    open spec fn from_spec(input: InputIdx) -> usize {
        input.0
    }
}


/// Errors returned when editing a graph, with a message for the user.
pub enum DSTError {
    InvalidInput(String),
    InvalidOutput(String),
    DuplicateEdge(String),
    Cycle(String),
}

/// How an output is shown in messages.
pub open spec fn debug_output(o: Output) -> Seq<char> {
    "Output { t_idx: TransformIdx("@ + decimal(o.t_idx.0 as nat) + "), ouput_i: OutputIdx("@
        + decimal(o.ouput_i.0 as nat) + ") }"@
}

/// How an input is shown in messages.
pub open spec fn debug_input(i: Input) -> Seq<char> {
    "Input { t_idx: TransformIdx("@ + decimal(i.t_idx.0 as nat) + "), input_i: InputIdx("@
        + decimal(i.input_i.0 as nat) + ") }"@
}

/// Append the description of an output to `out`.
fn push_output(out: &mut String, o: &Output)
    ensures
        final(out)@ == old(out)@ + debug_output(*o),
{
    let ghost start = out@;
    out.append("Output { t_idx: TransformIdx(");
    push_decimal(out, o.t_idx.0);
    out.append("), ouput_i: OutputIdx(");
    push_decimal(out, o.ouput_i.0);
    out.append(") }");
    assert(out@ =~= start + debug_output(*o));
}

/// Append the description of an input to `out`.
fn push_input(out: &mut String, i: &Input)
    ensures
        final(out)@ == old(out)@ + debug_input(*i),
{
    let ghost start = out@;
    out.append("Input { t_idx: TransformIdx(");
    push_decimal(out, i.t_idx.0);
    out.append("), input_i: InputIdx(");
    push_decimal(out, i.input_i.0);
    out.append(") }");
    assert(out@ =~= start + debug_input(*i));
}

/// Message of `DSTError::InvalidOutput`.
pub open spec fn invalid_output_msg(o: Output) -> Seq<char> {
    debug_output(o) + " does not exist in this graph!"@
}

/// Message of `DSTError::InvalidInput`.
pub open spec fn invalid_input_msg(i: Input) -> Seq<char> {
    debug_input(i) + " does not exist in this graph!"@
}

/// Message of `DSTError::DuplicateEdge`.
pub open spec fn duplicate_edge_msg(o: Output, i: Input) -> Seq<char> {
    "There already is an edge connecting "@ + debug_output(o) + " to "@ + debug_input(i) + "!"@
}

/// Message of `DSTError::Cycle`.
pub open spec fn cycle_msg(o: Output, i: Input) -> Seq<char> {
    "Connecting "@ + debug_output(o) + " to "@ + debug_input(i) + " would create a cycle!"@
}

fn make_invalid_output_msg(o: &Output) -> (s: String)
    ensures
        s@ == invalid_output_msg(*o),
{
    let mut s = String::new();
    push_output(&mut s, o);
    s.append(" does not exist in this graph!");
    s
}

fn make_invalid_input_msg(i: &Input) -> (s: String)
    ensures
        s@ == invalid_input_msg(*i),
{
    let mut s = String::new();
    push_input(&mut s, i);
    s.append(" does not exist in this graph!");
    s
}

fn make_duplicate_edge_msg(o: &Output, i: &Input) -> (s: String)
    ensures
        s@ == duplicate_edge_msg(*o, *i),
{
    let mut s = String::new();
    s.append("There already is an edge connecting ");
    push_output(&mut s, o);
    s.append(" to ");
    push_input(&mut s, i);
    s.append("!");
    assert(s@ =~= duplicate_edge_msg(*o, *i));
    s
}

fn make_cycle_msg(o: &Output, i: &Input) -> (s: String)
    ensures
        s@ == cycle_msg(*o, *i),
{
    let mut s = String::new();
    s.append("Connecting ");
    push_output(&mut s, o);
    s.append(" to ");
    push_input(&mut s, i);
    s.append(" would create a cycle!");
    assert(s@ =~= cycle_msg(*o, *i));
    s
}


/// Number of `false` entries.
pub open spec fn count_false(s: Seq<bool>) -> nat
    decreases s.len(),
{
    if s.len() == 0 {
        0
    } else {
        count_false(s.drop_last()) + if s.last() { 0nat } else { 1nat }
    }
}

proof fn lemma_count_false_update(s: Seq<bool>, i: int)
    requires
        0 <= i < s.len(),
        !s[i],
    ensures
        count_false(s.update(i, true)) + 1 == count_false(s),
    decreases s.len(),
{
    let u = s.update(i, true);
    if i < s.len() - 1 {
        assert(u.drop_last() =~= s.drop_last().update(i, true));
        lemma_count_false_update(s.drop_last(), i);
    } else {
        assert(u.drop_last() =~= s.drop_last());
    }
}

proof fn lemma_count_false_all(n: nat)
    ensures
        count_false(Seq::new(n, |j: int| false)) == n,
    decreases n,
{
    if n > 0 {
        assert(Seq::new(n, |j: int| false).drop_last() =~= Seq::new((n - 1) as nat, |j: int| false));
        lemma_count_false_all((n - 1) as nat);
    }
}

/// A graph of transformations, whose outputs feed the inputs of other
/// transformations. Transformation `k` (counting from 1) is the `k`-th one added.
pub struct DST<'de, A, T> {
    transforms: Vec<&'de Transformation<A>>,
    edges: Vec<(Output, InputList<T>)>,
    outputs: Vec<(OutputId, Output)>,
}

impl<'de, A, T> DST<'de, A, T> {
    /// The transformations of the graph; identifier `k` designates entry `k - 1`.
    pub closed spec fn transforms(&self) -> Seq<&'de Transformation<A>> {
        self.transforms@
    }

    /// Whether `o` is an output of a transformation of the graph.
    pub open spec fn output_exists(&self, o: Output) -> bool {
        &&& 1 <= o.t_idx.0 <= self.transforms().len()
        &&& self.transforms()[o.t_idx.0 - 1].has_output(o.ouput_i.0)
    }

    /// Whether `i` is an input of a transformation of the graph.
    pub open spec fn input_exists(&self, i: Input) -> bool {
        &&& 1 <= i.t_idx.0 <= self.transforms().len()
        &&& self.transforms()[i.t_idx.0 - 1].has_input(i.input_i.0)
    }

    /// Whether output `o` is connected to input `i`.
    pub closed spec fn has_link(&self, o: Output, i: Input) -> bool {
        exists|k: int|
            0 <= k < self.edges@.len() && #[trigger] self.edges@[k].0 == o
                && self.edges@[k].1.inputs@.contains(i)
    }

    /// The inputs that output `o` feeds, in the order they were connected,
    /// with its compute cache; none when `o` feeds nothing.
    pub closed spec fn edge_list(&self, o: Output) -> Option<(Seq<Input>, Option<T>)> {
        if exists|k: int| 0 <= k < self.edges@.len() && #[trigger] self.edges@[k].0 == o {
            let k = choose|k: int| 0 <= k < self.edges@.len() && #[trigger] self.edges@[k].0 == o;
            Some((self.edges@[k].1.inputs@, self.edges@[k].1.cache))
        } else {
            None
        }
    }

    /// The edge list of the output at position `k`, when it occurs nowhere else.
    proof fn lemma_edge_list_at(&self, k: int)
        requires
            0 <= k < self.edges@.len(),
            forall|j: int| 0 <= j < self.edges@.len() && j != k ==> #[trigger] self.edges@[j].0 != self.edges@[k].0,
        ensures
            self.edge_list(self.edges@[k].0) == Some((self.edges@[k].1.inputs@, self.edges@[k].1.cache)),
    {
        let o = self.edges@[k].0;
        assert(exists|k: int| 0 <= k < self.edges@.len() && #[trigger] self.edges@[k].0 == o);
        let c = choose|k: int| 0 <= k < self.edges@.len() && #[trigger] self.edges@[k].0 == o;
        if c != k {
            assert(self.edges@[c].0 != self.edges@[k].0);
        }
    }

    /// Whether transformation `b` takes data from transformation `a`.
    pub open spec fn depends(&self, a: usize, b: usize) -> bool {
        exists|o: Output, i: Input| #[trigger] self.has_link(o, i) && o.t_idx.0 == a && i.t_idx.0 == b
    }

    /// `p` is a chain of transformations, each one taking data from the previous one.
    pub open spec fn is_path(&self, p: Seq<usize>) -> bool {
        &&& p.len() >= 1
        &&& forall|k: int| 0 <= k < p.len() - 1 ==> #[trigger] self.depends(p[k], p[k + 1])
    }

    /// Data flows from transformation `a` to transformation `b` (in zero or more steps).
    pub open spec fn reachable(&self, a: usize, b: usize) -> bool {
        exists|p: Seq<usize>| #[trigger] self.is_path(p) && p[0] == a && p.last() == b
    }

    /// No transformation depends, directly or not, on itself.
    pub open spec fn acyclic(&self) -> bool {
        forall|a: usize, b: usize| #[trigger] self.depends(a, b) ==> !self.reachable(b, a)
    }

    /// The attached outputs, by identifier.
    pub closed spec fn attached(&self) -> Map<usize, Output> {
        Map::new(
            |id: usize| exists|k: int| 0 <= k < self.outputs@.len() && #[trigger] self.outputs@[k].0.0 == id,
            |id: usize| self.outputs@[choose|k: int| 0 <= k < self.outputs@.len() && #[trigger] self.outputs@[k].0.0 == id].1,
        )
    }

    /// Internal consistency of the graph.
    pub closed spec fn wf(&self) -> bool {
        &&& self.transforms@.len() < usize::MAX
        &&& forall|k1: int, k2: int|
            0 <= k1 < self.edges@.len() && 0 <= k2 < self.edges@.len() && k1 != k2
                ==> #[trigger] self.edges@[k1].0 != #[trigger] self.edges@[k2].0
        &&& forall|k: int| 0 <= k < self.edges@.len() ==> self.output_exists(#[trigger] self.edges@[k].0)
        &&& forall|k: int, j: int|
            0 <= k < self.edges@.len() && 0 <= j < self.edges@[k].1.inputs@.len()
                ==> self.input_exists(#[trigger] self.edges@[k].1.inputs@[j])
        &&& forall|k1: int, k2: int|
            0 <= k1 < self.outputs@.len() && 0 <= k2 < self.outputs@.len() && k1 != k2
                ==> #[trigger] self.outputs@[k1].0 != #[trigger] self.outputs@[k2].0
        &&& forall|k: int| 0 <= k < self.outputs@.len() ==> self.output_exists(#[trigger] self.outputs@[k].1)
        &&& forall|k: int| 0 <= k < self.outputs@.len() ==> (#[trigger] self.outputs@[k]).0.0 >= 1
        &&& self.acyclic()
    }

    /// An empty graph.
    pub fn new() -> (g: Self)
        ensures
            g.wf(),
            g.transforms().len() == 0,
            forall|o: Output, i: Input| !g.has_link(o, i),
            g.attached() == Map::<usize, Output>::empty(),
    {
        let g = Self { transforms: Vec::new(), edges: Vec::new(), outputs: Vec::new() };
        assert(g.attached() =~= Map::<usize, Output>::empty());
        assert forall|a: usize, b: usize| #[trigger] g.depends(a, b) implies !g.reachable(b, a) by {
            let (o, i) = choose|o: Output, i: Input| #[trigger] g.has_link(o, i) && o.t_idx.0 == a && i.t_idx.0 == b;
        }
        g
    }

    /// Add a transform and return its identifier TransformIdx.
    pub fn add_transform(&mut self, t: &'de Transformation<A>) -> (idx: TransformIdx)
        requires
            old(self).wf(),
            old(self).transforms().len() + 1 < usize::MAX,
        ensures
            final(self).wf(),
            idx.0 == old(self).transforms().len() + 1,
            final(self).transforms() == old(self).transforms().push(t),
            forall|o: Output, i: Input| final(self).has_link(o, i) == old(self).has_link(o, i),
            forall|o: Output| #[trigger] final(self).edge_list(o) == old(self).edge_list(o),
            final(self).attached() == old(self).attached(),
    {
        let idx = self.new_transform_idx();
        self.transforms.push(t);
        proof {
            assert forall|o: Output, i: Input| self.has_link(o, i) == old(self).has_link(o, i) by {
                assert(self.edges@ == old(self).edges@);
            }
            Self::lemma_same_links(&*old(self), &*self);
            assert(self.attached() =~= old(self).attached());
        }
        idx
    }

    /// Two graphs with the same links have the same dependencies and paths.
    proof fn lemma_same_links(g1: &Self, g2: &Self)
        requires
            forall|o: Output, i: Input| g1.has_link(o, i) == g2.has_link(o, i),
        ensures
            forall|a: usize, b: usize| g1.depends(a, b) == g2.depends(a, b),
            forall|p: Seq<usize>| g1.is_path(p) == g2.is_path(p),
            forall|a: usize, b: usize| g1.reachable(a, b) == g2.reachable(a, b),
            g1.acyclic() == g2.acyclic(),
    {
        assert forall|a: usize, b: usize| g1.depends(a, b) == g2.depends(a, b) by {
            if g1.depends(a, b) {
                let (o, i) = choose|o: Output, i: Input| #[trigger] g1.has_link(o, i) && o.t_idx.0 == a && i.t_idx.0 == b;
                assert(g2.has_link(o, i));
            }
            if g2.depends(a, b) {
                let (o, i) = choose|o: Output, i: Input| #[trigger] g2.has_link(o, i) && o.t_idx.0 == a && i.t_idx.0 == b;
                assert(g1.has_link(o, i));
            }
        }
        assert forall|p: Seq<usize>| g1.is_path(p) == g2.is_path(p) by {
            if g1.is_path(p) {
                assert forall|k: int| 0 <= k < p.len() - 1 implies #[trigger] g2.depends(p[k], p[k + 1]) by {
                    assert(g1.depends(p[k], p[k + 1]));
                }
            }
            if g2.is_path(p) {
                assert forall|k: int| 0 <= k < p.len() - 1 implies #[trigger] g1.depends(p[k], p[k + 1]) by {
                    assert(g2.depends(p[k], p[k + 1]));
                }
            }
        }
        assert forall|a: usize, b: usize| g1.reachable(a, b) == g2.reachable(a, b) by {
            if g1.reachable(a, b) {
                let p = choose|p: Seq<usize>| #[trigger] g1.is_path(p) && p[0] == a && p.last() == b;
                assert(g2.is_path(p));
            }
            if g2.reachable(a, b) {
                let p = choose|p: Seq<usize>| #[trigger] g2.is_path(p) && p[0] == a && p.last() == b;
                assert(g1.is_path(p));
            }
        }
    }

    /// A path can be extended by one more dependency.
    proof fn lemma_reachable_step(&self, a: usize, b: usize, c: usize)
        requires
            self.reachable(a, b),
            self.depends(b, c),
        ensures
            self.reachable(a, c),
    {
        let p = choose|p: Seq<usize>| #[trigger] self.is_path(p) && p[0] == a && p.last() == b;
        let q = p.push(c);
        assert forall|k: int| 0 <= k < q.len() - 1 implies #[trigger] self.depends(q[k], q[k + 1]) by {
            if k < p.len() - 1 {
                assert(self.depends(p[k], p[k + 1]));
            }
        }
        assert(self.is_path(q));
    }

    /// A transformation is reachable from itself.
    proof fn lemma_reachable_refl(&self, a: usize)
        ensures
            self.reachable(a, a),
    {
        let p = seq![a];
        assert(self.is_path(p));
    }

    /// Every linked input exists.
    proof fn lemma_link_input_exists(&self, o: Output, i: Input)
        requires
            self.wf(),
            self.has_link(o, i),
        ensures
            self.input_exists(i),
            self.output_exists(o),
    {
        let k = choose|k: int|
            0 <= k < self.edges@.len() && #[trigger] self.edges@[k].0 == o
                && self.edges@[k].1.inputs@.contains(i);
        let j = choose|j: int| 0 <= j < self.edges@[k].1.inputs@.len() && self.edges@[k].1.inputs@[j] == i;
        assert(self.input_exists(self.edges@[k].1.inputs@[j]));
    }

    /// Every element of a path starting in a set closed under dependency is in the set.
    proof fn lemma_closed_path(&self, visited: Seq<bool>, p: Seq<usize>, m: int)
        requires
            self.wf(),
            visited.len() == self.transforms().len() + 1,
            self.is_path(p),
            0 <= m < p.len(),
            p[0] < visited.len(),
            visited[p[0] as int],
            forall|o: Output, i: Input|
                #![trigger self.has_link(o, i)]
                self.has_link(o, i) && o.t_idx.0 < visited.len() && visited[o.t_idx.0 as int]
                    ==> visited[i.t_idx.0 as int],
        ensures
            p[m] < visited.len(),
            visited[p[m] as int],
        decreases m,
    {
        if m > 0 {
            self.lemma_closed_path(visited, p, m - 1);
            let k = m - 1;
            assert(self.depends(p[k], p[k + 1]));
            let (o, i) = choose|o: Output, i: Input| #[trigger] self.has_link(o, i) && o.t_idx.0 == p[m - 1] && i.t_idx.0 == p[m];
            self.lemma_link_input_exists(o, i);
        }
    }

    /// A set of transformations closed under dependency, containing `s`,
    /// contains everything reachable from `s`.
    proof fn lemma_closed_contains_reachable(&self, visited: Seq<bool>, s: usize, t: usize)
        requires
            self.wf(),
            visited.len() == self.transforms().len() + 1,
            s < visited.len(),
            visited[s as int],
            forall|o: Output, i: Input|
                #![trigger self.has_link(o, i)]
                self.has_link(o, i) && o.t_idx.0 < visited.len() && visited[o.t_idx.0 as int]
                    ==> visited[i.t_idx.0 as int],
            self.reachable(s, t),
        ensures
            t < visited.len(),
            visited[t as int],
    {
        let p = choose|p: Seq<usize>| #[trigger] self.is_path(p) && p[0] == s && p.last() == t;
        self.lemma_closed_path(visited, p, p.len() - 1);
    }

    /// Whether connecting `output` to `input` keeps the graph free of cycles,
    /// that is, whether the transformation of `output` does not depend on the
    /// transformation of `input` (nor is the same transformation).
    fn check_cycle(&self, input: &Input, output: &Output) -> (b: bool)
        requires
            self.wf(),
            self.input_exists(*input),
            self.output_exists(*output),
        ensures
            b == !self.reachable(input.t_idx.0, output.t_idx.0),
    {
        let n = self.transforms.len();
        let s = input.t_idx.0;
        let t = output.t_idx.0;
        let mut visited: Vec<bool> = Vec::new();
        let mut z: usize = 0;
        while z <= n
            invariant
                visited@ == Seq::new(z as nat, |j: int| false),
                z <= n + 1,
                n < usize::MAX,
            decreases n + 1 - z,
        {
            visited.push(false);
            z = z + 1;
            assert(visited@ =~= Seq::new(z as nat, |j: int| false));
        }
        proof {
            lemma_count_false_all((n + 1) as nat);
            lemma_count_false_update(visited@, s as int);
            self.lemma_reachable_refl(s);
        }
        visited.set(s, true);
        let mut queue: Vec<usize> = Vec::new();
        queue.push(s);
        proof {
            assert forall|x: usize| x <= n implies (visited@[x as int] <==> queue@.contains(x)) by {
                if x == s {
                    assert(queue@[0] == s);
                }
            }
        }
        let mut pos: usize = 0;
        while pos < queue.len()
            invariant
                self.wf(),
                n == self.transforms().len(),
                visited@.len() == n + 1,
                1 <= s <= n,
                pos <= queue@.len(),
                queue@.len() + count_false(visited@) == n + 1,
                visited@[s as int],
                forall|x: usize| x <= n ==> (visited@[x as int] <==> queue@.contains(x)),
                forall|q: int| 0 <= q < queue@.len() ==> #[trigger] queue@[q] <= n,
                forall|q: int| 0 <= q < queue@.len() ==> self.reachable(s, #[trigger] queue@[q]),
                forall|q: int, o: Output, i: Input|
                    #![trigger self.has_link(o, i), queue@[q]]
                    0 <= q < pos && self.has_link(o, i) && o.t_idx.0 == queue@[q]
                        ==> visited@[i.t_idx.0 as int],
            decreases n + 1 - pos,
        {
            let a = queue[pos];
            let mut k: usize = 0;
            while k < self.edges.len()
                invariant
                    self.wf(),
                    n == self.transforms().len(),
                    visited@.len() == n + 1,
                    1 <= s <= n,
                    pos < queue@.len(),
                    a == queue@[pos as int],
                    k <= self.edges@.len(),
                    queue@.len() + count_false(visited@) == n + 1,
                    visited@[s as int],
                    forall|x: usize| x <= n ==> (visited@[x as int] <==> queue@.contains(x)),
                    forall|q: int| 0 <= q < queue@.len() ==> #[trigger] queue@[q] <= n,
                    forall|q: int| 0 <= q < queue@.len() ==> self.reachable(s, #[trigger] queue@[q]),
                    forall|q: int, o: Output, i: Input|
                        #![trigger self.has_link(o, i), queue@[q]]
                        0 <= q < pos && self.has_link(o, i) && o.t_idx.0 == queue@[q]
                            ==> visited@[i.t_idx.0 as int],
                    forall|k2: int, j: int|
                        0 <= k2 < k && self.edges@[k2].0.t_idx.0 == a && 0 <= j < self.edges@[k2].1.inputs@.len()
                            ==> visited@[#[trigger] self.edges@[k2].1.inputs@[j].t_idx.0 as int],
                decreases self.edges@.len() - k,
            {
                if self.edges[k].0.t_idx.0 == a {
                    let ins = &self.edges[k].1.inputs;
                    let mut j: usize = 0;
                    while j < ins.len()
                        invariant
                            self.wf(),
                            n == self.transforms().len(),
                            visited@.len() == n + 1,
                            1 <= s <= n,
                            pos < queue@.len(),
                            a == queue@[pos as int],
                            k < self.edges@.len(),
                            self.edges@[k as int].0.t_idx.0 == a,
                            ins == &self.edges@[k as int].1.inputs,
                            j <= ins@.len(),
                            queue@.len() + count_false(visited@) == n + 1,
                            visited@[s as int],
                            forall|x: usize| x <= n ==> (visited@[x as int] <==> queue@.contains(x)),
                            forall|q: int| 0 <= q < queue@.len() ==> #[trigger] queue@[q] <= n,
                            forall|q: int| 0 <= q < queue@.len() ==> self.reachable(s, #[trigger] queue@[q]),
                            forall|q: int, o: Output, i: Input|
                                #![trigger self.has_link(o, i), queue@[q]]
                                0 <= q < pos && self.has_link(o, i) && o.t_idx.0 == queue@[q]
                                    ==> visited@[i.t_idx.0 as int],
                            forall|k2: int, j2: int|
                                0 <= k2 < k && self.edges@[k2].0.t_idx.0 == a && 0 <= j2 < self.edges@[k2].1.inputs@.len()
                                    ==> visited@[#[trigger] self.edges@[k2].1.inputs@[j2].t_idx.0 as int],
                            forall|j2: int| 0 <= j2 < j ==> visited@[#[trigger] ins@[j2].t_idx.0 as int],
                        decreases ins@.len() - j,
                    {
                        let b = ins[j].t_idx.0;
                        proof {
                            assert(self.input_exists(self.edges@[k as int].1.inputs@[j as int]));
                        }
                        if !visited[b] {
                            proof {
                                let o = self.edges@[k as int].0;
                                let i = ins@[j as int];
                                assert(self.has_link(o, i));
                                assert(self.depends(a, b));
                                self.lemma_reachable_step(s, a, b);
                                lemma_count_false_update(visited@, b as int);
                            }
                            let ghost oldq = queue@;
                            visited.set(b, true);
                            queue.push(b);
                            proof {
                                assert forall|x: usize| x <= n implies (visited@[x as int] <==> queue@.contains(x)) by {
                                    if x != b {
                                        if oldq.contains(x) {
                                            let q = choose|q: int| 0 <= q < oldq.len() && oldq[q] == x;
                                            assert(queue@[q] == x);
                                        }
                                        if queue@.contains(x) {
                                            let q = choose|q: int| 0 <= q < queue@.len() && queue@[q] == x;
                                            assert(q < oldq.len());
                                            assert(oldq[q] == x);
                                        }
                                    } else {
                                        assert(queue@[queue@.len() - 1] == b);
                                    }
                                }
                            }
                        }
                        j = j + 1;
                    }
                }
                k = k + 1;
            }
            proof {
                assert forall|o: Output, i: Input| #[trigger] self.has_link(o, i) && o.t_idx.0 == a
                    implies visited@[i.t_idx.0 as int] by {
                    let k2 = choose|k2: int|
                        0 <= k2 < self.edges@.len() && #[trigger] self.edges@[k2].0 == o
                            && self.edges@[k2].1.inputs@.contains(i);
                    let j2 = choose|j2: int| 0 <= j2 < self.edges@[k2].1.inputs@.len() && self.edges@[k2].1.inputs@[j2] == i;
                    assert(visited@[self.edges@[k2].1.inputs@[j2].t_idx.0 as int]);
                }
            }
            pos = pos + 1;
        }
        proof {
            assert forall|o: Output, i: Input|
                #![trigger self.has_link(o, i)]
                self.has_link(o, i) && o.t_idx.0 < visited@.len() && visited@[o.t_idx.0 as int]
                    implies visited@[i.t_idx.0 as int] by {
                let q = choose|q: int| 0 <= q < queue@.len() && queue@[q] == o.t_idx.0;
                assert(queue@[q] == o.t_idx.0);
            }
            if self.reachable(s, t) {
                self.lemma_closed_contains_reachable(visited@, s, t);
            }
            if visited@[t as int] {
                let q = choose|q: int| 0 <= q < queue@.len() && queue@[q] == t;
                assert(self.reachable(s, queue@[q]));
            }
        }
        !visited[t]
    }

    /// Paths compose.
    proof fn lemma_reachable_trans(&self, a: usize, b: usize, c: usize)
        requires
            self.reachable(a, b),
            self.reachable(b, c),
        ensures
            self.reachable(a, c),
    {
        let p1 = choose|p: Seq<usize>| #[trigger] self.is_path(p) && p[0] == a && p.last() == b;
        let p2 = choose|p: Seq<usize>| #[trigger] self.is_path(p) && p[0] == b && p.last() == c;
        let q = p1 + p2.skip(1);
        assert forall|k: int| 0 <= k < q.len() - 1 implies #[trigger] self.depends(q[k], q[k + 1]) by {
            if k < p1.len() - 1 {
                assert(q[k] == p1[k] && q[k + 1] == p1[k + 1]);
                assert(self.depends(p1[k], p1[k + 1]));
            } else {
                let k2 = k - (p1.len() - 1);
                assert(q[k] == p2[k2] && q[k + 1] == p2[k2 + 1]);
                assert(self.depends(p2[k2], p2[k2 + 1]));
            }
        }
        assert(self.is_path(q));
        assert(q.last() == c);
    }

    /// A path of a graph with one more dependency `x -> y` either is a path
    /// of the old graph, or goes through the new dependency.
    proof fn lemma_path_with_new_link(old_g: &Self, new_g: &Self, x: usize, y: usize, p: Seq<usize>)
        requires
            forall|a: usize, b: usize| #[trigger] new_g.depends(a, b) ==> old_g.depends(a, b) || (a == x && b == y),
            new_g.is_path(p),
        ensures
            old_g.reachable(p[0], p.last()) || (old_g.reachable(p[0], x) && old_g.reachable(y, p.last())),
        decreases p.len(),
    {
        if p.len() == 1 {
            old_g.lemma_reachable_refl(p[0]);
        } else {
            let q = p.drop_last();
            assert forall|k: int| 0 <= k < q.len() - 1 implies #[trigger] new_g.depends(q[k], q[k + 1]) by {
                assert(new_g.depends(p[k], p[k + 1]));
            }
            Self::lemma_path_with_new_link(old_g, new_g, x, y, q);
            let k = p.len() - 2;
            assert(new_g.depends(p[k], p[k + 1]));
            let c = q.last();
            assert(c == p[k]);
            if old_g.depends(c, p.last()) {
                if old_g.reachable(p[0], c) {
                    old_g.lemma_reachable_step(p[0], c, p.last());
                } else {
                    old_g.lemma_reachable_step(y, c, p.last());
                }
            } else {
                assert(c == x && p.last() == y);
                old_g.lemma_reachable_refl(y);
                if old_g.reachable(p[0], c) {
                } else {
                    old_g.lemma_reachable_trans(p[0], x, y);
                }
            }
        }
    }

    /// Adding a dependency `x -> y` to an acyclic graph where `x` is not reachable
    /// from `y` keeps it acyclic.
    proof fn lemma_connect_acyclic(old_g: &Self, new_g: &Self, x: usize, y: usize)
        requires
            old_g.acyclic(),
            !old_g.reachable(y, x),
            forall|a: usize, b: usize| #[trigger] new_g.depends(a, b) <==> old_g.depends(a, b) || (a == x && b == y),
        ensures
            new_g.acyclic(),
    {
        assert forall|a: usize, b: usize| #[trigger] new_g.depends(a, b) implies !new_g.reachable(b, a) by {
            if new_g.reachable(b, a) {
                let p = choose|p: Seq<usize>| #[trigger] new_g.is_path(p) && p[0] == b && p.last() == a;
                Self::lemma_path_with_new_link(old_g, new_g, x, y, p);
                if old_g.depends(a, b) {
                    if old_g.reachable(b, a) {
                        assert(false);
                    } else {
                        old_g.lemma_reachable_step(y, a, b);
                        old_g.lemma_reachable_trans(y, b, x);
                    }
                } else {
                    assert(a == x && b == y);
                    if old_g.reachable(b, a) {
                    } else {
                    }
                }
            }
        }
    }

    /// A chain of dependencies never leads from a transformation back to itself.
    pub proof fn lemma_no_cycle(&self, p: Seq<usize>)
        requires
            self.wf(),
            self.is_path(p),
            p.len() >= 2,
        ensures
            p[0] != p.last(),
    {
        let q = p.skip(1);
        assert forall|k: int| 0 <= k < q.len() - 1 implies #[trigger] self.depends(q[k], q[k + 1]) by {
            assert(self.depends(p[k + 1], p[k + 1 + 1]));
        }
        assert(self.is_path(q));
        let z: int = 0;
        assert(self.depends(p[z], p[z + 1]));
        assert(q[0] == p[1] && q.last() == p.last());
    }

    /// Connect an output to an input.
    /// Returns an error if cycle is created or if output or input does not exist.
    pub fn connect(&mut self, output: Output, input: Input) -> (r: Result<(), DSTError>)
        requires
            old(self).wf(),
        ensures
            final(self).wf(),
            final(self).transforms() == old(self).transforms(),
            final(self).attached() == old(self).attached(),
            !old(self).output_exists(output)
                ==> (r matches Err(DSTError::InvalidOutput(m)) && m@ == invalid_output_msg(output)),
            old(self).output_exists(output) && !old(self).input_exists(input)
                ==> (r matches Err(DSTError::InvalidInput(m)) && m@ == invalid_input_msg(input)),
            old(self).output_exists(output) && old(self).input_exists(input) && old(self).has_link(output, input)
                ==> (r matches Err(DSTError::DuplicateEdge(m)) && m@ == duplicate_edge_msg(output, input)),
            old(self).output_exists(output) && old(self).input_exists(input) && !old(self).has_link(output, input)
                && old(self).reachable(input.t_idx.0, output.t_idx.0)
                ==> (r matches Err(DSTError::Cycle(m)) && m@ == cycle_msg(output, input)),
            old(self).output_exists(output) && old(self).input_exists(input) && !old(self).has_link(output, input)
                && !old(self).reachable(input.t_idx.0, output.t_idx.0) ==> r is Ok,
            r is Ok ==> forall|o: Output, i: Input|
                #[trigger] final(self).has_link(o, i) == (old(self).has_link(o, i) || (o == output && i == input)),
            r is Ok ==> final(self).edge_list(output) == Some(match old(self).edge_list(output) {
                Some((l, c)) => (l.push(input), c),
                None => (seq![input], None),
            }),
            r is Ok ==> forall|o: Output| o != output ==> #[trigger] final(self).edge_list(o) == old(self).edge_list(o),
            r is Err ==> *final(self) == *old(self),
    {
        if !self.check_output(&output) {
            Err(DSTError::InvalidOutput(make_invalid_output_msg(&output)))
        } else if !self.check_input(&input) {
            Err(DSTError::InvalidInput(make_invalid_input_msg(&input)))
        } else if self.edge_exists(&input, &output) {
            Err(DSTError::DuplicateEdge(make_duplicate_edge_msg(&output, &input)))
        } else if !self.check_cycle(&input, &output) {
            Err(DSTError::Cycle(make_cycle_msg(&output, &input)))
        } else {
            let ghost old_g = *self;
            match self.edge_position(&output) {
                None => {
                    let mut v: Vec<Input> = Vec::new();
                    v.push(input);
                    self.edges.push((output, InputList::new(v)));
                    proof {
                        assert(old_g.edge_list(output) is None);
                        assert forall|j: int| 0 <= j < self.edges@.len() && j != self.edges@.len() - 1
                            implies #[trigger] self.edges@[j].0 != self.edges@[self.edges@.len() - 1].0 by {
                            assert(self.edges@[j] == old_g.edges@[j]);
                        }
                        self.lemma_edge_list_at(self.edges@.len() - 1);
                        assert forall|o: Output, i: Input|
                            #[trigger] self.has_link(o, i) == (old_g.has_link(o, i) || (o == output && i == input)) by {
                            let last = self.edges@.len() - 1;
                            if old_g.has_link(o, i) {
                                let k = choose|k: int| 0 <= k < old_g.edges@.len() && #[trigger] old_g.edges@[k].0 == o
                                    && old_g.edges@[k].1.inputs@.contains(i);
                                assert(self.edges@[k] == old_g.edges@[k]);
                            }
                            if o == output && i == input {
                                assert(self.edges@[last].1.inputs@[0] == input);
                                assert(self.edges@[last].0 == o);
                            }
                            if self.has_link(o, i) {
                                let k = choose|k: int| 0 <= k < self.edges@.len() && #[trigger] self.edges@[k].0 == o
                                    && self.edges@[k].1.inputs@.contains(i);
                                if k < last {
                                    assert(old_g.edges@[k] == self.edges@[k]);
                                } else {
                                    let j = choose|j: int| 0 <= j < self.edges@[k].1.inputs@.len() && self.edges@[k].1.inputs@[j] == i;
                                    assert(self.edges@[k].1.inputs@.len() == 1);
                                }
                            }
                        }
                    }
                },
                Some(k) => {
                    let (o0, mut list) = self.edges.remove(k);
                    list.push(input);
                    self.edges.insert(k, (o0, list));
                    proof {
                        assert(self.edges@ =~= old_g.edges@.update(k as int, (o0, list)));
                        assert(list.inputs@ == old_g.edges@[k as int].1.inputs@.push(input));
                        assert forall|j: int| 0 <= j < old_g.edges@.len() && j != k
                            implies #[trigger] old_g.edges@[j].0 != old_g.edges@[k as int].0 by {
                        }
                        old_g.lemma_edge_list_at(k as int);
                        assert forall|j: int| 0 <= j < self.edges@.len() && j != k
                            implies #[trigger] self.edges@[j].0 != self.edges@[k as int].0 by {
                            assert(self.edges@[j] == old_g.edges@[j]);
                            assert(old_g.edges@[j].0 != old_g.edges@[k as int].0);
                        }
                        self.lemma_edge_list_at(k as int);
                        assert forall|o: Output, i: Input|
                            #[trigger] self.has_link(o, i) == (old_g.has_link(o, i) || (o == output && i == input)) by {
                            if old_g.has_link(o, i) {
                                let k2 = choose|k2: int| 0 <= k2 < old_g.edges@.len() && #[trigger] old_g.edges@[k2].0 == o
                                    && old_g.edges@[k2].1.inputs@.contains(i);
                                if k2 == k {
                                    let j = choose|j: int| 0 <= j < old_g.edges@[k2].1.inputs@.len() && old_g.edges@[k2].1.inputs@[j] == i;
                                    assert(self.edges@[k2].1.inputs@[j] == i);
                                    assert(self.edges@[k2].1.inputs@.contains(i));
                                    assert(self.edges@[k2].0 == o);
                                } else {
                                    assert(self.edges@[k2] == old_g.edges@[k2]);
                                    assert(self.edges@[k2].0 == o);
                                }
                            }
                            if o == output && i == input {
                                let n = old_g.edges@[k as int].1.inputs@.len();
                                assert(self.edges@[k as int].1.inputs@[n as int] == input);
                                assert(self.edges@[k as int].1.inputs@.contains(input));
                                assert(self.edges@[k as int].0 == output);
                            }
                            if self.has_link(o, i) {
                                let k2 = choose|k2: int| 0 <= k2 < self.edges@.len() && #[trigger] self.edges@[k2].0 == o
                                    && self.edges@[k2].1.inputs@.contains(i);
                                let j = choose|j: int| 0 <= j < self.edges@[k2].1.inputs@.len() && self.edges@[k2].1.inputs@[j] == i;
                                if k2 == k {
                                    if j < old_g.edges@[k2].1.inputs@.len() {
                                        assert(old_g.edges@[k2].1.inputs@[j] == i);
                                    }
                                } else {
                                    assert(self.edges@[k2] == old_g.edges@[k2]);
                                }
                            }
                        }
                    }
                },
            }
            proof {
                assert forall|a: usize, b: usize| #[trigger] self.depends(a, b)
                    <==> old_g.depends(a, b) || (a == output.t_idx.0 && b == input.t_idx.0) by {
                    if self.depends(a, b) {
                        let (o, i) = choose|o: Output, i: Input| #[trigger] self.has_link(o, i) && o.t_idx.0 == a && i.t_idx.0 == b;
                        if old_g.has_link(o, i) {
                        }
                    }
                    if old_g.depends(a, b) {
                        let (o, i) = choose|o: Output, i: Input| #[trigger] old_g.has_link(o, i) && o.t_idx.0 == a && i.t_idx.0 == b;
                        assert(self.has_link(o, i));
                    }
                    if a == output.t_idx.0 && b == input.t_idx.0 {
                        assert(self.has_link(output, input));
                    }
                }
                Self::lemma_connect_acyclic(&old_g, &*self, output.t_idx.0, input.t_idx.0);
                assert(self.attached() =~= old_g.attached());
                assert forall|k1: int, k2: int|
                    0 <= k1 < self.edges@.len() && 0 <= k2 < self.edges@.len() && k1 != k2
                        implies #[trigger] self.edges@[k1].0 != #[trigger] self.edges@[k2].0 by {
                    if k1 < old_g.edges@.len() && k2 < old_g.edges@.len() {
                        assert(self.edges@[k1].0 == old_g.edges@[k1].0);
                        assert(self.edges@[k2].0 == old_g.edges@[k2].0);
                    }
                }
                assert forall|k: int, j: int|
                    0 <= k < self.edges@.len() && 0 <= j < self.edges@[k].1.inputs@.len()
                        implies self.input_exists(#[trigger] self.edges@[k].1.inputs@[j]) by {
                    let i = self.edges@[k].1.inputs@[j];
                    assert(self.has_link(self.edges@[k].0, i));
                    if i != input || self.edges@[k].0 != output {
                        let o = self.edges@[k].0;
                        assert(old_g.has_link(o, i));
                        old_g.lemma_link_input_exists(o, i);
                    }
                }
                assert forall|k: int| 0 <= k < self.edges@.len() implies self.output_exists(#[trigger] self.edges@[k].0) by {
                    if k < old_g.edges@.len() {
                        assert(self.edges@[k].0 == old_g.edges@[k].0);
                    }
                }
            }
            proof {
                assert forall|o: Output| o != output implies #[trigger] self.edge_list(o) == old_g.edge_list(o) by {
                    if exists|k: int| 0 <= k < old_g.edges@.len() && #[trigger] old_g.edges@[k].0 == o {
                        let k = choose|k: int| 0 <= k < old_g.edges@.len() && #[trigger] old_g.edges@[k].0 == o;
                        assert forall|j: int| 0 <= j < old_g.edges@.len() && j != k
                            implies #[trigger] old_g.edges@[j].0 != old_g.edges@[k].0 by {
                        }
                        old_g.lemma_edge_list_at(k);
                        assert(self.edges@[k] == old_g.edges@[k]);
                        assert forall|j: int| 0 <= j < self.edges@.len() && j != k
                            implies #[trigger] self.edges@[j].0 != self.edges@[k].0 by {
                        }
                        self.lemma_edge_list_at(k);
                    } else if exists|k: int| 0 <= k < self.edges@.len() && #[trigger] self.edges@[k].0 == o {
                        let k = choose|k: int| 0 <= k < self.edges@.len() && #[trigger] self.edges@[k].0 == o;
                        if k < old_g.edges@.len() {
                            assert(old_g.edges@[k].0 == o);
                        }
                    }
                }
            }
            Ok(())
        }
    }

    /// Looking an identifier up in the attached outputs.
    proof fn lemma_attached_at(&self, k: int)
        requires
            self.wf(),
            0 <= k < self.outputs@.len(),
        ensures
            self.attached().dom().contains(self.outputs@[k].0.0),
            self.attached()[self.outputs@[k].0.0] == self.outputs@[k].1,
    {
        let id = self.outputs@[k].0.0;
        assert(self.attached().dom().contains(id));
        let k2 = choose|k2: int| 0 <= k2 < self.outputs@.len() && #[trigger] self.outputs@[k2].0.0 == id;
        if k2 != k {
            assert(self.outputs@[k2].0 == self.outputs@[k].0);
        }
    }

    /// Attach an output to the graph. Only the attached outputs are lazily evaluated.
    /// Return the unique identifier to the attached output.
    /// Return an error if specified output does not exists in current graph.
    pub fn attach_output(&mut self, output: Output) -> (r: Result<OutputId, DSTError>)
        requires
            old(self).wf(),
            old(self).output_exists(output) ==> forall|id: usize| old(self).attached().dom().contains(id) ==> id < usize::MAX,
        ensures
            final(self).wf(),
            final(self).transforms() == old(self).transforms(),
            forall|o: Output, i: Input| #[trigger] final(self).has_link(o, i) == old(self).has_link(o, i),
            forall|o: Output| #[trigger] final(self).edge_list(o) == old(self).edge_list(o),
            old(self).output_exists(output) ==> (r matches Ok(id) && {
                &&& id.0 >= 1
                &&& forall|x: usize| old(self).attached().dom().contains(x) ==> x < id.0
                &&& (id.0 == 1 || old(self).attached().dom().contains((id.0 - 1) as usize))
                &&& final(self).attached() == old(self).attached().insert(id.0, output)
            }),
            !old(self).output_exists(output) ==> (r matches Err(DSTError::InvalidOutput(m))
                && m@ == invalid_output_msg(output) && *final(self) == *old(self)),
    {
        if self.check_output(&output) {
            let idx = self.new_output_id();
            let ghost old_g = *self;
            self.outputs.push((idx, output));
            proof {
                assert forall|o: Output, i: Input| #[trigger] self.has_link(o, i) == old_g.has_link(o, i) by {
                    assert(self.edges@ == old_g.edges@);
                }
                Self::lemma_same_links(&old_g, &*self);
                assert forall|k1: int, k2: int|
                    0 <= k1 < self.outputs@.len() && 0 <= k2 < self.outputs@.len() && k1 != k2
                        implies #[trigger] self.outputs@[k1].0 != #[trigger] self.outputs@[k2].0 by {
                    let last = self.outputs@.len() - 1;
                    if k1 == last {
                        old_g.lemma_attached_at(k2);
                    } else if k2 == last {
                        old_g.lemma_attached_at(k1);
                    } else {
                        assert(self.outputs@[k1] == old_g.outputs@[k1]);
                        assert(self.outputs@[k2] == old_g.outputs@[k2]);
                    }
                }
                let m = old_g.attached().insert(idx.0, output);
                assert forall|id: usize| #[trigger] self.attached().dom().contains(id) == m.dom().contains(id) by {
                    if self.attached().dom().contains(id) {
                        let k = choose|k: int| 0 <= k < self.outputs@.len() && #[trigger] self.outputs@[k].0.0 == id;
                        if k < old_g.outputs@.len() {
                            old_g.lemma_attached_at(k);
                        }
                    }
                    if old_g.attached().dom().contains(id) {
                        let k = choose|k: int| 0 <= k < old_g.outputs@.len() && #[trigger] old_g.outputs@[k].0.0 == id;
                        assert(self.outputs@[k] == old_g.outputs@[k]);
                    }
                    if id == idx.0 {
                        assert(self.outputs@[self.outputs@.len() - 1].0.0 == id);
                    }
                }
                assert forall|id: usize| #[trigger] self.attached().dom().contains(id) implies self.attached()[id] == m[id] by {
                    let k = choose|k: int| 0 <= k < self.outputs@.len() && #[trigger] self.outputs@[k].0.0 == id;
                    self.lemma_attached_at(k);
                    if k < old_g.outputs@.len() {
                        old_g.lemma_attached_at(k);
                    }
                }
                assert(self.attached() =~= m);
            }
            Ok(idx)
        } else {
            Err(DSTError::InvalidOutput(make_invalid_output_msg(&output)))
        }
    }

    /// Detach output with given ID. Does nothing if output does not exist.
    pub fn detach_output(&mut self, output_id: &OutputId)
        requires
            old(self).wf(),
        ensures
            final(self).wf(),
            final(self).transforms() == old(self).transforms(),
            forall|o: Output, i: Input| #[trigger] final(self).has_link(o, i) == old(self).has_link(o, i),
            forall|o: Output| #[trigger] final(self).edge_list(o) == old(self).edge_list(o),
            final(self).attached() == old(self).attached().remove(output_id.0),
    {
        let ghost old_g = *self;
        let mut k: usize = 0;
        while k < self.outputs.len()
            invariant
                *self == old_g,
                old_g == *old(self),
                old_g.wf(),
                k <= self.outputs@.len(),
                forall|j: int| 0 <= j < k ==> self.outputs@[j].0 != *output_id,
            decreases self.outputs@.len() - k,
        {
            if self.outputs[k].0 == *output_id {
                self.outputs.remove(k);
                proof {
                    assert(self.transforms() == old_g.transforms());
                    assert forall|o: Output, i: Input| #[trigger] self.has_link(o, i) == old_g.has_link(o, i) by {
                        assert(self.edges@ == old_g.edges@);
                    }
                    Self::lemma_same_links(&old_g, &*self);
                    assert forall|k1: int, k2: int|
                        0 <= k1 < self.outputs@.len() && 0 <= k2 < self.outputs@.len() && k1 != k2
                            implies #[trigger] self.outputs@[k1].0 != #[trigger] self.outputs@[k2].0 by {
                        let j1 = if k1 < k { k1 } else { k1 + 1 };
                        let j2 = if k2 < k { k2 } else { k2 + 1 };
                        assert(self.outputs@[k1] == old_g.outputs@[j1]);
                        assert(self.outputs@[k2] == old_g.outputs@[j2]);
                    }
                    assert forall|j: int| 0 <= j < self.outputs@.len() implies self.output_exists(#[trigger] self.outputs@[j].1) by {
                        let j1 = if j < k { j } else { j + 1 };
                        assert(self.outputs@[j] == old_g.outputs@[j1]);
                    }
                    assert forall|j: int| 0 <= j < self.outputs@.len() implies (#[trigger] self.outputs@[j]).0.0 >= 1 by {
                        let j1 = if j < k { j } else { j + 1 };
                        assert(self.outputs@[j] == old_g.outputs@[j1]);
                    }
                    let m = old_g.attached().remove(output_id.0);
                    assert forall|id: usize| #[trigger] self.attached().dom().contains(id) == m.dom().contains(id) by {
                        if self.attached().dom().contains(id) {
                            let j = choose|j: int| 0 <= j < self.outputs@.len() && #[trigger] self.outputs@[j].0.0 == id;
                            let j1 = if j < k { j } else { j + 1 };
                            assert(self.outputs@[j] == old_g.outputs@[j1]);
                            old_g.lemma_attached_at(j1);
                            assert(j1 != k);
                        }
                        if m.dom().contains(id) {
                            let j = choose|j: int| 0 <= j < old_g.outputs@.len() && #[trigger] old_g.outputs@[j].0.0 == id;
                            assert(j != k);
                            let j2 = if j < k { j } else { j - 1 };
                            assert(self.outputs@[j2] == old_g.outputs@[j]);
                        }
                    }
                    assert forall|id: usize| #[trigger] self.attached().dom().contains(id) implies self.attached()[id] == m[id] by {
                        let j = choose|j: int| 0 <= j < self.outputs@.len() && #[trigger] self.outputs@[j].0.0 == id;
                        self.lemma_attached_at(j);
                        let j1 = if j < k { j } else { j + 1 };
                        assert(self.outputs@[j] == old_g.outputs@[j1]);
                        old_g.lemma_attached_at(j1);
                    }
                    assert(self.attached() =~= m);
                }
                return;
            }
            k = k + 1;
        }
        proof {
            assert(!old_g.attached().dom().contains(output_id.0)) by {
                if old_g.attached().dom().contains(output_id.0) {
                    let j = choose|j: int| 0 <= j < old_g.outputs@.len() && #[trigger] old_g.outputs@[j].0.0 == output_id.0;
                    assert(old_g.outputs@[j].0 == *output_id);
                }
            }
            assert(old_g.attached().remove(output_id.0) =~= old_g.attached());
        }
    }

    /// The identifier that the next attached output gets: one more than the
    /// largest identifier in use, or 1.
    fn new_output_id(&self) -> (id: OutputId)
        requires
            self.wf(),
            forall|x: usize| self.attached().dom().contains(x) ==> x < usize::MAX,
        ensures
            id.0 >= 1,
            forall|x: usize| self.attached().dom().contains(x) ==> x < id.0,
            id.0 == 1 || self.attached().dom().contains((id.0 - 1) as usize),
    {
        let mut max: usize = 0;
        let mut k: usize = 0;
        while k < self.outputs.len()
            invariant
                self.wf(),
                k <= self.outputs@.len(),
                forall|j: int| 0 <= j < k ==> self.outputs@[j].0.0 <= max,
                max == 0 || exists|j: int| 0 <= j < k && self.outputs@[j].0.0 == max,
            decreases self.outputs@.len() - k,
        {
            if self.outputs[k].0.0 > max {
                max = self.outputs[k].0.0;
            }
            k = k + 1;
        }
        proof {
            assert forall|x: usize| self.attached().dom().contains(x) implies x <= max by {
                let j = choose|j: int| 0 <= j < self.outputs@.len() && #[trigger] self.outputs@[j].0.0 == x;
                assert(self.outputs@[j].0.0 <= max);
            }
            if max != 0 {
                let j = choose|j: int| 0 <= j < k && self.outputs@[j].0.0 == max;
                self.lemma_attached_at(j);
            }
        }
        OutputId(max).incr()
    }

    /// The transformations of the graph, in order of addition.
    pub fn transform_list(&self) -> (v: &Vec<&'de Transformation<A>>)
        ensures
            v@ == self.transforms(),
    {
        &self.transforms
    }

    /// The identifier that the next added transformation gets.
    fn new_transform_idx(&self) -> (idx: TransformIdx)
        requires
            self.wf(),
        ensures
            idx.0 == self.transforms().len() + 1,
    {
        TransformIdx(self.transforms.len()).incr()
    }

    /// Check that input exists in the current graph
    fn check_input(&self, input: &Input) -> (b: bool)
        ensures
            b == self.input_exists(*input),
    {
        let t = input.t_idx.0;
        if 1 <= t && t <= self.transforms.len() {
            self.transforms[t - 1].check_input(input.input_i.into())
        } else {
            false
        }
    }

    /// Check that output exists in the current graph
    fn check_output(&self, output: &Output) -> (b: bool)
        ensures
            b == self.output_exists(*output),
    {
        let t = output.t_idx.0;
        if 1 <= t && t <= self.transforms.len() {
            self.transforms[t - 1].check_output(output.ouput_i.into())
        } else {
            false
        }
    }

    /// Position of output `o` among the edges, if it has any.
    fn edge_position(&self, output: &Output) -> (r: Option<usize>)
        requires
            self.wf(),
        ensures
            match r {
                Some(k) => k < self.edges@.len() && self.edges@[k as int].0 == *output,
                None => forall|k: int| 0 <= k < self.edges@.len() ==> self.edges@[k].0 != *output,
            },
    {
        let mut k: usize = 0;
        while k < self.edges.len()
            invariant
                k <= self.edges@.len(),
                forall|j: int| 0 <= j < k ==> self.edges@[j].0 != *output,
            decreases self.edges@.len() - k,
        {
            if self.edges[k].0 == *output {
                return Some(k);
            }
            k = k + 1;
        }
        None
    }

    /// Whether output `output` is already connected to input `input`.
    fn edge_exists(&self, input: &Input, output: &Output) -> (b: bool)
        requires
            self.wf(),
        ensures
            b == self.has_link(*output, *input),
    {
        match self.edge_position(output) {
            Some(k) => {
                let b = self.edges[k].1.contains(input);
                proof {
                    if self.has_link(*output, *input) {
                        let k2 = choose|k2: int|
                            0 <= k2 < self.edges@.len() && #[trigger] self.edges@[k2].0 == *output
                                && self.edges@[k2].1.inputs@.contains(*input);
                        assert(k2 == k as int);
                    }
                }
                b
            },
            None => false,
        }
    }
}

} // verus!
