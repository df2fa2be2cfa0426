//! The three-layer routing graph of the network editor: groups (top), model
//! aliases (middle) and dispatch models (bottom). Wires join nodes of adjacent
//! layers, stored upper end first. Focusing a node keeps the cone of nodes
//! reachable from it by steps that move strictly away from its layer.

use vstd::prelude::*;

verus! {

/// A node of the routing graph.
#[derive(Clone, Copy, PartialEq, Eq, Hash, Debug, Structural)]
pub enum NodeKey {
    /// A user group.
    Group(usize),
    /// A model alias (mapping).
    Mapping(usize),
    /// A dispatch model: an upstream model actually offered by a channel.
    Dispatch(usize),
}

/// The layer of a node: 0 for groups, 1 for aliases, 2 for dispatch models.
pub open spec fn layer_of(k: NodeKey) -> int {
    match k {
        NodeKey::Group(_) => 0,
        NodeKey::Mapping(_) => 1,
        NodeKey::Dispatch(_) => 2,
    }
}

impl NodeKey {
    /// The layer of the node.
    pub fn layer(self) -> (l: u8)
        ensures
            l as int == layer_of(self),
    {
        match self {
            NodeKey::Group(_) => 0,
            NodeKey::Mapping(_) => 1,
            NodeKey::Dispatch(_) => 2,
        }
    }
}

/// The sample groups: name and colour.
pub open spec fn group_table() -> Seq<(Seq<char>, Seq<char>)> {
    seq![
        ("default"@, "#e5484d"@),
        ("sonnet"@, "#3e9bff"@),
        ("gpt-5"@, "#30a46c"@),
        ("vip"@, "#e5c558"@),
    ]
}

/// The sample model aliases: name and colour.
pub open spec fn alias_table() -> Seq<(Seq<char>, Seq<char>)> {
    seq![
        ("gpt-4o"@, "#f472b6"@),
        ("gpt-5"@, "#a78bfa"@),
        ("sonnet-4"@, "#22d3ee"@),
        ("gemini-2.5-pro"@, "#fb923c"@),
    ]
}

/// The sample channels.
pub open spec fn channel_table() -> Seq<Seq<char>> {
    seq!["OpenAI 官方"@, "Azure East"@, "OneAPI 上游"@, "Sonnet 官网"@, "AWS Bedrock"@, "Gemini"@]
}

/// The sample dispatch models: channel index and model name.
pub open spec fn dispatch_table() -> Seq<(usize, Seq<char>)> {
    seq![
        (0usize, "gpt-4o"@),
        (0usize, "gpt-5"@),
        (1usize, "gpt-4o"@),
        (2usize, "gpt-4o"@),
        (2usize, "gpt-5"@),
        (2usize, "sonnet-4"@),
        (3usize, "sonnet-4"@),
        (4usize, "sonnet-4"@),
        (5usize, "gemini-2.5-pro"@),
    ]
}

fn groups() -> (r: &'static [(&'static str, &'static str)])
    ensures
        r@.len() == group_table().len(),
        forall|i: int|
            #![trigger r@[i]]
            0 <= i < r@.len() ==> r@[i].0@ == group_table()[i].0 && r@[i].1@ == group_table()[i].1,
{
    &[("default", "#e5484d"), ("sonnet", "#3e9bff"), ("gpt-5", "#30a46c"), ("vip", "#e5c558")]
}

fn aliases() -> (r: &'static [(&'static str, &'static str)])
    ensures
        r@.len() == alias_table().len(),
        forall|i: int|
            #![trigger r@[i]]
            0 <= i < r@.len() ==> r@[i].0@ == alias_table()[i].0 && r@[i].1@ == alias_table()[i].1,
{
    &[
        ("gpt-4o", "#f472b6"),
        ("gpt-5", "#a78bfa"),
        ("sonnet-4", "#22d3ee"),
        ("gemini-2.5-pro", "#fb923c"),
    ]
}

fn channels() -> (r: &'static [&'static str])
    ensures
        r@.len() == channel_table().len(),
        forall|i: int| #![trigger r@[i]] 0 <= i < r@.len() ==> r@[i]@ == channel_table()[i],
{
    &["OpenAI 官方", "Azure East", "OneAPI 上游", "Sonnet 官网", "AWS Bedrock", "Gemini"]
}

fn dispatches() -> (r: &'static [(usize, &'static str)])
    ensures
        r@.len() == dispatch_table().len(),
        forall|i: int|
            #![trigger r@[i]]
            0 <= i < r@.len() ==> r@[i].0 == dispatch_table()[i].0 && r@[i].1@
                == dispatch_table()[i].1,
{
    &[
        (0, "gpt-4o"),
        (0, "gpt-5"),
        (1, "gpt-4o"),
        (2, "gpt-4o"),
        (2, "gpt-5"),
        (2, "sonnet-4"),
        (3, "sonnet-4"),
        (4, "sonnet-4"),
        (5, "gemini-2.5-pro"),
    ]
}

/// The node names an entry of its table.
pub open spec fn valid_key(k: NodeKey) -> bool {
    match k {
        NodeKey::Group(i) => i < group_table().len(),
        NodeKey::Mapping(i) => i < alias_table().len(),
        NodeKey::Dispatch(i) => i < dispatch_table().len(),
    }
}

/// The colour of a node: its table's colour, a fixed grey for dispatch models.
pub open spec fn color_of(k: NodeKey) -> Seq<char> {
    match k {
        NodeKey::Group(i) => group_table()[i as int].1,
        NodeKey::Mapping(i) => alias_table()[i as int].1,
        NodeKey::Dispatch(_) => "#3f3f46"@,
    }
}

/// The title of a node: its table's name.
pub open spec fn title_of(k: NodeKey) -> Seq<char> {
    match k {
        NodeKey::Group(i) => group_table()[i as int].0,
        NodeKey::Mapping(i) => alias_table()[i as int].0,
        NodeKey::Dispatch(i) => dispatch_table()[i as int].1,
    }
}

/// The subtitle of a node: the channel of a dispatch model, empty otherwise.
pub open spec fn subtitle_of(k: NodeKey) -> Seq<char> {
    match k {
        NodeKey::Dispatch(i) => channel_table()[dispatch_table()[i as int].0 as int],
        _ => Seq::empty(),
    }
}

/// Colour of a node.
pub fn color(key: NodeKey) -> (r: &'static str)
    requires
        valid_key(key),
    ensures
        r@ == color_of(key),
{
    match key {
        NodeKey::Group(i) => groups()[i].1,
        NodeKey::Mapping(i) => aliases()[i].1,
        NodeKey::Dispatch(_) => "#3f3f46",
    }
}

/// Title of a node.
pub fn node_title(key: NodeKey) -> (r: String)
    requires
        valid_key(key),
    ensures
        r@ == title_of(key),
{
    match key {
        NodeKey::Group(i) => groups()[i].0.to_owned(),
        NodeKey::Mapping(i) => aliases()[i].0.to_owned(),
        NodeKey::Dispatch(i) => dispatches()[i].1.to_owned(),
    }
}

/// Subtitle of a node.
pub fn subtitle(key: NodeKey) -> (r: String)
    requires
        valid_key(key),
    ensures
        r@ == subtitle_of(key),
{
    match key {
        NodeKey::Dispatch(i) => {
            let c = dispatches()[i].0;
            assert(c == dispatch_table()[i as int].0);
            assert(c < 6) by {
                assert(dispatch_table()[i as int].0 < 6);
            }
            channels()[c].to_owned()
        },
        _ => String::new(),
    }
}

/// Every node of each layer, in table order.
pub open spec fn layer_nodes(l: int) -> Seq<NodeKey> {
    if l == 0 {
        Seq::new(group_table().len(), |i: int| NodeKey::Group(i as usize))
    } else if l == 1 {
        Seq::new(alias_table().len(), |i: int| NodeKey::Mapping(i as usize))
    } else {
        Seq::new(dispatch_table().len(), |i: int| NodeKey::Dispatch(i as usize))
    }
}

/// The visible nodes of the three layers.
pub fn visible_layers() -> (r: [Vec<NodeKey>; 3])
    ensures
        forall|l: int| 0 <= l < 3 ==> #[trigger] r[l]@ == layer_nodes(l),
{
    let mut g: Vec<NodeKey> = Vec::new();
    let mut i: usize = 0;
    while i < groups().len()
        invariant
            i <= 4,
            g@ == Seq::new(i as nat, |j: int| NodeKey::Group(j as usize)),
        decreases 4 - i,
    {
        g.push(NodeKey::Group(i));
        i = i + 1;
        assert(g@ =~= Seq::new(i as nat, |j: int| NodeKey::Group(j as usize)));
    }
    let mut m: Vec<NodeKey> = Vec::new();
    let mut i: usize = 0;
    while i < aliases().len()
        invariant
            i <= 4,
            m@ == Seq::new(i as nat, |j: int| NodeKey::Mapping(j as usize)),
        decreases 4 - i,
    {
        m.push(NodeKey::Mapping(i));
        i = i + 1;
        assert(m@ =~= Seq::new(i as nat, |j: int| NodeKey::Mapping(j as usize)));
    }
    let mut d: Vec<NodeKey> = Vec::new();
    let mut i: usize = 0;
    while i < dispatches().len()
        invariant
            i <= 9,
            d@ == Seq::new(i as nat, |j: int| NodeKey::Dispatch(j as usize)),
        decreases 9 - i,
    {
        d.push(NodeKey::Dispatch(i));
        i = i + 1;
        assert(d@ =~= Seq::new(i as nat, |j: int| NodeKey::Dispatch(j as usize)));
    }
    let r = [g, m, d];
    assert(r[0]@ == layer_nodes(0));
    assert(r[1]@ == layer_nodes(1));
    assert(r[2]@ == layer_nodes(2));
    r
}

/// A wire between `a` and `b`, stored upper end first; `None` unless the two
/// nodes sit on adjacent layers.
pub open spec fn normalized(a: NodeKey, b: NodeKey) -> Option<(NodeKey, NodeKey)> {
    let la = layer_of(a);
    let lb = layer_of(b);
    if a == b || (la - lb != 1 && lb - la != 1) {
        None
    } else if la < lb {
        Some((a, b))
    } else {
        Some((b, a))
    }
}

/// The wire that joins `a` and `b`, if they may be joined.
pub fn normalize(a: NodeKey, b: NodeKey) -> (r: Option<(NodeKey, NodeKey)>)
    ensures
        r == normalized(a, b),
{
    let la = a.layer() as i16;
    let lb = b.layer() as i16;
    let d = la - lb;
    if a == b || (d != 1 && d != -1) {
        return None;
    }
    Some(
        if la < lb {
            (a, b)
        } else {
            (b, a)
        },
    )
}

/// Joining is symmetric, and a wire joins the two nodes it was asked for,
/// upper layer first, one layer apart; a stored wire normalizes to itself.
pub proof fn law_normalize(a: NodeKey, b: NodeKey)
    ensures
        normalized(a, b) == normalized(b, a),
        normalized(a, b) matches Some(w) ==> {
            &&& layer_of(w.1) == layer_of(w.0) + 1
            &&& ((w.0 == a && w.1 == b) || (w.0 == b && w.1 == a))
            &&& normalized(w.0, w.1) == Some(w)
        },
{
}

/// A stored wire: upper node first, lower node one layer below.
pub open spec fn is_wire(w: (NodeKey, NodeKey)) -> bool {
    normalized(w.0, w.1) == Some(w)
}

/// The seed wires: alias–group and dispatch–alias.
pub open spec fn seed_wires() -> Seq<(NodeKey, NodeKey)> {
    seq![
        (NodeKey::Group(0), NodeKey::Mapping(0)),
        (NodeKey::Group(0), NodeKey::Mapping(3)),
        (NodeKey::Group(1), NodeKey::Mapping(2)),
        (NodeKey::Group(2), NodeKey::Mapping(1)),
        (NodeKey::Group(3), NodeKey::Mapping(0)),
        (NodeKey::Group(3), NodeKey::Mapping(1)),
        (NodeKey::Group(3), NodeKey::Mapping(2)),
        (NodeKey::Group(3), NodeKey::Mapping(3)),
        (NodeKey::Mapping(0), NodeKey::Dispatch(0)),
        (NodeKey::Mapping(0), NodeKey::Dispatch(2)),
        (NodeKey::Mapping(0), NodeKey::Dispatch(3)),
        (NodeKey::Mapping(1), NodeKey::Dispatch(1)),
        (NodeKey::Mapping(1), NodeKey::Dispatch(4)),
        (NodeKey::Mapping(2), NodeKey::Dispatch(5)),
        (NodeKey::Mapping(2), NodeKey::Dispatch(6)),
        (NodeKey::Mapping(2), NodeKey::Dispatch(7)),
        (NodeKey::Mapping(3), NodeKey::Dispatch(8)),
    ]
}

/// The wires of the editor: a set of distinct stored wires, kept in a list.
pub struct EdgeSet {
    edges: Vec<(NodeKey, NodeKey)>,
}

/// The sequence has no element twice.
pub open spec fn distinct<T>(s: Seq<T>) -> bool {
    forall|i: int, j: int| 0 <= i < j < s.len() ==> s[i] != s[j]
}

proof fn lemma_distinct_no_duplicates<T>(s: Seq<T>)
    requires
        distinct(s),
    ensures
        s.no_duplicates(),
{
    assert forall|i: int, j: int| 0 <= i < s.len() && 0 <= j < s.len() && i != j implies s[i]
        != s[j] by {
        if i < j {
        } else {
        }
    }
}

impl EdgeSet {
    /// The wires as a set.
    pub closed spec fn view(&self) -> Set<(NodeKey, NodeKey)> {
        self.edges@.to_set()
    }

    /// The wires in storage order.
    pub closed spec fn list(&self) -> Seq<(NodeKey, NodeKey)> {
        self.edges@
    }

    /// Every wire is stored once, upper end first, between adjacent layers.
    pub closed spec fn wf(&self) -> bool {
        &&& distinct(self.edges@)
        &&& forall|i: int| 0 <= i < self.edges@.len() ==> #[trigger] is_wire(self.edges@[i])
    }

    /// The list holds exactly the set, each wire once.
    pub proof fn lemma_list(&self)
        requires
            self.wf(),
        ensures
            distinct(self.list()),
            self.list().to_set() == self.view(),
            forall|i: int| 0 <= i < self.list().len() ==> #[trigger] is_wire(self.list()[i]),
            forall|w| #[trigger] self.view().contains(w) ==> is_wire(w),
    {
        assert forall|w| #[trigger] self.view().contains(w) implies is_wire(w) by {
            let i = choose|i: int| 0 <= i < self.edges@.len() && self.edges@[i] == w;
            assert(is_wire(self.edges@[i]));
        }
    }

    /// No wires.
    pub fn new() -> (s: Self)
        ensures
            s.wf(),
            s.view() == Set::<(NodeKey, NodeKey)>::empty(),
    {
        let s = EdgeSet { edges: Vec::new() };
        assert(s.edges@.to_set() =~= Set::<(NodeKey, NodeKey)>::empty());
        s
    }

    /// Whether the wire is present.
    pub fn contains(&self, w: (NodeKey, NodeKey)) -> (r: bool)
        ensures
            r == self.view().contains(w),
    {
        let mut i: usize = 0;
        while i < self.edges.len()
            invariant
                i <= self.edges@.len(),
                forall|j: int| 0 <= j < i ==> self.edges@[j] != w,
            decreases self.edges.len() - i,
        {
            let e = self.edges[i];
            if e.0 == w.0 && e.1 == w.1 {
                assert(self.edges@.contains(w));
                return true;
            }
            i = i + 1;
        }
        assert(!self.edges@.contains(w));
        false
    }

    /// Adds a wire (no change when it is already there).
    pub fn insert(&mut self, w: (NodeKey, NodeKey))
        requires
            old(self).wf(),
            is_wire(w),
        ensures
            final(self).wf(),
            final(self).view() == old(self).view().insert(w),
    {
        if !self.contains(w) {
            self.edges.push(w);
            assert(self.edges@.to_set() =~= old(self).edges@.to_set().insert(w)) by {
                assert forall|x| #[trigger] self.edges@.contains(x) <==> (old(
                    self,
                ).edges@.contains(x) || x == w) by {
                    if self.edges@.contains(x) {
                        let j = choose|j: int| 0 <= j < self.edges@.len() && self.edges@[j] == x;
                        if j < old(self).edges@.len() {
                            assert(old(self).edges@[j] == x);
                        }
                    }
                    if old(self).edges@.contains(x) {
                        let j = choose|j: int|
                            0 <= j < old(self).edges@.len() && old(self).edges@[j] == x;
                        assert(self.edges@[j] == x);
                    }
                    if x == w {
                        assert(self.edges@[self.edges@.len() - 1] == w);
                    }
                }
            }
        } else {
            assert(old(self).edges@.to_set().insert(w) =~= old(self).edges@.to_set());
        }
    }

    /// Removes a wire (no change when it is absent).
    pub fn remove(&mut self, w: (NodeKey, NodeKey))
        requires
            old(self).wf(),
        ensures
            final(self).wf(),
            final(self).view() == old(self).view().remove(w),
    {
        let ghost before = self.edges@;
        let mut kept: Vec<(NodeKey, NodeKey)> = Vec::new();
        let mut i: usize = 0;
        assert(before.take(0).to_set() =~= Set::<(NodeKey, NodeKey)>::empty());
        assert(kept@.to_set() =~= Set::<(NodeKey, NodeKey)>::empty());
        while i < self.edges.len()
            invariant
                i <= self.edges@.len(),
                self.edges@ == before,
                distinct(before),
                forall|j: int| 0 <= j < before.len() ==> #[trigger] is_wire(before[j]),
                distinct(kept@),
                forall|j: int| 0 <= j < kept@.len() ==> #[trigger] is_wire(kept@[j]),
                forall|j: int|
                    0 <= j < kept@.len() ==> #[trigger] before.take(i as int).contains(kept@[j]),
                kept@.to_set() == before.take(i as int).to_set().remove(w),
            decreases self.edges.len() - i,
        {
            let e = self.edges[i];
            let ghost k0 = kept@;
            assert(before.take(i + 1) =~= before.take(i as int).push(e));
            proof {
                before.take(i as int).lemma_push_to_set_commute(e);
                assert(!before.take(i as int).contains(e)) by {
                    if before.take(i as int).contains(e) {
                        let j = choose|j: int| 0 <= j < i && #[trigger] before.take(i as int)[j] == e;
                        assert(before[j] == before[i as int]);
                    }
                }
            }
            if !(e.0 == w.0 && e.1 == w.1) {
                kept.push(e);
                proof {
                    k0.lemma_push_to_set_commute(e);
                    assert(kept@.to_set() =~= before.take(i + 1).to_set().remove(w));
                    assert forall|a: int, b: int| 0 <= a < b < kept@.len() implies kept@[a]
                        != kept@[b] by {
                        if b == k0.len() {
                            assert(before.take(i as int).contains(kept@[a]));
                        }
                    }
                    assert forall|j: int| 0 <= j < kept@.len() implies #[trigger] before.take(
                        i + 1,
                    ).contains(kept@[j]) by {
                        if j < k0.len() {
                            assert(before.take(i as int).contains(k0[j]));
                            let t = choose|t: int|
                                0 <= t < i && #[trigger] before.take(i as int)[t] == k0[j];
                            assert(before.take(i + 1)[t] == k0[j]);
                        } else {
                            assert(before.take(i + 1)[i as int] == e);
                        }
                    }
                }
            } else {
                proof {
                    assert(kept@.to_set() =~= before.take(i + 1).to_set().remove(w));
                    assert forall|j: int| 0 <= j < kept@.len() implies #[trigger] before.take(
                        i + 1,
                    ).contains(kept@[j]) by {
                        assert(before.take(i as int).contains(k0[j]));
                        let t = choose|t: int|
                            0 <= t < i && #[trigger] before.take(i as int)[t] == k0[j];
                        assert(before.take(i + 1)[t] == k0[j]);
                    }
                }
            }
            i = i + 1;
        }
        assert(before.take(before.len() as int) =~= before);
        self.edges = kept;
    }

    /// The seed wires.
    pub fn seeded() -> (s: Self)
        ensures
            s.wf(),
            s.view() == seed_wires().to_set(),
    {
        let mut s = EdgeSet::new();
        let seeds: [(NodeKey, NodeKey); 17] = [
            (NodeKey::Group(0), NodeKey::Mapping(0)),
            (NodeKey::Group(0), NodeKey::Mapping(3)),
            (NodeKey::Group(1), NodeKey::Mapping(2)),
            (NodeKey::Group(2), NodeKey::Mapping(1)),
            (NodeKey::Group(3), NodeKey::Mapping(0)),
            (NodeKey::Group(3), NodeKey::Mapping(1)),
            (NodeKey::Group(3), NodeKey::Mapping(2)),
            (NodeKey::Group(3), NodeKey::Mapping(3)),
            (NodeKey::Mapping(0), NodeKey::Dispatch(0)),
            (NodeKey::Mapping(0), NodeKey::Dispatch(2)),
            (NodeKey::Mapping(0), NodeKey::Dispatch(3)),
            (NodeKey::Mapping(1), NodeKey::Dispatch(1)),
            (NodeKey::Mapping(1), NodeKey::Dispatch(4)),
            (NodeKey::Mapping(2), NodeKey::Dispatch(5)),
            (NodeKey::Mapping(2), NodeKey::Dispatch(6)),
            (NodeKey::Mapping(2), NodeKey::Dispatch(7)),
            (NodeKey::Mapping(3), NodeKey::Dispatch(8)),
        ];
        assert(seeds@ == seed_wires());
        let mut i: usize = 0;
        while i < 17
            invariant
                i <= 17,
                seeds@ == seed_wires(),
                s.wf(),
                s.view() == seed_wires().take(i as int).to_set(),
            decreases 17 - i,
        {
            let w = seeds[i];
            assert(is_wire(w));
            s.insert(w);
            assert(seed_wires().take(i + 1) =~= seed_wires().take(i as int).push(w));
            proof {
                seed_wires().take(i as int).lemma_push_to_set_commute(w);
            }
            i = i + 1;
        }
        assert(seed_wires().take(17) =~= seed_wires());
        s
    }

    /// The wires as a list, each once.
    pub fn to_vec(&self) -> (r: Vec<(NodeKey, NodeKey)>)
        requires
            self.wf(),
        ensures
            r@ == self.list(),
            distinct(r@),
            r@.to_set() == self.view(),
    {
        let mut r: Vec<(NodeKey, NodeKey)> = Vec::new();
        let mut i: usize = 0;
        while i < self.edges.len()
            invariant
                i <= self.edges@.len(),
                r@ == self.edges@.take(i as int),
            decreases self.edges.len() - i,
        {
            r.push(self.edges[i]);
            i = i + 1;
            assert(r@ =~= self.edges@.take(i as int));
        }
        assert(r@ =~= self.edges@);
        r
    }
}

/// How many layers `k` lies from the layer of `start`.
pub open spec fn layer_dist(start: NodeKey, k: NodeKey) -> int {
    let d = layer_of(k) - layer_of(start);
    if d < 0 {
        -d
    } else {
        d
    }
}

/// Wire `j` of `edges` leads from `n` to `m`, moving away from the layer of
/// `start`.
pub open spec fn step_via(
    start: NodeKey,
    edges: Seq<(NodeKey, NodeKey)>,
    j: int,
    n: NodeKey,
    m: NodeKey,
) -> bool {
    &&& 0 <= j < edges.len()
    &&& ((edges[j].0 == n && edges[j].1 == m) || (edges[j].1 == n && edges[j].0 == m))
    &&& layer_dist(start, m) > layer_dist(start, n)
}

/// Some wire leads from `n` to `m`, moving away from the layer of `start`.
pub open spec fn outward_step(
    start: NodeKey,
    edges: Seq<(NodeKey, NodeKey)>,
    n: NodeKey,
    m: NodeKey,
) -> bool {
    exists|j: int| step_via(start, edges, j, n, m)
}

/// The focus cone of `start`: the nodes reached from it by outward steps.
/// Every step moves at least one layer further and there are three layers,
/// so no path has more than two steps.
pub open spec fn in_cone(start: NodeKey, edges: Seq<(NodeKey, NodeKey)>, m: NodeKey) -> bool {
    ||| m == start
    ||| outward_step(start, edges, start, m)
    ||| exists|n: NodeKey|
        outward_step(start, edges, start, n) && #[trigger] outward_step(start, edges, n, m)
}

proof fn lemma_cone_closed(
    start: NodeKey,
    edges: Seq<(NodeKey, NodeKey)>,
    n: NodeKey,
    m: NodeKey,
    j: int,
)
    requires
        in_cone(start, edges, n),
        step_via(start, edges, j, n, m),
    ensures
        in_cone(start, edges, m),
{
    assert(outward_step(start, edges, n, m));
    if n == start {
    } else if outward_step(start, edges, start, n) {
    } else {
        let p = choose|p: NodeKey|
            outward_step(start, edges, start, p) && #[trigger] outward_step(start, edges, p, n);
        let j1 = choose|j1: int| step_via(start, edges, j1, start, p);
        let j2 = choose|j2: int| step_via(start, edges, j2, p, n);
        assert(layer_dist(start, n) >= 2);
        assert(layer_dist(start, m) <= 2);
    }
}

proof fn lemma_len_bounded(seen: Seq<NodeKey>, pool: Seq<NodeKey>)
    requires
        distinct(seen),
        forall|i: int| 0 <= i < seen.len() ==> pool.contains(#[trigger] seen[i]),
    ensures
        seen.len() <= pool.len(),
{
    lemma_distinct_no_duplicates(seen);
    seen.unique_seq_to_set();
    pool.lemma_cardinality_of_set();
    assert(seen.to_set().subset_of(pool.to_set())) by {
        assert forall|x| seen.to_set().contains(x) implies pool.to_set().contains(x) by {
            let i = choose|i: int| 0 <= i < seen.len() && seen[i] == x;
            assert(pool.contains(seen[i]));
        }
    }
    vstd::seq_lib::seq_to_set_is_finite(pool);
    vstd::set_lib::lemma_len_subset(seen.to_set(), pool.to_set());
}

/// `start` and both ends of every wire.
pub open spec fn endpoint_pool(start: NodeKey, edges: Seq<(NodeKey, NodeKey)>) -> Seq<NodeKey> {
    seq![start] + edges.map_values(|e: (NodeKey, NodeKey)| e.0) + edges.map_values(
        |e: (NodeKey, NodeKey)| e.1,
    )
}

fn layer_dist_exec(start_layer: u8, k: NodeKey) -> (d: u8)
    requires
        start_layer <= 2,
    ensures
        d as int == {
            let x = layer_of(k) - start_layer;
            if x < 0 {
                -x
            } else {
                x
            }
        },
{
    let l = k.layer();
    if l >= start_layer {
        l - start_layer
    } else {
        start_layer - l
    }
}

/// The focus cone of `start` over the wires `edges`, `start` first, each node
/// once, in breadth-first order.
pub fn focus_cone(start: NodeKey, edges: &Vec<(NodeKey, NodeKey)>) -> (r: Vec<NodeKey>)
    ensures
        r@.len() > 0,
        r@[0] == start,
        distinct(r@),
        forall|m: NodeKey| r@.contains(m) <==> in_cone(start, edges@, m),
{
    let sl = start.layer();
    let ghost es = edges@;
    let ghost pool = endpoint_pool(start, es);
    let mut seen: Vec<NodeKey> = Vec::new();
    seen.push(start);
    let mut head: usize = 0;
    assert(pool[0] == start);
    while head < seen.len()
        invariant
            sl as int == layer_of(start),
            es == edges@,
            pool == endpoint_pool(start, es),
            pool.len() == 1 + 2 * es.len(),
            head <= seen@.len() <= pool.len(),
            seen@.len() > 0,
            seen@[0] == start,
            distinct(seen@),
            forall|i: int| 0 <= i < seen@.len() ==> #[trigger] in_cone(start, es, seen@[i]),
            forall|i: int| 0 <= i < seen@.len() ==> pool.contains(#[trigger] seen@[i]),
            forall|p: int, j: int, m: NodeKey|
                #![trigger step_via(start, es, j, seen@[p], m)]
                0 <= p < head && step_via(start, es, j, seen@[p], m) ==> seen@.contains(m),
        decreases pool.len() - head,
    {
        let n = seen[head];
        let dn = layer_dist_exec(sl, n);
        let mut k: usize = 0;
        while k < edges.len()
            invariant
                sl as int == layer_of(start),
                es == edges@,
                pool == endpoint_pool(start, es),
                pool.len() == 1 + 2 * es.len(),
                head < seen@.len() <= pool.len(),
                n == seen@[head as int],
                dn as int == layer_dist(start, n),
                k <= es.len(),
                seen@[0] == start,
                distinct(seen@),
                forall|i: int| 0 <= i < seen@.len() ==> #[trigger] in_cone(start, es, seen@[i]),
                forall|i: int| 0 <= i < seen@.len() ==> pool.contains(#[trigger] seen@[i]),
                forall|p: int, j: int, m: NodeKey|
                    #![trigger step_via(start, es, j, seen@[p], m)]
                    0 <= p < head && step_via(start, es, j, seen@[p], m) ==> seen@.contains(m),
                forall|j: int, m: NodeKey|
                    #![trigger step_via(start, es, j, n, m)]
                    0 <= j < k && step_via(start, es, j, n, m) ==> seen@.contains(m),
            decreases es.len() - k,
        {
            let e = edges[k];
            let next: Option<NodeKey> = if e.0 == n && layer_dist_exec(sl, e.1) > dn {
                Some(e.1)
            } else if e.1 == n && layer_dist_exec(sl, e.0) > dn {
                Some(e.0)
            } else {
                None
            };
            let ghost s0 = seen@;
            if let Some(m) = next {
                assert(step_via(start, es, k as int, n, m));
                let mut found = false;
                let mut t: usize = 0;
                while t < seen.len()
                    invariant
                        t <= seen@.len(),
                        seen@ == s0,
                        !found ==> forall|x: int| 0 <= x < t ==> seen@[x] != m,
                        found ==> seen@.contains(m),
                    decreases seen.len() - t,
                {
                    if seen[t] == m {
                        found = true;
                    }
                    t = t + 1;
                }
                if !found {
                    proof {
                        lemma_cone_closed(start, es, n, m, k as int);
                        assert(pool.contains(m)) by {
                            if e.0 == n && e.1 == m {
                                assert(pool[1 + es.len() + k] == m);
                            } else {
                                assert(pool[1 + k] == m);
                            }
                        }
                    }
                    seen.push(m);
                    proof {
                        assert forall|i: int| 0 <= i < seen@.len() implies #[trigger] in_cone(
                            start,
                            es,
                            seen@[i],
                        ) by {
                            if i < s0.len() {
                                assert(in_cone(start, es, s0[i]));
                            }
                        }
                        assert forall|i: int| 0 <= i < seen@.len() implies pool.contains(
                            #[trigger] seen@[i],
                        ) by {
                            if i < s0.len() {
                                assert(pool.contains(s0[i]));
                            }
                        }
                        assert forall|a: int, b: int| 0 <= a < b < seen@.len() implies seen@[a]
                            != seen@[b] by {
                            if b == s0.len() {
                                assert(s0[a] != m);
                            }
                        }
                        lemma_len_bounded(seen@, pool);
                        assert forall|x: NodeKey| s0.contains(x) implies seen@.contains(x) by {
                            let i = choose|i: int| 0 <= i < s0.len() && s0[i] == x;
                            assert(seen@[i] == x);
                        }
                        assert(seen@[s0.len() as int] == m);
                    }
                }
            }
            proof {
                assert forall|j: int, m2: NodeKey|
                    #![trigger step_via(start, es, j, n, m2)]
                    0 <= j < k + 1 && step_via(start, es, j, n, m2) implies seen@.contains(m2) by {
                    if j < k {
                        assert(s0.contains(m2));
                    } else {
                        assert(next == Some(m2));
                    }
                }
                assert forall|p: int, j: int, m2: NodeKey|
                    #![trigger step_via(start, es, j, seen@[p], m2)]
                    0 <= p < head && step_via(start, es, j, seen@[p], m2) implies seen@.contains(
                        m2,
                    ) by {
                    assert(seen@[p] == s0[p]);
                    assert(s0.contains(m2));
                }
            }
            k = k + 1;
        }
        head = head + 1;
    }
    proof {
        assert forall|m: NodeKey| in_cone(start, es, m) implies seen@.contains(m) by {
            if m == start {
                assert(seen@[0] == m);
            } else if outward_step(start, es, start, m) {
                let j = choose|j: int| step_via(start, es, j, start, m);
                assert(step_via(start, es, j, seen@[0], m));
            } else {
                let n2 = choose|n2: NodeKey|
                    outward_step(start, es, start, n2) && #[trigger] outward_step(start, es, n2, m);
                let j1 = choose|j1: int| step_via(start, es, j1, start, n2);
                assert(step_via(start, es, j1, seen@[0], n2));
                assert(seen@.contains(n2));
                let p = choose|p: int| 0 <= p < seen@.len() && seen@[p] == n2;
                let j2 = choose|j2: int| step_via(start, es, j2, n2, m);
                assert(step_via(start, es, j2, seen@[p], m));
            }
        }
        assert forall|m: NodeKey| seen@.contains(m) implies in_cone(start, es, m) by {
            let i = choose|i: int| 0 <= i < seen@.len() && seen@[i] == m;
            assert(in_cone(start, es, seen@[i]));
        }
    }
    seen
}

/// Focusing an alias keeps exactly the alias, the groups wired to it and the
/// dispatch models wired to it: the cone never spreads through a group to
/// the rest of the graph.
pub proof fn law_alias_cone(i: usize, edges: Seq<(NodeKey, NodeKey)>, m: NodeKey)
    requires
        forall|j: int| 0 <= j < edges.len() ==> #[trigger] is_wire(edges[j]),
    ensures
        in_cone(NodeKey::Mapping(i), edges, m) <==> (m == NodeKey::Mapping(i) || exists|j: int|
            0 <= j < edges.len() && (#[trigger] edges[j] == (NodeKey::Mapping(i), m) || edges[j]
                == (m, NodeKey::Mapping(i)))),
{
    let start = NodeKey::Mapping(i);
    if in_cone(start, edges, m) && m != start {
        if outward_step(start, edges, start, m) {
            let j = choose|j: int| step_via(start, edges, j, start, m);
            assert(edges[j] == (start, m) || edges[j] == (m, start));
        } else {
            let n = choose|n: NodeKey|
                outward_step(start, edges, start, n) && #[trigger] outward_step(start, edges, n, m);
            let j1 = choose|j1: int| step_via(start, edges, j1, start, n);
            let j2 = choose|j2: int| step_via(start, edges, j2, n, m);
            assert(layer_dist(start, n) >= 1);
            assert(layer_dist(start, m) >= 2);
        }
    }
    if m != start && exists|j: int|
        0 <= j < edges.len() && (#[trigger] edges[j] == (start, m) || edges[j] == (m, start)) {
        let j = choose|j: int|
            0 <= j < edges.len() && (#[trigger] edges[j] == (start, m) || edges[j] == (m, start));
        assert(is_wire(edges[j]));
        assert(step_via(start, edges, j, start, m));
    }
}

/// The wires a drop of a wire dragged from `src` onto `target` adds: from
/// every selected node of `src`'s layer when `src` is part of a selection of
/// two or more nodes, from `src` alone otherwise; a source that cannot be
/// joined to `target` adds nothing.
pub open spec fn dropped_wires(sel: Seq<NodeKey>, src: NodeKey, target: NodeKey) -> Set<
    (NodeKey, NodeKey),
> {
    let multi = sel.len() > 1 && sel.contains(src);
    Set::new(
        |w: (NodeKey, NodeKey)|
            exists|s: NodeKey|
                #![trigger normalized(s, target)]
                (if multi {
                    sel.contains(s) && layer_of(s) == layer_of(src)
                } else {
                    s == src
                }) && normalized(s, target) == Some(w),
    )
}

fn vec_contains(v: &Vec<NodeKey>, k: NodeKey) -> (r: bool)
    ensures
        r == v@.contains(k),
{
    let mut i: usize = 0;
    while i < v.len()
        invariant
            i <= v@.len(),
            forall|j: int| 0 <= j < i ==> v@[j] != k,
        decreases v.len() - i,
    {
        if v[i] == k {
            assert(v@[i as int] == k);
            return true;
        }
        i = i + 1;
    }
    false
}

impl EdgeSet {
    /// Drops a wire dragged from `src` onto `target`: adds the wires of
    /// `dropped_wires`; dropping a node onto itself changes nothing.
    pub fn wire_drop(&mut self, selection: &Vec<NodeKey>, src: NodeKey, target: NodeKey)
        requires
            old(self).wf(),
            distinct(selection@),
        ensures
            final(self).wf(),
            final(self).view() == (if src == target {
                old(self).view()
            } else {
                old(self).view().union(dropped_wires(selection@, src, target))
            }),
    {
        if src == target {
            return;
        }
        let multi = selection.len() > 1 && vec_contains(selection, src);
        let ghost sel = selection@;
        let ghost start = self.view();
        let ghost all = dropped_wires(sel, src, target);
        if !multi {
            match normalize(src, target) {
                Some(w) => {
                    self.insert(w);
                    assert(self.view() =~= start.union(all)) by {
                        assert forall|x| all.contains(x) implies x == w by {
                            let s0 = choose|s0: NodeKey|
                                #![trigger normalized(s0, target)]
                                s0 == src && normalized(s0, target) == Some(x);
                        }
                        assert(normalized(src, target) == Some(w));
                        assert(all.contains(w));
                    }
                },
                None => {
                    assert(self.view() =~= start.union(all)) by {
                        assert forall|x| !all.contains(x) by {
                            if all.contains(x) {
                                let s0 = choose|s0: NodeKey|
                                    #![trigger normalized(s0, target)]
                                    s0 == src && normalized(s0, target) == Some(x);
                            }
                        }
                    }
                },
            }
            return;
        }
        let sl = src.layer();
        let mut i: usize = 0;
        while i < selection.len()
            invariant
                sel == selection@,
                sl as int == layer_of(src),
                multi == (sel.len() > 1 && sel.contains(src)),
                multi,
                i <= sel.len(),
                self.wf(),
                all == dropped_wires(sel, src, target),
                self.view() == start.union(
                    Set::new(
                        |w: (NodeKey, NodeKey)|
                            exists|j: int|
                                #![trigger sel[j]]
                                0 <= j < i && layer_of(sel[j]) == layer_of(src) && normalized(
                                    sel[j],
                                    target,
                                ) == Some(w),
                    ),
                ),
            decreases sel.len() - i,
        {
            let s = selection[i];
            let ghost before = self.view();
            if s.layer() == sl {
                match normalize(s, target) {
                    Some(w) => {
                        self.insert(w);
                    },
                    None => {},
                }
            }
            i = i + 1;
            assert(self.view() =~= start.union(
                Set::new(
                    |w: (NodeKey, NodeKey)|
                        exists|j: int|
                            #![trigger sel[j]]
                            0 <= j < i && layer_of(sel[j]) == layer_of(src) && normalized(
                                sel[j],
                                target,
                            ) == Some(w),
                ),
            )) by {
                assert forall|x|
                    self.view().contains(x) <==> start.union(
                        Set::new(
                            |w: (NodeKey, NodeKey)|
                                exists|j: int|
                                    #![trigger sel[j]]
                                    0 <= j < i && layer_of(sel[j]) == layer_of(src)
                                        && normalized(sel[j], target) == Some(w),
                        ),
                    ).contains(x) by {
                    if exists|j: int|
                        #![trigger sel[j]]
                        0 <= j < i && layer_of(sel[j]) == layer_of(src) && normalized(sel[j], target)
                            == Some(x) {
                        let j = choose|j: int|
                            #![trigger sel[j]]
                            0 <= j < i && layer_of(sel[j]) == layer_of(src) && normalized(
                                sel[j],
                                target,
                            ) == Some(x);
                        if j < i - 1 {
                        } else {
                            assert(sel[j] == s);
                        }
                    }
                    if self.view().contains(x) && !before.contains(x) {
                        assert(sel[i - 1] == s);
                    }
                }
            }
        }
        assert(self.view() =~= start.union(all)) by {
            assert forall|x| all.contains(x) implies self.view().contains(x) by {
                let s0 = choose|s0: NodeKey|
                    #![trigger normalized(s0, target)]
                    (sel.contains(s0) && layer_of(s0) == layer_of(src)) && normalized(s0, target)
                        == Some(x);
                let j = choose|j: int| 0 <= j < sel.len() && sel[j] == s0;
                assert(layer_of(sel[j]) == layer_of(src) && normalized(sel[j], target) == Some(x));
            }
            assert forall|x| self.view().contains(x) && !start.contains(x) implies all.contains(x) by {
                let j = choose|j: int|
                    #![trigger sel[j]]
                    0 <= j < i && layer_of(sel[j]) == layer_of(src) && normalized(sel[j], target)
                        == Some(x);
                assert(sel.contains(sel[j]));
                assert(normalized(sel[j], target) == Some(x));
            }
        }
    }
}

/// `s` with `k` added when absent and removed when present.
pub open spec fn toggled(s: Set<NodeKey>, k: NodeKey) -> Set<NodeKey> {
    if s.contains(k) {
        s.remove(k)
    } else {
        s.insert(k)
    }
}

/// Toggling a node twice leaves the selection as it was.
pub proof fn law_toggle_twice(s: Set<NodeKey>, k: NodeKey)
    ensures
        toggled(toggled(s, k), k) == s,
{
    assert(toggled(toggled(s, k), k) =~= s);
}

/// Ctrl-click: toggles `key` in the selection.
pub fn toggle_selected(selection: &mut Vec<NodeKey>, key: NodeKey)
    requires
        distinct(old(selection)@),
    ensures
        distinct(final(selection)@),
        final(selection)@.to_set() == toggled(old(selection)@.to_set(), key),
{
    let ghost before = selection@;
    let mut i: usize = 0;
    while i < selection.len()
        invariant
            selection@ == before,
            before == old(selection)@,
            distinct(before),
            i <= before.len(),
            forall|j: int| 0 <= j < i ==> before[j] != key,
        decreases selection.len() - i,
    {
        if selection[i] == key {
            selection.remove(i);
            proof {
                assert(before.contains(key));
                assert forall|x| #[trigger] selection@.contains(x) <==> (before.contains(x) && x
                    != key) by {
                    if selection@.contains(x) {
                        let j = choose|j: int| 0 <= j < selection@.len() && selection@[j] == x;
                        if j < i {
                            assert(before[j] == x);
                        } else {
                            assert(before[j + 1] == x);
                            assert(before[j + 1] != before[i as int]);
                        }
                    }
                    if before.contains(x) && x != key {
                        let j = choose|j: int| 0 <= j < before.len() && before[j] == x;
                        if j < i {
                            assert(selection@[j] == x);
                        } else {
                            assert(j != i);
                            assert(selection@[j - 1] == x);
                        }
                    }
                }
                assert(selection@.to_set() =~= before.to_set().remove(key));
                assert(before.to_set().contains(key));
                assert forall|a: int, b: int| 0 <= a < b < selection@.len() implies selection@[a]
                    != selection@[b] by {
                    let a2 = if a < i {
                        a
                    } else {
                        a + 1
                    };
                    let b2 = if b < i {
                        b
                    } else {
                        b + 1
                    };
                    assert(selection@[a] == before[a2]);
                    assert(selection@[b] == before[b2]);
                }
            }
            return;
        }
        i = i + 1;
    }
    selection.push(key);
    proof {
        assert(!before.contains(key));
        before.lemma_push_to_set_commute(key);
    }
}

/// A plain click: the selection becomes just `key`.
pub fn select_only(selection: &mut Vec<NodeKey>, key: NodeKey)
    ensures
        distinct(final(selection)@),
        final(selection)@.to_set() == set![key],
{
    selection.clear();
    selection.push(key);
    assert(selection@.to_set() =~= set![key]) by {
        assert(selection@ == seq![key]);
        seq![key].lemma_push_to_set_commute(key);
        assert(Seq::<NodeKey>::empty().push(key) =~= seq![key]);
        Seq::<NodeKey>::empty().lemma_push_to_set_commute(key);
        assert(Seq::<NodeKey>::empty().to_set() =~= Set::<NodeKey>::empty());
    }
}

/// Visiting a node inside the focus space appends it to the breadcrumb
/// trail unless it is already the last crumb.
pub fn visit_crumb(trail: &mut Vec<NodeKey>, key: NodeKey)
    ensures
        (old(trail)@.len() > 0 && old(trail)@.last() == key) ==> final(trail)@ == old(trail)@,
        !(old(trail)@.len() > 0 && old(trail)@.last() == key) ==> final(trail)@ == old(
            trail,
        )@.push(key),
{
    let n = trail.len();
    if n > 0 && trail[n - 1] == key {
        return;
    }
    trail.push(key);
}

/// Clicking crumb `i` walks back: the trail keeps crumbs `0..=i`.
pub fn back_to_crumb(trail: &Vec<NodeKey>, i: usize) -> (r: Vec<NodeKey>)
    requires
        i < trail@.len(),
    ensures
        r@ == trail@.take(i + 1),
{
    let mut r: Vec<NodeKey> = Vec::new();
    let mut j: usize = 0;
    while j <= i
        invariant
            j <= i + 1,
            i < trail.len(),
            r@ == trail@.take(j as int),
        decreases i + 1 - j,
    {
        r.push(trail[j]);
        j = j + 1;
        assert(r@ =~= trail@.take(j as int));
    }
    r
}

/// The wires shown while focused: those with both ends in the cone.
pub fn wires_within(edges: &Vec<(NodeKey, NodeKey)>, cone: &Vec<NodeKey>) -> (r: Vec<
    (NodeKey, NodeKey),
>)
    ensures
        r@ == edges@.filter(|w: (NodeKey, NodeKey)| cone@.contains(w.0) && cone@.contains(w.1)),
{
    let ghost pred = |w: (NodeKey, NodeKey)| cone@.contains(w.0) && cone@.contains(w.1);
    let mut r: Vec<(NodeKey, NodeKey)> = Vec::new();
    let mut i: usize = 0;
    while i < edges.len()
        invariant
            i <= edges@.len(),
            pred == (|w: (NodeKey, NodeKey)| cone@.contains(w.0) && cone@.contains(w.1)),
            r@ == edges@.take(i as int).filter(pred),
        decreases edges.len() - i,
    {
        let w = edges[i];
        proof {
            reveal(Seq::filter);
            assert(edges@.take(i + 1).drop_last() =~= edges@.take(i as int));
            assert(edges@.take(i + 1).last() == w);
        }
        if vec_contains(cone, w.0) && vec_contains(cone, w.1) {
            r.push(w);
        }
        i = i + 1;
    }
    assert(edges@.take(edges@.len() as int) =~= edges@);
    r
}

/// The nodes of a layer that lie in the cone, in layer order.
pub fn nodes_within(row: &Vec<NodeKey>, cone: &Vec<NodeKey>) -> (r: Vec<NodeKey>)
    ensures
        r@ == row@.filter(|k: NodeKey| cone@.contains(k)),
{
    let ghost pred = |k: NodeKey| cone@.contains(k);
    let mut r: Vec<NodeKey> = Vec::new();
    let mut i: usize = 0;
    while i < row.len()
        invariant
            i <= row@.len(),
            pred == (|k: NodeKey| cone@.contains(k)),
            r@ == row@.take(i as int).filter(pred),
        decreases row.len() - i,
    {
        let k = row[i];
        proof {
            reveal(Seq::filter);
            assert(row@.take(i + 1).drop_last() =~= row@.take(i as int));
            assert(row@.take(i + 1).last() == k);
        }
        if vec_contains(cone, k) {
            r.push(k);
        }
        i = i + 1;
    }
    assert(row@.take(row@.len() as int) =~= row@);
    r
}

/// `m` lies in the focus cone of one of the first `n` selected nodes.
pub open spec fn in_some_cone(
    selection: Seq<NodeKey>,
    edges: Seq<(NodeKey, NodeKey)>,
    n: int,
    m: NodeKey,
) -> bool {
    exists|x: int| 0 <= x < n && #[trigger] in_cone(selection[x], edges, m)
}

/// The nodes a selection keeps lit: the union of the focus cones of the
/// selected nodes; `None` (nothing dimmed) for an empty selection.
pub fn selection_focus(selection: &Vec<NodeKey>, edges: &Vec<(NodeKey, NodeKey)>) -> (r: Option<
    Vec<NodeKey>,
>)
    ensures
        selection@.len() == 0 <==> r is None,
        r matches Some(v) ==> distinct(v@) && forall|m: NodeKey|
            v@.contains(m) <==> in_some_cone(selection@, edges@, selection@.len() as int, m),
{
    if selection.len() == 0 {
        return None;
    }
    let mut out: Vec<NodeKey> = Vec::new();
    let mut i: usize = 0;
    while i < selection.len()
        invariant
            i <= selection@.len(),
            distinct(out@),
            forall|m: NodeKey|
                #![trigger out@.contains(m)]
                #![trigger in_some_cone(selection@, edges@, i as int, m)]
                out@.contains(m) <==> in_some_cone(selection@, edges@, i as int, m),
        decreases selection.len() - i,
    {
        let cone = focus_cone(selection[i], edges);
        let mut k: usize = 0;
        let ghost o0 = out@;
        while k < cone.len()
            invariant
                i < selection@.len(),
                k <= cone@.len(),
                distinct(out@),
                forall|m: NodeKey|
                    #![trigger o0.contains(m)]
                    #![trigger in_some_cone(selection@, edges@, i as int, m)]
                    o0.contains(m) <==> in_some_cone(selection@, edges@, i as int, m),
                forall|m: NodeKey|
                    #![trigger cone@.contains(m)]
                    #![trigger in_cone(selection@[i as int], edges@, m)]
                    cone@.contains(m) <==> in_cone(selection@[i as int], edges@, m),
                forall|m: NodeKey|
                    #![trigger out@.contains(m)]
                    #![trigger o0.contains(m)]
                    #![trigger cone@.take(k as int).contains(m)]
                    out@.contains(m) <==> (o0.contains(m) || cone@.take(k as int).contains(m)),
            decreases cone.len() - k,
        {
            let m = cone[k];
            let ghost before = out@;
            if !vec_contains(&out, m) {
                out.push(m);
                proof {
                    assert forall|a: int, b: int| 0 <= a < b < out@.len() implies out@[a]
                        != out@[b] by {
                        if b == before.len() {
                            assert(before.contains(out@[a]));
                        }
                    }
                }
            }
            proof {
                let t1 = cone@.take(k as int);
                let t2 = cone@.take(k + 1);
                assert forall|x: NodeKey|
                    out@.contains(x) <==> (o0.contains(x) || t2.contains(x)) by {
                    if t2.contains(x) {
                        let j = choose|j: int| 0 <= j < t2.len() && t2[j] == x;
                        if j < k {
                            assert(t1[j] == x);
                        }
                    }
                    if t1.contains(x) {
                        let j = choose|j: int| 0 <= j < t1.len() && t1[j] == x;
                        assert(t2[j] == x);
                    }
                    assert(t2[k as int] == m);
                    if out@.contains(x) && !before.contains(x) {
                        let j = choose|j: int| 0 <= j < out@.len() && out@[j] == x;
                        assert(j == before.len());
                    }
                    if before.contains(x) {
                        let j = choose|j: int| 0 <= j < before.len() && before[j] == x;
                        assert(out@[j] == x);
                    }
                    if x == m && !before.contains(x) {
                        assert(out@[before.len() as int] == x);
                    }
                    assert(before.contains(x) <==> (o0.contains(x) || t1.contains(x)));
                }
            }
            k = k + 1;
        }
        proof {
            assert(cone@.take(cone@.len() as int) =~= cone@);
            assert forall|m: NodeKey|
                out@.contains(m) <==> in_some_cone(selection@, edges@, i + 1, m) by {
                assert(out@.contains(m) <==> (o0.contains(m) || cone@.contains(m)));
                if in_some_cone(selection@, edges@, i + 1, m) {
                    let x = choose|x: int|
                        0 <= x < i + 1 && #[trigger] in_cone(selection@[x], edges@, m);
                    if x < i {
                        assert(in_some_cone(selection@, edges@, i as int, m));
                    }
                }
                if in_some_cone(selection@, edges@, i as int, m) {
                    let x = choose|x: int| 0 <= x < i && #[trigger] in_cone(selection@[x], edges@, m);
                    assert(in_cone(selection@[x], edges@, m));
                }
                if cone@.contains(m) {
                    assert(in_cone(selection@[i as int], edges@, m));
                }
            }
        }
        i = i + 1;
    }
    Some(out)
}

/// Wire `j` of `edges` joins `n` and `m`, either end first.
pub open spec fn joins(edges: Seq<(NodeKey, NodeKey)>, j: int, n: NodeKey, m: NodeKey) -> bool {
    &&& 0 <= j < edges.len()
    &&& ((edges[j].0 == n && edges[j].1 == m) || (edges[j].1 == n && edges[j].0 == m))
}

/// Some wire of `edges` joins `n` and `m`.
pub open spec fn linked(edges: Seq<(NodeKey, NodeKey)>, n: NodeKey, m: NodeKey) -> bool {
    exists|j: int| joins(edges, j, n, m)
}

/// `m` can be reached from `start` over at most `d` wires, taken either way.
pub open spec fn within(start: NodeKey, edges: Seq<(NodeKey, NodeKey)>, m: NodeKey, d: nat) -> bool
    decreases d,
{
    if d == 0 {
        m == start
    } else {
        within(start, edges, m, (d - 1) as nat) || exists|n: NodeKey|
            #[trigger] linked(edges, n, m) && within(start, edges, n, (d - 1) as nat)
    }
}

/// The fewest wires leading from `start` to `m` is `d`.
pub open spec fn hop_distance(start: NodeKey, edges: Seq<(NodeKey, NodeKey)>, m: NodeKey, d: nat) -> bool {
    &&& within(start, edges, m, d)
    &&& (d == 0 || !within(start, edges, m, (d - 1) as nat))
}

/// The nodes of a list of (node, hop count) pairs.
pub open spec fn hop_nodes(r: Seq<(NodeKey, usize)>) -> Seq<NodeKey> {
    r.map_values(|e: (NodeKey, usize)| e.0)
}

proof fn lemma_within_mono(start: NodeKey, edges: Seq<(NodeKey, NodeKey)>, m: NodeKey, a: nat, b: nat)
    requires
        a <= b,
        within(start, edges, m, a),
    ensures
        within(start, edges, m, b),
    decreases b - a,
{
    if a < b {
        lemma_within_mono(start, edges, m, a, (b - 1) as nat);
    }
}

proof fn lemma_within_closed(start: NodeKey, edges: Seq<(NodeKey, NodeKey)>, c: nat, e: nat, m: NodeKey)
    requires
        forall|x: NodeKey| #[trigger] within(start, edges, x, c + 1) ==> within(start, edges, x, c),
        within(start, edges, m, e),
    ensures
        within(start, edges, m, c),
    decreases e,
{
    if e <= c {
        lemma_within_mono(start, edges, m, e, c);
    } else if within(start, edges, m, (e - 1) as nat) {
        lemma_within_closed(start, edges, c, (e - 1) as nat, m);
    } else {
        let n = choose|n: NodeKey|
            #[trigger] linked(edges, n, m) && within(start, edges, n, (e - 1) as nat);
        lemma_within_closed(start, edges, c, (e - 1) as nat, n);
        assert(linked(edges, n, m));
        assert(within(start, edges, m, c + 1));
    }
}

/// Wired nodes lie at most one hop apart from the start: a neighbour of a
/// node `d` wires away is never more than `d + 1` wires away, so staggered
/// delays of wired nodes differ by at most one step.
pub proof fn law_neighbour_hops(
    start: NodeKey,
    edges: Seq<(NodeKey, NodeKey)>,
    n: NodeKey,
    m: NodeKey,
    dn: nat,
    dm: nat,
)
    requires
        hop_distance(start, edges, n, dn),
        hop_distance(start, edges, m, dm),
        linked(edges, n, m),
    ensures
        dm <= dn + 1,
        dn <= dm + 1,
{
    assert(within(start, edges, m, dn + 1));
    if dm > dn + 1 {
        lemma_within_mono(start, edges, m, dn + 1, (dm - 1) as nat);
    }
    let j = choose|j: int| joins(edges, j, n, m);
    assert(joins(edges, j, m, n));
    assert(linked(edges, m, n));
    assert(within(start, edges, n, dm + 1));
    if dn > dm + 1 {
        lemma_within_mono(start, edges, n, dm + 1, (dn - 1) as nat);
    }
}

/// How many wires lie between `start` and each node connected to it: every
/// such node once, `start` first with 0, in breadth-first order.
pub fn stagger_hops(start: NodeKey, edges: &Vec<(NodeKey, NodeKey)>) -> (r: Vec<(NodeKey, usize)>)
    ensures
        r@.len() > 0,
        r@[0] == (start, 0usize),
        distinct(hop_nodes(r@)),
        forall|i: int|
            0 <= i < r@.len() ==> hop_distance(start, edges@, #[trigger] r@[i].0, r@[i].1 as nat),
        forall|m: NodeKey, d: nat|
            #[trigger] within(start, edges@, m, d) ==> hop_nodes(r@).contains(m),
        forall|a: int, b: int| 0 <= a < b < r@.len() ==> r@[a].1 <= r@[b].1,
{
    let ghost es = edges@;
    let ghost pool = endpoint_pool(start, es);
    let mut nodes: Vec<NodeKey> = Vec::new();
    let mut hops: Vec<usize> = Vec::new();
    nodes.push(start);
    hops.push(0);
    assert(pool[0] == start);
    let mut lo: usize = 0;
    let mut d: usize = 0;
    while lo < nodes.len()
        invariant
            es == edges@,
            pool == endpoint_pool(start, es),
            pool.len() == 1 + 2 * es.len(),
            nodes@.len() == hops@.len(),
            lo <= nodes@.len() <= pool.len(),
            d <= lo,
            d == 0 ==> lo == 0 && nodes@.len() == 1,
            nodes@[0] == start,
            hops@[0] == 0,
            distinct(nodes@),
            forall|i: int| 0 <= i < nodes@.len() ==> pool.contains(#[trigger] nodes@[i]),
            forall|i: int|
                0 <= i < nodes@.len() ==> hop_distance(
                    start,
                    es,
                    #[trigger] nodes@[i],
                    hops@[i] as nat,
                ),
            forall|i: int| lo <= i < nodes@.len() ==> #[trigger] hops@[i] == d,
            forall|i: int| 0 <= i < lo ==> #[trigger] hops@[i] < d,
            forall|m: NodeKey| #[trigger] within(start, es, m, d as nat) ==> nodes@.contains(m),
            forall|a: int, b: int| 0 <= a < b < hops@.len() ==> hops@[a] <= hops@[b],
        decreases pool.len() - lo,
    {
        let hi = nodes.len();
        let ghost n0 = nodes@;
        let ghost h0 = hops@;
        let d1 = d + 1;
        assert forall|i: int| 0 <= i < hops@.len() implies #[trigger] hops@[i] <= d1 by {
            if i < lo {
                assert(hops@[i] < d);
            } else {
                assert(hops@[i] == d);
            }
        }
        let mut p = lo;
        while p < hi
            invariant
                es == edges@,
                pool == endpoint_pool(start, es),
                pool.len() == 1 + 2 * es.len(),
                nodes@.len() == hops@.len(),
                lo < hi <= nodes@.len() <= pool.len(),
                hi == n0.len(),
                lo <= p <= hi,
                d < hi,
                d1 == d + 1,
                nodes@.take(hi as int) == n0,
                hops@.take(hi as int) == h0,
                nodes@[0] == start,
                distinct(nodes@),
                forall|i: int| 0 <= i < nodes@.len() ==> pool.contains(#[trigger] nodes@[i]),
                forall|i: int|
                    0 <= i < nodes@.len() ==> hop_distance(
                        start,
                        es,
                        #[trigger] nodes@[i],
                        hops@[i] as nat,
                    ),
                forall|i: int| lo <= i < hi ==> #[trigger] h0[i] == d,
                forall|i: int| 0 <= i < lo ==> #[trigger] h0[i] < d,
                forall|i: int| hi <= i < nodes@.len() ==> #[trigger] hops@[i] == d1,
                forall|m: NodeKey| #[trigger] within(start, es, m, d as nat) ==> n0.contains(m),
                forall|q: int, j: int, m: NodeKey|
                    #![trigger joins(es, j, nodes@[q], m)]
                    lo <= q < p && joins(es, j, nodes@[q], m) ==> nodes@.contains(m),
                forall|a: int, b: int| 0 <= a < b < hops@.len() ==> hops@[a] <= hops@[b],
                forall|i: int| 0 <= i < hops@.len() ==> #[trigger] hops@[i] <= d1,
            decreases hi - p,
        {
            let n = nodes[p];
            assert(nodes@[p as int] == n0[p as int]);
            assert(hops@[p as int] == h0[p as int]);
            let mut k: usize = 0;
            while k < edges.len()
                invariant
                    es == edges@,
                    pool == endpoint_pool(start, es),
                    pool.len() == 1 + 2 * es.len(),
                    nodes@.len() == hops@.len(),
                    lo < hi <= nodes@.len() <= pool.len(),
                    hi == n0.len(),
                    lo <= p < hi,
                    d < hi,
                    d1 == d + 1,
                    n == nodes@[p as int],
                    within(start, es, n, d as nat),
                    k <= es.len(),
                    nodes@.take(hi as int) == n0,
                    hops@.take(hi as int) == h0,
                    nodes@[0] == start,
                    distinct(nodes@),
                    forall|i: int| 0 <= i < nodes@.len() ==> pool.contains(#[trigger] nodes@[i]),
                    forall|i: int|
                        0 <= i < nodes@.len() ==> hop_distance(
                            start,
                            es,
                            #[trigger] nodes@[i],
                            hops@[i] as nat,
                        ),
                    forall|i: int| hi <= i < nodes@.len() ==> #[trigger] hops@[i] == d1,
                    forall|m: NodeKey| #[trigger] within(start, es, m, d as nat) ==> n0.contains(m),
                    forall|q: int, j: int, m: NodeKey|
                        #![trigger joins(es, j, nodes@[q], m)]
                        lo <= q < p && joins(es, j, nodes@[q], m) ==> nodes@.contains(m),
                    forall|j: int, m: NodeKey|
                        #![trigger joins(es, j, n, m)]
                        0 <= j < k && joins(es, j, n, m) ==> nodes@.contains(m),
                    forall|a: int, b: int| 0 <= a < b < hops@.len() ==> hops@[a] <= hops@[b],
                    forall|i: int| 0 <= i < hops@.len() ==> #[trigger] hops@[i] <= d1,
                decreases es.len() - k,
            {
                let e = edges[k];
                let next: Option<NodeKey> = if e.0 == n {
                    Some(e.1)
                } else if e.1 == n {
                    Some(e.0)
                } else {
                    None
                };
                let ghost s0 = nodes@;
                let ghost t0 = hops@;
                if let Some(m) = next {
                    assert(joins(es, k as int, n, m));
                    if !vec_contains(&nodes, m) {
                        proof {
                            assert(pool.contains(m)) by {
                                if e.0 == n {
                                    assert(pool[1 + es.len() + k] == m);
                                } else {
                                    assert(pool[1 + k] == m);
                                }
                            }
                            assert(linked(es, n, m));
                            assert(within(start, es, m, d1 as nat));
                            if within(start, es, m, d as nat) {
                                assert(n0.contains(m));
                                let x = choose|x: int| 0 <= x < n0.len() && n0[x] == m;
                                assert(s0.take(hi as int)[x] == m);
                                assert(s0[x] == m);
                            }
                            assert(hop_distance(start, es, m, d1 as nat));
                        }
                        nodes.push(m);
                        hops.push(d1);
                        proof {
                            assert(nodes@.take(hi as int) =~= s0.take(hi as int));
                            assert(hops@.take(hi as int) =~= t0.take(hi as int));
                            assert forall|i: int| 0 <= i < nodes@.len() implies pool.contains(
                                #[trigger] nodes@[i],
                            ) by {
                                if i < s0.len() {
                                    assert(pool.contains(s0[i]));
                                }
                            }
                            assert forall|i: int| 0 <= i < nodes@.len() implies hop_distance(
                                start,
                                es,
                                #[trigger] nodes@[i],
                                hops@[i] as nat,
                            ) by {
                                if i < s0.len() {
                                    assert(hop_distance(start, es, s0[i], t0[i] as nat));
                                }
                            }
                            assert forall|i: int| hi <= i < nodes@.len() implies #[trigger] hops@[i]
                                == d1 by {
                                if i < s0.len() {
                                    assert(t0[i] == d1);
                                }
                            }
                            assert forall|i: int| 0 <= i < hops@.len() implies #[trigger] hops@[i]
                                <= d1 by {
                                if i < t0.len() {
                                    assert(t0[i] <= d1);
                                }
                            }
                            assert forall|a: int, b: int| 0 <= a < b < hops@.len() implies hops@[a]
                                <= hops@[b] by {
                                if b < t0.len() {
                                    assert(t0[a] <= t0[b]);
                                } else {
                                    assert(t0[a] <= d1);
                                }
                            }
                            assert forall|a: int, b: int| 0 <= a < b < nodes@.len() implies nodes@[a]
                                != nodes@[b] by {
                                if b == s0.len() {
                                    assert(s0[a] != m);
                                }
                            }
                            lemma_len_bounded(nodes@, pool);
                            assert forall|x: NodeKey| s0.contains(x) implies nodes@.contains(x) by {
                                let i = choose|i: int| 0 <= i < s0.len() && s0[i] == x;
                                assert(nodes@[i] == x);
                            }
                            assert(nodes@[s0.len() as int] == m);
                        }
                    }
                }
                proof {
                    assert forall|j: int, m2: NodeKey|
                        #![trigger joins(es, j, n, m2)]
                        0 <= j < k + 1 && joins(es, j, n, m2) implies nodes@.contains(m2) by {
                        if j < k {
                            assert(s0.contains(m2));
                        } else {
                            assert(next == Some(m2));
                        }
                    }
                    assert forall|q: int, j: int, m2: NodeKey|
                        #![trigger joins(es, j, nodes@[q], m2)]
                        lo <= q < p && joins(es, j, nodes@[q], m2) implies nodes@.contains(m2) by {
                        assert(nodes@[q] == s0[q]);
                        assert(s0.contains(m2));
                    }
                }
                k = k + 1;
            }
            proof {
                assert forall|q: int, j: int, m2: NodeKey|
                    #![trigger joins(es, j, nodes@[q], m2)]
                    lo <= q < p + 1 && joins(es, j, nodes@[q], m2) implies nodes@.contains(m2) by {
                    if q == p {
                        assert(joins(es, j, n, m2));
                    }
                }
            }
            p = p + 1;
        }
        proof {
            assert forall|m: NodeKey| #[trigger] within(start, es, m, d1 as nat) implies nodes@.contains(
                m,
            ) by {
                if within(start, es, m, d as nat) {
                    let x = choose|x: int| 0 <= x < n0.len() && n0[x] == m;
                    assert(nodes@.take(hi as int)[x] == m);
                    assert(nodes@[x] == m);
                } else {
                    let n = choose|n: NodeKey|
                        #[trigger] linked(es, n, m) && within(start, es, n, d as nat);
                    assert(n0.contains(n));
                    let x = choose|x: int| 0 <= x < n0.len() && n0[x] == n;
                    assert(nodes@.take(hi as int)[x] == n);
                    assert(nodes@[x] == n);
                    let j = choose|j: int| joins(es, j, n, m);
                    if x >= lo {
                        assert(joins(es, j, nodes@[x], m));
                    } else {
                        assert(hops@.take(hi as int)[x] == h0[x]);
                        assert(h0[x] < d);
                        assert(hop_distance(start, es, nodes@[x], hops@[x] as nat));
                        lemma_within_mono(start, es, n, hops@[x] as nat, (d - 1) as nat);
                        assert(within(start, es, m, d as nat));
                    }
                }
            }
            assert forall|i: int| 0 <= i < hi implies #[trigger] hops@[i] < d1 by {
                assert(hops@.take(hi as int)[i] == h0[i]);
            }
        }
        lo = hi;
        d = d1;
    }
    proof {
        assert forall|x: NodeKey| #[trigger] within(start, es, x, d as nat) implies within(
            start,
            es,
            x,
            (d - 1) as nat,
        ) by {
            let i = choose|i: int| 0 <= i < nodes@.len() && nodes@[i] == x;
            assert(hop_distance(start, es, nodes@[i], hops@[i] as nat));
            assert(hops@[i] < d);
            lemma_within_mono(start, es, x, hops@[i] as nat, (d - 1) as nat);
        }
        assert forall|m: NodeKey, e: nat| #[trigger] within(start, es, m, e) implies nodes@.contains(m) by {
            lemma_within_closed(start, es, (d - 1) as nat, e, m);
            lemma_within_mono(start, es, m, (d - 1) as nat, d as nat);
        }
    }
    let mut r: Vec<(NodeKey, usize)> = Vec::new();
    let mut i: usize = 0;
    while i < nodes.len()
        invariant
            nodes@.len() == hops@.len(),
            i <= nodes@.len(),
            r@.len() == i,
            forall|x: int| 0 <= x < i ==> #[trigger] r@[x] == (nodes@[x], hops@[x]),
        decreases nodes.len() - i,
    {
        r.push((nodes[i], hops[i]));
        i = i + 1;
    }
    proof {
        assert(hop_nodes(r@) =~= nodes@);
        assert(r@[0] == (nodes@[0], hops@[0]));
        assert forall|a: int, b: int| 0 <= a < b < r@.len() implies r@[a].1 <= r@[b].1 by {
            assert(r@[a] == (nodes@[a], hops@[a]));
            assert(r@[b] == (nodes@[b], hops@[b]));
        }
        assert forall|x: int| 0 <= x < r@.len() implies hop_distance(
            start,
            es,
            #[trigger] r@[x].0,
            r@[x].1 as nat,
        ) by {
            assert(r@[x] == (nodes@[x], hops@[x]));
            assert(hop_distance(start, es, nodes@[x], hops@[x] as nat));
        }
    }
    r
}

/// Which port dots a node shows: groups wire downward, aliases both ways,
/// dispatch models upward.
pub fn port_of(key: NodeKey) -> (r: &'static str)
    ensures
        r@ == (match key {
            NodeKey::Group(_) => "bottom"@,
            NodeKey::Mapping(_) => "both"@,
            NodeKey::Dispatch(_) => "top"@,
        }),
{
    match key {
        NodeKey::Group(_) => "bottom",
        NodeKey::Mapping(_) => "both",
        NodeKey::Dispatch(_) => "top",
    }
}

/// What is being dragged on the canvas.
#[derive(Clone, Copy, PartialEq, Eq, Debug, Structural)]
pub enum DragKind {
    /// Nothing.
    Idle,
    /// A node (or the selection it belongs to).
    Node,
    /// A wire from a port.
    Wire,
    /// The canvas.
    Pan,
    /// A marquee.
    Marquee,
}

/// The hint line above the canvas.
pub fn drag_hint(in_focus: bool, drag: DragKind) -> (r: &'static str)
    ensures
        in_focus ==> r@ == "焦点空间：只显示相关节点 · 点左侧节点切换编辑 · 点空白或再点同节点退出"@,
        !in_focus && drag == DragKind::Wire ==> r@ == "拖到相邻层节点松开连线"@,
        !in_focus && drag == DragKind::Node ==> r@ == "松开落位"@,
        !in_focus && drag != DragKind::Wire && drag != DragKind::Node ==> r@
            == "滚轮缩放 · 拖空白平移 · Shift拖空白框选 · Ctrl点选多个 · 拖节点摆位 · 拖圆点连线"@,
{
    if in_focus {
        "焦点空间：只显示相关节点 · 点左侧节点切换编辑 · 点空白或再点同节点退出"
    } else {
        match drag {
            DragKind::Wire => "拖到相邻层节点松开连线",
            DragKind::Node => "松开落位",
            _ => "滚轮缩放 · 拖空白平移 · Shift拖空白框选 · Ctrl点选多个 · 拖节点摆位 · 拖圆点连线",
        }
    }
}

impl EdgeSet {
    /// A wire dragged from `src` may drop on `key`: another node of an
    /// adjacent layer that is not wired to `src` yet.
    pub fn legal_target(&self, src: NodeKey, key: NodeKey) -> (r: bool)
        ensures
            r == (src != key && (normalized(src, key) matches Some(w) && !self.view().contains(w))),
    {
        if src == key {
            return false;
        }
        match normalize(src, key) {
            Some(w) => !self.contains(w),
            None => false,
        }
    }
}

/// The selection, inspection and focus space of the editor.
pub struct FocusState {
    /// The selected nodes, each once.
    pub selected: Vec<NodeKey>,
    /// The node whose inspector is open.
    pub inspect: Option<NodeKey>,
    /// The focus space: the cone shown alone, each node once.
    pub cone: Option<Vec<NodeKey>>,
    /// The breadcrumb trail inside the focus space.
    pub crumbs: Vec<NodeKey>,
}

/// The selection and the cone list no node twice.
pub open spec fn focus_wf(s: FocusState) -> bool {
    &&& distinct(s.selected@)
    &&& (s.cone matches Some(c) ==> distinct(c@))
}

/// How a click changed the focus space.
#[derive(Clone, Copy, PartialEq, Eq, Debug, Structural)]
pub enum FocusChange {
    /// It stayed as it was.
    Kept,
    /// The focus space was entered.
    Entered,
    /// The focus space was left.
    Left,
}

/// The editor shows nothing selected, nothing inspected and the whole graph.
pub fn no_focus() -> (s: FocusState)
    ensures
        s.selected@.len() == 0,
        s.inspect is None,
        s.cone is None,
        s.crumbs@.len() == 0,
        focus_wf(s),
{
    FocusState { selected: Vec::new(), inspect: None, cone: None, crumbs: Vec::new() }
}

/// A click on node `key` (without dragging). Ctrl toggles it in the
/// selection. A plain click selects it alone, then: on the inspected node it
/// leaves the focus space; inside the focus space it inspects the node and
/// records a crumb; otherwise it enters the focus space of the node's cone.
pub fn click_node(
    s: &mut FocusState,
    edges: &Vec<(NodeKey, NodeKey)>,
    key: NodeKey,
    ctrl: bool,
) -> (c: FocusChange)
    requires
        focus_wf(*old(s)),
    ensures
        focus_wf(*final(s)),
        ctrl ==> {
            &&& final(s).selected@.to_set() == toggled(old(s).selected@.to_set(), key)
            &&& final(s).inspect == old(s).inspect
            &&& final(s).cone == old(s).cone
            &&& final(s).crumbs == old(s).crumbs
            &&& c == FocusChange::Kept
        },
        !ctrl ==> final(s).selected@.to_set() == set![key],
        !ctrl && old(s).inspect == Some(key) ==> {
            &&& final(s).inspect is None
            &&& final(s).cone is None
            &&& final(s).crumbs == old(s).crumbs
            &&& c == FocusChange::Left
        },
        !ctrl && old(s).inspect != Some(key) && old(s).cone is Some ==> {
            &&& final(s).inspect == Some(key)
            &&& final(s).cone == old(s).cone
            &&& (old(s).crumbs@.len() > 0 && old(s).crumbs@.last() == key ==> final(s).crumbs@
                == old(s).crumbs@)
            &&& (!(old(s).crumbs@.len() > 0 && old(s).crumbs@.last() == key)
                ==> final(s).crumbs@ == old(s).crumbs@.push(key))
            &&& c == FocusChange::Kept
        },
        !ctrl && old(s).inspect != Some(key) && old(s).cone is None ==> {
            &&& final(s).inspect == Some(key)
            &&& final(s).cone matches Some(v) && forall|m: NodeKey|
                v@.contains(m) <==> in_cone(key, edges@, m)
            &&& final(s).crumbs@ == seq![key]
            &&& c == FocusChange::Entered
        },
{
    if ctrl {
        toggle_selected(&mut s.selected, key);
        return FocusChange::Kept;
    }
    select_only(&mut s.selected, key);
    if s.inspect == Some(key) {
        s.inspect = None;
        s.cone = None;
        FocusChange::Left
    } else if s.cone.is_some() {
        s.inspect = Some(key);
        visit_crumb(&mut s.crumbs, key);
        FocusChange::Kept
    } else {
        s.inspect = Some(key);
        let cone = focus_cone(key, edges);
        s.cone = Some(cone);
        let mut trail: Vec<NodeKey> = Vec::new();
        trail.push(key);
        s.crumbs = trail;
        FocusChange::Entered
    }
}

/// A click on the empty canvas: clears the selection, the inspector and the
/// trail, and leaves the focus space if it was in one.
pub fn click_canvas(s: &mut FocusState) -> (c: FocusChange)
    ensures
        final(s).selected@.len() == 0,
        final(s).inspect is None,
        final(s).cone is None,
        final(s).crumbs@.len() == 0,
        focus_wf(*final(s)),
        c == (if old(s).cone is Some {
            FocusChange::Left
        } else {
            FocusChange::Kept
        }),
{
    let was = s.cone.is_some();
    s.selected = Vec::new();
    s.inspect = None;
    s.cone = None;
    s.crumbs = Vec::new();
    if was {
        FocusChange::Left
    } else {
        FocusChange::Kept
    }
}

/// The candidate a wire's dodge takes, from the number of sampled points of
/// each candidate curve that hit a node: the first candidate with the
/// fewest hits (so the first collision-free one when there is one).
pub fn pick_dodge(hits: &Vec<usize>) -> (r: usize)
    requires
        hits@.len() > 0,
    ensures
        r < hits@.len(),
        forall|i: int| 0 <= i < hits@.len() ==> hits@[r as int] <= #[trigger] hits@[i],
        forall|i: int| 0 <= i < r ==> hits@[r as int] < #[trigger] hits@[i],
{
    let mut best: usize = 0;
    let mut i: usize = 1;
    while i < hits.len()
        invariant
            1 <= i <= hits@.len(),
            best < i,
            forall|j: int| 0 <= j < i ==> hits@[best as int] <= #[trigger] hits@[j],
            forall|j: int| 0 <= j < best ==> hits@[best as int] < #[trigger] hits@[j],
        decreases hits.len() - i,
    {
        if hits[i] < hits[best] {
            best = i;
        }
        i = i + 1;
    }
    best
}

/// A wire dragged from a node that is not part of a selection of two or
/// more nodes wires that node alone: the drop adds exactly its wire to the
/// target, if the two can be joined, and the selection plays no part.
pub proof fn law_drop_from_lone_source(sel: Seq<NodeKey>, src: NodeKey, target: NodeKey)
    requires
        !sel.contains(src) || sel.len() <= 1,
    ensures
        dropped_wires(sel, src, target) == (match normalized(src, target) {
            Some(w) => set![w],
            None => Set::<(NodeKey, NodeKey)>::empty(),
        }),
{
    let expect = match normalized(src, target) {
        Some(w) => set![w],
        None => Set::<(NodeKey, NodeKey)>::empty(),
    };
    assert forall|w: (NodeKey, NodeKey)| dropped_wires(sel, src, target).contains(w)
        <==> expect.contains(w) by {
        if expect.contains(w) {
            assert(normalized(src, target) == Some(w));
        }
    }
    assert(dropped_wires(sel, src, target) =~= expect);
}

/// The dragged source itself is always wired to the target when the two
/// can be joined, selected or not.
pub proof fn law_drop_wires_source(sel: Seq<NodeKey>, src: NodeKey, target: NodeKey)
    ensures
        normalized(src, target) matches Some(w) ==> dropped_wires(sel, src, target).contains(w),
{
    if let Some(w) = normalized(src, target) {
        assert(normalized(src, target) == Some(w));
    }
}

} // verus!
