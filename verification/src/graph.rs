//! The intent graph: nodes that name a tool and a capability, and edges
//! between node ids that order their execution.

use vstd::prelude::*;

verus! {

/// `entries` holds each key once, and `map` is the map it denotes.
pub open spec fn entries_denote(entries: Seq<(String, String)>, map: Map<Seq<char>, Seq<char>>) -> bool {
    &&& forall|i: int, j: int| 0 <= i < j < entries.len() ==> entries[i].0@ != entries[j].0@
    &&& forall|k: Seq<char>|
        #[trigger] map.contains_key(k) <==> exists|i: int| 0 <= i < entries.len() && entries[i].0@ == k
    &&& forall|i: int| 0 <= i < entries.len() ==> #[trigger] map[entries[i].0@] == entries[i].1@
}

/// A finite map from input names to input values, one value per name.
pub struct InputMap {
    entries: Vec<(String, String)>,
    map: Ghost<Map<Seq<char>, Seq<char>>>,
}

impl InputMap {
    #[verifier::type_invariant]
    spec fn entries_match_map(&self) -> bool {
        entries_denote(self.entries@, self.map@)
    }

    /// The entries in the order in which their keys were first inserted.
    pub closed spec fn entries_view(&self) -> Seq<(Seq<char>, Seq<char>)> {
        self.entries@.map_values(|p: (String, String)| (p.0@, p.1@))
    }

    pub fn new() -> (m: Self)
        ensures
            m@ == Map::<Seq<char>, Seq<char>>::empty(),
            m.entries_view().len() == 0,
    {
        InputMap { entries: Vec::new(), map: Ghost(Map::empty()) }
    }

    /// Sets the value of `key`, replacing the value it had.
    pub fn insert(&mut self, key: String, value: String)
        ensures
            final(self)@ == old(self)@.insert(key@, value@),
    {
        proof {
            use_type_invariant(&*self);
        }
        let ghost old_map = self.map@;
        let ghost new_map = self.map@.insert(key@, value@);
        let mut i: usize = 0;
        while i < self.entries.len()
            invariant
                i <= self.entries.len(),
                *self == *old(self),
                old_map == self.map@,
                new_map == old_map.insert(key@, value@),
                forall|j: int| 0 <= j < i ==> self.entries@[j].0@ != key@,
            decreases self.entries.len() - i,
        {
            if self.entries[i].0 == key {
                let mut this = InputMap::new();
                std::mem::swap(&mut this, self);
                proof {
                    use_type_invariant(&this);
                }
                let InputMap { mut entries, map: _ } = this;
                let ghost before = entries@;
                entries.set(i, (key, value));
                proof {
                    assert forall|k: Seq<char>| #[trigger] new_map.contains_key(k) <==> exists|j: int|
                        0 <= j < entries@.len() && entries@[j].0@ == k by {
                        if new_map.contains_key(k) && k != key@ {
                            let j = choose|j: int| 0 <= j < before.len() && before[j].0@ == k;
                            assert(entries@[j].0@ == k);
                        }
                        if k == key@ {
                            assert(entries@[i as int].0@ == k);
                        }
                    }
                    assert forall|a: int, b: int| 0 <= a < b < entries@.len()
                        implies entries@[a].0@ != entries@[b].0@ by {
                        assert(before[a].0@ != before[b].0@);
                    }
                    assert forall|j: int| 0 <= j < entries@.len() implies #[trigger] new_map[entries@[j].0@]
                        == entries@[j].1@ by {
                        if j != i {
                            assert(old_map[before[j].0@] == before[j].1@);
                        }
                    }
                }
                assert(entries_denote(entries@, new_map));
                *self = InputMap { entries, map: Ghost(new_map) };
                return;
            }
            i = i + 1;
        }
        let mut this = InputMap::new();
        std::mem::swap(&mut this, self);
                proof {
                    use_type_invariant(&this);
                }
        let InputMap { mut entries, map: _ } = this;
        let ghost before = entries@;
        entries.push((key, value));
        proof {
            assert forall|k: Seq<char>| #[trigger] new_map.contains_key(k) <==> exists|j: int|
                0 <= j < entries@.len() && entries@[j].0@ == k by {
                if new_map.contains_key(k) && k != key@ {
                    let j = choose|j: int| 0 <= j < before.len() && before[j].0@ == k;
                    assert(entries@[j].0@ == k);
                }
                if k == key@ {
                    assert(entries@[before.len() as int].0@ == k);
                }
            }
            assert forall|a: int, b: int| 0 <= a < b < entries@.len()
                implies entries@[a].0@ != entries@[b].0@ by {
                if b < before.len() {
                    assert(before[a].0@ != before[b].0@);
                } else {
                    assert(before[a].0@ != key@);
                }
            }
            assert forall|j: int| 0 <= j < entries@.len() implies #[trigger] new_map[entries@[j].0@]
                == entries@[j].1@ by {
                if j < before.len() {
                    assert(old_map[before[j].0@] == before[j].1@);
                }
            }
        }
        assert(entries_denote(entries@, new_map));
        *self = InputMap { entries, map: Ghost(new_map) };
    }

    /// The value of `key`, if it has one.
    pub fn get(&self, key: &str) -> (r: Option<&String>)
        ensures
            r matches Some(v) ==> self@.contains_key(key@) && v@ == self@[key@],
            r is None ==> !self@.contains_key(key@),
    {
        proof {
            use_type_invariant(self);
        }
        let k = String::from_str(key);
        let mut i: usize = 0;
        while i < self.entries.len()
            invariant
                i <= self.entries.len(),
                k@ == key@,
                forall|j: int| 0 <= j < i ==> self.entries@[j].0@ != key@,
            decreases self.entries.len() - i,
        {
            if self.entries[i].0 == k {
                proof {
                    use_type_invariant(self);
                }
                assert(self.map@[self.entries@[i as int].0@] == self.entries@[i as int].1@);
                return Some(&self.entries[i].1);
            }
            i = i + 1;
        }
        None
    }

    /// The number of entries.
    pub fn len(&self) -> (n: usize)
        ensures
            n == self.entries_view().len(),
    {
        self.entries.len()
    }

    /// The entry at position `i`, in insertion order.
    pub fn entry(&self, i: usize) -> (r: (&String, &String))
        requires
            i < self.entries_view().len(),
        ensures
            (r.0@, r.1@) == self.entries_view()[i as int],
            self@.contains_key(r.0@),
            self@[r.0@] == r.1@,
    {
        proof {
            use_type_invariant(self);
            assert(self.map@[self.entries@[i as int].0@] == self.entries@[i as int].1@);
        }
        (&self.entries[i].0, &self.entries[i].1)
    }
}

impl View for InputMap {
    type V = Map<Seq<char>, Seq<char>>;

    closed spec fn view(&self) -> Map<Seq<char>, Seq<char>> {
        self.map@
    }
}

/// A node id.
pub type NodeId = String;

/// One unit of computation: a tool to run, the capability it claims, its inputs,
/// and the policy tags it carries.
pub struct Node {
    pub id: NodeId,
    pub tool_name: String,
    pub capability: String,
    pub inputs: InputMap,
    pub constraints: Vec<String>,
}

/// A node as character sequences.
pub struct NodeView {
    pub id: Seq<char>,
    pub tool_name: Seq<char>,
    pub capability: Seq<char>,
    pub inputs: Map<Seq<char>, Seq<char>>,
    pub constraints: Seq<Seq<char>>,
}

impl View for Node {
    type V = NodeView;

    open spec fn view(&self) -> NodeView {
        NodeView {
            id: self.id@,
            tool_name: self.tool_name@,
            capability: self.capability@,
            inputs: self.inputs@,
            constraints: self.constraints.deep_view(),
        }
    }
}

/// Nodes, and edges that run from the node with the first id to the node with the second.
pub struct IntentGraph {
    pub nodes: Vec<Node>,
    pub edges: Vec<(NodeId, NodeId)>,
}

/// A graph as character sequences.
pub struct GraphView {
    pub nodes: Seq<NodeView>,
    pub edges: Seq<(Seq<char>, Seq<char>)>,
}

impl View for IntentGraph {
    type V = GraphView;

    open spec fn view(&self) -> GraphView {
        GraphView {
            nodes: self.nodes@.map_values(|n: Node| n@),
            edges: self.edges@.map_values(|e: (NodeId, NodeId)| (e.0@, e.1@)),
        }
    }
}

} // verus!
