//! Named daemons of the socket overlay, and the generator that mints their
//! human-readable names: an adjective and an animal, drawn at random.
use rand::rngs::StdRng;
use rand::seq::SliceRandom;
use vstd::prelude::*;

verus! {

/// `rand::rngs::StdRng`, opaque: only handed to `SliceRandom::choose`.
#[verifier::external_type_specification]
#[verifier::external_body]
pub struct ExStdRng(StdRng);

/// Relies on `SliceRandom::choose`: `None` for no words, else one of them.
#[verifier::external_body]
fn choose_word(words: &Vec<String>, rng: &mut StdRng) -> (r: Option<String>)
    ensures
        r.is_none() == (words@.len() == 0),
        r matches Some(w) ==> exists|i: int| 0 <= i < words@.len() && w@ == #[trigger] words@[i]@,
{
    words.choose(rng).cloned()
}

/// `name` is an adjective of `adjectives`, a dash and a noun of `nouns`.
pub open spec fn is_generated_name(name: Seq<char>, adjectives: Seq<String>, nouns: Seq<String>) -> bool {
    exists|i: int, j: int|
        0 <= i < adjectives.len() && 0 <= j < nouns.len() && name == #[trigger] adjectives[i]@
            + seq!['-'] + #[trigger] nouns[j]@
}

/// Mints names from two word lists and a random number generator.
pub struct Generator {
    rng: StdRng,
    adjectives: Vec<String>,
    nouns: Vec<String>,
}

impl Generator {
    pub closed spec fn adjectives(&self) -> Seq<String> {
        self.adjectives@
    }

    pub closed spec fn nouns(&self) -> Seq<String> {
        self.nouns@
    }

    pub open spec fn wf(&self) -> bool {
        self.adjectives().len() > 0 && self.nouns().len() > 0
    }

    /// A generator over the given word lists, neither of them empty.
    pub fn new(adjectives: Vec<String>, nouns: Vec<String>, rng: StdRng) -> (r: Generator)
        requires
            adjectives@.len() > 0,
            nouns@.len() > 0,
        ensures
            r.wf(),
            r.adjectives() == adjectives@,
            r.nouns() == nouns@,
    {
        Generator { rng, adjectives, nouns }
    }

    /// A generator over the built-in word lists.
    pub fn with_rng(rng: StdRng) -> (r: Generator)
        ensures
            r.wf(),
    {
        let adjectives = vec![
            "brave".to_owned(),
            "calm".to_owned(),
            "eager".to_owned(),
            "gentle".to_owned(),
            "jolly".to_owned(),
            "lively".to_owned(),
            "proud".to_owned(),
            "quiet".to_owned(),
            "swift".to_owned(),
            "witty".to_owned(),
        ];
        let nouns = vec![
            "badger".to_owned(),
            "crane".to_owned(),
            "falcon".to_owned(),
            "gecko".to_owned(),
            "heron".to_owned(),
            "lynx".to_owned(),
            "otter".to_owned(),
            "panda".to_owned(),
            "raven".to_owned(),
            "walrus".to_owned(),
        ];
        Generator::new(adjectives, nouns, rng)
    }

    /// The next name: a random adjective, a dash and a random noun.
    pub fn next_name(&mut self) -> (r: String)
        requires
            old(self).wf(),
        ensures
            final(self).adjectives() == old(self).adjectives(),
            final(self).nouns() == old(self).nouns(),
            is_generated_name(r@, old(self).adjectives(), old(self).nouns()),
    {
        let adj = choose_word(&self.adjectives, &mut self.rng);
        let noun = choose_word(&self.nouns, &mut self.rng);
        match (adj, noun) {
            (Some(a), Some(n)) => {
                let mut name = a;
                let ghost a_view = name@;
                name.append("-");
                proof {
                    reveal_strlit("-");
                }
                name.append(n.as_str());
                assert(name@ == a_view + seq!['-'] + n@);
                name
            },
            _ => {
                // Unreachable: both lists are non-empty.
                assert(false);
                String::new()
            },
        }
    }
}

/// The name of a node of the overlay.
#[derive(Debug, Default, Clone, PartialEq, Eq, Hash)]
pub struct NodeName(pub String);

impl View for NodeName {
    type V = Seq<char>;

    open spec fn view(&self) -> Seq<char> {
        self.0@
    }
}

impl From<String> for NodeName {
    fn from(s: String) -> (r: NodeName) {
        NodeName(s)
    }
}

impl vstd::std_specs::convert::FromSpecImpl<String> for NodeName {
    open spec fn obeys_from_spec() -> bool {
        true
    }

    open spec fn from_spec(v: String) -> NodeName {
        NodeName(v)
    }
}

impl NodeName {
    /// The name as text.
    pub fn as_str(&self) -> (r: &str)
        ensures
            r@ == self@,
    {
        self.0.as_str()
    }

    /// The name as an owned string.
    pub fn to_text(&self) -> (r: String)
        ensures
            r@ == self@,
    {
        self.0.clone()
    }

    pub fn is_empty(&self) -> (r: bool)
        ensures
            r == (self@.len() == 0),
    {
        self.0.as_str().is_empty()
    }

    /// Whether two names are the same.
    pub fn same(&self, other: &NodeName) -> (r: bool)
        ensures
            r == (self@ == other@),
    {
        self.0 == other.0
    }
}

/// Sent by the daemon to a new leaf: its name and the daemon's.
#[derive(Debug, Clone, PartialEq, Eq)]
pub struct Handshake {
    pub client_name: NodeName,
    pub server_name: NodeName,
}

/// The leaf's answer to a `Handshake`.
#[derive(Debug, Clone, Copy, PartialEq, Eq)]
pub struct HandshakeRsp;

/// A message between two nodes.
#[derive(Debug, Clone, PartialEq, Eq)]
pub struct Message {
    pub src: NodeName,
    pub dst: NodeName,
}

/// What the store knows of a node.
pub enum Node<S> {
    /// This daemon itself.
    MyNode,
    /// A node whose handshake is under way.
    Handshake,
    /// A connected node, reached through `sender`.
    Connected { sender: S },
}

/// Why a node could not be registered.
#[derive(Debug, Clone, Copy, PartialEq, Eq, Structural)]
pub enum NodeError {
    /// This daemon's own name is already registered.
    MyNameTaken,
    /// Another node already has the name.
    NameInUse,
    /// No unused name came up in `NAME_ATTEMPTS` draws.
    NoFreeName,
    /// No node of that name is in its handshake.
    NotInHandshake,
}

/// How many names `NodeStore::insert` draws before giving up.
pub const NAME_ATTEMPTS: usize = 64;

/// The nodes this daemon knows, by unique name.
pub struct NodeStore<S> {
    my_name: NodeName,
    nodes: Vec<(NodeName, Node<S>)>,
    name_gen: Generator,
}

/// The names of `entries`, in order.
pub open spec fn names_of<S>(entries: Seq<(NodeName, Node<S>)>) -> Seq<Seq<char>> {
    entries.map_values(|e: (NodeName, Node<S>)| e.0@)
}

impl<S> NodeStore<S> {
    /// The entries, as names and nodes, in the order they were registered.
    pub closed spec fn entries(&self) -> Seq<(NodeName, Node<S>)> {
        self.nodes@
    }

    pub closed spec fn my_name(&self) -> Seq<char> {
        self.my_name@
    }

    pub open spec fn names(&self) -> Seq<Seq<char>> {
        names_of(self.entries())
    }

    pub closed spec fn name_gen_adjectives(&self) -> Seq<String> {
        self.name_gen.adjectives()
    }

    /// No registered name has the form that the generator draws, so every
    /// drawn name is fresh.
    pub open spec fn no_generated_names(&self) -> bool {
        forall|k: int|
            0 <= k < self.names().len() ==> !is_generated_name(
                #[trigger] self.names()[k],
                self.name_gen_adjectives(),
                self.name_gen_nouns(),
            )
    }

    pub closed spec fn name_gen_nouns(&self) -> Seq<String> {
        self.name_gen.nouns()
    }

    pub closed spec fn wf(&self) -> bool {
        &&& self.name_gen.wf()
        &&& forall|i: int, j: int|
            0 <= i < j < self.nodes@.len() ==> self.nodes@[i].0@ != self.nodes@[j].0@
    }

    /// An empty store with no name of its own yet.
    pub fn new(name_gen: Generator) -> (r: NodeStore<S>)
        requires
            name_gen.wf(),
        ensures
            r.wf(),
            r.entries().len() == 0,
            r.my_name().len() == 0,
            r.name_gen_adjectives() == name_gen.adjectives(),
            r.name_gen_nouns() == name_gen.nouns(),
    {
        NodeStore { my_name: NodeName(String::new()), nodes: Vec::new(), name_gen }
    }

    /// This daemon's own name (empty until registered).
    pub fn my_name_ref(&self) -> (r: &NodeName)
        ensures
            r@ == self.my_name(),
    {
        &self.my_name
    }

    /// Where `name` is among the entries.
    fn position(&self, name: &NodeName) -> (r: Option<usize>)
        ensures
            r matches Some(i) ==> i < self.nodes@.len() && self.nodes@[i as int].0@ == name@,
            r.is_none() ==> !self.names().contains(name@),
    {
        let mut i: usize = 0;
        while i < self.nodes.len()
            invariant
                i <= self.nodes@.len(),
                forall|j: int| 0 <= j < i ==> self.nodes@[j].0@ != name@,
            decreases self.nodes@.len() - i,
        {
            if self.nodes[i].0.same(name) {
                return Some(i);
            }
            i = i + 1;
        }
        proof {
            if self.names().contains(name@) {
                let k = choose|k: int| 0 <= k < self.names().len() && self.names()[k] == name@;
                assert(self.nodes@[k].0@ == name@);
            }
        }
        None
    }

    /// Whether a node named `name` is registered.
    pub fn contains(&self, name: &NodeName) -> (r: bool)
        ensures
            r == self.names().contains(name@),
    {
        match self.position(name) {
            Some(i) => {
                assert(self.names()[i as int] == name@);
                true
            },
            None => false,
        }
    }

    /// The node named `name`, if any.
    pub fn get(&self, name: &NodeName) -> (r: Option<&Node<S>>)
        requires
            self.wf(),
        ensures
            r.is_some() == self.names().contains(name@),
            r matches Some(n) ==> exists|i: int|
                0 <= i < self.entries().len() && self.entries()[i].0@ == name@ && *n
                    == #[trigger] self.entries()[i].1,
    {
        match self.position(name) {
            Some(i) => {
                assert(self.names()[i as int] == name@);
                Some(&self.nodes[i].1)
            },
            None => None,
        }
    }

    /// Registers `node` under `name`. A `MyNode` also becomes this daemon's
    /// own name, which can be registered once. On an error nothing changes.
    pub fn insert_with_name(&mut self, name: NodeName, node: Node<S>) -> (r: Result<(), NodeError>)
        requires
            old(self).wf(),
            name@.len() > 0,
        ensures
            final(self).wf(),
            final(self).name_gen_adjectives() == old(self).name_gen_adjectives(),
            final(self).name_gen_nouns() == old(self).name_gen_nouns(),
            r == if node is MyNode && old(self).my_name().len() > 0 {
                Err::<(), NodeError>(NodeError::MyNameTaken)
            } else if old(self).names().contains(name@) {
                Err::<(), NodeError>(NodeError::NameInUse)
            } else {
                Ok::<(), NodeError>(())
            },
            r.is_err() ==> final(self).entries() == old(self).entries() && final(self).my_name()
                == old(self).my_name(),
            r.is_ok() ==> final(self).entries() == old(self).entries().push((name, node)),
            r.is_ok() ==> final(self).my_name() == if node is MyNode {
                name@
            } else {
                old(self).my_name()
            },
    {
        let is_mine = match node {
            Node::MyNode => true,
            _ => false,
        };
        if is_mine && !self.my_name.is_empty() {
            return Err(NodeError::MyNameTaken);
        }
        if self.contains(&name) {
            return Err(NodeError::NameInUse);
        }
        if is_mine {
            self.my_name = NodeName(name.0.clone());
        }
        let ghost before = self.nodes@;
        self.nodes.push((name, node));
        proof {
            assert forall|i: int, j: int| 0 <= i < j < self.nodes@.len() implies self.nodes@[i].0@
                != self.nodes@[j].0@ by {
                if j == before.len() {
                    assert(names_of(before)[i] == before[i].0@);
                }
            }
        }
        Ok(())
    }
    /// Registers `node` under a freshly drawn name that no node has, and
    /// returns the name. Draws up to `NAME_ATTEMPTS` names.
    pub fn insert(&mut self, node: Node<S>) -> (r: Result<NodeName, NodeError>)
        requires
            old(self).wf(),
        ensures
            final(self).wf(),
            final(self).name_gen_adjectives() == old(self).name_gen_adjectives(),
            final(self).name_gen_nouns() == old(self).name_gen_nouns(),
            (r == Err::<NodeName, NodeError>(NodeError::MyNameTaken)) == (node is MyNode
                && old(self).my_name().len() > 0),
            !(node is MyNode && old(self).my_name().len() > 0) && old(self).no_generated_names()
                ==> r.is_ok(),
            r matches Ok(name) ==> {
                &&& !old(self).names().contains(name@)
                &&& is_generated_name(
                    name@,
                    old(self).name_gen_adjectives(),
                    old(self).name_gen_nouns(),
                )
                &&& final(self).entries() == old(self).entries().push((name, node))
                &&& final(self).my_name() == if node is MyNode {
                    name@
                } else {
                    old(self).my_name()
                }
            },
            r.is_err() ==> final(self).entries() == old(self).entries() && final(self).my_name()
                == old(self).my_name(),
    {
        let is_mine = match node {
            Node::MyNode => true,
            _ => false,
        };
        if is_mine && !self.my_name.is_empty() {
            return Err(NodeError::MyNameTaken);
        }
        let ghost fresh_all = old(self).no_generated_names();
        let mut attempt: usize = 0;
        while attempt < NAME_ATTEMPTS
            invariant
                fresh_all == old(self).no_generated_names(),
                fresh_all ==> attempt == 0,
                self.wf(),
                self.nodes@ == old(self).nodes@,
                self.my_name@ == old(self).my_name@,
                self.name_gen.adjectives() == old(self).name_gen.adjectives(),
                self.name_gen.nouns() == old(self).name_gen.nouns(),
                is_mine == (node is MyNode),
                !(is_mine && self.my_name@.len() > 0),
            decreases NAME_ATTEMPTS - attempt,
        {
            let name = NodeName(self.name_gen.next_name());
            if !self.contains(&name) {
                proof {
                    let adjectives = self.name_gen.adjectives();
                    let nouns = self.name_gen.nouns();
                    let (i, j) = choose|i: int, j: int|
                        0 <= i < adjectives.len() && 0 <= j < nouns.len() && name@
                            == #[trigger] adjectives[i]@ + seq!['-'] + #[trigger] nouns[j]@;
                    assert(name@.len() > 0) by {
                        assert(name@[adjectives[i]@.len() as int] == '-');
                    }
                }
                let kept = NodeName(name.0.clone());
                let r = self.insert_with_name(name, node);
                assert(r.is_ok());
                return match r {
                    Ok(()) => Ok(kept),
                    Err(e) => Err(e),
                };
            }
            proof {
                if fresh_all {
                    let k = choose|k: int| 0 <= k < self.names().len() && self.names()[k] == name@;
                    assert(self.names() == old(self).names());
                    assert(!is_generated_name(
                        old(self).names()[k],
                        old(self).name_gen_adjectives(),
                        old(self).name_gen_nouns(),
                    ));
                }
            }
            attempt = attempt + 1;
        }
        Err(NodeError::NoFreeName)
    }

    /// Marks the node `name`, whose handshake is under way, as connected
    /// through `sender`.
    pub fn complete_handshake(&mut self, name: &NodeName, sender: S) -> (r: Result<(), NodeError>)
        requires
            old(self).wf(),
        ensures
            final(self).wf(),
            final(self).my_name() == old(self).my_name(),
            r.is_ok() == exists|i: int|
                0 <= i < old(self).entries().len() && old(self).entries()[i].0@ == name@
                    && #[trigger] old(self).entries()[i].1 is Handshake,
            r.is_err() ==> r == Err::<(), NodeError>(NodeError::NotInHandshake)
                && final(self).entries() == old(self).entries(),
            r.is_ok() ==> final(self).names() == old(self).names(),
            r.is_ok() ==> forall|i: int|
                0 <= i < old(self).entries().len() && old(self).entries()[i].0@ == name@ ==> (
                #[trigger] final(self).entries()[i].1 matches Node::Connected { sender: s } && s
                    == sender),
    {
        match self.position(name) {
            None => {
                proof {
                    if exists|i: int|
                        0 <= i < old(self).entries().len() && old(self).entries()[i].0@ == name@
                            && #[trigger] old(self).entries()[i].1 is Handshake {
                        let i = choose|i: int|
                            0 <= i < old(self).entries().len() && old(self).entries()[i].0@
                                == name@ && #[trigger] old(self).entries()[i].1 is Handshake;
                        assert(self.names()[i] == name@);
                    }
                }
                Err(NodeError::NotInHandshake)
            },
            Some(i) => {
                let in_handshake = match self.nodes[i].1 {
                    Node::Handshake => true,
                    _ => false,
                };
                if !in_handshake {
                    return Err(NodeError::NotInHandshake);
                }
                let (key, _) = self.nodes.remove(i);
                self.nodes.insert(i, (key, Node::Connected { sender }));
                proof {
                    assert(self.nodes@ =~= old(self).nodes@.update(
                        i as int,
                        (old(self).nodes@[i as int].0, Node::Connected { sender }),
                    ));
                    assert(self.names() =~= old(self).names());
                }
                Ok(())
            },
        }
    }

    /// The daemon's side of a new leaf: registers it, in its handshake,
    /// under a fresh name, and returns the handshake to send it (the leaf's
    /// name and this daemon's).
    pub fn begin_handshake(&mut self) -> (r: Result<Handshake, NodeError>)
        requires
            old(self).wf(),
            old(self).my_name().len() > 0,
        ensures
            final(self).wf(),
            final(self).my_name() == old(self).my_name(),
            old(self).no_generated_names() ==> r.is_ok(),
            r matches Ok(h) ==> {
                &&& h.server_name@ == old(self).my_name()
                &&& !old(self).names().contains(h.client_name@)
                &&& final(self).entries() == old(self).entries().push(
                    (h.client_name, Node::Handshake),
                )
            },
            r.is_err() ==> final(self).entries() == old(self).entries(),
    {
        let client_name = self.insert(Node::Handshake)?;
        let server_name = NodeName(self.my_name.0.clone());
        Ok(Handshake { client_name, server_name })
    }

    /// The leaf's side of a handshake: registers its own name and the
    /// daemon's, connected through `sender`. On an error nothing changes.
    pub fn accept_handshake(&mut self, handshake: Handshake, sender: S) -> (r: Result<(), NodeError>)
        requires
            old(self).wf(),
            handshake.client_name@.len() > 0,
            handshake.server_name@.len() > 0,
        ensures
            final(self).wf(),
            r == if old(self).my_name().len() > 0 {
                Err::<(), NodeError>(NodeError::MyNameTaken)
            } else if old(self).names().contains(handshake.client_name@) || old(self).names().contains(
                handshake.server_name@,
            ) || handshake.client_name@ == handshake.server_name@ {
                Err::<(), NodeError>(NodeError::NameInUse)
            } else {
                Ok::<(), NodeError>(())
            },
            r.is_err() ==> final(self).entries() == old(self).entries() && final(self).my_name()
                == old(self).my_name(),
            r.is_ok() ==> {
                &&& final(self).my_name() == handshake.client_name@
                &&& final(self).entries() == old(self).entries().push(
                    (handshake.client_name, Node::MyNode),
                ).push((handshake.server_name, Node::Connected { sender }))
            },
    {
        if !self.my_name.is_empty() {
            return Err(NodeError::MyNameTaken);
        }
        if self.contains(&handshake.client_name) || self.contains(&handshake.server_name)
            || handshake.client_name.same(&handshake.server_name) {
            return Err(NodeError::NameInUse);
        }
        let Handshake { client_name, server_name } = handshake;
        let ghost server_view = server_name@;
        let first = self.insert_with_name(client_name, Node::MyNode);
        proof {
            assert(first.is_ok());
            assert(names_of(self.nodes@) =~= names_of(old(self).nodes@).push(client_name@));
            assert(!names_of(self.nodes@).contains(server_view)) by {
                if names_of(self.nodes@).contains(server_view) {
                    let k = choose|k: int|
                        0 <= k < names_of(self.nodes@).len() && names_of(self.nodes@)[k]
                            == server_view;
                    if k < old(self).nodes@.len() {
                        assert(names_of(old(self).nodes@)[k] == server_view);
                    }
                }
            }
        }
        let second = self.insert_with_name(server_name, Node::Connected { sender });
        assert(second.is_ok());
        Ok(())
    }
}

} // verus!
