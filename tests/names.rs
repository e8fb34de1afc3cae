use once_cell::sync::Lazy;
use rand::rngs::StdRng;
use rand::SeedableRng;
use rsrs::nodes::{Generator, Handshake, Node, NodeError, NodeName, NodeStore};
use std::sync::Mutex;

fn assert_send<T: Send>() {}

#[test]
fn generator_implements_send() {
    assert_send::<Generator>();
}

#[test]
fn generate_random_names() {
    let mut gen = Generator::with_rng(StdRng::from_entropy());
    for _ in 0..100 {
        println!("{}", gen.next_name());
    }
}

static GEN: Lazy<Mutex<Generator>> = Lazy::new(|| Mutex::new(Generator::with_rng(StdRng::from_entropy())));

#[test]
fn global_generator() {
    let mut gen = GEN.lock().unwrap();
    for _ in 0..100 {
        println!("{}", gen.next_name());
    }
}

#[test]
fn names_come_from_the_word_lists() {
    let mut gen = Generator::new(
        vec!["red".to_string()],
        vec!["fox".to_string(), "owl".to_string()],
        StdRng::seed_from_u64(7),
    );
    for _ in 0..20 {
        let n = gen.next_name();
        assert!(n == "red-fox" || n == "red-owl", "{}", n);
    }
}

fn name(s: &str) -> NodeName {
    NodeName::from(s.to_string())
}

#[test]
fn node_store_registers_unique_names() {
    let mut store: NodeStore<u32> = NodeStore::new(Generator::with_rng(StdRng::seed_from_u64(1)));
    assert_eq!(store.insert_with_name(name("root"), Node::MyNode), Ok(()));
    assert_eq!(store.my_name_ref().as_str(), "root");
    assert_eq!(store.insert_with_name(name("other"), Node::MyNode), Err(NodeError::MyNameTaken));
    assert_eq!(store.insert_with_name(name("root"), Node::Handshake), Err(NodeError::NameInUse));
    let name = store.insert(Node::Handshake).unwrap();
    assert!(name.as_str().contains('-'));
    assert!(store.contains(&name));
    assert!(matches!(store.get(&name), Some(Node::Handshake)));
    assert_eq!(store.insert(Node::MyNode), Err(NodeError::MyNameTaken));
}

#[test]
fn handshake_completes_once() {
    let mut store: NodeStore<u32> = NodeStore::new(Generator::with_rng(StdRng::seed_from_u64(2)));
    let leaf = store.insert(Node::Handshake).unwrap();
    assert_eq!(store.complete_handshake(&leaf, 5), Ok(()));
    assert!(matches!(store.get(&leaf), Some(Node::Connected { sender: 5 })));
    assert_eq!(store.complete_handshake(&leaf, 6), Err(NodeError::NotInHandshake));
    assert_eq!(store.complete_handshake(&name("nobody"), 6), Err(NodeError::NotInHandshake));
}

#[test]
fn store_gives_up_when_names_run_out() {
    let gen = Generator::new(vec!["only".to_string()], vec!["one".to_string()], StdRng::seed_from_u64(3));
    let mut store: NodeStore<u32> = NodeStore::new(gen);
    assert_eq!(store.insert(Node::Handshake), Ok(name("only-one")));
    assert_eq!(store.insert(Node::Handshake), Err(NodeError::NoFreeName));
}

#[test]
fn daemon_and_leaf_agree_on_names() {
    let mut daemon: NodeStore<u32> = NodeStore::new(Generator::with_rng(StdRng::seed_from_u64(4)));
    let root = daemon.insert(Node::MyNode).unwrap();
    let hs = daemon.begin_handshake().unwrap();
    assert_eq!(hs.server_name, root);
    assert!(matches!(daemon.get(&hs.client_name), Some(Node::Handshake)));

    let mut leaf: NodeStore<u32> = NodeStore::new(Generator::with_rng(StdRng::seed_from_u64(5)));
    let sent = Handshake { client_name: hs.client_name.clone(), server_name: hs.server_name.clone() };
    assert_eq!(leaf.accept_handshake(sent, 9), Ok(()));
    assert_eq!(leaf.my_name_ref(), &hs.client_name);
    assert!(matches!(leaf.get(&hs.client_name), Some(Node::MyNode)));
    assert!(matches!(leaf.get(&root), Some(Node::Connected { sender: 9 })));
    assert_eq!(daemon.complete_handshake(&hs.client_name, 1), Ok(()));

    let again = Handshake { client_name: name("x-y"), server_name: name("z-w") };
    assert_eq!(leaf.accept_handshake(again, 1), Err(NodeError::MyNameTaken));
}
