use turn_rs::clock::has_elapsed;
use turn_rs::router::nodes::Node;

const SECOND: u128 = 1_000_000_000;

fn sample() -> Node {
    Node::new(0, "test".to_string(), [0u8; 16], "test".to_string(), 0)
}

#[test]
fn node_new_has_default_lifetime_and_empty_lists() {
    let node = Node::new(7, "alice".to_string(), [9u8; 16], "secret".to_string(), 42);
    assert_eq!(node.mark, 7);
    assert_eq!(node.username.as_str(), "alice");
    assert_eq!(node.password.as_str(), "secret");
    assert_eq!(node.secret.as_slice(), &[9u8; 16]);
    assert_eq!(node.lifetime, 600);
    assert_eq!(node.timer, 42);
    assert!(node.ports.is_empty());
    assert!(node.channels.is_empty());
}

#[test]
fn node_set_lifetime_zero_is_dead_at_once() {
    let mut node = sample();
    node.set_lifetime(0, 5 * SECOND);
    assert!(node.is_death(5 * SECOND));
    node.set_lifetime(600, 5 * SECOND);
    assert!(!node.is_death(5 * SECOND));
}

#[test]
fn node_dies_when_its_lifetime_has_passed() {
    let mut node = sample();
    node.set_lifetime(600, 10 * SECOND);
    assert!(!node.is_death(609 * SECOND));
    assert!(!node.is_death(610 * SECOND - 1));
    assert!(node.is_death(610 * SECOND));
    assert!(node.is_death(10_000 * SECOND));
}

#[test]
fn node_is_not_dead_before_its_timer() {
    let mut node = sample();
    node.set_lifetime(1, 10 * SECOND);
    assert!(!node.is_death(3 * SECOND));
}

#[test]
fn node_get_secret_hands_back_the_key() {
    let node = Node::new(0, "test".to_string(), [3u8; 16], "test".to_string(), 0);
    let secret = node.get_secret();
    assert_eq!(secret.as_slice(), &[3u8; 16]);
}

#[test]
fn node_push_port_keeps_each_port_once() {
    let mut node = sample();
    node.push_port(43196);
    assert_eq!(&node.ports, &[43196]);
    node.push_port(43197);
    node.push_port(43196);
    assert_eq!(&node.ports, &[43196, 43197]);
}

#[test]
fn node_push_channel_keeps_each_channel_once() {
    let mut node = sample();
    node.push_channel(0x4000);
    assert_eq!(&node.channels, &[0x4000]);
    node.push_channel(0x4000);
    node.push_channel(0x4001);
    assert_eq!(&node.channels, &[0x4000, 0x4001]);
}

#[test]
fn node_clone_is_the_same_session() {
    let mut node = sample();
    node.push_port(50000);
    node.push_channel(0x4002);
    let copy = node.clone();
    assert_eq!(copy.mark, node.mark);
    assert_eq!(copy.ports, node.ports);
    assert_eq!(copy.channels, node.channels);
    assert_eq!(copy.username, node.username);
    assert_eq!(copy.password, node.password);
    assert_eq!(copy.secret.as_slice(), node.secret.as_slice());
    assert_eq!(copy.lifetime, node.lifetime);
    assert_eq!(copy.timer, node.timer);
}

#[test]
fn has_elapsed_counts_whole_seconds() {
    assert!(has_elapsed(0, 0, 0));
    assert!(!has_elapsed(0, SECOND - 1, 1));
    assert!(has_elapsed(0, SECOND, 1));
    assert!(has_elapsed(7, 2 * SECOND + 7, 2));
    assert!(!has_elapsed(7, 2 * SECOND + 6, 2));
    assert!(has_elapsed(5 * SECOND, SECOND, 0));
    assert!(!has_elapsed(5 * SECOND, SECOND, 1));
}
