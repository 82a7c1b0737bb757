use turn_rs::address::Address;
use turn_rs::address::IpAddress;
use turn_rs::router::names::compare_names;
use turn_rs::router::names::NameOrder;
use turn_rs::router::owners::OwnerMap;

fn a4(ip: u32, port: u16) -> Address {
    Address::new(IpAddress::V4(ip), port)
}

#[test]
fn addresses_order_by_family_then_number_then_port() {
    let low = a4(1, 9);
    let high = a4(2, 1);
    assert!(low.is_before(&high));
    assert!(!high.is_before(&low));
    assert!(!low.is_before(&low));
    assert!(a4(1, 1).is_before(&a4(1, 2)));
    let six = Address::new(IpAddress::V6(0), 0);
    assert!(a4(u32::MAX, u16::MAX).is_before(&six));
    assert!(!six.is_before(&a4(0, 0)));
    let big = Address::new(IpAddress::V6(u128::MAX), 1);
    assert!(six.is_before(&big));
    assert!(Address::new(IpAddress::V6(5), 1).is_before(&Address::new(IpAddress::V6(5), 2)));
}

#[test]
fn addresses_compare_by_ip() {
    assert!(a4(1, 1).same_ip(&a4(1, 2)));
    assert!(!a4(1, 1).same_ip(&a4(2, 1)));
    assert!(!a4(1, 1).same_ip(&Address::new(IpAddress::V6(1), 1)));
    assert_eq!(IpAddress::v4(203, 0, 113, 5), IpAddress::V4(0xCB00_7105));
}

#[test]
fn names_compare_like_their_bytes() {
    assert_eq!(compare_names("a", "b"), NameOrder::Before);
    assert_eq!(compare_names("b", "a"), NameOrder::After);
    assert_eq!(compare_names("abc", "abc"), NameOrder::Same);
    assert_eq!(compare_names("", ""), NameOrder::Same);
    assert_eq!(compare_names("", "a"), NameOrder::Before);
    assert_eq!(compare_names("ab", "abc"), NameOrder::Before);
    assert_eq!(compare_names("abc", "ab"), NameOrder::After);
    assert_eq!(compare_names("Z", "a"), NameOrder::Before);
    assert_eq!(compare_names("z", "é"), NameOrder::Before);
}

#[test]
fn owner_map_insert_get_remove() {
    let mut map: OwnerMap<u32> = OwnerMap::new();
    assert_eq!(map.len(), 0);
    assert_eq!(map.insert(a4(5, 1), 50), None);
    assert_eq!(map.insert(a4(1, 1), 10), None);
    assert_eq!(map.insert(a4(3, 1), 30), None);
    assert_eq!(map.insert(a4(3, 1), 31), Some(30));
    assert_eq!(map.len(), 3);
    assert_eq!(map.get(&a4(1, 1)), Some(&10));
    assert_eq!(map.get(&a4(3, 1)), Some(&31));
    assert_eq!(map.get(&a4(5, 1)), Some(&50));
    assert_eq!(map.get(&a4(4, 1)), None);
    assert!(map.contains(&a4(5, 1)));
    assert!(!map.contains(&a4(5, 2)));
    assert_eq!(map.owner_at(0), a4(1, 1));
    assert_eq!(map.owner_at(1), a4(3, 1));
    assert_eq!(map.owner_at(2), a4(5, 1));
    assert_eq!(map.remove(&a4(3, 1)), Some(31));
    assert_eq!(map.remove(&a4(3, 1)), None);
    assert_eq!(map.len(), 2);
    assert_eq!(map.owner_at(1), a4(5, 1));
    assert_eq!(map.get(&a4(3, 1)), None);
}
