use sfu_relay::group::Group;
use sfu_relay::sfu::Sfu;

#[test]
fn members_never_contain_the_caller() {
    let mut g = Group::new();
    g.insert_client(7, 1);
    g.insert_client(7, 2);
    g.insert_client(7, 3);
    g.insert_client(9, 4);
    let members = g.get_addressess(1).unwrap();
    assert_eq!(members, vec![2, 3]);
    assert!(!members.contains(&1));
    let members = g.get_addressess(3).unwrap();
    assert_eq!(members, vec![1, 2]);
    // another group is not mixed in
    assert_eq!(g.get_addressess(4).unwrap(), Vec::<u64>::new());
    // an ungrouped address has no member set
    assert!(g.get_addressess(5).is_none());
}

#[test]
fn a_client_keeps_its_first_group() {
    let mut g = Group::new();
    g.insert_client(7, 1);
    g.insert_client(9, 1);
    assert_eq!(g.group_of(1), Some(7));
}

#[test]
fn group_removal_is_idempotent() {
    let mut g = Group::new();
    g.insert_client(7, 1);
    g.insert_client(7, 2);
    assert!(g.remove_client(1));
    assert!(!g.remove_client(1));
    assert_eq!(g.get_addressess(2).unwrap(), Vec::<u64>::new());
}

#[test]
fn deletion_yields_true_then_false() {
    let mut sfu = Sfu::new();
    sfu.handle_dtls(1, vec![22, 0, 0]);
    assert!(sfu.delete(1));
    assert!(!sfu.delete(1));
    // deleting an address never seen is false as well
    assert!(!sfu.delete(99));
}

#[test]
fn deletion_prunes_group_membership() {
    let mut sfu = Sfu::new();
    sfu.handle_dtls(1, vec![22]);
    sfu.handle_dtls(2, vec![22]);
    sfu.join_group(7, 1);
    sfu.join_group(7, 2);
    assert_eq!(sfu.groups.get_addressess(2).unwrap(), vec![1]);
    assert!(sfu.delete(1));
    assert_eq!(sfu.groups.get_addressess(2).unwrap(), Vec::<u64>::new());
}

#[test]
fn join_for_unknown_address_is_ignored() {
    let mut sfu = Sfu::new();
    sfu.join_group(7, 1);
    assert!(sfu.groups.get_addressess(1).is_none());
    // once the address is known the join sticks
    sfu.handle_dtls(1, vec![22]);
    sfu.join_group(7, 1);
    assert_eq!(sfu.groups.group_of(1), Some(7));
}
