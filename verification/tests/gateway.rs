use assetx::gateway::CTMRWAGateway;
use assetx::types::{Address, Error};

fn addr(id: u64) -> Address {
    Address { id }
}

fn a42(tag: u8) -> String {
    let mut s = String::from("0x");
    for _ in 0..40 {
        s.push((b'0' + (tag % 10)) as char);
    }
    s
}

fn gw() -> CTMRWAGateway {
    let mut g = CTMRWAGateway::new();
    g.initialize(addr(1), String::from("101"), a42(9)).unwrap();
    g
}

#[test]
fn test_initialize_checks() {
    let mut g = CTMRWAGateway::new();
    assert_eq!(
        g.initialize(addr(1), String::from("101"), String::from("0xshort")),
        Err(Error::InvalidAddressLength)
    );
    g.initialize(addr(1), String::from("101"), a42(9)).unwrap();
    assert_eq!(
        g.initialize(addr(1), String::from("101"), a42(9)),
        Err(Error::AlreadyInitialized)
    );
    // the gateway seeds its own entry
    assert_eq!(g.get_chain_count(), 1);
    assert_eq!(g.get_chain_contract(String::from("101")), Some(a42(9)));
}

#[test]
fn test_add_chain_contract_upserts() {
    let mut g = gw();
    g.add_chain_contract(
        addr(1),
        true,
        vec![String::from("1"), String::from("2")],
        vec![a42(1), a42(2)],
    )
    .unwrap();
    assert_eq!(g.get_chain_count(), 3);
    assert_eq!(g.get_chain_contract(String::from("1")), Some(a42(1)));
    assert_eq!(g.get_chain_contract(String::from("2")), Some(a42(2)));
    assert_eq!(g.get_chain_contract(String::from("7")), None);
    // overwrite on match, append otherwise
    g.add_chain_contract(
        addr(1),
        true,
        vec![String::from("2"), String::from("3")],
        vec![a42(5), a42(3)],
    )
    .unwrap();
    assert_eq!(g.get_chain_count(), 4);
    assert_eq!(g.get_chain_contract(String::from("2")), Some(a42(5)));
    assert_eq!(g.get_chain_contract(String::from("3")), Some(a42(3)));
    let (cid, cstr) = g.get_chain_contract_at(3).unwrap();
    assert_eq!(cid, String::from("3"));
    assert_eq!(cstr, a42(3));
    assert_eq!(g.get_chain_contract_at(4), None);
}

#[test]
fn test_add_chain_contract_admission() {
    let mut g = gw();
    assert_eq!(
        g.add_chain_contract(addr(1), false, vec![String::from("1")], vec![a42(1)]),
        Err(Error::Unauthorized)
    );
    assert_eq!(
        g.add_chain_contract(addr(2), true, vec![String::from("1")], vec![a42(1)]),
        Err(Error::Unauthorized)
    );
    assert_eq!(
        g.add_chain_contract(addr(1), true, vec![String::from("1")], vec![]),
        Err(Error::LengthMismatch)
    );
    assert_eq!(
        g.add_chain_contract(
            addr(1),
            true,
            vec![String::from("1")],
            vec![String::from("0xnot42")]
        ),
        Err(Error::InvalidAddressLength)
    );
    assert_eq!(g.get_chain_count(), 1);

    let mut blank = CTMRWAGateway::new();
    assert_eq!(
        blank.add_chain_contract(addr(1), true, vec![], vec![]),
        Err(Error::ConfigMissing)
    );
}

#[test]
fn test_attach_rwa_x_tracks_chains() {
    let mut g = gw();
    g.attach_rwa_x(
        addr(1),
        true,
        1,
        1,
        vec![String::from("1"), String::from("2")],
        vec![a42(1), a42(2)],
    )
    .unwrap();
    assert_eq!(g.get_rwa_x_count(1, 1), 2);
    assert_eq!(g.get_attached_rwa_x(1, 1, String::from("1")), Some(a42(1)));
    assert_eq!(g.get_attached_rwa_x(1, 1, String::from("9")), None);
    assert!(g.exist_rwa_x_chain(1, 1, String::from("2")));
    assert!(!g.exist_rwa_x_chain(1, 1, String::from("9")));
    assert_eq!(g.get_all_rwa_x_chains(1, 1), vec![String::from("1"), String::from("2")]);
    // re-attaching a known chain overwrites the row without
    // duplicating the chain id
    g.attach_rwa_x(addr(1), true, 1, 1, vec![String::from("2")], vec![a42(7)])
        .unwrap();
    assert_eq!(g.get_rwa_x_count(1, 1), 2);
    assert_eq!(g.get_attached_rwa_x(1, 1, String::from("2")), Some(a42(7)));
    assert_eq!(g.get_all_rwa_x_chains(1, 1), vec![String::from("1"), String::from("2")]);
    let (cid, cstr) = g.get_attached_rwa_x_at(1, 1, 1).unwrap();
    assert_eq!(cid, String::from("2"));
    assert_eq!(cstr, a42(7));
    assert_eq!(g.get_attached_rwa_x_at(1, 1, 2), None);
    // a different classification is a different table
    assert_eq!(g.get_rwa_x_count(2, 1), 0);
    assert_eq!(g.get_all_rwa_x_chains(2, 1), Vec::<String>::new());
}

#[test]
fn test_attach_storage_manager() {
    let mut g = gw();
    g.attach_storage_manager(
        addr(1),
        true,
        1,
        1,
        vec![String::from("1")],
        vec![a42(4)],
    )
    .unwrap();
    assert_eq!(g.get_storage_manager_count(1, 1), 1);
    assert_eq!(
        g.get_attached_storage_manager(1, 1, String::from("1")),
        Some(a42(4))
    );
    let (cid, cstr) = g.get_attached_storage_manager_at(1, 1, 0).unwrap();
    assert_eq!(cid, String::from("1"));
    assert_eq!(cstr, a42(4));
    assert_eq!(g.get_attached_storage_manager_at(1, 1, 1), None);
    assert_eq!(g.get_attached_storage_manager(1, 1, String::from("9")), None);
    assert_eq!(
        g.attach_storage_manager(addr(9), true, 1, 1, vec![], vec![]),
        Err(Error::Unauthorized)
    );
}

#[test]
fn test_attach_sentry_manager() {
    let mut g = gw();
    g.attach_sentry_manager(
        addr(1),
        true,
        3,
        2,
        vec![String::from("5"), String::from("5")],
        vec![a42(4), a42(6)],
    )
    .unwrap();
    // the second pair of the same batch overwrote the first
    assert_eq!(g.get_sentry_manager_count(3, 2), 1);
    assert_eq!(
        g.get_attached_sentry_manager(3, 2, String::from("5")),
        Some(a42(6))
    );
    assert_eq!(g.get_sentry_manager_count(1, 1), 0);
    assert_eq!(
        g.attach_sentry_manager(
            addr(1),
            true,
            3,
            2,
            vec![String::from("5")],
            vec![String::from("0xnot42")]
        ),
        Err(Error::InvalidAddressLength)
    );
    assert_eq!(g.get_attached_sentry_manager(3, 2, String::from("5")), Some(a42(6)));
}

#[test]
fn test_c3_fallback_acknowledges() {
    let g = gw();
    assert!(g.c3_fallback(vec![1, 2, 3, 4], vec![5, 6], vec![7]));
}
