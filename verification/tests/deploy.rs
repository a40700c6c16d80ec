use assetx::codec;
use assetx::deployer::CTMRwaDeployer;
use assetx::factory::CtmRwa001Factory;
use assetx::registry::CTMRWAMap;
use assetx::rwa_x::{CTMRwa001X, SlotDetails, TokenDetails};
use assetx::types::{Address, Bytes32, Error};

fn addr(id: u64) -> Address {
    Address { id }
}

fn admin_str() -> String {
    String::from("0x1234567890123456789012345678901234567890")
}

fn id_bytes(b: u8) -> [u8; 32] {
    [b; 32]
}

fn bytes32(b: u8) -> Bytes32 {
    let half = u128::from_be_bytes([b; 16]);
    Bytes32 { hi: half, lo: half }
}

fn valid_payload(id_byte: u8) -> Vec<u8> {
    let tokens = vec![
        ethabi::Token::Uint(ethabi::Uint::from_big_endian(&id_bytes(id_byte))),
        ethabi::Token::Uint(ethabi::Uint::from(1u32)),
        ethabi::Token::Uint(ethabi::Uint::from(1u32)),
        ethabi::Token::String(admin_str()),
        ethabi::Token::String(String::from("CTMRWA Token")),
        ethabi::Token::String(String::from("RWA")),
        ethabi::Token::FixedBytes(vec![18u8]),
        ethabi::Token::String(String::from("IPFS")),
    ];
    ethabi::encode(&tokens)
}

#[test]
fn test_decode_valid_payload() {
    let payload = valid_payload(6);
    let args = codec::decode_ctm_arg(&payload).unwrap();
    assert_eq!(args.rwa_id, bytes32(6));
    assert_eq!(args.rwa_type, 1);
    assert_eq!(args.version, 1);
    assert_eq!(args.token_admin_from, admin_str());
    assert_eq!(args.token_name, String::from("CTMRWA Token"));
    assert_eq!(args.symbol, String::from("RWA"));
    assert_eq!(args.decimals, 18);
    assert_eq!(args.base_uri, String::from("IPFS"));
}

#[test]
fn test_decode_rejects_bad_payloads() {
    // garbage bytes
    let r = codec::decode_ctm_arg(&vec![1u8, 2, 3]);
    assert!(matches!(r, Err(Error::DecodeError)));

    // an admin string that is not 42 characters
    let tokens = vec![
        ethabi::Token::Uint(ethabi::Uint::from_big_endian(&id_bytes(6))),
        ethabi::Token::Uint(ethabi::Uint::from(1u32)),
        ethabi::Token::Uint(ethabi::Uint::from(1u32)),
        ethabi::Token::String(String::from("0x1234")),
        ethabi::Token::String(String::from("CTMRWA Token")),
        ethabi::Token::String(String::from("RWA")),
        ethabi::Token::FixedBytes(vec![18u8]),
        ethabi::Token::String(String::from("IPFS")),
    ];
    let r = codec::decode_ctm_arg(&ethabi::encode(&tokens));
    assert!(matches!(r, Err(Error::DecodeError)));

    // a classification that does not fit 32 bits
    let tokens = vec![
        ethabi::Token::Uint(ethabi::Uint::from_big_endian(&id_bytes(6))),
        ethabi::Token::Uint(ethabi::Uint::MAX),
        ethabi::Token::Uint(ethabi::Uint::from(1u32)),
        ethabi::Token::String(admin_str()),
        ethabi::Token::String(String::from("CTMRWA Token")),
        ethabi::Token::String(String::from("RWA")),
        ethabi::Token::FixedBytes(vec![18u8]),
        ethabi::Token::String(String::from("IPFS")),
    ];
    let r = codec::decode_ctm_arg(&ethabi::encode(&tokens));
    assert!(matches!(r, Err(Error::DecodeError)));

    // too few fields
    let tokens = vec![
        ethabi::Token::Uint(ethabi::Uint::from_big_endian(&id_bytes(6))),
        ethabi::Token::Uint(ethabi::Uint::from(1u32)),
        ethabi::Token::Uint(ethabi::Uint::from(1u32)),
        ethabi::Token::String(admin_str()),
        ethabi::Token::String(String::from("CTMRWA Token")),
        ethabi::Token::String(String::from("RWA")),
        ethabi::Token::FixedBytes(vec![18u8]),
    ];
    let r = codec::decode_ctm_arg(&ethabi::encode(&tokens));
    assert!(matches!(r, Err(Error::DecodeError)));
}

#[test]
fn test_bytes32_round_trip() {
    let id = Bytes32 {
        hi: 0x0102030405060708090a0b0c0d0e0f10,
        lo: 0x1112131415161718191a1b1c1d1e1f20,
    };
    let bytes = codec::bytes32_to_be(id);
    assert_eq!(bytes.len(), 32);
    assert_eq!(bytes[0], 0x01);
    assert_eq!(bytes[15], 0x10);
    assert_eq!(bytes[16], 0x11);
    assert_eq!(bytes[31], 0x20);
    let back = codec::bytes32_of_be(&bytes);
    assert_eq!(back, id);
}

fn deployment() -> (CTMRwaDeployer, CtmRwa001Factory, CTMRWAMap) {
    let gov = addr(1);
    let rwa_x_addr = addr(2);
    let dep_addr = addr(3);
    let factory_addr = addr(4);
    let gateway = addr(5);
    let fee = addr(6);
    let x_addr = addr(2);
    let mut dep = CTMRwaDeployer::new(dep_addr);
    dep.initialize(gov, gateway, fee, rwa_x_addr, addr(8)).unwrap();
    dep.set_token_hash(gov, true, 1, 1, bytes32(0xAA)).unwrap();
    dep.set_factory(gov, true, 1, 1, factory_addr).unwrap();
    let mut factory = CtmRwa001Factory::new();
    factory.initialize(1, 1, dep_addr).unwrap();
    let mut map = CTMRWAMap::new();
    map.initialize(gateway, x_addr, String::from("1")).unwrap();
    map.set_ctm_rwa_deployer(x_addr, true, dep_addr, gateway, x_addr)
        .unwrap();
    (dep, factory, map)
}

#[test]
fn test_deploy_end_to_end() {
    let (dep, mut factory, mut map) = deployment();
    let token_admin = addr(10);
    let ledger_addr = addr(100);
    let payload = valid_payload(6);
    let (out_addr, ledger) = dep
        .deploy(
            &mut factory,
            &mut map,
            true,
            bytes32(6),
            1,
            1,
            &payload,
            ledger_addr,
            token_admin,
        )
        .unwrap();
    assert_eq!(out_addr, ledger_addr);
    assert_eq!(ledger.token_admin, Some(token_admin));
    assert_eq!(ledger.rwa_type, 1);
    assert_eq!(ledger.version, 1);
    assert_eq!(ledger.rwa_id, bytes32(6));
    assert_eq!(ledger.name().unwrap(), String::from("CTMRWA Token"));
    assert_eq!(ledger.value_decimals().unwrap(), 18);
    assert_eq!(factory.get_contract(bytes32(6)), Some(ledger_addr));
    assert_eq!(map.get_token_contract(bytes32(6), 1, 1), Ok(Some(ledger_addr)));
    assert_eq!(map.get_token_id(ledger_addr, 1, 1), Ok(Some(bytes32(6))));
    // the coordination contract reads the same binding through the
    // registry
    let mut x = CTMRwa001X::new();
    x.initialize(addr(1), addr(5), addr(6)).unwrap();
    assert_eq!(
        x.get_token_contract(&map, bytes32(6), 1, 1),
        Err(Error::ConfigMissing)
    );
    x.set_ctm_map(addr(1), true, addr(8)).unwrap();
    assert_eq!(
        x.get_token_contract(&map, bytes32(6), 1, 1),
        Ok(Some(ledger_addr))
    );
    assert_eq!(x.get_token_contract(&map, bytes32(7), 1, 1), Ok(None));
    assert_eq!(
        x.get_token_contract(&map, bytes32(6), 2, 1),
        Err(Error::ClassificationMismatch)
    );
}

#[test]
fn test_deploy_idempotence() {
    let (dep, mut factory, mut map) = deployment();
    let payload = valid_payload(6);
    dep.deploy(
        &mut factory,
        &mut map,
        true,
        bytes32(6),
        1,
        1,
        &payload,
        addr(100),
        addr(10),
    )
    .unwrap();
    // the same decoded asset id again: the factory refuses, nothing
    // changes
    let r = dep.deploy(
        &mut factory,
        &mut map,
        true,
        bytes32(6),
        1,
        1,
        &payload,
        addr(101),
        addr(10),
    );
    assert!(matches!(r, Err(Error::AlreadyDeployed)));
    assert_eq!(map.contracts.len(), 1);
    assert_eq!(factory.deployed_contracts.len(), 1);
    assert_eq!(map.get_token_contract(bytes32(6), 1, 1), Ok(Some(addr(100))));
    // a fresh decoded id under an already-bound registry id: the
    // registry refuses, nothing changes
    let payload7 = valid_payload(7);
    let r = dep.deploy(
        &mut factory,
        &mut map,
        true,
        bytes32(6),
        1,
        1,
        &payload7,
        addr(102),
        addr(10),
    );
    assert!(matches!(r, Err(Error::AlreadyBound)));
    assert_eq!(map.contracts.len(), 1);
    assert_eq!(factory.deployed_contracts.len(), 1);
}

#[test]
fn test_deploy_admission() {
    let (dep, mut factory, mut map) = deployment();
    let payload = valid_payload(6);
    // missing coordination authorization
    let r = dep.deploy(
        &mut factory,
        &mut map,
        false,
        bytes32(6),
        1,
        1,
        &payload,
        addr(100),
        addr(10),
    );
    assert!(matches!(r, Err(Error::Unauthorized)));
    // no hash or factory registered for this classification
    let r = dep.deploy(
        &mut factory,
        &mut map,
        true,
        bytes32(6),
        9,
        9,
        &payload,
        addr(100),
        addr(10),
    );
    assert!(matches!(r, Err(Error::ConfigMissing)));
    // a payload that does not decode
    let r = dep.deploy(
        &mut factory,
        &mut map,
        true,
        bytes32(6),
        1,
        1,
        &vec![0u8; 7],
        addr(100),
        addr(10),
    );
    assert!(matches!(r, Err(Error::DecodeError)));
    assert_eq!(map.contracts.len(), 0);
    assert_eq!(factory.deployed_contracts.len(), 0);
}

#[test]
fn test_deploy_classification_mismatch() {
    let (mut dep, mut factory, mut map) = deployment();
    let gov = addr(1);
    dep.set_token_hash(gov, true, 2, 1, bytes32(0xBB)).unwrap();
    dep.set_factory(gov, true, 2, 1, addr(4)).unwrap();
    // the payload self-reports (1, 1) but (2, 1) was requested
    let payload = valid_payload(6);
    let r = dep.deploy(
        &mut factory,
        &mut map,
        true,
        bytes32(6),
        2,
        1,
        &payload,
        addr(100),
        addr(10),
    );
    assert!(matches!(r, Err(Error::ClassificationMismatch)));
}

#[test]
fn test_factory_admission() {
    let mut factory = CtmRwa001Factory::new();
    let payload = valid_payload(6);
    let r = factory.deploy(addr(3), bytes32(0xAA), &payload, addr(100), addr(10));
    assert!(matches!(r, Err(Error::ConfigMissing)));
    factory.initialize(1, 1, addr(3)).unwrap();
    assert_eq!(
        factory.initialize(1, 1, addr(3)),
        Err(Error::AlreadyInitialized)
    );
    let r = factory.deploy(addr(9), bytes32(0xAA), &payload, addr(100), addr(10));
    assert!(matches!(r, Err(Error::Unauthorized)));
    assert_eq!(factory.get_contract(bytes32(6)), None);
}

#[test]
fn test_registry_admission() {
    let gateway = addr(5);
    let x_addr = addr(2);
    let dep_addr = addr(3);
    let mut map = CTMRWAMap::new();
    map.initialize(gateway, x_addr, String::from("1")).unwrap();
    assert_eq!(
        map.initialize(gateway, x_addr, String::from("1")),
        Err(Error::AlreadyInitialized)
    );
    // only the coordination contract may reconfigure
    assert_eq!(
        map.set_ctm_rwa_deployer(addr(9), true, dep_addr, gateway, x_addr),
        Err(Error::Unauthorized)
    );
    assert_eq!(
        map.set_ctm_rwa_deployer(x_addr, false, dep_addr, gateway, x_addr),
        Err(Error::Unauthorized)
    );
    // no deployer configured yet
    assert_eq!(
        map.attach_contracts(dep_addr, true, bytes32(6), 1, 1, addr(100)),
        Err(Error::ConfigMissing)
    );
    map.set_ctm_rwa_deployer(x_addr, true, dep_addr, gateway, x_addr)
        .unwrap();
    // wrong classification
    assert_eq!(
        map.attach_contracts(dep_addr, true, bytes32(6), 2, 1, addr(100)),
        Err(Error::ClassificationMismatch)
    );
    assert_eq!(map.get_token_id(addr(100), 2, 1), Err(Error::ClassificationMismatch));
    // wrong caller
    assert_eq!(
        map.attach_contracts(addr(9), true, bytes32(6), 1, 1, addr(100)),
        Err(Error::Unauthorized)
    );
    map.attach_contracts(dep_addr, true, bytes32(6), 1, 1, addr(100))
        .unwrap();
    // both directions are immutable once bound
    assert_eq!(
        map.attach_contracts(dep_addr, true, bytes32(6), 1, 1, addr(101)),
        Err(Error::AlreadyBound)
    );
    assert_eq!(
        map.attach_contracts(dep_addr, true, bytes32(7), 1, 1, addr(100)),
        Err(Error::AlreadyBound)
    );
    // the side tables are never written
    assert_eq!(map.get_dividend_contract(bytes32(6), 1, 1), Ok(None));
    assert_eq!(map.get_storage_contract(bytes32(6), 1, 1), Ok(None));
    assert_eq!(map.get_sentry_contract(bytes32(6), 1, 1), Ok(None));
}

#[test]
fn test_deploy_all_validation() {
    let x = CTMRwa001X::new();
    let details = TokenDetails {
        token_name: String::from("CTMRWA Token"),
        token_symbol: String::from("RWA"),
        token_decimals: 18,
        base_uri: String::from("IPFS"),
    };
    // extending an existing series needs a non-zero id
    let r = x.deploy_all_ctm_rwa001_x(
        addr(1),
        false,
        Bytes32 { hi: 0, lo: 0 },
        1,
        1,
        details,
        vec![String::from("1")],
        String::from("FEE"),
    );
    assert_eq!(r, Err(Error::IncorrectCallLogic));
    // creating a fresh series needs the zero id
    let details = TokenDetails {
        token_name: String::from("CTMRWA Token"),
        token_symbol: String::from("RWA"),
        token_decimals: 18,
        base_uri: String::from("IPFS"),
    };
    let r = x.deploy_all_ctm_rwa001_x(
        addr(1),
        true,
        bytes32(6),
        1,
        1,
        details,
        vec![String::from("1")],
        String::from("FEE"),
    );
    assert_eq!(r, Err(Error::IncorrectCallLogic));
    // a too-short name
    let details = TokenDetails {
        token_name: String::from("Short"),
        token_symbol: String::from("RWA"),
        token_decimals: 18,
        base_uri: String::from("IPFS"),
    };
    let r = x.deploy_all_ctm_rwa001_x(
        addr(1),
        true,
        Bytes32 { hi: 0, lo: 0 },
        1,
        1,
        details,
        vec![String::from("1")],
        String::from("FEE"),
    );
    assert_eq!(r, Err(Error::InvalidNameLength));
    // a well-formed fresh-series request
    let details = TokenDetails {
        token_name: String::from("CTMRWA Token"),
        token_symbol: String::from("RWA"),
        token_decimals: 18,
        base_uri: String::from("IPFS"),
    };
    let r = x.deploy_all_ctm_rwa001_x(
        addr(1),
        true,
        Bytes32 { hi: 0, lo: 0 },
        1,
        1,
        details,
        vec![String::from("1")],
        String::from("FEE"),
    );
    assert_eq!(r, Ok(()));
}

#[test]
fn test_x_governance() {
    let mut x = CTMRwa001X::new();
    assert_eq!(
        x.set_governor(addr(1), true, addr(2)),
        Err(Error::ConfigMissing)
    );
    x.initialize(addr(1), addr(5), addr(6)).unwrap();
    assert_eq!(
        x.initialize(addr(1), addr(5), addr(6)),
        Err(Error::AlreadyInitialized)
    );
    assert_eq!(
        x.set_governor(addr(9), true, addr(2)),
        Err(Error::Unauthorized)
    );
    assert_eq!(
        x.set_governor(addr(1), false, addr(2)),
        Err(Error::Unauthorized)
    );
    x.set_ctm_gateway(addr(1), true, addr(7)).unwrap();
    x.set_fee_manager(addr(1), true, addr(8)).unwrap();
    x.set_ctm_map(addr(1), true, addr(9)).unwrap();
    x.set_ctm_deployer(addr(1), true, addr(10)).unwrap();
    x.set_governor(addr(1), true, addr(2)).unwrap();
    assert_eq!(x.gov, addr(2));
    assert_eq!(x.gateway, addr(7));
    assert_eq!(x.fee_manager, addr(8));
    assert_eq!(x.ctm_rwa_map, Some(addr(9)));
    assert_eq!(x.ctm_rwa_deployer, Some(addr(10)));
}

#[test]
fn test_deployer_governance() {
    let mut dep = CTMRwaDeployer::new(addr(3));
    assert_eq!(
        dep.set_token_hash(addr(1), true, 1, 1, bytes32(1)),
        Err(Error::ConfigMissing)
    );
    dep.initialize(addr(1), addr(5), addr(6), addr(2), addr(8)).unwrap();
    assert_eq!(
        dep.initialize(addr(1), addr(5), addr(6), addr(2), addr(8)),
        Err(Error::AlreadyInitialized)
    );
    assert_eq!(
        dep.set_factory(addr(9), true, 1, 1, addr(4)),
        Err(Error::Unauthorized)
    );
    assert_eq!(
        dep.set_factory(addr(1), false, 1, 1, addr(4)),
        Err(Error::Unauthorized)
    );
    // registering twice overwrites
    dep.set_token_hash(addr(1), true, 1, 1, bytes32(1)).unwrap();
    dep.set_token_hash(addr(1), true, 1, 1, bytes32(2)).unwrap();
    assert_eq!(dep.token_hashes.len(), 1);
    assert_eq!(dep.token_hashes[0].hash, bytes32(2));
    dep.set_governor(addr(1), true, addr(11)).unwrap();
    assert_eq!(dep.gov, addr(11));
}

#[test]
fn test_deploy_local_requires_deployer_config() {
    let x = CTMRwa001X::new();
    let (dep, mut factory, mut map) = deployment();
    let details = TokenDetails {
        token_name: String::from("CTMRWA Token"),
        token_symbol: String::from("RWA"),
        token_decimals: 18,
        base_uri: String::from("IPFS"),
    };
    let slots = SlotDetails { slot_numbers: vec![], slot_names: vec![] };
    let r = x.deploy_local_ctm_rwa001(
        &dep,
        &mut factory,
        &mut map,
        true,
        bytes32(9),
        details,
        slots,
        admin_str(),
        addr(10),
        addr(200),
    );
    assert!(matches!(r, Err(Error::ConfigMissing)));
}

#[test]
fn test_deploy_local_payload_shape() {
    let mut x = CTMRwa001X::new();
    x.initialize(addr(1), addr(5), addr(6)).unwrap();
    x.set_ctm_deployer(addr(1), true, addr(3)).unwrap();
    let (dep, mut factory, mut map) = deployment();
    let details = TokenDetails {
        token_name: String::from("CTMRWA Token"),
        token_symbol: String::from("RWA"),
        token_decimals: 18,
        base_uri: String::from("IPFS"),
    };
    let slots = SlotDetails { slot_numbers: vec![1], slot_names: vec![String::from("Gold")] };
    // the locally encoded payload does not follow the factory's
    // decode schema, so the chain stops at the decode step and the
    // factory and registry stay untouched
    let r = x.deploy_local_ctm_rwa001(
        &dep,
        &mut factory,
        &mut map,
        true,
        bytes32(9),
        details,
        slots,
        admin_str(),
        addr(10),
        addr(200),
    );
    assert!(matches!(r, Err(Error::DecodeError)));
    assert_eq!(factory.deployed_contracts.len(), 0);
    assert_eq!(map.contracts.len(), 0);
}
