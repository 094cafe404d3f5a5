use kv_typed::backend::memory::Mem;
use kv_typed::endpoints::{DbsReaderImpl, DunpV1Db};
use kv_typed::error::KvResult;
use kv_typed::values::peer_card::PeerCardDbV1;

#[test]
fn test_empty_endpoints() -> KvResult<()> {
    // Populate DB
    let mut dunp_db = DunpV1Db::new(Mem::new());
    let db_reader = DbsReaderImpl::mem();
    let pk = [0u8; 32];

    dunp_db.peers_old.upsert(pk, PeerCardDbV1::default())?;

    // Request Data
    let api_list = vec!["GVA".to_owned()];
    assert_eq!(
        db_reader.endpoints_(&dunp_db, api_list)?,
        Vec::<String>::new()
    );

    Ok(())
}

#[test]
fn test_endpoints_with_empty_api_list() -> KvResult<()> {
    let dummy_endpoint = "GVA S domain.tld 443 gva";

    // Populate DB
    let mut dunp_db = DunpV1Db::new(Mem::new());
    let db_reader = DbsReaderImpl::mem();
    let pk = [0u8; 32];
    let peer = PeerCardDbV1 {
        endpoints: vec![dummy_endpoint.to_owned()],
        ..Default::default()
    };

    dunp_db.peers_old.upsert(pk, peer)?;

    // Request Data
    let api_list = vec![];
    assert_eq!(
        db_reader.endpoints_(&dunp_db, api_list)?,
        Vec::<String>::new()
    );

    Ok(())
}

#[test]
fn test_single_peer_endpoints() -> KvResult<()> {
    let dummy_endpoint = "GVA S domain.tld 443 gva";

    // Populate DB
    let mut dunp_db = DunpV1Db::new(Mem::new());
    let db_reader = DbsReaderImpl::mem();
    let pk = [0u8; 32];
    let peer = PeerCardDbV1 {
        endpoints: vec![dummy_endpoint.to_owned()],
        ..Default::default()
    };

    dunp_db.peers_old.upsert(pk, peer)?;

    // Request Data
    let api_list = vec!["GVA".to_owned()];
    assert_eq!(
        db_reader.endpoints_(&dunp_db, api_list)?,
        vec![dummy_endpoint.to_owned()]
    );

    Ok(())
}

#[test]
fn endpoints_are_picked_by_interface_in_the_order_of_the_peers() -> KvResult<()> {
    let mut dunp_db = DunpV1Db::new(Mem::new());
    let db_reader = DbsReaderImpl::mem();
    // stored out of order: the peers are read in the order of their keys
    dunp_db.peers_old.upsert(
        [2u8; 32],
        PeerCardDbV1 {
            endpoints: vec![
                "BMAS second.tld 443".to_owned(),
                "GVA S second.tld 443 gva".to_owned(),
                "GVAS second.tld 443".to_owned(),
                "GVA".to_owned(),
            ],
            ..Default::default()
        },
    )?;
    dunp_db.peers_old.upsert(
        [1u8; 32],
        PeerCardDbV1 {
            endpoints: vec![
                "GVA first.tld 80".to_owned(),
                "WS2P abcd first.tld 20901".to_owned(),
                " GVA first.tld 81".to_owned(),
            ],
            ..Default::default()
        },
    )?;

    assert_eq!(
        db_reader.endpoints_(&dunp_db, vec!["GVA".to_owned()])?,
        vec!["GVA first.tld 80".to_owned(), "GVA S second.tld 443 gva".to_owned()]
    );
    assert_eq!(
        db_reader.endpoints_(&dunp_db, vec!["WS2P".to_owned(), "BMAS".to_owned()])?,
        vec!["WS2P abcd first.tld 20901".to_owned(), "BMAS second.tld 443".to_owned()]
    );
    assert_eq!(
        db_reader.endpoints_(&dunp_db, vec!["GV".to_owned()])?,
        Vec::<String>::new()
    );
    Ok(())
}
