use blockchain::network::{check_version, is_valid_url, BlockchainError, ErrorType, URL_REGEX};
use blockchain::p2p::{DataType, PeerError, PeerSet, RequestType as P2PRequestType};
use blockchain::request_types::RequestType;

#[test]
fn version_rejection() {
    let expected = 3;
    let err = check_version(expected + 1, expected).unwrap_err();
    assert_eq!(err, ErrorType::WrongVersion(4, 3));
    assert_eq!(
        err.to_string(),
        "{\"error\":\"WrongVersion\",\"message\":\"Distinct protocol version\",\"request_version\":4,\"expected_version\":3}"
    );
    assert_eq!(check_version(3, 3), Ok(()));
}

#[test]
fn error_bodies_are_json() {
    let body = ErrorType::InvalidTransaction("a\"b".to_string()).to_string();
    assert_eq!(
        body,
        "{\"error\":\"InvalidTransaction\",\"message\":\"The transaction is invalid in the current context\",\"context\":\"a\\\"b\"}"
    );
    let parsed = json::parse(&ErrorType::InvalidBlock("tip".to_string()).to_string()).unwrap();
    assert_eq!(parsed["error"], "InvalidBlock");
    assert_eq!(parsed["context"], "tip");
    let parsed = json::parse(&ErrorType::InvalidUrl.to_string()).unwrap();
    assert_eq!(parsed["valid_url_regex"], URL_REGEX);
    assert_eq!(BlockchainError::InvalidChain.to_string(), "Invalid Chain");
    assert_eq!(BlockchainError::InvalidTransaction.to_string(), "Invalid Transaction");
}

#[test]
fn request_codes() {
    assert_eq!(RequestType::try_from_u8(2), Ok(RequestType::NewBlock));
    assert_eq!(RequestType::try_from_u8(5), Err(()));
    assert_eq!(RequestType::InitialBlockDownload.into_u8(), 4);
    assert_eq!(P2PRequestType::try_from_bytes(b"SyncRequest".to_vec()), Ok(P2PRequestType::SyncRequest));
    assert_eq!(P2PRequestType::try_from_bytes(b"Nope".to_vec()), Err(()));
    assert_eq!(DataType::try_from_bytes(b"NewBlockData".to_vec()), Ok(DataType::NewBlockData));
    assert_eq!(DataType::try_from_bytes(b"newblock".to_vec()), Err(()));
}

#[test]
fn peer_pairing() {
    let trusted = vec!["http://10.0.0.1:8000/".to_string()];
    let mut peers = PeerSet::new(trusted, 2);
    assert!(is_valid_url("http://192.168.1.104:8000/"));
    assert_eq!(peers.pair_up("ftp://x".to_string()), Err(PeerError::InvalidUrl));
    assert_eq!(peers.pair_up("http://10.0.0.1:8000/".to_string()), Err(PeerError::AlreadyPeer));
    assert_eq!(peers.pair_up("http://192.168.1.104:8000/".to_string()), Ok(()));
    assert_eq!(peers.pair_up("https://192.168.1.105:8000/".to_string()), Err(PeerError::PeerListFull));
    assert_eq!(peers.len(), 2);
    assert_eq!(peers.unpair(&"http://192.168.1.104:8000/".to_string()), Ok(()));
    assert_eq!(peers.unpair(&"http://192.168.1.104:8000/".to_string()), Err(PeerError::NotAPeer));
    assert_eq!(peers.len(), 1);
}

#[test]
fn trusted_peers_are_never_cycled_out() {
    let trusted = vec!["http://10.0.0.1:8000/".to_string()];
    let mut peers = PeerSet::new(trusted, 3);
    peers.pair_up("http://10.0.0.2:8000/".to_string()).unwrap();
    peers.cycle_peers(
        &vec!["http://10.0.0.1:8000/".to_string(), "http://10.0.0.2:8000/".to_string()],
        vec!["http://10.0.0.3:8000/".to_string(), "http://10.0.0.4:8000/".to_string()],
    );
    assert!(peers.contains(&"http://10.0.0.1:8000/".to_string()));
    assert!(!peers.contains(&"http://10.0.0.2:8000/".to_string()));
    assert!(peers.contains(&"http://10.0.0.3:8000/".to_string()));
    assert!(peers.contains(&"http://10.0.0.4:8000/".to_string()));
    assert_eq!(peers.len(), 3);
}

#[test]
fn peer_set_starts_within_capacity() {
    let trusted = vec![
        "http://10.0.0.1:8000/".to_string(),
        "http://10.0.0.2:8000/".to_string(),
        "http://10.0.0.3:8000/".to_string(),
    ];
    let mut peers = PeerSet::new(trusted, 2);
    assert_eq!(peers.len(), 2);
    assert_eq!(peers.pair_up("http://10.0.0.9:8000/".to_string()), Err(PeerError::PeerListFull));
    peers.cycle_peers(&vec![], vec!["http://10.0.0.7:8000/".to_string()]);
    assert_eq!(peers.len(), 2);
    assert!(!peers.contains(&"http://10.0.0.7:8000/".to_string()));
}

#[test]
fn peer_set_keeps_each_url_once() {
    let trusted = vec![
        "http://10.0.0.1:8000/".to_string(),
        "http://10.0.0.1:8000/".to_string(),
        "http://10.0.0.2:8000/".to_string(),
    ];
    let peers = PeerSet::new(trusted, 5);
    assert_eq!(peers.len(), 2);
    assert_eq!(peers.get_peers(), &vec!["http://10.0.0.1:8000/".to_string(), "http://10.0.0.2:8000/".to_string()]);
}
