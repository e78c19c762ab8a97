use tree::peers::{valid_address, Peer, PeerRegistry};
use tree::query::Error;

#[test]
fn address_validation_requires_http_or_https() {
    assert!(valid_address("http://peer1"));
    assert!(valid_address("https://peer1"));
    assert!(!valid_address("ftp://x"));
    assert!(!valid_address("peer1"));
    assert!(!valid_address(""));
}

#[test]
fn registering_a_bad_scheme_is_rejected_without_a_change() {
    let mut reg = PeerRegistry::new();
    let r = reg.register(&String::from("ftp://x"));
    assert!(matches!(r, Err(Error::BadRequest)));
    assert!(reg.list_peers().is_empty());
}

#[test]
fn registering_twice_keeps_one_entry() {
    let mut reg = PeerRegistry::new();
    reg.register(&String::from("https://peer1")).unwrap();
    let before = reg.list_peers().len();
    let again = reg.register(&String::from("https://peer1")).unwrap();
    assert_eq!(again.address, "https://peer1");
    assert_eq!(reg.list_peers().len(), before);
    assert_eq!(before, 1);
}

#[test]
fn get_peer_reports_not_found() {
    let mut reg = PeerRegistry::new();
    reg.register(&String::from("https://peer1")).unwrap();
    assert_eq!(
        reg.get_peer(&String::from("https://peer1")).unwrap().address,
        "https://peer1"
    );
    assert!(matches!(
        reg.get_peer(&String::from("https://peer2")),
        Err(Error::NotFound)
    ));
}

#[test]
fn absorb_unions_and_plans_announcements_to_everyone_else() {
    let mut reg = PeerRegistry::new();
    let own = String::from("https://me");
    let fetched = vec![
        Peer { address: String::from("https://p1") },
        Peer { address: String::from("https://me") },
        Peer { address: String::from("https://p2") },
    ];
    let announce = reg.absorb(&fetched, &own);
    let addrs: Vec<String> = reg.list_peers().into_iter().map(|p| p.address).collect();
    assert_eq!(addrs, vec!["https://p1", "https://me", "https://p2"]);
    let plan: Vec<String> = announce.into_iter().map(|p| p.address).collect();
    assert_eq!(plan, vec!["https://p1", "https://p2"]);
}

#[test]
fn absorb_is_idempotent_for_known_peers() {
    let mut reg = PeerRegistry::new();
    let own = String::from("https://me");
    let fetched = vec![Peer { address: String::from("https://p1") }];
    reg.absorb(&fetched, &own);
    reg.absorb(&fetched, &own);
    assert_eq!(reg.list_peers().len(), 2);
}

#[test]
fn update_behaves_like_registration() {
    let mut reg = PeerRegistry::new();
    reg.register(&String::from("https://peer1")).unwrap();
    let updated = reg.update_peer(&String::from("https://peer1")).unwrap();
    assert_eq!(updated.address, "https://peer1");
    assert_eq!(reg.list_peers().len(), 1);
    assert!(matches!(
        reg.update_peer(&String::from("ftp://x")),
        Err(Error::BadRequest)
    ));
}
