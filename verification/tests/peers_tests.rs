use p2p::json::Json;
use p2p::ledger::{
    add_block_at, get_all_block_hashes, get_block, handle_getblocks_request,
    handle_getdata_request, init_genesis_block, Gossip, Ledger,
};
use p2p::peers::{
    add_bootstrap_peers, add_peer, broadcast, broadcast_block, broadcast_transaction,
    block_list_url, block_url, discover_peers, discovery_url, fetch_block,
    fetch_blocks_from_peers, get_known_peers, get_known_peers_json, load_config, merge_peers, missing_blocks, peers_config_file, read_peers,
    set_self_peer, store_block, PeerInfo, PeerRegistry, DISCOVERY_INTERVAL_SECS,
};

fn peer(ip: &str, port: u16) -> PeerInfo {
    PeerInfo::new(ip.to_string(), port)
}

fn text(s: &str) -> Json {
    Json::Text(s.to_string())
}

fn object(fields: Vec<(&str, Json)>) -> Json {
    Json::Object(fields.into_iter().map(|(k, v)| (k.to_string(), v)).collect())
}

#[test]
fn peer_address_is_formatted() {
    let p = peer("127.0.0.1", 5000);
    assert_eq!(p.ip, "127.0.0.1");
    assert_eq!(p.port, 5000);
    assert_eq!(p.to_url("/addr"), "http://127.0.0.1:5000/addr");
    assert_eq!(p.to_url(""), "http://127.0.0.1:5000");
    assert_eq!(p.socket_addr(), "127.0.0.1:5000");
    assert_eq!(peer("host", 0).to_url("/x"), "http://host:0/x");
    assert_eq!(peer("host", 7).socket_addr(), "host:7");
    assert_eq!(peer("host", 65535).socket_addr(), "host:65535");
    assert_eq!(peer("host", 10).socket_addr(), "host:10");
    assert_eq!(peer("", 1009).to_url("/getdata/abc"), "http://:1009/getdata/abc");
}

#[test]
fn peers_compare_by_both_parts() {
    assert!(peer("a", 1).same_as(&peer("a", 1)));
    assert!(!peer("a", 1).same_as(&peer("a", 2)));
    assert!(!peer("a", 1).same_as(&peer("b", 1)));
    assert_eq!(peer("a", 1).duplicate(), peer("a", 1));
}

#[test]
fn peer_is_added_once() {
    let mut registry = PeerRegistry::new();
    assert_eq!(get_known_peers(&registry), Vec::<PeerInfo>::new());
    assert!(add_peer(&mut registry, "10.0.0.1".to_string(), 5000));
    assert!(!add_peer(&mut registry, "10.0.0.1".to_string(), 5000));
    assert!(add_peer(&mut registry, "10.0.0.1".to_string(), 5001));
    assert!(add_peer(&mut registry, "10.0.0.2".to_string(), 5000));
    assert_eq!(
        get_known_peers(&registry),
        vec![peer("10.0.0.1", 5000), peer("10.0.0.1", 5001), peer("10.0.0.2", 5000)]
    );
}

#[test]
fn bootstrap_peers_are_deduplicated() {
    let mut registry = PeerRegistry::new();
    add_peer(&mut registry, "b".to_string(), 2);
    add_bootstrap_peers(
        &mut registry,
        vec![
            ("a".to_string(), 1),
            ("b".to_string(), 2),
            ("a".to_string(), 1),
            ("c".to_string(), 3),
        ],
    );
    assert_eq!(get_known_peers(&registry), vec![peer("b", 2), peer("a", 1), peer("c", 3)]);
    add_bootstrap_peers(&mut registry, Vec::new());
    assert_eq!(get_known_peers(&registry).len(), 3);
}

#[test]
fn own_address_is_not_a_known_peer() {
    let mut registry = PeerRegistry::new();
    set_self_peer(&mut registry, "127.0.0.1".to_string(), 5000);
    assert_eq!(get_known_peers(&registry), Vec::<PeerInfo>::new());
    assert!(add_peer(&mut registry, "127.0.0.1".to_string(), 5000));
    set_self_peer(&mut registry, "127.0.0.1".to_string(), 6000);
    assert_eq!(get_known_peers(&registry), vec![peer("127.0.0.1", 5000)]);
}

#[test]
fn known_peers_are_listed_as_json() {
    let mut registry = PeerRegistry::new();
    assert_eq!(get_known_peers_json(&registry), r#"{"count":0,"peers":[]}"#);
    add_peer(&mut registry, "1.2.3.4".to_string(), 5000);
    add_peer(&mut registry, "h\"ost".to_string(), 65535);
    assert_eq!(
        get_known_peers_json(&registry),
        r#"{"count":2,"peers":[{"ip":"1.2.3.4","port":5000},{"ip":"h\"ost","port":65535}]}"#
    );
}

#[test]
fn config_file_is_named_by_port() {
    assert_eq!(peers_config_file(5000), "peers_config_5000.json");
    assert_eq!(peers_config_file(0), "peers_config_0.json");
    assert_eq!(peers_config_file(65535), "peers_config_65535.json");
}

#[test]
fn config_lists_bootstrap_peers() {
    let content = r#"{"peers":[{"ip":"127.0.0.1","port":5001},{"ip":"10.1.1.1","port":80}]}"#;
    assert_eq!(
        load_config(content),
        vec![("127.0.0.1".to_string(), 5001), ("10.1.1.1".to_string(), 80)]
    );
    assert_eq!(load_config(""), Vec::<(String, u16)>::new());
    assert_eq!(load_config("{}"), Vec::<(String, u16)>::new());
    assert_eq!(load_config(r#"{"peers":{"ip":"a","port":1}}"#), Vec::<(String, u16)>::new());
    assert_eq!(load_config(r#"[{"ip":"a","port":1}]"#), Vec::<(String, u16)>::new());
}

#[test]
fn entries_without_an_ip_or_a_port_are_passed_over() {
    let content = r#"{"peers":[
        {"ip":"a","port":1},
        {"ip":"b"},
        {"port":3},
        {"ip":4,"port":4},
        {"ip":"e","port":"5"},
        {"ip":"f","port":-6},
        {"ip":"g","port":7.5},
        "h",
        null,
        {"ip":"i","port":70000},
        {"ip":"j","port":65536},
        {"ip":"k","port":18446744073709551615},
        {"ip":"l","port":11,"extra":true}
    ]}"#;
    assert_eq!(
        load_config(content),
        vec![
            ("a".to_string(), 1),
            ("i".to_string(), 4464),
            ("j".to_string(), 0),
            ("k".to_string(), 65535),
            ("l".to_string(), 11),
        ]
    );
}

#[test]
fn peers_are_read_from_a_document() {
    let doc = object(vec![(
        "peers",
        Json::List(vec![
            object(vec![("ip", text("a")), ("port", Json::Number(Some(1)))]),
            object(vec![("ip", text("b")), ("port", Json::Number(None))]),
            object(vec![("port", Json::Number(Some(3))), ("ip", text("c"))]),
            object(vec![("ip", Json::Bool(true)), ("port", Json::Number(Some(4)))]),
            object(vec![("ip", text("e")), ("port", Json::Number(Some(65537)))]),
        ]),
    )]);
    assert_eq!(
        read_peers(&Ok(doc)),
        vec![("a".to_string(), 1), ("c".to_string(), 3), ("e".to_string(), 1)]
    );
    assert_eq!(read_peers(&Err("bad".to_string())), Vec::<(String, u16)>::new());
    assert_eq!(read_peers(&Ok(Json::Null)), Vec::<(String, u16)>::new());
    assert_eq!(
        read_peers(&Ok(object(vec![("peers", text("none"))]))),
        Vec::<(String, u16)>::new()
    );
}

#[test]
fn discovery_merges_the_peers_of_a_reply() {
    let mut registry = PeerRegistry::new();
    add_peer(&mut registry, "a".to_string(), 1);
    discover_peers(
        &mut registry,
        r#"{"count":3,"peers":[{"ip":"b","port":2},{"ip":"a","port":1},{"ip":"b","port":2}]}"#,
    );
    assert_eq!(get_known_peers(&registry), vec![peer("a", 1), peer("b", 2)]);
    discover_peers(&mut registry, "<html>");
    discover_peers(&mut registry, r#"{"status":"ok"}"#);
    assert_eq!(get_known_peers(&registry), vec![peer("a", 1), peer("b", 2)]);
    let doc = object(vec![(
        "peers",
        Json::List(vec![object(vec![("ip", text("c")), ("port", Json::Number(Some(3)))])]),
    )]);
    merge_peers(&mut registry, &Ok(doc));
    assert_eq!(get_known_peers(&registry), vec![peer("a", 1), peer("b", 2), peer("c", 3)]);
}

#[test]
fn only_unknown_blocks_are_asked_for() {
    let mut ledger = Ledger::new();
    add_block_at(&mut ledger, "b", "2", 2);
    let reply = r#"{"blocks":["a","b",3,"c",null,"a"],"count":6}"#;
    assert_eq!(
        fetch_blocks_from_peers(&ledger, reply),
        vec!["a".to_string(), "c".to_string(), "a".to_string()]
    );
    assert_eq!(fetch_blocks_from_peers(&ledger, r#"{"blocks":"a"}"#), Vec::<String>::new());
    assert_eq!(fetch_blocks_from_peers(&ledger, r#"{"count":0}"#), Vec::<String>::new());
    assert_eq!(fetch_blocks_from_peers(&ledger, "garbage"), Vec::<String>::new());
    let doc = object(vec![("blocks", Json::List(vec![text("b"), text("z")]))]);
    assert_eq!(missing_blocks(&ledger, &Ok(doc)), vec!["z".to_string()]);
    assert_eq!(missing_blocks(&ledger, &Err("e".to_string())), Vec::<String>::new());
}

#[test]
fn sync_requests_go_to_the_routes_of_the_peer() {
    let p = peer("10.0.0.9", 5002);
    assert_eq!(discovery_url(&p), "http://10.0.0.9:5002/addr");
    assert_eq!(block_list_url(&p), "http://10.0.0.9:5002/getblocks");
    assert_eq!(block_url(&p, "abc"), "http://10.0.0.9:5002/getdata/abc");
    assert_eq!(block_url(&p, ""), "http://10.0.0.9:5002/getdata/");
}

#[test]
fn fetched_block_is_stored_when_found() {
    let mut ledger = Ledger::new();
    assert!(fetch_block(
        &mut ledger,
        r#"{"content":"hello","found":true,"hash":"abc","timestamp":7}"#
    ));
    let block = get_block(&ledger, "abc").expect("stored");
    assert_eq!(block.content, "hello");
    assert!(!fetch_block(
        &mut ledger,
        r#"{"content":"other","found":true,"hash":"abc","timestamp":8}"#
    ));
    assert_eq!(get_block(&ledger, "abc"), Some(block));
    for reply in [
        r#"{"error":"Block not found","found":false,"hash":"zzz"}"#,
        r#"{"content":"x","found":false,"hash":"n1"}"#,
        r#"{"content":"x","found":"true","hash":"n2"}"#,
        r#"{"content":"x","found":1,"hash":"n3"}"#,
        r#"{"content":"x","hash":"n4"}"#,
        r#"{"found":true,"hash":"n5"}"#,
        r#"{"content":"x","found":true}"#,
        r#"{"content":5,"found":true,"hash":"n6"}"#,
        "",
    ] {
        assert!(!fetch_block(&mut ledger, reply));
    }
    assert_eq!(get_all_block_hashes(&ledger), vec!["abc".to_string()]);
    let doc = object(vec![
        ("found", Json::Bool(true)),
        ("hash", text("d1")),
        ("content", text("c1")),
    ]);
    assert!(store_block(&mut ledger, &Ok(doc)));
    assert!(!store_block(&mut ledger, &Err("e".to_string())));
    assert_eq!(get_all_block_hashes(&ledger), vec!["abc".to_string(), "d1".to_string()]);
}

#[test]
fn gossip_goes_to_every_known_peer() {
    let mut registry = PeerRegistry::new();
    let none = broadcast_transaction(&registry, "h", "d");
    assert_eq!(none.body, r#"{"data":"d","hash":"h"}"#);
    assert_eq!(none.targets, Vec::<String>::new());
    add_peer(&mut registry, "a".to_string(), 1);
    add_peer(&mut registry, "b".to_string(), 22);
    let tx = broadcast_transaction(&registry, "h\"1", "d");
    assert_eq!(tx.body, r#"{"data":"d","hash":"h\"1"}"#);
    assert_eq!(tx.targets, vec!["http://a:1/inv".to_string(), "http://b:22/inv".to_string()]);
    let block = broadcast_block(&registry, "h", "c");
    assert_eq!(block.body, r#"{"content":"c","hash":"h"}"#);
    assert_eq!(
        block.targets,
        vec!["http://a:1/block".to_string(), "http://b:22/block".to_string()]
    );
    let plan = broadcast(
        &registry,
        &Gossip::Block { hash: "x".to_string(), content: "y".to_string() },
    );
    assert_eq!(plan.body, r#"{"content":"y","hash":"x"}"#);
    assert_eq!(plan.targets, block.targets);
    let plan = broadcast(
        &registry,
        &Gossip::Transaction { hash: "x".to_string(), data: "y".to_string() },
    );
    assert_eq!(plan.body, r#"{"data":"y","hash":"x"}"#);
    assert_eq!(plan.targets, tx.targets);
}

#[test]
fn discovery_runs_every_fifteen_seconds() {
    assert_eq!(DISCOVERY_INTERVAL_SECS, 15);
}

#[test]
fn new_node_receives_genesis_from_its_bootstrap_peer() {
    let mut ledger_a = Ledger::new();
    let mut registry_a = PeerRegistry::new();
    set_self_peer(&mut registry_a, "127.0.0.1".to_string(), 5000);
    init_genesis_block(&mut ledger_a);

    let mut ledger_b = Ledger::new();
    let mut registry_b = PeerRegistry::new();
    set_self_peer(&mut registry_b, "127.0.0.1".to_string(), 5001);
    add_bootstrap_peers(&mut registry_b, vec![("127.0.0.1".to_string(), 5000)]);

    let targets = get_known_peers(&registry_b);
    assert_eq!(targets, vec![peer("127.0.0.1", 5000)]);
    assert_eq!(discovery_url(&targets[0]), "http://127.0.0.1:5000/addr");
    assert_eq!(block_list_url(&targets[0]), "http://127.0.0.1:5000/getblocks");
    discover_peers(&mut registry_b, &get_known_peers_json(&registry_a));
    assert_eq!(get_known_peers(&registry_b), vec![peer("127.0.0.1", 5000)]);

    let listing = handle_getblocks_request(&ledger_a, "/getblocks");
    let wanted = fetch_blocks_from_peers(&ledger_b, &listing);
    assert_eq!(wanted, get_all_block_hashes(&ledger_a));
    assert_eq!(wanted.len(), 1);
    for hash in &wanted {
        let url = block_url(&targets[0], hash);
        let path = url.strip_prefix("http://127.0.0.1:5000").expect("a url of the peer");
        let reply = handle_getdata_request(&ledger_a, path);
        assert!(fetch_block(&mut ledger_b, &reply));
    }
    assert_eq!(get_all_block_hashes(&ledger_b), get_all_block_hashes(&ledger_a));
    let at_a = get_block(&ledger_a, &wanted[0]).expect("a holds genesis");
    let at_b = get_block(&ledger_b, &wanted[0]).expect("b holds genesis");
    assert_eq!(at_b.hash, at_a.hash);
    assert_eq!(at_b.content, at_a.content);
    assert_eq!(at_b.content, "Genesis Block");

    let again = fetch_blocks_from_peers(&ledger_b, &listing);
    assert_eq!(again, Vec::<String>::new());
}
