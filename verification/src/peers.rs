//! The peer registry: the node's own address and the set of peers it knows.

use crate::json::{
    fields_view, items_view, json_parse, json_text, member, parse, parsed_view, render, Json,
    JsonView,
};
use crate::ledger::{
    has_block, received_block_from_network, texts, Gossip, GossipView, Ledger, LedgerView,
};
use crate::text::{decimal_text, push_decimal};
use vstd::prelude::*;
use vstd::string::*;

verus! {

/// The address of a peer. Two peers are the same when both parts are equal.
#[derive(Debug, Clone, PartialEq, Eq, Hash)]
pub struct PeerInfo {
    pub ip: String,
    pub port: u16,
}

/// What a `PeerInfo` stands for.
pub struct PeerView {
    pub ip: Seq<char>,
    pub port: u16,
}

impl View for PeerInfo {
    type V = PeerView;

    open spec fn view(&self) -> PeerView {
        PeerView { ip: self.ip@, port: self.port }
    }
}

impl PeerView {
    /// `ip:port`, the address at which the peer listens.
    pub open spec fn socket_addr(self) -> Seq<char> {
        self.ip + ":"@ + decimal_text(self.port as nat)
    }

    /// `http://ip:port` followed by `path`.
    pub open spec fn url(self, path: Seq<char>) -> Seq<char> {
        "http://"@ + self.ip + ":"@ + decimal_text(self.port as nat) + path
    }
}

impl PeerInfo {
    /// The peer at `ip` and `port`.
    pub fn new(ip: String, port: u16) -> (peer: PeerInfo)
        ensures
            peer@ == (PeerView { ip: ip@, port }),
    {
        PeerInfo { ip, port }
    }

    /// The target of a request to this peer: its base URL, then `path`.
    pub fn to_url(&self, path: &str) -> (url: String)
        ensures
            url@ == self@.url(path@),
    {
        let mut url = "http://".to_owned();
        url.append(self.ip.as_str());
        url.append(":");
        push_decimal(&mut url, self.port as u64);
        url.append(path);
        url
    }

    /// The address at which the peer listens.
    pub fn socket_addr(&self) -> (addr: String)
        ensures
            addr@ == self@.socket_addr(),
    {
        let mut addr = self.ip.clone();
        addr.append(":");
        push_decimal(&mut addr, self.port as u64);
        addr
    }

    /// Whether two addresses name the same peer.
    pub fn same_as(&self, other: &PeerInfo) -> (same: bool)
        ensures
            same == (self@ == other@),
    {
        self.port == other.port && self.ip == other.ip
    }

    /// A copy of the address.
    pub fn duplicate(&self) -> (copy: PeerInfo)
        ensures
            copy@ == self@,
    {
        PeerInfo { ip: self.ip.clone(), port: self.port }
    }
}

/// The addresses of a list of peers.
pub open spec fn peer_views(peers: Seq<PeerInfo>) -> Seq<PeerView> {
    peers.map_values(|p: PeerInfo| p@)
}

/// The addresses that a list of pairs of an ip and a port names.
pub open spec fn pair_views(pairs: Seq<(String, u16)>) -> Seq<PeerView> {
    pairs.map_values(|p: (String, u16)| PeerView { ip: p.0@, port: p.1 })
}

/// What a registry holds: the node's own address, once it is set, and the
/// peers it knows, in the order in which it learned of them.
pub struct RegistryView {
    pub own: Option<PeerView>,
    pub known: Seq<PeerView>,
}

impl RegistryView {
    /// The registry that knows nobody.
    pub open spec fn empty() -> RegistryView {
        RegistryView { own: None, known: Seq::empty() }
    }

    /// The invariant of a registry: no peer is known twice.
    pub open spec fn valid(self) -> bool {
        self.known.no_duplicates()
    }

    /// Whether `peer` is known.
    pub open spec fn knows(self, peer: PeerView) -> bool {
        self.known.contains(peer)
    }

    /// The registry after a peer was offered: it is added unless it is known.
    pub open spec fn add_peer(self, peer: PeerView) -> RegistryView {
        if self.knows(peer) {
            self
        } else {
            RegistryView { own: self.own, known: self.known.push(peer) }
        }
    }

    /// The registry after each peer of a list was offered, in order.
    pub open spec fn add_peers(self, peers: Seq<PeerView>) -> RegistryView
        decreases peers.len(),
    {
        if peers.len() == 0 {
            self
        } else {
            self.add_peers(peers.drop_last()).add_peer(peers.last())
        }
    }

    /// The registry after the node's own address was recorded.
    pub open spec fn set_own(self, peer: PeerView) -> RegistryView {
        RegistryView { own: Some(peer), known: self.known }
    }
}

/// Offering a peer keeps a registry valid.
pub proof fn lemma_add_peer_valid(registry: RegistryView, peer: PeerView)
    requires
        registry.valid(),
    ensures
        registry.add_peer(peer).valid(),
{
    let after = registry.add_peer(peer);
    if !registry.knows(peer) {
        assert forall|i: int, j: int|
            0 <= i < after.known.len() && 0 <= j < after.known.len() && i != j implies
            after.known[i] != after.known[j] by {
            if i == registry.known.len() {
                assert(registry.known.contains(registry.known[j]));
            } else if j == registry.known.len() {
                assert(registry.known.contains(registry.known[i]));
            } else {
                assert(registry.known[i] != registry.known[j]);
            }
        }
    }
}

/// The peers of a node.
pub struct PeerRegistry {
    self_peer: Option<PeerInfo>,
    known: Vec<PeerInfo>,
}

impl PeerRegistry {
    /// No peer is known twice, at any time.
    #[verifier::type_invariant]
    spec fn inv(&self) -> bool {
        peer_views(self.known@).no_duplicates()
    }

    /// What the registry holds.
    pub closed spec fn view(&self) -> RegistryView {
        RegistryView {
            own: match self.self_peer {
                Some(p) => Some(p@),
                None => None,
            },
            known: peer_views(self.known@),
        }
    }

    /// A registry that knows nobody, not even the node itself.
    pub fn new() -> (registry: PeerRegistry)
        ensures
            registry@ == RegistryView::empty(),
    {
        let registry = PeerRegistry { self_peer: None, known: Vec::new() };
        proof {
            assert(registry@.known =~= Seq::<PeerView>::empty());
        }
        registry
    }
}

/// Whether `peer` stands in `list`.
fn contains_peer(list: &Vec<PeerInfo>, peer: &PeerInfo) -> (found: bool)
    ensures
        found == peer_views(list@).contains(peer@),
{
    let mut i: usize = 0;
    while i < list.len()
        invariant
            0 <= i <= list@.len(),
            forall|j: int| 0 <= j < i ==> peer_views(list@)[j] != peer@,
        decreases list@.len() - i,
    {
        if list[i].same_as(peer) {
            proof {
                assert(peer_views(list@)[i as int] == peer@);
            }
            return true;
        }
        i += 1;
    }
    false
}

/// Records the node's own address. It replaces an earlier one, and is not
/// compared with the peers that are known.
pub fn set_self_peer(registry: &mut PeerRegistry, ip: String, port: u16)
    ensures
        final(registry)@ == old(registry)@.set_own(PeerView { ip: ip@, port }),
        final(registry)@.valid(),
{
    proof {
        use_type_invariant(&*registry);
    }
    registry.self_peer = Some(PeerInfo::new(ip, port));
}

/// Offers one peer. It is added, and `true` returned, if and only if it was not known.
pub fn add_peer(registry: &mut PeerRegistry, ip: String, port: u16) -> (added: bool)
    ensures
        added == !old(registry)@.knows(PeerView { ip: ip@, port }),
        final(registry)@ == old(registry)@.add_peer(PeerView { ip: ip@, port }),
        final(registry)@.valid(),
{
    proof {
        use_type_invariant(&*registry);
        lemma_add_peer_valid(registry@, PeerView { ip: ip@, port });
    }
    let peer = PeerInfo::new(ip, port);
    if contains_peer(&registry.known, &peer) {
        return false;
    }
    let mut known: Vec<PeerInfo> = Vec::new();
    proof {
        assert(peer_views(known@) =~= Seq::<PeerView>::empty());
    }
    std::mem::swap(&mut known, &mut registry.known);
    let ghost before = known@;
    known.push(peer);
    proof {
        assert(peer_views(known@) =~= peer_views(before).push(peer@));
    }
    registry.known = known;
    true
}

/// Offers each peer of a list, in order. A peer that is known, or that comes
/// twice, is passed over.
pub fn add_bootstrap_peers(registry: &mut PeerRegistry, peers: Vec<(String, u16)>)
    ensures
        final(registry)@ == old(registry)@.add_peers(pair_views(peers@)),
        final(registry)@.valid(),
{
    proof {
        use_type_invariant(&*registry);
        assert(pair_views(peers@).take(0) =~= Seq::<PeerView>::empty());
    }
    let mut i: usize = 0;
    while i < peers.len()
        invariant
            0 <= i <= peers@.len(),
            registry@ == old(registry)@.add_peers(pair_views(peers@).take(i as int)),
            registry@.valid(),
        decreases peers@.len() - i,
    {
        proof {
            assert(pair_views(peers@).take(i + 1).drop_last() =~= pair_views(peers@).take(
                i as int,
            ));
        }
        add_peer(registry, peers[i].0.clone(), peers[i].1);
        i += 1;
    }
    proof {
        assert(pair_views(peers@).take(peers@.len() as int) =~= pair_views(peers@));
    }
}

/// A copy of the peers that are known, in the order in which the registry
/// learned of them.
pub fn get_known_peers(registry: &PeerRegistry) -> (peers: Vec<PeerInfo>)
    ensures
        peer_views(peers@) == registry@.known,
        registry@.valid(),
{
    proof {
        use_type_invariant(registry);
    }
    let mut peers: Vec<PeerInfo> = Vec::new();
    let mut i: usize = 0;
    while i < registry.known.len()
        invariant
            0 <= i <= registry.known@.len(),
            peer_views(peers@) == peer_views(registry.known@).take(i as int),
        decreases registry.known@.len() - i,
    {
        let ghost before = peers@;
        peers.push(registry.known[i].duplicate());
        proof {
            assert(peer_views(peers@) =~= peer_views(before).push(registry.known@[i as int]@));
            assert(peer_views(registry.known@).take(i + 1) =~= peer_views(registry.known@).take(
                i as int,
            ).push(registry.known@[i as int]@));
        }
        i += 1;
    }
    proof {
        assert(peer_views(registry.known@).take(registry.known@.len() as int) =~= peer_views(
            registry.known@,
        ));
    }
    peers
}

/// A peer, as a document.
pub open spec fn peer_doc(peer: PeerView) -> JsonView {
    JsonView::Object(
        seq![
            ("ip"@, JsonView::Text(peer.ip)),
            ("port"@, JsonView::Number(Some(peer.port as u64))),
        ],
    )
}

/// The reply that lists the known peers.
pub open spec fn peers_doc(known: Seq<PeerView>) -> JsonView {
    JsonView::Object(
        seq![
            ("peers"@, JsonView::List(known.map_values(|p: PeerView| peer_doc(p)))),
            ("count"@, JsonView::Number(Some(known.len() as u64))),
        ],
    )
}

/// Answers `GET /addr`: the known peers and their number.
pub fn get_known_peers_json(registry: &PeerRegistry) -> (reply: String)
    ensures
        reply@ == json_text(peers_doc(registry@.known)),
{
    let peers = get_known_peers(registry);
    let mut items: Vec<Json> = Vec::new();
    let mut i: usize = 0;
    while i < peers.len()
        invariant
            0 <= i <= peers@.len(),
            items@.len() == i,
            forall|j: int| 0 <= j < i ==> (#[trigger] items@[j])@ == peer_doc(peers@[j]@),
        decreases peers@.len() - i,
    {
        let fields = vec![
            member("ip", Json::text(peers[i].ip.as_str())),
            member("port", Json::number(peers[i].port as u64)),
        ];
        proof {
            assert(fields_view(fields@) =~= peer_doc(peers@[i as int]@)->Object_0);
        }
        items.push(Json::object(fields));
        i += 1;
    }
    let count = items.len() as u64;
    proof {
        assert(items_view(items@) =~= peer_views(peers@).map_values(|p: PeerView| peer_doc(p)));
    }
    let fields = vec![member("peers", Json::list(items)), member("count", Json::number(count))];
    proof {
        assert(fields_view(fields@) =~= peers_doc(registry@.known)->Object_0);
    }
    render(&Json::object(fields))
}

/// The peer that an item of a list of peers names: its members `ip`, a string,
/// and `port`, an unsigned number, of which the low 16 bits count.
pub open spec fn listed_peer(item: JsonView) -> Option<PeerView> {
    match (item.str_member("ip"@), item.get("port"@)) {
        (Some(ip), Some(port)) => match port.as_u64() {
            Some(number) => Some(PeerView { ip, port: (number % 0x10000) as u16 }),
            None => None,
        },
        _ => None,
    }
}

/// The peers that the items of a list name, in order; an item that names none is passed over.
pub open spec fn listed_peers(items: Seq<JsonView>) -> Seq<PeerView>
    decreases items.len(),
{
    if items.len() == 0 {
        Seq::empty()
    } else {
        match listed_peer(items.last()) {
            Some(peer) => listed_peers(items.drop_last()).push(peer),
            None => listed_peers(items.drop_last()),
        }
    }
}

/// The peers that a document lists under `peers`; none where what was read is
/// no document, or has no such list.
pub open spec fn peers_in(parsed: Result<JsonView, Seq<char>>) -> Seq<PeerView> {
    match parsed {
        Ok(doc) => match doc.get("peers"@) {
            Some(list) => match list.as_array() {
                Some(items) => listed_peers(items),
                None => Seq::empty(),
            },
            None => Seq::empty(),
        },
        Err(_) => Seq::empty(),
    }
}

/// Reads the peers that a document lists under `peers`.
pub fn read_peers(parsed: &Result<Json, String>) -> (peers: Vec<(String, u16)>)
    ensures
        pair_views(peers@) == peers_in(parsed_view(*parsed)),
{
    let mut peers: Vec<(String, u16)> = Vec::new();
    proof {
        assert(pair_views(peers@) =~= Seq::<PeerView>::empty());
    }
    let doc = match parsed {
        Ok(doc) => doc,
        Err(_) => {
            return peers;
        },
    };
    let items = match doc.get("peers") {
        Some(list) => match list.as_array() {
            Some(items) => items,
            None => {
                return peers;
            },
        },
        None => {
            return peers;
        },
    };
    let mut i: usize = 0;
    proof {
        assert(items_view(items@).take(0) =~= Seq::<JsonView>::empty());
    }
    while i < items.len()
        invariant
            0 <= i <= items@.len(),
            pair_views(peers@) == listed_peers(items_view(items@).take(i as int)),
        decreases items@.len() - i,
    {
        let ghost before = peers@;
        proof {
            assert(items_view(items@).take(i + 1).drop_last() =~= items_view(items@).take(
                i as int,
            ));
            assert(items_view(items@).take(i + 1).last() == items@[i as int]@);
        }
        match (items[i].str_member("ip"), items[i].get("port")) {
            (Some(ip), Some(port)) => {
                match port.as_u64() {
                    Some(number) => {
                        let low: u16 = (number % 0x10000) as u16;
                        peers.push((ip.to_owned(), low));
                        proof {
                            assert(pair_views(peers@) =~= pair_views(before).push(
                                PeerView { ip: ip@, port: low },
                            ));
                        }
                    },
                    None => {},
                }
            },
            _ => {},
        }
        i += 1;
    }
    proof {
        assert(items_view(items@).take(items@.len() as int) =~= items_view(items@));
    }
    peers
}

/// The name of the file that holds the bootstrap peers of the node that listens on `port`.
pub open spec fn config_file_name(port: u16) -> Seq<char> {
    "peers_config_"@ + decimal_text(port as nat) + ".json"@
}

/// The name of the file that holds the bootstrap peers of the node that listens on `port`.
pub fn peers_config_file(port: u16) -> (name: String)
    ensures
        name@ == config_file_name(port),
{
    let mut name = "peers_config_".to_owned();
    push_decimal(&mut name, port as u64);
    name.append(".json");
    name
}

/// Reads the bootstrap peers from the text of a configuration file: the peers
/// it lists under `peers`, and none where it is no JSON or lists none.
pub fn load_config(content: &str) -> (peers: Vec<(String, u16)>)
    ensures
        pair_views(peers@) == peers_in(json_parse(content@)),
{
    let parsed = parse(content);
    read_peers(&parsed)
}

/// Merges what a peer answered to `GET /addr`, read as JSON, into the
/// registry: each peer it lists is offered, in order.
pub fn merge_peers(registry: &mut PeerRegistry, parsed: &Result<Json, String>)
    ensures
        final(registry)@ == old(registry)@.add_peers(peers_in(parsed_view(*parsed))),
        final(registry)@.valid(),
{
    let peers = read_peers(parsed);
    add_bootstrap_peers(registry, peers);
}

/// Merges what a peer answered to `GET /addr` into the registry. An answer
/// that is no JSON, or lists no peers, changes nothing.
pub fn discover_peers(registry: &mut PeerRegistry, reply: &str)
    ensures
        final(registry)@ == old(registry)@.add_peers(peers_in(json_parse(reply@))),
        final(registry)@.valid(),
{
    let parsed = parse(reply);
    merge_peers(registry, &parsed);
}

/// The hashes that a list names and the ledger does not hold, in order. An
/// item that is no string is passed over.
pub open spec fn missing_hashes(ledger: LedgerView, items: Seq<JsonView>) -> Seq<Seq<char>>
    decreases items.len(),
{
    if items.len() == 0 {
        Seq::empty()
    } else {
        let earlier = missing_hashes(ledger, items.drop_last());
        match items.last().as_str() {
            Some(hash) => if ledger.has_block(hash) {
                earlier
            } else {
                earlier.push(hash)
            },
            None => earlier,
        }
    }
}

/// The hashes that a document lists under `blocks` and the ledger does not
/// hold; none where what was read is no document, or has no such list.
pub open spec fn missing_in(ledger: LedgerView, parsed: Result<JsonView, Seq<char>>) -> Seq<
    Seq<char>,
> {
    match parsed {
        Ok(doc) => match doc.get("blocks"@) {
            Some(list) => match list.as_array() {
                Some(items) => missing_hashes(ledger, items),
                None => Seq::empty(),
            },
            None => Seq::empty(),
        },
        Err(_) => Seq::empty(),
    }
}

/// Picks, from what a peer answered to `GET /getblocks`, read as JSON, the
/// hashes of the blocks to ask that peer for: those the ledger does not hold.
pub fn missing_blocks(ledger: &Ledger, parsed: &Result<Json, String>) -> (hashes: Vec<String>)
    ensures
        texts(hashes@) == missing_in(ledger@, parsed_view(*parsed)),
{
    let mut hashes: Vec<String> = Vec::new();
    proof {
        assert(texts(hashes@) =~= Seq::<Seq<char>>::empty());
    }
    let doc = match parsed {
        Ok(doc) => doc,
        Err(_) => {
            return hashes;
        },
    };
    let items = match doc.get("blocks") {
        Some(list) => match list.as_array() {
            Some(items) => items,
            None => {
                return hashes;
            },
        },
        None => {
            return hashes;
        },
    };
    let mut i: usize = 0;
    proof {
        assert(items_view(items@).take(0) =~= Seq::<JsonView>::empty());
    }
    while i < items.len()
        invariant
            0 <= i <= items@.len(),
            texts(hashes@) == missing_hashes(ledger@, items_view(items@).take(i as int)),
        decreases items@.len() - i,
    {
        let ghost before = hashes@;
        proof {
            assert(items_view(items@).take(i + 1).drop_last() =~= items_view(items@).take(
                i as int,
            ));
            assert(items_view(items@).take(i + 1).last() == items@[i as int]@);
        }
        match items[i].as_str() {
            Some(hash) => {
                if !has_block(ledger, hash) {
                    hashes.push(hash.to_owned());
                    proof {
                        assert(texts(hashes@) =~= texts(before).push(hash@));
                    }
                }
            },
            None => {},
        }
        i += 1;
    }
    proof {
        assert(items_view(items@).take(items@.len() as int) =~= items_view(items@));
    }
    hashes
}

/// Picks, from what a peer answered to `GET /getblocks`, the hashes of the
/// blocks to ask that peer for: those it lists and the ledger does not hold.
pub fn fetch_blocks_from_peers(ledger: &Ledger, reply: &str) -> (hashes: Vec<String>)
    ensures
        texts(hashes@) == missing_in(ledger@, json_parse(reply@)),
{
    let parsed = parse(reply);
    missing_blocks(ledger, &parsed)
}

/// The URL at which a peer lists the peers it knows.
pub fn discovery_url(peer: &PeerInfo) -> (url: String)
    ensures
        url@ == peer@.url("/addr"@),
{
    peer.to_url("/addr")
}

/// The URL at which a peer lists the hashes of its blocks.
pub fn block_list_url(peer: &PeerInfo) -> (url: String)
    ensures
        url@ == peer@.url("/getblocks"@),
{
    peer.to_url("/getblocks")
}

/// The URL at which a peer serves the block with this hash.
pub fn block_url(peer: &PeerInfo, hash: &str) -> (url: String)
    ensures
        url@ == peer@.url("/getdata/"@ + hash@),
{
    let mut path = "/getdata/".to_owned();
    path.append(hash);
    peer.to_url(path.as_str())
}

/// The hash and the content of the block that a document carries: its members
/// `hash` and `content`, where both are strings and `found` is true.
pub open spec fn carried_block(parsed: Result<JsonView, Seq<char>>) -> Option<
    (Seq<char>, Seq<char>),
> {
    match parsed {
        Ok(doc) => match doc.get("found"@) {
            Some(found) => if found.as_bool() == Some(true) {
                match (doc.str_member("content"@), doc.str_member("hash"@)) {
                    (Some(content), Some(hash)) => Some((hash, content)),
                    _ => None,
                }
            } else {
                None
            },
            None => None,
        },
        Err(_) => None,
    }
}

/// Stores the block that a peer answered to `GET /getdata/<hash>`, read as
/// JSON, unless its hash is known. An answer that carries no block changes nothing.
pub fn store_block(ledger: &mut Ledger, parsed: &Result<Json, String>) -> (added: bool)
    ensures
        match carried_block(parsed_view(*parsed)) {
            Some(block) => {
                &&& added == !old(ledger)@.has_block(block.0)
                &&& final(ledger)@ == old(ledger)@.add_block(
                    block.0,
                    block.1,
                    final(ledger)@.blocks[block.0].timestamp,
                )
            },
            None => !added && final(ledger)@ == old(ledger)@,
        },
{
    let doc = match parsed {
        Ok(doc) => doc,
        Err(_) => {
            return false;
        },
    };
    let found = match doc.get("found") {
        Some(found) => found.as_bool(),
        None => None,
    };
    match found {
        Some(true) => {},
        _ => {
            return false;
        },
    }
    match (doc.str_member("content"), doc.str_member("hash")) {
        (Some(content), Some(hash)) => received_block_from_network(ledger, hash, content),
        _ => false,
    }
}

/// Stores the block that a peer answered to `GET /getdata/<hash>`, unless its
/// hash is known. An answer that carries no block changes nothing.
pub fn fetch_block(ledger: &mut Ledger, reply: &str) -> (added: bool)
    ensures
        match carried_block(json_parse(reply@)) {
            Some(block) => {
                &&& added == !old(ledger)@.has_block(block.0)
                &&& final(ledger)@ == old(ledger)@.add_block(
                    block.0,
                    block.1,
                    final(ledger)@.blocks[block.0].timestamp,
                )
            },
            None => !added && final(ledger)@ == old(ledger)@,
        },
{
    let parsed = parse(reply);
    store_block(ledger, &parsed)
}

/// The seconds between two rounds of discovery.
pub const DISCOVERY_INTERVAL_SECS: u64 = 15;

/// One message for every known peer: the body to post and the URLs to post it to.
#[derive(Debug)]
pub struct Broadcast {
    pub body: String,
    pub targets: Vec<String>,
}

/// The body that passes a transaction on.
pub open spec fn transaction_doc(hash: Seq<char>, data: Seq<char>) -> JsonView {
    JsonView::Object(seq![("hash"@, JsonView::Text(hash)), ("data"@, JsonView::Text(data))])
}

/// The body that passes a block on.
pub open spec fn block_doc(hash: Seq<char>, content: Seq<char>) -> JsonView {
    JsonView::Object(seq![("hash"@, JsonView::Text(hash)), ("content"@, JsonView::Text(content))])
}

/// The URL of `path` at each of the peers, in order.
pub open spec fn urls(known: Seq<PeerView>, path: Seq<char>) -> Seq<Seq<char>> {
    known.map_values(|p: PeerView| p.url(path))
}

/// The URL of `path` at each known peer.
pub fn peer_urls(registry: &PeerRegistry, path: &str) -> (targets: Vec<String>)
    ensures
        texts(targets@) == urls(registry@.known, path@),
{
    let peers = get_known_peers(registry);
    let mut targets: Vec<String> = Vec::new();
    let mut i: usize = 0;
    while i < peers.len()
        invariant
            0 <= i <= peers@.len(),
            targets@.len() == i,
            forall|j: int| 0 <= j < i ==> (#[trigger] targets@[j])@ == peers@[j]@.url(path@),
        decreases peers@.len() - i,
    {
        targets.push(peers[i].to_url(path));
        i += 1;
    }
    proof {
        assert(texts(targets@) =~= urls(peer_views(peers@), path@));
    }
    targets
}

/// Plans the gossip of a transaction: one post of `{hash, data}` to `/inv` at every known peer.
pub fn broadcast_transaction(registry: &PeerRegistry, hash: &str, data: &str) -> (plan: Broadcast)
    ensures
        plan.body@ == json_text(transaction_doc(hash@, data@)),
        texts(plan.targets@) == urls(registry@.known, "/inv"@),
{
    let fields = vec![member("hash", Json::text(hash)), member("data", Json::text(data))];
    proof {
        assert(fields_view(fields@) =~= transaction_doc(hash@, data@)->Object_0);
    }
    Broadcast { body: render(&Json::object(fields)), targets: peer_urls(registry, "/inv") }
}

/// Plans the gossip of a block: one post of `{hash, content}` to `/block` at every known peer.
pub fn broadcast_block(registry: &PeerRegistry, hash: &str, content: &str) -> (plan: Broadcast)
    ensures
        plan.body@ == json_text(block_doc(hash@, content@)),
        texts(plan.targets@) == urls(registry@.known, "/block"@),
{
    let fields = vec![member("hash", Json::text(hash)), member("content", Json::text(content))];
    proof {
        assert(fields_view(fields@) =~= block_doc(hash@, content@)->Object_0);
    }
    Broadcast { body: render(&Json::object(fields)), targets: peer_urls(registry, "/block") }
}

/// The body and the path of the gossip of something that was accepted.
pub open spec fn gossip_plan(gossip: GossipView) -> (JsonView, Seq<char>) {
    match gossip {
        GossipView::Transaction { hash, data } => (transaction_doc(hash, data), "/inv"@),
        GossipView::Block { hash, content } => (block_doc(hash, content), "/block"@),
    }
}

/// Plans the gossip of what a handler accepted.
pub fn broadcast(registry: &PeerRegistry, gossip: &Gossip) -> (plan: Broadcast)
    ensures
        plan.body@ == json_text(gossip_plan(gossip@).0),
        texts(plan.targets@) == urls(registry@.known, gossip_plan(gossip@).1),
{
    match gossip {
        Gossip::Transaction { hash, data } => broadcast_transaction(
            registry,
            hash.as_str(),
            data.as_str(),
        ),
        Gossip::Block { hash, content } => broadcast_block(
            registry,
            hash.as_str(),
            content.as_str(),
        ),
    }
}

} // verus!
