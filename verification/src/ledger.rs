//! The ledger store: blocks and transactions keyed by hash, inserted at most
//! once, with the blocks' order of arrival.

use crate::json::{
    fields_view, items_view, json_parse, json_text, member, parse, parsed_view, render,
    text_list_view, Json, JsonView,
};
use crate::text::{chars_of, copy_range, digit_char, range_is, split, split_on};
use sha2::{Digest, Sha256};
use vstd::hash_map::StringHashMap;
use vstd::hash_set::StringHashSet;
use vstd::prelude::*;
use vstd::string::*;

verus! {

/// A block: an opaque content under the hash its submitter gave it.
#[derive(Debug, Clone, PartialEq, Eq)]
pub struct Block {
    pub hash: String,
    pub content: String,
    pub timestamp: u64,
}

/// What a `Block` stands for.
pub struct BlockView {
    pub hash: Seq<char>,
    pub content: Seq<char>,
    pub timestamp: u64,
}

impl View for Block {
    type V = BlockView;

    open spec fn view(&self) -> BlockView {
        BlockView { hash: self.hash@, content: self.content@, timestamp: self.timestamp }
    }
}

/// A transaction: an opaque payload under the hash its submitter gave it.
#[derive(Debug, Clone, PartialEq, Eq)]
pub struct Transaction {
    pub hash: String,
    pub data: String,
    pub timestamp: u64,
}

/// What a `Transaction` stands for.
pub struct TransactionView {
    pub hash: Seq<char>,
    pub data: Seq<char>,
    pub timestamp: u64,
}

impl View for Transaction {
    type V = TransactionView;

    open spec fn view(&self) -> TransactionView {
        TransactionView { hash: self.hash@, data: self.data@, timestamp: self.timestamp }
    }
}

/// The texts of a sequence of strings.
pub open spec fn texts(strings: Seq<String>) -> Seq<Seq<char>> {
    strings.map_values(|s: String| s@)
}

/// The first index at which `hash` stands in `order`, or `order.len()` where it does not occur.
pub open spec fn first_index(order: Seq<Seq<char>>, hash: Seq<char>) -> int
    decreases order.len(),
{
    if order.len() == 0 || order[0] == hash {
        0
    } else {
        1 + first_index(order.drop_first(), hash)
    }
}

/// `first_index` is an index of `hash`, with no `hash` before it, exactly when `hash` occurs.
pub proof fn lemma_first_index(order: Seq<Seq<char>>, hash: Seq<char>)
    ensures
        0 <= first_index(order, hash) <= order.len(),
        first_index(order, hash) < order.len() ==> order[first_index(order, hash)] == hash,
        forall|j: int| 0 <= j < first_index(order, hash) ==> order[j] != hash,
        first_index(order, hash) < order.len() <==> order.contains(hash),
    decreases order.len(),
{
    if order.len() == 0 || order[0] == hash {
    } else {
        let rest = order.drop_first();
        lemma_first_index(rest, hash);
        assert forall|j: int| 0 <= j < first_index(order, hash) implies order[j] != hash by {
            if j > 0 {
                assert(order[j] == rest[j - 1]);
            }
        }
        if order.contains(hash) {
            let i = choose|i: int| 0 <= i < order.len() && order[i] == hash;
            assert(rest[i - 1] == hash);
        }
        if first_index(order, hash) < order.len() {
            assert(order[first_index(order, hash)] == rest[first_index(rest, hash)]);
        }
    }
}

/// `first_index` is the only index that has `hash` (or the end) with no `hash` before it.
pub proof fn lemma_first_index_unique(order: Seq<Seq<char>>, hash: Seq<char>, k: int)
    requires
        0 <= k <= order.len(),
        k < order.len() ==> order[k] == hash,
        forall|j: int| 0 <= j < k ==> order[j] != hash,
    ensures
        first_index(order, hash) == k,
{
    lemma_first_index(order, hash);
    let p = first_index(order, hash);
    if p < k {
        assert(order[p] != hash);
    }
}

/// What a ledger holds: the blocks and the transactions by hash, and the
/// hashes of the blocks in the order in which they were accepted.
#[verifier::ext_equal]
pub struct LedgerView {
    pub blocks: Map<Seq<char>, BlockView>,
    pub order: Seq<Seq<char>>,
    pub transactions: Map<Seq<char>, TransactionView>,
}

impl LedgerView {
    /// The ledger that holds nothing.
    pub open spec fn empty() -> LedgerView {
        LedgerView { blocks: Map::empty(), order: Seq::empty(), transactions: Map::empty() }
    }

    /// The invariant of a ledger: a hash is the key of a block exactly when it
    /// stands in the order, where it stands once; every block and every
    /// transaction is stored under its own hash.
    pub open spec fn valid(self) -> bool {
        &&& self.order.no_duplicates()
        &&& forall|h: Seq<char>| self.blocks.contains_key(h) <==> self.order.contains(h)
        &&& forall|h: Seq<char>|
            self.blocks.contains_key(h) ==> (#[trigger] self.blocks[h]).hash == h
        &&& forall|h: Seq<char>|
            self.transactions.contains_key(h) ==> (#[trigger] self.transactions[h]).hash == h
    }

    /// Whether a block is stored under `hash`.
    pub open spec fn has_block(self, hash: Seq<char>) -> bool {
        self.blocks.contains_key(hash)
    }

    /// Whether a transaction is stored under `hash`.
    pub open spec fn has_transaction(self, hash: Seq<char>) -> bool {
        self.transactions.contains_key(hash)
    }

    /// The ledger after a block was offered: it is stored and comes last in
    /// the order, unless its hash is known, in which case nothing changes.
    pub open spec fn add_block(
        self,
        hash: Seq<char>,
        content: Seq<char>,
        timestamp: u64,
    ) -> LedgerView {
        if self.has_block(hash) {
            self
        } else {
            LedgerView {
                blocks: self.blocks.insert(hash, BlockView { hash, content, timestamp }),
                order: self.order.push(hash),
                transactions: self.transactions,
            }
        }
    }

    /// The ledger after a transaction was offered: it is stored, unless its
    /// hash is known, in which case nothing changes.
    pub open spec fn add_transaction(
        self,
        hash: Seq<char>,
        data: Seq<char>,
        timestamp: u64,
    ) -> LedgerView {
        if self.has_transaction(hash) {
            self
        } else {
            LedgerView {
                blocks: self.blocks,
                order: self.order,
                transactions: self.transactions.insert(
                    hash,
                    TransactionView { hash, data, timestamp },
                ),
            }
        }
    }

    /// The order from the first occurrence of `start` on; the whole order
    /// where `start` does not occur.
    pub open spec fn blocks_from(self, start: Seq<char>) -> Seq<Seq<char>> {
        let at = first_index(self.order, start);
        if 0 <= at < self.order.len() {
            self.order.skip(at)
        } else {
            self.order
        }
    }
}

impl LedgerView {
    /// The ledger after each block of a list was offered, in order.
    pub open spec fn add_blocks(self, blocks: Seq<BlockView>) -> LedgerView
        decreases blocks.len(),
    {
        if blocks.len() == 0 {
            self
        } else {
            let last = blocks.last();
            self.add_blocks(blocks.drop_last()).add_block(last.hash, last.content, last.timestamp)
        }
    }
}

/// The hashes of a list of blocks.
pub open spec fn hashes_of(blocks: Seq<BlockView>) -> Seq<Seq<char>> {
    blocks.map_values(|b: BlockView| b.hash)
}

/// Offering a block keeps a ledger valid.
pub proof fn lemma_add_block_valid(
    ledger: LedgerView,
    hash: Seq<char>,
    content: Seq<char>,
    timestamp: u64,
)
    requires
        ledger.valid(),
    ensures
        ledger.add_block(hash, content, timestamp).valid(),
{
    let after = ledger.add_block(hash, content, timestamp);
    if !ledger.has_block(hash) {
        assert forall|h: Seq<char>| after.blocks.contains_key(h) <==> after.order.contains(h) by {
            if after.order.contains(h) {
                let i = choose|i: int| 0 <= i < after.order.len() && after.order[i] == h;
                if i < ledger.order.len() {
                    assert(ledger.order[i] == h);
                }
            }
            if ledger.order.contains(h) {
                let i = choose|i: int| 0 <= i < ledger.order.len() && ledger.order[i] == h;
                assert(after.order[i] == h);
            }
            if h == hash {
                assert(after.order[ledger.order.len() as int] == h);
            }
        }
        assert forall|i: int, j: int|
            0 <= i < after.order.len() && 0 <= j < after.order.len() && i != j implies
            after.order[i] != after.order[j] by {
            if i == ledger.order.len() {
                assert(ledger.order.contains(ledger.order[j]));
            } else if j == ledger.order.len() {
                assert(ledger.order.contains(ledger.order[i]));
            } else {
                assert(ledger.order[i] != ledger.order[j]);
            }
        }
    }
}

/// Offering a transaction keeps a ledger valid.
pub proof fn lemma_add_transaction_valid(
    ledger: LedgerView,
    hash: Seq<char>,
    data: Seq<char>,
    timestamp: u64,
)
    requires
        ledger.valid(),
    ensures
        ledger.add_transaction(hash, data, timestamp).valid(),
{
}

/// A block is stored at most once: offered a second time under the same
/// hash, whatever content and time come with it, it is refused, and the ledger
/// stays as the first offer left it.
pub proof fn law_block_stored_once(
    ledger: LedgerView,
    hash: Seq<char>,
    first: (Seq<char>, u64),
    second: (Seq<char>, u64),
)
    requires
        !ledger.has_block(hash),
    ensures
        ({
            let once = ledger.add_block(hash, first.0, first.1);
            &&& once.has_block(hash)
            &&& once.blocks[hash] == (BlockView { hash, content: first.0, timestamp: first.1 })
            &&& once.add_block(hash, second.0, second.1) == once
        }),
{
}

/// A transaction is stored at most once, as a block is.
pub proof fn law_transaction_stored_once(
    ledger: LedgerView,
    hash: Seq<char>,
    first: (Seq<char>, u64),
    second: (Seq<char>, u64),
)
    requires
        !ledger.has_transaction(hash),
    ensures
        ({
            let once = ledger.add_transaction(hash, first.0, first.1);
            &&& once.has_transaction(hash)
            &&& once.transactions[hash] == (TransactionView {
                hash,
                data: first.0,
                timestamp: first.1,
            })
            &&& once.add_transaction(hash, second.0, second.1) == once
        }),
{
}

/// Offering blocks with distinct new hashes appends their hashes to the order.
proof fn lemma_add_blocks(ledger: LedgerView, blocks: Seq<BlockView>)
    requires
        ledger.valid(),
        hashes_of(blocks).no_duplicates(),
        forall|k: int| 0 <= k < blocks.len() ==> !ledger.has_block(#[trigger] blocks[k].hash),
    ensures
        ledger.add_blocks(blocks).valid(),
        ledger.add_blocks(blocks).order == ledger.order + hashes_of(blocks),
    decreases blocks.len(),
{
    if blocks.len() == 0 {
        assert(ledger.order + hashes_of(blocks) =~= ledger.order);
    } else {
        let front = blocks.drop_last();
        let last = blocks.last();
        assert forall|i: int, j: int|
            0 <= i < front.len() && 0 <= j < front.len() && i != j implies hashes_of(front)[i]
            != hashes_of(front)[j] by {
            assert(hashes_of(blocks)[i] != hashes_of(blocks)[j]);
        }
        assert forall|k: int| 0 <= k < front.len() implies !ledger.has_block(
            #[trigger] front[k].hash,
        ) by {
            assert(front[k] == blocks[k]);
        }
        lemma_add_blocks(ledger, front);
        let before = ledger.add_blocks(front);
        lemma_add_block_valid(before, last.hash, last.content, last.timestamp);
        if before.has_block(last.hash) {
            assert(before.order.contains(last.hash));
            let i = choose|i: int| 0 <= i < before.order.len() && before.order[i] == last.hash;
            let n = blocks.len() - 1;
            if i < ledger.order.len() {
                assert(ledger.order[i] == last.hash);
                assert(ledger.order.contains(last.hash));
                assert(!ledger.has_block(blocks[n].hash));
            } else {
                let k = i - ledger.order.len();
                assert(hashes_of(front)[k] == last.hash);
                assert(hashes_of(blocks)[k] == hashes_of(blocks)[n]);
            }
            assert(false);
        }
        assert(before.order.push(last.hash) =~= ledger.order + hashes_of(blocks));
    }
}

/// Blocks are listed in the order in which they were accepted: after blocks
/// with distinct new hashes were offered one by one, the order is the old order
/// followed by their hashes, and the listing from any of these hashes is exactly
/// the hashes from that one on.
pub proof fn law_insertion_order(ledger: LedgerView, blocks: Seq<BlockView>)
    requires
        ledger.valid(),
        hashes_of(blocks).no_duplicates(),
        forall|k: int| 0 <= k < blocks.len() ==> !ledger.has_block(#[trigger] blocks[k].hash),
    ensures
        ledger.add_blocks(blocks).order == ledger.order + hashes_of(blocks),
        forall|k: int|
            0 <= k < blocks.len() ==> ledger.add_blocks(blocks).blocks_from(
                #[trigger] blocks[k].hash,
            ) == hashes_of(blocks).skip(k),
{
    lemma_add_blocks(ledger, blocks);
    let after = ledger.add_blocks(blocks);
    assert forall|k: int| 0 <= k < blocks.len() implies after.blocks_from(
        #[trigger] blocks[k].hash,
    ) == hashes_of(blocks).skip(k) by {
        let hash = blocks[k].hash;
        let at = ledger.order.len() + k;
        assert(after.order[at] == hashes_of(blocks)[k]);
        assert forall|j: int| 0 <= j < at implies after.order[j] != hash by {
            if j < ledger.order.len() {
                assert(ledger.order.contains(ledger.order[j]));
            } else {
                assert(hashes_of(blocks)[j - ledger.order.len()] != hashes_of(blocks)[k]);
            }
        }
        lemma_first_index_unique(after.order, hash, at);
        assert(after.order.skip(at) =~= hashes_of(blocks).skip(k));
    }
}

/// The listing from a hash that is not in the order is the whole order.
pub proof fn law_unknown_start_lists_all(ledger: LedgerView, start: Seq<char>)
    requires
        !ledger.order.contains(start),
    ensures
        ledger.blocks_from(start) == ledger.order,
{
    lemma_first_index(ledger.order, start);
}

/// The listing from a hash that is in the order starts with that hash and is
/// the rest of the order from its first occurrence.
pub proof fn law_known_start_lists_suffix(ledger: LedgerView, start: Seq<char>)
    requires
        ledger.order.contains(start),
    ensures
        ledger.blocks_from(start).len() > 0,
        ledger.blocks_from(start)[0] == start,
        ledger.blocks_from(start) == ledger.order.skip(first_index(ledger.order, start)),
{
    lemma_first_index(ledger.order, start);
}

/// The collections of a ledger.
struct Store {
    blocks: StringHashMap<Block>,
    transactions: StringHashMap<Transaction>,
    block_hashes: Vec<String>,
    seen_blocks: StringHashSet,
    seen_transactions: StringHashSet,
}

impl Store {
    /// What the collections hold.
    spec fn view(&self) -> LedgerView {
        LedgerView {
            blocks: self.blocks@.map_values(|b: Block| b@),
            order: texts(self.block_hashes@),
            transactions: self.transactions@.map_values(|t: Transaction| t@),
        }
    }

    /// The collections agree: the map, the order and the set of seen hashes
    /// name the same blocks, and the two collections of transactions the same
    /// transactions.
    spec fn wf(&self) -> bool {
        &&& self@.valid()
        &&& self.seen_blocks@ == self.blocks@.dom()
        &&& self.seen_transactions@ == self.transactions@.dom()
    }

    /// Empty collections.
    fn new() -> (store: Store)
        ensures
            store.wf(),
            store@ == LedgerView::empty(),
    {
        let store = Store {
            blocks: StringHashMap::new(),
            transactions: StringHashMap::new(),
            block_hashes: Vec::new(),
            seen_blocks: StringHashSet::new(),
            seen_transactions: StringHashSet::new(),
        };
        proof {
            assert(store@ =~= LedgerView::empty());
        }
        store
    }

    /// Stores a block in all three collections, unless its hash was seen.
    fn add_block(&mut self, hash: &str, content: &str, timestamp: u64) -> (added: bool)
        requires
            old(self).wf(),
        ensures
            final(self).wf(),
            added == !old(self)@.has_block(hash@),
            final(self)@ == old(self)@.add_block(hash@, content@, timestamp),
    {
        if self.seen_blocks.contains(hash) {
            return false;
        }
        self.seen_blocks.insert(hash.to_owned());
        let block = Block { hash: hash.to_owned(), content: content.to_owned(), timestamp };
        self.blocks.insert(hash.to_owned(), block);
        self.block_hashes.push(hash.to_owned());
        proof {
            let before = old(self)@;
            let after = before.add_block(hash@, content@, timestamp);
            assert(self@.blocks =~= after.blocks);
            assert(self@.order =~= after.order);
            assert(self@.transactions =~= after.transactions);
            assert(self@ =~= after);
            assert(self.seen_blocks@ =~= self.blocks@.dom());
            lemma_add_block_valid(before, hash@, content@, timestamp);
        }
        true
    }

    /// Stores a transaction in both collections, unless its hash was seen.
    fn add_transaction(&mut self, hash: &str, data: &str, timestamp: u64) -> (added: bool)
        requires
            old(self).wf(),
        ensures
            final(self).wf(),
            added == !old(self)@.has_transaction(hash@),
            final(self)@ == old(self)@.add_transaction(hash@, data@, timestamp),
    {
        if self.seen_transactions.contains(hash) {
            return false;
        }
        self.seen_transactions.insert(hash.to_owned());
        let transaction = Transaction { hash: hash.to_owned(), data: data.to_owned(), timestamp };
        self.transactions.insert(hash.to_owned(), transaction);
        proof {
            let before = old(self)@;
            let after = before.add_transaction(hash@, data@, timestamp);
            assert(self@.transactions =~= after.transactions);
            assert(self@.blocks =~= after.blocks);
            assert(self@ =~= after);
            assert(self.seen_transactions@ =~= self.transactions@.dom());
            lemma_add_transaction_valid(before, hash@, data@, timestamp);
        }
        true
    }
}

/// The ledger of a node.
pub struct Ledger {
    store: Store,
}

impl Ledger {
    /// Every ledger is well formed, at all times.
    #[verifier::type_invariant]
    spec fn inv(&self) -> bool {
        self.store.wf()
    }

    /// What the ledger holds.
    pub closed spec fn view(&self) -> LedgerView {
        self.store@
    }

    /// A ledger that holds nothing.
    pub fn new() -> (ledger: Ledger)
        ensures
            ledger@ == LedgerView::empty(),
    {
        Ledger { store: Store::new() }
    }
}

/// Trusted: `std::time::SystemTime::elapsed`, asked of the Unix epoch: the
/// whole seconds that have passed since (0 for a clock that stands before it).
/// Nothing is claimed of the value.
#[verifier::external_body]
fn unix_time() -> u64 {
    match std::time::UNIX_EPOCH.elapsed() {
        Ok(elapsed) => elapsed.as_secs(),
        Err(_) => 0,
    }
}

/// Offers a block with the time at which it is accepted. It is stored, last in
/// the order, if and only if its hash is new.
pub fn add_block_at(ledger: &mut Ledger, hash: &str, content: &str, timestamp: u64) -> (added: bool)
    ensures
        added == !old(ledger)@.has_block(hash@),
        final(ledger)@ == old(ledger)@.add_block(hash@, content@, timestamp),
        final(ledger)@.valid(),
{
    proof {
        use_type_invariant(&*ledger);
    }
    let mut store = Store::new();
    std::mem::swap(&mut store, &mut ledger.store);
    let added = store.add_block(hash, content, timestamp);
    ledger.store = store;
    added
}

/// Offers a block, stamped with the current time. It is stored, last in the
/// order, if and only if its hash is new; a known hash changes nothing.
pub fn add_block(ledger: &mut Ledger, hash: &str, content: &str) -> (added: bool)
    ensures
        added == !old(ledger)@.has_block(hash@),
        final(ledger)@ == old(ledger)@.add_block(
            hash@,
            content@,
            final(ledger)@.blocks[hash@].timestamp,
        ),
        final(ledger)@.valid(),
{
    proof {
        use_type_invariant(&*ledger);
    }
    if ledger.store.seen_blocks.contains(hash) {
        return false;
    }
    let now = unix_time();
    add_block_at(ledger, hash, content, now)
}

/// Offers a transaction with the time at which it is accepted. It is stored
/// if and only if its hash is new.
pub fn add_transaction_at(ledger: &mut Ledger, hash: &str, data: &str, timestamp: u64) -> (added:
    bool)
    ensures
        added == !old(ledger)@.has_transaction(hash@),
        final(ledger)@ == old(ledger)@.add_transaction(hash@, data@, timestamp),
        final(ledger)@.valid(),
{
    proof {
        use_type_invariant(&*ledger);
    }
    let mut store = Store::new();
    std::mem::swap(&mut store, &mut ledger.store);
    let added = store.add_transaction(hash, data, timestamp);
    ledger.store = store;
    added
}

/// Offers a transaction, stamped with the current time. It is stored if and
/// only if its hash is new; a known hash changes nothing.
pub fn add_transaction(ledger: &mut Ledger, hash: &str, data: &str) -> (added: bool)
    ensures
        added == !old(ledger)@.has_transaction(hash@),
        final(ledger)@ == old(ledger)@.add_transaction(
            hash@,
            data@,
            final(ledger)@.transactions[hash@].timestamp,
        ),
        final(ledger)@.valid(),
{
    proof {
        use_type_invariant(&*ledger);
    }
    if ledger.store.seen_transactions.contains(hash) {
        return false;
    }
    let now = unix_time();
    add_transaction_at(ledger, hash, data, now)
}

/// Whether a block with this hash is stored.
pub fn has_block(ledger: &Ledger, hash: &str) -> (known: bool)
    ensures
        known == ledger@.has_block(hash@),
        ledger@.valid(),
{
    proof {
        use_type_invariant(ledger);
    }
    ledger.store.seen_blocks.contains(hash)
}

/// Whether a transaction with this hash is stored.
pub fn has_transaction(ledger: &Ledger, hash: &str) -> (known: bool)
    ensures
        known == ledger@.has_transaction(hash@),
        ledger@.valid(),
{
    proof {
        use_type_invariant(ledger);
    }
    ledger.store.seen_transactions.contains(hash)
}

/// The block stored under `hash`, if there is one.
pub fn get_block(ledger: &Ledger, hash: &str) -> (found: Option<Block>)
    ensures
        match found {
            Some(block) => ledger@.has_block(hash@) && block@ == ledger@.blocks[hash@],
            None => !ledger@.has_block(hash@),
        },
        ledger@.valid(),
{
    proof {
        use_type_invariant(ledger);
    }
    match ledger.store.blocks.get(hash) {
        Some(block) => Some(
            Block {
                hash: block.hash.clone(),
                content: block.content.clone(),
                timestamp: block.timestamp,
            },
        ),
        None => None,
    }
}

/// The transaction stored under `hash`, if there is one.
pub fn get_transaction(ledger: &Ledger, hash: &str) -> (found: Option<Transaction>)
    ensures
        match found {
            Some(transaction) => ledger@.has_transaction(hash@) && transaction@
                == ledger@.transactions[hash@],
            None => !ledger@.has_transaction(hash@),
        },
        ledger@.valid(),
{
    proof {
        use_type_invariant(ledger);
    }
    match ledger.store.transactions.get(hash) {
        Some(transaction) => Some(
            Transaction {
                hash: transaction.hash.clone(),
                data: transaction.data.clone(),
                timestamp: transaction.timestamp,
            },
        ),
        None => None,
    }
}

/// Copies of the strings of `list` from index `from` on.
fn copy_from(list: &Vec<String>, from: usize) -> (copy: Vec<String>)
    requires
        from <= list@.len(),
    ensures
        texts(copy@) == texts(list@).skip(from as int),
{
    let mut copy: Vec<String> = Vec::new();
    let mut i: usize = from;
    while i < list.len()
        invariant
            from <= i <= list@.len(),
            texts(copy@) == texts(list@).subrange(from as int, i as int),
        decreases list@.len() - i,
    {
        let ghost before = copy@;
        copy.push(list[i].clone());
        proof {
            assert(texts(copy@) =~= texts(before).push(list@[i as int]@));
            assert(texts(list@).subrange(from as int, i + 1) =~= texts(list@).subrange(
                from as int,
                i as int,
            ).push(list@[i as int]@));
        }
        i += 1;
    }
    proof {
        assert(texts(list@).subrange(from as int, list@.len() as int) =~= texts(list@).skip(
            from as int,
        ));
    }
    copy
}

/// The hashes of all blocks, in the order in which they were accepted.
pub fn get_all_block_hashes(ledger: &Ledger) -> (hashes: Vec<String>)
    ensures
        texts(hashes@) == ledger@.order,
        ledger@.valid(),
{
    proof {
        use_type_invariant(ledger);
    }
    let hashes = copy_from(&ledger.store.block_hashes, 0);
    proof {
        assert(ledger@.order.skip(0) =~= ledger@.order);
    }
    hashes
}

/// The hashes of the blocks from `start_hash` on, in the order in which they were
/// accepted; all of them where `start_hash` is not the hash of a stored block.
pub fn get_blocks_from(ledger: &Ledger, start_hash: &str) -> (hashes: Vec<String>)
    ensures
        texts(hashes@) == ledger@.blocks_from(start_hash@),
        ledger@.valid(),
{
    proof {
        use_type_invariant(ledger);
    }
    let list = &ledger.store.block_hashes;
    let start = start_hash.to_owned();
    let mut i: usize = 0;
    while i < list.len() && list[i] != start
        invariant
            0 <= i <= list@.len(),
            start@ == start_hash@,
            forall|j: int| 0 <= j < i ==> texts(list@)[j] != start_hash@,
        decreases list@.len() - i,
    {
        i += 1;
    }
    proof {
        lemma_first_index_unique(texts(list@), start_hash@, i as int);
    }
    if i < list.len() {
        copy_from(list, i)
    } else {
        let hashes = copy_from(list, 0);
        proof {
            assert(ledger@.order.skip(0) =~= ledger@.order);
        }
        hashes
    }
}

/// The SHA-256 digest of a sequence of bytes.
pub uninterp spec fn sha256(data: Seq<u8>) -> Seq<u8>;

/// Trusted: `sha2::Sha256::digest`. The result is the SHA-256 digest of the bytes given.
#[verifier::external_body]
fn sha256_digest(data: &[u8]) -> (digest: Vec<u8>)
    ensures
        digest@ == sha256(data@),
{
    Sha256::digest(data).to_vec()
}

/// The character that writes a number below sixteen in lower-case hexadecimal.
pub open spec fn hex_digit(n: nat) -> char {
    if n < 10 {
        digit_char(n)
    } else if n == 10 {
        'a'
    } else if n == 11 {
        'b'
    } else if n == 12 {
        'c'
    } else if n == 13 {
        'd'
    } else if n == 14 {
        'e'
    } else {
        'f'
    }
}

/// Two lower-case hexadecimal digits for every byte, the high half first.
pub open spec fn hex_text(bytes: Seq<u8>) -> Seq<char> {
    Seq::new(
        2 * bytes.len(),
        |i: int|
            if i % 2 == 0 {
                hex_digit((bytes[i / 2] / 16) as nat)
            } else {
                hex_digit((bytes[i / 2] % 16) as nat)
            },
    )
}

/// Trusted: `hex::encode`. The result writes every byte as two lower-case
/// hexadecimal digits, the high half first.
#[verifier::external_body]
fn hex_encode(bytes: &[u8]) -> (text: String)
    ensures
        text@ == hex_text(bytes@),
{
    hex::encode(bytes)
}

/// The hash of a content: the SHA-256 digest of its bytes, in hexadecimal.
pub open spec fn content_hash(data: Seq<char>) -> Seq<char> {
    hex_text(sha256(vstd::utf8::encode_utf8(data)))
}

/// Computes the hash of a content.
pub fn compute_hash(data: &str) -> (hash: String)
    ensures
        hash@ == content_hash(data@),
{
    let digest = sha256_digest(data.as_bytes());
    hex_encode(digest.as_slice())
}

/// The content of the first block of every ledger.
pub open spec fn genesis_content() -> Seq<char> {
    "Genesis Block"@
}

/// Stores the genesis block, under the hash of its content, unless it is stored already.
pub fn init_genesis_block(ledger: &mut Ledger)
    ensures
        final(ledger)@ == old(ledger)@.add_block(
            content_hash(genesis_content()),
            genesis_content(),
            final(ledger)@.blocks[content_hash(genesis_content())].timestamp,
        ),
        final(ledger)@.valid(),
{
    let content = "Genesis Block";
    let hash = compute_hash(content);
    add_block(ledger, hash.as_str(), content);
}

/// Offers a block that a peer sent, as `add_block` does.
pub fn received_block_from_network(ledger: &mut Ledger, hash: &str, content: &str) -> (added: bool)
    ensures
        added == !old(ledger)@.has_block(hash@),
        final(ledger)@ == old(ledger)@.add_block(
            hash@,
            content@,
            final(ledger)@.blocks[hash@].timestamp,
        ),
        final(ledger)@.valid(),
{
    add_block(ledger, hash, content)
}

/// Offers a transaction that a peer sent, as `add_transaction` does.
pub fn received_transaction_from_network(ledger: &mut Ledger, hash: &str, data: &str) -> (added:
    bool)
    ensures
        added == !old(ledger)@.has_transaction(hash@),
        final(ledger)@ == old(ledger)@.add_transaction(
            hash@,
            data@,
            final(ledger)@.transactions[hash@].timestamp,
        ),
        final(ledger)@.valid(),
{
    add_transaction(ledger, hash, data)
}

/// The reply that lists block hashes.
pub open spec fn blocks_doc(hashes: Seq<Seq<char>>) -> JsonView {
    JsonView::Object(
        seq![
            ("blocks"@, text_list_view(hashes)),
            ("count"@, JsonView::Number(Some(hashes.len() as u64))),
        ],
    )
}

/// The reply to a request for block hashes whose path names no starting hash.
pub open spec fn invalid_blocks_doc() -> JsonView {
    JsonView::Object(
        seq![
            ("error"@, JsonView::Text("Invalid request"@)),
            ("blocks"@, JsonView::List(Seq::empty())),
            ("count"@, JsonView::Number(Some(0))),
        ],
    )
}

/// The part of a path after its second slash, up to the third: in
/// `/getdata/<hash>` the hash.
pub open spec fn path_argument(path: Seq<char>) -> Option<Seq<char>> {
    let parts = split(path, '/');
    if parts.len() >= 3 {
        Some(parts[2])
    } else {
        None
    }
}

/// Reads the argument of a path.
fn read_path_argument(path: &str) -> (argument: Option<String>)
    ensures
        match argument {
            Some(a) => path_argument(path@) == Some(a@),
            None => path_argument(path@) is None,
        },
{
    let chars = chars_of(path);
    let parts = split_on(chars.as_slice(), 0, chars.len(), '/');
    proof {
        assert(chars@.subrange(0, chars@.len() as int) =~= path@);
    }
    if parts.len() >= 3 {
        let (start, end) = parts[2];
        proof {
            assert(split(path@, '/')[2] == chars@.subrange(start as int, end as int));
        }
        Some(copy_range(path, start, end))
    } else {
        None
    }
}

/// The document that answers `GET /getblocks` and `GET /getblocks/<hash>`.
pub open spec fn getblocks_reply(ledger: LedgerView, path: Seq<char>) -> JsonView {
    if path == "/getblocks"@ {
        blocks_doc(ledger.order)
    } else {
        match path_argument(path) {
            Some(start) => blocks_doc(ledger.blocks_from(start)),
            None => invalid_blocks_doc(),
        }
    }
}

/// Builds the reply that lists block hashes.
fn blocks_reply(hashes: &Vec<String>) -> (doc: Json)
    ensures
        doc@ == blocks_doc(texts(hashes@)),
{
    let count = hashes.len() as u64;
    let fields = vec![
        member("blocks", Json::text_list(hashes)),
        member("count", Json::number(count)),
    ];
    proof {
        assert(fields_view(fields@) =~= seq![
            ("blocks"@, text_list_view(texts(hashes@))),
            ("count"@, JsonView::Number(Some(count))),
        ]);
    }
    Json::object(fields)
}

/// Answers a request for block hashes: all of them for `/getblocks`, those
/// from `<hash>` on for `/getblocks/<hash>` (all of them where the hash is not known).
pub fn handle_getblocks_request(ledger: &Ledger, path: &str) -> (reply: String)
    ensures
        reply@ == json_text(getblocks_reply(ledger@, path@)),
{
    let chars = chars_of(path);
    proof {
        assert(chars@.subrange(0, chars@.len() as int) =~= path@);
    }
    if range_is(chars.as_slice(), 0, chars.len(), "/getblocks") {
        let hashes = get_all_block_hashes(ledger);
        render(&blocks_reply(&hashes))
    } else {
        match read_path_argument(path) {
            Some(start) => {
                let hashes = get_blocks_from(ledger, start.as_str());
                render(&blocks_reply(&hashes))
            },
            None => {
                let none: Vec<Json> = Vec::new();
                proof {
                    assert(items_view(none@) =~= Seq::<JsonView>::empty());
                }
                let fields = vec![
                    member("error", Json::text("Invalid request")),
                    member("blocks", Json::list(none)),
                    member("count", Json::number(0)),
                ];
                proof {
                    assert(fields_view(fields@) =~= invalid_blocks_doc()->Object_0);
                }
                render(&Json::object(fields))
            },
        }
    }
}

/// The reply that carries a block.
pub open spec fn found_doc(block: BlockView) -> JsonView {
    JsonView::Object(
        seq![
            ("hash"@, JsonView::Text(block.hash)),
            ("content"@, JsonView::Text(block.content)),
            ("timestamp"@, JsonView::Number(Some(block.timestamp))),
            ("found"@, JsonView::Bool(true)),
        ],
    )
}

/// The reply for a hash under which no block is stored.
pub open spec fn not_found_doc(hash: Seq<char>) -> JsonView {
    JsonView::Object(
        seq![
            ("error"@, JsonView::Text("Block not found"@)),
            ("hash"@, JsonView::Text(hash)),
            ("found"@, JsonView::Bool(false)),
        ],
    )
}

/// The reply to a request for a block whose path names no hash.
pub open spec fn invalid_request_doc() -> JsonView {
    JsonView::Object(seq![("error"@, JsonView::Text("Invalid request"@))])
}

/// The document that answers `GET /getdata/<hash>`.
pub open spec fn getdata_reply(ledger: LedgerView, path: Seq<char>) -> JsonView {
    match path_argument(path) {
        None => invalid_request_doc(),
        Some(hash) => if ledger.has_block(hash) {
            found_doc(ledger.blocks[hash])
        } else {
            not_found_doc(hash)
        },
    }
}

/// Answers a request for the block stored under the hash that the path names.
pub fn handle_getdata_request(ledger: &Ledger, path: &str) -> (reply: String)
    ensures
        reply@ == json_text(getdata_reply(ledger@, path@)),
{
    let hash = match read_path_argument(path) {
        Some(hash) => hash,
        None => {
            let fields = vec![member("error", Json::text("Invalid request"))];
            proof {
                assert(fields_view(fields@) =~= invalid_request_doc()->Object_0);
            }
            return render(&Json::object(fields));
        },
    };
    match get_block(ledger, hash.as_str()) {
        Some(block) => {
            let fields = vec![
                member("hash", Json::text(block.hash.as_str())),
                member("content", Json::text(block.content.as_str())),
                member("timestamp", Json::number(block.timestamp)),
                member("found", Json::Bool(true)),
            ];
            proof {
                assert(fields_view(fields@) =~= found_doc(block@)->Object_0);
            }
            render(&Json::object(fields))
        },
        None => {
            let fields = vec![
                member("error", Json::text("Block not found")),
                member("hash", Json::text(hash.as_str())),
                member("found", Json::Bool(false)),
            ];
            proof {
                assert(fields_view(fields@) =~= not_found_doc(hash@)->Object_0);
            }
            render(&Json::object(fields))
        },
    }
}

/// What a node passes on to its peers once it has accepted it.
#[derive(Debug, Clone, PartialEq, Eq)]
pub enum Gossip {
    Transaction { hash: String, data: String },
    Block { hash: String, content: String },
}

/// What a `Gossip` stands for.
pub enum GossipView {
    Transaction { hash: Seq<char>, data: Seq<char> },
    Block { hash: Seq<char>, content: Seq<char> },
}

impl View for Gossip {
    type V = GossipView;

    open spec fn view(&self) -> GossipView {
        match self {
            Gossip::Transaction { hash, data } => GossipView::Transaction {
                hash: hash@,
                data: data@,
            },
            Gossip::Block { hash, content } => GossipView::Block { hash: hash@, content: content@ },
        }
    }
}

/// The outcome of a submission: the reply to send, and what to pass on to the
/// peers, if anything.
#[derive(Debug)]
pub struct Handled {
    pub reply: String,
    pub gossip: Option<Gossip>,
}

impl Handled {
    /// What is to be passed on, as a view.
    pub open spec fn gossip_view(&self) -> Option<GossipView> {
        match self.gossip {
            Some(g) => Some(g@),
            None => None,
        }
    }
}

/// How a submission ends.
#[derive(Debug, Clone, Copy, PartialEq, Eq)]
pub enum Verdict {
    /// It was new, and is stored.
    Accepted,
    /// Its hash is known.
    Duplicate,
    /// The document lacks a member, or has it with another type than a string.
    Malformed,
    /// The body is no JSON text.
    Unreadable,
}

/// The reply to a submission that was accepted.
pub open spec fn accepted_doc(message: Seq<char>) -> JsonView {
    JsonView::Object(
        seq![("status"@, JsonView::Number(Some(1))), ("message"@, JsonView::Text(message))],
    )
}

/// The reply to a submission that was not accepted, with the code of the reason.
pub open spec fn rejected_doc(code: u64, message: Seq<char>) -> JsonView {
    JsonView::Object(
        seq![
            ("status"@, JsonView::Number(Some(0))),
            ("errcode"@, JsonView::Number(Some(code))),
            ("errmsg"@, JsonView::Text(message)),
        ],
    )
}

/// The hash and the payload that a submitted document names: its members
/// `hash` and `payload_key`, where both are strings.
pub open spec fn submitted(doc: JsonView, payload_key: Seq<char>) -> Option<
    (Seq<char>, Seq<char>),
> {
    match (doc.str_member("hash"@), doc.str_member(payload_key)) {
        (Some(hash), Some(payload)) => Some((hash, payload)),
        _ => None,
    }
}

/// How the submission of a transaction ends.
pub open spec fn transaction_verdict(
    ledger: LedgerView,
    parsed: Result<JsonView, Seq<char>>,
) -> Verdict {
    match parsed {
        Err(_) => Verdict::Unreadable,
        Ok(doc) => match submitted(doc, "data"@) {
            None => Verdict::Malformed,
            Some(entry) => if ledger.has_transaction(entry.0) {
                Verdict::Duplicate
            } else {
                Verdict::Accepted
            },
        },
    }
}

/// How the submission of a block ends.
pub open spec fn block_verdict(ledger: LedgerView, parsed: Result<JsonView, Seq<char>>) -> Verdict {
    match parsed {
        Err(_) => Verdict::Unreadable,
        Ok(doc) => match submitted(doc, "content"@) {
            None => Verdict::Malformed,
            Some(entry) => if ledger.has_block(entry.0) {
                Verdict::Duplicate
            } else {
                Verdict::Accepted
            },
        },
    }
}

/// The message of the reply to a body that is no JSON text.
pub open spec fn parse_error_message(parsed: Result<JsonView, Seq<char>>) -> Seq<char> {
    match parsed {
        Err(message) => "JSON parse error: "@ + message,
        Ok(_) => Seq::empty(),
    }
}

/// The document that answers the submission of a transaction.
pub open spec fn transaction_reply(
    verdict: Verdict,
    parsed: Result<JsonView, Seq<char>>,
) -> JsonView {
    match verdict {
        Verdict::Accepted => accepted_doc("Transaction accepted"@),
        Verdict::Duplicate => rejected_doc(1, "Transaction already exists"@),
        Verdict::Malformed => rejected_doc(2, "Invalid transaction format"@),
        Verdict::Unreadable => rejected_doc(3, parse_error_message(parsed)),
    }
}

/// The document that answers the submission of a block.
pub open spec fn block_reply(verdict: Verdict, parsed: Result<JsonView, Seq<char>>) -> JsonView {
    match verdict {
        Verdict::Accepted => accepted_doc("Block accepted"@),
        Verdict::Duplicate => rejected_doc(1, "Block already exists"@),
        Verdict::Malformed => rejected_doc(2, "Invalid block format"@),
        Verdict::Unreadable => rejected_doc(3, parse_error_message(parsed)),
    }
}

/// Writes the reply to a submission that was accepted.
fn accepted_reply(message: &str) -> (reply: String)
    ensures
        reply@ == json_text(accepted_doc(message@)),
{
    let fields = vec![member("status", Json::number(1)), member("message", Json::text(message))];
    proof {
        assert(fields_view(fields@) =~= accepted_doc(message@)->Object_0);
    }
    render(&Json::object(fields))
}

/// Writes the reply to a submission that was not accepted.
fn rejected_reply(code: u64, message: &str) -> (reply: String)
    ensures
        reply@ == json_text(rejected_doc(code, message@)),
{
    let fields = vec![
        member("status", Json::number(0)),
        member("errcode", Json::number(code)),
        member("errmsg", Json::text(message)),
    ];
    proof {
        assert(fields_view(fields@) =~= rejected_doc(code, message@)->Object_0);
    }
    render(&Json::object(fields))
}

/// Writes the reply to a body that is no JSON text.
fn unreadable_reply(message: &String) -> (reply: String)
    ensures
        reply@ == json_text(rejected_doc(3, "JSON parse error: "@ + message@)),
{
    let mut text = "JSON parse error: ".to_owned();
    text.append(message.as_str());
    rejected_reply(3, text.as_str())
}

/// The ledger after a submission: the entry that the document names is
/// offered; a document that names none changes nothing.
pub open spec fn after_transaction(
    before: LedgerView,
    parsed: Result<JsonView, Seq<char>>,
    after: LedgerView,
) -> bool {
    match parsed {
        Ok(doc) => match submitted(doc, "data"@) {
            Some(entry) => after == before.add_transaction(
                entry.0,
                entry.1,
                after.transactions[entry.0].timestamp,
            ),
            None => after == before,
        },
        Err(_) => after == before,
    }
}

/// The ledger after the submission of a block, as `after_transaction`.
pub open spec fn after_block(
    before: LedgerView,
    parsed: Result<JsonView, Seq<char>>,
    after: LedgerView,
) -> bool {
    match parsed {
        Ok(doc) => match submitted(doc, "content"@) {
            Some(entry) => after == before.add_block(
                entry.0,
                entry.1,
                after.blocks[entry.0].timestamp,
            ),
            None => after == before,
        },
        Err(_) => after == before,
    }
}

/// What is passed on after the submission of a transaction: the transaction,
/// if and only if it was accepted.
pub open spec fn transaction_gossip(
    verdict: Verdict,
    parsed: Result<JsonView, Seq<char>>,
) -> Option<GossipView> {
    match (verdict, parsed) {
        (Verdict::Accepted, Ok(doc)) => match submitted(doc, "data"@) {
            Some(entry) => Some(GossipView::Transaction { hash: entry.0, data: entry.1 }),
            None => None,
        },
        _ => None,
    }
}

/// What is passed on after the submission of a block: the block, if and only
/// if it was accepted.
pub open spec fn block_gossip(
    verdict: Verdict,
    parsed: Result<JsonView, Seq<char>>,
) -> Option<GossipView> {
    match (verdict, parsed) {
        (Verdict::Accepted, Ok(doc)) => match submitted(doc, "content"@) {
            Some(entry) => Some(GossipView::Block { hash: entry.0, content: entry.1 }),
            None => None,
        },
        _ => None,
    }
}

/// Gossip is not amplified: a transaction that two nodes both hold is
/// answered by each of them with error 1, changes neither ledger and is passed
/// on by neither.
pub proof fn law_known_transaction_not_passed_on(
    one: LedgerView,
    other: LedgerView,
    doc: JsonView,
    after_one: LedgerView,
    after_other: LedgerView,
)
    requires
        submitted(doc, "data"@) is Some,
        one.has_transaction(submitted(doc, "data"@)->Some_0.0),
        other.has_transaction(submitted(doc, "data"@)->Some_0.0),
        after_transaction(one, Ok(doc), after_one),
        after_transaction(other, Ok(doc), after_other),
    ensures
        transaction_verdict(one, Ok(doc)) is Duplicate,
        transaction_verdict(other, Ok(doc)) is Duplicate,
        transaction_reply(transaction_verdict(one, Ok(doc)), Ok(doc)) == rejected_doc(
            1,
            "Transaction already exists"@,
        ),
        transaction_reply(transaction_verdict(other, Ok(doc)), Ok(doc)) == rejected_doc(
            1,
            "Transaction already exists"@,
        ),
        transaction_gossip(transaction_verdict(one, Ok(doc)), Ok(doc)) is None,
        transaction_gossip(transaction_verdict(other, Ok(doc)), Ok(doc)) is None,
        after_one == one,
        after_other == other,
{
}

/// A block that two nodes both hold is answered by each of them with error 1,
/// changes neither ledger and is passed on by neither.
pub proof fn law_known_block_not_passed_on(
    one: LedgerView,
    other: LedgerView,
    doc: JsonView,
    after_one: LedgerView,
    after_other: LedgerView,
)
    requires
        submitted(doc, "content"@) is Some,
        one.has_block(submitted(doc, "content"@)->Some_0.0),
        other.has_block(submitted(doc, "content"@)->Some_0.0),
        after_block(one, Ok(doc), after_one),
        after_block(other, Ok(doc), after_other),
    ensures
        block_verdict(one, Ok(doc)) is Duplicate,
        block_verdict(other, Ok(doc)) is Duplicate,
        block_reply(block_verdict(one, Ok(doc)), Ok(doc)) == rejected_doc(
            1,
            "Block already exists"@,
        ),
        block_reply(block_verdict(other, Ok(doc)), Ok(doc)) == rejected_doc(
            1,
            "Block already exists"@,
        ),
        block_gossip(block_verdict(one, Ok(doc)), Ok(doc)) is None,
        block_gossip(block_verdict(other, Ok(doc)), Ok(doc)) is None,
        after_one == one,
        after_other == other,
{
}

/// Decides the submission of a transaction whose body has been read as JSON.
///
/// A transaction with a new hash is stored, answered with status 1 and passed
/// on; one with a known hash is answered with error 1, a document without the
/// two strings with error 2, a body that was no JSON with error 3, and none of
/// these changes the ledger or is passed on.
pub fn submit_transaction(ledger: &mut Ledger, parsed: &Result<Json, String>) -> (outcome: Handled)
    ensures
        outcome.reply@ == json_text(
            transaction_reply(
                transaction_verdict(old(ledger)@, parsed_view(*parsed)),
                parsed_view(*parsed),
            ),
        ),
        outcome.gossip_view() == transaction_gossip(
            transaction_verdict(old(ledger)@, parsed_view(*parsed)),
            parsed_view(*parsed),
        ),
        after_transaction(old(ledger)@, parsed_view(*parsed), final(ledger)@),
        final(ledger)@.valid(),
{
    proof {
        use_type_invariant(&*ledger);
    }
    let doc = match parsed {
        Ok(doc) => doc,
        Err(message) => {
            return Handled { reply: unreadable_reply(message), gossip: None };
        },
    };
    match (doc.str_member("hash"), doc.str_member("data")) {
        (Some(hash), Some(data)) => {
            if add_transaction(ledger, hash, data) {
                Handled {
                    reply: accepted_reply("Transaction accepted"),
                    gossip: Some(
                        Gossip::Transaction { hash: hash.to_owned(), data: data.to_owned() },
                    ),
                }
            } else {
                Handled { reply: rejected_reply(1, "Transaction already exists"), gossip: None }
            }
        },
        _ => Handled { reply: rejected_reply(2, "Invalid transaction format"), gossip: None },
    }
}

/// Decides the submission of a block whose body has been read as JSON, as
/// `submit_transaction` does for a transaction.
pub fn submit_block(ledger: &mut Ledger, parsed: &Result<Json, String>) -> (outcome: Handled)
    ensures
        outcome.reply@ == json_text(
            block_reply(block_verdict(old(ledger)@, parsed_view(*parsed)), parsed_view(*parsed)),
        ),
        outcome.gossip_view() == block_gossip(
            block_verdict(old(ledger)@, parsed_view(*parsed)),
            parsed_view(*parsed),
        ),
        after_block(old(ledger)@, parsed_view(*parsed), final(ledger)@),
        final(ledger)@.valid(),
{
    proof {
        use_type_invariant(&*ledger);
    }
    let doc = match parsed {
        Ok(doc) => doc,
        Err(message) => {
            return Handled { reply: unreadable_reply(message), gossip: None };
        },
    };
    match (doc.str_member("hash"), doc.str_member("content")) {
        (Some(hash), Some(content)) => {
            if add_block(ledger, hash, content) {
                Handled {
                    reply: accepted_reply("Block accepted"),
                    gossip: Some(
                        Gossip::Block { hash: hash.to_owned(), content: content.to_owned() },
                    ),
                }
            } else {
                Handled { reply: rejected_reply(1, "Block already exists"), gossip: None }
            }
        },
        _ => Handled { reply: rejected_reply(2, "Invalid block format"), gossip: None },
    }
}

/// Answers `POST /inv`: reads the body as JSON and decides the submission of
/// the transaction it names.
pub fn handle_inv_request(ledger: &mut Ledger, body: &str) -> (outcome: Handled)
    ensures
        outcome.reply@ == json_text(
            transaction_reply(
                transaction_verdict(old(ledger)@, json_parse(body@)),
                json_parse(body@),
            ),
        ),
        outcome.gossip_view() == transaction_gossip(
            transaction_verdict(old(ledger)@, json_parse(body@)),
            json_parse(body@),
        ),
        after_transaction(old(ledger)@, json_parse(body@), final(ledger)@),
        final(ledger)@.valid(),
{
    let parsed = parse(body);
    submit_transaction(ledger, &parsed)
}

/// Answers `POST /block`: reads the body as JSON and decides the submission of
/// the block it names.
pub fn handle_block_request(ledger: &mut Ledger, body: &str) -> (outcome: Handled)
    ensures
        outcome.reply@ == json_text(
            block_reply(block_verdict(old(ledger)@, json_parse(body@)), json_parse(body@)),
        ),
        outcome.gossip_view() == block_gossip(
            block_verdict(old(ledger)@, json_parse(body@)),
            json_parse(body@),
        ),
        after_block(old(ledger)@, json_parse(body@), final(ledger)@),
        final(ledger)@.valid(),
{
    let parsed = parse(body);
    submit_block(ledger, &parsed)
}

} // verus!
