//! The ledger store: a hash-linked chain, a pool of entries waiting to be linked,
//! and the set of known node ids.

use vstd::prelude::*;
use crate::entry::{EntryModel, LedgerEntry, genesis_hash, valid_entry, local_entry_id};
use crate::time::earlier;

verus! {

/// Every entry links to its predecessor; the first one links to the genesis hash.
pub open spec fn chain_linked(c: Seq<EntryModel>) -> bool {
    &&& c.len() > 0 ==> c[0].previous_hash == genesis_hash()
    &&& forall|i: int| 1 <= i < c.len() ==> #[trigger] c[i].previous_hash == c[i - 1].hash
}

/// The hash that a new entry must name as its predecessor.
pub open spec fn tip_hash(c: Seq<EntryModel>) -> Seq<char> {
    if c.len() == 0 {
        genesis_hash()
    } else {
        c.last().hash
    }
}

/// Entries whose hash matches their fields.
pub open spec fn all_valid(c: Seq<EntryModel>) -> bool {
    forall|i: int| 0 <= i < c.len() ==> valid_entry(#[trigger] c[i])
}

/// No two entries of the pool share an id.
pub open spec fn ids_unique(pool: Seq<EntryModel>) -> bool {
    forall|i: int, j: int|
        0 <= i < pool.len() && 0 <= j < pool.len() && i != j ==> #[trigger] pool[i].id
            != #[trigger] pool[j].id
}

/// A pending entry that can be linked onto a chain whose tip hash is `tip`.
pub open spec fn is_candidate(e: EntryModel, tip: Seq<char>) -> bool {
    e.previous_hash == tip && valid_entry(e)
}

/// The candidate at `i` is the one that reconciliation links: no candidate is
/// earlier, and among equally early ones it entered the pool first.
pub open spec fn is_preferred(pool: Seq<EntryModel>, tip: Seq<char>, i: int) -> bool {
    &&& 0 <= i < pool.len()
    &&& is_candidate(pool[i], tip)
    &&& forall|j: int|
        0 <= j < pool.len() && is_candidate(#[trigger] pool[j], tip) ==> !earlier(
            pool[j].timestamp,
            pool[i].timestamp,
        ) && (pool[j].timestamp == pool[i].timestamp ==> i <= j)
}

/// One reconciliation from (`chain`, `pool`) to (`chain2`, `pool2`), linking `linked`.
/// With the tip hash taken at the start, the preferred candidate, if any, moves
/// from the pool to the end of the chain; every other entry stays where it was.
pub open spec fn reconciled(
    chain: Seq<EntryModel>,
    pool: Seq<EntryModel>,
    chain2: Seq<EntryModel>,
    pool2: Seq<EntryModel>,
    linked: Seq<EntryModel>,
) -> bool {
    let tip = tip_hash(chain);
    if exists|i: int| 0 <= i < pool.len() && is_candidate(#[trigger] pool[i], tip) {
        exists|i: int|
            is_preferred(pool, tip, i) && linked == seq![pool[i]] && chain2 == chain.push(pool[i])
                && pool2 == pool.remove(i)
    } else {
        linked.len() == 0 && chain2 == chain && pool2 == pool
    }
}

/// The pool after `e` arrives: it replaces the pending entry with its id, if
/// there is one, and otherwise joins the end of the pool.
pub open spec fn pool_insert(pool: Seq<EntryModel>, e: EntryModel) -> Seq<EntryModel> {
    if exists|i: int| 0 <= i < pool.len() && #[trigger] pool[i].id == e.id {
        let i = choose|i: int| 0 <= i < pool.len() && #[trigger] pool[i].id == e.id;
        pool.update(i, e)
    } else {
        pool.push(e)
    }
}

/// The pool after each of `es` arrives, in order.
pub open spec fn pool_insert_all(pool: Seq<EntryModel>, es: Seq<EntryModel>) -> Seq<EntryModel>
    decreases es.len(),
{
    if es.len() == 0 {
        pool
    } else {
        pool_insert(pool_insert_all(pool, es.drop_last()), es.last())
    }
}

/// A run of `k` '+' characters: what disambiguates a local id that is taken.
pub open spec fn plus_run(k: nat) -> Seq<char> {
    Seq::new(k, |i: int| '+')
}

/// Some entry of `chain` has id `id`.
pub open spec fn has_id(chain: Seq<EntryModel>, id: Seq<char>) -> bool {
    exists|i: int| 0 <= i < chain.len() && #[trigger] chain[i].id == id
}

/// Views of a vector of entries.
pub open spec fn models(v: Seq<LedgerEntry>) -> Seq<EntryModel> {
    v.map_values(|e: LedgerEntry| e@)
}

/// Views of a vector of strings.
pub open spec fn texts(v: Seq<String>) -> Seq<Seq<char>> {
    v.map_values(|s: String| s@)
}

/// The distributed ledger of one node.
#[derive(Debug)]
pub struct Ledger {
    entries: Vec<LedgerEntry>,
    node_id: String,
    pending_entries: Vec<LedgerEntry>,
    known_nodes: Vec<String>,
}

fn genesis() -> (r: String)
    ensures
        r@ == genesis_hash(),
{
    let zeros: &'static str = "0000000000000000000000000000000000000000000000000000000000000000";
    proof {
        reveal_strlit("0000000000000000000000000000000000000000000000000000000000000000");
    }
    assert(zeros@ =~= genesis_hash());
    zeros.to_owned()
}

pub(crate) fn copy_texts(v: &Vec<String>) -> (r: Vec<String>)
    ensures
        r@ == v@,
{
    let mut out: Vec<String> = Vec::new();
    let mut i: usize = 0;
    while i < v.len()
        invariant
            i <= v@.len(),
            out@ == v@.subrange(0, i as int),
        decreases v@.len() - i,
    {
        out.push(v[i].clone());
        assert(out@ =~= v@.subrange(0, i as int + 1));
        i += 1;
    }
    assert(out@ =~= v@);
    out
}

impl Ledger {
    /// The chain, oldest entry first.
    pub closed spec fn chain(&self) -> Seq<EntryModel> {
        models(self.entries@)
    }

    /// The pending pool, in the order its ids first arrived.
    pub closed spec fn pending(&self) -> Seq<EntryModel> {
        models(self.pending_entries@)
    }

    /// The ids of the nodes this one knows of.
    pub closed spec fn known(&self) -> Set<Seq<char>> {
        texts(self.known_nodes@).to_set()
    }

    /// The id of the node that owns this ledger.
    pub closed spec fn owner(&self) -> Seq<char> {
        self.node_id@
    }

    /// The ledger's invariant: a linked chain of valid entries, a pool keyed by
    /// id, and a duplicate-free list of known nodes that holds the owner.
    pub closed spec fn wf(&self) -> bool {
        &&& chain_linked(self.chain())
        &&& all_valid(self.chain())
        &&& ids_unique(self.pending())
        &&& texts(self.known_nodes@).no_duplicates()
        &&& self.known().contains(self.owner())
    }

    /// The chain of a well-formed ledger is linked from genesis, and each of its
    /// entries is valid.
    pub proof fn lemma_chain_linked(&self)
        requires
            self.wf(),
        ensures
            chain_linked(self.chain()),
            all_valid(self.chain()),
    {
    }

    /// A pending pool keyed by id: no two pending entries share one, so an
    /// arriving entry replaces the one with its id and reconciliation removes
    /// exactly the ids it links.
    pub proof fn lemma_pending_ids_unique(&self)
        requires
            self.wf(),
        ensures
            ids_unique(self.pending()),
    {
    }

    /// A well-formed ledger always knows of its own node.
    pub proof fn lemma_owner_known(&self)
        requires
            self.wf(),
        ensures
            self.known().contains(self.owner()),
    {
    }

    /// An empty ledger owned by `node_id`, which knows only of its owner.
    pub fn new(node_id: String) -> (r: Ledger)
        ensures
            r.wf(),
            r.chain() == Seq::<EntryModel>::empty(),
            r.pending() == Seq::<EntryModel>::empty(),
            r.known() == Set::<Seq<char>>::empty().insert(node_id@),
            r.owner() == node_id@,
    {
        let mut known_nodes: Vec<String> = Vec::new();
        known_nodes.push(node_id.clone());
        let r = Ledger { entries: Vec::new(), node_id, pending_entries: Vec::new(), known_nodes };
        proof {
            assert(texts(r.known_nodes@) =~= seq![node_id@]);
            assert(seq![node_id@].to_set() =~= Set::<Seq<char>>::empty().insert(node_id@)) by {
                assert(seq![node_id@][0] == node_id@);
            }
            assert(models(r.entries@) =~= Seq::<EntryModel>::empty());
            assert(models(r.pending_entries@) =~= Seq::<EntryModel>::empty());
        }
        r
    }

    /// The hash that the next entry must name as its predecessor.
    pub fn tip_hash(&self) -> (r: String)
        ensures
            r@ == tip_hash(self.chain()),
    {
        if self.entries.len() == 0 {
            genesis()
        } else {
            self.entries[self.entries.len() - 1].hash.clone()
        }
    }

    /// Appends a new entry holding `data`, created now by this node and linked to
    /// the current tip, and returns it. Local entries are trusted: this always
    /// succeeds. Its id is the creator and the creation time in milliseconds;
    /// when an entry of the chain already has that id (two submissions in one
    /// millisecond), '+' is appended until the id is unused.
    pub fn add_entry(&mut self, data: String) -> (r: Result<LedgerEntry, String>)
        requires
            old(self).wf(),
        ensures
            final(self).wf(),
            r matches Ok(e) && {
                &&& final(self).chain() == old(self).chain().push(e@)
                &&& e@.previous_hash == tip_hash(old(self).chain())
                &&& e@.data == data@
                &&& e@.creator_node_id == old(self).owner()
                &&& !has_id(old(self).chain(), e@.id)
                &&& exists|k: nat| e@.id == local_entry_id(old(self).owner(), e@.timestamp) + plus_run(k)
                &&& !has_id(old(self).chain(), local_entry_id(old(self).owner(), e@.timestamp))
                    ==> e@.id == local_entry_id(old(self).owner(), e@.timestamp)
                &&& e@.signatures == Map::<Seq<char>, Seq<char>>::empty()
                &&& e@.hash.len() == 64
                &&& valid_entry(e@)
            },
            final(self).pending() == old(self).pending(),
            final(self).known() == old(self).known(),
            final(self).owner() == old(self).owner(),
    {
        let previous_hash = self.tip_hash();
        let mut entry = LedgerEntry::new(data, previous_hash, self.node_id.clone());
        let ghost e0 = entry@;
        assert(e0.id + plus_run(0) =~= e0.id);
        if self.has_entry_id(&entry.id) {
            let limit = self.longest_id_len();
            let ghost mut k: nat = 0;
            while self.has_entry_id(&entry.id)
                invariant
                    *self == *old(self),
                    forall|i: int| 0 <= i < self.chain().len() ==> #[trigger] self.chain()[i].id.len() <= limit,
                    entry@ == (EntryModel { id: e0.id + plus_run(k), ..e0 }),
                decreases limit + 1 - entry@.id.len(),
            {
                let ghost before = entry@.id;
                let plus: &'static str = "+";
                proof {
                    reveal_strlit("+");
                }
                assert(plus@ =~= seq!['+']);
                entry.id.append(plus);
                assert(entry@.id == before + seq!['+']);
                proof {
                    assert(before + seq!['+'] =~= e0.id + plus_run(k + 1));
                    k = k + 1;
                }
            }
            entry.hash = entry.calculate_hash();
        }
        proof {
            assert(e0.id == local_entry_id(self.owner(), e0.timestamp));
        }
        self.entries.push(entry.clone());
        proof {
            assert(models(self.entries@) =~= models(old(self).entries@).push(entry@));
        }
        Ok(entry)
    }

    /// True when an entry of the chain has id `id`.
    pub fn has_entry_id(&self, id: &String) -> (r: bool)
        ensures
            r == has_id(self.chain(), id@),
    {
        let mut i: usize = 0;
        while i < self.entries.len()
            invariant
                i <= self.chain().len(),
                forall|j: int| 0 <= j < i ==> #[trigger] self.chain()[j].id != id@,
            decreases self.chain().len() - i,
        {
            if self.entries[i].id == *id {
                assert(self.chain()[i as int].id == id@);
                return true;
            }
            i += 1;
        }
        false
    }

    /// The length of the longest id in the chain.
    fn longest_id_len(&self) -> (r: usize)
        ensures
            forall|i: int| 0 <= i < self.chain().len() ==> #[trigger] self.chain()[i].id.len() <= r,
    {
        let mut longest: usize = 0;
        let mut i: usize = 0;
        while i < self.entries.len()
            invariant
                i <= self.chain().len(),
                forall|j: int| 0 <= j < i ==> #[trigger] self.chain()[j].id.len() <= longest,
            decreases self.chain().len() - i,
        {
            let n = self.entries[i].id.as_str().unicode_len();
            assert(self.chain()[i as int].id.len() == n);
            if n > longest {
                longest = n;
            }
            i += 1;
        }
        longest
    }

    /// The chain, oldest entry first.
    pub fn get_entries(&self) -> (r: &Vec<LedgerEntry>)
        ensures
            models(r@) == self.chain(),
    {
        &self.entries
    }

    /// The newest entry of the chain, if there is one.
    pub fn get_last_entry(&self) -> (r: Option<&LedgerEntry>)
        ensures
            self.chain().len() == 0 <==> r is None,
            r matches Some(e) ==> e@ == self.chain().last(),
    {
        if self.entries.len() == 0 {
            None
        } else {
            Some(&self.entries[self.entries.len() - 1])
        }
    }

    /// Puts `entry` into the pending pool, replacing a pending entry with the
    /// same id. Nothing is checked here.
    pub fn add_pending_entry(&mut self, entry: LedgerEntry)
        requires
            old(self).wf(),
        ensures
            final(self).wf(),
            final(self).chain() == old(self).chain(),
            final(self).known() == old(self).known(),
            final(self).owner() == old(self).owner(),
            final(self).pending() == pool_insert(old(self).pending(), entry@),
    {
        let ghost pool = self.pending();
        let mut i: usize = 0;
        while i < self.pending_entries.len()
            invariant
                *self == *old(self),
                old(self).wf(),
                pool == self.pending(),
                ids_unique(pool),
                i <= pool.len(),
                forall|k: int| 0 <= k < i ==> pool[k].id != entry@.id,
            decreases pool.len() - i,
        {
            if self.pending_entries[i].id == entry.id {
                let ghost e = entry@;
                assert(pool[i as int] == self.pending_entries@[i as int]@);
                assert(pool[i as int].id == e.id);
                proof {
                    let j = choose|j: int| 0 <= j < pool.len() && #[trigger] pool[j].id == e.id;
                    assert(j == i);
                }
                self.pending_entries.set(i, entry);
                proof {
                    assert(models(self.pending_entries@) =~= pool.update(i as int, e));
                    let p2 = pool.update(i as int, e);
                    assert forall|a: int, b: int|
                        0 <= a < p2.len() && 0 <= b < p2.len() && a != b implies #[trigger] p2[a].id
                        != #[trigger] p2[b].id by {
                        if a != i && b != i {
                            assert(p2[a] == pool[a] && p2[b] == pool[b]);
                        } else if a == i {
                            assert(p2[b] == pool[b]);
                            assert(pool[b].id != pool[i as int].id);
                        } else {
                            assert(p2[a] == pool[a]);
                            assert(pool[a].id != pool[i as int].id);
                        }
                    }
                    assert(ids_unique(p2));
                }
                return;
            }
            i += 1;
        }
        let ghost e = entry@;
        self.pending_entries.push(entry);
        proof {
            assert(models(self.pending_entries@) =~= pool.push(e));
            let p2 = pool.push(e);
            assert forall|a: int, b: int|
                0 <= a < p2.len() && 0 <= b < p2.len() && a != b implies #[trigger] p2[a].id
                != #[trigger] p2[b].id by {
                if a < pool.len() && b < pool.len() {
                    assert(p2[a] == pool[a] && p2[b] == pool[b]);
                } else if a < pool.len() {
                    assert(p2[a] == pool[a]);
                } else {
                    assert(p2[b] == pool[b]);
                }
            }
        }
    }

    /// Links the pending pool onto the chain, in one pass. The tip hash is taken
    /// once, at the start. Among the pending entries that name it as their
    /// predecessor and whose hash is correct, the earliest one is linked (on equal
    /// timestamps, the one whose id entered the pool first), removed from the pool
    /// and returned. Every other entry, its siblings included, stays pending: an
    /// entry that links onto the one just linked waits for the next call.
    pub fn process_pending_entries(&mut self) -> (r: Vec<LedgerEntry>)
        requires
            old(self).wf(),
        ensures
            final(self).wf(),
            reconciled(
                old(self).chain(),
                old(self).pending(),
                final(self).chain(),
                final(self).pending(),
                models(r@),
            ),
            final(self).known() == old(self).known(),
            final(self).owner() == old(self).owner(),
    {
        let ghost pool = self.pending();
        let ghost chain = self.chain();
        let tip = self.tip_hash();
        let mut best: Option<usize> = None;
        let mut i: usize = 0;
        while i < self.pending_entries.len()
            invariant
                *self == *old(self),
                pool == self.pending(),
                tip@ == tip_hash(chain),
                i <= pool.len(),
                best is None ==> forall|k: int| 0 <= k < i ==> !is_candidate(#[trigger] pool[k], tip@),
                best matches Some(b) ==> {
                    &&& b < i
                    &&& is_candidate(pool[b as int], tip@)
                    &&& forall|j: int|
                        0 <= j < i && is_candidate(#[trigger] pool[j], tip@) ==> !earlier(
                            pool[j].timestamp,
                            pool[b as int].timestamp,
                        ) && (pool[j].timestamp == pool[b as int].timestamp ==> b <= j)
                },
            decreases pool.len() - i,
        {
            let e = &self.pending_entries[i];
            assert(pool[i as int] == e@);
            if e.previous_hash == tip && e.is_valid() {
                match best {
                    None => {
                        best = Some(i);
                    },
                    Some(b) => {
                        assert(pool[b as int] == self.pending_entries@[b as int]@);
                        if e.timestamp.is_before(&self.pending_entries[b].timestamp) {
                            best = Some(i);
                        }
                    },
                }
            }
            i += 1;
        }
        let mut linked: Vec<LedgerEntry> = Vec::new();
        match best {
            None => {
                assert(models(linked@) =~= Seq::<EntryModel>::empty());
            },
            Some(b) => {
                let e = self.pending_entries.remove(b);
                let ghost m = e@;
                assert(m == pool[b as int]);
                self.entries.push(e.clone());
                linked.push(e);
                proof {
                    assert(models(self.entries@) =~= chain.push(m));
                    assert(models(self.pending_entries@) =~= pool.remove(b as int));
                    assert(models(linked@) =~= seq![m]);
                    assert(is_preferred(pool, tip@, b as int));
                    let c2 = chain.push(m);
                    assert forall|k: int| 1 <= k < c2.len() implies #[trigger] c2[k].previous_hash
                        == c2[k - 1].hash by {
                        if k < chain.len() {
                            assert(c2[k] == chain[k] && c2[k - 1] == chain[k - 1]);
                        }
                    }
                    assert(chain_linked(c2));
                    assert forall|k: int| 0 <= k < c2.len() implies valid_entry(#[trigger] c2[k]) by {
                        if k < chain.len() {
                            assert(c2[k] == chain[k]);
                        }
                    }
                    let p2 = pool.remove(b as int);
                    assert forall|x: int, y: int|
                        0 <= x < p2.len() && 0 <= y < p2.len() && x != y implies #[trigger] p2[x].id
                        != #[trigger] p2[y].id by {
                        let x0 = if x < b { x } else { x + 1 };
                        let y0 = if y < b { y } else { y + 1 };
                        assert(p2[x] == pool[x0] && p2[y] == pool[y0]);
                    }
                }
            },
        }
        linked
    }

    /// Adds `node_id` to the known nodes; a node already known is not added twice.
    pub fn add_known_node(&mut self, node_id: String)
        requires
            old(self).wf(),
        ensures
            final(self).wf(),
            final(self).known() == old(self).known().insert(node_id@),
            final(self).chain() == old(self).chain(),
            final(self).pending() == old(self).pending(),
            final(self).owner() == old(self).owner(),
    {
        let ghost names = texts(self.known_nodes@);
        let mut i: usize = 0;
        while i < self.known_nodes.len()
            invariant
                *self == *old(self),
                old(self).wf(),
                names == texts(self.known_nodes@),
                i <= names.len(),
                forall|k: int| 0 <= k < i ==> names[k] != node_id@,
            decreases names.len() - i,
        {
            if self.known_nodes[i] == node_id {
                proof {
                    assert(names[i as int] == node_id@);
                    assert(names.to_set().insert(node_id@) =~= names.to_set()) by {
                        assert(names.contains(node_id@));
                    }
                }
                return;
            }
            i += 1;
        }
        let ghost id = node_id@;
        self.known_nodes.push(node_id);
        proof {
            assert(!names.contains(id));
            assert(texts(self.known_nodes@) =~= names.push(id));
            assert(names.push(id).to_set() =~= names.to_set().insert(id)) by {
                assert forall|x: Seq<char>| names.push(id).contains(x) implies names.to_set().insert(
                    id,
                ).contains(x) by {
                    let k = choose|k: int| 0 <= k < names.push(id).len() && names.push(id)[k] == x;
                    if k < names.len() {
                        assert(names[k] == x);
                    }
                }
                assert forall|x: Seq<char>| names.to_set().insert(id).contains(x) implies names.push(
                    id,
                ).contains(x) by {
                    if x == id {
                        assert(names.push(id)[names.len() as int] == id);
                    } else {
                        let k = choose|k: int| 0 <= k < names.len() && names[k] == x;
                        assert(names.push(id)[k] == x);
                    }
                }
            }
            assert(names.push(id).no_duplicates()) by {
                assert forall|a: int, b: int|
                    0 <= a < names.push(id).len() && 0 <= b < names.push(id).len() && a != b
                    implies names.push(id)[a] != names.push(id)[b] by {
                    if a < names.len() && b < names.len() {
                    } else if a < names.len() {
                        assert(names.contains(names[a]));
                    } else {
                        assert(names.contains(names[b]));
                    }
                }
            }
        }
    }

    /// The known nodes, each once.
    pub fn get_known_nodes(&self) -> (r: Vec<String>)
        requires
            self.wf(),
        ensures
            texts(r@).to_set() == self.known(),
            texts(r@).no_duplicates(),
    {
        copy_texts(&self.known_nodes)
    }
}

/// Reconciliation links only entries that name the tip hash taken when the call
/// began, and only appends: the new chain is the old one followed by them.
pub proof fn lemma_links_only_onto_start_tip(
    chain: Seq<EntryModel>,
    pool: Seq<EntryModel>,
    chain2: Seq<EntryModel>,
    pool2: Seq<EntryModel>,
    linked: Seq<EntryModel>,
)
    requires
        reconciled(chain, pool, chain2, pool2, linked),
    ensures
        forall|k: int| 0 <= k < linked.len() ==> #[trigger] linked[k].previous_hash == tip_hash(chain),
        chain2 == chain + linked,
        linked.len() <= 1,
{
    let tip = tip_hash(chain);
    if exists|i: int| 0 <= i < pool.len() && is_candidate(#[trigger] pool[i], tip) {
        let i = choose|i: int|
            is_preferred(pool, tip, i) && linked == seq![pool[i]] && chain2 == chain.push(pool[i])
                && pool2 == pool.remove(i);
        assert(chain + linked =~= chain.push(pool[i]));
    } else {
        assert(chain + linked =~= chain);
    }
}

/// Reconciliation keeps the chain linked from genesis.
pub proof fn lemma_reconcile_keeps_chain_linked(
    chain: Seq<EntryModel>,
    pool: Seq<EntryModel>,
    chain2: Seq<EntryModel>,
    pool2: Seq<EntryModel>,
    linked: Seq<EntryModel>,
)
    requires
        chain_linked(chain),
        reconciled(chain, pool, chain2, pool2, linked),
    ensures
        chain_linked(chain2),
{
    let tip = tip_hash(chain);
    if exists|i: int| 0 <= i < pool.len() && is_candidate(#[trigger] pool[i], tip) {
        let i = choose|i: int|
            is_preferred(pool, tip, i) && linked == seq![pool[i]] && chain2 == chain.push(pool[i])
                && pool2 == pool.remove(i);
        assert forall|k: int| 1 <= k < chain2.len() implies #[trigger] chain2[k].previous_hash
            == chain2[k - 1].hash by {
            if k < chain.len() {
                assert(chain2[k] == chain[k] && chain2[k - 1] == chain[k - 1]);
            }
        }
    }
}

/// Fork without a choice: when two pending entries both name the tip, exactly
/// one entry is linked, and one of the two is still pending afterwards.
pub proof fn lemma_fork_links_one(
    chain: Seq<EntryModel>,
    pool: Seq<EntryModel>,
    chain2: Seq<EntryModel>,
    pool2: Seq<EntryModel>,
    linked: Seq<EntryModel>,
    a: int,
    b: int,
)
    requires
        ids_unique(pool),
        0 <= a < pool.len(),
        0 <= b < pool.len(),
        a != b,
        is_candidate(pool[a], tip_hash(chain)),
        is_candidate(pool[b], tip_hash(chain)),
        reconciled(chain, pool, chain2, pool2, linked),
    ensures
        linked.len() == 1,
        pool2.contains(pool[a]) || pool2.contains(pool[b]),
        !(pool2.contains(pool[a]) && pool2.contains(pool[b])) ==> (linked[0] == pool[a]
            || linked[0] == pool[b]),
{
    let tip = tip_hash(chain);
    assert(0 <= a < pool.len() && is_candidate(pool[a], tip));
    let i = choose|i: int|
        is_preferred(pool, tip, i) && linked == seq![pool[i]] && chain2 == chain.push(pool[i])
            && pool2 == pool.remove(i);
    if i != a {
        let a2 = if a < i { a } else { a - 1 };
        assert(pool2[a2] == pool[a]);
    } else {
        let b2 = if b < i { b } else { b - 1 };
        assert(pool2[b2] == pool[b]);
    }
    if !(pool2.contains(pool[a]) && pool2.contains(pool[b])) {
        if i != a && i != b {
            let a2 = if a < i { a } else { a - 1 };
            let b2 = if b < i { b } else { b - 1 };
            assert(pool2[a2] == pool[a]);
            assert(pool2[b2] == pool[b]);
        }
    }
}

/// A pending entry that does not name the tip hash is never linked: it stays in
/// the pool, unchanged, however often reconciliation runs while the tip differs
/// from its previous hash.
pub proof fn lemma_off_tip_entry_stays(
    chain: Seq<EntryModel>,
    pool: Seq<EntryModel>,
    chain2: Seq<EntryModel>,
    pool2: Seq<EntryModel>,
    linked: Seq<EntryModel>,
    e: EntryModel,
)
    requires
        pool.contains(e),
        e.previous_hash != tip_hash(chain),
        reconciled(chain, pool, chain2, pool2, linked),
    ensures
        pool2.contains(e),
        !linked.contains(e),
{
    let tip = tip_hash(chain);
    let k = choose|k: int| 0 <= k < pool.len() && pool[k] == e;
    if exists|i: int| 0 <= i < pool.len() && is_candidate(#[trigger] pool[i], tip) {
        let i = choose|i: int|
            is_preferred(pool, tip, i) && linked == seq![pool[i]] && chain2 == chain.push(pool[i])
                && pool2 == pool.remove(i);
        assert(i != k);
        let k2 = if k < i { k } else { k - 1 };
        assert(pool2[k2] == e);
        if linked.contains(e) {
            assert(linked[0] == e);
        }
    }
}

/// Single pass: with B naming the tip and C naming B pending (in either order),
/// one reconciliation links B alone and leaves C pending; the next links C.
/// B's hash is assumed to differ from the tip hash it names.
pub proof fn lemma_single_pass_two_hops(
    chain: Seq<EntryModel>,
    pool: Seq<EntryModel>,
    b: EntryModel,
    c: EntryModel,
    chain2: Seq<EntryModel>,
    pool2: Seq<EntryModel>,
    linked: Seq<EntryModel>,
    chain3: Seq<EntryModel>,
    pool3: Seq<EntryModel>,
    linked2: Seq<EntryModel>,
)
    requires
        pool == seq![b, c] || pool == seq![c, b],
        is_candidate(b, tip_hash(chain)),
        valid_entry(c),
        c.previous_hash == b.hash,
        b.hash != tip_hash(chain),
        reconciled(chain, pool, chain2, pool2, linked),
        reconciled(chain2, pool2, chain3, pool3, linked2),
    ensures
        linked == seq![b],
        chain2 == chain.push(b),
        pool2 == seq![c],
        linked2 == seq![c],
        chain3 == chain2.push(c),
        pool3 == Seq::<EntryModel>::empty(),
{
    let tip = tip_hash(chain);
    let ib: int = if pool == seq![b, c] { 0 } else { 1 };
    assert(pool[ib] == b);
    assert(pool[1 - ib] == c);
    assert(!is_candidate(c, tip));
    let i = choose|i: int|
        is_preferred(pool, tip, i) && linked == seq![pool[i]] && chain2 == chain.push(pool[i])
            && pool2 == pool.remove(i);
    assert(i == ib);
    assert(pool2 =~= seq![c]);
    assert(tip_hash(chain2) == b.hash);
    assert(is_candidate(pool2[0], tip_hash(chain2)));
    let j = choose|j: int|
        is_preferred(pool2, tip_hash(chain2), j) && linked2 == seq![pool2[j]] && chain3
            == chain2.push(pool2[j]) && pool3 == pool2.remove(j);
    assert(j == 0);
    assert(pool3 =~= Seq::<EntryModel>::empty());
}

/// One reconciliation leaves an off-tip entry stranded: still pending, not
/// linked, and its id absent from the chain if it was absent before.
pub proof fn lemma_stranded_step(
    chain: Seq<EntryModel>,
    pool: Seq<EntryModel>,
    chain2: Seq<EntryModel>,
    pool2: Seq<EntryModel>,
    linked: Seq<EntryModel>,
    e: EntryModel,
)
    requires
        pool.contains(e),
        ids_unique(pool),
        !has_id(chain, e.id),
        e.previous_hash != tip_hash(chain),
        reconciled(chain, pool, chain2, pool2, linked),
    ensures
        pool2.contains(e),
        !linked.contains(e),
        !has_id(chain2, e.id),
{
    lemma_off_tip_entry_stays(chain, pool, chain2, pool2, linked, e);
    lemma_links_only_onto_start_tip(chain, pool, chain2, pool2, linked);
    let tip = tip_hash(chain);
    let k = choose|k: int| 0 <= k < pool.len() && pool[k] == e;
    if exists|i: int| 0 <= i < pool.len() && is_candidate(#[trigger] pool[i], tip) {
        let j = choose|j: int|
            is_preferred(pool, tip, j) && linked == seq![pool[j]] && chain2 == chain.push(pool[j])
                && pool2 == pool.remove(j);
        assert(j != k);
        assert(pool[j].id != pool[k].id);
        assert forall|i: int| 0 <= i < chain2.len() implies #[trigger] chain2[i].id != e.id by {
            if i < chain.len() {
                assert(chain2[i] == chain[i]);
            }
        }
    }
}

/// A stranded entry stays stranded: along any run of reconciliations in which
/// no tip hash equals its previous hash, it stays pending, is never linked, and
/// no chain entry takes its id.
pub proof fn lemma_stranded_stays(
    chains: Seq<Seq<EntryModel>>,
    pools: Seq<Seq<EntryModel>>,
    linked: Seq<Seq<EntryModel>>,
    e: EntryModel,
)
    requires
        chains.len() == pools.len(),
        linked.len() + 1 == chains.len(),
        pools[0].contains(e),
        !has_id(chains[0], e.id),
        forall|i: int|
            0 <= i < linked.len() ==> reconciled(
                chains[i],
                pools[i],
                #[trigger] chains[i + 1],
                pools[i + 1],
                linked[i],
            ),
        forall|i: int| 0 <= i < linked.len() ==> tip_hash(#[trigger] chains[i]) != e.previous_hash,
        forall|i: int| 0 <= i < pools.len() ==> ids_unique(#[trigger] pools[i]),
    ensures
        forall|i: int| 0 <= i < pools.len() ==> (#[trigger] pools[i]).contains(e) && !has_id(chains[i], e.id),
        forall|i: int| 0 <= i < linked.len() ==> !(#[trigger] linked[i]).contains(e),
    decreases linked.len(),
{
    if linked.len() > 0 {
        let n = linked.len() - 1;
        let c0 = chains.drop_last();
        let p0 = pools.drop_last();
        let l0 = linked.drop_last();
        assert forall|i: int| 0 <= i < l0.len() implies reconciled(
            c0[i],
            p0[i],
            #[trigger] c0[i + 1],
            p0[i + 1],
            l0[i],
        ) by {
            assert(reconciled(chains[i], pools[i], chains[i + 1], pools[i + 1], linked[i]));
        }
        assert forall|i: int| 0 <= i < l0.len() implies tip_hash(#[trigger] c0[i]) != e.previous_hash by {
            assert(tip_hash(chains[i]) != e.previous_hash);
        }
        assert forall|i: int| 0 <= i < p0.len() implies ids_unique(#[trigger] p0[i]) by {
            assert(ids_unique(pools[i]));
        }
        lemma_stranded_stays(c0, p0, l0, e);
        assert(0 <= n < p0.len());
        assert(p0[n].contains(e));
        assert(!has_id(c0[n], e.id));
        assert(p0[n] == pools[n] && c0[n] == chains[n]);
        assert(ids_unique(pools[n]));
        assert(tip_hash(chains[n]) != e.previous_hash);
        assert(reconciled(chains[n], pools[n], chains[n + 1], pools[n + 1], linked[n]));
        lemma_stranded_step(chains[n], pools[n], chains[n + 1], pools[n + 1], linked[n], e);
        assert forall|i: int| 0 <= i < pools.len() implies (#[trigger] pools[i]).contains(e) && !has_id(
            chains[i],
            e.id,
        ) by {
            if i < pools.len() - 1 {
                assert(p0[i] == pools[i] && c0[i] == chains[i]);
            }
        }
        assert forall|i: int| 0 <= i < linked.len() implies !(#[trigger] linked[i]).contains(e) by {
            if i < n {
                assert(l0[i] == linked[i]);
            }
        }
    }
}

/// Adding a known node twice leaves as many known nodes as adding it once.
pub proof fn lemma_known_insert_idempotent(
    known: Set<Seq<char>>,
    once: Set<Seq<char>>,
    twice: Set<Seq<char>>,
    id: Seq<char>,
)
    requires
        known.finite(),
        once == known.insert(id),
        twice == once.insert(id),
    ensures
        twice.len() == once.len(),
        twice == once,
        twice.contains(id),
{
    assert(twice =~= once);
}

} // verus!
