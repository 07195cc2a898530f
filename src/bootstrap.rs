//! The bootstrap handshake between a node and a newly discovered peer
//! (discover, advertise, acknowledge and request a sync, answer with the chain,
//! merge), the periodic advertisement, and the discovery announcements.
//! Events arrive decoded; the replies go back on the socket they came from.

use vstd::prelude::*;
use crate::entry::{EntryModel, LedgerEntry};
use crate::ledger::{models, pool_insert, pool_insert_all, reconciled};
use crate::p2p::{P2PManager, Outgoing, OutgoingModel, announces, sends, same_ledger};

verus! {

/// An event received on the bootstrap channel, with the fields it carried.
#[derive(Debug)]
pub enum PeerEvent {
    /// The discovery channel saw a peer.
    PeerDiscovered { peer_id: Option<String> },
    /// A peer advertises itself.
    Advertise { peer_id: Option<String> },
    /// A peer asks for this node's chain.
    SyncRequest { peer_id: Option<String> },
    /// A peer sends its chain, and perhaps the id of a blob to fetch.
    SyncResponse {
        peer_id: Option<String>,
        entries: Option<Vec<LedgerEntry>>,
        blob_hash: Option<String>,
    },
    /// A peer asks for a blob; `hash_is_valid` tells whether the blob store
    /// accepts `blob_hash` as a digest.
    FetchBlob { blob_hash: Option<String>, hash_is_valid: bool },
    /// A peer announces an entry.
    EntryAnnounce { entry: Option<LedgerEntry> },
    /// A peer offers the blob of an entry.
    BlobAvailable { blob_hash: Option<String>, entry_id: Option<String> },
    /// Any other event.
    Other,
}

/// A message that this node emits on the bootstrap channel.
#[derive(Debug)]
pub enum BootstrapMessage {
    Advertise { peer_id: String },
    PeerAck { peer_id: String },
    SyncRequest { peer_id: String },
    SyncResponse { peer_id: String, entries: Vec<LedgerEntry> },
    FetchBlob { peer_id: String, blob_hash: String, entry_id: Option<String> },
    BlobFetchAck { peer_id: String, blob_hash: String, success: bool },
}

pub enum BootstrapModel {
    Advertise { peer_id: Seq<char> },
    PeerAck { peer_id: Seq<char> },
    SyncRequest { peer_id: Seq<char> },
    SyncResponse { peer_id: Seq<char>, entries: Seq<EntryModel> },
    FetchBlob { peer_id: Seq<char>, blob_hash: Seq<char>, entry_id: Option<Seq<char>> },
    BlobFetchAck { peer_id: Seq<char>, blob_hash: Seq<char>, success: bool },
}

pub open spec fn opt_text(o: Option<String>) -> Option<Seq<char>> {
    match o {
        Some(s) => Some(s@),
        None => None,
    }
}

impl View for BootstrapMessage {
    type V = BootstrapModel;

    open spec fn view(&self) -> BootstrapModel {
        match self {
            BootstrapMessage::Advertise { peer_id } => BootstrapModel::Advertise { peer_id: peer_id@ },
            BootstrapMessage::PeerAck { peer_id } => BootstrapModel::PeerAck { peer_id: peer_id@ },
            BootstrapMessage::SyncRequest { peer_id } => BootstrapModel::SyncRequest {
                peer_id: peer_id@,
            },
            BootstrapMessage::SyncResponse { peer_id, entries } => BootstrapModel::SyncResponse {
                peer_id: peer_id@,
                entries: models(entries@),
            },
            BootstrapMessage::FetchBlob { peer_id, blob_hash, entry_id } => BootstrapModel::FetchBlob {
                peer_id: peer_id@,
                blob_hash: blob_hash@,
                entry_id: opt_text(*entry_id),
            },
            BootstrapMessage::BlobFetchAck { peer_id, blob_hash, success } =>
                BootstrapModel::BlobFetchAck {
                peer_id: peer_id@,
                blob_hash: blob_hash@,
                success: *success,
            },
        }
    }
}

pub open spec fn bmodels(v: Seq<BootstrapMessage>) -> Seq<BootstrapModel> {
    v.map_values(|m: BootstrapMessage| m@)
}

/// What handling one bootstrap event asks the caller to do.
#[derive(Debug)]
pub struct PeerActions {
    /// Messages to emit on the socket that the event came from, in order.
    pub replies: Vec<BootstrapMessage>,
    /// Entry announcements for the peer connections.
    pub broadcasts: Vec<Outgoing>,
    /// A blob id to offer to the peers, once the blob store accepts it as a digest.
    pub blob_candidate: Option<String>,
}

/// The blob id derived from an entry id. It is a placeholder, not the digest of
/// any stored bytes, so a blob store that checks digests rejects it.
pub open spec fn entry_blob_id(entry_id: Seq<char>) -> Seq<char> {
    seq!['e', 'n', 't', 'r', 'y', '-'] + entry_id + seq!['-', 'h', 'a', 's', 'h']
}

/// The prefix of a discovery announcement.
pub open spec fn announcement_prefix() -> Seq<char> {
    seq!['g', 's', 'i', 'o', '-', 'n', 'o', 'd', 'e', ':']
}

/// The announcement by which node `node_id` makes itself discoverable.
pub open spec fn announcement_of(node_id: Seq<char>) -> Seq<char> {
    announcement_prefix() + node_id
}

/// The peer that an announcement names, if it is one and the peer is not `me`.
pub open spec fn announced_peer(me: Seq<char>, text: Seq<char>) -> Option<Seq<char>> {
    if text.len() >= announcement_prefix().len() && text.subrange(
        0,
        announcement_prefix().len() as int,
    ) == announcement_prefix() {
        let peer = text.subrange(announcement_prefix().len() as int, text.len() as int);
        if peer == me {
            None
        } else {
            Some(peer)
        }
    } else {
        None
    }
}

/// What `on_peer_message` does with `event` at a node whose state goes from
/// `before` to `after`.
pub open spec fn peer_event_handled(
    before: P2PManager,
    after: P2PManager,
    event: PeerEvent,
    replies: Seq<BootstrapModel>,
    broadcasts: Seq<OutgoingModel>,
    blob_candidate: Option<Seq<char>>,
) -> bool {
    let me = before.node();
    let quiet = broadcasts.len() == 0 && blob_candidate is None;
    match event {
        PeerEvent::PeerDiscovered { peer_id: Some(p) } => {
            &&& after.ledger.known() == before.ledger.known().insert(p@)
            &&& after.ledger.chain() == before.ledger.chain()
            &&& after.ledger.pending() == before.ledger.pending()
            &&& replies == seq![BootstrapModel::Advertise { peer_id: me }]
            &&& quiet
        },
        PeerEvent::Advertise { peer_id: Some(p) } => {
            &&& after.ledger.known() == before.ledger.known().insert(p@)
            &&& after.ledger.chain() == before.ledger.chain()
            &&& after.ledger.pending() == before.ledger.pending()
            &&& replies == seq![
                BootstrapModel::PeerAck { peer_id: me },
                BootstrapModel::SyncRequest { peer_id: me },
            ]
            &&& quiet
        },
        PeerEvent::SyncRequest { peer_id: Some(p) } => {
            &&& same_ledger(before.ledger, after.ledger)
            &&& replies == seq![
                BootstrapModel::SyncResponse { peer_id: me, entries: before.ledger.chain() },
            ]
            &&& quiet
        },
        PeerEvent::SyncResponse { peer_id: Some(p), entries, blob_hash } => {
            &&& after.ledger.known() == before.ledger.known()
            &&& match entries {
                Some(es) => exists|linked: Seq<EntryModel>|
                    reconciled(
                        before.ledger.chain(),
                        pool_insert_all(before.ledger.pending(), models(es@)),
                        after.ledger.chain(),
                        after.ledger.pending(),
                        linked,
                    ) && announces(broadcasts, before.table(), me, linked),
                None => after.ledger.chain() == before.ledger.chain() && after.ledger.pending()
                    == before.ledger.pending() && broadcasts.len() == 0,
            }
            &&& match blob_hash {
                Some(h) => replies == seq![
                    BootstrapModel::FetchBlob { peer_id: me, blob_hash: h@, entry_id: None },
                ],
                None => replies.len() == 0,
            }
            &&& blob_candidate is None
        },
        PeerEvent::FetchBlob { blob_hash: Some(h), hash_is_valid } => {
            &&& same_ledger(before.ledger, after.ledger)
            &&& replies == seq![
                BootstrapModel::BlobFetchAck { peer_id: me, blob_hash: h@, success: hash_is_valid },
            ]
            &&& quiet
        },
        PeerEvent::EntryAnnounce { entry: Some(e) } => {
            &&& after.ledger.known() == before.ledger.known()
            &&& exists|linked: Seq<EntryModel>|
                reconciled(
                    before.ledger.chain(),
                    pool_insert(before.ledger.pending(), e@),
                    after.ledger.chain(),
                    after.ledger.pending(),
                    linked,
                ) && announces(broadcasts, before.table(), me, linked)
            &&& replies.len() == 0
            &&& blob_candidate == Some(entry_blob_id(e@.id))
        },
        PeerEvent::BlobAvailable { blob_hash: Some(h), entry_id: Some(id) } => {
            &&& same_ledger(before.ledger, after.ledger)
            &&& replies == seq![
                BootstrapModel::FetchBlob { peer_id: me, blob_hash: h@, entry_id: Some(id@) },
            ]
            &&& quiet
        },
        _ => same_ledger(before.ledger, after.ledger) && replies.len() == 0 && quiet,
    }
}

/// A node's announcement, read by any other node, names the announcing node;
/// read by the announcing node itself, it names nobody.
pub proof fn lemma_announcement_round_trip(me: Seq<char>, peer: Seq<char>)
    ensures
        announced_peer(me, announcement_of(peer)) == (if peer == me {
            None
        } else {
            Some(peer)
        }),
{
    let text = announcement_of(peer);
    let n = announcement_prefix().len() as int;
    assert(text.subrange(0, n) =~= announcement_prefix());
    assert(text.subrange(n, text.len() as int) =~= peer);
}

fn literal_text(s: &'static str) -> (r: String)
    ensures
        r@ == s@,
{
    s.to_owned()
}

/// The placeholder blob id of the entry with id `entry_id`.
pub fn blob_id_for_entry(entry_id: &str) -> (r: String)
    ensures
        r@ == entry_blob_id(entry_id@),
{
    proof {
        reveal_strlit("entry-");
        reveal_strlit("-hash");
    }
    let mut r = literal_text("entry-");
    r.append(entry_id);
    r.append("-hash");
    assert(r@ =~= entry_blob_id(entry_id@));
    r
}

/// The discovery announcement of node `node_id`.
pub fn discovery_announcement(node_id: &str) -> (r: String)
    ensures
        r@ == announcement_of(node_id@),
{
    proof {
        reveal_strlit("gsio-node:");
    }
    let mut r = literal_text("gsio-node:");
    r.append(node_id);
    assert(r@ =~= announcement_of(node_id@));
    r
}

/// The peer that the discovery announcement `text` names, unless it is not an
/// announcement or names this node (`node_id`) itself.
pub fn parse_discovery_announcement(node_id: &str, text: &str) -> (r: Option<String>)
    ensures
        opt_text(r) == announced_peer(node_id@, text@),
{
    proof {
        reveal_strlit("gsio-node:");
    }
    let prefix: &'static str = "gsio-node:";
    assert(prefix@ =~= announcement_prefix());
    let n = text.unicode_len();
    let k = prefix.unicode_len();
    if n < k {
        return None;
    }
    let mut i: usize = 0;
    while i < k
        invariant
            k == prefix@.len(),
            prefix@ == announcement_prefix(),
            n == text@.len(),
            k <= n,
            i <= k,
            forall|j: int| 0 <= j < i ==> text@[j] == prefix@[j],
        decreases k - i,
    {
        if text.get_char(i) != prefix.get_char(i) {
            assert(text@.subrange(0, k as int)[i as int] != announcement_prefix()[i as int]);
            return None;
        }
        i += 1;
    }
    assert(text@.subrange(0, k as int) =~= announcement_prefix());
    let peer = text.substring_char(k, n);
    let me = node_id.to_owned();
    let peer = peer.to_owned();
    if peer == me {
        None
    } else {
        Some(peer)
    }
}

/// The advertisement that this node sends periodically, as a liveness signal and
/// to let late joiners start the handshake.
pub fn heartbeat(manager: &P2PManager) -> (r: BootstrapMessage)
    ensures
        r@ == (BootstrapModel::Advertise { peer_id: manager.node() }),
{
    BootstrapMessage::Advertise { peer_id: manager.node_id().to_owned() }
}

fn reply_one(m: BootstrapMessage) -> (r: Vec<BootstrapMessage>)
    ensures
        bmodels(r@) == seq![m@],
{
    let mut v: Vec<BootstrapMessage> = Vec::new();
    let ghost x = m@;
    v.push(m);
    assert(bmodels(v@) =~= seq![x]);
    v
}

fn quiet_actions(replies: Vec<BootstrapMessage>) -> (r: PeerActions)
    ensures
        r.replies == replies,
        sends(r.broadcasts@).len() == 0,
        r.blob_candidate is None,
{
    let broadcasts: Vec<Outgoing> = Vec::new();
    assert(sends(broadcasts@).len() == 0);
    PeerActions { replies, broadcasts, blob_candidate: None }
}

/// Acts on one event of the bootstrap channel: records peers, answers the
/// handshake, merges the entries that a peer sends, and re-announces what that
/// links. Events that lack the field they need are ignored.
pub fn on_peer_message(manager: &mut P2PManager, event: PeerEvent) -> (r: PeerActions)
    requires
        old(manager).wf(),
    ensures
        final(manager).wf(),
        final(manager).node_id == old(manager).node_id,
        final(manager).connected_nodes == old(manager).connected_nodes,
        peer_event_handled(
            *old(manager),
            *final(manager),
            event,
            bmodels(r.replies@),
            sends(r.broadcasts@),
            opt_text(r.blob_candidate),
        ),
{
    let ghost before = *manager;
    match event {
        PeerEvent::PeerDiscovered { peer_id: Some(p) } => {
            manager.ledger.add_known_node(p);
            let me = manager.node_id().to_owned();
            quiet_actions(reply_one(BootstrapMessage::Advertise { peer_id: me }))
        },
        PeerEvent::Advertise { peer_id: Some(p) } => {
            manager.ledger.add_known_node(p);
            let mut replies: Vec<BootstrapMessage> = Vec::new();
            replies.push(BootstrapMessage::PeerAck { peer_id: manager.node_id().to_owned() });
            replies.push(BootstrapMessage::SyncRequest { peer_id: manager.node_id().to_owned() });
            assert(bmodels(replies@) =~= seq![
                BootstrapModel::PeerAck { peer_id: before.node() },
                BootstrapModel::SyncRequest { peer_id: before.node() },
            ]);
            quiet_actions(replies)
        },
        PeerEvent::SyncRequest { peer_id: Some(_p) } => {
            let entries = crate::p2p::copy_entries(manager.ledger.get_entries());
            let me = manager.node_id().to_owned();
            quiet_actions(reply_one(BootstrapMessage::SyncResponse { peer_id: me, entries }))
        },
        PeerEvent::SyncResponse { peer_id: Some(_p), entries, blob_hash } => {
            let broadcasts = match entries {
                Some(es) => {
                    let ghost pool = pool_insert_all(before.ledger.pending(), models(es@));
                    let linked = manager.merge_entries(es);
                    let out = manager.announce_linked(&linked);
                    assert(reconciled(
                        before.ledger.chain(),
                        pool,
                        manager.ledger.chain(),
                        manager.ledger.pending(),
                        models(linked@),
                    ) && announces(sends(out@), before.table(), before.node(), models(linked@)));
                    out
                },
                None => {
                    let out: Vec<Outgoing> = Vec::new();
                    assert(sends(out@).len() == 0);
                    out
                },
            };
            let replies = match blob_hash {
                Some(h) => reply_one(
                    BootstrapMessage::FetchBlob {
                        peer_id: manager.node_id().to_owned(),
                        blob_hash: h,
                        entry_id: None,
                    },
                ),
                None => {
                    let v: Vec<BootstrapMessage> = Vec::new();
                    assert(bmodels(v@).len() == 0);
                    v
                },
            };
            PeerActions { replies, broadcasts, blob_candidate: None }
        },
        PeerEvent::FetchBlob { blob_hash: Some(h), hash_is_valid } => {
            let me = manager.node_id().to_owned();
            quiet_actions(
                reply_one(
                    BootstrapMessage::BlobFetchAck { peer_id: me, blob_hash: h, success: hash_is_valid },
                ),
            )
        },
        PeerEvent::EntryAnnounce { entry: Some(e) } => {
            let ghost em = e@;
            let blob_candidate = blob_id_for_entry(e.id.as_str());
            manager.ledger.add_pending_entry(e);
            let ghost pool = manager.ledger.pending();
            let linked = manager.ledger.process_pending_entries();
            let broadcasts = manager.announce_linked(&linked);
            assert(reconciled(
                before.ledger.chain(),
                pool_insert(before.ledger.pending(), em),
                manager.ledger.chain(),
                manager.ledger.pending(),
                models(linked@),
            ) && announces(sends(broadcasts@), before.table(), before.node(), models(linked@)));
            let replies: Vec<BootstrapMessage> = Vec::new();
            assert(bmodels(replies@).len() == 0);
            PeerActions { replies, broadcasts, blob_candidate: Some(blob_candidate) }
        },
        PeerEvent::BlobAvailable { blob_hash: Some(h), entry_id: Some(id) } => {
            let me = manager.node_id().to_owned();
            quiet_actions(
                reply_one(BootstrapMessage::FetchBlob { peer_id: me, blob_hash: h, entry_id: Some(id) }),
            )
        },
        _ => {
            let v: Vec<BootstrapMessage> = Vec::new();
            assert(bmodels(v@).len() == 0);
            quiet_actions(v)
        },
    }
}

} // verus!
