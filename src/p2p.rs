//! The peer protocol: typed messages between nodes, the table of connected
//! peers, and what a node does with each message it receives. Sending is left
//! to the caller: every function that would send returns the sends instead, as
//! pairs of a connection and a message, to be performed after the state change.

use vstd::prelude::*;
use crate::entry::{EntryModel, LedgerEntry, genesis_hash, valid_entry};
use crate::random::fresh_uuid_text;
use crate::ledger::{Ledger, models, texts, copy_texts, pool_insert, pool_insert_all, reconciled, is_preferred, tip_hash};

verus! {

/// Identifies one transport connection; the transport layer hands these out.
pub type ConnectionId = u64;

/// The kinds of message that nodes exchange.
#[derive(Clone, Copy, PartialEq, Eq, Structural, Debug)]
pub enum MessageType {
    /// A node joined the network.
    NodeAnnounce,
    /// Asks for the known nodes.
    NodeListRequest,
    /// Carries the known nodes.
    NodeListResponse,
    /// A ledger entry was linked.
    EntryAnnounce,
    /// Asks for one ledger entry.
    EntryRequest,
    /// Carries one ledger entry.
    EntryResponse,
    /// Asks for the whole chain.
    LedgerSyncRequest,
    /// Carries the whole chain.
    LedgerSyncResponse,
}

/// The body of a message, decoded from its document form.
#[derive(Debug)]
pub enum Payload {
    /// A document with none of the fields below.
    Empty,
    /// `{"node_id": ...}`
    NodeId(String),
    /// `{"nodes": [...]}`
    Nodes(Vec<String>),
    /// A ledger entry.
    Entry(LedgerEntry),
    /// `{"entry_id": ...}`
    EntryId(String),
    /// A list of ledger entries.
    Entries(Vec<LedgerEntry>),
}

pub enum PayloadModel {
    Empty,
    NodeId(Seq<char>),
    Nodes(Seq<Seq<char>>),
    Entry(EntryModel),
    EntryId(Seq<char>),
    Entries(Seq<EntryModel>),
}

impl View for Payload {
    type V = PayloadModel;

    open spec fn view(&self) -> PayloadModel {
        match self {
            Payload::Empty => PayloadModel::Empty,
            Payload::NodeId(s) => PayloadModel::NodeId(s@),
            Payload::Nodes(v) => PayloadModel::Nodes(texts(v@)),
            Payload::Entry(e) => PayloadModel::Entry(e@),
            Payload::EntryId(s) => PayloadModel::EntryId(s@),
            Payload::Entries(v) => PayloadModel::Entries(models(v@)),
        }
    }
}

pub(crate) fn copy_entries(v: &Vec<LedgerEntry>) -> (r: Vec<LedgerEntry>)
    ensures
        models(r@) == models(v@),
{
    let mut out: Vec<LedgerEntry> = Vec::new();
    let mut i: usize = 0;
    while i < v.len()
        invariant
            i <= v@.len(),
            out@.len() == i,
            forall|k: int| 0 <= k < i ==> (#[trigger] out@[k])@ == v@[k]@,
        decreases v@.len() - i,
    {
        let e = v[i].clone();
        out.push(e);
        i += 1;
    }
    assert(models(out@) =~= models(v@));
    out
}

impl Clone for Payload {
    fn clone(&self) -> (r: Self)
        ensures
            r@ == self@,
    {
        match self {
            Payload::Empty => Payload::Empty,
            Payload::NodeId(s) => Payload::NodeId(s.clone()),
            Payload::Nodes(v) => Payload::Nodes(copy_texts(v)),
            Payload::Entry(e) => Payload::Entry(e.clone()),
            Payload::EntryId(s) => Payload::EntryId(s.clone()),
            Payload::Entries(v) => Payload::Entries(copy_entries(v)),
        }
    }
}

/// A message sent between nodes; an empty `recipient_id` means every node.
#[derive(Debug)]
pub struct P2PMessage {
    pub message_type: MessageType,
    pub message_id: String,
    pub sender_id: String,
    pub recipient_id: String,
    pub payload: Payload,
}

pub struct MessageModel {
    pub message_type: MessageType,
    pub message_id: Seq<char>,
    pub sender_id: Seq<char>,
    pub recipient_id: Seq<char>,
    pub payload: PayloadModel,
}

impl View for P2PMessage {
    type V = MessageModel;

    open spec fn view(&self) -> MessageModel {
        MessageModel {
            message_type: self.message_type,
            message_id: self.message_id@,
            sender_id: self.sender_id@,
            recipient_id: self.recipient_id@,
            payload: self.payload@,
        }
    }
}

impl Clone for P2PMessage {
    fn clone(&self) -> (r: Self)
        ensures
            r@ == self@,
    {
        P2PMessage {
            message_type: self.message_type,
            message_id: self.message_id.clone(),
            sender_id: self.sender_id.clone(),
            recipient_id: self.recipient_id.clone(),
            payload: self.payload.clone(),
        }
    }
}

/// A message with these fields and a fresh 36-character id.
pub open spec fn made_message(
    m: MessageModel,
    message_type: MessageType,
    sender_id: Seq<char>,
    recipient_id: Seq<char>,
    payload: PayloadModel,
) -> bool {
    &&& m.message_type == message_type
    &&& m.sender_id == sender_id
    &&& m.recipient_id == recipient_id
    &&& m.payload == payload
    &&& m.message_id.len() == 36
}

impl P2PMessage {
    /// A new message with a fresh random id.
    pub fn new(
        message_type: MessageType,
        sender_id: String,
        recipient_id: String,
        payload: Payload,
    ) -> (r: P2PMessage)
        ensures
            made_message(r@, message_type, sender_id@, recipient_id@, payload@),
    {
        P2PMessage { message_type, message_id: fresh_uuid_text(), sender_id, recipient_id, payload }
    }
}

/// A message to be sent on a connection.
#[derive(Debug)]
pub struct Outgoing {
    pub connection: ConnectionId,
    pub message: P2PMessage,
}

pub struct OutgoingModel {
    pub connection: ConnectionId,
    pub message: MessageModel,
}

impl View for Outgoing {
    type V = OutgoingModel;

    open spec fn view(&self) -> OutgoingModel {
        OutgoingModel { connection: self.connection, message: self.message@ }
    }
}

pub open spec fn sends(v: Seq<Outgoing>) -> Seq<OutgoingModel> {
    v.map_values(|o: Outgoing| o@)
}

/// `out` sends `m` once on each connection of `conns`, in table order.
pub open spec fn fan_out(
    out: Seq<OutgoingModel>,
    conns: Seq<(Seq<char>, ConnectionId)>,
    m: MessageModel,
) -> bool {
    &&& out.len() == conns.len()
    &&& forall|i: int|
        0 <= i < out.len() ==> (#[trigger] out[i]).connection == conns[i].1 && out[i].message == m
}

/// The table after `peer` connects on `c`: an earlier connection of the same peer
/// is overwritten in place; a new peer joins the end.
pub open spec fn conn_insert(
    conns: Seq<(Seq<char>, ConnectionId)>,
    peer: Seq<char>,
    c: ConnectionId,
) -> Seq<(Seq<char>, ConnectionId)> {
    if exists|i: int| 0 <= i < conns.len() && #[trigger] conns[i].0 == peer {
        let i = choose|i: int| 0 <= i < conns.len() && #[trigger] conns[i].0 == peer;
        conns.update(i, (peer, c))
    } else {
        conns.push((peer, c))
    }
}

/// No peer appears twice in the table.
pub open spec fn peers_unique(conns: Seq<(Seq<char>, ConnectionId)>) -> bool {
    forall|i: int, j: int|
        0 <= i < conns.len() && 0 <= j < conns.len() && i != j ==> #[trigger] conns[i].0
            != #[trigger] conns[j].0
}

/// The peer id used when a connecting node does not name itself.
pub open spec fn unknown_peer() -> Seq<char> {
    seq!['u', 'n', 'k', 'n', 'o', 'w', 'n']
}

/// The node id that an announcement names, or `unknown_peer()` if it names none.
pub open spec fn announced_id(p: PayloadModel) -> Seq<char> {
    match p {
        PayloadModel::NodeId(id) => id,
        _ => unknown_peer(),
    }
}

/// The entry id that a request names, or the empty id if it names none.
pub open spec fn requested_id(p: PayloadModel) -> Seq<char> {
    match p {
        PayloadModel::EntryId(id) => id,
        _ => Seq::empty(),
    }
}

/// Index of the first entry of `chain` with id `id`.
pub open spec fn first_with_id(chain: Seq<EntryModel>, id: Seq<char>, k: int) -> bool {
    &&& 0 <= k < chain.len()
    &&& chain[k].id == id
    &&& forall|j: int| 0 <= j < k ==> #[trigger] chain[j].id != id
}

fn unknown_peer_id() -> (r: String)
    ensures
        r@ == unknown_peer(),
{
    let s: &'static str = "unknown";
    proof {
        reveal_strlit("unknown");
    }
    assert(s@ =~= unknown_peer());
    s.to_owned()
}

/// `peer` is connected on `c`.
pub open spec fn routes_to(conns: Seq<(Seq<char>, ConnectionId)>, peer: Seq<char>, c: ConnectionId) -> bool {
    exists|i: int| 0 <= i < conns.len() && #[trigger] conns[i].0 == peer && conns[i].1 == c
}

/// `peer` has a connection in the table.
pub open spec fn is_connected(conns: Seq<(Seq<char>, ConnectionId)>, peer: Seq<char>) -> bool {
    exists|i: int| 0 <= i < conns.len() && #[trigger] conns[i].0 == peer
}

/// The ledgers hold the same chain, pool, known nodes and owner.
pub open spec fn same_ledger(a: Ledger, b: Ledger) -> bool {
    &&& a.chain() == b.chain()
    &&& a.pending() == b.pending()
    &&& a.known() == b.known()
    &&& a.owner() == b.owner()
}

/// A single reply on connection `from`: a fresh message of type `t` from
/// `node` to `to` carrying `payload`.
pub open spec fn replies(
    out: Seq<OutgoingModel>,
    from: ConnectionId,
    t: MessageType,
    node: Seq<char>,
    to: Seq<char>,
    payload: PayloadModel,
) -> bool {
    &&& out.len() == 1
    &&& out[0].connection == from
    &&& made_message(out[0].message, t, node, to, payload)
}

/// `out` announces each entry of `linked`, in order, to every connection: one
/// fresh message per entry, sent once on each connection in table order.
pub open spec fn announces(
    out: Seq<OutgoingModel>,
    conns: Seq<(Seq<char>, ConnectionId)>,
    node: Seq<char>,
    linked: Seq<EntryModel>,
) -> bool
    decreases linked.len(),
{
    if linked.len() == 0 {
        out.len() == 0
    } else {
        let cut = out.len() - conns.len();
        &&& cut >= 0
        &&& exists|m: MessageModel|
            made_message(
                m,
                MessageType::EntryAnnounce,
                node,
                Seq::empty(),
                PayloadModel::Entry(linked.last()),
            ) && fan_out(out.subrange(cut, out.len() as int), conns, m)
        &&& announces(out.subrange(0, cut), conns, node, linked.drop_last())
    }
}

/// What receiving `msg` on connection `from` does to a ledger (`before` to
/// `after`) held by node `node` with connections `conns`, and what it sends.
pub open spec fn handled(
    before: Ledger,
    after: Ledger,
    node: Seq<char>,
    conns: Seq<(Seq<char>, ConnectionId)>,
    from: ConnectionId,
    msg: MessageModel,
    out: Seq<OutgoingModel>,
) -> bool {
    match msg.message_type {
        MessageType::NodeAnnounce => {
            &&& after.known() == before.known().insert(announced_id(msg.payload))
            &&& after.chain() == before.chain()
            &&& after.pending() == before.pending()
            &&& after.owner() == before.owner()
            &&& out.len() == 0
        },
        MessageType::NodeListRequest => {
            &&& same_ledger(before, after)
            &&& out.len() == 1
            &&& out[0].message.payload matches PayloadModel::Nodes(ns) && ns.to_set() == before.known()
                && ns.no_duplicates() && replies(
                out,
                from,
                MessageType::NodeListResponse,
                node,
                msg.sender_id,
                PayloadModel::Nodes(ns),
            )
        },
        MessageType::EntryAnnounce => match msg.payload {
            PayloadModel::Entry(e) => {
                &&& after.known() == before.known()
                &&& after.owner() == before.owner()
                &&& exists|linked: Seq<EntryModel>|
                    reconciled(
                        before.chain(),
                        pool_insert(before.pending(), e),
                        after.chain(),
                        after.pending(),
                        linked,
                    ) && announces(out, conns, node, linked)
            },
            _ => same_ledger(before, after) && out.len() == 0,
        },
        MessageType::EntryRequest => {
            let id = requested_id(msg.payload);
            &&& same_ledger(before, after)
            &&& (exists|k: int| 0 <= k < before.chain().len() && #[trigger] before.chain()[k].id == id)
                ==> exists|k: int|
                first_with_id(before.chain(), id, k) && replies(
                    out,
                    from,
                    MessageType::EntryResponse,
                    node,
                    msg.sender_id,
                    PayloadModel::Entry(before.chain()[k]),
                )
            &&& !(exists|k: int| 0 <= k < before.chain().len() && #[trigger] before.chain()[k].id == id)
                ==> out.len() == 0
        },
        MessageType::LedgerSyncRequest => {
            &&& same_ledger(before, after)
            &&& replies(
                out,
                from,
                MessageType::LedgerSyncResponse,
                node,
                msg.sender_id,
                PayloadModel::Entries(before.chain()),
            )
        },
        MessageType::LedgerSyncResponse => match msg.payload {
            PayloadModel::Entries(es) => {
                &&& after.known() == before.known()
                &&& after.owner() == before.owner()
                &&& out.len() == 0
                &&& exists|linked: Seq<EntryModel>|
                    reconciled(
                        before.chain(),
                        pool_insert_all(before.pending(), es),
                        after.chain(),
                        after.pending(),
                        linked,
                    )
            },
            _ => same_ledger(before, after) && out.len() == 0,
        },
        _ => same_ledger(before, after) && out.len() == 0,
    }
}

/// Manages a node's peers: its identity, its ledger, and the connection of each
/// peer.
pub struct P2PManager {
    pub node_id: String,
    pub ledger: Ledger,
    pub connected_nodes: Vec<(String, ConnectionId)>,
}

impl P2PManager {
    /// The connection table: each peer with its connection, in order of arrival.
    pub open spec fn table(&self) -> Seq<(Seq<char>, ConnectionId)> {
        self.connected_nodes@.map_values(|p: (String, ConnectionId)| (p.0@, p.1))
    }

    /// This node's id.
    pub open spec fn node(&self) -> Seq<char> {
        self.node_id@
    }

    /// The manager's invariant: a well-formed ledger and one connection per peer.
    pub open spec fn wf(&self) -> bool {
        &&& self.ledger.wf()
        &&& peers_unique(self.table())
    }

    /// A manager for node `node_id` with `ledger` and no connections yet.
    pub fn new(node_id: String, ledger: Ledger) -> (r: P2PManager)
        requires
            ledger.wf(),
        ensures
            r.wf(),
            r.node() == node_id@,
            r.ledger == ledger,
            r.table() == Seq::<(Seq<char>, ConnectionId)>::empty(),
    {
        let r = P2PManager { node_id, ledger, connected_nodes: Vec::new() };
        assert(r.table() =~= Seq::<(Seq<char>, ConnectionId)>::empty());
        r
    }

    /// This node's id.
    pub fn node_id(&self) -> (r: &str)
        ensures
            r@ == self.node(),
    {
        self.node_id.as_str()
    }

    /// Records that `peer_id` is reachable on `connection`, overwriting an earlier
    /// connection of the same peer.
    pub fn register_connection(&mut self, peer_id: String, connection: ConnectionId)
        requires
            old(self).wf(),
        ensures
            final(self).wf(),
            final(self).table() == conn_insert(old(self).table(), peer_id@, connection),
            final(self).ledger == old(self).ledger,
            final(self).node() == old(self).node(),
    {
        let ghost conns = self.table();
        let mut i: usize = 0;
        while i < self.connected_nodes.len()
            invariant
                *self == *old(self),
                old(self).wf(),
                conns == self.table(),
                i <= conns.len(),
                forall|k: int| 0 <= k < i ==> conns[k].0 != peer_id@,
            decreases conns.len() - i,
        {
            if self.connected_nodes[i].0 == peer_id {
                let ghost p = peer_id@;
                assert(conns[i as int].0 == p);
                proof {
                    let j = choose|j: int| 0 <= j < conns.len() && #[trigger] conns[j].0 == p;
                    assert(j == i);
                }
                self.connected_nodes.set(i, (peer_id, connection));
                proof {
                    let c2 = conns.update(i as int, (p, connection));
                    assert(self.table() =~= c2);
                    assert forall|a: int, b: int|
                        0 <= a < c2.len() && 0 <= b < c2.len() && a != b implies #[trigger] c2[a].0
                        != #[trigger] c2[b].0 by {
                        if a != i && b != i {
                            assert(c2[a] == conns[a] && c2[b] == conns[b]);
                        } else if a == i {
                            assert(c2[b] == conns[b]);
                            assert(conns[b].0 != conns[i as int].0);
                        } else {
                            assert(c2[a] == conns[a]);
                            assert(conns[a].0 != conns[i as int].0);
                        }
                    }
                }
                return;
            }
            i += 1;
        }
        let ghost p = peer_id@;
        self.connected_nodes.push((peer_id, connection));
        proof {
            let c2 = conns.push((p, connection));
            assert(self.table() =~= c2);
            assert forall|a: int, b: int|
                0 <= a < c2.len() && 0 <= b < c2.len() && a != b implies #[trigger] c2[a].0
                != #[trigger] c2[b].0 by {
                if a < conns.len() && b < conns.len() {
                    assert(c2[a] == conns[a] && c2[b] == conns[b]);
                } else if a < conns.len() {
                    assert(c2[a] == conns[a]);
                } else {
                    assert(c2[b] == conns[b]);
                }
            }
        }
    }

    /// Announces each of `linked`, in order, to every connection.
    pub fn announce_linked(&self, linked: &Vec<LedgerEntry>) -> (r: Vec<Outgoing>)
        ensures
            announces(sends(r@), self.table(), self.node(), models(linked@)),
    {
        let mut out: Vec<Outgoing> = Vec::new();
        let mut k: usize = 0;
        let ghost all = models(linked@);
        assert(sends(out@).len() == 0);
        assert(all.subrange(0, 0).len() == 0);
        while k < linked.len()
            invariant
                k <= linked@.len(),
                all == models(linked@),
                announces(sends(out@), self.table(), self.node(), all.subrange(0, k as int)),
            decreases linked@.len() - k,
        {
            let mut block = self.broadcast_entry(linked[k].clone());
            let ghost before = sends(out@);
            let ghost blk = sends(block@);
            out.append(&mut block);
            proof {
                reveal_with_fuel(announces, 2);
                let n = self.table().len();
                assert(seq![linked@[k as int]@].drop_last() =~= Seq::<EntryModel>::empty());
                assert(blk.subrange(0, blk.len() - n).len() == 0);
                assert(sends(out@) =~= before + blk);
                let now = before + blk;
                assert(now.subrange(now.len() - n, now.len() as int) =~= blk.subrange(
                    blk.len() - n,
                    blk.len() as int,
                ));
                assert(now.subrange(0, now.len() - n) =~= before);
                let pre = all.subrange(0, k as int + 1);
                assert(pre.drop_last() =~= all.subrange(0, k as int));
                assert(pre.last() == all[k as int]);
                assert(seq![linked@[k as int]@].last() == all[k as int]);
            }
            k += 1;
        }
        assert(all.subrange(0, all.len() as int) =~= all);
        out
    }

    /// Sends `message` on every connection of the table. A send that fails does
    /// not stop the others: each is performed on its own.
    pub fn broadcast_message(&self, message: P2PMessage) -> (r: Vec<Outgoing>)
        ensures
            fan_out(sends(r@), self.table(), message@),
    {
        let mut out: Vec<Outgoing> = Vec::new();
        let mut i: usize = 0;
        while i < self.connected_nodes.len()
            invariant
                i <= self.table().len(),
                out@.len() == i,
                forall|k: int|
                    0 <= k < i ==> (#[trigger] out@[k])@.connection == self.table()[k].1
                        && out@[k]@.message == message@,
            decreases self.table().len() - i,
        {
            out.push(Outgoing { connection: self.connected_nodes[i].1, message: message.clone() });
            i += 1;
        }
        out
    }

    /// Announces `entry` to every connection.
    pub fn broadcast_entry(&self, entry: LedgerEntry) -> (r: Vec<Outgoing>)
        ensures
            announces(sends(r@), self.table(), self.node(), seq![entry@]),
    {
        let ghost e = entry@;
        let message = P2PMessage::new(
            MessageType::EntryAnnounce,
            self.node_id.clone(),
            String::new(),
            Payload::Entry(entry),
        );
        let ghost m = message@;
        let r = self.broadcast_message(message);
        proof {
            reveal_with_fuel(announces, 2);
            let out = sends(r@);
            let n = self.table().len();
            assert(out.len() == n);
            assert(out.subrange(out.len() - n, out.len() as int) =~= out);
            assert(seq![e].last() == e);
            assert(seq![e].drop_last() =~= Seq::<EntryModel>::empty());
            assert(out.subrange(0, out.len() - n) =~= Seq::<OutgoingModel>::empty());
            assert(made_message(m, MessageType::EntryAnnounce, self.node(), Seq::empty(), PayloadModel::Entry(e)));
        }
        r
    }

    /// The send of `message` to `recipient_id`, or `None` when that peer has no
    /// connection. Nothing changes either way.
    pub fn send_message(&self, recipient_id: String, message: P2PMessage) -> (r: Option<Outgoing>)
        requires
            self.wf(),
        ensures
            r is None <==> !is_connected(self.table(), recipient_id@),
            r matches Some(o) ==> routes_to(self.table(), recipient_id@, o@.connection)
                && o@.message == message@,
    {
        let mut i: usize = 0;
        while i < self.connected_nodes.len()
            invariant
                i <= self.table().len(),
                forall|k: int| 0 <= k < i ==> self.table()[k].0 != recipient_id@,
            decreases self.table().len() - i,
        {
            if self.connected_nodes[i].0 == recipient_id {
                let connection = self.connected_nodes[i].1;
                assert(self.table()[i as int].0 == recipient_id@);
                return Some(Outgoing { connection, message });
            }
            i += 1;
        }
        None
    }

    /// Asks `recipient_id` for its known nodes.
    pub fn request_node_list(&self, recipient_id: String) -> (r: Option<Outgoing>)
        requires
            self.wf(),
        ensures
            r is None <==> !is_connected(self.table(), recipient_id@),
            r matches Some(o) ==> routes_to(self.table(), recipient_id@, o@.connection)
                && made_message(
                o@.message,
                MessageType::NodeListRequest,
                self.node(),
                recipient_id@,
                PayloadModel::Empty,
            ),
    {
        let message = P2PMessage::new(
            MessageType::NodeListRequest,
            self.node_id.clone(),
            recipient_id.clone(),
            Payload::Empty,
        );
        self.send_message(recipient_id, message)
    }

    /// Asks `recipient_id` for the entry with id `entry_id`.
    pub fn request_entry(&self, recipient_id: String, entry_id: String) -> (r: Option<Outgoing>)
        requires
            self.wf(),
        ensures
            r is None <==> !is_connected(self.table(), recipient_id@),
            r matches Some(o) ==> routes_to(self.table(), recipient_id@, o@.connection)
                && made_message(
                o@.message,
                MessageType::EntryRequest,
                self.node(),
                recipient_id@,
                PayloadModel::EntryId(entry_id@),
            ),
    {
        let message = P2PMessage::new(
            MessageType::EntryRequest,
            self.node_id.clone(),
            recipient_id.clone(),
            Payload::EntryId(entry_id),
        );
        self.send_message(recipient_id, message)
    }

    /// Asks `recipient_id` for its whole chain.
    pub fn request_ledger_sync(&self, recipient_id: String) -> (r: Option<Outgoing>)
        requires
            self.wf(),
        ensures
            r is None <==> !is_connected(self.table(), recipient_id@),
            r matches Some(o) ==> routes_to(self.table(), recipient_id@, o@.connection)
                && made_message(
                o@.message,
                MessageType::LedgerSyncRequest,
                self.node(),
                recipient_id@,
                PayloadModel::Empty,
            ),
    {
        let message = P2PMessage::new(
            MessageType::LedgerSyncRequest,
            self.node_id.clone(),
            recipient_id.clone(),
            Payload::Empty,
        );
        self.send_message(recipient_id, message)
    }

    /// A peer connected on `connection`, naming itself `intro_node_id` (or
    /// nothing, and then it is called "unknown"). It is entered in the table
    /// (overwriting an earlier connection of the same id) and among the known
    /// nodes, and its arrival is announced to every connection, its own included.
    pub fn handle_connection(
        &mut self,
        connection: ConnectionId,
        intro_node_id: Option<String>,
    ) -> (r: Vec<Outgoing>)
        requires
            old(self).wf(),
        ensures
            final(self).wf(),
            final(self).node() == old(self).node(),
            ({
                let peer = match intro_node_id {
                    Some(id) => id@,
                    None => unknown_peer(),
                };
                &&& final(self).table() == conn_insert(old(self).table(), peer, connection)
                &&& final(self).ledger.known() == old(self).ledger.known().insert(peer)
                &&& final(self).ledger.chain() == old(self).ledger.chain()
                &&& final(self).ledger.pending() == old(self).ledger.pending()
                &&& final(self).ledger.owner() == old(self).ledger.owner()
                &&& exists|m: MessageModel|
                    made_message(
                        m,
                        MessageType::NodeAnnounce,
                        old(self).node(),
                        Seq::empty(),
                        PayloadModel::NodeId(peer),
                    ) && fan_out(sends(r@), final(self).table(), m)
            }),
    {
        let peer = match intro_node_id {
            Some(id) => id,
            None => unknown_peer_id(),
        };
        self.register_connection(peer.clone(), connection);
        self.ledger.add_known_node(peer.clone());
        let announce = P2PMessage::new(
            MessageType::NodeAnnounce,
            self.node_id.clone(),
            String::new(),
            Payload::NodeId(peer),
        );
        self.broadcast_message(announce)
    }
    fn handle_node_announce(&mut self, message: P2PMessage)
        requires
            old(self).wf(),
            message.message_type == MessageType::NodeAnnounce,
        ensures
            final(self).wf(),
            final(self).node_id == old(self).node_id,
            final(self).connected_nodes == old(self).connected_nodes,
            handled(
                old(self).ledger,
                final(self).ledger,
                old(self).node(),
                old(self).table(),
                0,
                message@,
                Seq::empty(),
            ),
    {
        let node_id = match message.payload {
            Payload::NodeId(id) => id,
            _ => unknown_peer_id(),
        };
        self.ledger.add_known_node(node_id);
    }

    fn handle_node_list_request(&self, from: ConnectionId, message: P2PMessage) -> (r: Vec<Outgoing>)
        requires
            self.wf(),
            message.message_type == MessageType::NodeListRequest,
        ensures
            handled(self.ledger, self.ledger, self.node(), self.table(), from, message@, sends(r@)),
    {
        let known_nodes = self.ledger.get_known_nodes();
        let ghost ns = texts(known_nodes@);
        let response = P2PMessage::new(
            MessageType::NodeListResponse,
            self.node_id.clone(),
            message.sender_id,
            Payload::Nodes(known_nodes),
        );
        let mut out: Vec<Outgoing> = Vec::new();
        out.push(Outgoing { connection: from, message: response });
        assert(sends(out@)[0] == out@[0]@);
        out
    }

    fn handle_entry_announce(&mut self, message: P2PMessage) -> (r: Vec<Outgoing>)
        requires
            old(self).wf(),
            message.message_type == MessageType::EntryAnnounce,
        ensures
            final(self).wf(),
            final(self).node_id == old(self).node_id,
            final(self).connected_nodes == old(self).connected_nodes,
            handled(
                old(self).ledger,
                final(self).ledger,
                old(self).node(),
                old(self).table(),
                0,
                message@,
                sends(r@),
            ),
    {
        match message.payload {
            Payload::Entry(entry) => {
                let ghost e = entry@;
                self.ledger.add_pending_entry(entry);
                let ghost pool = self.ledger.pending();
                let added = self.ledger.process_pending_entries();
                assert(pool == pool_insert(old(self).ledger.pending(), e));
                assert(reconciled(
                    old(self).ledger.chain(),
                    pool_insert(old(self).ledger.pending(), e),
                    self.ledger.chain(),
                    self.ledger.pending(),
                    models(added@),
                ));
                let out = self.announce_linked(&added);
                assert(announces(sends(out@), old(self).table(), old(self).node(), models(added@)));
                out
            },
            _ => {
                let out: Vec<Outgoing> = Vec::new();
                assert(sends(out@).len() == 0);
                out
            },
        }
    }

    fn handle_entry_request(&self, from: ConnectionId, message: P2PMessage) -> (r: Vec<Outgoing>)
        requires
            self.wf(),
            message.message_type == MessageType::EntryRequest,
        ensures
            handled(self.ledger, self.ledger, self.node(), self.table(), from, message@, sends(r@)),
    {
        let ghost msg = message@;
        let ghost id = requested_id(msg.payload);
        let sender_id = message.sender_id;
        let entry_id = match message.payload {
            Payload::EntryId(id) => id,
            _ => String::new(),
        };
        let entries = self.ledger.get_entries();
        let ghost chain = self.ledger.chain();
        let mut i: usize = 0;
        while i < entries.len()
            invariant
                entry_id@ == id,
                msg.message_type == MessageType::EntryRequest,
                msg == message@,
                id == requested_id(msg.payload),
                chain == self.ledger.chain(),
                sender_id@ == msg.sender_id,
                models(entries@) == chain,
                i <= chain.len(),
                forall|j: int| 0 <= j < i ==> #[trigger] chain[j].id != id,
            decreases chain.len() - i,
        {
            if entries[i].id == entry_id {
                assert(chain[i as int] == entries@[i as int]@);
                let response = P2PMessage::new(
                    MessageType::EntryResponse,
                    self.node_id.clone(),
                    sender_id,
                    Payload::Entry(entries[i].clone()),
                );
                let mut out: Vec<Outgoing> = Vec::new();
                out.push(Outgoing { connection: from, message: response });
                assert(sends(out@)[0] == out@[0]@);
                assert(first_with_id(chain, id, i as int));
                assert(replies(
                    sends(out@),
                    from,
                    MessageType::EntryResponse,
                    self.node(),
                    msg.sender_id,
                    PayloadModel::Entry(chain[i as int]),
                ));
                return out;
            }
            assert(chain[i as int] == entries@[i as int]@);
            i += 1;
        }
        let out: Vec<Outgoing> = Vec::new();
        assert(sends(out@).len() == 0);
        out
    }

    fn handle_ledger_sync_request(&self, from: ConnectionId, message: P2PMessage) -> (r: Vec<Outgoing>)
        requires
            self.wf(),
            message.message_type == MessageType::LedgerSyncRequest,
        ensures
            handled(self.ledger, self.ledger, self.node(), self.table(), from, message@, sends(r@)),
    {
        let entries = copy_entries(self.ledger.get_entries());
        let response = P2PMessage::new(
            MessageType::LedgerSyncResponse,
            self.node_id.clone(),
            message.sender_id,
            Payload::Entries(entries),
        );
        let mut out: Vec<Outgoing> = Vec::new();
        out.push(Outgoing { connection: from, message: response });
        assert(sends(out@)[0] == out@[0]@);
        out
    }

    /// Puts every entry of `entries` into the pending pool, in order, then
    /// reconciles once; returns what was linked.
    pub fn merge_entries(&mut self, entries: Vec<LedgerEntry>) -> (r: Vec<LedgerEntry>)
        requires
            old(self).wf(),
        ensures
            final(self).wf(),
            final(self).node_id == old(self).node_id,
            final(self).connected_nodes == old(self).connected_nodes,
            final(self).ledger.known() == old(self).ledger.known(),
            final(self).ledger.owner() == old(self).ledger.owner(),
            reconciled(
                old(self).ledger.chain(),
                pool_insert_all(old(self).ledger.pending(), models(entries@)),
                final(self).ledger.chain(),
                final(self).ledger.pending(),
                models(r@),
            ),
    {
        let ghost es = models(entries@);
        let mut entries = entries;
        let mut rest: Vec<LedgerEntry> = Vec::new();
        // Take the entries out back to front, so that they can be added front to back.
        while entries.len() > 0
            invariant
                models(entries@) + models(rest@).reverse() == es,
            decreases entries@.len(),
        {
            let ghost before_e = entries@;
            let ghost before_r = rest@;
            let e = entries.pop().unwrap();
            rest.push(e);
            proof {
                assert(before_e =~= entries@.push(e));
                assert(models(before_e) =~= models(entries@).push(e@));
                assert(models(rest@) =~= models(before_r).push(e@));
                assert(models(rest@).reverse() =~= seq![e@] + models(before_r).reverse());
                assert(models(entries@) + models(rest@).reverse() =~= models(before_e) + models(
                    before_r,
                ).reverse());
            }
        }
        assert(models(entries@) =~= Seq::<EntryModel>::empty());
        assert(models(rest@).reverse() =~= es);
        let ghost n = es.len();
        while rest.len() > 0
            invariant
                self.wf(),
                self.node_id == old(self).node_id,
                self.connected_nodes == old(self).connected_nodes,
                self.ledger.known() == old(self).ledger.known(),
                self.ledger.owner() == old(self).ledger.owner(),
                self.ledger.chain() == old(self).ledger.chain(),
                n == es.len(),
                rest@.len() <= n,
                models(rest@).reverse() == es.subrange(n - rest@.len(), n as int),
                self.ledger.pending() == pool_insert_all(
                    old(self).ledger.pending(),
                    es.subrange(0, n - rest@.len()),
                ),
            decreases rest@.len(),
        {
            let ghost before_r = rest@;
            let e = rest.pop().unwrap();
            let ghost k = n - before_r.len();
            proof {
                assert(before_r =~= rest@.push(e));
                assert(models(before_r) =~= models(rest@).push(e@));
                assert(models(before_r).reverse()[0] == e@);
                assert(es[k] == e@);
                let done = es.subrange(0, k + 1);
                assert(done.drop_last() =~= es.subrange(0, k));
                assert(models(rest@).reverse() =~= models(before_r).reverse().subrange(
                    1,
                    before_r.len() as int,
                ));
            }
            self.ledger.add_pending_entry(e);
        }
        assert(es.subrange(0, n as int) =~= es);
        self.ledger.process_pending_entries()
    }

    fn handle_ledger_sync_response(&mut self, message: P2PMessage)
        requires
            old(self).wf(),
            message.message_type == MessageType::LedgerSyncResponse,
        ensures
            final(self).wf(),
            final(self).node_id == old(self).node_id,
            final(self).connected_nodes == old(self).connected_nodes,
            handled(
                old(self).ledger,
                final(self).ledger,
                old(self).node(),
                old(self).table(),
                0,
                message@,
                Seq::empty(),
            ),
    {
        let ghost msg = message@;
        match message.payload {
            Payload::Entries(entries) => {
                assert(msg.payload == PayloadModel::Entries(models(entries@)));
                let linked = self.merge_entries(entries);
                assert(reconciled(
                    old(self).ledger.chain(),
                    pool_insert_all(old(self).ledger.pending(), models(entries@)),
                    self.ledger.chain(),
                    self.ledger.pending(),
                    models(linked@),
                ));
                assert(msg.payload->Entries_0 == models(entries@));
            },
            _ => {
                assert(!(msg.payload is Entries));
            },
        }
    }

    /// Acts on `message`, received on connection `from`: updates the ledger and
    /// returns the replies and announcements to send. Responses that this node
    /// did not ask for, and payloads of the wrong form, are dropped.
    pub fn handle_message(&mut self, from: ConnectionId, message: P2PMessage) -> (r: Vec<Outgoing>)
        requires
            old(self).wf(),
        ensures
            final(self).wf(),
            final(self).node_id == old(self).node_id,
            final(self).connected_nodes == old(self).connected_nodes,
            handled(
                old(self).ledger,
                final(self).ledger,
                old(self).node(),
                old(self).table(),
                from,
                message@,
                sends(r@),
            ),
    {
        match message.message_type {
            MessageType::NodeAnnounce => {
                self.handle_node_announce(message);
                let out: Vec<Outgoing> = Vec::new();
                assert(sends(out@) =~= Seq::<OutgoingModel>::empty());
                out
            },
            MessageType::NodeListRequest => self.handle_node_list_request(from, message),
            MessageType::EntryAnnounce => self.handle_entry_announce(message),
            MessageType::EntryRequest => self.handle_entry_request(from, message),
            MessageType::LedgerSyncRequest => self.handle_ledger_sync_request(from, message),
            MessageType::LedgerSyncResponse => {
                self.handle_ledger_sync_response(message);
                let out: Vec<Outgoing> = Vec::new();
                assert(sends(out@) =~= Seq::<OutgoingModel>::empty());
                out
            },
            _ => {
                let out: Vec<Outgoing> = Vec::new();
                assert(sends(out@) =~= Seq::<OutgoingModel>::empty());
                out
            },
        }
    }
}


/// Gossip onto an empty ledger: a valid announced entry that names the genesis
/// hash is linked, leaves the pool empty, and is announced onward once on every
/// connection.
pub proof fn lemma_announce_onto_empty_ledger(
    before: Ledger,
    after: Ledger,
    node: Seq<char>,
    conns: Seq<(Seq<char>, ConnectionId)>,
    from: ConnectionId,
    msg: MessageModel,
    out: Seq<OutgoingModel>,
    e: EntryModel,
)
    requires
        before.chain() == Seq::<EntryModel>::empty(),
        before.pending() == Seq::<EntryModel>::empty(),
        msg.message_type == MessageType::EntryAnnounce,
        msg.payload == PayloadModel::Entry(e),
        e.previous_hash == genesis_hash(),
        valid_entry(e),
        handled(before, after, node, conns, from, msg, out),
    ensures
        after.chain() == seq![e],
        after.pending() == Seq::<EntryModel>::empty(),
        exists|m: MessageModel|
            made_message(m, MessageType::EntryAnnounce, node, Seq::empty(), PayloadModel::Entry(e))
                && fan_out(out, conns, m),
{
    reveal_with_fuel(announces, 2);
    let pool = pool_insert(before.pending(), e);
    assert(pool =~= seq![e]);
    let linked = choose|linked: Seq<EntryModel>|
        reconciled(before.chain(), pool, after.chain(), after.pending(), linked) && announces(
            out,
            conns,
            node,
            linked,
        );
    let tip = tip_hash(before.chain());
    assert(pool[0] == e);
    let i = choose|i: int|
        is_preferred(pool, tip, i) && linked == seq![pool[i]] && after.chain() == before.chain().push(
            pool[i],
        ) && after.pending() == pool.remove(i);
    assert(i == 0);
    assert(after.chain() =~= seq![e]);
    assert(after.pending() =~= Seq::<EntryModel>::empty());
    assert(linked.drop_last() =~= Seq::<EntryModel>::empty());
    assert(linked.last() == e);
    let cut = out.len() - conns.len();
    assert(out.subrange(0, cut).len() == 0);
    assert(out.subrange(cut, out.len() as int) =~= out);
}

} // verus!
