//! Ledger entries: immutable, self-verifying links of the chain.

use vstd::prelude::*;
use crate::digest::{hex_digest, sha256_hex, sha256_of};
use crate::encoding::{decimal, push_decimal_i64, is_lower_hex_text, lemma_lower_hex_injective};
use vstd::utf8::encode_utf8;
use crate::time::{Timestamp, rfc3339_text, millis_of};

verus! {

/// The `previous_hash` of the first entry of every chain: sixty-four zeros.
pub open spec fn genesis_hash() -> Seq<char> {
    Seq::new(64, |i: int| '0')
}

/// Signatures by node id; a later pair for the same node replaces an earlier one.
pub open spec fn signature_map(pairs: Seq<(String, String)>) -> Map<Seq<char>, Seq<char>>
    decreases pairs.len(),
{
    if pairs.len() == 0 {
        Map::empty()
    } else {
        signature_map(pairs.drop_last()).insert(pairs.last().0@, pairs.last().1@)
    }
}

/// What a ledger entry holds, as mathematical values.
pub struct EntryModel {
    pub id: Seq<char>,
    pub timestamp: (int, int),
    pub data: Seq<char>,
    pub previous_hash: Seq<char>,
    pub hash: Seq<char>,
    pub creator_node_id: Seq<char>,
    pub signatures: Map<Seq<char>, Seq<char>>,
}

/// The text that an entry's hash is the digest of: its id, the RFC 3339 form of
/// its timestamp, its data, its previous hash and its creator, in that order.
pub open spec fn canonical_text(e: EntryModel) -> Seq<char> {
    e.id + rfc3339_text(e.timestamp.0, e.timestamp.1) + e.data + e.previous_hash
        + e.creator_node_id
}

/// The hash that an entry with these fields must carry.
pub open spec fn entry_digest(e: EntryModel) -> Seq<char> {
    hex_digest(canonical_text(e))
}

/// An entry is valid when its stored hash is the digest of its fields.
pub open spec fn valid_entry(e: EntryModel) -> bool {
    e.hash == entry_digest(e)
}

/// The id given to an entry created locally: creator, '-', and the creation
/// time in milliseconds since the epoch.
pub open spec fn local_entry_id(creator: Seq<char>, t: (int, int)) -> Seq<char> {
    creator + seq!['-'] + decimal(millis_of(t))
}

/// A single entry of the distributed ledger. `data` is the caller's document in
/// its canonical (compact JSON) text, which is what the hash covers.
#[derive(Debug)]
pub struct LedgerEntry {
    pub id: String,
    pub timestamp: Timestamp,
    pub data: String,
    pub previous_hash: String,
    pub hash: String,
    pub creator_node_id: String,
    pub signatures: Vec<(String, String)>,
}

impl View for LedgerEntry {
    type V = EntryModel;

    open spec fn view(&self) -> EntryModel {
        EntryModel {
            id: self.id@,
            timestamp: self.timestamp@,
            data: self.data@,
            previous_hash: self.previous_hash@,
            hash: self.hash@,
            creator_node_id: self.creator_node_id@,
            signatures: signature_map(self.signatures@),
        }
    }
}

fn copy_pairs(pairs: &Vec<(String, String)>) -> (r: Vec<(String, String)>)
    ensures
        r@ == pairs@,
{
    let mut out: Vec<(String, String)> = Vec::new();
    let mut i: usize = 0;
    while i < pairs.len()
        invariant
            i <= pairs@.len(),
            out@ == pairs@.subrange(0, i as int),
        decreases pairs@.len() - i,
    {
        let pair = &pairs[i];
        out.push((pair.0.clone(), pair.1.clone()));
        assert(out@ =~= pairs@.subrange(0, i as int + 1));
        i += 1;
    }
    assert(out@ =~= pairs@);
    out
}

impl Clone for LedgerEntry {
    fn clone(&self) -> (r: Self)
        ensures
            r@ == self@,
    {
        LedgerEntry {
            id: self.id.clone(),
            timestamp: self.timestamp,
            data: self.data.clone(),
            previous_hash: self.previous_hash.clone(),
            hash: self.hash.clone(),
            creator_node_id: self.creator_node_id.clone(),
            signatures: copy_pairs(&self.signatures),
        }
    }
}

proof fn lemma_signature_map_step(pairs: Seq<(String, String)>, i: int, node: Seq<char>)
    requires
        0 <= i < pairs.len(),
    ensures
        pairs[i].0@ == node ==> signature_map(pairs.subrange(0, i + 1)).remove(node)
            == signature_map(pairs.subrange(0, i)).remove(node),
        pairs[i].0@ != node ==> signature_map(pairs.subrange(0, i + 1)).remove(node)
            == signature_map(pairs.subrange(0, i)).remove(node).insert(
            pairs[i].0@,
            pairs[i].1@,
        ),
{
    let next = pairs.subrange(0, i + 1);
    assert(next.drop_last() =~= pairs.subrange(0, i));
    let m = signature_map(pairs.subrange(0, i));
    if pairs[i].0@ == node {
        assert(m.insert(node, pairs[i].1@).remove(node) =~= m.remove(node));
    } else {
        assert(m.insert(pairs[i].0@, pairs[i].1@).remove(node) =~= m.remove(node).insert(
            pairs[i].0@,
            pairs[i].1@,
        ));
    }
}

impl LedgerEntry {
    /// Builds an entry created by `creator_node_id` at `timestamp`, with its id
    /// and hash derived from its fields and no signatures.
    pub fn with_timestamp(
        data: String,
        previous_hash: String,
        creator_node_id: String,
        timestamp: Timestamp,
    ) -> (r: LedgerEntry)
        ensures
            r@.id == local_entry_id(creator_node_id@, timestamp@),
            r@.timestamp == timestamp@,
            r@.data == data@,
            r@.previous_hash == previous_hash@,
            r@.creator_node_id == creator_node_id@,
            r@.signatures == Map::<Seq<char>, Seq<char>>::empty(),
            r@.hash == entry_digest(r@),
            r@.hash.len() == 64,
            is_lower_hex_text(r@.hash),
            valid_entry(r@),
    {
        let mut id = creator_node_id.clone();
        let dash: &'static str = "-";
        proof {
            reveal_strlit("-");
        }
        id.append(dash);
        push_decimal_i64(&mut id, timestamp.timestamp_millis());
        assert(id@ =~= local_entry_id(creator_node_id@, timestamp@));
        let mut entry = LedgerEntry {
            id,
            timestamp,
            data,
            previous_hash,
            hash: String::new(),
            creator_node_id,
            signatures: Vec::new(),
        };
        assert(signature_map(entry.signatures@) =~= Map::<Seq<char>, Seq<char>>::empty());
        entry.hash = entry.calculate_hash();
        entry
    }

    /// Builds an entry created now by `creator_node_id`. Its timestamp is the
    /// system clock's reading; everything else is as `with_timestamp` states.
    pub fn new(data: String, previous_hash: String, creator_node_id: String) -> (r: LedgerEntry)
        ensures
            r@.id == local_entry_id(creator_node_id@, r@.timestamp),
            r@.data == data@,
            r@.previous_hash == previous_hash@,
            r@.creator_node_id == creator_node_id@,
            r@.signatures == Map::<Seq<char>, Seq<char>>::empty(),
            r@.hash == entry_digest(r@),
            r@.hash.len() == 64,
            is_lower_hex_text(r@.hash),
            valid_entry(r@),
    {
        LedgerEntry::with_timestamp(data, previous_hash, creator_node_id, Timestamp::now())
    }

    /// The text that the hash covers.
    pub fn canonical_text(&self) -> (r: String)
        ensures
            r@ == canonical_text(self@),
    {
        let mut text = self.id.clone();
        let stamp = self.timestamp.to_rfc3339();
        text.append(stamp.as_str());
        text.append(self.data.as_str());
        text.append(self.previous_hash.as_str());
        text.append(self.creator_node_id.as_str());
        text
    }

    /// The digest of this entry's fields, as 64 lowercase hexadecimal digits.
    pub fn calculate_hash(&self) -> (r: String)
        ensures
            r@ == entry_digest(self@),
            r@.len() == 64,
            is_lower_hex_text(r@),
    {
        let text = self.canonical_text();
        sha256_hex(text.as_str())
    }

    /// True when the stored hash is the digest of the entry's fields.
    pub fn is_valid(&self) -> (r: bool)
        ensures
            r == valid_entry(self@),
    {
        let expected = self.calculate_hash();
        self.hash == expected
    }

    /// Records `signature` from `node_id`, replacing an earlier one from that node.
    pub fn add_signature(&mut self, node_id: String, signature: String)
        ensures
            final(self)@ == (EntryModel {
                signatures: old(self)@.signatures.insert(node_id@, signature@),
                ..old(self)@
            }),
    {
        let ghost pairs = self.signatures@;
        let mut kept: Vec<(String, String)> = Vec::new();
        let mut i: usize = 0;
        assert(pairs.subrange(0, 0) =~= Seq::<(String, String)>::empty());
        assert(Map::<Seq<char>, Seq<char>>::empty().remove(node_id@) =~= Map::empty());
        while i < self.signatures.len()
            invariant
                pairs == self.signatures@,
                i <= pairs.len(),
                signature_map(kept@) == signature_map(pairs.subrange(0, i as int)).remove(
                    node_id@,
                ),
            decreases pairs.len() - i,
        {
            let same = self.signatures[i].0 == node_id;
            proof {
                lemma_signature_map_step(pairs, i as int, node_id@);
            }
            if !same {
                let pair = (self.signatures[i].0.clone(), self.signatures[i].1.clone());
                let ghost before = kept@;
                kept.push(pair);
                assert(kept@.drop_last() =~= before);
            }
            i += 1;
        }
        assert(pairs.subrange(0, pairs.len() as int) =~= pairs);
        let ghost before = kept@;
        kept.push((node_id, signature));
        assert(kept@.drop_last() =~= before);
        proof {
            let m = signature_map(pairs);
            assert(m.remove(node_id@).insert(node_id@, signature@) =~= m.insert(
                node_id@,
                signature@,
            ));
        }
        self.signatures = kept;
    }
}

proof fn lemma_middle_differs(pre: Seq<char>, x: Seq<char>, y: Seq<char>, post: Seq<char>)
    requires
        x != y,
    ensures
        pre + x + post != pre + y + post,
{
    if pre + x + post == pre + y + post {
        assert((pre + x + post).len() == pre.len() + x.len() + post.len());
        assert((pre + y + post).len() == pre.len() + y.len() + post.len());
        assert(x.len() == y.len());
        assert(x =~= (pre + x + post).subrange(pre.len() as int, (pre.len() + x.len()) as int));
        assert(y =~= (pre + y + post).subrange(pre.len() as int, (pre.len() + y.len()) as int));
    }
}

/// Two entries that differ in exactly one of id, data, previous hash or creator,
/// and agree on every other field.
pub open spec fn one_field_changed(e: EntryModel, e2: EntryModel) -> bool {
    &&& e2.timestamp == e.timestamp
    &&& e2.hash == e.hash
    &&& {
        ||| e2.id != e.id && e2.data == e.data && e2.previous_hash == e.previous_hash
            && e2.creator_node_id == e.creator_node_id
        ||| e2.id == e.id && e2.data != e.data && e2.previous_hash == e.previous_hash
            && e2.creator_node_id == e.creator_node_id
        ||| e2.id == e.id && e2.data == e.data && e2.previous_hash != e.previous_hash
            && e2.creator_node_id == e.creator_node_id
        ||| e2.id == e.id && e2.data == e.data && e2.previous_hash == e.previous_hash
            && e2.creator_node_id != e.creator_node_id
    }
}

/// Changing one of id, data, previous hash or creator changes the text that the
/// hash covers.
pub proof fn lemma_field_change_changes_text(e: EntryModel, e2: EntryModel)
    requires
        one_field_changed(e, e2),
    ensures
        canonical_text(e) != canonical_text(e2),
{
    let r = rfc3339_text(e.timestamp.0, e.timestamp.1);
    if e2.id != e.id {
        let post = r + e.data + e.previous_hash + e.creator_node_id;
        lemma_middle_differs(Seq::empty(), e.id, e2.id, post);
        assert(canonical_text(e) =~= Seq::<char>::empty() + e.id + post);
        assert(canonical_text(e2) =~= Seq::<char>::empty() + e2.id + post);
    } else if e2.data != e.data {
        let pre = e.id + r;
        let post = e.previous_hash + e.creator_node_id;
        lemma_middle_differs(pre, e.data, e2.data, post);
        assert(canonical_text(e) =~= pre + e.data + post);
        assert(canonical_text(e2) =~= pre + e2.data + post);
    } else if e2.previous_hash != e.previous_hash {
        let pre = e.id + r + e.data;
        lemma_middle_differs(pre, e.previous_hash, e2.previous_hash, e.creator_node_id);
    } else {
        let pre = e.id + r + e.data + e.previous_hash;
        lemma_middle_differs(pre, e.creator_node_id, e2.creator_node_id, Seq::empty());
        assert(canonical_text(e) =~= pre + e.creator_node_id + Seq::<char>::empty());
        assert(canonical_text(e2) =~= pre + e2.creator_node_id + Seq::<char>::empty());
    }
}

/// Tampering is detected: a valid entry with one of id, data, previous hash or
/// creator changed and its hash kept is no longer valid, unless SHA-256 gives
/// the two (different) texts the same digest.
pub proof fn lemma_tampering_invalidates(e: EntryModel, e2: EntryModel)
    requires
        valid_entry(e),
        one_field_changed(e, e2),
        sha256_of(encode_utf8(canonical_text(e))) != sha256_of(encode_utf8(canonical_text(e2))),
    ensures
        canonical_text(e) != canonical_text(e2),
        !valid_entry(e2),
{
    lemma_field_change_changes_text(e, e2);
    if valid_entry(e2) {
        lemma_lower_hex_injective(
            sha256_of(encode_utf8(canonical_text(e))),
            sha256_of(encode_utf8(canonical_text(e2))),
        );
    }
}

} // verus!
