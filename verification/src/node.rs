//! Node orchestration: the queue of pending put/get operations a node
//! works through, the planning of a PutFile against an online peer set,
//! the completion of a GetFile from a DHT record and collected shards,
//! and the parsing of operator commands.

use crate::codec::{hex_decode, spec_hex_decode};
use crate::crypto::{public_of, spec_decrypt, SecretKey};
use crate::file::{File, FileID};
use crate::shard::{concat_data, shards_ordered, shards_wf, Shard, ShardingError};
use vstd::prelude::*;
use vstd::slice::{slice_subrange, slice_to_vec};
use vstd::string::StringSliceAdditionalSpecFns;

verus! {

/// The maximum number of shards of a singular file: the fan-out cap on
/// how many peers one file is spread over.
pub const MAX_SHARDS: usize = 15;

/// Everything that can go wrong while orchestrating network operations.
#[derive(Debug)]
pub enum OrchestrationError {
    /// No peers are available to hold the file's shards.
    NotEnoughPeers,
    /// The DHT could not store the record.
    DhtPutFailed,
    /// The DHT could not retrieve the record.
    DhtGetFailed,
    /// An assigned peer could not be reached.
    PeerUnreachable,
    /// The DHT record is not the serialized form of any file.
    InvalidRecord,
    /// The file could not be verified against the collected shards.
    Invalid,
    /// A wrapped sharding failure.
    Sharding(ShardingError),
}

/// Parameters for a client operation on the network.
#[derive(Debug)]
pub struct OperationConfig {
    /// Output location for a get file request on the disk.
    pub output_file: String,
    /// Minimum number of nodes that the operation must contact to be
    /// valid.
    pub min_nodes: u16,
    /// Should the output be automatically decompressed.
    pub decompress: bool,
    /// Should the output be automatically decrypted.
    pub decrypt: bool,
}

/// An operation that a node on the network can perform.
pub enum Operation {
    /// Store a file on the network, and send its shards to the assigned
    /// peers.
    PutFile { file_metadata: File, file_bytes: Vec<u8>, config: OperationConfig },
    /// Poll the necessary nodes to get a file from the network.
    GetFile { file_id: FileID, config: OperationConfig },
    /// Send a test broadcast message.
    TestSub,
}

/// A DHT record ready to publish: the file identifier as the key, the
/// serialized file as the value.
pub struct DhtRecord {
    pub key: Vec<u8>,
    pub value: Vec<u8>,
}

/// Everything a PutFile needs from the network layer: the finalized
/// metadata, the shards to distribute to the assigned peers, and the
/// DHT record to publish.
pub struct PutPlan {
    pub file: File,
    pub shards: Vec<Shard>,
    pub record: DhtRecord,
}

/// The number of shard slots assigned from a pool of `n` online peers:
/// all of them, capped at the maximum fan-out.
pub open spec fn capped_peers(n: int) -> int {
    if n > MAX_SHARDS {
        MAX_SHARDS as int
    } else {
        n
    }
}

/// A node on the network. It works through its pending operations one
/// at a time, first in first out; the network loop around it performs
/// the planned actions.
pub struct Node {
    pending_ops: Vec<Operation>,
}

impl Node {
    /// The node's queue of pending operations, oldest first.
    pub closed spec fn pending(&self) -> Seq<Operation> {
        self.pending_ops@
    }

    /// Initialize a new node with no pending operations.
    pub fn new() -> (r: Self)
        ensures
            r.pending() == Seq::<Operation>::empty(),
    {
        Node { pending_ops: Vec::new() }
    }

    /// Push a network operation onto this node's queue of operations.
    pub fn push_operation(&mut self, op: Operation)
        ensures
            final(self).pending() == old(self).pending().push(op),
    {
        self.pending_ops.push(op);
    }

    /// Take the oldest pending operation off the queue, if any.
    pub fn next_operation(&mut self) -> (r: Option<Operation>)
        ensures
            old(self).pending().len() == 0 ==> r is None && final(self).pending() == old(self).pending(),
            old(self).pending().len() > 0 ==> r == Some(old(self).pending()[0])
                && final(self).pending() == old(self).pending().drop_first(),
    {
        if self.pending_ops.len() == 0 {
            None
        } else {
            let op = self.pending_ops.remove(0);
            proof {
                assert(self.pending_ops@ =~= old(self).pending_ops@.drop_first());
            }
            Some(op)
        }
    }

    /// Plan the core node operation that puts a file onto the network:
    /// assign one peer per prospective shard index — the online peers,
    /// capped at the maximum fan-out, and "unassigned" (empty) slots
    /// beyond them — shard the file bytes, and build the DHT record
    /// binding the file identifier to the finalized metadata. Fails with
    /// NotEnoughPeers, before any sharding, where no peer is available.
    pub fn put_file(file_metadata: File, file_bytes: &Vec<u8>, peers: &Vec<Vec<u8>>) -> (r: Result<
        PutPlan,
        OrchestrationError,
    >)
        requires
            file_metadata.shard_config.pub_key.wf(),
        ensures
            match r {
                Ok(plan) => {
                    &&& peers@.len() > 0
                    &&& plan.file.shards@.len() == plan.file.shard_config.shard_count
                    &&& forall|i: int|
                        0 <= i < plan.file.shards@.len() && i < capped_peers(peers@.len() as int)
                            ==> (#[trigger] plan.file.shards@[i])@ == peers@[i]@
                    &&& forall|i: int|
                        capped_peers(peers@.len() as int) <= i < plan.file.shards@.len() ==> (
                        #[trigger] plan.file.shards@[i])@ == Seq::<u8>::empty()
                    &&& plan.file.filename == file_metadata.filename
                    &&& plan.file.id == file_metadata.id
                    &&& plan.file.creation_date == file_metadata.creation_date
                    &&& plan.file.checksum == file_metadata.checksum
                    &&& plan.file.signature == file_metadata.signature
                    &&& plan.file.owner == file_metadata.owner
                    &&& plan.record.key@ == plan.file.id@
                    &&& plan.record.value@ == plan.file.spec_encoding()
                    &&& shards_wf(plan.shards@)
                    &&& shards_ordered(plan.shards@)
                    &&& plan.file.shard_config.shard_count == plan.shards@.len()
                    &&& plan.shards@.len() == file_metadata.shard_config.shard_count
                    &&& plan.file.shard_config.encrypt == file_metadata.shard_config.encrypt
                    &&& plan.file.shard_config.pub_key@ == file_metadata.shard_config.pub_key@
                    &&& if file_metadata.shard_config.encrypt {
                        forall|sk: Seq<u8>|
                            public_of(sk) == file_metadata.shard_config.pub_key@
                                ==> #[trigger] spec_decrypt(sk, concat_data(plan.shards@)) == Some(
                                file_bytes@,
                            )
                    } else {
                        concat_data(plan.shards@) == file_bytes@
                    }
                },
                Err(e) => {
                    &&& e is NotEnoughPeers || e is Sharding
                    &&& (e is NotEnoughPeers) <==> peers@.len() == 0
                    &&& (peers@.len() > 0 && !file_metadata.shard_config.encrypt && 0
                        < file_metadata.shard_config.shard_count <= file_bytes@.len()
                        && file_metadata.shard_config.shard_count <= u32::MAX) ==> (e matches
                        OrchestrationError::Sharding(se) && se is ClockError)
                },
            },
    {
        // (1) Cap the online peer set at the maximum shard fan-out, and
        // fail before any sharding where it is empty.
        if peers.len() == 0 {
            return Err(OrchestrationError::NotEnoughPeers);
        }
        let cap: usize = if peers.len() > MAX_SHARDS {
            MAX_SHARDS
        } else {
            peers.len()
        };
        // One slot per prospective shard index: a peer while the capped
        // set lasts, unassigned afterwards.
        let slots: usize = file_metadata.shard_config.shard_count;
        let mut assigned: Vec<Vec<u8>> = Vec::new();
        let mut i: usize = 0;
        while i < slots
            invariant
                cap == capped_peers(peers@.len() as int),
                cap <= peers@.len(),
                i <= slots,
                assigned@.len() == i,
                forall|j: int|
                    0 <= j < i && j < cap ==> (#[trigger] assigned@[j])@ == peers@[j]@,
                forall|j: int|
                    cap <= j < i ==> (#[trigger] assigned@[j])@ == Seq::<u8>::empty(),
            decreases slots - i,
        {
            if i < cap {
                assigned.push(slice_to_vec(peers[i].as_slice()));
            } else {
                assigned.push(Vec::new());
            }
            i = i + 1;
        }
        let mut file = file_metadata;
        file.set_shards(&assigned);
        // Calculate the shards of the file and update the sharding
        // metadata accordingly.
        let config = file.shard_config.clone();
        let (shards, new_config) = match Shard::shard(file_bytes, config) {
            Ok(v) => v,
            Err(e) => {
                return Err(OrchestrationError::Sharding(e));
            },
        };
        file.shard_config = new_config;
        // (2) The DHT record: the file identifier points at the metadata.
        let key = file.id.to_bytes();
        let value = file.to_bytes();
        Ok(PutPlan { file, shards, record: DhtRecord { key, value } })
    }

    /// The DHT key a GetFile queries: the raw bytes of the identifier.
    pub fn get_file(file_id: &FileID) -> (r: Vec<u8>)
        ensures
            r@ == file_id@,
    {
        file_id.to_bytes()
    }

    /// Complete a GetFile once the DHT record and the shards have been
    /// collected: decode the metadata, reconstruct the payload and
    /// validate the file against it. Succeeds exactly where the record
    /// is the canonical form of a file that validates against the
    /// shards; unverifiable data is never returned.
    pub fn complete_get(
        record_value: &Vec<u8>,
        shards: &Vec<Shard>,
        priv_key: Option<&SecretKey>,
    ) -> (r: Result<(File, Vec<u8>), OrchestrationError>)
        requires
            priv_key matches Some(k) ==> k.wf(),
        ensures
            match r {
                Ok((file, bytes)) => {
                    &&& file.encodable()
                    &&& file.spec_encoding() == record_value@
                    &&& file.spec_valid(shards@, File::key_view(priv_key))
                    &&& Some(bytes@) == File::spec_payload(
                        shards@,
                        file.shard_config.encrypt,
                        File::key_view(priv_key),
                    )
                },
                Err(e) => {
                    &&& e is InvalidRecord || e is Invalid
                    &&& (e is InvalidRecord) <==> (forall|f: File|
                        f.encodable() ==> f.spec_encoding() != record_value@)
                    &&& (e is Invalid) <==> (exists|f: File|
                        f.encodable() && (#[trigger] f.spec_encoding()) == record_value@
                            && !f.spec_valid(shards@, File::key_view(priv_key)))
                },
            },
    {
        let file = match File::from_bytes(record_value) {
            Some(f) => f,
            None => {
                return Err(OrchestrationError::InvalidRecord);
            },
        };
        let data = match Shard::reconstruct(shards, &file.shard_config, priv_key) {
            Ok(d) => d,
            Err(_) => {
                return Err(OrchestrationError::Invalid);
            },
        };
        if !file.is_valid(shards, priv_key) {
            return Err(OrchestrationError::Invalid);
        }
        Ok((file, data))
    }
}

/// An operator command read from the console: get a file record by the
/// hexadecimal rendering of its identifier, or put a raw key/value
/// record.
pub enum Command {
    Get { key: FileID },
    Put { key: Vec<u8>, value: Vec<u8> },
}

/// The first index at or after `from` holding a space, or the length of
/// the sequence. Tokens run between spaces.
pub open spec fn token_end(s: Seq<u8>, from: int) -> int
    decreases s.len() - from when 0 <= from <= s.len()
{
    if from >= s.len() {
        s.len() as int
    } else if s[from] == 32 {
        from
    } else {
        token_end(s, from + 1)
    }
}

/// Find the end of the token starting at `from`.
fn token_end_exec(s: &[u8], from: usize) -> (r: usize)
    requires
        from <= s@.len(),
    ensures
        r == token_end(s@, from as int),
        from <= r <= s@.len(),
{
    let mut i: usize = from;
    while i < s.len()
        invariant
            from <= i <= s@.len(),
            token_end(s@, from as int) == token_end(s@, i as int),
        decreases s@.len() - i,
    {
        if s[i] == 32 {
            return i;
        }
        i = i + 1;
    }
    i
}

/// The bytes of the word introducing a get command.
pub open spec fn get_word() -> Seq<u8> {
    seq![71u8, 69u8, 84u8]
}

/// The bytes of the word introducing a put command.
pub open spec fn put_word() -> Seq<u8> {
    seq![80u8, 85u8, 84u8]
}

/// A line is a get command when its first token is the get word and its
/// second token is the hexadecimal rendering of a 32-byte identifier.
pub open spec fn is_get_command(s: Seq<u8>) -> bool {
    let e0 = token_end(s, 0);
    &&& s.subrange(0, e0) == get_word()
    &&& e0 < s.len()
    &&& match spec_hex_decode(s.subrange(e0 + 1, token_end(s, e0 + 1))) {
        Some(b) => b.len() == crate::crypto::HASH_SIZE,
        None => false,
    }
}

/// A line is a put command when its first token is the put word and a
/// key token and a value token follow.
pub open spec fn is_put_command(s: Seq<u8>) -> bool {
    let e0 = token_end(s, 0);
    &&& s.subrange(0, e0) == put_word()
    &&& e0 < s.len()
    &&& token_end(s, e0 + 1) < s.len()
}

/// Parse one console line into a command: `GET <hex file id>` or
/// `PUT <key> <value>`. Anything else is no command.
pub fn parse_command(line: &str) -> (r: Option<Command>)
    ensures
        match r {
            Some(Command::Get { key }) => is_get_command(line.spec_bytes()) && {
                let s = line.spec_bytes();
                let e0 = token_end(s, 0);
                spec_hex_decode(s.subrange(e0 + 1, token_end(s, e0 + 1))) == Some(key@)
            },
            Some(Command::Put { key, value }) => is_put_command(line.spec_bytes()) && {
                let s = line.spec_bytes();
                let e0 = token_end(s, 0);
                let e1 = token_end(s, e0 + 1);
                let e2 = token_end(s, e1 + 1);
                key@ == s.subrange(e0 + 1, e1) && value@ == s.subrange(e1 + 1, e2)
            },
            None => !is_get_command(line.spec_bytes()) && !is_put_command(line.spec_bytes()),
        },
{
    let s = line.as_bytes();
    let e0 = token_end_exec(s, 0);
    let is_get = e0 == 3 && s[0] == 71 && s[1] == 69 && s[2] == 84;
    let is_put = e0 == 3 && s[0] == 80 && s[1] == 85 && s[2] == 84;
    proof {
        if e0 == 3 {
            if s@[0] == 71 && s@[1] == 69 && s@[2] == 84 {
                assert(s@.subrange(0, 3) =~= get_word());
            }
            if s@[0] == 80 && s@[1] == 85 && s@[2] == 84 {
                assert(s@.subrange(0, 3) =~= put_word());
            }
        }
        if s@.subrange(0, token_end(s@, 0)) == get_word() {
            assert(get_word().len() == 3);
        }
        if s@.subrange(0, token_end(s@, 0)) == put_word() {
            assert(put_word().len() == 3);
        }
    }
    if is_get {
        if e0 >= s.len() {
            return None;
        }
        let e1 = token_end_exec(s, e0 + 1);
        let tok = slice_subrange(s, e0 + 1, e1);
        let decoded = match hex_decode(tok) {
            Some(b) => b,
            None => {
                return None;
            },
        };
        if decoded.len() != crate::crypto::HASH_SIZE {
            return None;
        }
        let key = match FileID::from_bytes(decoded) {
            Ok(k) => k,
            Err(_) => {
                return None;
            },
        };
        Some(Command::Get { key })
    } else if is_put {
        if e0 >= s.len() {
            return None;
        }
        let e1 = token_end_exec(s, e0 + 1);
        let key = slice_to_vec(slice_subrange(s, e0 + 1, e1));
        if e1 >= s.len() {
            return None;
        }
        let e2 = token_end_exec(s, e1 + 1);
        let value = slice_to_vec(slice_subrange(s, e1 + 1, e2));
        Some(Command::Put { key, value })
    } else {
        None
    }
}

} // verus!
