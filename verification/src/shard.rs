//! The sharding engine: splitting a byte buffer into ordered,
//! content-addressed shards according to a size-balancing policy, and the
//! inverse reconstruction that validates order and integrity before
//! reassembling the buffer.

use crate::codec::{
    bytes_eq, dec_digits, enc_bytes, push_bytes, push_len_bytes, push_u128, push_u32, push_u64,
    read_len_bytes, read_u128, read_u32, read_u64, u128_to_dec_bytes,
};
use crate::crypto::{
    decrypt_bytes, encrypt_bytes, hash_bytes, hash_of, public_of, spec_decrypt, CryptoError,
    PublicKey, SecretKey, HASH_SIZE,
};
use crate::crypto::unix_time_secs;
use vstd::arithmetic::div_mod::lemma_fundamental_div_mod;
use vstd::bytes::{spec_u128_to_le_bytes, spec_u32_to_le_bytes, spec_u64_to_le_bytes};
use vstd::prelude::*;
use vstd::slice::slice_subrange;
use vstd::slice::slice_to_vec;

verus! {

/// Everything that can go wrong while sharding a buffer.
#[derive(Debug)]
pub enum ShardingError {
    /// The split sizes do not sum to the buffer length, contain a zero,
    /// or name more shards than the index type can count.
    InvalidSplitSizes,
    /// A degenerate partition request: an empty buffer, zero partitions,
    /// or more partitions than bytes.
    NullShardData,
    /// The system clock read before the Unix epoch while timestamping.
    ClockError,
    /// The encryption primitive failed.
    Crypto(CryptoError),
}

/// Everything that can go wrong while reconstructing a buffer.
#[derive(Debug)]
pub enum ReconstructionError {
    /// A shard is out of order, missing, or fails its integrity check.
    CannotReconstruct,
    /// The configuration says the payload is encrypted, and no private
    /// key was given.
    NoDecryptionKey,
    /// The decryption primitive rejected the reassembled ciphertext.
    DecryptionFailed,
}

/// The structure used for the identification of a shard on the network.
/// The identifier is the content digest of the shard's data followed by
/// the decimal rendering of its creation timestamp.
#[derive(Debug, PartialEq, Eq)]
pub struct ShardID {
    id: Vec<u8>,
}

impl View for ShardID {
    type V = Seq<u8>;

    closed spec fn view(&self) -> Seq<u8> {
        self.id@
    }
}

impl Clone for ShardID {
    fn clone(&self) -> (r: Self)
        ensures
            r@ == self@,
    {
        ShardID { id: slice_to_vec(self.id.as_slice()) }
    }
}

impl ShardID {
    /// The digest input that binds a shard's data to its timestamp.
    pub open spec fn digest_input(data: Seq<u8>, time: u128) -> Seq<u8> {
        data + dec_digits(time)
    }

    /// Calculate the ShardID of the data in a shard, stamped with the
    /// current time. Fails only where the system clock reads before the
    /// Unix epoch.
    pub fn new(data: &Vec<u8>) -> (r: Result<(Self, u128), ShardingError>)
        ensures
            match r {
                Ok((sid, time)) => sid@ == hash_of(Self::digest_input(data@, time)) && sid@.len()
                    == HASH_SIZE,
                Err(e) => e is ClockError,
            },
    {
        let secs = match unix_time_secs() {
            Some(t) => t,
            None => {
                return Err(ShardingError::ClockError);
            },
        };
        let time = secs as u128;
        let digits = u128_to_dec_bytes(time);
        let mut input = slice_to_vec(data.as_slice());
        push_bytes(&mut input, digits.as_slice());
        let id = hash_bytes(&input);
        Ok((ShardID { id }, time))
    }

    /// Construct a ShardID from the bytes of a ShardID. This does not
    /// guarantee that the ShardID is a valid ShardID.
    pub fn from_bytes(bytes: [u8; 32]) -> (r: Self)
        ensures
            r@ == bytes@,
    {
        ShardID { id: slice_to_vec(bytes.as_slice()) }
    }

    /// Check that this ShardID matches that of the data and timestamp
    /// given.
    pub fn matches(&self, data: &Vec<u8>, time: u128) -> (r: bool)
        ensures
            r == (self@ == hash_of(Self::digest_input(data@, time))),
    {
        let digits = u128_to_dec_bytes(time);
        let mut input = slice_to_vec(data.as_slice());
        push_bytes(&mut input, digits.as_slice());
        let recomputed = hash_bytes(&input);
        bytes_eq(&recomputed, &self.id)
    }
}

/// A structure used to configure how a vector of bytes is sharded.
#[derive(Debug)]
pub struct ShardConfig {
    /// The number of shards.
    pub shard_count: usize,
    /// The owner's public key, used to encrypt the payload when
    /// `encrypt` is set.
    pub pub_key: PublicKey,
    /// Whether the payload is compressed or not.
    pub compress: bool,
    /// Whether the payload is encrypted or not.
    pub encrypt: bool,
    /// The sizes of the shards, in order.
    pub sizes: Vec<usize>,
}

impl ShardConfig {
    /// Create the default shard config; the sizes are filled in by the
    /// sharding engine.
    pub fn new(n_shards: usize, pk: &PublicKey) -> (r: Self)
        ensures
            r.shard_count == n_shards,
            r.pub_key@ == pk@,
            !r.compress,
            !r.encrypt,
            r.sizes@ == Seq::<usize>::empty(),
    {
        Self {
            shard_count: n_shards,
            pub_key: pk.clone(),
            compress: false,
            encrypt: false,
            sizes: Vec::new(),
        }
    }
}

impl Clone for ShardConfig {
    fn clone(&self) -> (r: Self)
        ensures
            r.shard_count == self.shard_count,
            r.pub_key@ == self.pub_key@,
            r.compress == self.compress,
            r.encrypt == self.encrypt,
            r.sizes@ == self.sizes@,
    {
        ShardConfig {
            shard_count: self.shard_count,
            pub_key: self.pub_key.clone(),
            compress: self.compress,
            encrypt: self.encrypt,
            sizes: slice_to_vec(self.sizes.as_slice()),
        }
    }
}

/// The structure representing a `Shard` to be stored in a node's local
/// shard database.
#[derive(Debug, PartialEq, Eq)]
pub struct Shard {
    /// A unique ID, used for identification on the network.
    pub id: ShardID,
    /// The actual data of the shard.
    pub data: Vec<u8>,
    /// The size of the data in the shard.
    pub size: usize,
    /// The time at which the shard was created.
    pub timestamp: u128,
    /// The index of the shard in a larger vector of shards.
    pub index: u32,
}

impl Shard {
    /// The shard's byte strings are small enough to serialize: their
    /// lengths fit the length-prefix fields. Every shard held in memory
    /// satisfies this.
    pub open spec fn encodable(&self) -> bool {
        self.id@.len() <= usize::MAX && self.data@.len() <= usize::MAX
    }

    /// A shard is well-formed when its recorded size is the length of
    /// its data and its identifier is the digest of its data and
    /// timestamp.
    pub open spec fn wf(&self) -> bool {
        &&& self.size == self.data@.len()
        &&& self.id@ == hash_of(ShardID::digest_input(self.data@, self.timestamp))
    }

    /// Create a new shard holding `data` at position `index`. Fails only
    /// where the system clock reads before the Unix epoch.
    pub fn new(data: Vec<u8>, index: u32) -> (r: Result<Shard, ShardingError>)
        ensures
            match r {
                Ok(s) => s.data@ == data@ && s.index == index && s.wf() && s.id@.len() == HASH_SIZE
                    && s.encodable(),
                Err(e) => e is ClockError,
            },
    {
        let size = data.len();
        let (id, timestamp) = match ShardID::new(&data) {
            Ok(v) => v,
            Err(e) => {
                return Err(e);
            },
        };
        Ok(Shard { id, data, size, timestamp, index })
    }

    /// Run various checks to determine if a shard is valid: the recorded
    /// size must match the data, and the identifier must match the data
    /// and timestamp.
    pub fn is_valid(&self) -> (r: bool)
        ensures
            r == self.wf(),
    {
        self.size == self.data.len() && self.id.matches(&self.data, self.timestamp)
    }
}

/// The sum of a sequence of sizes.
pub open spec fn sum_sizes(s: Seq<usize>) -> int
    decreases s.len(),
{
    if s.len() == 0 {
        0
    } else {
        s[0] + sum_sizes(s.drop_first())
    }
}

pub proof fn lemma_sum_push(s: Seq<usize>, x: usize)
    ensures
        sum_sizes(s.push(x)) == sum_sizes(s) + x,
    decreases s.len(),
{
    if s.len() == 0 {
        assert(s.push(x)[0] == x);
        assert(s.push(x).drop_first() =~= Seq::<usize>::empty());
        assert(sum_sizes(s.push(x)) == x + sum_sizes(s.push(x).drop_first()));
        assert(sum_sizes(s) == 0);
    } else {
        lemma_sum_push(s.drop_first(), x);
        assert(s.push(x).drop_first() =~= s.drop_first().push(x));
        assert(s.push(x)[0] == s[0]);
        assert(sum_sizes(s.push(x)) == s[0] + sum_sizes(s.drop_first().push(x)));
        assert(sum_sizes(s) == s[0] + sum_sizes(s.drop_first()));
    }
}

pub proof fn lemma_sum_nonneg(s: Seq<usize>)
    ensures
        sum_sizes(s) >= 0,
    decreases s.len(),
{
    if s.len() > 0 {
        lemma_sum_nonneg(s.drop_first());
    }
}

/// Splitting a sequence at any point splits its sum.
pub proof fn lemma_sum_split(s: Seq<usize>, i: int)
    requires
        0 <= i <= s.len(),
    ensures
        sum_sizes(s) == sum_sizes(s.take(i)) + sum_sizes(s.skip(i)),
    decreases i,
{
    if i == 0 {
        assert(s.take(0) =~= Seq::<usize>::empty());
        assert(s.skip(0) =~= s);
    } else {
        lemma_sum_split(s.drop_first(), i - 1);
        assert(s.take(i).drop_first() =~= s.drop_first().take(i - 1));
        assert(s.skip(i) =~= s.drop_first().skip(i - 1));
        assert(sum_sizes(s.take(i)) == s[0] + sum_sizes(s.drop_first().take(i - 1)));
    }
}

pub proof fn lemma_sum_take_succ(s: Seq<usize>, i: int)
    requires
        0 <= i < s.len(),
    ensures
        sum_sizes(s.take(i + 1)) == sum_sizes(s.take(i)) + s[i],
{
    assert(s.take(i + 1) =~= s.take(i).push(s[i]));
    lemma_sum_push(s.take(i), s[i]);
}

/// Calculate a vector of shard data sizes for a given length of data and
/// number of partitions: every partition takes `n_bytes / n_partitions`
/// bytes, and the last also absorbs the remainder.
pub fn calculate_shard_sizes(n_bytes: usize, n_partitions: usize) -> (r: Result<
    Vec<usize>,
    ShardingError,
>)
    ensures
        match r {
            Ok(sizes) => {
                &&& 0 < n_partitions <= n_bytes
                &&& sizes@.len() == n_partitions
                &&& forall|i: int|
                    0 <= i < n_partitions - 1 ==> #[trigger] sizes@[i] == n_bytes / n_partitions
                &&& sizes@[n_partitions - 1] == n_bytes / n_partitions + n_bytes % n_partitions
                &&& sum_sizes(sizes@) == n_bytes
                &&& forall|i: int| 0 <= i < n_partitions ==> 1 <= #[trigger] sizes@[i] <= sizes@[
                    n_partitions - 1]
            },
            Err(e) => e is NullShardData && (n_bytes == 0 || n_partitions == 0 || n_partitions
                > n_bytes),
        },
{
    if n_bytes == 0 || n_partitions == 0 || n_partitions > n_bytes {
        return Err(ShardingError::NullShardData);
    }
    let base: usize = n_bytes / n_partitions;
    let extra: usize = n_bytes % n_partitions;
    proof {
        lemma_fundamental_div_mod(n_bytes as int, n_partitions as int);
        assert(n_partitions * base >= base) by (nonlinear_arith)
            requires
                n_partitions >= 1,
                base >= 0,
        ;
    }
    let mut sizes: Vec<usize> = Vec::new();
    let mut i: usize = 0;
    while i < n_partitions - 1
        invariant
            1 <= n_partitions <= n_bytes,
            base == n_bytes / n_partitions,
            i <= n_partitions - 1,
            sizes@.len() == i,
            forall|j: int| 0 <= j < i ==> #[trigger] sizes@[j] == base,
            sum_sizes(sizes@) == i * base,
        decreases n_partitions - 1 - i,
    {
        proof {
            lemma_sum_push(sizes@, base);
            assert((i + 1) * base == i * base + base) by (nonlinear_arith);
        }
        sizes.push(base);
        i = i + 1;
    }
    proof {
        lemma_fundamental_div_mod(n_bytes as int, n_partitions as int);
        assert(n_partitions * base >= base) by (nonlinear_arith)
            requires
                n_partitions >= 1,
                base >= 0,
        ;
        lemma_sum_push(sizes@, (base + extra) as usize);
        assert((n_partitions - 1) * base + (base + extra) == n_partitions * base + extra)
            by (nonlinear_arith);
    }
    let last: usize = base + extra;
    sizes.push(last);
    // The partition count divides the byte count with base >= 1, so every
    // entry is at least one byte and the last is the largest.
    assert(n_bytes / n_partitions >= 1) by {
        lemma_fundamental_div_mod(n_bytes as int, n_partitions as int);
        assert(n_bytes % n_partitions < n_partitions);
        assert(n_partitions * (n_bytes as int / n_partitions as int) > n_bytes - n_partitions);
        assert(n_bytes as int / n_partitions as int >= 1) by (nonlinear_arith)
            requires
                n_partitions * (n_bytes as int / n_partitions as int) > n_bytes - n_partitions,
                n_partitions <= n_bytes,
                n_partitions >= 1,
                n_bytes as int / n_partitions as int >= 0,
        ;
    }
    Ok(sizes)
}

/// Every shard in the sequence is well-formed.
pub open spec fn shards_wf(shards: Seq<Shard>) -> bool {
    forall|i: int| 0 <= i < shards.len() ==> (#[trigger] shards[i]).wf()
}

/// Every shard sits at the position its index names.
pub open spec fn shards_ordered(shards: Seq<Shard>) -> bool {
    forall|i: int| 0 <= i < shards.len() ==> (#[trigger] shards[i]).index == i
}

/// The data of the shards, concatenated in sequence order.
pub open spec fn concat_data(shards: Seq<Shard>) -> Seq<u8>
    decreases shards.len(),
{
    if shards.len() == 0 {
        Seq::empty()
    } else {
        concat_data(shards.drop_last()) + shards.last().data@
    }
}

pub proof fn lemma_concat_take_succ(shards: Seq<Shard>, i: int)
    requires
        0 <= i < shards.len(),
    ensures
        concat_data(shards.take(i + 1)) == concat_data(shards.take(i)) + shards[i].data@,
{
    assert(shards.take(i + 1).drop_last() =~= shards.take(i));
    assert(shards.take(i + 1).last() == shards[i]);
}

/// What reconstruction recovers from a shard sequence before any
/// decryption: the concatenated data where every shard is well-formed
/// and in order, and nothing otherwise.
pub open spec fn spec_reassemble(shards: Seq<Shard>) -> Option<Seq<u8>> {
    if shards_wf(shards) && shards_ordered(shards) {
        Some(concat_data(shards))
    } else {
        None
    }
}

/// Split a vector of bytes as described by the `sizes` parameter and
/// return properly distributed `Shard`s, one per size, indexed in order.
/// The length bound on `sizes` is forced by the 32-bit shard index.
pub fn split_bytes(bytes: &Vec<u8>, sizes: &Vec<usize>) -> (r: Result<Vec<Shard>, ShardingError>)
    requires
        sizes@.len() <= u32::MAX,
    ensures
        match r {
            Ok(shards) => {
                &&& sum_sizes(sizes@) == bytes@.len()
                &&& forall|i: int| 0 <= i < sizes@.len() ==> #[trigger] sizes@[i] != 0
                &&& shards@.len() == sizes@.len()
                &&& shards_wf(shards@)
                &&& shards_ordered(shards@)
                &&& concat_data(shards@) == bytes@
                &&& forall|i: int|
                    0 <= i < shards@.len() ==> (#[trigger] shards@[i]).data@.len() == sizes@[i]
            },
            Err(e) => {
                &&& e is InvalidSplitSizes || e is ClockError
                &&& (e is InvalidSplitSizes) <==> (sum_sizes(sizes@) != bytes@.len() || exists|i: int|
                    0 <= i < sizes@.len() && sizes@[i] == 0)
            },
        },
{
    // Validate the `sizes` vector: it must sum to the buffer length and
    // hold no zero.
    let mut total: usize = 0;
    let mut i: usize = 0;
    let mut has_zero = false;
    while i < sizes.len()
        invariant
            i <= sizes@.len(),
            total == sum_sizes(sizes@.take(i as int)),
            total <= bytes@.len(),
            has_zero == exists|j: int| 0 <= j < i && sizes@[j] == 0,
        decreases sizes@.len() - i,
    {
        let s = sizes[i];
        if s == 0 {
            has_zero = true;
        }
        proof {
            lemma_sum_take_succ(sizes@, i as int);
        }
        if s > bytes.len() - total {
            proof {
                lemma_sum_split(sizes@, i + 1);
                lemma_sum_nonneg(sizes@.skip(i + 1));
            }
            return Err(ShardingError::InvalidSplitSizes);
        }
        total = total + s;
        i = i + 1;
    }
    proof {
        assert(sizes@.take(sizes@.len() as int) =~= sizes@);
    }
    if total != bytes.len() || has_zero {
        return Err(ShardingError::InvalidSplitSizes);
    }
    // Iterate through each size and create a shard with that data.
    let mut shards: Vec<Shard> = Vec::new();
    let mut byte_pointer: usize = 0;
    let mut i: usize = 0;
    let buf_len: usize = bytes.len();
    while i < sizes.len()
        invariant
            i <= sizes@.len() <= u32::MAX,
            sum_sizes(sizes@) == bytes@.len(),
            buf_len == bytes@.len(),
            forall|j: int| 0 <= j < sizes@.len() ==> #[trigger] sizes@[j] != 0,
            byte_pointer == sum_sizes(sizes@.take(i as int)),
            byte_pointer <= bytes@.len(),
            shards@.len() == i,
            forall|j: int| 0 <= j < i ==> (#[trigger] shards@[j]).wf(),
            forall|j: int| 0 <= j < i ==> (#[trigger] shards@[j]).index == j,
            forall|j: int| 0 <= j < i ==> (#[trigger] shards@[j]).data@.len() == sizes@[j],
            concat_data(shards@) == bytes@.take(byte_pointer as int),
        decreases sizes@.len() - i,
    {
        let size = sizes[i];
        proof {
            lemma_sum_take_succ(sizes@, i as int);
            lemma_sum_split(sizes@, i + 1);
            lemma_sum_nonneg(sizes@.skip(i + 1));
            assert(byte_pointer + size == sum_sizes(sizes@.take(i + 1)));
            assert(byte_pointer + size <= bytes@.len());
        }
        let sliced = slice_subrange(bytes.as_slice(), byte_pointer, byte_pointer + size);
        let shard = match Shard::new(slice_to_vec(sliced), i as u32) {
            Ok(s) => s,
            Err(e) => {
                return Err(ShardingError::ClockError);
            },
        };
        let ghost pre = shards@;
        shards.push(shard);
        proof {
            assert(shards@.take(i as int) =~= pre);
            assert(shards@.take(i + 1) =~= shards@);
            lemma_concat_take_succ(shards@, i as int);
            assert(concat_data(shards@) == concat_data(pre) + shards@[i as int].data@);
            assert(bytes@.take(byte_pointer as int) + bytes@.subrange(
                byte_pointer as int,
                byte_pointer + size,
            ) =~= bytes@.take(byte_pointer + size));
        }
        byte_pointer = byte_pointer + size;
        i = i + 1;
    }
    proof {
        assert(sizes@.take(sizes@.len() as int) =~= sizes@);
        assert(bytes@.take(bytes@.len() as int) =~= bytes@);
    }
    Ok(shards)
}

impl Shard {
    /// Given some bytes, split them according to the configuration and
    /// return a vector of `Shard`s together with the updated
    /// configuration carrying the sizes actually used. When the
    /// configuration asks for encryption the whole buffer is encrypted
    /// first, as one blob, and the shards partition the ciphertext.
    pub fn shard(bytes: &Vec<u8>, config: ShardConfig) -> (r: Result<
        (Vec<Shard>, ShardConfig),
        ShardingError,
    >)
        requires
            config.pub_key.wf(),
        ensures
            match r {
                Ok((shards, cfg)) => {
                    &&& shards_wf(shards@)
                    &&& shards_ordered(shards@)
                    &&& cfg.shard_count == shards@.len()
                    &&& cfg.sizes@.len() == shards@.len()
                    &&& shards@.len() == config.shard_count
                    &&& 0 < config.shard_count <= u32::MAX
                    &&& !config.encrypt ==> config.shard_count <= bytes@.len()
                    &&& cfg.pub_key@ == config.pub_key@
                    &&& cfg.compress == config.compress
                    &&& cfg.encrypt == config.encrypt
                    &&& forall|i: int|
                        0 <= i < shards@.len() ==> (#[trigger] shards@[i]).data@.len()
                            == cfg.sizes@[i]
                    &&& forall|i: int|
                        0 <= i < cfg.sizes@.len() - 1 ==> #[trigger] cfg.sizes@[i]
                            == concat_data(shards@).len() as int / cfg.shard_count as int
                    &&& cfg.sizes@.len() >= 1 && cfg.sizes@[cfg.sizes@.len() - 1] == concat_data(
                        shards@,
                    ).len() as int / cfg.shard_count as int + concat_data(shards@).len() as int
                        % cfg.shard_count as int
                    &&& if config.encrypt {
                        forall|sk: Seq<u8>|
                            public_of(sk) == config.pub_key@ ==> #[trigger] spec_decrypt(
                                sk,
                                concat_data(shards@),
                            ) == Some(bytes@)
                    } else {
                        concat_data(shards@) == bytes@
                    }
                },
                Err(e) => {
                    &&& !config.encrypt ==> ((e is NullShardData) <==> (bytes@.len() == 0
                        || config.shard_count == 0 || config.shard_count > bytes@.len()))
                    &&& !config.encrypt ==> !(e is Crypto)
                    &&& (e is InvalidSplitSizes) ==> config.shard_count > u32::MAX
                },
            },
    {
        // Encrypt the bytes first where the configuration asks for it.
        let payload: Vec<u8> = if config.encrypt {
            match encrypt_bytes(&config.pub_key, bytes) {
                Ok(ct) => ct,
                Err(e) => {
                    return Err(ShardingError::Crypto(e));
                },
            }
        } else {
            slice_to_vec(bytes.as_slice())
        };
        // Shard the payload.
        let sizes = match calculate_shard_sizes(payload.len(), config.shard_count) {
            Ok(s) => s,
            Err(e) => {
                return Err(e);
            },
        };
        if sizes.len() > u32::MAX as usize {
            return Err(ShardingError::InvalidSplitSizes);
        }
        let shards = match split_bytes(&payload, &sizes) {
            Ok(s) => s,
            Err(_) => {
                // The sizes sum to the payload length and hold no zero,
                // so only the clock can have failed.
                return Err(ShardingError::ClockError);
            },
        };
        // Update the config with the sizes actually used.
        let mut new_config = config.clone();
        new_config.shard_count = sizes.len();
        new_config.sizes = sizes;
        Ok((shards, new_config))
    }

    /// The inverse operation of `shard`. Extracts and reconstructs the
    /// bytes stored inside the given shards, decrypting the reassembled
    /// buffer where the configuration says it was encrypted.
    pub fn reconstruct(
        shards: &Vec<Shard>,
        config: &ShardConfig,
        private_key: Option<&SecretKey>,
    ) -> (r: Result<Vec<u8>, ReconstructionError>)
        requires
            private_key matches Some(k) ==> k.wf(),
        ensures
            match spec_reassemble(shards@) {
                None => r == Err::<Vec<u8>, ReconstructionError>(
                    ReconstructionError::CannotReconstruct,
                ),
                Some(d) => if !config.encrypt {
                    r matches Ok(v) && v@ == d
                } else {
                    match private_key {
                        None => r == Err::<Vec<u8>, ReconstructionError>(
                            ReconstructionError::NoDecryptionKey,
                        ),
                        Some(k) => match spec_decrypt(k@, d) {
                            Some(p) => r matches Ok(v) && v@ == p,
                            None => r == Err::<Vec<u8>, ReconstructionError>(
                                ReconstructionError::DecryptionFailed,
                            ),
                        },
                    }
                },
            },
    {
        let mut data: Vec<u8> = Vec::new();
        let mut counter: usize = 0;
        while counter < shards.len()
            invariant
                counter <= shards@.len(),
                forall|j: int| 0 <= j < counter ==> (#[trigger] shards@[j]).wf(),
                forall|j: int| 0 <= j < counter ==> (#[trigger] shards@[j]).index == j,
                data@ == concat_data(shards@.take(counter as int)),
            decreases shards@.len() - counter,
        {
            let shard = &shards[counter];
            // Validate the shard and its position.
            if !(counter <= u32::MAX as usize && shard.index == counter as u32
                && shard.is_valid()) {
                return Err(ReconstructionError::CannotReconstruct);
            }
            // Extract the shard data.
            push_bytes(&mut data, shard.data.as_slice());
            proof {
                lemma_concat_take_succ(shards@, counter as int);
            }
            counter = counter + 1;
        }
        proof {
            assert(shards@.take(shards@.len() as int) =~= shards@);
        }
        // Decrypt if encrypted.
        if config.encrypt {
            match private_key {
                Some(key) => match decrypt_bytes(key, &data) {
                    Ok(p) => Ok(p),
                    Err(_) => Err(ReconstructionError::DecryptionFailed),
                },
                None => Err(ReconstructionError::NoDecryptionKey),
            }
        } else {
            Ok(data)
        }
    }
}

/// The canonical serialized form determines the shard: two shards with
/// the same encoding agree on every field.
pub proof fn lemma_shard_encoding_injective(s1: Shard, s2: Shard)
    requires
        s1.encodable(),
        s2.encodable(),
        s1.spec_encoding() == s2.spec_encoding(),
    ensures
        s1.id@ == s2.id@,
        s1.data@ == s2.data@,
        s1.size == s2.size,
        s1.timestamp == s2.timestamp,
        s1.index == s2.index,
{
    let bytes = s1.spec_encoding();
    lemma_shard_encoding_shape(bytes, s1);
    lemma_shard_encoding_shape(bytes, s2);
    vstd::bytes::lemma_auto_spec_u64_to_from_le_bytes();
    vstd::bytes::lemma_auto_spec_u128_to_from_le_bytes();
    vstd::bytes::lemma_auto_spec_u32_to_from_le_bytes();
    assert(s1.id@.len() as u64 == s2.id@.len() as u64);
    let n1 = s1.id@.len() as int;
    crate::codec::lemma_enc_bytes_prefix(s1.id@, s2.id@, bytes.skip(8 + n1), bytes.skip(8 + n1));
    assert(s1.data@.len() as u64 == s2.data@.len() as u64);
    let n2 = s1.data@.len() as int;
    assert(bytes.subrange(8 + n1, 16 + n1 + n2) == enc_bytes(s1.data@));
    assert(bytes.subrange(8 + n1, 16 + n1 + n2) == enc_bytes(s2.data@));
    crate::codec::lemma_enc_bytes_prefix(
        s1.data@,
        s2.data@,
        bytes.skip(16 + n1 + n2),
        bytes.skip(16 + n1 + n2),
    );
    assert(s1.size as u64 == s2.size as u64);
}

/// Round trip: any shard sequence that partitions a buffer in order, as
/// the sharding engine produces it without encryption, reassembles to
/// exactly that buffer.
pub proof fn lemma_round_trip(shards: Seq<Shard>, bytes: Seq<u8>)
    requires
        shards_wf(shards),
        shards_ordered(shards),
        concat_data(shards) == bytes,
    ensures
        spec_reassemble(shards) == Some(bytes),
{
}

/// Round trip with encryption: any shard sequence that partitions a
/// ciphertext of `bytes` under the owner's public key, as the sharding
/// engine produces it with encryption on, reassembles and decrypts to
/// exactly `bytes` under the matching secret key.
pub proof fn lemma_encrypted_round_trip(shards: Seq<Shard>, bytes: Seq<u8>, sk: Seq<u8>, pk: Seq<u8>)
    requires
        shards_wf(shards),
        shards_ordered(shards),
        pk == public_of(sk),
        forall|k: Seq<u8>|
            public_of(k) == pk ==> #[trigger] spec_decrypt(k, concat_data(shards)) == Some(bytes),
    ensures
        spec_reassemble(shards) matches Some(d) && spec_decrypt(sk, d) == Some(bytes),
{
    assert(spec_decrypt(sk, concat_data(shards)) == Some(bytes));
}

/// Reordering detection: a shard sequence where any shard sits away from
/// the position its index names reassembles to nothing, however valid
/// each individual shard is.
pub proof fn lemma_reordering_detected(shards: Seq<Shard>, i: int)
    requires
        0 <= i < shards.len(),
        shards[i].index != i,
    ensures
        spec_reassemble(shards) is None,
{
}

/// Tamper detection: a shard whose recorded identifier does not match
/// the digest of its data and timestamp poisons reassembly.
pub proof fn lemma_tamper_detected(shards: Seq<Shard>, i: int)
    requires
        0 <= i < shards.len(),
        !shards[i].wf(),
    ensures
        spec_reassemble(shards) is None,
{
}

/// Where each field of a shard's canonical serialized form sits inside
/// the byte sequence.
proof fn lemma_shard_encoding_shape(bytes: Seq<u8>, s: Shard)
    requires
        s.spec_encoding() == bytes,
        s.encodable(),
    ensures
        bytes.len() == 8 + s.id@.len() + 8 + s.data@.len() + 28,
        bytes.subrange(0, (8 + s.id@.len()) as int) == enc_bytes(s.id@),
        bytes.subrange(0, 8) == spec_u64_to_le_bytes(s.id@.len() as u64),
        bytes.subrange((8 + s.id@.len()) as int, (16 + s.id@.len() + s.data@.len()) as int)
            == enc_bytes(s.data@),
        bytes.subrange((8 + s.id@.len()) as int, (16 + s.id@.len()) as int)
            == spec_u64_to_le_bytes(s.data@.len() as u64),
        bytes.subrange(
            (16 + s.id@.len() + s.data@.len()) as int,
            (24 + s.id@.len() + s.data@.len()) as int,
        ) == spec_u64_to_le_bytes(s.size as u64),
        bytes.subrange(
            (24 + s.id@.len() + s.data@.len()) as int,
            (40 + s.id@.len() + s.data@.len()) as int,
        ) == spec_u128_to_le_bytes(s.timestamp),
        bytes.subrange(
            (40 + s.id@.len() + s.data@.len()) as int,
            (44 + s.id@.len() + s.data@.len()) as int,
        ) == spec_u32_to_le_bytes(s.index),
{
    vstd::bytes::lemma_auto_spec_u64_to_from_le_bytes();
    vstd::bytes::lemma_auto_spec_u128_to_from_le_bytes();
    vstd::bytes::lemma_auto_spec_u32_to_from_le_bytes();
    let n1 = s.id@.len() as int;
    let n2 = s.data@.len() as int;
    assert(bytes.subrange(0, 8 + n1) =~= enc_bytes(s.id@));
    assert(bytes.subrange(0, 8) =~= spec_u64_to_le_bytes(s.id@.len() as u64));
    assert(bytes.subrange(8 + n1, 16 + n1 + n2) =~= enc_bytes(s.data@));
    assert(bytes.subrange(8 + n1, 16 + n1) =~= spec_u64_to_le_bytes(s.data@.len() as u64));
    assert(bytes.subrange(16 + n1 + n2, 24 + n1 + n2) =~= spec_u64_to_le_bytes(s.size as u64));
    assert(bytes.subrange(24 + n1 + n2, 40 + n1 + n2) =~= spec_u128_to_le_bytes(s.timestamp));
    assert(bytes.subrange(40 + n1 + n2, 44 + n1 + n2) =~= spec_u32_to_le_bytes(s.index));
}


/// A length-prefixed field parsed at the front of a shard's canonical
/// form is exactly the shard's identifier.
proof fn lemma_shard_id_position(bytes: Seq<u8>, s: Shard, b1: Seq<u8>, p1: int)
    requires
        s.spec_encoding() == bytes,
        s.encodable(),
        0 <= p1 <= bytes.len(),
        p1 <= usize::MAX,
        bytes.subrange(0, p1) == enc_bytes(b1),
    ensures
        b1 == s.id@,
        p1 == 8 + s.id@.len(),
{
    lemma_shard_encoding_shape(bytes, s);
    vstd::bytes::lemma_auto_spec_u64_to_from_le_bytes();
    assert(spec_u64_to_le_bytes(b1.len() as u64).len() == 8);
    assert(bytes.subrange(0, p1).len() == p1);
    assert(p1 == 8 + b1.len());
    let n1 = s.id@.len() as int;
    assert(bytes =~= bytes.subrange(0, p1) + bytes.skip(p1));
    assert(bytes =~= bytes.subrange(0, 8 + n1) + bytes.skip(8 + n1));
    crate::codec::lemma_enc_bytes_prefix(b1, s.id@, bytes.skip(p1), bytes.skip(8 + n1));
}

/// The second length-prefixed field of a shard's canonical form is
/// exactly the shard's data, and the fixed-width fields follow it.
proof fn lemma_shard_data_position(
    bytes: Seq<u8>,
    s: Shard,
    b1: Seq<u8>,
    b2: Seq<u8>,
    p1: int,
    p2: int,
)
    requires
        s.spec_encoding() == bytes,
        s.encodable(),
        0 <= p1 <= bytes.len(),
        bytes.subrange(0, p1) == enc_bytes(b1),
        p1 <= p2 <= bytes.len(),
        p2 <= usize::MAX,
        bytes.subrange(p1, p2) == enc_bytes(b2),
    ensures
        b1 == s.id@,
        b2 == s.data@,
        p1 == 8 + s.id@.len(),
        p2 == 16 + s.id@.len() + s.data@.len(),
        bytes.len() == p2 + 28,
        bytes.subrange(p2, p2 + 8) == spec_u64_to_le_bytes(s.size as u64),
        bytes.subrange(p2 + 8, p2 + 24) == spec_u128_to_le_bytes(s.timestamp),
        bytes.subrange(p2 + 24, p2 + 28) == spec_u32_to_le_bytes(s.index),
{
    lemma_shard_id_position(bytes, s, b1, p1);
    lemma_shard_encoding_shape(bytes, s);
    vstd::bytes::lemma_auto_spec_u64_to_from_le_bytes();
    assert(spec_u64_to_le_bytes(b2.len() as u64).len() == 8);
    assert(bytes.subrange(p1, p2).len() == p2 - p1);
    assert(p2 == p1 + 8 + b2.len());
    let n1 = s.id@.len() as int;
    let n2 = s.data@.len() as int;
    assert(bytes.skip(p1) =~= bytes.subrange(p1, p2) + bytes.skip(p2));
    assert(bytes.skip(p1) =~= bytes.subrange(8 + n1, 16 + n1 + n2) + bytes.skip(16 + n1 + n2));
    crate::codec::lemma_enc_bytes_prefix(
        b2,
        s.data@,
        bytes.skip(p2),
        bytes.skip(16 + n1 + n2),
    );
}

impl Shard {
    /// The canonical serialized form of the shard: every field in a
    /// fixed order, byte strings length-prefixed, integers
    /// little-endian.
    pub open spec fn spec_encoding(&self) -> Seq<u8> {
        enc_bytes(self.id@) + enc_bytes(self.data@) + spec_u64_to_le_bytes(self.size as u64)
            + spec_u128_to_le_bytes(self.timestamp) + spec_u32_to_le_bytes(self.index)
    }

    /// Serialize the shard into its canonical byte form.
    pub fn to_bytes(&self) -> (r: Vec<u8>)
        ensures
            r@ == self.spec_encoding(),
    {
        let mut out: Vec<u8> = Vec::new();
        push_len_bytes(&mut out, self.id.id.as_slice());
        push_len_bytes(&mut out, self.data.as_slice());
        push_u64(&mut out, self.size as u64);
        push_u128(&mut out, self.timestamp);
        push_u32(&mut out, self.index);
        proof {
            assert(out@ =~= self.spec_encoding());
        }
        out
    }

    /// Parse a shard back from its canonical byte form. Succeeds on the
    /// serialized form of every shard, and whatever it accepts is the
    /// canonical form of the shard it returns.
    pub fn from_bytes(bytes: &Vec<u8>) -> (r: Option<Shard>)
        ensures
            r matches Some(s) ==> s.spec_encoding() == bytes@ && s.encodable(),
            r is None ==> forall|s: Shard| s.encodable() ==> s.spec_encoding() != bytes@,
    {
        let buf = bytes.as_slice();
        let (id_bytes, p1) = match read_len_bytes(buf, 0) {
            Some(v) => v,
            None => {
                proof {
                    assert forall|s: Shard| s.encodable() implies s.spec_encoding() != bytes@ by {
                        if s.spec_encoding() == bytes@ {
                            lemma_shard_encoding_shape(bytes@, s);
                            vstd::bytes::lemma_auto_spec_u64_to_from_le_bytes();
                        }
                    }
                }
                return None;
            },
        };
        let (data, p2) = match read_len_bytes(buf, p1) {
            Some(v) => v,
            None => {
                proof {
                    assert forall|s: Shard| s.encodable() implies s.spec_encoding() != bytes@ by {
                        if s.spec_encoding() == bytes@ {
                            lemma_shard_id_position(bytes@, s, id_bytes@, p1 as int);
                            lemma_shard_encoding_shape(bytes@, s);
                            vstd::bytes::lemma_auto_spec_u64_to_from_le_bytes();
                        }
                    }
                }
                return None;
            },
        };
        let (size64, p3) = match read_u64(buf, p2) {
            Some(v) => v,
            None => {
                proof {
                    assert forall|s: Shard| s.encodable() implies s.spec_encoding() != bytes@ by {
                        if s.spec_encoding() == bytes@ {
                            lemma_shard_data_position(bytes@, s, id_bytes@, data@, p1 as int, p2 as int);
                        }
                    }
                }
                return None;
            },
        };
        if size64 > usize::MAX as u64 {
            proof {
                assert forall|s: Shard| s.encodable() implies s.spec_encoding() != bytes@ by {
                    if s.spec_encoding() == bytes@ {
                        lemma_shard_data_position(bytes@, s, id_bytes@, data@, p1 as int, p2 as int);
                        vstd::bytes::lemma_auto_spec_u64_to_from_le_bytes();
                        assert(size64 == s.size as u64);
                    }
                }
            }
            return None;
        }
        let (timestamp, p4) = match read_u128(buf, p3) {
            Some(v) => v,
            None => {
                proof {
                    assert forall|s: Shard| s.encodable() implies s.spec_encoding() != bytes@ by {
                        if s.spec_encoding() == bytes@ {
                            lemma_shard_data_position(bytes@, s, id_bytes@, data@, p1 as int, p2 as int);
                        }
                    }
                }
                return None;
            },
        };
        let (index, p5) = match read_u32(buf, p4) {
            Some(v) => v,
            None => {
                proof {
                    assert forall|s: Shard| s.encodable() implies s.spec_encoding() != bytes@ by {
                        if s.spec_encoding() == bytes@ {
                            lemma_shard_data_position(bytes@, s, id_bytes@, data@, p1 as int, p2 as int);
                        }
                    }
                }
                return None;
            },
        };
        if p5 != buf.len() {
            proof {
                assert forall|s: Shard| s.encodable() implies s.spec_encoding() != bytes@ by {
                    if s.spec_encoding() == bytes@ {
                        lemma_shard_data_position(bytes@, s, id_bytes@, data@, p1 as int, p2 as int);
                    }
                }
            }
            return None;
        }
        let shard = Shard {
            id: ShardID { id: id_bytes },
            data,
            size: size64 as usize,
            timestamp,
            index,
        };
        proof {
            vstd::bytes::lemma_auto_spec_u64_to_from_le_bytes();
            assert(bytes@ =~= bytes@.subrange(0, p1 as int) + bytes@.subrange(p1 as int, p2 as int)
                + bytes@.subrange(p2 as int, p3 as int) + bytes@.subrange(p3 as int, p4 as int)
                + bytes@.subrange(p4 as int, p5 as int));
            assert(shard.spec_encoding() == bytes@);
            // The parsed byte strings fit in memory, so the shard can be
            // serialized again.
            assert(shard.id@.len() == p1 - 8);
            assert(shard.data@.len() == p2 - p1 - 8);
        }
        Some(shard)
    }

    /// Serialize and encrypt the shard under the given public key.
    pub fn encrypt(&self, key: &PublicKey) -> (r: Result<Vec<u8>, CryptoError>)
        requires
            key.wf(),
        ensures
            match r {
                Ok(ct) => forall|sk: Seq<u8>|
                    public_of(sk) == key@ ==> #[trigger] spec_decrypt(sk, ct@) == Some(
                        self.spec_encoding(),
                    ),
                Err(_) => true,
            },
    {
        let bytes = self.to_bytes();
        encrypt_bytes(key, &bytes)
    }

    /// Decrypt and parse a shard from an encrypted serialized form.
    /// Succeeds exactly where the bytes decrypt under the key and the
    /// plaintext is the canonical form of a shard.
    pub fn decrypt(bytes: Vec<u8>, key: SecretKey) -> (r: Result<Shard, CryptoError>)
        requires
            key.wf(),
        ensures
            match spec_decrypt(key@, bytes@) {
                None => r is Err,
                Some(d) => match r {
                    Ok(s) => s.spec_encoding() == d && s.encodable(),
                    Err(_) => forall|s2: Shard| s2.encodable() ==> s2.spec_encoding() != d,
                },
            },
    {
        let decrypted = match decrypt_bytes(&key, &bytes) {
            Ok(d) => d,
            Err(e) => {
                return Err(e);
            },
        };
        match Shard::from_bytes(&decrypted) {
            Some(s) => Ok(s),
            None => Err(CryptoError::SerializationError),
        }
    }
}

} // verus!

