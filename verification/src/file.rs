//! File identity and validation: a content-and-time derived identifier,
//! signed file metadata bound to a sharding configuration, and the checks
//! that validate a file against a candidate shard set.

use crate::codec::{
    dec_digits, enc_bool, enc_bytes, push_bool, push_bytes, push_len_bytes, push_u128, push_u32,
    push_u64, read_bool, read_len_bytes, read_u128, read_u32, read_u64,
};
use crate::crypto::{
    crc32_bytes, crc32_of, decrypt_bytes, derive_sign_public_key, encrypt_bytes, hash_bytes,
    hash_of, sig_valid, sign_bytes, sign_of, sign_public_of, spec_decrypt, unix_time_secs,
    verify_bytes, CryptoError, PublicKey, SecretKey, HASH_SIZE,
};
use crate::shard::{
    concat_data, shards_ordered, shards_wf, spec_reassemble, ReconstructionError, Shard,
    ShardConfig, ShardingError,
};
use vstd::bytes::{
    spec_u128_to_le_bytes, spec_u32_to_le_bytes, spec_u64_to_le_bytes,
};
use vstd::prelude::*;
use vstd::slice::slice_to_vec;
use vstd::string::StringSliceAdditionalSpecFns;
use vstd::utf8::encode_utf8;

verus! {

/// Everything that can go wrong while building or validating a file.
#[derive(Debug)]
pub enum FileError {
    /// The filename or path is not usable.
    InvalidFilename,
    /// The system clock read before the Unix epoch while timestamping.
    ClockError,
    /// A wrapped sharding failure.
    Sharding(ShardingError),
    /// A wrapped reconstruction failure.
    Reconstruction(ReconstructionError),
    /// A wrapped crypto-primitive failure.
    Crypto(CryptoError),
}

/// The structure used for the identification of a file on the network:
/// the content digest of the filename, the raw file bytes and the
/// decimal rendering of the creation timestamp.
#[derive(Debug, PartialEq, Eq)]
pub struct FileID {
    id: Vec<u8>,
}

impl View for FileID {
    type V = Seq<u8>;

    closed spec fn view(&self) -> Seq<u8> {
        self.id@
    }
}

impl Clone for FileID {
    fn clone(&self) -> (r: Self)
        ensures
            r@ == self@,
    {
        FileID { id: slice_to_vec(self.id.as_slice()) }
    }
}

impl FileID {
    /// The digest input that binds a file's name and content to its
    /// creation time.
    pub open spec fn digest_input(filename: Seq<char>, bytes: Seq<u8>, time: u128) -> Seq<u8> {
        encode_utf8(filename) + bytes + dec_digits(time)
    }

    /// Compute the identifier of a file's name and content, stamped with
    /// the current time. Fails only where the system clock reads before
    /// the Unix epoch.
    pub fn new(filename: &str, bytes: &Vec<u8>) -> (r: Result<(Self, u128), FileError>)
        ensures
            match r {
                Ok((fid, time)) => fid@ == hash_of(Self::digest_input(filename@, bytes@, time))
                    && fid@.len() == HASH_SIZE,
                Err(e) => e is ClockError,
            },
    {
        let secs = match unix_time_secs() {
            Some(t) => t,
            None => {
                return Err(FileError::ClockError);
            },
        };
        let time = secs as u128;
        let digits = crate::codec::u128_to_dec_bytes(time);
        let mut input = slice_to_vec(filename.as_bytes());
        push_bytes(&mut input, bytes.as_slice());
        push_bytes(&mut input, digits.as_slice());
        let id = hash_bytes(&input);
        Ok((FileID { id }, time))
    }

    /// Check that this FileID matches that of the information given.
    pub fn matches(&self, filename: &str, bytes: &Vec<u8>, time: u128) -> (r: bool)
        ensures
            r == (self@ == hash_of(Self::digest_input(filename@, bytes@, time))),
    {
        let digits = crate::codec::u128_to_dec_bytes(time);
        let mut input = slice_to_vec(filename.as_bytes());
        push_bytes(&mut input, bytes.as_slice());
        push_bytes(&mut input, digits.as_slice());
        let recomputed = hash_bytes(&input);
        crate::codec::bytes_eq(&recomputed, &self.id)
    }

    /// The raw bytes of the identifier, used as the DHT record key.
    pub fn to_bytes(&self) -> (r: Vec<u8>)
        ensures
            r@ == self@,
    {
        slice_to_vec(self.id.as_slice())
    }

    /// Reconstruct an identifier from its raw bytes. This does not
    /// guarantee that the identifier belongs to any file.
    pub fn from_bytes(bytes: Vec<u8>) -> (r: Result<Self, FileError>)
        ensures
            match r {
                Ok(fid) => fid@ == bytes@ && fid@.len() == HASH_SIZE,
                Err(_) => bytes@.len() != HASH_SIZE,
            },
    {
        if bytes.len() == HASH_SIZE {
            Ok(FileID { id: bytes })
        } else {
            Err(FileError::InvalidFilename)
        }
    }

    /// Parse an identifier from its hexadecimal rendering.
    pub fn from_hex(s: &str) -> (r: Option<Self>)
        ensures
            match r {
                Some(fid) => crate::codec::spec_hex_decode(s.spec_bytes()) == Some(fid@)
                    && fid@.len() == HASH_SIZE,
                None => crate::codec::spec_hex_decode(s.spec_bytes()) matches Some(b) ==> b.len()
                    != HASH_SIZE,
            },
    {
        let decoded = match crate::codec::hex_decode(s.as_bytes()) {
            Some(b) => b,
            None => {
                return None;
            },
        };
        if decoded.len() == HASH_SIZE {
            Some(FileID { id: decoded })
        } else {
            None
        }
    }
}

/// The length-prefix encoding of a list of sizes, in order.
pub open spec fn enc_usize_list(s: Seq<usize>) -> Seq<u8>
    decreases s.len(),
{
    if s.len() == 0 {
        Seq::empty()
    } else {
        enc_usize_list(s.drop_last()) + spec_u64_to_le_bytes(s.last() as u64)
    }
}

pub proof fn lemma_enc_usize_take_succ(s: Seq<usize>, i: int)
    requires
        0 <= i < s.len(),
    ensures
        enc_usize_list(s.take(i + 1)) == enc_usize_list(s.take(i)) + spec_u64_to_le_bytes(
            s[i] as u64,
        ),
{
    assert(s.take(i + 1).drop_last() =~= s.take(i));
    assert(s.take(i + 1).last() == s[i]);
}

/// The length-prefix encoding of a list of peer identities, in order.
pub open spec fn enc_peer_list(s: Seq<Vec<u8>>) -> Seq<u8>
    decreases s.len(),
{
    if s.len() == 0 {
        Seq::empty()
    } else {
        enc_peer_list(s.drop_last()) + enc_bytes(s.last()@)
    }
}

pub proof fn lemma_enc_peer_take_succ(s: Seq<Vec<u8>>, i: int)
    requires
        0 <= i < s.len(),
    ensures
        enc_peer_list(s.take(i + 1)) == enc_peer_list(s.take(i)) + enc_bytes(s[i]@),
{
    assert(s.take(i + 1).drop_last() =~= s.take(i));
    assert(s.take(i + 1).last() == s[i]);
}

/// The length-prefix encoding of a list of sizes, unfolded from the
/// front.
pub proof fn lemma_enc_usize_first(l: Seq<usize>)
    requires
        l.len() > 0,
    ensures
        enc_usize_list(l) == spec_u64_to_le_bytes(l[0] as u64) + enc_usize_list(l.drop_first()),
    decreases l.len(),
{
    if l.len() == 1 {
        assert(l.drop_last() =~= Seq::<usize>::empty());
        assert(l.drop_first() =~= Seq::<usize>::empty());
        assert(enc_usize_list(l) =~= spec_u64_to_le_bytes(l[0] as u64) + enc_usize_list(
            l.drop_first(),
        ));
    } else {
        lemma_enc_usize_first(l.drop_last());
        assert(l.drop_last()[0] == l[0]);
        assert(l.drop_last().drop_first() =~= l.drop_first().drop_last());
        assert(l.drop_first().last() == l.last());
        assert(enc_usize_list(l.drop_first()) == enc_usize_list(l.drop_first().drop_last())
            + spec_u64_to_le_bytes(l.drop_first().last() as u64));
        assert(enc_usize_list(l) =~= spec_u64_to_le_bytes(l[0] as u64) + enc_usize_list(
            l.drop_first(),
        ));
    }
}

/// Each size takes eight bytes of the encoding.
pub proof fn lemma_enc_usize_len(l: Seq<usize>)
    ensures
        enc_usize_list(l).len() == 8 * l.len(),
    decreases l.len(),
{
    vstd::bytes::lemma_auto_spec_u64_to_from_le_bytes();
    if l.len() > 0 {
        lemma_enc_usize_len(l.drop_last());
    }
}

/// Two size lists of the same length with the same encoding are the
/// same list.
pub proof fn lemma_enc_usize_injective(l1: Seq<usize>, l2: Seq<usize>)
    requires
        l1.len() == l2.len(),
        enc_usize_list(l1) == enc_usize_list(l2),
    ensures
        l1 == l2,
    decreases l1.len(),
{
    vstd::bytes::lemma_auto_spec_u64_to_from_le_bytes();
    if l1.len() == 0 {
        assert(l1 =~= l2);
    } else {
        lemma_enc_usize_first(l1);
        lemma_enc_usize_first(l2);
        let a = enc_usize_list(l1);
        assert(a.subrange(0, 8) =~= spec_u64_to_le_bytes(l1[0] as u64));
        assert(a.subrange(0, 8) =~= spec_u64_to_le_bytes(l2[0] as u64));
        assert(l1[0] as u64 == l2[0] as u64);
        assert(l1[0] == l2[0]);
        assert(enc_usize_list(l1.drop_first()) =~= a.skip(8));
        assert(enc_usize_list(l2.drop_first()) =~= a.skip(8));
        lemma_enc_usize_injective(l1.drop_first(), l2.drop_first());
        assert forall|i: int| 0 <= i < l1.len() implies l1[i] == l2[i] by {
            if i > 0 {
                assert(l1.drop_first()[i - 1] == l1[i]);
                assert(l2.drop_first()[i - 1] == l2[i]);
            }
        }
        assert(l1 =~= l2);
    }
}

/// Every peer identity in the list is small enough to serialize.
pub open spec fn peers_encodable(l: Seq<Vec<u8>>) -> bool {
    forall|i: int| 0 <= i < l.len() ==> (#[trigger] l[i])@.len() <= usize::MAX
}

/// The length-prefix encoding of a list of peer identities, unfolded
/// from the front.
pub proof fn lemma_enc_peer_first(l: Seq<Vec<u8>>)
    requires
        l.len() > 0,
    ensures
        enc_peer_list(l) == enc_bytes(l[0]@) + enc_peer_list(l.drop_first()),
    decreases l.len(),
{
    if l.len() == 1 {
        assert(l.drop_last() =~= Seq::<Vec<u8>>::empty());
        assert(l.drop_first() =~= Seq::<Vec<u8>>::empty());
        assert(enc_peer_list(l) =~= enc_bytes(l[0]@) + enc_peer_list(l.drop_first()));
    } else {
        lemma_enc_peer_first(l.drop_last());
        assert(l.drop_last()[0] == l[0]);
        assert(l.drop_last().drop_first() =~= l.drop_first().drop_last());
        assert(l.drop_first().last() == l.last());
        assert(enc_peer_list(l.drop_first()) == enc_peer_list(l.drop_first().drop_last())
            + enc_bytes(l.drop_first().last()@));
        assert(enc_peer_list(l) =~= enc_bytes(l[0]@) + enc_peer_list(l.drop_first()));
    }
}

/// Two peer lists of the same length whose encodings begin the same
/// byte sequence name the same identities and are followed by the same
/// rest.
pub proof fn lemma_enc_peer_prefix_free(l1: Seq<Vec<u8>>, l2: Seq<Vec<u8>>, r1: Seq<u8>, r2: Seq<u8>)
    requires
        l1.len() == l2.len(),
        peers_encodable(l1),
        peers_encodable(l2),
        enc_peer_list(l1) + r1 == enc_peer_list(l2) + r2,
    ensures
        forall|i: int| 0 <= i < l1.len() ==> (#[trigger] l1[i])@ == l2[i]@,
        r1 == r2,
        enc_peer_list(l1).len() == enc_peer_list(l2).len(),
    decreases l1.len(),
{
    if l1.len() == 0 {
        assert(r1 =~= enc_peer_list(l1) + r1);
        assert(r2 =~= enc_peer_list(l2) + r2);
    } else {
        lemma_enc_peer_first(l1);
        lemma_enc_peer_first(l2);
        vstd::seq_lib::lemma_concat_associative(
            enc_bytes(l1[0]@),
            enc_peer_list(l1.drop_first()),
            r1,
        );
        vstd::seq_lib::lemma_concat_associative(
            enc_bytes(l2[0]@),
            enc_peer_list(l2.drop_first()),
            r2,
        );
        crate::codec::lemma_enc_bytes_prefix(
            l1[0]@,
            l2[0]@,
            enc_peer_list(l1.drop_first()) + r1,
            enc_peer_list(l2.drop_first()) + r2,
        );
        assert(peers_encodable(l1.drop_first())) by {
            assert forall|i: int|
                0 <= i < l1.drop_first().len() implies (#[trigger] l1.drop_first()[i])@.len()
                <= usize::MAX by {
                assert(l1.drop_first()[i] == l1[i + 1]);
            }
        }
        assert(peers_encodable(l2.drop_first())) by {
            assert forall|i: int|
                0 <= i < l2.drop_first().len() implies (#[trigger] l2.drop_first()[i])@.len()
                <= usize::MAX by {
                assert(l2.drop_first()[i] == l2[i + 1]);
            }
        }
        lemma_enc_peer_prefix_free(l1.drop_first(), l2.drop_first(), r1, r2);
        assert forall|i: int| 0 <= i < l1.len() implies (#[trigger] l1[i])@ == l2[i]@ by {
            if i > 0 {
                assert(l1.drop_first()[i - 1] == l1[i]);
                assert(l2.drop_first()[i - 1] == l2[i]);
            }
        }
    }
}

/// Two peer lists of the same length with the same encoding name the
/// same identities.
pub proof fn lemma_enc_peer_injective(l1: Seq<Vec<u8>>, l2: Seq<Vec<u8>>)
    requires
        l1.len() == l2.len(),
        peers_encodable(l1),
        peers_encodable(l2),
        enc_peer_list(l1) == enc_peer_list(l2),
    ensures
        forall|i: int| 0 <= i < l1.len() ==> (#[trigger] l1[i])@ == l2[i]@,
{
    assert(enc_peer_list(l1) + Seq::<u8>::empty() =~= enc_peer_list(l1));
    assert(enc_peer_list(l2) + Seq::<u8>::empty() =~= enc_peer_list(l2));
    lemma_enc_peer_prefix_free(l1, l2, Seq::empty(), Seq::empty());
}


impl File {
    /// The file's byte strings are small enough to serialize — its
    /// lengths fit the length-prefix fields — and its key field holds a
    /// whole key. Every file the library builds or decodes satisfies
    /// this.
    pub open spec fn encodable(&self) -> bool {
        &&& encode_utf8(self.filename@).len() <= usize::MAX
        &&& self.id@.len() <= usize::MAX
        &&& self.signature@.len() <= usize::MAX
        &&& self.owner@.len() <= usize::MAX
        &&& self.shard_config.pub_key@.len() == crate::crypto::KEY_SIZE
        &&& self.shard_config.sizes@.len() <= usize::MAX
        &&& self.shards@.len() <= usize::MAX
        &&& peers_encodable(self.shards@)
    }
}

/// Where each field of a file's canonical serialized form sits inside
/// the byte sequence.
#[verifier::rlimit(100)]
#[verifier::spinoff_prover]
proof fn lemma_file_encoding_shape(bytes: Seq<u8>, f: File)
    requires
        f.spec_encoding() == bytes,
        f.encodable(),
    ensures
        ({
            let m = encode_utf8(f.filename@).len() as int;
            let n2 = f.id@.len() as int;
            let n5 = f.signature@.len() as int;
            let n6 = f.owner@.len() as int;
            let n8 = f.shard_config.pub_key@.len() as int;
            let k = f.shard_config.sizes@.len() as int;
            let o1 = 8 + m;
            let o2 = o1 + 8 + n2;
            let o3 = o2 + 16;
            let o4 = o3 + 4;
            let o5 = o4 + 8 + n5;
            let o6 = o5 + 8 + n6;
            let o7 = o6 + 8;
            let o8 = o7 + 8 + n8;
            let o11 = o8 + 10;
            let o12 = o11 + 8 * k;
            let o13 = o12 + 8;
            &&& bytes.len() == o13 + enc_peer_list(f.shards@).len()
            &&& bytes.subrange(0, 8) == spec_u64_to_le_bytes(encode_utf8(f.filename@).len() as u64)
            &&& bytes.subrange(0, o1) == enc_bytes(encode_utf8(f.filename@))
            &&& bytes.subrange(o1, o1 + 8) == spec_u64_to_le_bytes(f.id@.len() as u64)
            &&& bytes.subrange(o1, o2) == enc_bytes(f.id@)
            &&& bytes.subrange(o2, o3) == spec_u128_to_le_bytes(f.creation_date)
            &&& bytes.subrange(o3, o4) == spec_u32_to_le_bytes(f.checksum)
            &&& bytes.subrange(o4, o4 + 8) == spec_u64_to_le_bytes(f.signature@.len() as u64)
            &&& bytes.subrange(o4, o5) == enc_bytes(f.signature@)
            &&& bytes.subrange(o5, o5 + 8) == spec_u64_to_le_bytes(f.owner@.len() as u64)
            &&& bytes.subrange(o5, o6) == enc_bytes(f.owner@)
            &&& bytes.subrange(o6, o7) == spec_u64_to_le_bytes(f.shard_config.shard_count as u64)
            &&& bytes.subrange(o7, o7 + 8) == spec_u64_to_le_bytes(
                f.shard_config.pub_key@.len() as u64,
            )
            &&& bytes.subrange(o7, o8) == enc_bytes(f.shard_config.pub_key@)
            &&& bytes.subrange(o8, o8 + 1) == enc_bool(f.shard_config.compress)
            &&& bytes.subrange(o8 + 1, o8 + 2) == enc_bool(f.shard_config.encrypt)
            &&& bytes.subrange(o8 + 2, o11) == spec_u64_to_le_bytes(
                f.shard_config.sizes@.len() as u64,
            )
            &&& bytes.subrange(o11, o12) == enc_usize_list(f.shard_config.sizes@)
            &&& bytes.subrange(o12, o13) == spec_u64_to_le_bytes(f.shards@.len() as u64)
            &&& bytes.skip(o13) == enc_peer_list(f.shards@)
        }),
{
    vstd::bytes::lemma_auto_spec_u64_to_from_le_bytes();
    vstd::bytes::lemma_auto_spec_u128_to_from_le_bytes();
    vstd::bytes::lemma_auto_spec_u32_to_from_le_bytes();
    lemma_enc_usize_len(f.shard_config.sizes@);
    let m = encode_utf8(f.filename@).len() as int;
    let n2 = f.id@.len() as int;
    let n5 = f.signature@.len() as int;
    let n6 = f.owner@.len() as int;
    let n8 = f.shard_config.pub_key@.len() as int;
    let k = f.shard_config.sizes@.len() as int;
    let o1 = 8 + m;
    let o2 = o1 + 8 + n2;
    let o3 = o2 + 16;
    let o4 = o3 + 4;
    let o5 = o4 + 8 + n5;
    let o6 = o5 + 8 + n6;
    let o7 = o6 + 8;
    let o8 = o7 + 8 + n8;
    let o11 = o8 + 10;
    let o12 = o11 + 8 * k;
    let o13 = o12 + 8;
    let r14 = enc_peer_list(f.shards@);
    let r13 = spec_u64_to_le_bytes(f.shards@.len() as u64) + r14;
    let r12 = enc_usize_list(f.shard_config.sizes@) + r13;
    let r11 = spec_u64_to_le_bytes(f.shard_config.sizes@.len() as u64) + r12;
    let r10 = enc_bool(f.shard_config.encrypt) + r11;
    let r9 = enc_bool(f.shard_config.compress) + r10;
    let r8 = enc_bytes(f.shard_config.pub_key@) + r9;
    let r7 = spec_u64_to_le_bytes(f.shard_config.shard_count as u64) + r8;
    let r6 = enc_bytes(f.owner@) + r7;
    let r5 = enc_bytes(f.signature@) + r6;
    let r4 = spec_u32_to_le_bytes(f.checksum) + r5;
    let r3 = spec_u128_to_le_bytes(f.creation_date) + r4;
    let r2 = enc_bytes(f.id@) + r3;
    assert(bytes == enc_bytes(encode_utf8(f.filename@)) + r2);
    assert(bytes.subrange(0, o1) =~= enc_bytes(encode_utf8(f.filename@)));
    assert(bytes.subrange(0, 8) =~= spec_u64_to_le_bytes(encode_utf8(f.filename@).len() as u64));
    assert(bytes.skip(o1) =~= r2);
    assert(bytes.subrange(o1, o2) =~= enc_bytes(f.id@));
    assert(bytes.subrange(o1, o1 + 8) =~= spec_u64_to_le_bytes(f.id@.len() as u64));
    assert(bytes.skip(o2) =~= r3);
    assert(bytes.subrange(o2, o3) =~= spec_u128_to_le_bytes(f.creation_date));
    assert(bytes.skip(o3) =~= r4);
    assert(bytes.subrange(o3, o4) =~= spec_u32_to_le_bytes(f.checksum));
    assert(bytes.skip(o4) =~= r5);
    assert(bytes.subrange(o4, o5) =~= enc_bytes(f.signature@));
    assert(bytes.subrange(o4, o4 + 8) =~= spec_u64_to_le_bytes(f.signature@.len() as u64));
    assert(bytes.skip(o5) =~= r6);
    assert(bytes.subrange(o5, o6) =~= enc_bytes(f.owner@));
    assert(bytes.subrange(o5, o5 + 8) =~= spec_u64_to_le_bytes(f.owner@.len() as u64));
    assert(bytes.skip(o6) =~= r7);
    assert(bytes.subrange(o6, o7) =~= spec_u64_to_le_bytes(f.shard_config.shard_count as u64));
    assert(bytes.skip(o7) =~= r8);
    assert(bytes.subrange(o7, o8) =~= enc_bytes(f.shard_config.pub_key@));
    assert(bytes.subrange(o7, o7 + 8) =~= spec_u64_to_le_bytes(
        f.shard_config.pub_key@.len() as u64,
    ));
    assert(bytes.skip(o8) =~= r9);
    assert(bytes.subrange(o8, o8 + 1) =~= enc_bool(f.shard_config.compress));
    assert(bytes.skip(o8 + 1) =~= r10);
    assert(bytes.subrange(o8 + 1, o8 + 2) =~= enc_bool(f.shard_config.encrypt));
    assert(bytes.skip(o8 + 2) =~= r11);
    assert(bytes.subrange(o8 + 2, o11) =~= spec_u64_to_le_bytes(
        f.shard_config.sizes@.len() as u64,
    ));
    assert(bytes.skip(o11) =~= r12);
    assert(bytes.subrange(o11, o12) =~= enc_usize_list(f.shard_config.sizes@));
    assert(bytes.skip(o12) =~= r13);
    assert(bytes.subrange(o12, o13) =~= spec_u64_to_le_bytes(f.shards@.len() as u64));
    assert(bytes.skip(o13) =~= r14);
}

/// A length-prefixed field parsed at the front of a file's canonical
/// form is exactly the file's encoded name.
proof fn lemma_file_pos_name(bytes: Seq<u8>, f: File, b1: Seq<u8>, p1: int)
    requires
        f.spec_encoding() == bytes,
        f.encodable(),
        0 <= p1 <= bytes.len(),
        p1 <= usize::MAX,
        bytes.subrange(0, p1) == enc_bytes(b1),
    ensures
        b1 == encode_utf8(f.filename@),
        p1 == 8 + encode_utf8(f.filename@).len(),
{
    lemma_file_encoding_shape(bytes, f);
    vstd::bytes::lemma_auto_spec_u64_to_from_le_bytes();
    assert(spec_u64_to_le_bytes(b1.len() as u64).len() == 8);
    assert(bytes.subrange(0, p1).len() == p1);
    assert(p1 == 8 + b1.len());
    let m = encode_utf8(f.filename@).len() as int;
    assert(bytes =~= bytes.subrange(0, p1) + bytes.skip(p1));
    assert(bytes =~= bytes.subrange(0, 8 + m) + bytes.skip(8 + m));
    crate::codec::lemma_enc_bytes_prefix(
        b1,
        encode_utf8(f.filename@),
        bytes.skip(p1),
        bytes.skip(8 + m),
    );
}

/// The second length-prefixed field of a file's canonical form is
/// exactly the file's identifier.
proof fn lemma_file_pos_id(bytes: Seq<u8>, f: File, b1: Seq<u8>, p1: int, b2: Seq<u8>, p2: int)
    requires
        f.spec_encoding() == bytes,
        f.encodable(),
        0 <= p1 <= bytes.len(),
        p1 <= usize::MAX,
        bytes.subrange(0, p1) == enc_bytes(b1),
        p1 <= p2 <= bytes.len(),
        p2 <= usize::MAX,
        bytes.subrange(p1, p2) == enc_bytes(b2),
    ensures
        b1 == encode_utf8(f.filename@),
        p1 == 8 + encode_utf8(f.filename@).len(),
        b2 == f.id@,
        p2 == p1 + 8 + f.id@.len(),
{
    lemma_file_pos_name(bytes, f, b1, p1);
    lemma_file_encoding_shape(bytes, f);
    vstd::bytes::lemma_auto_spec_u64_to_from_le_bytes();
    assert(spec_u64_to_le_bytes(b2.len() as u64).len() == 8);
    assert(bytes.subrange(p1, p2).len() == p2 - p1);
    assert(p2 == p1 + 8 + b2.len());
    let n2 = f.id@.len() as int;
    assert(bytes.skip(p1) =~= bytes.subrange(p1, p2) + bytes.skip(p2));
    assert(bytes.skip(p1) =~= bytes.subrange(p1, p1 + 8 + n2) + bytes.skip(p1 + 8 + n2));
    crate::codec::lemma_enc_bytes_prefix(b2, f.id@, bytes.skip(p2), bytes.skip(p1 + 8 + n2));
}

/// The signature field of a file's canonical form, which follows the
/// fixed-width date and checksum.
proof fn lemma_file_pos_sig(
    bytes: Seq<u8>,
    f: File,
    b1: Seq<u8>,
    p1: int,
    b2: Seq<u8>,
    p2: int,
    b5: Seq<u8>,
    p5: int,
)
    requires
        f.spec_encoding() == bytes,
        f.encodable(),
        0 <= p1 <= bytes.len(),
        p1 <= usize::MAX,
        bytes.subrange(0, p1) == enc_bytes(b1),
        p1 <= p2 <= bytes.len(),
        p2 <= usize::MAX,
        bytes.subrange(p1, p2) == enc_bytes(b2),
        p2 + 20 <= p5 <= bytes.len(),
        p5 <= usize::MAX,
        bytes.subrange(p2 + 20, p5) == enc_bytes(b5),
    ensures
        b1 == encode_utf8(f.filename@),
        p1 == 8 + encode_utf8(f.filename@).len(),
        b2 == f.id@,
        p2 == p1 + 8 + f.id@.len(),
        b5 == f.signature@,
        p5 == p2 + 28 + f.signature@.len(),
{
    lemma_file_pos_id(bytes, f, b1, p1, b2, p2);
    lemma_file_encoding_shape(bytes, f);
    vstd::bytes::lemma_auto_spec_u64_to_from_le_bytes();
    assert(spec_u64_to_le_bytes(b5.len() as u64).len() == 8);
    assert(bytes.subrange(p2 + 20, p5).len() == p5 - p2 - 20);
    assert(p5 == p2 + 28 + b5.len());
    let n5 = f.signature@.len() as int;
    assert(bytes.skip(p2 + 20) =~= bytes.subrange(p2 + 20, p5) + bytes.skip(p5));
    assert(bytes.skip(p2 + 20) =~= bytes.subrange(p2 + 20, p2 + 28 + n5) + bytes.skip(
        p2 + 28 + n5,
    ));
    crate::codec::lemma_enc_bytes_prefix(
        b5,
        f.signature@,
        bytes.skip(p5),
        bytes.skip(p2 + 28 + n5),
    );
}

/// The owner field of a file's canonical form.
proof fn lemma_file_pos_owner(
    bytes: Seq<u8>,
    f: File,
    b1: Seq<u8>,
    p1: int,
    b2: Seq<u8>,
    p2: int,
    b5: Seq<u8>,
    p5: int,
    b6: Seq<u8>,
    p6: int,
)
    requires
        f.spec_encoding() == bytes,
        f.encodable(),
        0 <= p1 <= bytes.len(),
        p1 <= usize::MAX,
        bytes.subrange(0, p1) == enc_bytes(b1),
        p1 <= p2 <= bytes.len(),
        p2 <= usize::MAX,
        bytes.subrange(p1, p2) == enc_bytes(b2),
        p2 + 20 <= p5 <= bytes.len(),
        p5 <= usize::MAX,
        bytes.subrange(p2 + 20, p5) == enc_bytes(b5),
        p5 <= p6 <= bytes.len(),
        p6 <= usize::MAX,
        bytes.subrange(p5, p6) == enc_bytes(b6),
    ensures
        b1 == encode_utf8(f.filename@),
        p1 == 8 + encode_utf8(f.filename@).len(),
        b2 == f.id@,
        p2 == p1 + 8 + f.id@.len(),
        b5 == f.signature@,
        p5 == p2 + 28 + f.signature@.len(),
        b6 == f.owner@,
        p6 == p5 + 8 + f.owner@.len(),
{
    lemma_file_pos_sig(bytes, f, b1, p1, b2, p2, b5, p5);
    lemma_file_encoding_shape(bytes, f);
    vstd::bytes::lemma_auto_spec_u64_to_from_le_bytes();
    assert(spec_u64_to_le_bytes(b6.len() as u64).len() == 8);
    assert(bytes.subrange(p5, p6).len() == p6 - p5);
    assert(p6 == p5 + 8 + b6.len());
    let n6 = f.owner@.len() as int;
    assert(bytes.skip(p5) =~= bytes.subrange(p5, p6) + bytes.skip(p6));
    assert(bytes.skip(p5) =~= bytes.subrange(p5, p5 + 8 + n6) + bytes.skip(p5 + 8 + n6));
    crate::codec::lemma_enc_bytes_prefix(b6, f.owner@, bytes.skip(p6), bytes.skip(p5 + 8 + n6));
}

/// The public-key field of a file's canonical form, which follows the
/// fixed-width shard count.
proof fn lemma_file_pos_key(
    bytes: Seq<u8>,
    f: File,
    b1: Seq<u8>,
    p1: int,
    b2: Seq<u8>,
    p2: int,
    b5: Seq<u8>,
    p5: int,
    b6: Seq<u8>,
    p6: int,
    b8: Seq<u8>,
    p8: int,
)
    requires
        f.spec_encoding() == bytes,
        f.encodable(),
        0 <= p1 <= bytes.len(),
        p1 <= usize::MAX,
        bytes.subrange(0, p1) == enc_bytes(b1),
        p1 <= p2 <= bytes.len(),
        p2 <= usize::MAX,
        bytes.subrange(p1, p2) == enc_bytes(b2),
        p2 + 20 <= p5 <= bytes.len(),
        p5 <= usize::MAX,
        bytes.subrange(p2 + 20, p5) == enc_bytes(b5),
        p5 <= p6 <= bytes.len(),
        p6 <= usize::MAX,
        bytes.subrange(p5, p6) == enc_bytes(b6),
        p6 + 8 <= p8 <= bytes.len(),
        p8 <= usize::MAX,
        bytes.subrange(p6 + 8, p8) == enc_bytes(b8),
    ensures
        b1 == encode_utf8(f.filename@),
        p1 == 8 + encode_utf8(f.filename@).len(),
        b2 == f.id@,
        p2 == p1 + 8 + f.id@.len(),
        b5 == f.signature@,
        p5 == p2 + 28 + f.signature@.len(),
        b6 == f.owner@,
        p6 == p5 + 8 + f.owner@.len(),
        b8 == f.shard_config.pub_key@,
        p8 == p6 + 16 + f.shard_config.pub_key@.len(),
{
    lemma_file_pos_owner(bytes, f, b1, p1, b2, p2, b5, p5, b6, p6);
    lemma_file_encoding_shape(bytes, f);
    vstd::bytes::lemma_auto_spec_u64_to_from_le_bytes();
    assert(spec_u64_to_le_bytes(b8.len() as u64).len() == 8);
    assert(bytes.subrange(p6 + 8, p8).len() == p8 - p6 - 8);
    assert(p8 == p6 + 16 + b8.len());
    let n8 = f.shard_config.pub_key@.len() as int;
    assert(bytes.skip(p6 + 8) =~= bytes.subrange(p6 + 8, p8) + bytes.skip(p8));
    assert(bytes.skip(p6 + 8) =~= bytes.subrange(p6 + 8, p6 + 16 + n8) + bytes.skip(
        p6 + 16 + n8,
    ));
    crate::codec::lemma_enc_bytes_prefix(
        b8,
        f.shard_config.pub_key@,
        bytes.skip(p8),
        bytes.skip(p6 + 16 + n8),
    );
}

/// The fixed front of a file's canonical form: everything up to and
/// including the owner's public key.
struct ParsedHeader {
    filename: String,
    id_bytes: Vec<u8>,
    creation_date: u128,
    checksum: u32,
    signature: Vec<u8>,
    owner: Vec<u8>,
    shard_count: usize,
    pub_key: PublicKey,
    end: usize,
}

impl ParsedHeader {
    /// The serialized form of the parsed front.
    spec fn spec_encoding(&self) -> Seq<u8> {
        enc_bytes(encode_utf8(self.filename@)) + (enc_bytes(self.id_bytes@)
            + (spec_u128_to_le_bytes(self.creation_date) + (spec_u32_to_le_bytes(self.checksum)
            + (enc_bytes(self.signature@) + (enc_bytes(self.owner@) + (spec_u64_to_le_bytes(
            self.shard_count as u64,
        ) + enc_bytes(self.pub_key@)))))))
    }

    /// The parsed byte strings fit in memory and the key is whole.
    spec fn bounded(&self) -> bool {
        &&& encode_utf8(self.filename@).len() <= usize::MAX
        &&& self.id_bytes@.len() <= usize::MAX
        &&& self.signature@.len() <= usize::MAX
        &&& self.owner@.len() <= usize::MAX
        &&& self.pub_key@.len() == crate::crypto::KEY_SIZE
    }
}

/// Parse the fixed front of a file's canonical form. Succeeds on the
/// serialized form of every file; whatever it accepts is the serialized
/// form of what it returns.
#[verifier::rlimit(100)]
#[verifier::spinoff_prover]
fn read_file_header(buf: &[u8]) -> (r: Option<ParsedHeader>)
    ensures
        match r {
            Some(h) => h.end <= buf@.len() && buf@.subrange(0, h.end as int) == h.spec_encoding()
                && h.bounded(),
            None => forall|f: File| f.encodable() ==> f.spec_encoding() != buf@,
        },
{
    let (name_bytes, p1) = match crate::codec::read_len_bytes(buf, 0) {
        Some(v) => v,
        None => {
            proof {
                assert forall|f: File| f.encodable() implies f.spec_encoding() != buf@ by {
                    if f.spec_encoding() == buf@ {
                        lemma_file_encoding_shape(buf@, f);
                        vstd::bytes::lemma_auto_spec_u64_to_from_le_bytes();
                    }
                }
            }
            return None;
        },
    };
    let ghost name_view = name_bytes@;
    let filename = match crate::codec::string_from_utf8(name_bytes) {
        Some(v) => v,
        None => {
            proof {
                assert forall|f: File| f.encodable() implies f.spec_encoding() != buf@ by {
                    if f.spec_encoding() == buf@ {
                        lemma_file_pos_name(buf@, f, name_view, p1 as int);
                        assert(encode_utf8(f.filename@) != name_view);
                    }
                }
            }
            return None;
        },
    };
    let (id_bytes, p2) = match crate::codec::read_len_bytes(buf, p1) {
        Some(v) => v,
        None => {
            proof {
                assert forall|f: File| f.encodable() implies f.spec_encoding() != buf@ by {
                    if f.spec_encoding() == buf@ {
                        lemma_file_pos_name(buf@, f, name_view, p1 as int);
                        lemma_file_encoding_shape(buf@, f);
                        vstd::bytes::lemma_auto_spec_u64_to_from_le_bytes();
                    }
                }
            }
            return None;
        },
    };
    let ghost id_view = id_bytes@;
    let (creation_date, p3) = match read_u128(buf, p2) {
        Some(v) => v,
        None => {
            proof {
                assert forall|f: File| f.encodable() implies f.spec_encoding() != buf@ by {
                    if f.spec_encoding() == buf@ {
                        lemma_file_pos_id(buf@, f, name_view, p1 as int, id_view, p2 as int);
                        lemma_file_encoding_shape(buf@, f);
                    }
                }
            }
            return None;
        },
    };
    let (checksum, p4) = match read_u32(buf, p3) {
        Some(v) => v,
        None => {
            proof {
                assert forall|f: File| f.encodable() implies f.spec_encoding() != buf@ by {
                    if f.spec_encoding() == buf@ {
                        lemma_file_pos_id(buf@, f, name_view, p1 as int, id_view, p2 as int);
                        lemma_file_encoding_shape(buf@, f);
                    }
                }
            }
            return None;
        },
    };
    let (signature, p5) = match crate::codec::read_len_bytes(buf, p4) {
        Some(v) => v,
        None => {
            proof {
                assert forall|f: File| f.encodable() implies f.spec_encoding() != buf@ by {
                    if f.spec_encoding() == buf@ {
                        lemma_file_pos_id(buf@, f, name_view, p1 as int, id_view, p2 as int);
                        lemma_file_encoding_shape(buf@, f);
                        vstd::bytes::lemma_auto_spec_u64_to_from_le_bytes();
                    }
                }
            }
            return None;
        },
    };
    let ghost sig_view = signature@;
    let (owner, p6) = match crate::codec::read_len_bytes(buf, p5) {
        Some(v) => v,
        None => {
            proof {
                assert forall|f: File| f.encodable() implies f.spec_encoding() != buf@ by {
                    if f.spec_encoding() == buf@ {
                        lemma_file_pos_sig(
                            buf@, f, name_view, p1 as int, id_view, p2 as int, sig_view, p5 as int,
                        );
                        lemma_file_encoding_shape(buf@, f);
                        vstd::bytes::lemma_auto_spec_u64_to_from_le_bytes();
                    }
                }
            }
            return None;
        },
    };
    let ghost owner_view = owner@;
    let (count64, p7) = match read_u64(buf, p6) {
        Some(v) => v,
        None => {
            proof {
                assert forall|f: File| f.encodable() implies f.spec_encoding() != buf@ by {
                    if f.spec_encoding() == buf@ {
                        lemma_file_pos_owner(
                            buf@, f, name_view, p1 as int, id_view, p2 as int, sig_view, p5 as int,
                            owner_view, p6 as int,
                        );
                        lemma_file_encoding_shape(buf@, f);
                    }
                }
            }
            return None;
        },
    };
    if count64 > usize::MAX as u64 {
        proof {
            assert forall|f: File| f.encodable() implies f.spec_encoding() != buf@ by {
                if f.spec_encoding() == buf@ {
                    lemma_file_pos_owner(
                        buf@, f, name_view, p1 as int, id_view, p2 as int, sig_view, p5 as int,
                        owner_view, p6 as int,
                    );
                    lemma_file_encoding_shape(buf@, f);
                    vstd::bytes::lemma_auto_spec_u64_to_from_le_bytes();
                    assert(count64 == f.shard_config.shard_count as u64);
                }
            }
        }
        return None;
    }
    let (key_bytes, p8) = match crate::codec::read_len_bytes(buf, p7) {
        Some(v) => v,
        None => {
            proof {
                assert forall|f: File| f.encodable() implies f.spec_encoding() != buf@ by {
                    if f.spec_encoding() == buf@ {
                        lemma_file_pos_owner(
                            buf@, f, name_view, p1 as int, id_view, p2 as int, sig_view, p5 as int,
                            owner_view, p6 as int,
                        );
                        lemma_file_encoding_shape(buf@, f);
                        vstd::bytes::lemma_auto_spec_u64_to_from_le_bytes();
                    }
                }
            }
            return None;
        },
    };
    let ghost key_view = key_bytes@;
    let pub_key = match PublicKey::from_bytes(key_bytes) {
        Ok(k) => k,
        Err(_) => {
            proof {
                assert forall|f: File| f.encodable() implies f.spec_encoding() != buf@ by {
                    if f.spec_encoding() == buf@ {
                        lemma_file_pos_key(
                            buf@, f, name_view, p1 as int, id_view, p2 as int, sig_view, p5 as int,
                            owner_view, p6 as int, key_view, p8 as int,
                        );
                        assert(key_view.len() == crate::crypto::KEY_SIZE);
                    }
                }
            }
            return None;
        },
    };
    let header = ParsedHeader {
        filename,
        id_bytes,
        creation_date,
        checksum,
        signature,
        owner,
        shard_count: count64 as usize,
        pub_key,
        end: p8,
    };
    proof {
        vstd::bytes::lemma_auto_spec_u64_to_from_le_bytes();
        let a1 = enc_bytes(encode_utf8(header.filename@));
        let a2 = enc_bytes(header.id_bytes@);
        let a3 = spec_u128_to_le_bytes(header.creation_date);
        let a4 = spec_u32_to_le_bytes(header.checksum);
        let a5 = enc_bytes(header.signature@);
        let a6 = enc_bytes(header.owner@);
        let a7 = spec_u64_to_le_bytes(header.shard_count as u64);
        let a8 = enc_bytes(header.pub_key@);
        assert(a1 =~= buf@.subrange(0, p1 as int));
        assert(a2 =~= buf@.subrange(p1 as int, p2 as int));
        assert(a3 =~= buf@.subrange(p2 as int, p3 as int));
        assert(a4 =~= buf@.subrange(p3 as int, p4 as int));
        assert(a5 =~= buf@.subrange(p4 as int, p5 as int));
        assert(a6 =~= buf@.subrange(p5 as int, p6 as int));
        assert(a7 =~= buf@.subrange(p6 as int, p7 as int));
        assert(a8 =~= buf@.subrange(p7 as int, p8 as int));
        assert(buf@.subrange(0, p8 as int) =~= a1 + (a2 + (a3 + (a4 + (a5 + (a6 + (a7 + a8)))))));
        assert(header.spec_encoding() == a1 + (a2 + (a3 + (a4 + (a5 + (a6 + (a7 + a8)))))));
    }
    Some(header)
}

/// The parsed front of a file's canonical form pins the corresponding
/// fields of any file with that form.
#[verifier::rlimit(100)]
#[verifier::spinoff_prover]
proof fn lemma_file_header_match(bytes: Seq<u8>, f: File, h: ParsedHeader)
    requires
        f.spec_encoding() == bytes,
        f.encodable(),
        h.bounded(),
        h.end <= bytes.len(),
        bytes.subrange(0, h.end as int) == h.spec_encoding(),
    ensures
        encode_utf8(h.filename@) == encode_utf8(f.filename@),
        h.id_bytes@ == f.id@,
        h.creation_date == f.creation_date,
        h.checksum == f.checksum,
        h.signature@ == f.signature@,
        h.owner@ == f.owner@,
        h.shard_count == f.shard_config.shard_count,
        h.pub_key@ == f.shard_config.pub_key@,
        h.end == 68 + encode_utf8(f.filename@).len() + f.id@.len() + f.signature@.len()
            + f.owner@.len() + f.shard_config.pub_key@.len(),
{
    vstd::bytes::lemma_auto_spec_u64_to_from_le_bytes();
    vstd::bytes::lemma_auto_spec_u128_to_from_le_bytes();
    vstd::bytes::lemma_auto_spec_u32_to_from_le_bytes();
    let m = encode_utf8(h.filename@).len() as int;
    let n2 = h.id_bytes@.len() as int;
    let n5 = h.signature@.len() as int;
    let n6 = h.owner@.len() as int;
    let n8 = h.pub_key@.len() as int;
    let q1 = 8 + m;
    let q2 = q1 + 8 + n2;
    let q3 = q2 + 16;
    let q4 = q3 + 4;
    let q5 = q4 + 8 + n5;
    let q6 = q5 + 8 + n6;
    let q7 = q6 + 8;
    let q8 = q7 + 8 + n8;
    assert(spec_u64_to_le_bytes(encode_utf8(h.filename@).len() as u64).len() == 8);
    assert(spec_u64_to_le_bytes(h.id_bytes@.len() as u64).len() == 8);
    assert(spec_u64_to_le_bytes(h.signature@.len() as u64).len() == 8);
    assert(spec_u64_to_le_bytes(h.owner@.len() as u64).len() == 8);
    assert(spec_u64_to_le_bytes(h.pub_key@.len() as u64).len() == 8);
    assert(enc_bytes(encode_utf8(h.filename@)).len() == 8 + m);
    assert(enc_bytes(h.id_bytes@).len() == 8 + n2);
    assert(enc_bytes(h.signature@).len() == 8 + n5);
    assert(enc_bytes(h.owner@).len() == 8 + n6);
    assert(enc_bytes(h.pub_key@).len() == 8 + n8);
    assert(h.spec_encoding().len() == q8);
    assert(bytes.subrange(0, h.end as int).len() == h.end);
    assert(h.end == q8);
    let t8 = enc_bytes(h.pub_key@);
    let t7 = spec_u64_to_le_bytes(h.shard_count as u64) + t8;
    let t6 = enc_bytes(h.owner@) + t7;
    let t5 = enc_bytes(h.signature@) + t6;
    let t4 = spec_u32_to_le_bytes(h.checksum) + t5;
    let t3 = spec_u128_to_le_bytes(h.creation_date) + t4;
    let t2 = enc_bytes(h.id_bytes@) + t3;
    let t1 = enc_bytes(encode_utf8(h.filename@)) + t2;
    assert(bytes.subrange(0, q8) == t1);
    assert(t1.take(8 + m) =~= enc_bytes(encode_utf8(h.filename@)));
    assert(bytes.subrange(0, q1) =~= bytes.subrange(0, q8).take(8 + m));
    assert(bytes.subrange(0, q1) == enc_bytes(encode_utf8(h.filename@)));
    assert(t1.skip(8 + m) =~= t2);
    assert(bytes.subrange(q1, q8) =~= bytes.subrange(0, q8).skip(8 + m));
    assert(bytes.subrange(q1, q8) == t2);
    assert(t2.take(8 + n2) =~= enc_bytes(h.id_bytes@));
    assert(bytes.subrange(q1, q2) =~= bytes.subrange(q1, q8).take(8 + n2));
    assert(bytes.subrange(q1, q2) == enc_bytes(h.id_bytes@));
    assert(t2.skip(8 + n2) =~= t3);
    assert(bytes.subrange(q2, q8) =~= bytes.subrange(q1, q8).skip(8 + n2));
    assert(bytes.subrange(q2, q8) == t3);
    assert(t3.take(16) =~= spec_u128_to_le_bytes(h.creation_date));
    assert(bytes.subrange(q2, q3) =~= bytes.subrange(q2, q8).take(16));
    assert(bytes.subrange(q2, q3) == spec_u128_to_le_bytes(h.creation_date));
    assert(t3.skip(16) =~= t4);
    assert(bytes.subrange(q3, q8) =~= bytes.subrange(q2, q8).skip(16));
    assert(bytes.subrange(q3, q8) == t4);
    assert(t4.take(4) =~= spec_u32_to_le_bytes(h.checksum));
    assert(bytes.subrange(q3, q4) =~= bytes.subrange(q3, q8).take(4));
    assert(bytes.subrange(q3, q4) == spec_u32_to_le_bytes(h.checksum));
    assert(t4.skip(4) =~= t5);
    assert(bytes.subrange(q4, q8) =~= bytes.subrange(q3, q8).skip(4));
    assert(bytes.subrange(q4, q8) == t5);
    assert(t5.take(8 + n5) =~= enc_bytes(h.signature@));
    assert(bytes.subrange(q4, q5) =~= bytes.subrange(q4, q8).take(8 + n5));
    assert(bytes.subrange(q4, q5) == enc_bytes(h.signature@));
    assert(t5.skip(8 + n5) =~= t6);
    assert(bytes.subrange(q5, q8) =~= bytes.subrange(q4, q8).skip(8 + n5));
    assert(bytes.subrange(q5, q8) == t6);
    assert(t6.take(8 + n6) =~= enc_bytes(h.owner@));
    assert(bytes.subrange(q5, q6) =~= bytes.subrange(q5, q8).take(8 + n6));
    assert(bytes.subrange(q5, q6) == enc_bytes(h.owner@));
    assert(t6.skip(8 + n6) =~= t7);
    assert(bytes.subrange(q6, q8) =~= bytes.subrange(q5, q8).skip(8 + n6));
    assert(bytes.subrange(q6, q8) == t7);
    assert(t7.take(8) =~= spec_u64_to_le_bytes(h.shard_count as u64));
    assert(bytes.subrange(q6, q7) =~= bytes.subrange(q6, q8).take(8));
    assert(bytes.subrange(q6, q7) == spec_u64_to_le_bytes(h.shard_count as u64));
    assert(t7.skip(8) =~= t8);
    assert(bytes.subrange(q7, q8) =~= bytes.subrange(q6, q8).skip(8));
    assert(bytes.subrange(q7, q8) == t8);
    assert(bytes.subrange(q7, q8) == enc_bytes(h.pub_key@));
    lemma_file_pos_key(
        bytes,
        f,
        encode_utf8(h.filename@),
        q1,
        h.id_bytes@,
        q2,
        h.signature@,
        q5,
        h.owner@,
        q6,
        h.pub_key@,
        q8,
    );
    lemma_file_encoding_shape(bytes, f);
    assert(h.creation_date == f.creation_date);
    assert(h.checksum == f.checksum);
    assert(h.shard_count as u64 == f.shard_config.shard_count as u64);
}

/// A byte sequence whose front is a file's header fields and whose tail
/// carries its flags, sizes and peer assignment is the file's canonical
/// form.
#[verifier::rlimit(100)]
#[verifier::spinoff_prover]
proof fn lemma_file_reassemble(
    bytes: Seq<u8>,
    file: File,
    p8: int,
    p9: int,
    p10: int,
    p11: int,
    p12: int,
    p13: int,
    pos2: int,
)
    requires
        0 <= p8 <= p9 <= p10 <= p11 <= p12 <= p13 <= pos2 == bytes.len(),
        bytes.subrange(0, p8) == enc_bytes(encode_utf8(file.filename@)) + (enc_bytes(file.id@)
            + (spec_u128_to_le_bytes(file.creation_date) + (spec_u32_to_le_bytes(file.checksum)
            + (enc_bytes(file.signature@) + (enc_bytes(file.owner@) + (spec_u64_to_le_bytes(
            file.shard_config.shard_count as u64,
        ) + enc_bytes(file.shard_config.pub_key@))))))),
        bytes.subrange(p8, p9) == enc_bool(file.shard_config.compress),
        bytes.subrange(p9, p10) == enc_bool(file.shard_config.encrypt),
        bytes.subrange(p10, p11) == spec_u64_to_le_bytes(file.shard_config.sizes@.len() as u64),
        bytes.subrange(p11, p12) == enc_usize_list(file.shard_config.sizes@),
        bytes.subrange(p12, p13) == spec_u64_to_le_bytes(file.shards@.len() as u64),
        bytes.subrange(p13, pos2) == enc_peer_list(file.shards@),
    ensures
        file.spec_encoding() == bytes,
{
    let a1 = enc_bytes(encode_utf8(file.filename@));
    let a2 = enc_bytes(file.id@);
    let a3 = spec_u128_to_le_bytes(file.creation_date);
    let a4 = spec_u32_to_le_bytes(file.checksum);
    let a5 = enc_bytes(file.signature@);
    let a6 = enc_bytes(file.owner@);
    let a7 = spec_u64_to_le_bytes(file.shard_config.shard_count as u64);
    let a8 = enc_bytes(file.shard_config.pub_key@);
    let a9 = enc_bool(file.shard_config.compress);
    let a10 = enc_bool(file.shard_config.encrypt);
    let a11 = spec_u64_to_le_bytes(file.shard_config.sizes@.len() as u64);
    let a12 = enc_usize_list(file.shard_config.sizes@);
    let a13 = spec_u64_to_le_bytes(file.shards@.len() as u64);
    let a14 = enc_peer_list(file.shards@);
    let t = a9 + (a10 + (a11 + (a12 + (a13 + a14))));
    assert(bytes =~= bytes.subrange(0, p8) + (bytes.subrange(p8, p9) + (bytes.subrange(p9, p10)
        + (bytes.subrange(p10, p11) + (bytes.subrange(p11, p12) + (bytes.subrange(p12, p13)
        + bytes.subrange(p13, pos2)))))));
    assert(bytes == bytes.subrange(0, p8) + t);
    let x8 = a8;
    let x7 = a7 + x8;
    let x6 = a6 + x7;
    let x5 = a5 + x6;
    let x4 = a4 + x5;
    let x3 = a3 + x4;
    let x2 = a2 + x3;
    vstd::seq_lib::lemma_concat_associative(a1, x2, t);
    vstd::seq_lib::lemma_concat_associative(a2, x3, t);
    vstd::seq_lib::lemma_concat_associative(a3, x4, t);
    vstd::seq_lib::lemma_concat_associative(a4, x5, t);
    vstd::seq_lib::lemma_concat_associative(a5, x6, t);
    vstd::seq_lib::lemma_concat_associative(a6, x7, t);
    vstd::seq_lib::lemma_concat_associative(a7, x8, t);
    assert(bytes == a1 + (a2 + (a3 + (a4 + (a5 + (a6 + (a7 + (a8 + t))))))));
    assert(file.spec_encoding() == a1 + (a2 + (a3 + (a4 + (a5 + (a6 + (a7 + (a8 + t))))))));
}

/// The canonical serialized form determines the file: two files with
/// the same encoding agree on every field. Together with `to_bytes` and
/// `from_bytes` this makes the byte form written into the DHT and
/// covered by the signature stand for exactly one file.
#[verifier::rlimit(100)]
#[verifier::spinoff_prover]
pub proof fn lemma_file_encoding_injective(f1: File, f2: File)
    requires
        f1.encodable(),
        f2.encodable(),
        f1.spec_encoding() == f2.spec_encoding(),
    ensures
        f1.filename@ == f2.filename@,
        f1.id@ == f2.id@,
        f1.creation_date == f2.creation_date,
        f1.checksum == f2.checksum,
        f1.signature@ == f2.signature@,
        f1.owner@ == f2.owner@,
        f1.shard_config.shard_count == f2.shard_config.shard_count,
        f1.shard_config.pub_key@ == f2.shard_config.pub_key@,
        f1.shard_config.compress == f2.shard_config.compress,
        f1.shard_config.encrypt == f2.shard_config.encrypt,
        f1.shard_config.sizes@ == f2.shard_config.sizes@,
        f1.shards@.len() == f2.shards@.len(),
        forall|i: int| 0 <= i < f1.shards@.len() ==> (#[trigger] f1.shards@[i])@ == f2.shards@[i]@,
{
    vstd::bytes::lemma_auto_spec_u64_to_from_le_bytes();
    vstd::bytes::lemma_auto_spec_u128_to_from_le_bytes();
    vstd::bytes::lemma_auto_spec_u32_to_from_le_bytes();
    let t1_14 = enc_peer_list(f1.shards@);
    let t1_13 = spec_u64_to_le_bytes(f1.shards@.len() as u64) + t1_14;
    let t1_12 = enc_usize_list(f1.shard_config.sizes@) + t1_13;
    let t1_11 = spec_u64_to_le_bytes(f1.shard_config.sizes@.len() as u64) + t1_12;
    let t1_10 = enc_bool(f1.shard_config.encrypt) + t1_11;
    let t1_9 = enc_bool(f1.shard_config.compress) + t1_10;
    let t1_8 = enc_bytes(f1.shard_config.pub_key@) + t1_9;
    let t1_7 = spec_u64_to_le_bytes(f1.shard_config.shard_count as u64) + t1_8;
    let t1_6 = enc_bytes(f1.owner@) + t1_7;
    let t1_5 = enc_bytes(f1.signature@) + t1_6;
    let t1_4 = spec_u32_to_le_bytes(f1.checksum) + t1_5;
    let t1_3 = spec_u128_to_le_bytes(f1.creation_date) + t1_4;
    let t1_2 = enc_bytes(f1.id@) + t1_3;
    let t1_1 = enc_bytes(encode_utf8(f1.filename@)) + t1_2;
    let t2_14 = enc_peer_list(f2.shards@);
    let t2_13 = spec_u64_to_le_bytes(f2.shards@.len() as u64) + t2_14;
    let t2_12 = enc_usize_list(f2.shard_config.sizes@) + t2_13;
    let t2_11 = spec_u64_to_le_bytes(f2.shard_config.sizes@.len() as u64) + t2_12;
    let t2_10 = enc_bool(f2.shard_config.encrypt) + t2_11;
    let t2_9 = enc_bool(f2.shard_config.compress) + t2_10;
    let t2_8 = enc_bytes(f2.shard_config.pub_key@) + t2_9;
    let t2_7 = spec_u64_to_le_bytes(f2.shard_config.shard_count as u64) + t2_8;
    let t2_6 = enc_bytes(f2.owner@) + t2_7;
    let t2_5 = enc_bytes(f2.signature@) + t2_6;
    let t2_4 = spec_u32_to_le_bytes(f2.checksum) + t2_5;
    let t2_3 = spec_u128_to_le_bytes(f2.creation_date) + t2_4;
    let t2_2 = enc_bytes(f2.id@) + t2_3;
    let t2_1 = enc_bytes(encode_utf8(f2.filename@)) + t2_2;
    assert(f1.spec_encoding() == t1_1);
    assert(f2.spec_encoding() == t2_1);
    assert(t1_1 == t2_1);
    crate::codec::lemma_enc_bytes_prefix(encode_utf8(f1.filename@), encode_utf8(f2.filename@), t1_2, t2_2);
    crate::codec::lemma_enc_bytes_prefix(f1.id@, f2.id@, t1_3, t2_3);
    crate::codec::lemma_concat_prefix(spec_u128_to_le_bytes(f1.creation_date), spec_u128_to_le_bytes(f2.creation_date), t1_4, t2_4);
    crate::codec::lemma_concat_prefix(spec_u32_to_le_bytes(f1.checksum), spec_u32_to_le_bytes(f2.checksum), t1_5, t2_5);
    crate::codec::lemma_enc_bytes_prefix(f1.signature@, f2.signature@, t1_6, t2_6);
    crate::codec::lemma_enc_bytes_prefix(f1.owner@, f2.owner@, t1_7, t2_7);
    crate::codec::lemma_concat_prefix(spec_u64_to_le_bytes(f1.shard_config.shard_count as u64), spec_u64_to_le_bytes(f2.shard_config.shard_count as u64), t1_8, t2_8);
    crate::codec::lemma_enc_bytes_prefix(f1.shard_config.pub_key@, f2.shard_config.pub_key@, t1_9, t2_9);
    crate::codec::lemma_concat_prefix(enc_bool(f1.shard_config.compress), enc_bool(f2.shard_config.compress), t1_10, t2_10);
    assert(enc_bool(f1.shard_config.compress)[0] == enc_bool(f2.shard_config.compress)[0]);
    assert(f1.shard_config.compress == f2.shard_config.compress);
    crate::codec::lemma_concat_prefix(enc_bool(f1.shard_config.encrypt), enc_bool(f2.shard_config.encrypt), t1_11, t2_11);
    assert(enc_bool(f1.shard_config.encrypt)[0] == enc_bool(f2.shard_config.encrypt)[0]);
    assert(f1.shard_config.encrypt == f2.shard_config.encrypt);
    crate::codec::lemma_concat_prefix(spec_u64_to_le_bytes(f1.shard_config.sizes@.len() as u64), spec_u64_to_le_bytes(f2.shard_config.sizes@.len() as u64), t1_12, t2_12);
    lemma_enc_usize_len(f1.shard_config.sizes@);
    lemma_enc_usize_len(f2.shard_config.sizes@);
    crate::codec::lemma_concat_prefix(enc_usize_list(f1.shard_config.sizes@), enc_usize_list(f2.shard_config.sizes@), t1_13, t2_13);
    lemma_enc_usize_injective(f1.shard_config.sizes@, f2.shard_config.sizes@);
    crate::codec::lemma_concat_prefix(spec_u64_to_le_bytes(f1.shards@.len() as u64), spec_u64_to_le_bytes(f2.shards@.len() as u64), t1_14, t2_14);
    lemma_enc_peer_injective(f1.shards@, f2.shards@);
    vstd::utf8::encode_utf8_decode_utf8(f1.filename@);
    vstd::utf8::encode_utf8_decode_utf8(f2.filename@);
}

/// Read `n` eight-byte sizes at `pos`. Succeeds on the encoding of any
/// list of `n` sizes that fits the buffer there; whatever it reads is
/// the encoding it consumed.
fn read_usize_list(buf: &[u8], pos: usize, n: usize) -> (r: Option<(Vec<usize>, usize)>)
    requires
        pos <= buf@.len(),
    ensures
        match r {
            Some((v, p2)) => {
                &&& v@.len() == n
                &&& pos <= p2 <= buf@.len()
                &&& p2 == pos + 8 * n
                &&& buf@.subrange(pos as int, p2 as int) == enc_usize_list(v@)
            },
            None => forall|l: Seq<usize>|
                l.len() == n && pos + 8 * n <= buf@.len() ==> buf@.subrange(pos as int, pos + 8 * n)
                    != enc_usize_list(l),
        },
    decreases n,
{
    if n == 0 {
        let v: Vec<usize> = Vec::new();
        proof {
            assert(buf@.subrange(pos as int, pos as int) =~= enc_usize_list(v@));
        }
        return Some((v, pos));
    }
    let (x, p1) = match read_u64(buf, pos) {
        Some(t) => t,
        None => {
            return None;
        },
    };
    if x > usize::MAX as u64 {
        proof {
            vstd::bytes::lemma_auto_spec_u64_to_from_le_bytes();
            assert forall|l: Seq<usize>|
                l.len() == n && pos + 8 * n <= buf@.len() implies buf@.subrange(
                pos as int,
                pos + 8 * n,
            ) != enc_usize_list(l) by {
                if buf@.subrange(pos as int, pos + 8 * n) == enc_usize_list(l) {
                    lemma_enc_usize_first(l);
                    lemma_enc_usize_len(l.drop_first());
                    assert(buf@.subrange(pos as int, p1 as int) =~= spec_u64_to_le_bytes(
                        l[0] as u64,
                    ));
                    assert(x == l[0] as u64);
                }
            }
        }
        return None;
    }
    let rest = match read_usize_list(buf, p1, n - 1) {
        Some(t) => t,
        None => {
            proof {
                vstd::bytes::lemma_auto_spec_u64_to_from_le_bytes();
                assert forall|l: Seq<usize>|
                    l.len() == n && pos + 8 * n <= buf@.len() implies buf@.subrange(
                    pos as int,
                    pos + 8 * n,
                ) != enc_usize_list(l) by {
                    if buf@.subrange(pos as int, pos + 8 * n) == enc_usize_list(l) {
                        lemma_enc_usize_first(l);
                        lemma_enc_usize_len(l);
                        lemma_enc_usize_len(l.drop_first());
                        assert(buf@.subrange(pos as int, pos + 8 * n) == spec_u64_to_le_bytes(
                            l[0] as u64,
                        ) + enc_usize_list(l.drop_first()));
                        assert forall|j: int|
                            0 <= j < 8 * (n - 1) implies buf@.subrange(
                            p1 as int,
                            p1 + 8 * (n - 1),
                        )[j] == enc_usize_list(l.drop_first())[j] by {
                            assert(buf@.subrange(pos as int, pos + 8 * n)[8 + j]
                                == (spec_u64_to_le_bytes(l[0] as u64) + enc_usize_list(
                                l.drop_first(),
                            ))[8 + j]);
                        }
                        assert(buf@.subrange(p1 as int, p1 + 8 * (n - 1)) =~= enc_usize_list(
                            l.drop_first(),
                        ));
                    }
                }
            }
            return None;
        },
    };
    let (mut v, p2) = rest;
    let ghost old_v = v@;
    v.insert(0, x as usize);
    proof {
        vstd::bytes::lemma_auto_spec_u64_to_from_le_bytes();
        assert(v@.drop_first() =~= old_v);
        assert(v@[0] == x as usize);
        lemma_enc_usize_first(v@);
        assert(buf@.subrange(pos as int, p2 as int) =~= buf@.subrange(pos as int, p1 as int)
            + buf@.subrange(p1 as int, p2 as int));
        assert(buf@.subrange(pos as int, p2 as int) =~= enc_usize_list(v@));
    }
    Some((v, p2))
}

/// Read `n` length-prefixed peer identities at `pos`. Succeeds where the
/// encoding of any list of `n` identities sits there; whatever it reads
/// is the encoding it consumed.
fn read_peer_list(buf: &[u8], pos: usize, n: usize) -> (r: Option<(Vec<Vec<u8>>, usize)>)
    requires
        pos <= buf@.len(),
    ensures
        match r {
            Some((v, p2)) => {
                &&& v@.len() == n
                &&& pos <= p2 <= buf@.len()
                &&& buf@.subrange(pos as int, p2 as int) == enc_peer_list(v@)
                &&& peers_encodable(v@)
            },
            None => forall|l: Seq<Vec<u8>>|
                !(l.len() == n && peers_encodable(l) && pos + enc_peer_list(l).len() <= buf@.len()
                    && buf@.subrange(pos as int, pos + enc_peer_list(l).len() as int)
                    == #[trigger] enc_peer_list(l)),
        },
    decreases n,
{
    if n == 0 {
        let v: Vec<Vec<u8>> = Vec::new();
        proof {
            assert(buf@.subrange(pos as int, pos as int) =~= enc_peer_list(v@));
        }
        return Some((v, pos));
    }
    let (peer, p1) = match read_len_bytes(buf, pos) {
        Some(t) => t,
        None => {
            proof {
                vstd::bytes::lemma_auto_spec_u64_to_from_le_bytes();
                assert forall|l: Seq<Vec<u8>>|
                    !(l.len() == n && peers_encodable(l) && pos + enc_peer_list(l).len()
                        <= buf@.len() && buf@.subrange(
                        pos as int,
                        pos + enc_peer_list(l).len() as int,
                    ) == #[trigger] enc_peer_list(l)) by {
                    if l.len() == n && peers_encodable(l) && pos + enc_peer_list(l).len()
                        <= buf@.len() && buf@.subrange(
                        pos as int,
                        pos + enc_peer_list(l).len() as int,
                    ) == enc_peer_list(l) {
                        lemma_enc_peer_first(l);
                        assert(l[0]@.len() <= usize::MAX);
                        assert(buf@.subrange(pos as int, pos + 8) =~= spec_u64_to_le_bytes(
                            l[0]@.len() as u64,
                        ));
                    }
                }
            }
            return None;
        },
    };
    let ghost head = peer@;
    let rest = match read_peer_list(buf, p1, n - 1) {
        Some(t) => t,
        None => {
            proof {
                vstd::bytes::lemma_auto_spec_u64_to_from_le_bytes();
                assert(head.len() + 8 == p1 - pos) by {
                    assert(buf@.subrange(pos as int, p1 as int).len() == p1 - pos);
                    assert(spec_u64_to_le_bytes(head.len() as u64).len() == 8);
                }
                assert forall|l: Seq<Vec<u8>>|
                    !(l.len() == n && peers_encodable(l) && pos + enc_peer_list(l).len()
                        <= buf@.len() && buf@.subrange(
                        pos as int,
                        pos + enc_peer_list(l).len() as int,
                    ) == #[trigger] enc_peer_list(l)) by {
                    if l.len() == n && peers_encodable(l) && pos + enc_peer_list(l).len()
                        <= buf@.len() && buf@.subrange(
                        pos as int,
                        pos + enc_peer_list(l).len() as int,
                    ) == enc_peer_list(l) {
                        lemma_enc_peer_first(l);
                        let e = pos + enc_peer_list(l).len() as int;
                        assert(enc_peer_list(l).len() == 8 + l[0]@.len() + enc_peer_list(
                            l.drop_first(),
                        ).len()) by {
                            assert(spec_u64_to_le_bytes(l[0]@.len() as u64).len() == 8);
                        }
                        assert(buf@.subrange(pos as int, pos + 8) =~= spec_u64_to_le_bytes(
                            l[0]@.len() as u64,
                        ));
                        assert(buf@.subrange(pos as int, pos + 8) =~= spec_u64_to_le_bytes(
                            head.len() as u64,
                        ));
                        assert(l[0]@.len() == head.len());
                        assert(buf@.subrange(pos as int, e) =~= buf@.subrange(pos as int, p1 as int)
                            + buf@.subrange(p1 as int, e));
                        crate::codec::lemma_enc_bytes_prefix(
                            head,
                            l[0]@,
                            buf@.subrange(p1 as int, e),
                            enc_peer_list(l.drop_first()),
                        );
                        assert(peers_encodable(l.drop_first())) by {
                            assert forall|i: int|
                                0 <= i < l.drop_first().len() implies (
                            #[trigger] l.drop_first()[i])@.len() <= usize::MAX by {
                                assert(l.drop_first()[i] == l[i + 1]);
                            }
                        }
                        assert(buf@.subrange(
                            p1 as int,
                            p1 + enc_peer_list(l.drop_first()).len() as int,
                        ) =~= enc_peer_list(l.drop_first()));
                    }
                }
            }
            return None;
        },
    };
    let (mut v, p2) = rest;
    let ghost old_v = v@;
    v.insert(0, peer);
    proof {
        assert(v@.drop_first() =~= old_v);
        assert(v@[0]@ == head);
        lemma_enc_peer_first(v@);
        assert(head.len() + 8 == p1 - pos) by {
            vstd::bytes::lemma_auto_spec_u64_to_from_le_bytes();
            assert(buf@.subrange(pos as int, p1 as int).len() == p1 - pos);
            assert(spec_u64_to_le_bytes(head.len() as u64).len() == 8);
        }
        assert(peers_encodable(v@)) by {
            assert forall|i: int|
                0 <= i < v@.len() implies (#[trigger] v@[i])@.len() <= usize::MAX by {
                if i > 0 {
                    assert(v@[i] == old_v[i - 1]);
                }
            }
        }
        assert(buf@.subrange(pos as int, p2 as int) =~= buf@.subrange(pos as int, p1 as int)
            + buf@.subrange(p1 as int, p2 as int));
        assert(buf@.subrange(pos as int, p2 as int) =~= enc_peer_list(v@));
    }
    Some((v, p2))
}

/// The structure representing a file on the network. It carries
/// validation metadata about the file, but not the file's data; that
/// data lives in shards among the peers named in the `shards` field.
#[derive(Debug)]
pub struct File {
    /// The name of the file.
    pub filename: String,
    /// A hash of the file name, bytes, and an additional salt (the
    /// creation timestamp).
    pub id: FileID,
    /// The date of creation.
    pub creation_date: u128,
    /// A checksum of the raw, unencrypted bytes of the file.
    pub checksum: u32,
    /// Ed25519 digital signature of the entire file structure followed
    /// by the file's raw bytes. While it is calculated, this field is
    /// empty.
    pub signature: Vec<u8>,
    /// The signing identity of the original owner of the file.
    pub owner: Vec<u8>,
    /// The configuration of the shards.
    pub shard_config: ShardConfig,
    /// The identities of the peers expected to hold each shard.
    pub shards: Vec<Vec<u8>>,
}

impl File {
    /// The canonical serialized form of the file, with the signature
    /// and peer-assignment fields replaced by the values given: every
    /// field in a fixed order, byte strings length-prefixed, integers
    /// little-endian.
    pub open spec fn spec_encoding_parts(&self, signature: Seq<u8>, shards: Seq<Vec<u8>>) -> Seq<
        u8,
    > {
        enc_bytes(encode_utf8(self.filename@)) + (enc_bytes(self.id@) + (spec_u128_to_le_bytes(
            self.creation_date,
        ) + (spec_u32_to_le_bytes(self.checksum) + (enc_bytes(signature) + (enc_bytes(self.owner@)
            + (spec_u64_to_le_bytes(self.shard_config.shard_count as u64) + (enc_bytes(
            self.shard_config.pub_key@,
        ) + (enc_bool(self.shard_config.compress) + (enc_bool(self.shard_config.encrypt)
            + (spec_u64_to_le_bytes(self.shard_config.sizes@.len() as u64) + (enc_usize_list(
            self.shard_config.sizes@,
        ) + (spec_u64_to_le_bytes(shards.len() as u64) + enc_peer_list(shards)))))))))))))
    }

    /// The canonical serialized form of the file as it stands.
    pub open spec fn spec_encoding(&self) -> Seq<u8> {
        self.spec_encoding_parts(self.signature@, self.shards@)
    }

    /// The message the owner signs: the file's serialized form with an
    /// empty signature field and an empty peer assignment, followed by
    /// the file's raw bytes. The peer assignment is routing information
    /// filled in after signing, so it stays outside the signature.
    pub open spec fn spec_sig_message(&self, data: Seq<u8>) -> Seq<u8> {
        self.spec_encoding_parts(Seq::empty(), Seq::empty()) + data
    }

    /// Serialize the file with the signature and peer-assignment fields
    /// replaced by the values given.
    #[verifier::rlimit(100)]
    #[verifier::spinoff_prover]
    fn to_bytes_with(&self, signature: &Vec<u8>, shards: &Vec<Vec<u8>>) -> (r: Vec<u8>)
        ensures
            r@ == self.spec_encoding_parts(signature@, shards@),
    {
        let mut out: Vec<u8> = Vec::new();
        push_len_bytes(&mut out, self.filename.as_str().as_bytes());
        push_len_bytes(&mut out, self.id.id.as_slice());
        push_u128(&mut out, self.creation_date);
        push_u32(&mut out, self.checksum);
        push_len_bytes(&mut out, signature.as_slice());
        push_len_bytes(&mut out, self.owner.as_slice());
        push_u64(&mut out, self.shard_config.shard_count as u64);
        push_len_bytes(&mut out, self.shard_config.pub_key.to_bytes().as_slice());
        push_bool(&mut out, self.shard_config.compress);
        push_bool(&mut out, self.shard_config.encrypt);
        push_u64(&mut out, self.shard_config.sizes.len() as u64);
        let mut i: usize = 0;
        let ghost mid = out@;
        while i < self.shard_config.sizes.len()
            invariant
                i <= self.shard_config.sizes@.len(),
                out@ == mid + enc_usize_list(self.shard_config.sizes@.take(i as int)),
            decreases self.shard_config.sizes@.len() - i,
        {
            proof {
                lemma_enc_usize_take_succ(self.shard_config.sizes@, i as int);
            }
            push_u64(&mut out, self.shard_config.sizes[i] as u64);
            i = i + 1;
        }
        proof {
            assert(self.shard_config.sizes@.take(self.shard_config.sizes@.len() as int)
                =~= self.shard_config.sizes@);
        }
        push_u64(&mut out, shards.len() as u64);
        let mut j: usize = 0;
        let ghost mid2 = out@;
        while j < shards.len()
            invariant
                j <= shards@.len(),
                out@ == mid2 + enc_peer_list(shards@.take(j as int)),
            decreases shards@.len() - j,
        {
            proof {
                lemma_enc_peer_take_succ(shards@, j as int);
            }
            push_len_bytes(&mut out, shards[j].as_slice());
            j = j + 1;
        }
        proof {
            assert(shards@.take(shards@.len() as int) =~= shards@);
            // Regroup the appended pieces from the right to match the
            // declared form of the encoding.
            let a1 = enc_bytes(encode_utf8(self.filename@));
            let a2 = enc_bytes(self.id@);
            let a3 = spec_u128_to_le_bytes(self.creation_date);
            let a4 = spec_u32_to_le_bytes(self.checksum);
            let a5 = enc_bytes(signature@);
            let a6 = enc_bytes(self.owner@);
            let a7 = spec_u64_to_le_bytes(self.shard_config.shard_count as u64);
            let a8 = enc_bytes(self.shard_config.pub_key@);
            let a9 = enc_bool(self.shard_config.compress);
            let a10 = enc_bool(self.shard_config.encrypt);
            let a11 = spec_u64_to_le_bytes(self.shard_config.sizes@.len() as u64);
            let a12 = enc_usize_list(self.shard_config.sizes@);
            let a13 = spec_u64_to_le_bytes(shards@.len() as u64);
            let a14 = enc_peer_list(shards@);
            let l1 = a1;
            let l2 = l1 + a2;
            let l3 = l2 + a3;
            let l4 = l3 + a4;
            let l5 = l4 + a5;
            let l6 = l5 + a6;
            let l7 = l6 + a7;
            let l8 = l7 + a8;
            let l9 = l8 + a9;
            let l10 = l9 + a10;
            let l11 = l10 + a11;
            let l12 = l11 + a12;
            let l13 = l12 + a13;
            let r14 = a14;
            let r13 = a13 + r14;
            let r12 = a12 + r13;
            let r11 = a11 + r12;
            let r10 = a10 + r11;
            let r9 = a9 + r10;
            let r8 = a8 + r9;
            let r7 = a7 + r8;
            let r6 = a6 + r7;
            let r5 = a5 + r6;
            let r4 = a4 + r5;
            let r3 = a3 + r4;
            let r2 = a2 + r3;
            let r1 = a1 + r2;
            assert(out@ == l13 + a14);
            vstd::seq_lib::lemma_concat_associative(l12, a13, r14);
            vstd::seq_lib::lemma_concat_associative(l11, a12, r13);
            vstd::seq_lib::lemma_concat_associative(l10, a11, r12);
            vstd::seq_lib::lemma_concat_associative(l9, a10, r11);
            vstd::seq_lib::lemma_concat_associative(l8, a9, r10);
            vstd::seq_lib::lemma_concat_associative(l7, a8, r9);
            vstd::seq_lib::lemma_concat_associative(l6, a7, r8);
            vstd::seq_lib::lemma_concat_associative(l5, a6, r7);
            vstd::seq_lib::lemma_concat_associative(l4, a5, r6);
            vstd::seq_lib::lemma_concat_associative(l3, a4, r5);
            vstd::seq_lib::lemma_concat_associative(l2, a3, r4);
            vstd::seq_lib::lemma_concat_associative(l1, a2, r3);
            assert(out@ == r1);
            assert(self.spec_encoding_parts(signature@, shards@) == r1);
        }
        out
    }

    /// Serialize the file into its canonical byte form, the form that is
    /// both signed and written into the DHT.
    pub fn to_bytes(&self) -> (r: Vec<u8>)
        ensures
            r@ == self.spec_encoding(),
    {
        let sig = slice_to_vec(self.signature.as_slice());
        self.to_bytes_with(&sig, &self.shards)
    }

    /// Parse a file back from its canonical byte form. Succeeds on the
    /// serialized form of every file, and whatever it accepts is the
    /// canonical form of the file it returns.
    #[verifier::rlimit(100)]
    #[verifier::spinoff_prover]
    pub fn from_bytes(bytes: &Vec<u8>) -> (r: Option<File>)
        ensures
            r matches Some(f) ==> f.spec_encoding() == bytes@ && f.encodable(),
            r is None ==> forall|f: File| f.encodable() ==> f.spec_encoding() != bytes@,
    {
        let buf = bytes.as_slice();
        let h = match read_file_header(buf) {
            Some(v) => v,
            None => {
                return None;
            },
        };
        let ghost h0 = h;
        let p8 = h.end;
        let (compress, p9) = match read_bool(buf, p8) {
            Some(v) => v,
            None => {
                proof {
                    assert forall|f: File| f.encodable() implies f.spec_encoding() != bytes@ by {
                        if f.spec_encoding() == bytes@ {
                            lemma_file_encoding_shape(bytes@, f);
                            lemma_file_header_match(bytes@, f, h0);
                            assert(bytes@.subrange(p8 as int, p8 + 1) == enc_bool(
                                f.shard_config.compress,
                            ));
                            assert(bytes@[p8 as int] == enc_bool(f.shard_config.compress)[0]);
                        }
                    }
                }
                return None;
            },
        };
        let (encrypt, p10) = match read_bool(buf, p9) {
            Some(v) => v,
            None => {
                proof {
                    assert forall|f: File| f.encodable() implies f.spec_encoding() != bytes@ by {
                        if f.spec_encoding() == bytes@ {
                            lemma_file_encoding_shape(bytes@, f);
                            lemma_file_header_match(bytes@, f, h0);
                            assert(bytes@.subrange(p9 as int, p9 + 1) == enc_bool(
                                f.shard_config.encrypt,
                            ));
                            assert(bytes@[p9 as int] == enc_bool(f.shard_config.encrypt)[0]);
                        }
                    }
                }
                return None;
            },
        };
        let (sizes_len64, p11) = match read_u64(buf, p10) {
            Some(v) => v,
            None => {
                proof {
                    assert forall|f: File| f.encodable() implies f.spec_encoding() != bytes@ by {
                        if f.spec_encoding() == bytes@ {
                            lemma_file_encoding_shape(bytes@, f);
                            lemma_file_header_match(bytes@, f, h0);
                        }
                    }
                }
                return None;
            },
        };
        if sizes_len64 > usize::MAX as u64 {
            proof {
                assert forall|f: File| f.encodable() implies f.spec_encoding() != bytes@ by {
                    if f.spec_encoding() == bytes@ {
                        lemma_file_encoding_shape(bytes@, f);
                        lemma_file_header_match(bytes@, f, h0);
                        vstd::bytes::lemma_auto_spec_u64_to_from_le_bytes();
                        assert(sizes_len64 == f.shard_config.sizes@.len() as u64);
                    }
                }
            }
            return None;
        }
        let n_sizes = sizes_len64 as usize;
        let (sizes, p12) = match read_usize_list(buf, p11, n_sizes) {
            Some(v) => v,
            None => {
                proof {
                    assert forall|f: File| f.encodable() implies f.spec_encoding() != bytes@ by {
                        if f.spec_encoding() == bytes@ {
                            lemma_file_encoding_shape(bytes@, f);
                            lemma_file_header_match(bytes@, f, h0);
                            vstd::bytes::lemma_auto_spec_u64_to_from_le_bytes();
                            lemma_enc_usize_len(f.shard_config.sizes@);
                            assert(sizes_len64 == f.shard_config.sizes@.len() as u64);
                            assert(f.shard_config.sizes@.len() == n_sizes);
                        }
                    }
                }
                return None;
            },
        };
        let (peers_len64, p13) = match read_u64(buf, p12) {
            Some(v) => v,
            None => {
                proof {
                    assert forall|f: File| f.encodable() implies f.spec_encoding() != bytes@ by {
                        if f.spec_encoding() == bytes@ {
                            lemma_file_encoding_shape(bytes@, f);
                            lemma_file_header_match(bytes@, f, h0);
                            vstd::bytes::lemma_auto_spec_u64_to_from_le_bytes();
                            lemma_enc_usize_len(f.shard_config.sizes@);
                            assert(sizes_len64 == f.shard_config.sizes@.len() as u64);
                        }
                    }
                }
                return None;
            },
        };
        if peers_len64 > usize::MAX as u64 {
            proof {
                assert forall|f: File| f.encodable() implies f.spec_encoding() != bytes@ by {
                    if f.spec_encoding() == bytes@ {
                        lemma_file_encoding_shape(bytes@, f);
                        lemma_file_header_match(bytes@, f, h0);
                        vstd::bytes::lemma_auto_spec_u64_to_from_le_bytes();
                        lemma_enc_usize_len(f.shard_config.sizes@);
                        assert(sizes_len64 == f.shard_config.sizes@.len() as u64);
                        assert(peers_len64 == f.shards@.len() as u64);
                    }
                }
            }
            return None;
        }
        let n_peers = peers_len64 as usize;
        let (peers, pos2) = match read_peer_list(buf, p13, n_peers) {
            Some(v) => v,
            None => {
                proof {
                    assert forall|f: File| f.encodable() implies f.spec_encoding() != bytes@ by {
                        if f.spec_encoding() == bytes@ {
                            lemma_file_encoding_shape(bytes@, f);
                            lemma_file_header_match(bytes@, f, h0);
                            vstd::bytes::lemma_auto_spec_u64_to_from_le_bytes();
                            lemma_enc_usize_len(f.shard_config.sizes@);
                            assert(sizes_len64 == f.shard_config.sizes@.len() as u64);
                            assert(peers_len64 == f.shards@.len() as u64);
                            assert(f.shards@.len() == n_peers);
                            assert(bytes@.subrange(p13 as int, p13 + enc_peer_list(f.shards@).len() as int) =~= enc_peer_list(f.shards@));
                        }
                    }
                }
                return None;
            },
        };
        if pos2 != buf.len() {
            proof {
                assert forall|f: File| f.encodable() implies f.spec_encoding() != bytes@ by {
                    if f.spec_encoding() == bytes@ {
                        lemma_file_encoding_shape(bytes@, f);
                        lemma_file_header_match(bytes@, f, h0);
                        vstd::bytes::lemma_auto_spec_u64_to_from_le_bytes();
                        lemma_enc_usize_len(f.shard_config.sizes@);
                        assert(sizes_len64 == f.shard_config.sizes@.len() as u64);
                        assert(peers_len64 == f.shards@.len() as u64);
                        assert(bytes@.skip(p13 as int) =~= enc_peer_list(f.shards@));
                        assert(bytes@.skip(p13 as int) =~= bytes@.subrange(p13 as int, pos2 as int) + bytes@.skip(pos2 as int));
                        lemma_enc_peer_prefix_free(peers@, f.shards@, bytes@.skip(pos2 as int), Seq::empty());
                        assert(bytes@.skip(pos2 as int).len() == 0);
                    }
                }
            }
            return None;
        }
        let file = File {
            filename: h.filename,
            id: FileID { id: h.id_bytes },
            creation_date: h.creation_date,
            checksum: h.checksum,
            signature: h.signature,
            owner: h.owner,
            shard_config: ShardConfig {
                shard_count: h.shard_count,
                pub_key: h.pub_key,
                compress,
                encrypt,
                sizes,
            },
            shards: peers,
        };
        proof {
            assert(h0.spec_encoding() == enc_bytes(encode_utf8(file.filename@)) + (enc_bytes(
                file.id@,
            ) + (spec_u128_to_le_bytes(file.creation_date) + (spec_u32_to_le_bytes(file.checksum)
                + (enc_bytes(file.signature@) + (enc_bytes(file.owner@) + (spec_u64_to_le_bytes(
                file.shard_config.shard_count as u64,
            ) + enc_bytes(file.shard_config.pub_key@))))))));
            lemma_file_reassemble(
                bytes@,
                file,
                p8 as int,
                p9 as int,
                p10 as int,
                p11 as int,
                p12 as int,
                p13 as int,
                pos2 as int,
            );
            assert(file.encodable());
        }
        Some(file)
    }

    /// Generate the metadata of a `File` from its raw bytes. This does
    /// not distribute the file: it pre-calculates the shards without
    /// assigning them to any peer, and returns the File structure
    /// (destined for the DHT) together with the sharded data.
    ///
    /// The file identifier is salted with the creation time; the
    /// checksum covers the raw, unencrypted bytes; the signature is
    /// computed by the owner's signing identity over the serialized
    /// File (with an empty signature field) followed by the raw bytes.
    pub fn new(bytes: &Vec<u8>, filename: &str, config: ShardConfig, priv_key: &SecretKey) -> (r:
        Result<(File, Vec<Shard>), FileError>)
        requires
            priv_key.wf(),
            config.pub_key.wf(),
        ensures
            match r {
                Ok((file, shards)) => {
                    &&& file.filename@ == filename@
                    &&& file.id@ == hash_of(
                        FileID::digest_input(filename@, bytes@, file.creation_date),
                    )
                    &&& file.checksum == crc32_of(bytes@)
                    &&& file.owner@ == sign_public_of(priv_key@)
                    &&& file.shards@.len() == 0
                    &&& shards_wf(shards@)
                    &&& shards_ordered(shards@)
                    &&& file.shard_config.shard_count == shards@.len()
                    &&& file.shard_config.sizes@.len() == shards@.len()
                    &&& shards@.len() == config.shard_count
                    &&& file.shard_config.pub_key@ == config.pub_key@
                    &&& file.shard_config.compress == config.compress
                    &&& file.shard_config.encrypt == config.encrypt
                    &&& forall|i: int|
                        0 <= i < shards@.len() ==> (#[trigger] shards@[i]).data@.len()
                            == file.shard_config.sizes@[i]
                    &&& if config.encrypt {
                        forall|sk: Seq<u8>|
                            crate::crypto::public_of(sk) == config.pub_key@
                                ==> #[trigger] spec_decrypt(sk, concat_data(shards@)) == Some(
                                bytes@,
                            )
                    } else {
                        concat_data(shards@) == bytes@
                    }
                    &&& file.signature@ == sign_of(
                        priv_key@,
                        file.owner@,
                        file.spec_sig_message(bytes@),
                    )
                    &&& sig_valid(file.owner@, file.spec_sig_message(bytes@), file.signature@)
                    &&& file.encodable()
                    &&& 0 < config.shard_count <= u32::MAX
                    &&& !config.encrypt ==> config.shard_count <= bytes@.len()
                },
                Err(e) => {
                    &&& e is ClockError || e is Sharding
                    &&& (!config.encrypt && 0 < config.shard_count <= bytes@.len()
                        && config.shard_count <= u32::MAX) ==> (e is ClockError || (e matches
                        FileError::Sharding(se) && se is ClockError))
                },
            },
    {
        // Generate a file id and get the time of hashing.
        let (file_id, hash_date) = match FileID::new(filename, bytes) {
            Ok(v) => v,
            Err(e) => {
                return Err(e);
            },
        };
        // Derive the signing identity bound into the file as its owner.
        let owner = derive_sign_public_key(priv_key);
        // Calculate the actual shards.
        let (shards, new_config) = match Shard::shard(bytes, config) {
            Ok(v) => v,
            Err(e) => {
                return Err(FileError::Sharding(e));
            },
        };
        // Construct the file, with an empty signature for now so that the
        // entire structure can be signed.
        let mut file = File {
            filename: filename.to_owned(),
            id: file_id,
            creation_date: hash_date,
            checksum: crc32_bytes(bytes),
            signature: Vec::new(),
            owner,
            shard_config: new_config,
            shards: Vec::new(),  // Empty: the network assigns the peers.
        };
        // Calculate the digital signature of the file and the file bytes.
        let empty_sig: Vec<u8> = Vec::new();
        let empty_peers: Vec<Vec<u8>> = Vec::new();
        let mut sig_data = file.to_bytes_with(&empty_sig, &empty_peers);
        proof {
            assert(empty_peers@ =~= Seq::<Vec<u8>>::empty());
        }
        push_bytes(&mut sig_data, bytes.as_slice());
        let signature = match sign_bytes(priv_key, &file.owner, &sig_data) {
            Ok(s) => s,
            Err(e) => {
                // The signing key always parses: its public half is the
                // validly derived one, so this arm is unreachable.
                return Err(FileError::Crypto(e));
            },
        };
        let _signature_len: usize = signature.len();
        let _name_len: usize = filename.as_bytes().len();
        file.signature = signature;
        proof {
            assert(peers_encodable(file.shards@));
            assert(file.encodable());
        }
        Ok((file, shards))
    }

    /// The spec-level view of an optional secret key.
    pub open spec fn key_view(key: Option<&SecretKey>) -> Option<Seq<u8>> {
        match key {
            Some(k) => Some(k@),
            None => None,
        }
    }

    /// The payload a shard set yields under a configuration: the shards
    /// reassembled in order, then decrypted where the configuration says
    /// the payload was encrypted.
    pub open spec fn spec_payload(shards: Seq<Shard>, encrypt: bool, key: Option<Seq<u8>>) -> Option<
        Seq<u8>,
    > {
        match spec_reassemble(shards) {
            None => None,
            Some(d) => if !encrypt {
                Some(d)
            } else {
                match key {
                    None => None,
                    Some(k) => spec_decrypt(k, d),
                }
            },
        }
    }

    /// A file is valid against a shard set exactly when the shards
    /// reassemble (and decrypt), the checksum of the recovered bytes
    /// matches, the identifier matches the name, bytes and creation
    /// date, and the signature verifies under the owner's identity over
    /// the serialized file and the recovered bytes.
    pub open spec fn spec_valid(&self, shards: Seq<Shard>, key: Option<Seq<u8>>) -> bool {
        match Self::spec_payload(shards, self.shard_config.encrypt, key) {
            None => false,
            Some(data) => {
                &&& crc32_of(data) == self.checksum
                &&& self.id@ == hash_of(
                    FileID::digest_input(self.filename@, data, self.creation_date),
                )
                &&& sig_valid(self.owner@, self.spec_sig_message(data), self.signature@)
            },
        }
    }

    /// Check that a file is valid against some shards: reconstruct them,
    /// then check the checksum, the file identifier and the digital
    /// signature. Any failing step makes the whole check false.
    pub fn is_valid(&self, shards: &Vec<Shard>, priv_key: Option<&SecretKey>) -> (r: bool)
        requires
            priv_key matches Some(k) ==> k.wf(),
        ensures
            r == self.spec_valid(shards@, Self::key_view(priv_key)),
    {
        // Reconstruct the shards.
        let data = match Shard::reconstruct(shards, &self.shard_config, priv_key) {
            Ok(d) => d,
            Err(_) => {
                return false;
            },
        };
        // Check the checksum.
        let checksum_ok = crc32_bytes(&data) == self.checksum;
        // Check the file id.
        let id_ok = self.id.matches(self.filename.as_str(), &data, self.creation_date);
        // Check the signature, over the file serialized with an empty
        // signature field (the form it was signed in) and the data.
        let empty_sig: Vec<u8> = Vec::new();
        let empty_peers: Vec<Vec<u8>> = Vec::new();
        let mut msg = self.to_bytes_with(&empty_sig, &empty_peers);
        proof {
            assert(empty_peers@ =~= Seq::<Vec<u8>>::empty());
        }
        push_bytes(&mut msg, data.as_slice());
        let sig_ok = verify_bytes(&self.owner, &msg, &self.signature);
        checksum_ok && id_ok && sig_ok
    }

    /// Record the peers expected to hold each shard.
    pub fn set_shards(&mut self, peers: &Vec<Vec<u8>>)
        ensures
            final(self).shards@.len() == peers@.len(),
            forall|i: int|
                0 <= i < peers@.len() ==> (#[trigger] final(self).shards@[i])@ == peers@[i]@,
            final(self).filename == old(self).filename,
            final(self).id == old(self).id,
            final(self).creation_date == old(self).creation_date,
            final(self).checksum == old(self).checksum,
            final(self).signature == old(self).signature,
            final(self).owner == old(self).owner,
            final(self).shard_config == old(self).shard_config,
    {
        let mut copied: Vec<Vec<u8>> = Vec::new();
        let mut i: usize = 0;
        while i < peers.len()
            invariant
                i <= peers@.len(),
                copied@.len() == i,
                forall|j: int| 0 <= j < i ==> (#[trigger] copied@[j])@ == peers@[j]@,
            decreases peers@.len() - i,
        {
            copied.push(slice_to_vec(peers[i].as_slice()));
            i = i + 1;
        }
        self.shards = copied;
    }

    /// The identities of the peers expected to hold each shard.
    pub fn shards(&self) -> (r: &Vec<Vec<u8>>)
        ensures
            r@ == self.shards@,
    {
        &self.shards
    }

    /// Serialize and encrypt the file under the given public key.
    pub fn encrypt(&self, key: &PublicKey) -> (r: Result<Vec<u8>, CryptoError>)
        requires
            key.wf(),
        ensures
            match r {
                Ok(ct) => forall|sk: Seq<u8>|
                    crate::crypto::public_of(sk) == key@ ==> #[trigger] spec_decrypt(sk, ct@)
                        == Some(self.spec_encoding()),
                Err(_) => true,
            },
    {
        let bytes = self.to_bytes();
        encrypt_bytes(key, &bytes)
    }

    /// Decrypt and parse a file from an encrypted serialized form.
    /// Succeeds exactly where the bytes decrypt under the key and the
    /// plaintext is the canonical form of a file.
    pub fn decrypt(bytes: Vec<u8>, key: SecretKey) -> (r: Result<File, CryptoError>)
        requires
            key.wf(),
        ensures
            match spec_decrypt(key@, bytes@) {
                None => r is Err,
                Some(d) => match r {
                    Ok(f) => f.spec_encoding() == d && f.encodable(),
                    Err(_) => forall|f2: File| f2.encodable() ==> f2.spec_encoding() != d,
                },
            },
    {
        let decrypted = match decrypt_bytes(&key, &bytes) {
            Ok(d) => d,
            Err(e) => {
                return Err(e);
            },
        };
        match File::from_bytes(&decrypted) {
            Some(f) => Ok(f),
            None => Err(CryptoError::SerializationError),
        }
    }
}

impl PartialEq for File {
    /// Two files are the same file when they carry the same name and
    /// the same content-derived identifier.
    fn eq(&self, other: &Self) -> (r: bool)
        ensures
            r == (self.filename@ == other.filename@ && self.id@ == other.id@),
    {
        self.filename == other.filename && crate::codec::bytes_eq(&self.id.id, &other.id.id)
    }
}

impl vstd::std_specs::cmp::PartialEqSpecImpl for File {
    open spec fn obeys_eq_spec() -> bool {
        true
    }

    open spec fn eq_spec(&self, other: &Self) -> bool {
        self.filename@ == other.filename@ && self.id@ == other.id@
    }
}


} // verus!
