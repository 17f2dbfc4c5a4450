//! The keys that packets are protected with.
use vstd::prelude::*;

use crate::error::Error;
use crate::primitives;
use crate::primitives::{aead_opened, aead_sealed, header_mask};
use crate::primitives::{hkdf_derived, hkdf_expanded};
use crate::wire::{be_bytes, lemma_be_bytes_len, numbers_are_written_big_endian};

verus! {

/// The length of an authentication tag.
pub const TAG_LEN: usize = 16;

/// The length of a nonce.
pub const NONCE_LEN: usize = 12;

/// The length of the sample of a packet that its header protection depends on.
pub const SAMPLE_LEN: usize = 16;

/// The nonce of a packet.
pub type Nonce = [u8; 12];

/// The mask that a packet's header is protected with.
pub type Mask = [u8; 5];

/// The ciphers that packets are protected with.
#[allow(non_camel_case_types)]
#[derive(Clone, Copy, Debug, PartialEq, Eq, Structural)]
pub enum Algorithm {
    AES128_GCM,
    AES256_GCM,
    ChaCha20_Poly1305,
}

impl Algorithm {
    pub open spec fn spec_key_len(self) -> nat {
        match self {
            Algorithm::AES128_GCM => 16,
            Algorithm::AES256_GCM => 32,
            Algorithm::ChaCha20_Poly1305 => 32,
        }
    }

    /// The length of a key.
    pub fn key_len(self) -> (res: usize)
        ensures
            res == self.spec_key_len(),
    {
        match self {
            Algorithm::AES128_GCM => 16,
            Algorithm::AES256_GCM => 32,
            Algorithm::ChaCha20_Poly1305 => 32,
        }
    }

    pub open spec fn spec_max_plain_len(self) -> int {
        match self {
            Algorithm::AES128_GCM | Algorithm::AES256_GCM => 16 * (0x1_0000_0000 - 2) - 1,
            Algorithm::ChaCha20_Poly1305 => 64 * (0x1_0000_0000 - 1),
        }
    }

    /// The length of the longest content that can be sealed in one packet. The
    /// cipher counts blocks in 32 bits and needs some of them for itself; of the
    /// last block that it can count for AES, one byte has to stay free.
    pub fn max_plain_len(self) -> (res: u64)
        ensures
            res == self.spec_max_plain_len(),
    {
        match self {
            Algorithm::AES128_GCM => 0xf_ffff_ffdf,
            Algorithm::AES256_GCM => 0xf_ffff_ffdf,
            Algorithm::ChaCha20_Poly1305 => 0x3f_ffff_ffc0,
        }
    }

    /// The number of bytes by which a sealed packet is longer than its content.
    pub fn tag_len(self) -> (res: usize)
        ensures
            res == TAG_LEN,
    {
        TAG_LEN
    }
}

/// The nonce of the packet with number `counter`: the bytes of the number, put
/// over the last eight of the initialization vector.
pub open spec fn packet_nonce(iv: Seq<u8>, counter: u64) -> Seq<u8> {
    Seq::new(
        NONCE_LEN as nat,
        |i: int|
            if i < 4 {
                iv[i]
            } else {
                iv[i] ^ be_bytes(counter as nat, 8)[i - 4]
            },
    )
}

/// The keys for one direction of a connection.
#[verifier::ext_equal]
pub struct Keys {
    pub alg: Algorithm,
    pub key: Seq<u8>,
    pub iv: Seq<u8>,
    pub hp_key: Seq<u8>,
}

impl Keys {
    /// Each key has the length that the algorithm asks for.
    pub open spec fn fit(self) -> bool {
        &&& self.key.len() == self.alg.spec_key_len()
        &&& self.iv.len() == NONCE_LEN
        &&& self.hp_key.len() == self.alg.spec_key_len()
    }

    /// The mask that protects the header of the packet that `sample` is from.
    pub open spec fn mask(self, sample: Seq<u8>) -> Seq<u8> {
        header_mask(self.alg, self.hp_key, sample)
    }

    /// What `plain` is sealed as in the packet with number `counter`.
    pub open spec fn sealed(self, counter: u64, ad: Seq<u8>, plain: Seq<u8>) -> Seq<u8> {
        aead_sealed(self.alg, self.key, packet_nonce(self.iv, counter), ad, plain)
    }

    /// What was sealed as `sealed` in the packet with number `counter`, if
    /// `sealed` is authentic. Nothing is that is longer than what can be sealed.
    pub open spec fn opened(self, counter: u64, ad: Seq<u8>, sealed: Seq<u8>) -> Option<Seq<u8>> {
        if sealed.len() > TAG_LEN + self.alg.spec_max_plain_len() {
            None
        } else {
            aead_opened(self.alg, self.key, packet_nonce(self.iv, counter), ad, sealed)
        }
    }
}

/// The nonce of the packet with number `counter`.
fn make_nonce(iv: &[u8], counter: u64) -> (res: Nonce)
    requires
        iv@.len() == NONCE_LEN,
    ensures
        res@ == packet_nonce(iv@, counter),
{
    let mut nonce: Nonce = [0; 12];
    let mut rest: u64 = counter;
    let mut i: usize = 12;
    let ghost bytes = be_bytes(counter as nat, 8);
    proof {
        lemma_be_bytes_len(counter as nat, 8);
        assert(bytes.skip(8) =~= Seq::empty());
        assert(bytes =~= be_bytes(rest as nat, 8) + bytes.skip(8));
    }
    while i > 4
        invariant
            4 <= i <= 12,
            iv@.len() == 12,
            bytes.len() == 8,
            bytes =~= be_bytes(rest as nat, (i - 4) as nat) + bytes.skip(i - 4),
            forall|j: int| i <= j < 12 ==> #[trigger] nonce@[j] == iv@[j] ^ bytes[j - 4],
        decreases i,
    {
        let ghost head = be_bytes(rest as nat, (i - 4) as nat);
        proof {
            lemma_be_bytes_len(rest as nat, (i - 4) as nat);
            assert(bytes[i - 5] == head[i - 5]);
        }
        i -= 1;
        nonce[i] = iv[i] ^ (rest % 256) as u8;
        rest = rest / 256;
        proof {
            lemma_be_bytes_len(rest as nat, (i - 4) as nat);
            assert(bytes =~= be_bytes(rest as nat, (i - 4) as nat) + bytes.skip(i - 4));
        }
    }
    while i > 0
        invariant
            i <= 4,
            iv@.len() == 12,
            bytes.len() == 8,
            forall|j: int| 4 <= j < 12 ==> #[trigger] nonce@[j] == iv@[j] ^ bytes[j - 4],
            forall|j: int| i <= j < 4 ==> #[trigger] nonce@[j] == iv@[j],
        decreases i,
    {
        i -= 1;
        nonce[i] = iv[i];
    }
    assert(nonce@ =~= packet_nonce(iv@, counter));
    nonce
}

/// The keys that the packets of the peer are opened with.
pub struct Open {
    alg: Algorithm,
    key: Vec<u8>,
    iv: Vec<u8>,
    hp_key: Vec<u8>,
}

impl View for Open {
    type V = Keys;

    closed spec fn view(&self) -> Keys {
        Keys { alg: self.alg, key: self.key@, iv: self.iv@, hp_key: self.hp_key@ }
    }
}

impl Open {
    #[verifier::type_invariant]
    spec fn inv(self) -> bool {
        self@.fit()
    }

    /// The keys `key`, `iv` and `hp_key`, if they are as long as they must be.
    pub fn new(alg: Algorithm, key: &[u8], iv: &[u8], hp_key: &[u8]) -> (res: Result<Open, Error>)
        ensures
            ({
                let keys = Keys { alg, key: key@, iv: iv@, hp_key: hp_key@ };
                match res {
                    Ok(open) => keys.fit() && open@ == keys,
                    Err(e) => !keys.fit() && e == Error::CryptoFail,
                }
            }),
    {
        if key.len() != alg.key_len() || iv.len() != NONCE_LEN || hp_key.len() != alg.key_len() {
            return Err(Error::CryptoFail);
        }
        Ok(
            Open {
                alg,
                key: vstd::slice::slice_to_vec(key),
                iv: vstd::slice::slice_to_vec(iv),
                hp_key: vstd::slice::slice_to_vec(hp_key),
            },
        )
    }

    /// The mask that protects the header of the packet that `sample` is from.
    pub fn new_mask(&self, sample: &[u8]) -> (res: Result<Mask, Error>)
        ensures
            match res {
                Ok(mask) => sample@.len() == SAMPLE_LEN && mask@ == self@.mask(sample@),
                Err(e) => sample@.len() != SAMPLE_LEN && e == Error::CryptoFail,
            },
    {
        proof {
            use_type_invariant(self);
        }
        match primitives::quic_header_mask(self.alg, &self.hp_key, sample) {
            Some(mask) => Ok(mask),
            None => Err(Error::CryptoFail),
        }
    }

    /// Opens, in place, what was sealed in the packet with number `counter`, and
    /// returns the length of what was sealed, which is then at the start of `buf`.
    pub fn open_with_u64_counter(&self, counter: u64, ad: &[u8], buf: &mut [u8]) -> (res: Result<
        usize,
        Error,
    >)
        ensures
            final(buf)@.len() == old(buf)@.len(),
            match self@.opened(counter, ad@, old(buf)@) {
                Some(plain) => {
                    &&& plain.len() + TAG_LEN == old(buf)@.len()
                    &&& res == Ok::<usize, Error>(plain.len() as usize)
                    &&& final(buf)@ == plain + old(buf)@.skip(plain.len() as int)
                },
                None => res == Err::<usize, Error>(Error::CryptoFail),
            },
    {
        proof {
            use_type_invariant(self);
        }
        if buf.len() > TAG_LEN && (buf.len() - TAG_LEN) as u64 > self.alg.max_plain_len() {
            return Err(Error::CryptoFail);
        }
        let nonce = make_nonce(&self.iv, counter);
        match primitives::aead_open(self.alg, &self.key, nonce, ad, buf) {
            Some(len) => Ok(len),
            None => Err(Error::CryptoFail),
        }
    }
}

/// The keys that an endpoint seals its own packets with.
pub struct Seal {
    alg: Algorithm,
    key: Vec<u8>,
    iv: Vec<u8>,
    hp_key: Vec<u8>,
}

impl View for Seal {
    type V = Keys;

    closed spec fn view(&self) -> Keys {
        Keys { alg: self.alg, key: self.key@, iv: self.iv@, hp_key: self.hp_key@ }
    }
}

impl Seal {
    #[verifier::type_invariant]
    spec fn inv(self) -> bool {
        self@.fit()
    }

    /// The keys `key`, `iv` and `hp_key`, if they are as long as they must be.
    pub fn new(alg: Algorithm, key: &[u8], iv: &[u8], hp_key: &[u8]) -> (res: Result<Seal, Error>)
        ensures
            ({
                let keys = Keys { alg, key: key@, iv: iv@, hp_key: hp_key@ };
                match res {
                    Ok(seal) => keys.fit() && seal@ == keys,
                    Err(e) => !keys.fit() && e == Error::CryptoFail,
                }
            }),
    {
        if key.len() != alg.key_len() || iv.len() != NONCE_LEN || hp_key.len() != alg.key_len() {
            return Err(Error::CryptoFail);
        }
        Ok(
            Seal {
                alg,
                key: vstd::slice::slice_to_vec(key),
                iv: vstd::slice::slice_to_vec(iv),
                hp_key: vstd::slice::slice_to_vec(hp_key),
            },
        )
    }

    /// The cipher.
    pub fn alg(&self) -> (res: Algorithm)
        ensures
            res == self@.alg,
    {
        self.alg
    }

    /// The mask that protects the header of the packet that `sample` is from.
    pub fn new_mask(&self, sample: &[u8]) -> (res: Result<Mask, Error>)
        ensures
            match res {
                Ok(mask) => sample@.len() == SAMPLE_LEN && mask@ == self@.mask(sample@),
                Err(e) => sample@.len() != SAMPLE_LEN && e == Error::CryptoFail,
            },
    {
        proof {
            use_type_invariant(self);
        }
        match primitives::quic_header_mask(self.alg, &self.hp_key, sample) {
            Some(mask) => Ok(mask),
            None => Err(Error::CryptoFail),
        }
    }

    /// Seals, in place, all of `buf` but the last [`TAG_LEN`] bytes, which are
    /// room for the tag, as the content of the packet with number `counter`.
    pub fn seal_with_u64_counter(&self, counter: u64, ad: &[u8], buf: &mut [u8]) -> (res: Result<
        (),
        Error,
    >)
        ensures
            final(buf)@.len() == old(buf)@.len(),
            ({
                let plain = old(buf)@.take(old(buf)@.len() - TAG_LEN);
                if TAG_LEN <= old(buf)@.len() && plain.len()
                    <= self@.alg.spec_max_plain_len() {
                    &&& res == Ok::<(), Error>(())
                    &&& final(buf)@ == self@.sealed(counter, ad@, plain)
                    &&& self@.opened(counter, ad@, final(buf)@) == Some(plain)
                } else {
                    &&& res == Err::<(), Error>(Error::CryptoFail)
                    &&& final(buf)@ == old(buf)@
                }
            }),
    {
        proof {
            use_type_invariant(self);
        }
        let tag_len: usize = self.alg().tag_len();
        if buf.len() < tag_len {
            return Err(Error::CryptoFail);
        }
        let plain_len: usize = buf.len() - tag_len;
        if plain_len as u64 > self.alg.max_plain_len() {
            return Err(Error::CryptoFail);
        }
        let nonce = make_nonce(&self.iv, counter);
        let (in_out, tag_out) = buf.split_at_mut(plain_len);
        match primitives::aead_seal(self.alg, &self.key, nonce, ad, in_out) {
            Some(tag) => {
                let mut i: usize = 0;
                while i < tag_len
                    invariant
                        i <= tag_len,
                        tag@.len() == tag_len,
                        tag_out@.len() == tag_len,
                        forall|j: int| 0 <= j < i ==> tag_out@[j] == tag@[j],
                    decreases tag_len - i,
                {
                    tag_out[i] = tag[i];
                    i += 1;
                }
                assert(tag_out@ =~= tag@);
                Ok(())
            },
            None => Err(Error::CryptoFail),
        }
    }
}

/// `tls13 `
pub open spec fn label_prefix() -> Seq<u8> {
    seq![0x74, 0x6c, 0x73, 0x31, 0x33, 0x20]
}

/// `client in`
pub open spec fn client_label() -> Seq<u8> {
    seq![0x63, 0x6c, 0x69, 0x65, 0x6e, 0x74, 0x20, 0x69, 0x6e]
}

/// `server in`
pub open spec fn server_label() -> Seq<u8> {
    seq![0x73, 0x65, 0x72, 0x76, 0x65, 0x72, 0x20, 0x69, 0x6e]
}

/// `quic key`
pub open spec fn key_label() -> Seq<u8> {
    seq![0x71, 0x75, 0x69, 0x63, 0x20, 0x6b, 0x65, 0x79]
}

/// `quic iv`
pub open spec fn iv_label() -> Seq<u8> {
    seq![0x71, 0x75, 0x69, 0x63, 0x20, 0x69, 0x76]
}

/// `quic hp`
pub open spec fn hp_label() -> Seq<u8> {
    seq![0x71, 0x75, 0x69, 0x63, 0x20, 0x68, 0x70]
}

/// The salt that the protocol derives the first keys with.
pub open spec fn initial_salt() -> Seq<u8> {
    seq![
        0xc3,
        0xee,
        0xf7,
        0x12,
        0xc7,
        0x2e,
        0xbb,
        0x5a,
        0x11,
        0xa7,
        0xd2,
        0x43,
        0x2b,
        0xb4,
        0x63,
        0x65,
        0xbe,
        0xf9,
        0xf5,
        0x02,
    ]
}

/// What a key of `len` bytes for `label` is derived with: the length, the label
/// with its own length before it, and an empty context.
pub open spec fn label_info(label: Seq<u8>, len: u8) -> Seq<u8> {
    seq![0u8, len, (6 + label.len()) as u8] + label_prefix() + label + seq![0u8]
}

/// The secret that the first keys of the client, or of the server, are derived
/// from, where the client sent its first packet to the connection ID `cid`.
pub open spec fn initial_secret(cid: Seq<u8>, client: bool) -> Seq<u8> {
    let label = if client {
        client_label()
    } else {
        server_label()
    };
    hkdf_derived(initial_salt(), cid, label_info(label, 32))
}

/// The first keys of the client, or of the server.
pub open spec fn initial_keys(cid: Seq<u8>, client: bool) -> Keys {
    let secret = initial_secret(cid, client);
    Keys {
        alg: Algorithm::AES128_GCM,
        key: hkdf_expanded(secret, label_info(key_label(), 16)).take(16),
        iv: hkdf_expanded(secret, label_info(iv_label(), 12)).take(12),
        hp_key: hkdf_expanded(secret, label_info(hp_label(), 16)).take(16),
    }
}

/// The first keys that an endpoint opens the packets of its peer with.
pub open spec fn initial_open_keys(cid: Seq<u8>, is_server: bool) -> Keys {
    initial_keys(cid, is_server)
}

/// The first keys that an endpoint seals its own packets with.
pub open spec fn initial_seal_keys(cid: Seq<u8>, is_server: bool) -> Keys {
    initial_keys(cid, !is_server)
}

/// The endpoints of a new connection have the same keys: each opens with those
/// that the other one seals with.
pub proof fn endpoints_share_initial_keys(cid: Seq<u8>, is_server: bool)
    ensures
        initial_open_keys(cid, is_server) == initial_seal_keys(cid, !is_server),
{
}

/// What a key of `len` bytes for `label` is derived with.
fn make_label_info(label: &[u8], len: u8) -> (res: Vec<u8>)
    requires
        label@.len() < 250,
    ensures
        res@ == label_info(label@, len),
{
    let mut info: Vec<u8> = vec![0, len, 6 + label.len() as u8, 0x74, 0x6c, 0x73, 0x31, 0x33, 0x20];
    let mut i: usize = 0;
    let ghost head = info@;
    while i < label.len()
        invariant
            i <= label@.len(),
            info@ =~= head + label@.take(i as int),
        decreases label@.len() - i,
    {
        info.push(label[i]);
        i += 1;
    }
    info.push(0);
    assert(label@.take(label@.len() as int) =~= label@);
    assert(info@ =~= label_info(label@, len));
    info
}

/// The key of `len` bytes for `label` that is derived from `secret`.
fn derive_key(secret: &[u8], label: &[u8], len: u8) -> (res: Result<Vec<u8>, Error>)
    requires
        label@.len() < 250,
        len <= 32,
    ensures
        res is Ok,
        res->Ok_0@.len() == len,
        res->Ok_0@ == hkdf_expanded(secret@, label_info(label@, len)).take(len as int),
{
    match primitives::hkdf_expand(secret, &make_label_info(label, len)) {
        Some(out) => {
            let mut out = out;
            out.truncate(len as usize);
            Ok(out)
        },
        None => Err(Error::CryptoFail),
    }
}

/// The first keys of the client, or of the server, as the four values that they
/// consist of.
fn derive_initial_keys(cid: &[u8], client: bool) -> (res: Result<
    (Vec<u8>, Vec<u8>, Vec<u8>),
    Error,
>)
    ensures
        res is Ok,
        initial_keys(cid@, client) == (Keys {
            alg: Algorithm::AES128_GCM,
            key: res->Ok_0.0@,
            iv: res->Ok_0.1@,
            hp_key: res->Ok_0.2@,
        }),
        initial_keys(cid@, client).fit(),
{
    let salt: Vec<u8> = vec![
        0xc3, 0xee, 0xf7, 0x12, 0xc7, 0x2e, 0xbb, 0x5a, 0x11, 0xa7, 0xd2, 0x43, 0x2b, 0xb4, 0x63, 0x65,
        0xbe, 0xf9, 0xf5, 0x02,
    ];
    let side: Vec<u8> = if client {
        vec![0x63, 0x6c, 0x69, 0x65, 0x6e, 0x74, 0x20, 0x69, 0x6e]
    } else {
        vec![0x73, 0x65, 0x72, 0x76, 0x65, 0x72, 0x20, 0x69, 0x6e]
    };
    let key_name: Vec<u8> = vec![0x71, 0x75, 0x69, 0x63, 0x20, 0x6b, 0x65, 0x79];
    let iv_name: Vec<u8> = vec![0x71, 0x75, 0x69, 0x63, 0x20, 0x69, 0x76];
    let hp_name: Vec<u8> = vec![0x71, 0x75, 0x69, 0x63, 0x20, 0x68, 0x70];
    assert(salt@ =~= initial_salt());
    assert(side@ =~= if client { client_label() } else { server_label() });
    assert(key_name@ =~= key_label());
    assert(iv_name@ =~= iv_label());
    assert(hp_name@ =~= hp_label());

    match primitives::hkdf_derive(&salt, cid, &make_label_info(&side, 32)) {
        Some(secret) => {
            let key = derive_key(&secret, &key_name, 16)?;
            let iv = derive_key(&secret, &iv_name, 12)?;
            let hp_key = derive_key(&secret, &hp_name, 16)?;
            Ok((key, iv, hp_key))
        },
        None => Err(Error::CryptoFail),
    }
}

/// The keys that the first packets of a connection are protected with: those
/// that the endpoint opens the packets of its peer with, and those that it seals
/// its own packets with. `cid` is the connection ID that the client sent its
/// first packet to.
pub fn derive_initial_key_material(cid: &[u8], is_server: bool) -> (res: Result<
    (Open, Seal),
    Error,
>)
    ensures
        res is Ok,
        res->Ok_0.0@ == initial_open_keys(cid@, is_server),
        res->Ok_0.1@ == initial_seal_keys(cid@, is_server),
{
    let (open_key, open_iv, open_hp) = derive_initial_keys(cid, is_server)?;
    let (seal_key, seal_iv, seal_hp) = derive_initial_keys(cid, !is_server)?;
    let open = Open::new(Algorithm::AES128_GCM, &open_key, &open_iv, &open_hp)?;
    let seal = Seal::new(Algorithm::AES128_GCM, &seal_key, &seal_iv, &seal_hp)?;
    Ok((open, seal))
}

/// The nonce of a packet differs from the initialization vector in its last eight
/// bytes, and there by the bytes of the packet number, the most significant first.
pub proof fn nonce_bytes(iv: Seq<u8>, counter: u64, i: int)
    requires
        iv.len() == 12,
        0 <= i < 12,
    ensures
        ({
            let nonce = packet_nonce(iv, counter);
            &&& nonce.len() == 12
            &&& i < 4 ==> nonce[i] == iv[i]
            &&& i == 4 ==> nonce[i] ^ iv[i] == counter / 0x100_0000_0000_0000
            &&& i == 5 ==> nonce[i] ^ iv[i] == (counter / 0x1_0000_0000_0000) % 256
            &&& i == 6 ==> nonce[i] ^ iv[i] == (counter / 0x100_0000_0000) % 256
            &&& i == 7 ==> nonce[i] ^ iv[i] == (counter / 0x1_0000_0000) % 256
            &&& i == 8 ==> nonce[i] ^ iv[i] == (counter / 0x100_0000) % 256
            &&& i == 9 ==> nonce[i] ^ iv[i] == (counter / 0x1_0000) % 256
            &&& i == 10 ==> nonce[i] ^ iv[i] == (counter / 0x100) % 256
            &&& i == 11 ==> nonce[i] ^ iv[i] == counter % 256
        }),
{
    numbers_are_written_big_endian(counter as nat);
    if i >= 4 {
        let x = iv[i];
        let y = be_bytes(counter as nat, 8)[i - 4];
        assert((x ^ y) ^ x == y) by (bit_vector);
    }
}

/// Which key does what: the header protection key makes masks, the other one seals
/// and opens, with the packet's nonce, and nothing longer than what can be sealed
/// is opened.
pub proof fn keys_in_use(
    keys: Keys,
    counter: u64,
    ad: Seq<u8>,
    plain: Seq<u8>,
    sealed: Seq<u8>,
    sample: Seq<u8>,
)
    ensures
        keys.mask(sample) == header_mask(keys.alg, keys.hp_key, sample),
        keys.sealed(counter, ad, plain) == aead_sealed(
            keys.alg,
            keys.key,
            packet_nonce(keys.iv, counter),
            ad,
            plain,
        ),
        sealed.len() <= 16 + keys.alg.spec_max_plain_len() ==> keys.opened(counter, ad, sealed)
            == aead_opened(keys.alg, keys.key, packet_nonce(keys.iv, counter), ad, sealed),
        sealed.len() > 16 + keys.alg.spec_max_plain_len() ==> keys.opened(counter, ad, sealed)
            is None,
{
}

/// The lengths of keys, of initialization vectors, and of the longest contents.
pub proof fn key_lengths(keys: Keys)
    ensures
        keys.fit() <==> {
            &&& keys.iv.len() == 12
            &&& keys.key.len() == keys.hp_key.len()
            &&& keys.key.len() == (if keys.alg == Algorithm::AES128_GCM {
                16nat
            } else {
                32nat
            })
        },
        keys.alg.spec_max_plain_len() == (if keys.alg == Algorithm::ChaCha20_Poly1305 {
            274_877_906_880int
        } else {
            68_719_476_703int
        }),
{
}

/// What the first keys are derived from: the connection ID, with the salt of the
/// protocol, and the labels of the side and of the key.
pub proof fn initial_keys_are_derived(cid: Seq<u8>, client: bool)
    ensures
        ({
            let salt = seq![
                0xc3u8, 0xee, 0xf7, 0x12, 0xc7, 0x2e, 0xbb, 0x5a, 0x11, 0xa7, 0xd2, 0x43, 0x2b, 0xb4,
                0x63, 0x65, 0xbe, 0xf9, 0xf5, 0x02,
            ];
            let tls13 = seq![0x74u8, 0x6c, 0x73, 0x31, 0x33, 0x20];
            let client_in = seq![0x63u8, 0x6c, 0x69, 0x65, 0x6e, 0x74, 0x20, 0x69, 0x6e];
            let server_in = seq![0x73u8, 0x65, 0x72, 0x76, 0x65, 0x72, 0x20, 0x69, 0x6e];
            let quic_key = seq![0x71u8, 0x75, 0x69, 0x63, 0x20, 0x6b, 0x65, 0x79];
            let quic_iv = seq![0x71u8, 0x75, 0x69, 0x63, 0x20, 0x69, 0x76];
            let quic_hp = seq![0x71u8, 0x75, 0x69, 0x63, 0x20, 0x68, 0x70];
            let side = if client {
                client_in
            } else {
                server_in
            };
            let secret = hkdf_derived(salt, cid, seq![0u8, 32, 15] + tls13 + side + seq![0u8]);
            let key = hkdf_expanded(secret, seq![0u8, 16, 14] + tls13 + quic_key + seq![0u8]);
            let iv = hkdf_expanded(secret, seq![0u8, 12, 13] + tls13 + quic_iv + seq![0u8]);
            let hp = hkdf_expanded(secret, seq![0u8, 16, 13] + tls13 + quic_hp + seq![0u8]);
            let keys = initial_keys(cid, client);
            &&& keys.alg == Algorithm::AES128_GCM
            &&& keys.key == key.subrange(0, 16)
            &&& keys.iv == iv.subrange(0, 12)
            &&& keys.hp_key == hp.subrange(0, 16)
        }),
        initial_open_keys(cid, true) == initial_keys(cid, true),
        initial_seal_keys(cid, true) == initial_keys(cid, false),
        initial_open_keys(cid, false) == initial_keys(cid, false),
        initial_seal_keys(cid, false) == initial_keys(cid, true),
{
}

} // verus!
