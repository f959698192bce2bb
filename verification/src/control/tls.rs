//! The server's TLS identity: a self-signed certificate with its key, its
//! SHA-256 fingerprint (what a headset pins on first use), and the on-disk
//! container that keeps it across restarts:
//! magic | cert length u32 LE | cert DER | key length u32 LE | PKCS#8 key
//! DER | SHA-256(cert || key).

use vstd::prelude::*;
use crate::protocol::{le32, le32_at, push_bytes, push_le32, read_le32};
use crate::transport::fec::copy_bytes;

verus! {

#[verifier::external_type_specification]
#[verifier::external_body]
pub struct ExKeyPair(rcgen::KeyPair);

#[verifier::external_type_specification]
#[verifier::external_body]
pub struct ExCertificateParams(rcgen::CertificateParams);

#[verifier::external_type_specification]
#[verifier::external_body]
pub struct ExCertificate(rcgen::Certificate);

#[verifier::external_type_specification]
#[verifier::external_body]
pub struct ExRcgenError(rcgen::Error);

/// The SHA-256 digest of `data` as `sha2` computes it.
pub uninterp spec fn sha256_spec(data: Seq<u8>) -> Seq<u8>;

/// `sha2::Sha256::digest`: the 32-byte SHA-256 digest of `data`.
#[verifier::external_body]
fn sha256(data: &[u8]) -> (r: Vec<u8>)
    ensures
        r@ == sha256_spec(data@),
        r@.len() == 32,
{
    <sha2::Sha256 as sha2::Digest>::digest(data).to_vec()
}

/// `rcgen::KeyPair::generate`: a fresh random ECDSA P-256 key pair, with
/// its PKCS#8 DER (`KeyPair::serialize_der`, which panics only for remote
/// key pairs; a generated pair is local). Nothing is stated of the key: it
/// is random.
#[verifier::external_body]
fn generate_key_pair() -> Result<(rcgen::KeyPair, Vec<u8>), rcgen::Error> {
    match rcgen::KeyPair::generate() {
        Ok(key_pair) => {
            let der = key_pair.serialize_der();
            Ok((key_pair, der))
        },
        Err(e) => Err(e),
    }
}

/// `rcgen::CertificateParams::new`: default parameters for a certificate
/// valid for `subject_alt_names` (each an IP address or a DNS name; an
/// invalid DNS name is an error).
#[verifier::external_body]
fn certificate_params(subject_alt_names: Vec<String>) -> Result<rcgen::CertificateParams, rcgen::Error> {
    rcgen::CertificateParams::new(subject_alt_names)
}

/// `rcgen::CertificateParams::self_signed`: a certificate signed by the key.
#[verifier::external_body]
fn self_signed(params: rcgen::CertificateParams, key_pair: &rcgen::KeyPair) -> Result<rcgen::Certificate, rcgen::Error> {
    params.self_signed(key_pair)
}

/// `rcgen::Certificate::der`: the certificate's DER bytes.
#[verifier::external_body]
fn certificate_der(cert: &rcgen::Certificate) -> Vec<u8> {
    cert.der().to_vec()
}

/// The text of an `rcgen` error.
#[verifier::external_body]
fn rcgen_error_text(e: &rcgen::Error) -> String {
    format!("{e}")
}

/// The container's leading magic bytes, "FVPTLS01".
pub open spec fn identity_magic() -> Seq<u8> {
    seq![0x46u8, 0x56u8, 0x50u8, 0x54u8, 0x4cu8, 0x53u8, 0x30u8, 0x31u8]
}

/// Longest certificate or key the container accepts.
pub const MAX_IDENTITY_PART_LEN: usize = 16 * 1024;

/// Bytes of the trailing digest.
pub const DIGEST_LEN: usize = 32;

pub open spec fn hex_digit(n: nat) -> char {
    if n < 10 {
        crate::text::digit_char(n)
    } else if n == 10 {
        'a'
    } else if n == 11 {
        'b'
    } else if n == 12 {
        'c'
    } else if n == 13 {
        'd'
    } else if n == 14 {
        'e'
    } else {
        'f'
    }
}

/// Lowercase hex, two characters per byte.
pub open spec fn hex_spec(b: Seq<u8>) -> Seq<char>
    decreases b.len(),
{
    if b.len() == 0 {
        Seq::empty()
    } else {
        hex_spec(b.drop_last()) + seq![hex_digit((b.last() / 16) as nat), hex_digit((b.last() % 16) as nat)]
    }
}

fn hex_char(n: u8) -> (s: &'static str)
    requires
        n < 16,
    ensures
        s@ == seq![hex_digit(n as nat)],
{
    proof {
        reveal_strlit("0");
        reveal_strlit("1");
        reveal_strlit("2");
        reveal_strlit("3");
        reveal_strlit("4");
        reveal_strlit("5");
        reveal_strlit("6");
        reveal_strlit("7");
        reveal_strlit("8");
        reveal_strlit("9");
        reveal_strlit("a");
        reveal_strlit("b");
        reveal_strlit("c");
        reveal_strlit("d");
        reveal_strlit("e");
        reveal_strlit("f");
    }
    if n == 0 {
        "0"
    } else if n == 1 {
        "1"
    } else if n == 2 {
        "2"
    } else if n == 3 {
        "3"
    } else if n == 4 {
        "4"
    } else if n == 5 {
        "5"
    } else if n == 6 {
        "6"
    } else if n == 7 {
        "7"
    } else if n == 8 {
        "8"
    } else if n == 9 {
        "9"
    } else if n == 10 {
        "a"
    } else if n == 11 {
        "b"
    } else if n == 12 {
        "c"
    } else if n == 13 {
        "d"
    } else if n == 14 {
        "e"
    } else {
        "f"
    }
}

/// Lowercase hex of `bytes`.
pub fn to_hex(bytes: &[u8]) -> (s: String)
    ensures
        s@ == hex_spec(bytes@),
{
    let mut s = String::new();
    let mut i: usize = 0;
    while i < bytes.len()
        invariant
            i <= bytes@.len(),
            s@ == hex_spec(bytes@.subrange(0, i as int)),
        decreases bytes@.len() - i,
    {
        let b = bytes[i];
        s.append(hex_char(b / 16));
        s.append(hex_char(b % 16));
        proof {
            assert(bytes@.subrange(0, i + 1).drop_last() =~= bytes@.subrange(0, i as int));
        }
        i = i + 1;
    }
    assert(bytes@.subrange(0, bytes@.len() as int) =~= bytes@);
    s
}

/// The fingerprint of a certificate: lowercase hex of its SHA-256.
pub open spec fn fingerprint_spec(cert_der: Seq<u8>) -> Seq<char> {
    hex_spec(sha256_spec(cert_der))
}

/// The container holding a certificate and its key.
pub open spec fn identity_bytes(cert: Seq<u8>, key: Seq<u8>) -> Seq<u8> {
    identity_magic() + le32(cert.len() as u32) + cert + le32(key.len() as u32) + key + sha256_spec(cert + key)
}

/// A length-prefixed part at the front of `buf` and what follows it;
/// `None` when the prefix is missing, zero, over `MAX_IDENTITY_PART_LEN`,
/// or longer than the rest.
pub open spec fn split_len_prefixed_spec(buf: Seq<u8>) -> Option<(Seq<u8>, Seq<u8>)> {
    if buf.len() < 4 {
        None
    } else {
        let len = le32_at(buf, 0);
        if len == 0 || len > MAX_IDENTITY_PART_LEN || 4 + len > buf.len() {
            None
        } else {
            Some((buf.subrange(4, 4 + len), buf.subrange(4 + len, buf.len() as int)))
        }
    }
}

/// Split off a length-prefixed part (see `split_len_prefixed_spec`).
pub fn split_len_prefixed(buf: &[u8]) -> (r: Option<(&[u8], &[u8])>)
    ensures
        match r {
            Some((body, rest)) => split_len_prefixed_spec(buf@) == Some((body@, rest@)),
            None => split_len_prefixed_spec(buf@) is None,
        },
{
    if buf.len() < 4 {
        return None;
    }
    let len = read_le32(buf, 0) as usize;
    if len == 0 || len > MAX_IDENTITY_PART_LEN || len > buf.len() - 4 {
        return None;
    }
    let body = vstd::slice::slice_subrange(buf, 4, 4 + len);
    let rest = vstd::slice::slice_subrange(buf, 4 + len, buf.len());
    Some((body, rest))
}

/// The parts a container holds, if it is sound: the magic, two
/// length-prefixed parts, and exactly the digest of both.
pub open spec fn parse_identity_spec(bytes: Seq<u8>) -> Option<(Seq<u8>, Seq<u8>)> {
    if bytes.len() < 8 || bytes.subrange(0, 8) != identity_magic() {
        None
    } else {
        match split_len_prefixed_spec(bytes.subrange(8, bytes.len() as int)) {
            None => None,
            Some((cert, rest)) => match split_len_prefixed_spec(rest) {
                None => None,
                Some((key, tail)) => if tail == sha256_spec(cert + key) {
                    Some((cert, key))
                } else {
                    None
                },
            },
        }
    }
}

fn bytes_equal(a: &[u8], b: &[u8]) -> (r: bool)
    ensures
        r == (a@ == b@),
{
    if a.len() != b.len() {
        return false;
    }
    let mut i: usize = 0;
    while i < a.len()
        invariant
            a@.len() == b@.len(),
            i <= a@.len(),
            a@.subrange(0, i as int) == b@.subrange(0, i as int),
        decreases a@.len() - i,
    {
        if a[i] != b[i] {
            assert(a@[i as int] != b@[i as int]);
            return false;
        }
        i = i + 1;
        assert(a@.subrange(0, i as int) =~= b@.subrange(0, i as int));
    }
    assert(a@ =~= a@.subrange(0, a@.len() as int));
    assert(b@ =~= b@.subrange(0, b@.len() as int));
    true
}

fn concat_bytes(a: &[u8], b: &[u8]) -> (r: Vec<u8>)
    ensures
        r@ == a@ + b@,
{
    let mut r: Vec<u8> = Vec::new();
    push_bytes(&mut r, a);
    push_bytes(&mut r, b);
    r
}

/// The server's certificate, its private key, and the certificate's
/// fingerprint.
pub struct TlsIdentity {
    cert_der: Vec<u8>,
    key_der: Vec<u8>,
    fingerprint: String,
}

impl TlsIdentity {
    #[verifier::type_invariant]
    spec fn inv(&self) -> bool {
        &&& self.fingerprint@ == fingerprint_spec(self.cert_der@)
        &&& sha256_spec(self.cert_der@).len() == 32
    }

    pub closed spec fn cert_spec(&self) -> Seq<u8> {
        self.cert_der@
    }

    pub closed spec fn key_spec(&self) -> Seq<u8> {
        self.key_der@
    }

    /// The fingerprint text held with the identity.
    pub closed spec fn fingerprint_view(&self) -> Seq<char> {
        self.fingerprint@
    }

    /// An identity from its certificate and key.
    pub fn from_parts(cert_der: Vec<u8>, key_der: Vec<u8>) -> (r: Self)
        ensures
            r.cert_spec() == cert_der@,
            r.key_spec() == key_der@,
    {
        let digest = sha256(cert_der.as_slice());
        let fingerprint = to_hex(digest.as_slice());
        TlsIdentity { cert_der, key_der, fingerprint }
    }

    /// A fresh self-signed certificate for "localhost" with a new key.
    pub fn generate() -> (r: Result<Self, String>)
        ensures
            r matches Ok(id) ==> id.fingerprint_view() == fingerprint_spec(id.cert_spec()) && id.fingerprint_view().len()
                == 64,
    {
        let (key_pair, key_der) = match generate_key_pair() {
            Ok(k) => k,
            Err(e) => {
                return Err(rcgen_error_text(&e));
            },
        };
        let mut names: Vec<String> = Vec::new();
        names.push(String::from_str("localhost"));
        let params = match certificate_params(names) {
            Ok(p) => p,
            Err(e) => {
                return Err(rcgen_error_text(&e));
            },
        };
        let cert = match self_signed(params, &key_pair) {
            Ok(c) => c,
            Err(e) => {
                return Err(rcgen_error_text(&e));
            },
        };
        let id = Self::from_parts(certificate_der(&cert), key_der);
        proof {
            use_type_invariant(&id);
            lemma_hex_len(sha256_spec(id.cert_der@));
        }
        Ok(id)
    }

    /// SHA-256 of the DER certificate, lowercase hex (64 characters).
    pub fn fingerprint(&self) -> (r: &str)
        ensures
            r@ == fingerprint_spec(self.cert_spec()),
            r@.len() == 64,
    {
        proof {
            use_type_invariant(self);
            lemma_hex_len(sha256_spec(self.cert_der@));
        }
        self.fingerprint.as_str()
    }

    pub fn cert_der(&self) -> (r: &[u8])
        ensures
            r@ == self.cert_spec(),
    {
        self.cert_der.as_slice()
    }

    pub fn key_der(&self) -> (r: &[u8])
        ensures
            r@ == self.key_spec(),
    {
        self.key_der.as_slice()
    }

    /// The on-disk container of this identity.
    pub fn to_bytes(&self) -> (r: Vec<u8>)
        requires
            self.cert_spec().len() <= u32::MAX,
            self.key_spec().len() <= u32::MAX,
        ensures
            r@ == identity_bytes(self.cert_spec(), self.key_spec()),
    {
        let mut out: Vec<u8> = Vec::new();
        let magic: [u8; 8] = [0x46, 0x56, 0x50, 0x54, 0x4c, 0x53, 0x30, 0x31];
        push_bytes(&mut out, &magic);
        assert(magic@ =~= identity_magic());
        push_le32(&mut out, self.cert_der.len() as u32);
        push_bytes(&mut out, self.cert_der.as_slice());
        push_le32(&mut out, self.key_der.len() as u32);
        push_bytes(&mut out, self.key_der.as_slice());
        let both = concat_bytes(self.cert_der.as_slice(), self.key_der.as_slice());
        let digest = sha256(both.as_slice());
        push_bytes(&mut out, digest.as_slice());
        assert(out@ =~= identity_bytes(self.cert_der@, self.key_der@));
        out
    }

    /// Parse a container; `None` for any structural problem (bad magic,
    /// zero, oversized or overrunning length, trailing bytes, digest
    /// mismatch).
    pub fn from_bytes(bytes: &[u8]) -> (r: Option<Self>)
        ensures
            match r {
                Some(id) => parse_identity_spec(bytes@) == Some((id.cert_spec(), id.key_spec())),
                None => parse_identity_spec(bytes@) is None,
            },
    {
        if bytes.len() < 8 {
            return None;
        }
        let magic: [u8; 8] = [0x46, 0x56, 0x50, 0x54, 0x4c, 0x53, 0x30, 0x31];
        assert(magic@ =~= identity_magic());
        if !bytes_equal(vstd::slice::slice_subrange(bytes, 0, 8), &magic) {
            return None;
        }
        let rest = vstd::slice::slice_subrange(bytes, 8, bytes.len());
        let (cert, rest) = match split_len_prefixed(rest) {
            Some(p) => p,
            None => {
                return None;
            },
        };
        let (key, tail) = match split_len_prefixed(rest) {
            Some(p) => p,
            None => {
                return None;
            },
        };
        let both = concat_bytes(cert, key);
        let digest = sha256(both.as_slice());
        if !bytes_equal(tail, digest.as_slice()) {
            return None;
        }
        Some(Self::from_parts(copy_bytes(cert), copy_bytes(key)))
    }
}

proof fn lemma_hex_len(b: Seq<u8>)
    ensures
        hex_spec(b).len() == 2 * b.len(),
    decreases b.len(),
{
    if b.len() > 0 {
        lemma_hex_len(b.drop_last());
    }
}

/// The container written for a certificate and key reads back as them,
/// whatever their bytes, when each is 1 to `MAX_IDENTITY_PART_LEN` bytes
/// long (the lengths the container accepts).
pub proof fn lemma_identity_roundtrip(cert: Seq<u8>, key: Seq<u8>)
    requires
        0 < cert.len() <= MAX_IDENTITY_PART_LEN,
        0 < key.len() <= MAX_IDENTITY_PART_LEN,
    ensures
        parse_identity_spec(identity_bytes(cert, key)) == Some((cert, key)),
{
    let b = identity_bytes(cert, key);
    let lc = le32(cert.len() as u32);
    let lk = le32(key.len() as u32);
    let d = sha256_spec(cert + key);
    assert(b.subrange(0, 8) =~= identity_magic());
    let r1 = b.subrange(8, b.len() as int);
    assert(r1 =~= lc + cert + lk + key + d);
    assert(r1.subrange(0, 4) =~= lc);
    crate::protocol::lemma_le32_roundtrip(cert.len() as u32, r1, 0);
    let r2 = r1.subrange(4 + cert.len() as int, r1.len() as int);
    assert(r1.subrange(4, 4 + cert.len() as int) =~= cert);
    assert(r2 =~= lk + key + d);
    assert(r2.subrange(0, 4) =~= lk);
    crate::protocol::lemma_le32_roundtrip(key.len() as u32, r2, 0);
    assert(r2.subrange(4, 4 + key.len() as int) =~= key);
    assert(r2.subrange(4 + key.len() as int, r2.len() as int) =~= d);
}

} // verus!
