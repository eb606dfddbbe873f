//! The bundle envelope: the typed binary layout that every bundle uses
//! underneath the byte-compression layer.
//!
//! Layout: a magic tag, a format version, a bundle kind, the
//! encryption-parameter profile, then a counted list of length-prefixed
//! byte records, then one length-prefixed key record that must run to the
//! end of the buffer.  The parser validates the header before it touches
//! any record, and accepts a buffer only if every byte is accounted for.

use vstd::prelude::*;

use crate::errors::Error;

verus! {

pub const BUNDLE_MAGIC: u32 = 0x4d46_4231;

pub const FORMAT_VERSION: u32 = 1;

/// Little-endian bytes of a `u32`.
pub open spec fn u32_le(x: u32) -> Seq<u8> {
    seq![
        (x & 0xff) as u8,
        ((x >> 8) & 0xff) as u8,
        ((x >> 16) & 0xff) as u8,
        ((x >> 24) & 0xff) as u8,
    ]
}

/// Little-endian bytes of a `u64`.
pub open spec fn u64_le(x: u64) -> Seq<u8> {
    seq![
        (x & 0xff) as u8,
        ((x >> 8) & 0xff) as u8,
        ((x >> 16) & 0xff) as u8,
        ((x >> 24) & 0xff) as u8,
        ((x >> 32) & 0xff) as u8,
        ((x >> 40) & 0xff) as u8,
        ((x >> 48) & 0xff) as u8,
        ((x >> 56) & 0xff) as u8,
    ]
}

/// The value denoted by four little-endian bytes.
pub open spec fn u32_of(s: Seq<u8>) -> int {
    s[0] + s[1] * 0x100 + s[2] * 0x1_0000 + s[3] * 0x100_0000
}

/// The value denoted by eight little-endian bytes.
pub open spec fn u64_of(s: Seq<u8>) -> int {
    s[0] + s[1] * 0x100 + s[2] * 0x1_0000 + s[3] * 0x100_0000 + s[4] * 0x1_0000_0000 + s[5]
        * 0x100_0000_0000 + s[6] * 0x1_0000_0000_0000 + s[7] * 0x100_0000_0000_0000
}

pub proof fn lemma_u32_le_of(x: u32)
    ensures
        u32_of(u32_le(x)) == x,
{
    assert(x == (x & 0xff) + ((x >> 8) & 0xff) * 0x100 + ((x >> 16) & 0xff) * 0x1_0000 + ((x
        >> 24) & 0xff) * 0x100_0000) by (bit_vector);
    assert((x & 0xff) <= 0xff && ((x >> 8) & 0xff) <= 0xff && ((x >> 16) & 0xff) <= 0xff && ((x
        >> 24) & 0xff) <= 0xff) by (bit_vector);
}

pub proof fn lemma_u64_le_of(x: u64)
    ensures
        u64_of(u64_le(x)) == x,
{
    assert(x == (x & 0xff) + ((x >> 8) & 0xff) * 0x100 + ((x >> 16) & 0xff) * 0x1_0000 + ((x
        >> 24) & 0xff) * 0x100_0000 + ((x >> 32) & 0xff) * 0x1_0000_0000 + ((x >> 40) & 0xff)
        * 0x100_0000_0000 + ((x >> 48) & 0xff) * 0x1_0000_0000_0000 + ((x >> 56) & 0xff)
        * 0x100_0000_0000_0000) by (bit_vector);
    assert((x & 0xff) <= 0xff && ((x >> 8) & 0xff) <= 0xff && ((x >> 16) & 0xff) <= 0xff && ((x
        >> 24) & 0xff) <= 0xff && ((x >> 32) & 0xff) <= 0xff && ((x >> 40) & 0xff) <= 0xff && ((x
        >> 48) & 0xff) <= 0xff && ((x >> 56) & 0xff) <= 0xff) by (bit_vector);
}

/// The views of a sequence of byte vectors.
pub open spec fn blob_views(v: Seq<Vec<u8>>) -> Seq<Seq<u8>> {
    v.map_values(|b: Vec<u8>| b@)
}

/// Encoding of the record list: each record is its length, little endian,
/// followed by its bytes.
pub open spec fn enc_items(items: Seq<Seq<u8>>) -> Seq<u8>
    decreases items.len(),
{
    if items.len() == 0 {
        Seq::empty()
    } else {
        u64_le(items[0].len() as u64) + items[0] + enc_items(items.drop_first())
    }
}

/// Encoding of a whole envelope.
pub open spec fn enc_envelope(kind: u8, profile: u32, items: Seq<Seq<u8>>, key: Seq<u8>) -> Seq<
    u8,
> {
    u32_le(BUNDLE_MAGIC) + u32_le(FORMAT_VERSION) + seq![kind] + u32_le(profile) + u64_le(
        items.len() as u64,
    ) + enc_items(items) + u64_le(key.len() as u64) + key
}

/// Specification-level parse of the record list: `n` records starting at
/// `pos`; yields the records and the position after them.
pub open spec fn parse_items(b: Seq<u8>, pos: int, n: nat) -> Option<(Seq<Seq<u8>>, int)>
    decreases n,
{
    if n == 0 {
        Some((Seq::empty(), pos))
    } else if pos + 8 <= b.len() {
        let l = u64_of(b.subrange(pos, pos + 8));
        if pos + 8 + l <= b.len() {
            match parse_items(b, pos + 8 + l, (n - 1) as nat) {
                Some((rest, end)) => Some(
                    (seq![b.subrange(pos + 8, pos + 8 + l)] + rest, end),
                ),
                None => None,
            }
        } else {
            None
        }
    } else {
        None
    }
}

/// Specification-level parse of an envelope.  `None` exactly on buffers
/// that no envelope encodes to.
pub open spec fn parse_envelope_spec(b: Seq<u8>) -> Option<(u8, u32, Seq<Seq<u8>>, Seq<u8>)> {
    if b.len() < 21 {
        None
    } else if b.subrange(0, 4) != u32_le(BUNDLE_MAGIC) {
        None
    } else if b.subrange(4, 8) != u32_le(FORMAT_VERSION) {
        None
    } else {
        let kind = b[8];
        let profile = u32_of(b.subrange(9, 13));
        let n = u64_of(b.subrange(13, 21));
        match parse_items(b, 21, n as nat) {
            Some((items, pos)) => {
                if pos + 8 <= b.len() {
                    let kl = u64_of(b.subrange(pos, pos + 8));
                    if pos + 8 + kl == b.len() {
                        Some(((kind, profile as u32, items, b.subrange(pos + 8, pos + 8 + kl))))
                    } else {
                        None
                    }
                } else {
                    None
                }
            },
            None => None,
        }
    }
}

/// A parsed envelope.
#[derive(Debug)]
pub struct Envelope {
    pub kind: u8,
    pub profile: u32,
    pub items: Vec<Vec<u8>>,
    pub key: Vec<u8>,
}

fn write_u32(out: Vec<u8>, x: u32) -> (r: Vec<u8>)
    ensures
        r@ == out@ + u32_le(x),
{
    let ghost orig = out@;
    let mut acc = out;
    acc.push((x & 0xff) as u8);
    acc.push(((x >> 8) & 0xff) as u8);
    acc.push(((x >> 16) & 0xff) as u8);
    acc.push(((x >> 24) & 0xff) as u8);
    proof {
        assert(acc@ =~= orig + u32_le(x));
    }
    acc
}

fn write_u64(out: Vec<u8>, x: u64) -> (r: Vec<u8>)
    ensures
        r@ == out@ + u64_le(x),
{
    let ghost orig = out@;
    let mut acc = out;
    acc.push((x & 0xff) as u8);
    acc.push(((x >> 8) & 0xff) as u8);
    acc.push(((x >> 16) & 0xff) as u8);
    acc.push(((x >> 24) & 0xff) as u8);
    acc.push(((x >> 32) & 0xff) as u8);
    acc.push(((x >> 40) & 0xff) as u8);
    acc.push(((x >> 48) & 0xff) as u8);
    acc.push(((x >> 56) & 0xff) as u8);
    proof {
        assert(acc@ =~= orig + u64_le(x));
    }
    acc
}

fn append_bytes(out: Vec<u8>, v: &Vec<u8>) -> (r: Vec<u8>)
    ensures
        r@ == out@ + v@,
{
    let mut acc = out;
    let ghost orig = acc@;
    let mut j: usize = 0;
    while j < v.len()
        invariant
            j <= v@.len(),
            acc@ == orig + v@.subrange(0, j as int),
        decreases v@.len() - j,
    {
        acc.push(v[j]);
        proof {
            assert(v@.subrange(0, j + 1) =~= v@.subrange(0, j as int).push(v@[j as int]));
            assert(orig + v@.subrange(0, j + 1) =~= (orig + v@.subrange(0, j as int)).push(
                v@[j as int],
            ));
        }
        j = j + 1;
    }
    proof {
        assert(acc@ =~= orig + v@);
    }
    acc
}

proof fn lemma_enc_items_snoc(items: Seq<Seq<u8>>, z: Seq<u8>)
    ensures
        enc_items(items.push(z)) == enc_items(items) + u64_le(z.len() as u64) + z,
    decreases items.len(),
{
    let p = items.push(z);
    if items.len() == 0 {
        assert(p[0] == z);
        assert(p.drop_first() =~= Seq::<Seq<u8>>::empty());
        assert(enc_items(p) == u64_le(p[0].len() as u64) + p[0] + enc_items(p.drop_first()));
        assert(enc_items(items) == Seq::<u8>::empty());
        assert(enc_items(p.drop_first()) == Seq::<u8>::empty());
        assert(enc_items(p) =~= enc_items(items) + u64_le(z.len() as u64) + z);
    } else {
        assert(p[0] == items[0]);
        assert(p.drop_first() =~= items.drop_first().push(z));
        lemma_enc_items_snoc(items.drop_first(), z);
        assert(enc_items(p) == u64_le(p[0].len() as u64) + p[0] + enc_items(p.drop_first()));
        assert(enc_items(p.drop_first()) == enc_items(items.drop_first()) + u64_le(
            z.len() as u64,
        ) + z);
        assert(enc_items(items) == u64_le(items[0].len() as u64) + items[0] + enc_items(
            items.drop_first(),
        ));
        assert(enc_items(p) =~= enc_items(items) + u64_le(z.len() as u64) + z);
    }
}

/// Serialize an envelope.  The result is exactly the encoding of its
/// fields.
pub fn serialize_envelope(kind: u8, profile: u32, items: &Vec<Vec<u8>>, key: &Vec<u8>) -> (r: Vec<
    u8,
>)
    ensures
        r@ == enc_envelope(kind, profile, blob_views(items@), key@),
        items@.len() <= u64::MAX,
        key@.len() <= u64::MAX,
        forall|i: int|
            0 <= i < items@.len() ==> #[trigger] blob_views(items@)[i].len() <= u64::MAX,
{
    let mut out: Vec<u8> = Vec::new();
    let out = write_u32(out, BUNDLE_MAGIC);
    let out = write_u32(out, FORMAT_VERSION);
    let mut out = out;
    out.push(kind);
    let out = write_u32(out, profile);
    let out = write_u64(out, items.len() as u64);
    let ghost header = out@;
    let mut out = out;
    let mut i: usize = 0;
    while i < items.len()
        invariant
            i <= items@.len(),
            out@ == header + enc_items(blob_views(items@).subrange(0, i as int)),
            forall|k: int|
                0 <= k < i ==> #[trigger] blob_views(items@)[k].len() <= u64::MAX,
        decreases items@.len() - i,
    {
        let out2 = write_u64(out, items[i].len() as u64);
        let out3 = append_bytes(out2, &items[i]);
        proof {
            let s = blob_views(items@);
            assert(s.subrange(0, i + 1) =~= s.subrange(0, i as int).push(s[i as int]));
            lemma_enc_items_snoc(s.subrange(0, i as int), s[i as int]);
            assert(s[i as int] == items@[i as int]@);
            assert(header + enc_items(s.subrange(0, i + 1)) =~= header + enc_items(
                s.subrange(0, i as int),
            ) + u64_le(items@[i as int]@.len() as u64) + items@[i as int]@);
        }
        out = out3;
        i = i + 1;
    }
    proof {
        assert(blob_views(items@).subrange(0, items@.len() as int) =~= blob_views(items@));
    }
    let out = write_u64(out, key.len() as u64);
    let out = append_bytes(out, key);
    proof {
        assert(out@ =~= enc_envelope(kind, profile, blob_views(items@), key@));
    }
    out
}

fn read_u32_at(b: &Vec<u8>, pos: usize) -> (r: u32)
    requires
        pos + 4 <= b@.len(),
    ensures
        r as int == u32_of(b@.subrange(pos as int, pos as int + 4)),
{
    let blen = b.len();
    assert(pos + 4 <= blen);
    let r = (b[pos] as u32) + (b[pos + 1] as u32) * 0x100 + (b[pos + 2] as u32) * 0x1_0000 + (b[pos
        + 3] as u32) * 0x100_0000;
    proof {
        let s = b@.subrange(pos as int, pos as int + 4);
        assert(s[0] == b@[pos as int] && s[1] == b@[pos as int + 1] && s[2] == b@[pos as int + 2]
            && s[3] == b@[pos as int + 3]);
    }
    r
}

fn read_u64_at(b: &Vec<u8>, pos: usize) -> (r: u64)
    requires
        pos + 8 <= b@.len(),
    ensures
        r as int == u64_of(b@.subrange(pos as int, pos as int + 8)),
{
    let blen = b.len();
    assert(pos + 8 <= blen);
    let r = (b[pos] as u64) + (b[pos + 1] as u64) * 0x100 + (b[pos + 2] as u64) * 0x1_0000 + (b[pos
        + 3] as u64) * 0x100_0000 + (b[pos + 4] as u64) * 0x1_0000_0000 + (b[pos + 5] as u64)
        * 0x100_0000_0000 + (b[pos + 6] as u64) * 0x1_0000_0000_0000 + (b[pos + 7] as u64)
        * 0x100_0000_0000_0000;
    proof {
        let s = b@.subrange(pos as int, pos as int + 8);
        assert(s[0] == b@[pos as int] && s[1] == b@[pos as int + 1] && s[2] == b@[pos as int + 2]
            && s[3] == b@[pos as int + 3] && s[4] == b@[pos as int + 4] && s[5] == b@[pos as int
            + 5] && s[6] == b@[pos as int + 6] && s[7] == b@[pos as int + 7]);
    }
    r
}

fn read_bytes(b: &Vec<u8>, start: usize, len: usize) -> (r: Vec<u8>)
    requires
        start + len <= b@.len(),
    ensures
        r@ == b@.subrange(start as int, start as int + len as int),
{
    let blen = b.len();
    let mut acc: Vec<u8> = Vec::new();
    let mut j: usize = 0;
    while j < len
        invariant
            j <= len,
            start + len <= b@.len(),
            b@.len() == blen,
            acc@ == b@.subrange(start as int, start as int + j as int),
        decreases len - j,
    {
        acc.push(b[start + j]);
        proof {
            assert(b@.subrange(start as int, start as int + j + 1) =~= b@.subrange(
                start as int,
                start as int + j as int,
            ).push(b@[start as int + j as int]));
        }
        j = j + 1;
    }
    acc
}

fn check_u32_at(b: &Vec<u8>, pos: usize, x: u32) -> (r: bool)
    requires
        pos + 4 <= b@.len(),
    ensures
        r == (b@.subrange(pos as int, pos as int + 4) == u32_le(x)),
{
    let blen = b.len();
    assert(pos + 4 <= blen);
    let r = b[pos] == (x & 0xff) as u8 && b[pos + 1] == ((x >> 8) & 0xff) as u8 && b[pos + 2]
        == ((x >> 16) & 0xff) as u8 && b[pos + 3] == ((x >> 24) & 0xff) as u8;
    proof {
        let s = b@.subrange(pos as int, pos as int + 4);
        assert(s[0] == b@[pos as int] && s[1] == b@[pos as int + 1] && s[2] == b@[pos as int + 2]
            && s[3] == b@[pos as int + 3]);
        if r {
            assert(s =~= u32_le(x));
        } else {
            assert(s != u32_le(x));
        }
    }
    r
}

/// Parse an envelope.  The result is exactly what the specification-level
/// parse of the bytes gives: success if and only if some envelope encodes
/// to the bytes, and then the unique such envelope.
pub fn parse_envelope(b: &Vec<u8>) -> (r: Result<Envelope, Error>)
    ensures
        match r {
            Ok(env) => parse_envelope_spec(b@) == Some(
                ((env.kind, env.profile, blob_views(env.items@), env.key@)),
            ),
            Err(e) => parse_envelope_spec(b@) is None && e == Error::DeserializationError,
        },
{
    if b.len() < 21 {
        return Err(Error::DeserializationError);
    }
    if !check_u32_at(b, 0, BUNDLE_MAGIC) {
        return Err(Error::DeserializationError);
    }
    if !check_u32_at(b, 4, FORMAT_VERSION) {
        return Err(Error::DeserializationError);
    }
    let kind = b[8];
    let profile_int = read_u32_at(b, 9);
    let profile = profile_int;
    let n = read_u64_at(b, 13);
    let ghost gn = u64_of(b@.subrange(13, 21)) as nat;
    let mut items: Vec<Vec<u8>> = Vec::new();
    let mut cur: usize = 21;
    let mut i: u64 = 0;
    while i < n
        invariant
            b@.len() >= 21,
            b@.subrange(0, 4) == u32_le(BUNDLE_MAGIC),
            b@.subrange(4, 8) == u32_le(FORMAT_VERSION),
            gn == u64_of(b@.subrange(13, 21)),
            i <= n,
            n as int == gn,
            cur <= b@.len(),
            blob_views(items@).len() == i,
            match parse_items(b@, cur as int, (n - i) as nat) {
                Some((rest, end)) => parse_items(b@, 21, gn) == Some(
                    (blob_views(items@) + rest, end),
                ),
                None => parse_items(b@, 21, gn) is None,
            },
        decreases n - i,
    {
        if b.len() - cur < 8 {
            proof {
                assert(parse_items(b@, cur as int, (n - i) as nat) is None);
            }
            return Err(Error::DeserializationError);
        }
        let l = read_u64_at(b, cur);
        if l > (b.len() - cur - 8) as u64 {
            proof {
                assert(parse_items(b@, cur as int, (n - i) as nat) is None);
            }
            return Err(Error::DeserializationError);
        }
        let llen = l as usize;
        let item = read_bytes(b, cur + 8, llen);
        let ghost prev_items = blob_views(items@);
        let ghost prev_cur = cur as int;
        items.push(item);
        cur = cur + 8 + llen;
        i = i + 1;
        proof {
            assert(blob_views(items@) =~= prev_items.push(item@));
            let li = u64_of(b@.subrange(prev_cur, prev_cur + 8));
            assert(li == l as int);
            assert(item@ == b@.subrange(prev_cur + 8, prev_cur + 8 + li));
            match parse_items(b@, cur as int, (n - i) as nat) {
                Some((rest, end)) => {
                    assert(parse_items(b@, prev_cur, (n - i + 1) as nat) == Some(
                        (seq![item@] + rest, end),
                    ));
                    assert(prev_items + (seq![item@] + rest) =~= blob_views(items@) + rest);
                },
                None => {
                    assert(parse_items(b@, prev_cur, (n - i + 1) as nat) is None);
                },
            }
        }
    }
    proof {
        assert(parse_items(b@, cur as int, 0) == Some((Seq::<Seq<u8>>::empty(), cur as int)));
        assert(blob_views(items@) + Seq::<Seq<u8>>::empty() =~= blob_views(items@));
        assert(parse_items(b@, 21, gn) == Some((blob_views(items@), cur as int)));
    }
    if b.len() - cur < 8 {
        return Err(Error::DeserializationError);
    }
    let kl = read_u64_at(b, cur);
    if kl != (b.len() - cur - 8) as u64 {
        return Err(Error::DeserializationError);
    }
    let key = read_bytes(b, cur + 8, kl as usize);
    proof {
        assert(profile as int == u32_of(b@.subrange(9, 13)));
        assert(kind == b@[8]);
    }
    Ok(Envelope { kind, profile, items, key })
}

/// Concatenation re-association.
proof fn lemma_assoc_pair(a: Seq<u8>, b: Seq<u8>, c: Seq<u8>)
    ensures
        (a + b) + c == a + (b + c),
{
    assert((a + b) + c =~= a + (b + c));
}

/// The header fields of a buffer that starts with the five header parts.
proof fn lemma_header_parts(
    m: Seq<u8>,
    v: Seq<u8>,
    kb: Seq<u8>,
    p: Seq<u8>,
    n: Seq<u8>,
    restb: Seq<u8>,
    b: Seq<u8>,
)
    requires
        m.len() == 4,
        v.len() == 4,
        kb.len() == 1,
        p.len() == 4,
        n.len() == 8,
        b == ((((m + v) + kb) + p) + n) + restb,
    ensures
        b.len() == 21 + restb.len(),
        b.subrange(0, 4) == m,
        b.subrange(4, 8) == v,
        b[8] == kb[0],
        b.subrange(9, 13) == p,
        b.subrange(13, 21) == n,
{
    assert(b.subrange(0, 4) =~= m);
    assert(b.subrange(4, 8) =~= v);
    assert(b.subrange(9, 13) =~= p);
    assert(b.subrange(13, 21) =~= n);
}

/// Assembling a successful parse from the field facts of a buffer.
proof fn lemma_parse_envelope_assemble(
    b: Seq<u8>,
    kind: u8,
    profile: u32,
    items: Seq<Seq<u8>>,
    key: Seq<u8>,
    pos: int,
)
    requires
        b.len() >= 21,
        b.subrange(0, 4) == u32_le(BUNDLE_MAGIC),
        b.subrange(4, 8) == u32_le(FORMAT_VERSION),
        b[8] == kind,
        u32_of(b.subrange(9, 13)) == profile,
        u64_of(b.subrange(13, 21)) == items.len(),
        parse_items(b, 21, items.len()) == Some((items, pos)),
        pos + 8 <= b.len(),
        u64_of(b.subrange(pos, pos + 8)) == key.len(),
        b.subrange(pos + 8, b.len() as int) == key,
        pos + 8 + key.len() == b.len(),
    ensures
        parse_envelope_spec(b) == Some(((kind, profile, items, key))),
{
    assert(b.subrange(pos + 8, pos + 8 + key.len() as int) == key);
}

/// Law: the envelope codec round-trips.  Parsing the encoding of any
/// envelope whose record and key lengths are representable yields exactly
/// that envelope.
#[verifier::rlimit(100)]
#[verifier::spinoff_prover]
pub proof fn lemma_envelope_roundtrip(kind: u8, profile: u32, items: Seq<Seq<u8>>, key: Seq<u8>)
    requires
        items.len() <= u64::MAX,
        key.len() <= u64::MAX,
        forall|i: int| 0 <= i < items.len() ==> #[trigger] items[i].len() <= u64::MAX,
    ensures
        parse_envelope_spec(enc_envelope(kind, profile, items, key)) == Some(
            ((kind, profile, items, key)),
        ),
{
    let b = enc_envelope(kind, profile, items, key);
    let head = u32_le(BUNDLE_MAGIC) + u32_le(FORMAT_VERSION) + seq![kind] + u32_le(profile)
        + u64_le(items.len() as u64);
    let kl = u64_le(key.len() as u64);
    let tail = kl + key;
    lemma_u32_le_of(BUNDLE_MAGIC);
    lemma_u32_le_of(FORMAT_VERSION);
    lemma_u32_le_of(profile);
    lemma_u64_le_of(items.len() as u64);
    lemma_u64_le_of(key.len() as u64);
    lemma_assoc_pair(head + enc_items(items), kl, key);
    assert(b == (head + enc_items(items)) + tail);
    lemma_assoc_pair(head, enc_items(items), tail);
    assert(b == head + (enc_items(items) + tail));
    lemma_header_parts(
        u32_le(BUNDLE_MAGIC),
        u32_le(FORMAT_VERSION),
        seq![kind],
        u32_le(profile),
        u64_le(items.len() as u64),
        enc_items(items) + tail,
        b,
    );
    lemma_parse_items_enc(items, head, tail);
    assert(parse_items(b, 21, items.len()) == Some(
        (items, (21 + enc_items(items).len()) as int),
    ));
    let pos = 21 + enc_items(items).len() as int;
    let pre3 = head + enc_items(items);
    assert(b == pre3 + kl + key);
    lemma_three_part_mid(pre3, kl, key, b);
    assert(pre3.len() == pos);
    assert(u64_of(b.subrange(pos, pos + 8)) == key.len());
    assert(b.subrange(pos + 8, b.len() as int) == key);
    assert(pos + 8 + key.len() == b.len());
    lemma_parse_envelope_assemble(b, kind, profile, items, key, pos);
}

/// The middle part of a three-part concatenation is the subrange at its
/// offset.
proof fn lemma_three_part_mid(pre: Seq<u8>, mid: Seq<u8>, post: Seq<u8>, b: Seq<u8>)
    requires
        b == pre + mid + post,
    ensures
        b.subrange(pre.len() as int, (pre.len() + mid.len()) as int) == mid,
        b.subrange((pre.len() + mid.len()) as int, b.len() as int) == post,
        b.len() == pre.len() + mid.len() + post.len(),
{
    assert(b.subrange(pre.len() as int, (pre.len() + mid.len()) as int) =~= mid);
    assert(b.subrange((pre.len() + mid.len()) as int, b.len() as int) =~= post);
}

/// Re-association of a five-part concatenation.
proof fn lemma_regroup_five(p: Seq<u8>, x: Seq<u8>, y: Seq<u8>, z: Seq<u8>, s: Seq<u8>)
    ensures
        (p + (x + y + z)) + s == (p + x) + (y + z + s),
        (p + (x + y + z)) + s == ((p + x) + y) + (z + s),
        (p + (x + y + z)) + s == (((p + x) + y) + z) + s,
{
    assert((p + (x + y + z)) + s =~= (p + x) + (y + z + s));
    assert((p + (x + y + z)) + s =~= ((p + x) + y) + (z + s));
    assert((p + (x + y + z)) + s =~= (((p + x) + y) + z) + s);
}

/// Parsing the record-list encoding embedded between any prefix and
/// suffix yields the records and the position after them.
#[verifier::rlimit(100)]
proof fn lemma_parse_items_enc(items: Seq<Seq<u8>>, prefix: Seq<u8>, suffix: Seq<u8>)
    requires
        forall|i: int| 0 <= i < items.len() ==> #[trigger] items[i].len() <= u64::MAX,
    ensures
        parse_items(prefix + enc_items(items) + suffix, prefix.len() as int, items.len()) == Some(
            (items, (prefix.len() + enc_items(items).len()) as int),
        ),
    decreases items.len(),
{
    let b = prefix + enc_items(items) + suffix;
    let pos = prefix.len() as int;
    if items.len() == 0 {
        assert(enc_items(items).len() == 0);
        assert(items =~= Seq::<Seq<u8>>::empty());
    } else {
        let item0 = items[0];
        let l0 = item0.len() as int;
        let lenb = u64_le(item0.len() as u64);
        let rest = items.drop_first();
        assert(enc_items(items) == lenb + item0 + enc_items(rest));
        lemma_u64_le_of(item0.len() as u64);
        lemma_regroup_five(prefix, lenb, item0, enc_items(rest), suffix);
        assert(b == (prefix + lenb) + (item0 + enc_items(rest) + suffix));
        lemma_three_part_mid(prefix, lenb, item0 + enc_items(rest) + suffix, b);
        assert(u64_of(b.subrange(pos, pos + 8)) == l0);
        let pre2 = prefix + lenb;
        assert(b == (pre2 + item0) + (enc_items(rest) + suffix));
        lemma_three_part_mid(pre2, item0, enc_items(rest) + suffix, b);
        assert(b.subrange(pos + 8, pos + 8 + l0) == item0);
        let prefix2 = pre2 + item0;
        assert(b == prefix2 + enc_items(rest) + suffix);
        assert(forall|i: int| 0 <= i < rest.len() ==> #[trigger] rest[i].len() <= u64::MAX);
        lemma_parse_items_enc(rest, prefix2, suffix);
        assert(parse_items(b, pos + 8 + l0, rest.len()) == Some(
            (rest, (prefix2.len() + enc_items(rest).len()) as int),
        ));
        assert(pos + 8 + l0 <= b.len());
        assert(seq![item0] + rest =~= items);
        assert((prefix2.len() + enc_items(rest).len()) as int == (prefix.len() + enc_items(
            items,
        ).len()) as int);
        assert(parse_items(b, pos, items.len()) == Some(
            (items, (prefix.len() + enc_items(items).len()) as int),
        ));
    }
}

} // verus!
