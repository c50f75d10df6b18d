//! The byte encoding of a log record: what its signature and its id cover.
use vstd::prelude::*;
use vstd::string::*;
use crate::digest::{Digest, DigestView};
use crate::validation::{Entry, EntryView};

verus! {

/// An integer as eight bytes, least significant first.
pub open spec fn u64_bytes(n: u64) -> Seq<u8> {
    seq![
        (n % 256) as u8,
        (n / 256 % 256) as u8,
        (n / 65536 % 256) as u8,
        (n / 16777216 % 256) as u8,
        (n / 4294967296 % 256) as u8,
        (n / 1099511627776 % 256) as u8,
        (n / 281474976710656 % 256) as u8,
        (n / 72057594037927936 % 256) as u8,
    ]
}

/// A character as the four bytes of its code point, least significant first.
pub open spec fn char_bytes(c: char) -> Seq<u8> {
    seq![
        ((c as u32) % 256) as u8,
        ((c as u32) / 256 % 256) as u8,
        ((c as u32) / 65536 % 256) as u8,
        ((c as u32) / 16777216 % 256) as u8,
    ]
}

pub open spec fn chars_bytes(s: Seq<char>) -> Seq<u8>
    decreases s.len(),
{
    if s.len() == 0 {
        Seq::empty()
    } else {
        chars_bytes(s.drop_last()) + char_bytes(s.last())
    }
}

/// Text: its length in characters, then its characters.
pub open spec fn text_bytes(s: Seq<char>) -> Seq<u8> {
    u64_bytes(s.len() as u64) + chars_bytes(s)
}

/// A byte string: its length, then its bytes.
pub open spec fn field_bytes(b: Seq<u8>) -> Seq<u8> {
    u64_bytes(b.len() as u64) + b
}

/// A digest: the algorithm's tag (SHA-256 is 0), then its bytes.
pub open spec fn digest_bytes(d: DigestView) -> Seq<u8> {
    seq![0u8] + field_bytes(d.bytes)
}

/// An entry: a tag (0 for `Init`, 1 for `Release`), then its fields.
pub open spec fn entry_bytes(e: EntryView) -> Seq<u8> {
    match e {
        EntryView::Init { algorithm, key } => seq![0u8, 0u8] + text_bytes(key),
        EntryView::Release { version, content } => seq![1u8] + text_bytes(version) + digest_bytes(
            content,
        ),
    }
}

pub open spec fn entries_bytes(es: Seq<EntryView>) -> Seq<u8>
    decreases es.len(),
{
    if es.len() == 0 {
        Seq::empty()
    } else {
        entries_bytes(es.drop_last()) + entry_bytes(es.last())
    }
}

/// A record: its previous record (0, or 1 and the digest), its schema
/// version, its timestamp, the number of entries, then the entries in order.
pub open spec fn record_bytes(
    prev: Option<DigestView>,
    version: u32,
    timestamp: u64,
    es: Seq<EntryView>,
) -> Seq<u8> {
    (match prev {
        None => seq![0u8],
        Some(d) => seq![1u8] + digest_bytes(d),
    }) + u64_bytes(version as u64) + u64_bytes(timestamp) + u64_bytes(es.len() as u64)
        + entries_bytes(es)
}

fn push_u64(buf: &mut Vec<u8>, n: u64)
    ensures
        final(buf)@ == old(buf)@ + u64_bytes(n),
{
    buf.push((n % 256) as u8);
    buf.push((n / 256 % 256) as u8);
    buf.push((n / 65536 % 256) as u8);
    buf.push((n / 16777216 % 256) as u8);
    buf.push((n / 4294967296 % 256) as u8);
    buf.push((n / 1099511627776 % 256) as u8);
    buf.push((n / 281474976710656 % 256) as u8);
    buf.push((n / 72057594037927936 % 256) as u8);
    assert(buf@ =~= old(buf)@ + u64_bytes(n));
}

fn push_text(buf: &mut Vec<u8>, s: &String)
    ensures
        final(buf)@ == old(buf)@ + text_bytes(s@),
{
    let n = s.as_str().unicode_len();
    push_u64(buf, n as u64);
    let ghost start = buf@;
    let mut i: usize = 0;
    assert(s@.take(0) =~= Seq::<char>::empty());
    assert(buf@ =~= start + chars_bytes(s@.take(0)));
    while i < n
        invariant
            n == s@.len(),
            0 <= i <= n,
            buf@ == start + chars_bytes(s@.take(i as int)),
            start == old(buf)@ + u64_bytes(n as u64),
        decreases n - i,
    {
        let c = s.as_str().get_char(i);
        let v = c as u32;
        let ghost before = buf@;
        buf.push((v % 256) as u8);
        buf.push((v / 256 % 256) as u8);
        buf.push((v / 65536 % 256) as u8);
        buf.push((v / 16777216 % 256) as u8);
        assert(s@.take(i + 1).drop_last() =~= s@.take(i as int));
        assert(s@.take(i + 1).last() == c);
        assert(buf@ =~= before + char_bytes(c));
        assert(buf@ =~= start + chars_bytes(s@.take(i + 1)));
        i = i + 1;
    }
    assert(s@.take(n as int) =~= s@);
    assert(buf@ =~= old(buf)@ + text_bytes(s@));
}

fn push_digest(buf: &mut Vec<u8>, d: &Digest)
    ensures
        final(buf)@ == old(buf)@ + digest_bytes(d@),
{
    buf.push(0u8);
    push_u64(buf, d.bytes.len() as u64);
    let ghost start = buf@;
    let mut i: usize = 0;
    while i < d.bytes.len()
        invariant
            0 <= i <= d.bytes@.len(),
            buf@ == start + d.bytes@.take(i as int),
            start == old(buf)@ + seq![0u8] + u64_bytes(d.bytes@.len() as u64),
        decreases d.bytes@.len() - i,
    {
        buf.push(d.bytes[i]);
        assert(buf@ =~= start + d.bytes@.take(i + 1));
        i = i + 1;
    }
    assert(d.bytes@.take(i as int) =~= d.bytes@);
    assert(buf@ =~= old(buf)@ + digest_bytes(d@));
}

fn push_entry(buf: &mut Vec<u8>, e: &Entry)
    ensures
        final(buf)@ == old(buf)@ + entry_bytes(e@),
{
    match e {
        Entry::Init { algorithm: _, key } => {
            buf.push(0u8);
            buf.push(0u8);
            push_text(buf, key);
            assert(buf@ =~= old(buf)@ + entry_bytes(e@));
        },
        Entry::Release { version, content } => {
            buf.push(1u8);
            push_text(buf, version);
            push_digest(buf, content);
            assert(buf@ =~= old(buf)@ + entry_bytes(e@));
        },
    }
}

/// The bytes a record's signature and id cover.
pub fn encode_record(prev: &Option<Digest>, version: u32, timestamp: u64, entries: &Vec<Entry>) -> (r: Vec<u8>)
    ensures
        r@ == record_bytes(
            crate::validation::opt_view(*prev),
            version,
            timestamp,
            entries@.map_values(|e: Entry| e@),
        ),
{
    let mut buf: Vec<u8> = Vec::new();
    match prev {
        None => buf.push(0u8),
        Some(d) => {
            buf.push(1u8);
            push_digest(&mut buf, d);
        },
    }
    push_u64(&mut buf, version as u64);
    push_u64(&mut buf, timestamp);
    push_u64(&mut buf, entries.len() as u64);
    let ghost es = entries@.map_values(|e: Entry| e@);
    let ghost start = buf@;
    let mut i: usize = 0;
    assert(es.take(0) =~= Seq::<EntryView>::empty());
    assert(buf@ =~= start + entries_bytes(es.take(0)));
    while i < entries.len()
        invariant
            es == entries@.map_values(|e: Entry| e@),
            0 <= i <= entries@.len(),
            buf@ == start + entries_bytes(es.take(i as int)),
        decreases entries@.len() - i,
    {
        let ghost before = buf@;
        push_entry(&mut buf, &entries[i]);
        assert(es.take(i + 1).drop_last() =~= es.take(i as int));
        assert(es.take(i + 1).last() == entries@[i as int]@);
        assert(buf@ =~= start + entries_bytes(es.take(i + 1)));
        i = i + 1;
    }
    assert(es.take(i as int) =~= es);
    assert(buf@ =~= record_bytes(crate::validation::opt_view(*prev), version, timestamp, es));
    buf
}

} // verus!
