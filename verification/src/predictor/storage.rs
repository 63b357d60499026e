//! The on-disk form of the learned data: a versioned list of entries.
//!
//! The library only frames and checks bytes; reading and atomically writing
//! the file is the caller's business.  Layout: one version byte, the entry
//! count as eight little-endian bytes, then eighteen bytes per entry (lux,
//! a two-byte optional luma, brightness).

use super::data::{Data, Entry, MAX_ENTRIES};
use vstd::prelude::*;

verus! {

/// First byte of every valid file.
pub const STORAGE_VERSION: u8 = 1;

/// A `u64` as eight little-endian bytes.
pub open spec fn spec_u64_le(x: u64) -> Seq<u8> {
    seq![
        (x & 0xff) as u8,
        ((x >> 8) & 0xff) as u8,
        ((x >> 16) & 0xff) as u8,
        ((x >> 24) & 0xff) as u8,
        ((x >> 32) & 0xff) as u8,
        ((x >> 40) & 0xff) as u8,
        ((x >> 48) & 0xff) as u8,
        ((x >> 56) & 0xff) as u8,
    ]
}

/// The `u64` eight little-endian bytes hold.
pub open spec fn spec_u64_of_le(b: Seq<u8>) -> u64
    recommends
        b.len() == 8,
{
    (b[0] as u64) | ((b[1] as u64) << 8) | ((b[2] as u64) << 16) | ((b[3] as u64) << 24) | ((
    b[4] as u64) << 32) | ((b[5] as u64) << 40) | ((b[6] as u64) << 48) | ((b[7] as u64) << 56)
}

pub proof fn lemma_u64_le_roundtrip(x: u64)
    ensures
        spec_u64_of_le(spec_u64_le(x)) == x,
{
    assert((x & 0xff) | (((x >> 8) & 0xff) << 8) | (((x >> 16) & 0xff) << 16) | (((x >> 24)
        & 0xff) << 24) | (((x >> 32) & 0xff) << 32) | (((x >> 40) & 0xff) << 40) | (((x >> 48)
        & 0xff) << 48) | (((x >> 56) & 0xff) << 56) == x) by (bit_vector);
    assert(x & 0xff < 256 && (x >> 8) & 0xff < 256 && (x >> 16) & 0xff < 256 && (x >> 24) & 0xff
        < 256 && (x >> 32) & 0xff < 256 && (x >> 40) & 0xff < 256 && (x >> 48) & 0xff < 256 && (x
        >> 56) & 0xff < 256) by (bit_vector);
}

/// The two bytes holding an optional luma.
pub open spec fn spec_luma_bytes(l: Option<u8>) -> Seq<u8> {
    match l {
        Option::None => seq![0u8, 0u8],
        Option::Some(v) => seq![1u8, v],
    }
}

pub open spec fn spec_encode_entry(e: Entry) -> Seq<u8> {
    spec_u64_le(e.lux) + spec_luma_bytes(e.luma) + spec_u64_le(e.brightness)
}

pub open spec fn spec_decode_entry(b: Seq<u8>) -> Entry
    recommends
        b.len() == 18,
{
    Entry {
        lux: spec_u64_of_le(b.subrange(0, 8)),
        luma: if b[8] == 0 {
            Option::None
        } else {
            Option::Some(b[9])
        },
        brightness: spec_u64_of_le(b.subrange(10, 18)),
    }
}

pub open spec fn spec_encode_entries(s: Seq<Entry>) -> Seq<u8>
    decreases s.len(),
{
    if s.len() == 0 {
        Seq::empty()
    } else {
        spec_encode_entries(s.drop_last()) + spec_encode_entry(s.last())
    }
}

pub open spec fn spec_decode_entries(b: Seq<u8>, count: int) -> Seq<Entry>
    recommends
        b.len() == 18 * count,
        count >= 0,
    decreases count,
{
    if count <= 0 {
        Seq::empty()
    } else {
        spec_decode_entries(b.take(18 * (count - 1)), count - 1).push(
            spec_decode_entry(b.skip(18 * (count - 1))),
        )
    }
}

/// The whole file for an entry list.
pub open spec fn spec_encode(s: Seq<Entry>) -> Seq<u8> {
    seq![STORAGE_VERSION] + spec_u64_le(s.len() as u64) + spec_encode_entries(s)
}

/// The entry list a whole file holds, or nothing when the file is corrupt.
pub open spec fn spec_decode(b: Seq<u8>) -> Option<Seq<Entry>> {
    if b.len() < 9 {
        Option::None
    } else if b[0] != STORAGE_VERSION {
        Option::None
    } else {
        let count = spec_u64_of_le(b.subrange(1, 9)) as int;
        if count > MAX_ENTRIES {
            Option::None
        } else if b.len() != 9 + 18 * count {
            Option::None
        } else {
            Option::Some(spec_decode_entries(b.skip(9), count))
        }
    }
}

pub proof fn lemma_encode_entries_len(s: Seq<Entry>)
    ensures
        spec_encode_entries(s).len() == 18 * s.len(),
    decreases s.len(),
{
    if s.len() > 0 {
        lemma_encode_entries_len(s.drop_last());
        assert(18 * s.len() == 18 * (s.len() - 1) + 18) by (nonlinear_arith);
    }
}

proof fn lemma_entry_roundtrip(e: Entry)
    ensures
        spec_decode_entry(spec_encode_entry(e)) == e,
{
    let b = spec_encode_entry(e);
    assert(b.subrange(0, 8) =~= spec_u64_le(e.lux));
    assert(b.subrange(10, 18) =~= spec_u64_le(e.brightness));
    lemma_u64_le_roundtrip(e.lux);
    lemma_u64_le_roundtrip(e.brightness);
    match e.luma {
        Option::None => {
            assert(b[8] == 0);
        },
        Option::Some(v) => {
            assert(b[8] == 1 && b[9] == v);
        },
    }
}

proof fn lemma_entries_roundtrip(s: Seq<Entry>)
    ensures
        spec_decode_entries(spec_encode_entries(s), s.len() as int) == s,
    decreases s.len(),
{
    if s.len() > 0 {
        let b = spec_encode_entries(s);
        let head = s.drop_last();
        lemma_encode_entries_len(head);
        lemma_encode_entries_len(s);
        assert(18 * s.len() == 18 * (s.len() - 1) + 18) by (nonlinear_arith);
        assert(b.take(18 * (s.len() - 1)) =~= spec_encode_entries(head));
        assert(b.skip(18 * (s.len() - 1)) =~= spec_encode_entry(s.last()));
        lemma_entries_roundtrip(head);
        lemma_entry_roundtrip(s.last());
        assert(spec_decode_entries(b, s.len() as int) =~= s);
    }
}

/// Law: a saved data set loads back as exactly the entry list it held.
pub proof fn lemma_storage_roundtrip(s: Seq<Entry>)
    requires
        s.len() <= MAX_ENTRIES,
    ensures
        spec_decode(spec_encode(s)) == Option::Some(s),
{
    let b = spec_encode(s);
    lemma_encode_entries_len(s);
    assert(b[0] == STORAGE_VERSION);
    assert(b.subrange(1, 9) =~= spec_u64_le(s.len() as u64));
    lemma_u64_le_roundtrip(s.len() as u64);
    assert(b.skip(9) =~= spec_encode_entries(s));
    lemma_entries_roundtrip(s);
}

/// Append a `u64` to the file being built, little-endian.
fn push_u64_le(out: &mut Vec<u8>, x: u64)
    ensures
        final(out)@ == old(out)@ + spec_u64_le(x),
{
    out.push((x & 0xff) as u8);
    out.push(((x >> 8) & 0xff) as u8);
    out.push(((x >> 16) & 0xff) as u8);
    out.push(((x >> 24) & 0xff) as u8);
    out.push(((x >> 32) & 0xff) as u8);
    out.push(((x >> 40) & 0xff) as u8);
    out.push(((x >> 48) & 0xff) as u8);
    out.push(((x >> 56) & 0xff) as u8);
    proof {
        assert(out@ =~= old(out)@ + spec_u64_le(x));
    }
}

/// Read the `u64` stored at `off`, little-endian.
fn read_u64_le(b: &Vec<u8>, off: usize) -> (x: u64)
    requires
        off + 8 <= b@.len(),
    ensures
        x == spec_u64_of_le(b@.subrange(off as int, off as int + 8)),
{
    let blen: usize = b.len();
    proof {
        assert(off + 8 <= blen);
    }
    let x = (b[off] as u64) | ((b[off + 1] as u64) << 8) | ((b[off + 2] as u64) << 16) | ((b[off
        + 3] as u64) << 24) | ((b[off + 4] as u64) << 32) | ((b[off + 5] as u64) << 40) | ((b[off
        + 6] as u64) << 48) | ((b[off + 7] as u64) << 56);
    proof {
        let s = b@.subrange(off as int, off as int + 8);
        assert(s[0] == b@[off as int] && s[1] == b@[off as int + 1] && s[2] == b@[off as int + 2]
            && s[3] == b@[off as int + 3] && s[4] == b@[off as int + 4] && s[5] == b@[off as int
            + 5] && s[6] == b@[off as int + 6] && s[7] == b@[off as int + 7]);
    }
    x
}

/// Serialize a data set into the bytes of its file.
#[verifier::loop_isolation(false)]
pub fn encode(d: &Data) -> (out: Vec<u8>)
    requires
        d.wf(),
    ensures
        out@ == spec_encode(d.entries@),
{
    let n: usize = d.entries.len();
    let mut out: Vec<u8> = Vec::new();
    out.push(STORAGE_VERSION);
    push_u64_le(&mut out, n as u64);
    proof {
        assert(out@ =~= seq![STORAGE_VERSION] + spec_u64_le(n as u64));
        assert(d.entries@.take(0) =~= Seq::<Entry>::empty());
    }
    let mut i: usize = 0;
    while i < n
        invariant
            0 <= i <= n,
            out@ == seq![STORAGE_VERSION] + spec_u64_le(n as u64) + spec_encode_entries(
                d.entries@.take(i as int),
            ),
        decreases n - i,
    {
        let e = d.entries[i];
        push_u64_le(&mut out, e.lux);
        match e.luma {
            Option::None => {
                out.push(0);
                out.push(0);
            },
            Option::Some(v) => {
                out.push(1);
                out.push(v);
            },
        }
        push_u64_le(&mut out, e.brightness);
        proof {
            assert(d.entries@.take(i + 1).drop_last() =~= d.entries@.take(i as int));
            assert(d.entries@.take(i + 1).last() == d.entries@[i as int]);
            assert(out@ =~= seq![STORAGE_VERSION] + spec_u64_le(n as u64) + spec_encode_entries(
                d.entries@.take(i + 1)));
        }
        i = i + 1;
    }
    proof {
        assert(d.entries@.take(n as int) =~= d.entries@);
    }
    out
}

/// Parse the bytes of a file back into a data set; a corrupt file yields
/// nothing.
#[verifier::loop_isolation(false)]
#[verifier::rlimit(60)]
pub fn decode(bytes: &Vec<u8>) -> (r: Option<Data>)
    ensures
        match r {
            Option::Some(d) => {
                &&& spec_decode(bytes@) == Option::Some(d.entries@)
                &&& d.wf()
            },
            Option::None => spec_decode(bytes@) is None,
        },
{
    let total: usize = bytes.len();
    if total < 9 {
        return Option::None;
    }
    if bytes[0] != STORAGE_VERSION {
        return Option::None;
    }
    let count_u64: u64 = read_u64_le(bytes, 1);
    if count_u64 > MAX_ENTRIES {
        return Option::None;
    }
    let count: usize = count_u64 as usize;
    proof {
        vstd::arithmetic::mul::lemma_mul_upper_bound(18, 18, count as int, MAX_ENTRIES as int);
        vstd::arithmetic::mul::lemma_mul_nonnegative(18, count as int);
    }
    let expected: u64 = 9 + 18 * count_u64;
    if (total as u64) != expected {
        return Option::None;
    }
    let mut entries: Vec<Entry> = Vec::new();
    let mut i: usize = 0;
    let mut off: usize = 9;
    proof {
        assert(bytes@.skip(9).take(0) =~= Seq::<u8>::empty());
    }
    while i < count
        invariant
            0 <= i <= count,
            off == 9 + 18 * (i as int),
            entries@ == spec_decode_entries(bytes@.skip(9).take(18 * (i as int)), i as int),
            entries@.len() == i,
        decreases count - i,
    {
        proof {
            assert(18 * ((i + 1) as int) == 18 * (i as int) + 18) by (nonlinear_arith);
            assert(18 * (count as int) >= 18 * ((i + 1) as int)) by (nonlinear_arith)
                requires
                    (i as int) < (count as int),
            ;
        }
        let lux: u64 = read_u64_le(bytes, off);
        let tag: u8 = bytes[off + 8];
        let val: u8 = bytes[off + 9];
        let luma: Option<u8> = if tag == 0 {
            Option::None
        } else {
            Option::Some(val)
        };
        let brightness: u64 = read_u64_le(bytes, off + 10);
        entries.push(Entry { lux, luma, brightness });
        proof {
            let payload = bytes@.skip(9);
            let cur = payload.take(18 * ((i + 1) as int));
            assert(cur.take(18 * (i as int)) =~= payload.take(18 * (i as int)));
            assert(cur.skip(18 * (i as int)) =~= bytes@.subrange(off as int, off as int + 18));
            let eb = cur.skip(18 * (i as int));
            assert(eb.subrange(0, 8) =~= bytes@.subrange(off as int, off as int + 8));
            assert(eb.subrange(10, 18) =~= bytes@.subrange(off as int + 10, off as int + 18));
            assert(eb[8] == bytes@[off as int + 8] && eb[9] == bytes@[off as int + 9]);
            assert(entries@ =~= spec_decode_entries(cur, (i + 1) as int));
        }
        i = i + 1;
        off = off + 18;
    }
    proof {
        assert(bytes@.skip(9).take(18 * (count as int)) =~= bytes@.skip(9));
    }
    Option::Some(Data { entries })
}

} // verus!
