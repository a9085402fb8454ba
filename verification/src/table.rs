//! The stored form of the chain table.
//!
//! A table is its rows one after another, with nothing before, between or
//! after them. A row is the chain's 32 bytes, the owner slot, the block
//! height and the timestamp as 64-bit integers, and the epoch slot. The owner
//! slot is a tag byte (0 none, 1 reserved, 2 a 32-byte address, 3 a 20-byte
//! address) followed by the owner's bytes; the epoch slot is a tag byte (0
//! none, 1 some) followed by a 32-bit integer.

use vstd::prelude::*;
use crate::ident::{array20, array32, lemma_array20, lemma_array32, spec_array20, spec_array32, ChainId, Owner};
use crate::snapshot::{all_distinct, distinct_ids, ChainEntry, ChainRecord};
use crate::wire::{
    lemma_parse_u32, lemma_parse_u64, lemma_parse_u8, lemma_take_concat, parse_u32, parse_u64,
    parse_u8, put_bytes, put_u32, put_u64, take, u32_bytes, u64_bytes, Reader,
};

verus! {

/// The owner slot of a row.
pub open spec fn owner_bytes(owner: Option<Owner>) -> Seq<u8> {
    match owner {
        None => seq![0u8],
        Some(Owner::Reserved(byte)) => seq![1u8] + seq![byte],
        Some(Owner::Address32(address)) => seq![2u8] + address@,
        Some(Owner::Address20(address)) => seq![3u8] + address@,
    }
}

/// Reads an owner slot off the front of `s`.
pub open spec fn parse_owner(s: Seq<u8>) -> Option<(Option<Owner>, Seq<u8>)> {
    match parse_u8(s) {
        None => None,
        Some((tag, rest)) => if tag == 0 {
            Some((None, rest))
        } else if tag == 1 {
            match parse_u8(rest) {
                Some((byte, after)) => Some((Some(Owner::Reserved(byte)), after)),
                None => None,
            }
        } else if tag == 2 {
            match take(rest, 32) {
                Some((address, after)) => Some(
                    (Some(Owner::Address32(spec_array32(address))), after),
                ),
                None => None,
            }
        } else if tag == 3 {
            match take(rest, 20) {
                Some((address, after)) => Some(
                    (Some(Owner::Address20(spec_array20(address))), after),
                ),
                None => None,
            }
        } else {
            None
        },
    }
}

/// The epoch slot of a row.
pub open spec fn epoch_bytes(epoch: Option<u32>) -> Seq<u8> {
    match epoch {
        None => seq![0u8],
        Some(number) => seq![1u8] + u32_bytes(number),
    }
}

/// Reads an epoch slot off the front of `s`.
pub open spec fn parse_epoch(s: Seq<u8>) -> Option<(Option<u32>, Seq<u8>)> {
    match parse_u8(s) {
        None => None,
        Some((tag, rest)) => if tag == 0 {
            Some((None, rest))
        } else if tag == 1 {
            match parse_u32(rest) {
                Some((number, after)) => Some((Some(number), after)),
                None => None,
            }
        } else {
            None
        },
    }
}

/// The stored form of one row.
pub open spec fn entry_bytes(entry: ChainEntry) -> Seq<u8> {
    entry.chain_id@ + owner_bytes(entry.record.owner) + u64_bytes(entry.record.block_height)
        + u64_bytes(entry.record.timestamp) + epoch_bytes(entry.record.epoch)
}

/// Reads one row off the front of `s`.
pub open spec fn parse_entry(s: Seq<u8>) -> Option<(ChainEntry, Seq<u8>)> {
    match take(s, 32) {
        None => None,
        Some((id, s1)) => match parse_owner(s1) {
            None => None,
            Some((owner, s2)) => match parse_u64(s2) {
                None => None,
                Some((block_height, s3)) => match parse_u64(s3) {
                    None => None,
                    Some((timestamp, s4)) => match parse_epoch(s4) {
                        None => None,
                        Some((epoch, s5)) => Some(
                            (
                                ChainEntry {
                                    chain_id: ChainId(spec_array32(id)),
                                    record: ChainRecord { owner, block_height, timestamp, epoch },
                                },
                                s5,
                            ),
                        ),
                    },
                },
            },
        },
    }
}

/// The stored form of a table: its rows in order.
pub open spec fn table_bytes(rows: Seq<ChainEntry>) -> Seq<u8>
    decreases rows.len(),
{
    if rows.len() == 0 {
        Seq::empty()
    } else {
        entry_bytes(rows[0]) + table_bytes(rows.drop_first())
    }
}

/// Reads rows off `s` until nothing is left; `None` where a row is cut short
/// or has a tag that no slot uses.
pub open spec fn parse_rows(s: Seq<u8>) -> Option<Seq<ChainEntry>>
    decreases s.len(),
{
    if s.len() == 0 {
        Some(Seq::empty())
    } else {
        match parse_entry(s) {
            None => None,
            Some((entry, rest)) => if rest.len() < s.len() {
                match parse_rows(rest) {
                    Some(rows) => Some(seq![entry] + rows),
                    None => None,
                }
            } else {
                None
            },
        }
    }
}

/// The table that `bytes` holds: its rows, where they can all be read and no
/// chain has two.
pub open spec fn decode_table(bytes: Seq<u8>) -> Option<Seq<ChainEntry>> {
    match parse_rows(bytes) {
        Some(rows) => if distinct_ids(rows) {
            Some(rows)
        } else {
            None
        },
        None => None,
    }
}

/// An owner slot written in front of `rest` is read back, leaving `rest`.
pub proof fn lemma_parse_owner(owner: Option<Owner>, rest: Seq<u8>)
    ensures
        parse_owner(owner_bytes(owner) + rest) == Some((owner, rest)),
{
    match owner {
        None => {
            lemma_parse_u8(0u8, rest);
        },
        Some(Owner::Reserved(byte)) => {
            assert(owner_bytes(owner) + rest =~= seq![1u8] + (seq![byte] + rest));
            lemma_parse_u8(1u8, seq![byte] + rest);
            lemma_parse_u8(byte, rest);
        },
        Some(Owner::Address32(address)) => {
            assert(owner_bytes(owner) + rest =~= seq![2u8] + (address@ + rest));
            lemma_parse_u8(2u8, address@ + rest);
            lemma_take_concat(address@, rest);
            lemma_array32(address);
        },
        Some(Owner::Address20(address)) => {
            assert(owner_bytes(owner) + rest =~= seq![3u8] + (address@ + rest));
            lemma_parse_u8(3u8, address@ + rest);
            lemma_take_concat(address@, rest);
            lemma_array20(address);
        },
    }
}

/// An epoch slot written in front of `rest` is read back, leaving `rest`.
pub proof fn lemma_parse_epoch(epoch: Option<u32>, rest: Seq<u8>)
    ensures
        parse_epoch(epoch_bytes(epoch) + rest) == Some((epoch, rest)),
{
    match epoch {
        None => {
            lemma_parse_u8(0u8, rest);
        },
        Some(number) => {
            assert(epoch_bytes(epoch) + rest =~= seq![1u8] + (u32_bytes(number) + rest));
            lemma_parse_u8(1u8, u32_bytes(number) + rest);
            lemma_parse_u32(number, rest);
        },
    }
}

/// A row written in front of `rest` is read back, leaving `rest`; a row is
/// at least 32 bytes long.
pub proof fn lemma_parse_entry(entry: ChainEntry, rest: Seq<u8>)
    ensures
        parse_entry(entry_bytes(entry) + rest) == Some((entry, rest)),
        entry_bytes(entry).len() >= 32,
{
    let record = entry.record;
    let s5 = rest;
    let s4 = epoch_bytes(record.epoch) + s5;
    let s3 = u64_bytes(record.timestamp) + s4;
    let s2 = u64_bytes(record.block_height) + s3;
    let s1 = owner_bytes(record.owner) + s2;
    assert(entry_bytes(entry) + rest =~= entry.chain_id@ + s1);
    lemma_take_concat(entry.chain_id@, s1);
    lemma_array32(entry.chain_id.0);
    lemma_parse_owner(record.owner, s2);
    lemma_parse_u64(record.block_height, s3);
    lemma_parse_u64(record.timestamp, s4);
    lemma_parse_epoch(record.epoch, s5);
}

/// Reading back the stored form of any table gives the table.
pub proof fn lemma_parse_rows(rows: Seq<ChainEntry>)
    ensures
        parse_rows(table_bytes(rows)) == Some(rows),
    decreases rows.len(),
{
    if rows.len() == 0 {
        assert(rows =~= Seq::empty());
    } else {
        let tail = rows.drop_first();
        lemma_parse_entry(rows[0], table_bytes(tail));
        lemma_parse_rows(tail);
        assert(seq![rows[0]] + tail =~= rows);
    }
}

/// The stored form of a table with one more row is the stored form of the
/// table followed by that of the row.
pub proof fn lemma_table_bytes_push(rows: Seq<ChainEntry>, entry: ChainEntry)
    ensures
        table_bytes(rows.push(entry)) == table_bytes(rows) + entry_bytes(entry),
    decreases rows.len(),
{
    if rows.len() == 0 {
        assert(rows.push(entry).drop_first() =~= Seq::empty());
        assert(table_bytes(rows.push(entry)) =~= entry_bytes(entry) + table_bytes(Seq::empty()));
        assert(table_bytes(rows) + entry_bytes(entry) =~= entry_bytes(entry));
    } else {
        let tail = rows.drop_first();
        lemma_table_bytes_push(tail, entry);
        assert(rows.push(entry).drop_first() =~= tail.push(entry));
        assert(table_bytes(rows.push(entry)) =~= entry_bytes(rows[0]) + (table_bytes(tail)
            + entry_bytes(entry)));
    }
}

/// Reading back the stored form of a table without a repeated chain gives
/// the table.
pub proof fn lemma_table_round_trip(rows: Seq<ChainEntry>)
    requires
        distinct_ids(rows),
    ensures
        decode_table(table_bytes(rows)) == Some(rows),
{
    lemma_parse_rows(rows);
}

/// Appends an owner slot to `out`.
pub fn write_owner(out: &mut Vec<u8>, owner: &Option<Owner>)
    ensures
        final(out)@ == old(out)@ + owner_bytes(*owner),
{
    match owner {
        None => {
            out.push(0u8);
            assert(out@ =~= old(out)@ + owner_bytes(*owner));
        },
        Some(Owner::Reserved(byte)) => {
            out.push(1u8);
            out.push(*byte);
            assert(out@ =~= old(out)@ + owner_bytes(*owner));
        },
        Some(Owner::Address32(address)) => {
            out.push(2u8);
            put_bytes(out, address.as_slice());
            assert(out@ =~= old(out)@ + owner_bytes(*owner));
        },
        Some(Owner::Address20(address)) => {
            out.push(3u8);
            put_bytes(out, address.as_slice());
            assert(out@ =~= old(out)@ + owner_bytes(*owner));
        },
    }
}

/// Appends an epoch slot to `out`.
fn write_epoch(out: &mut Vec<u8>, epoch: &Option<u32>)
    ensures
        final(out)@ == old(out)@ + epoch_bytes(*epoch),
{
    match epoch {
        None => {
            out.push(0u8);
            assert(out@ =~= old(out)@ + epoch_bytes(*epoch));
        },
        Some(number) => {
            out.push(1u8);
            put_u32(out, *number);
            assert(out@ =~= old(out)@ + epoch_bytes(*epoch));
        },
    }
}

/// Appends the stored form of `entry` to `out`.
pub fn write_entry(out: &mut Vec<u8>, entry: &ChainEntry)
    ensures
        final(out)@ == old(out)@ + entry_bytes(*entry),
{
    put_bytes(out, entry.chain_id.0.as_slice());
    write_owner(out, &entry.record.owner);
    put_u64(out, entry.record.block_height);
    put_u64(out, entry.record.timestamp);
    write_epoch(out, &entry.record.epoch);
    assert(out@ =~= old(out)@ + entry_bytes(*entry));
}

/// The stored form of the table `rows`.
pub fn encode_table(rows: &Vec<ChainEntry>) -> (bytes: Vec<u8>)
    ensures
        bytes@ == table_bytes(rows@),
{
    let mut bytes: Vec<u8> = Vec::new();
    let mut i: usize = 0;
    while i < rows.len()
        invariant
            0 <= i <= rows@.len(),
            bytes@ == table_bytes(rows@.subrange(0, i as int)),
        decreases rows@.len() - i,
    {
        proof {
            lemma_table_bytes_push(rows@.subrange(0, i as int), rows@[i as int]);
            assert(rows@.subrange(0, i as int).push(rows@[i as int]) =~= rows@.subrange(0, i + 1));
        }
        write_entry(&mut bytes, &rows[i]);
        i += 1;
    }
    assert(rows@.subrange(0, i as int) =~= rows@);
    bytes
}

/// Reads an owner slot.
pub fn read_owner(reader: &mut Reader) -> (owner: Option<Option<Owner>>)
    ensures
        match parse_owner(old(reader).rest()) {
            Some((o, rest)) => owner == Some(o) && final(reader).rest() == rest,
            None => owner is None,
        },
{
    let tag = match reader.byte() {
        Some(tag) => tag,
        None => { return None; },
    };
    if tag == 0 {
        Some(None)
    } else if tag == 1 {
        match reader.byte() {
            Some(byte) => Some(Some(Owner::Reserved(byte))),
            None => None,
        }
    } else if tag == 2 {
        match reader.bytes(32) {
            Some(address) => {
                assert(address@.subrange(0, 32) =~= address@);
                Some(Some(Owner::Address32(array32(address))))
            },
            None => None,
        }
    } else if tag == 3 {
        match reader.bytes(20) {
            Some(address) => {
                assert(address@.subrange(0, 20) =~= address@);
                Some(Some(Owner::Address20(array20(address))))
            },
            None => None,
        }
    } else {
        None
    }
}

/// Reads an epoch slot.
fn read_epoch(reader: &mut Reader) -> (epoch: Option<Option<u32>>)
    ensures
        match parse_epoch(old(reader).rest()) {
            Some((e, rest)) => epoch == Some(e) && final(reader).rest() == rest,
            None => epoch is None,
        },
{
    let tag = match reader.byte() {
        Some(tag) => tag,
        None => { return None; },
    };
    if tag == 0 {
        Some(None)
    } else if tag == 1 {
        match reader.u32() {
            Some(number) => Some(Some(number)),
            None => None,
        }
    } else {
        None
    }
}

/// Reads one row.
fn read_entry(reader: &mut Reader) -> (entry: Option<ChainEntry>)
    ensures
        match parse_entry(old(reader).rest()) {
            Some((e, rest)) => entry == Some(e) && final(reader).rest() == rest,
            None => entry is None,
        },
{
    let chain_id = match reader.bytes(32) {
        Some(id) => {
            assert(id@.subrange(0, 32) =~= id@);
            ChainId(array32(id))
        },
        None => { return None; },
    };
    let owner = match read_owner(reader) {
        Some(owner) => owner,
        None => { return None; },
    };
    let block_height = match reader.u64() {
        Some(height) => height,
        None => { return None; },
    };
    let timestamp = match reader.u64() {
        Some(timestamp) => timestamp,
        None => { return None; },
    };
    let epoch = match read_epoch(reader) {
        Some(epoch) => epoch,
        None => { return None; },
    };
    Some(ChainEntry { chain_id, record: ChainRecord { owner, block_height, timestamp, epoch } })
}

/// Reads a table from its stored form; `None` where the bytes are not the
/// stored form of a table without a repeated chain.
pub fn read_table(bytes: &[u8]) -> (rows: Option<Vec<ChainEntry>>)
    ensures
        match rows {
            Some(r) => decode_table(bytes@) == Some(r@),
            None => decode_table(bytes@) is None,
        },
{
    let mut reader = Reader::new(bytes);
    let mut rows: Vec<ChainEntry> = Vec::new();
    while !reader.at_end()
        invariant
            parse_rows(bytes@) == match parse_rows(reader.rest()) {
                Some(more) => Some(rows@ + more),
                None => None,
            },
        decreases reader.rest().len(),
    {
        let ghost before = reader.rest();
        match read_entry(&mut reader) {
            Some(entry) => {
                proof {
                    let rest = reader.rest();
                    assert(rest.len() < before.len()) by {
                        lemma_entry_consumes(before);
                    }
                    match parse_rows(rest) {
                        Some(more) => {
                            assert(rows@ + (seq![entry] + more) =~= rows@.push(entry) + more);
                        },
                        None => {},
                    }
                }
                rows.push(entry);
            },
            None => {
                return None;
            },
        }
    }
    assert(rows@ + Seq::<ChainEntry>::empty() =~= rows@);
    if all_distinct(&rows) {
        Some(rows)
    } else {
        None
    }
}

/// A row that can be read takes at least one byte off the front.
proof fn lemma_entry_consumes(s: Seq<u8>)
    ensures
        parse_entry(s) matches Some((_, rest)) ==> rest.len() < s.len(),
{
    match take(s, 32) {
        None => {},
        Some((id, s1)) => {
            assert(s1.len() < s.len());
            match parse_owner(s1) {
                None => {},
                Some((owner, s2)) => {
                    assert(s2.len() <= s1.len());
                    match parse_u64(s2) {
                        None => {},
                        Some((_, s3)) => {
                            match parse_u64(s3) {
                                None => {},
                                Some((_, s4)) => {
                                    match parse_epoch(s4) {
                                        None => {},
                                        Some((_, s5)) => {
                                            assert(s5.len() <= s4.len());
                                        },
                                    }
                                },
                            }
                        },
                    }
                },
            }
        },
    }
}

} // verus!
