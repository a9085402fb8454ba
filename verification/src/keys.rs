//! Keys that wait for a chain: for each owner without a chain yet, a
//! reference to the secret key that the signer holds for it.
//!
//! The stored form of the table is its rows one after another. A row is the
//! owner, written as a chain's owner slot is, and the 32 bytes of the
//! reference.

use vstd::prelude::*;
use crate::ident::{array32, lemma_array32, spec_array32, Owner};
use crate::table::{lemma_parse_owner, owner_bytes, parse_owner, read_owner, write_owner};
use crate::wire::{bytes_equal, lemma_take_concat, put_bytes, take, Reader};

verus! {

/// A reference to a secret key that is held outside the wallet.
#[derive(Clone, Copy, Debug, PartialEq, Eq, Hash)]
pub struct SecretKeyRef(pub [u8; 32]);

/// One row of the table of unassigned keys.
#[derive(Clone, Copy, Debug, PartialEq, Eq)]
pub struct KeyEntry {
    pub owner: Owner,
    pub secret: SecretKeyRef,
}

/// Whether `keys` has a row for `owner`.
pub open spec fn holds_key(keys: Seq<KeyEntry>, owner: Owner) -> bool {
    exists|i: int| 0 <= i < keys.len() && (#[trigger] keys[i]).owner == owner
}

/// Whether no two rows of `keys` are for the same owner.
pub open spec fn distinct_owners(keys: Seq<KeyEntry>) -> bool {
    forall|i: int, j: int|
        0 <= i < j < keys.len() ==> (#[trigger] keys[i]).owner != (#[trigger] keys[j]).owner
}

/// The position of the row for `owner`.
pub open spec fn key_position(keys: Seq<KeyEntry>, owner: Owner) -> int {
    choose|i: int| 0 <= i < keys.len() && (#[trigger] keys[i]).owner == owner
}

/// The reference that `keys` holds for `owner`.
pub open spec fn secret_of(keys: Seq<KeyEntry>, owner: Owner) -> Option<SecretKeyRef> {
    if holds_key(keys, owner) {
        Some(keys[key_position(keys, owner)].secret)
    } else {
        None
    }
}

/// `keys` with the row for `entry.owner` replaced by `entry`, or with `entry`
/// added as the last row where the owner is new.
pub open spec fn with_key(keys: Seq<KeyEntry>, entry: KeyEntry) -> Seq<KeyEntry> {
    if holds_key(keys, entry.owner) {
        keys.update(key_position(keys, entry.owner), entry)
    } else {
        keys.push(entry)
    }
}

/// `keys` without the row for `owner`.
pub open spec fn without_key(keys: Seq<KeyEntry>, owner: Owner) -> Seq<KeyEntry> {
    if holds_key(keys, owner) {
        keys.remove(key_position(keys, owner))
    } else {
        keys
    }
}

/// In a table without a repeated owner, the row of an owner is where any row
/// of that owner is.
pub proof fn lemma_key_position(keys: Seq<KeyEntry>, at: int)
    requires
        distinct_owners(keys),
        0 <= at < keys.len(),
    ensures
        holds_key(keys, keys[at].owner),
        key_position(keys, keys[at].owner) == at,
{
    let k = key_position(keys, keys[at].owner);
    if k < at {
        assert(keys[k].owner != keys[at].owner);
    } else if at < k {
        assert(keys[at].owner != keys[k].owner);
    }
}

/// Replacing or adding a row keeps the table free of repeated owners and
/// holds the new row.
pub proof fn lemma_with_key(keys: Seq<KeyEntry>, entry: KeyEntry)
    requires
        distinct_owners(keys),
    ensures
        distinct_owners(with_key(keys, entry)),
        secret_of(with_key(keys, entry), entry.owner) == Some(entry.secret),
{
    let after = with_key(keys, entry);
    let at = if holds_key(keys, entry.owner) {
        key_position(keys, entry.owner)
    } else {
        keys.len() as int
    };
    assert(after[at] == entry);
    assert forall|i: int| 0 <= i < after.len() && i != at implies #[trigger] after[i] == keys[i] by {}
    assert forall|i: int| 0 <= i < after.len() && i != at implies (#[trigger] after[i]).owner
        != entry.owner by {
        if holds_key(keys, entry.owner) {
            if i < at {
                assert(keys[i].owner != keys[at].owner);
            } else {
                assert(keys[at].owner != keys[i].owner);
            }
        } else {
            assert(keys[i].owner != entry.owner);
        }
    }
    assert forall|i: int, j: int| 0 <= i < j < after.len() implies (#[trigger] after[i]).owner
        != (#[trigger] after[j]).owner by {
        if i != at && j != at {
            assert(keys[i].owner != keys[j].owner);
        }
    }
    lemma_key_position(after, at);
}

/// Removing a row keeps the table free of repeated owners, and the owner
/// then has no row.
pub proof fn lemma_without_key(keys: Seq<KeyEntry>, owner: Owner)
    requires
        distinct_owners(keys),
    ensures
        distinct_owners(without_key(keys, owner)),
        !holds_key(without_key(keys, owner), owner),
{
    let after = without_key(keys, owner);
    if holds_key(keys, owner) {
        let at = key_position(keys, owner);
        assert forall|i: int| 0 <= i < after.len() implies #[trigger] after[i] == keys[if i < at {
            i
        } else {
            i + 1
        }] by {}
        assert forall|i: int, j: int| 0 <= i < j < after.len() implies (#[trigger] after[i]).owner
            != (#[trigger] after[j]).owner by {
            let a = if i < at { i } else { i + 1 };
            let b = if j < at { j } else { j + 1 };
            assert(keys[a].owner != keys[b].owner);
        }
        if holds_key(after, owner) {
            let k = key_position(after, owner);
            let source = if k < at { k } else { k + 1 };
            assert(keys[source].owner == owner);
            if source < at {
                assert(keys[source].owner != keys[at].owner);
            } else {
                assert(keys[at].owner != keys[source].owner);
            }
        }
    }
}

impl Owner {
    /// Whether `self` and `other` are the same owner.
    pub fn equals(&self, other: &Owner) -> (same: bool)
        ensures
            same == (*self == *other),
    {
        match (self, other) {
            (Owner::Reserved(a), Owner::Reserved(b)) => *a == *b,
            (Owner::Address32(a), Owner::Address32(b)) => {
                let same = bytes_equal(a.as_slice(), b.as_slice());
                proof {
                    if same {
                        assert(a@ =~= b@);
                        assert(*a == *b);
                    }
                }
                same
            },
            (Owner::Address20(a), Owner::Address20(b)) => {
                let same = bytes_equal(a.as_slice(), b.as_slice());
                proof {
                    if same {
                        assert(a@ =~= b@);
                        assert(*a == *b);
                    }
                }
                same
            },
            _ => false,
        }
    }
}

/// The position of a row for `owner` in `keys`.
pub fn find_key(keys: &Vec<KeyEntry>, owner: &Owner) -> (position: Option<usize>)
    ensures
        match position {
            Some(i) => i < keys@.len() && keys@[i as int].owner == *owner,
            None => !holds_key(keys@, *owner),
        },
{
    let mut i: usize = 0;
    while i < keys.len()
        invariant
            0 <= i <= keys@.len(),
            forall|j: int| 0 <= j < i ==> (#[trigger] keys@[j]).owner != *owner,
        decreases keys@.len() - i,
    {
        if keys[i].owner.equals(owner) {
            return Some(i);
        }
        i += 1;
    }
    None
}

/// Whether no two rows of `keys` are for the same owner.
pub fn all_distinct_owners(keys: &Vec<KeyEntry>) -> (distinct: bool)
    ensures
        distinct == distinct_owners(keys@),
{
    let mut j: usize = 0;
    while j < keys.len()
        invariant
            0 <= j <= keys@.len(),
            distinct_owners(keys@.subrange(0, j as int)),
        decreases keys@.len() - j,
    {
        let mut i: usize = 0;
        while i < j
            invariant
                0 <= i <= j < keys@.len(),
                forall|k: int| 0 <= k < i ==> (#[trigger] keys@[k]).owner != keys@[j as int].owner,
            decreases j - i,
        {
            if keys[i].owner.equals(&keys[j].owner) {
                assert(keys@[i as int].owner == keys@[j as int].owner);
                return false;
            }
            i += 1;
        }
        proof {
            let before = keys@.subrange(0, j as int);
            let now = keys@.subrange(0, j + 1);
            assert forall|a: int, b: int| 0 <= a < b < now.len() implies (#[trigger] now[a]).owner
                != (#[trigger] now[b]).owner by {
                if b < j {
                    assert(before[a].owner != before[b].owner);
                } else {
                    assert(keys@[a].owner != keys@[j as int].owner);
                }
            }
        }
        j += 1;
    }
    assert(keys@.subrange(0, j as int) =~= keys@);
    true
}

/// The stored form of one row.
pub open spec fn key_entry_bytes(entry: KeyEntry) -> Seq<u8> {
    owner_bytes(Some(entry.owner)) + entry.secret.0@
}

/// Reads one row off the front of `s`.
pub open spec fn parse_key_entry(s: Seq<u8>) -> Option<(KeyEntry, Seq<u8>)> {
    match parse_owner(s) {
        Some((Some(owner), rest)) => match take(rest, 32) {
            Some((secret, after)) => Some(
                (KeyEntry { owner, secret: SecretKeyRef(spec_array32(secret)) }, after),
            ),
            None => None,
        },
        _ => None,
    }
}

/// The stored form of a table: its rows in order.
pub open spec fn keys_bytes(rows: Seq<KeyEntry>) -> Seq<u8>
    decreases rows.len(),
{
    if rows.len() == 0 {
        Seq::empty()
    } else {
        key_entry_bytes(rows[0]) + keys_bytes(rows.drop_first())
    }
}

/// Reads rows off `s` until nothing is left.
pub open spec fn parse_key_rows(s: Seq<u8>) -> Option<Seq<KeyEntry>>
    decreases s.len(),
{
    if s.len() == 0 {
        Some(Seq::empty())
    } else {
        match parse_key_entry(s) {
            None => None,
            Some((entry, rest)) => if rest.len() < s.len() {
                match parse_key_rows(rest) {
                    Some(rows) => Some(seq![entry] + rows),
                    None => None,
                }
            } else {
                None
            },
        }
    }
}

/// The table that `bytes` holds: its rows, where they can all be read and no
/// owner has two.
pub open spec fn decode_keys(bytes: Seq<u8>) -> Option<Seq<KeyEntry>> {
    match parse_key_rows(bytes) {
        Some(rows) => if distinct_owners(rows) {
            Some(rows)
        } else {
            None
        },
        None => None,
    }
}

/// A row written in front of `rest` is read back, leaving `rest`; a row is
/// at least 32 bytes long.
pub proof fn lemma_parse_key_entry(entry: KeyEntry, rest: Seq<u8>)
    ensures
        parse_key_entry(key_entry_bytes(entry) + rest) == Some((entry, rest)),
        key_entry_bytes(entry).len() >= 32,
{
    let tail = entry.secret.0@ + rest;
    assert(key_entry_bytes(entry) + rest =~= owner_bytes(Some(entry.owner)) + tail);
    lemma_parse_owner(Some(entry.owner), tail);
    lemma_take_concat(entry.secret.0@, rest);
    lemma_array32(entry.secret.0);
}

/// Reading back the stored form of any table gives the table.
pub proof fn lemma_parse_key_rows(rows: Seq<KeyEntry>)
    ensures
        parse_key_rows(keys_bytes(rows)) == Some(rows),
    decreases rows.len(),
{
    if rows.len() == 0 {
        assert(rows =~= Seq::empty());
    } else {
        let tail = rows.drop_first();
        lemma_parse_key_entry(rows[0], keys_bytes(tail));
        lemma_parse_key_rows(tail);
        assert(seq![rows[0]] + tail =~= rows);
    }
}

/// The stored form of a table with one more row is the stored form of the
/// table followed by that of the row.
pub proof fn lemma_keys_bytes_push(rows: Seq<KeyEntry>, entry: KeyEntry)
    ensures
        keys_bytes(rows.push(entry)) == keys_bytes(rows) + key_entry_bytes(entry),
    decreases rows.len(),
{
    if rows.len() == 0 {
        assert(rows.push(entry).drop_first() =~= Seq::empty());
        assert(keys_bytes(rows.push(entry)) =~= key_entry_bytes(entry) + keys_bytes(Seq::empty()));
        assert(keys_bytes(rows) + key_entry_bytes(entry) =~= key_entry_bytes(entry));
    } else {
        let tail = rows.drop_first();
        lemma_keys_bytes_push(tail, entry);
        assert(rows.push(entry).drop_first() =~= tail.push(entry));
        assert(keys_bytes(rows.push(entry)) =~= key_entry_bytes(rows[0]) + (keys_bytes(tail)
            + key_entry_bytes(entry)));
    }
}

/// Reading back the stored form of a table without a repeated owner gives
/// the table.
pub proof fn lemma_keys_round_trip(rows: Seq<KeyEntry>)
    requires
        distinct_owners(rows),
    ensures
        decode_keys(keys_bytes(rows)) == Some(rows),
{
    lemma_parse_key_rows(rows);
}

/// The stored form of the table `rows`.
pub fn encode_keys(rows: &Vec<KeyEntry>) -> (bytes: Vec<u8>)
    ensures
        bytes@ == keys_bytes(rows@),
{
    let mut bytes: Vec<u8> = Vec::new();
    let mut i: usize = 0;
    while i < rows.len()
        invariant
            0 <= i <= rows@.len(),
            bytes@ == keys_bytes(rows@.subrange(0, i as int)),
        decreases rows@.len() - i,
    {
        proof {
            lemma_keys_bytes_push(rows@.subrange(0, i as int), rows@[i as int]);
            assert(rows@.subrange(0, i as int).push(rows@[i as int]) =~= rows@.subrange(0, i + 1));
        }
        let ghost before = bytes@;
        write_owner(&mut bytes, &Some(rows[i].owner));
        put_bytes(&mut bytes, rows[i].secret.0.as_slice());
        assert(bytes@ =~= before + key_entry_bytes(rows@[i as int]));
        i += 1;
    }
    assert(rows@.subrange(0, i as int) =~= rows@);
    bytes
}

/// Reads one row.
fn read_key_entry(reader: &mut Reader) -> (entry: Option<KeyEntry>)
    ensures
        match parse_key_entry(old(reader).rest()) {
            Some((e, rest)) => entry == Some(e) && final(reader).rest() == rest,
            None => entry is None,
        },
{
    let owner = match read_owner(reader) {
        Some(Some(owner)) => owner,
        _ => { return None; },
    };
    match reader.bytes(32) {
        Some(secret) => {
            assert(secret@.subrange(0, 32) =~= secret@);
            Some(KeyEntry { owner, secret: SecretKeyRef(array32(secret)) })
        },
        None => None,
    }
}

/// A row that can be read takes at least one byte off the front.
proof fn lemma_key_entry_consumes(s: Seq<u8>)
    ensures
        parse_key_entry(s) matches Some((_, rest)) ==> rest.len() < s.len(),
{
    match parse_owner(s) {
        Some((Some(_), rest)) => {
            assert(rest.len() <= s.len());
        },
        _ => {},
    }
}

/// Reads a table from its stored form; `None` where the bytes are not the
/// stored form of a table without a repeated owner.
pub fn read_keys(bytes: &[u8]) -> (rows: Option<Vec<KeyEntry>>)
    ensures
        match rows {
            Some(r) => decode_keys(bytes@) == Some(r@),
            None => decode_keys(bytes@) is None,
        },
{
    let mut reader = Reader::new(bytes);
    let mut rows: Vec<KeyEntry> = Vec::new();
    while !reader.at_end()
        invariant
            parse_key_rows(bytes@) == match parse_key_rows(reader.rest()) {
                Some(more) => Some(rows@ + more),
                None => None,
            },
        decreases reader.rest().len(),
    {
        let ghost before = reader.rest();
        match read_key_entry(&mut reader) {
            Some(entry) => {
                proof {
                    let rest = reader.rest();
                    lemma_key_entry_consumes(before);
                    match parse_key_rows(rest) {
                        Some(more) => {
                            assert(rows@ + (seq![entry] + more) =~= rows@.push(entry) + more);
                        },
                        None => {},
                    }
                }
                rows.push(entry);
            },
            None => {
                return None;
            },
        }
    }
    assert(rows@ + Seq::<KeyEntry>::empty() =~= rows@);
    if all_distinct_owners(&rows) {
        Some(rows)
    } else {
        None
    }
}

} // verus!
