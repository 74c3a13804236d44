//! Data model shared by the multi-version store, the read proxy and the
//! scheduler: cell payloads, read outcomes and captured read descriptors.

use vstd::prelude::*;
use crate::delta::DeltaOp;
use crate::Version;

verus! {

/// Payload of a written cell: a serialized value, or a pending arithmetic
/// delta.
pub enum EntryPayload {
    Value(Vec<u8>),
    Delta(DeltaOp),
}

/// Mathematical view of an [`EntryPayload`].
pub enum PayloadV {
    Value(Seq<u8>),
    Delta(DeltaOp),
}

impl View for EntryPayload {
    type V = PayloadV;

    open spec fn view(&self) -> PayloadV {
        match self {
            EntryPayload::Value(v) => PayloadV::Value(v@),
            EntryPayload::Delta(d) => PayloadV::Delta(*d),
        }
    }
}

/// Copies a byte vector.
pub fn clone_bytes(v: &Vec<u8>) -> (r: Vec<u8>)
    ensures
        r@ == v@,
{
    let r = v.clone();
    proof {
        assert(r@ =~= v@);
    }
    r
}

impl EntryPayload {
    /// Copies the payload.
    pub fn duplicate(&self) -> (r: EntryPayload)
        ensures
            r@ == self@,
    {
        match self {
            EntryPayload::Value(v) => EntryPayload::Value(clone_bytes(v)),
            EntryPayload::Delta(d) => EntryPayload::Delta(*d),
        }
    }
}

/// One cell of a key's version history, as stored.
pub enum EntryCell {
    /// A write by the given incarnation of the owning transaction.
    Written { incarnation: usize, payload: EntryPayload },
    /// The owning transaction aborted; a replacement write is pending.
    Estimate,
}

/// Mathematical view of one slot of a key's version history; `Empty` stands
/// for a transaction that holds no cell for the key.
pub enum CellV {
    Empty,
    Estimate,
    Written { incarnation: int, payload: PayloadV },
}

/// View of one stored slot.
pub open spec fn cell_view(c: Option<EntryCell>) -> CellV {
    match c {
        Option::None => CellV::Empty,
        Option::Some(EntryCell::Estimate) => CellV::Estimate,
        Option::Some(EntryCell::Written { incarnation, payload }) => CellV::Written {
            incarnation: incarnation as int,
            payload: payload@,
        },
    }
}

/// View of a whole per-key slot vector.
pub open spec fn cells_view(s: Seq<Option<EntryCell>>) -> Seq<CellV> {
    Seq::new(s.len(), |i: int| cell_view(s[i]))
}

/// Outcome of a raw multi-version read below a transaction index.
pub enum ReadOutcome {
    /// The nearest lower cell is a plain value, returned with its version.
    Version(Version, Vec<u8>),
    /// A delta chain collapsed onto a lower value cell.
    Resolved(u128),
    /// No cell lies below the reader.
    NotFound,
    /// Deltas lie below the reader but no value cell; their composition.
    Unresolved(DeltaOp),
    /// The nearest lower cell is an estimate owned by this transaction index.
    Dependency(usize),
    /// A delta chain failed to compose or to apply to the value beneath it.
    DeltaApplicationFailure,
}

/// Mathematical view of a [`ReadOutcome`].
pub enum OutcomeV {
    Version { txn_idx: int, incarnation: int, value: Seq<u8> },
    Resolved(u128),
    NotFound,
    Unresolved(DeltaOp),
    Dependency(int),
    DeltaApplicationFailure,
}

impl View for ReadOutcome {
    type V = OutcomeV;

    open spec fn view(&self) -> OutcomeV {
        match self {
            ReadOutcome::Version(v, bytes) => OutcomeV::Version {
                txn_idx: v.txn_idx as int,
                incarnation: v.incarnation as int,
                value: bytes@,
            },
            ReadOutcome::Resolved(n) => OutcomeV::Resolved(*n),
            ReadOutcome::NotFound => OutcomeV::NotFound,
            ReadOutcome::Unresolved(d) => OutcomeV::Unresolved(*d),
            ReadOutcome::Dependency(i) => OutcomeV::Dependency(*i as int),
            ReadOutcome::DeltaApplicationFailure => OutcomeV::DeltaApplicationFailure,
        }
    }
}

/// What one captured read observed; compared again at validation time.
#[derive(Clone, Copy, PartialEq, Eq, Structural, Debug)]
pub enum ReadKind {
    Version(Version),
    Resolved(u128),
    Unresolved(DeltaOp),
    Storage,
    DeltaFailure,
}

/// A captured read: the key and what the read observed.
#[derive(Clone, Copy, PartialEq, Eq, Structural, Debug)]
pub struct ReadDescriptor {
    pub key: u64,
    pub kind: ReadKind,
}

impl ReadDescriptor {
    /// Descriptor for a read that observed a versioned value.
    pub fn from_version(key: u64, txn_idx: usize, incarnation: usize) -> (r: ReadDescriptor)
        ensures
            r == (ReadDescriptor {
                key,
                kind: ReadKind::Version(Version { txn_idx, incarnation }),
            }),
    {
        ReadDescriptor { key, kind: ReadKind::Version(Version { txn_idx, incarnation }) }
    }

    /// Descriptor for a read that resolved a delta chain to an integer.
    pub fn from_resolved(key: u64, value: u128) -> (r: ReadDescriptor)
        ensures
            r == (ReadDescriptor { key, kind: ReadKind::Resolved(value) }),
    {
        ReadDescriptor { key, kind: ReadKind::Resolved(value) }
    }

    /// Descriptor for a read that fell through to pre-batch storage.
    pub fn from_storage(key: u64) -> (r: ReadDescriptor)
        ensures
            r == (ReadDescriptor { key, kind: ReadKind::Storage }),
    {
        ReadDescriptor { key, kind: ReadKind::Storage }
    }

    /// Descriptor for a read that saw deltas with no value beneath them.
    pub fn from_unresolved(key: u64, delta: DeltaOp) -> (r: ReadDescriptor)
        ensures
            r == (ReadDescriptor { key, kind: ReadKind::Unresolved(delta) }),
    {
        ReadDescriptor { key, kind: ReadKind::Unresolved(delta) }
    }

    /// Descriptor for a read whose delta chain failed to apply.
    pub fn from_delta_application_failure(key: u64) -> (r: ReadDescriptor)
        ensures
            r == (ReadDescriptor { key, kind: ReadKind::DeltaFailure }),
    {
        ReadDescriptor { key, kind: ReadKind::DeltaFailure }
    }
}

/// What a proxy read hands to the virtual machine.
pub enum ReadResult {
    /// A plain serialized value.
    Value(Vec<u8>),
    /// An aggregated integer.
    U128(u128),
    /// Deltas with no base beneath them; the caller resolves via storage.
    Unresolved(DeltaOp),
    /// Nothing written below the reader; the caller consults storage.
    NotFound,
}

/// Mathematical view of a [`ReadResult`].
pub enum ReadResultV {
    Value(Seq<u8>),
    U128(u128),
    Unresolved(DeltaOp),
    NotFound,
}

impl View for ReadResult {
    type V = ReadResultV;

    open spec fn view(&self) -> ReadResultV {
        match self {
            ReadResult::Value(v) => ReadResultV::Value(v@),
            ReadResult::U128(n) => ReadResultV::U128(*n),
            ReadResult::Unresolved(d) => ReadResultV::Unresolved(*d),
            ReadResult::NotFound => ReadResultV::NotFound,
        }
    }
}

/// The integer a 16-byte little-endian encoding denotes.
pub open spec fn le16_value(s: Seq<u8>) -> int {
    s[0] + s[1] * 0x100 + s[2] * 0x1_0000 + s[3] * 0x100_0000 + s[4] * 0x1_0000_0000 + s[5]
        * 0x100_0000_0000 + s[6] * 0x1_0000_0000_0000 + s[7] * 0x100_0000_0000_0000 + s[8]
        * 0x1_0000_0000_0000_0000 + s[9] * 0x100_0000_0000_0000_0000 + s[10]
        * 0x1_0000_0000_0000_0000_0000 + s[11] * 0x100_0000_0000_0000_0000_0000 + s[12]
        * 0x1_0000_0000_0000_0000_0000_0000 + s[13] * 0x100_0000_0000_0000_0000_0000_0000 + s[14]
        * 0x1_0000_0000_0000_0000_0000_0000_0000 + s[15] * 0x100_0000_0000_0000_0000_0000_0000_0000
}

/// What decoding a serialized `u128` yields: the little-endian value of a
/// 16-byte string, and nothing of any other length.
pub open spec fn decode_u128_spec(s: Seq<u8>) -> Option<u128> {
    if s.len() == 16 {
        Some(le16_value(s) as u128)
    } else {
        None
    }
}

/// Decodes a 16-byte little-endian `u128`.
pub fn decode_u128(v: &Vec<u8>) -> (r: Option<u128>)
    ensures
        r == decode_u128_spec(v@),
{
    if v.len() != 16 {
        return None;
    }
    let r: u128 = (v[0] as u128) + (v[1] as u128) * 0x100 + (v[2] as u128) * 0x1_0000 + (v[3]
        as u128) * 0x100_0000 + (v[4] as u128) * 0x1_0000_0000 + (v[5] as u128) * 0x100_0000_0000
        + (v[6] as u128) * 0x1_0000_0000_0000 + (v[7] as u128) * 0x100_0000_0000_0000 + (v[8]
        as u128) * 0x1_0000_0000_0000_0000 + (v[9] as u128) * 0x100_0000_0000_0000_0000 + (v[10]
        as u128) * 0x1_0000_0000_0000_0000_0000 + (v[11] as u128) * 0x100_0000_0000_0000_0000_0000
        + (v[12] as u128) * 0x1_0000_0000_0000_0000_0000_0000 + (v[13] as u128)
        * 0x100_0000_0000_0000_0000_0000_0000 + (v[14] as u128)
        * 0x1_0000_0000_0000_0000_0000_0000_0000 + (v[15] as u128)
        * 0x100_0000_0000_0000_0000_0000_0000_0000;
    Some(r)
}

} // verus!
