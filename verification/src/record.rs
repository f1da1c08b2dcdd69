//! The zone's data model: one DNS record as the provider reports it, the
//! two record types the reconciler manages, and the errors a zone store
//! call can surface.

use vstd::prelude::*;

verus! {

/// One record of the managed zone, as reported by the provider.
///
/// `source` is the served name, `target` the address in text form.
/// Identity for matching purposes is the pair `(source, record_type)`.
#[derive(Debug, Clone)]
pub struct DnsRecord {
    pub id: u64,
    pub source: String,
    pub target: String,
    pub ttl: u32,
    pub record_type: String,
    pub updated_at: u64,
}

/// The two address families the reconciler manages.
#[derive(Debug, Clone, Copy, PartialEq, Eq, Structural)]
pub enum RecordType {
    A,
    Aaaa,
}

/// The text under which a record type appears in a zone record.
pub open spec fn type_text(t: RecordType) -> Seq<char> {
    match t {
        RecordType::A => "A"@,
        RecordType::Aaaa => "AAAA"@,
    }
}

/// The label of a record type, as the provider writes it.
pub fn type_label(t: RecordType) -> (r: &'static str)
    ensures
        r@ == type_text(t),
{
    match t {
        RecordType::A => "A",
        RecordType::Aaaa => "AAAA",
    }
}

/// A record answers for `(name, t)` when its source and type match exactly.
pub open spec fn record_matches(r: DnsRecord, name: String, t: RecordType) -> bool {
    r.source@ == name@ && r.record_type@ == type_text(t)
}

/// Whether `r` answers for `(name, t)`.
pub fn record_matches_exec(r: &DnsRecord, name: &String, t: RecordType) -> (b: bool)
    ensures
        b == record_matches(*r, *name, t),
{
    let label: String = String::from_str(type_label(t));
    r.source == *name && r.record_type == label
}

/// A failed zone store call: either the provider answered with a
/// non-success status, or the store could not be reached at all.
#[derive(Debug, Clone, PartialEq)]
pub enum StoreError {
    Api { status: u16, body: String },
    Transport { cause: String },
}

} // verus!
