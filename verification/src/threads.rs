//! Normalizing remote thread descriptors into uniform, display-ready
//! summaries.

use vstd::prelude::*;
use vstd::string::*;
use crate::decimal::{spec_decimal, u64_to_decimal};
use crate::entities::{decode_entities, decoded_entities};
use crate::timefmt::{format_timestamp, spec_format_timestamp};

verus! {

/// A thread identifier as it arrives on the wire: either text or a number.
pub enum ThreadIdWire {
    Text(String),
    Numeric(u64),
}

/// The canonical identifier string: text is kept verbatim, a number is
/// rendered in decimal with no sign and no leading zeros.
pub open spec fn spec_canonical_id(w: &ThreadIdWire) -> Seq<char> {
    match w {
        ThreadIdWire::Text(s) => s@,
        ThreadIdWire::Numeric(n) => spec_decimal(*n as nat),
    }
}

pub fn canonical_thread_id(w: &ThreadIdWire) -> (r: String)
    ensures
        r@ == spec_canonical_id(w),
{
    match w {
        ThreadIdWire::Text(s) => s.clone(),
        ThreadIdWire::Numeric(n) => u64_to_decimal(*n),
    }
}

/// A numeric identifier and its own decimal text form normalize to the same
/// canonical identifier.
pub proof fn lemma_wire_forms_agree(n: u64, s: String)
    requires
        s@ == spec_decimal(n as nat),
    ensures
        spec_canonical_id(&ThreadIdWire::Text(s)) == spec_canonical_id(&ThreadIdWire::Numeric(n)),
{
}

/// One element of the remote thread list, as received.
pub struct RawThreadDescriptor {
    pub thread: ThreadIdWire,
    pub title: String,
    pub number: u32,
    pub date: i64,
}

/// A normalized, display-ready thread summary.
pub struct ThreadItem {
    pub id: String,
    pub title: String,
    pub response_count: u32,
    pub created_at: String,
    pub date: i64,
}

/// `t` is the normalization of descriptor `d`.
pub open spec fn thread_item_matches(t: &ThreadItem, d: &RawThreadDescriptor) -> bool {
    &&& t.id@ == spec_canonical_id(&d.thread)
    &&& t.title@ == decoded_entities(d.title@)
    &&& t.response_count == d.number
    &&& t.created_at@ == spec_format_timestamp(d.date)
    &&& t.date == d.date
}

fn normalize_thread(d: &RawThreadDescriptor) -> (t: ThreadItem)
    ensures
        thread_item_matches(&t, d),
{
    ThreadItem {
        id: canonical_thread_id(&d.thread),
        title: decode_entities(d.title.as_str()),
        response_count: d.number,
        created_at: format_timestamp(d.date),
        date: d.date,
    }
}

/// Why a thread identifier was rejected before any fetch.
#[derive(Clone, Copy, Debug, PartialEq, Eq, Structural)]
pub enum ThreadIdError {
    /// The identifier is empty.
    Missing,
    /// The identifier has fewer than four characters.
    TooShort,
}

/// The resource path of a thread's post dump: the first four characters of
/// the identifier select the subdirectory, and the full identifier plus the
/// fixed suffix name the file.
pub open spec fn spec_thread_dat_path(id: Seq<char>) -> Seq<char> {
    "thread/"@ + id.subrange(0, 4) + "/"@ + id + ".dat"@
}

/// Derives the relative resource path of a thread's post dump from its
/// identifier; an empty identifier and one shorter than four characters are
/// rejected before any fetch is attempted.
pub fn thread_dat_path(thread_id: &str) -> (r: Result<String, ThreadIdError>)
    ensures
        thread_id@.len() == 0 ==> (r matches Err(e) && e == ThreadIdError::Missing),
        0 < thread_id@.len() < 4 ==> (r matches Err(e) && e == ThreadIdError::TooShort),
        thread_id@.len() >= 4 ==> (r matches Ok(p) && p@ == spec_thread_dat_path(thread_id@)),
{
    let n = thread_id.unicode_len();
    if n == 0 {
        return Err(ThreadIdError::Missing);
    }
    if n < 4 {
        return Err(ThreadIdError::TooShort);
    }
    let prefix = thread_id.substring_char(0, 4);
    let mut path = String::from_str("thread/");
    path.append(prefix);
    path.append("/");
    path.append(thread_id);
    path.append(".dat");
    Ok(path)
}

/// Converts the remote descriptor list into thread summaries, in the same
/// order, with identifiers made canonical, titles entity-decoded, and
/// timestamps rendered as local-time strings.
pub fn normalize_threads(items: &Vec<RawThreadDescriptor>) -> (r: Vec<ThreadItem>)
    ensures
        r@.len() == items@.len(),
        forall|i: int| 0 <= i < items@.len() ==> thread_item_matches(&r@[i], &items@[i]),
{
    let mut out: Vec<ThreadItem> = Vec::new();
    let mut idx: usize = 0;
    while idx < items.len()
        invariant
            idx <= items@.len(),
            out@.len() == idx,
            forall|i: int| 0 <= i < idx ==> thread_item_matches(&out@[i], &items@[i]),
        decreases items@.len() - idx,
    {
        out.push(normalize_thread(&items[idx]));
        idx = idx + 1;
    }
    out
}

} // verus!
