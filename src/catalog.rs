//! The blob catalog: records `id ":" base64(sealed)` joined by `|`, at most
//! `CAPACITY` bytes in all, kept in the authenticator's large-blob area.

use crate::codec::{
    base64_of, decode_base64, decode_hex, encode_base64, encode_hex, hex_text, hex_value,
    is_base64_byte, is_base64_text, is_hex_text,
};
use vstd::prelude::*;

verus! {

/// Largest catalog, in bytes, that the large-blob area holds.
pub const CAPACITY: usize = 1024;

/// Byte that separates records: `|`.
pub const SEPARATOR: u8 = 0x7c;

/// Byte that ends a record's display id: `:`.
pub const ID_MARK: u8 = 0x3a;

/// Why a catalog operation could not be carried out.
#[derive(Debug, Clone, Copy, PartialEq, Eq, Structural)]
pub enum StoreError {
    /// The stored blob is not UTF-8 text.
    NotUtf8,
    /// Nothing was ever written, or the catalog was emptied.
    EmptyBlob,
    /// The catalog holds no record.
    NoEntries,
    /// A position outside the catalog.
    InvalidIndex,
    /// No record carries the requested id.
    NotFound,
    /// A record's payload is neither base64 nor hexadecimal.
    BadEncoding,
    /// The user gave up the eviction.
    Cancelled,
    /// The user picked no existing record to evict.
    InvalidChoice,
    /// The new record does not fit even after one eviction.
    NoSpace,
    /// An entry id must not be empty.
    EmptyId,
}

/// The word whose encodings mark an emptied catalog: `EMPTY`.
pub open spec fn empty_word() -> Seq<u8> {
    seq![0x45u8, 0x4du8, 0x50u8, 0x54u8, 0x59u8]
}

/// What is written when the last record is deleted.
pub open spec fn emptied_marker() -> Seq<u8> {
    base64_of(empty_word())
}

/// The hexadecimal form of the emptied marker, which counts as blank too.
pub open spec fn legacy_emptied_marker() -> Seq<u8> {
    hex_text(empty_word())
}

/// A blob that holds no catalog: never written, or emptied.
pub open spec fn is_blank(blob: Seq<u8>) -> bool {
    blob.len() == 0 || blob == emptied_marker() || blob == legacy_emptied_marker()
}

/// The bytes after the last separator of `s`.
pub open spec fn tail_segment(s: Seq<u8>) -> Seq<u8>
    decreases s.len(),
{
    if s.len() == 0 {
        Seq::empty()
    } else if s.last() == SEPARATOR {
        Seq::empty()
    } else {
        tail_segment(s.drop_last()).push(s.last())
    }
}

/// The non-empty segments of `s` that a separator closes, in order.
pub open spec fn closed_records(s: Seq<u8>) -> Seq<Seq<u8>>
    decreases s.len(),
{
    if s.len() == 0 {
        Seq::empty()
    } else if s.last() == SEPARATOR {
        let t = tail_segment(s.drop_last());
        if t.len() > 0 {
            closed_records(s.drop_last()).push(t)
        } else {
            closed_records(s.drop_last())
        }
    } else {
        closed_records(s.drop_last())
    }
}

/// `s` split at every separator, with the empty segments dropped.
pub open spec fn records(s: Seq<u8>) -> Seq<Seq<u8>> {
    let t = tail_segment(s);
    if t.len() > 0 {
        closed_records(s).push(t)
    } else {
        closed_records(s)
    }
}

/// The records that a stored blob lists.
pub open spec fn listing(blob: Seq<u8>) -> Seq<Seq<u8>> {
    if is_blank(blob) {
        Seq::empty()
    } else {
        records(blob)
    }
}

/// The records joined by separators.
pub open spec fn join(entries: Seq<Seq<u8>>) -> Seq<u8>
    decreases entries.len(),
{
    if entries.len() == 0 {
        Seq::empty()
    } else if entries.len() == 1 {
        entries[0]
    } else {
        join(entries.drop_last()).push(SEPARATOR) + entries.last()
    }
}

/// `s` holds no separator.
pub open spec fn no_separator(s: Seq<u8>) -> bool {
    forall|i: int| 0 <= i < s.len() ==> s[i] != SEPARATOR
}

/// A record that survives a join and a split unchanged.
pub open spec fn is_record(e: Seq<u8>) -> bool {
    e.len() > 0 && no_separator(e)
}

pub open spec fn all_records(entries: Seq<Seq<u8>>) -> bool {
    forall|i: int| 0 <= i < entries.len() ==> is_record(#[trigger] entries[i])
}

/// Bytes that a catalog of `existing` plus `new_entry` is charged: the
/// current catalog, the new record and one separator.
pub open spec fn needed_space(existing: Seq<Seq<u8>>, new_entry: Seq<u8>) -> int {
    join(existing).len() + new_entry.len() + 1int
}

pub open spec fn fits_spec(existing: Seq<Seq<u8>>, new_entry: Seq<u8>) -> bool {
    needed_space(existing, new_entry) <= CAPACITY
}

/// `k` is the position of the first `:` of `e`.
pub open spec fn is_first_mark(e: Seq<u8>, k: int) -> bool {
    0 <= k < e.len() && e[k] == ID_MARK && forall|j: int| 0 <= j < k ==> e[j] != ID_MARK
}

/// The record for entry `id` whose sealed bytes are `sealed`.
pub open spec fn record_of(id: Seq<u8>, sealed: Seq<u8>) -> Seq<u8> {
    id.push(ID_MARK) + base64_of(sealed)
}

/// The sealed bytes that a record carries, where it carries any: after the
/// first `:` in base64; without a `:` the whole record, in base64 or else in
/// hexadecimal.
pub open spec fn payload_ok(e: Seq<u8>, sealed: Seq<u8>) -> bool {
    if exists|k: int| is_first_mark(e, k) {
        let k = choose|k: int| is_first_mark(e, k);
        base64_of(sealed) == e.subrange(k + 1, e.len() as int)
    } else if is_base64_text(e) {
        base64_of(sealed) == e
    } else {
        is_hex_text(e) && sealed == hex_value(e)
    }
}

pub open spec fn has_payload(e: Seq<u8>) -> bool {
    if exists|k: int| is_first_mark(e, k) {
        let k = choose|k: int| is_first_mark(e, k);
        is_base64_text(e.subrange(k + 1, e.len() as int))
    } else {
        is_base64_text(e) || is_hex_text(e)
    }
}

/// Relies on `std::str::from_utf8`: it succeeds exactly on valid UTF-8.
#[verifier::external_body]
fn is_utf8(b: &[u8]) -> (r: bool)
    ensures
        r == vstd::utf8::valid_utf8(b@),
{
    std::str::from_utf8(b).is_ok()
}

fn same_bytes(a: &[u8], b: &[u8]) -> (r: bool)
    ensures
        r == (a@ == b@),
{
    if a.len() != b.len() {
        return false;
    }
    let mut i: usize = 0;
    while i < a.len()
        invariant
            a@.len() == b@.len(),
            0 <= i <= a@.len(),
            forall|j: int| 0 <= j < i ==> a@[j] == b@[j],
        decreases a@.len() - i,
    {
        if a[i] != b[i] {
            return false;
        }
        i += 1;
    }
    assert(a@ =~= b@);
    true
}

fn empty_word_bytes() -> (r: Vec<u8>)
    ensures
        r@ == empty_word(),
{
    let r: Vec<u8> = vec![0x45u8, 0x4du8, 0x50u8, 0x54u8, 0x59u8];
    assert(r@ =~= empty_word());
    r
}

/// The marker written for an emptied catalog.
pub fn emptied_marker_bytes() -> (r: Vec<u8>)
    ensures
        r@ == emptied_marker(),
        r@.len() == 8,
        forall|i: int| 0 <= i < r@.len() ==> is_base64_byte(#[trigger] r@[i]),
{
    let w = empty_word_bytes();
    encode_base64(w.as_slice())
}

/// Whether a stored blob holds no catalog.
pub fn is_blob_empty(blob: &[u8]) -> (r: bool)
    ensures
        r == is_blank(blob@),
{
    if blob.len() == 0 {
        return true;
    }
    let marker = emptied_marker_bytes();
    let w = empty_word_bytes();
    let legacy = encode_hex(w.as_slice());
    same_bytes(blob, marker.as_slice()) || same_bytes(blob, legacy.as_slice())
}

/// The catalog text that a stored blob holds: none when it is blank, an error
/// when it is not UTF-8.
pub fn get_blob_content(blob: &[u8]) -> (r: Result<Option<Vec<u8>>, StoreError>)
    ensures
        is_blank(blob@) ==> r matches Ok(None),
        !is_blank(blob@) && !vstd::utf8::valid_utf8(blob@) ==> r == Err::<Option<Vec<u8>>, StoreError>(StoreError::NotUtf8),
        !is_blank(blob@) && vstd::utf8::valid_utf8(blob@) ==> (r matches Ok(Some(v)) && v@ == blob@),
{
    if is_blob_empty(blob) {
        return Ok(None);
    }
    if !is_utf8(blob) {
        return Err(StoreError::NotUtf8);
    }
    let mut v: Vec<u8> = Vec::new();
    v.extend_from_slice(blob);
    Ok(Some(v))
}

/// Splits catalog text into its records; the emptied marker lists none.
pub fn parse_blob_entries(content: &[u8]) -> (r: Vec<Vec<u8>>)
    ensures
        content@ == emptied_marker() ==> r.deep_view() == Seq::<Seq<u8>>::empty(),
        content@ != emptied_marker() ==> r.deep_view() == records(content@),
{
    let marker = emptied_marker_bytes();
    if same_bytes(content, marker.as_slice()) {
        let r: Vec<Vec<u8>> = Vec::new();
        assert(r.deep_view() =~= Seq::<Seq<u8>>::empty());
        return r;
    }
    let mut out: Vec<Vec<u8>> = Vec::new();
    let mut cur: Vec<u8> = Vec::new();
    let mut i: usize = 0;
    assert(out.deep_view() =~= closed_records(content@.subrange(0, 0)));
    assert(cur@ =~= tail_segment(content@.subrange(0, 0)));
    while i < content.len()
        invariant
            0 <= i <= content@.len(),
            cur@ == tail_segment(content@.subrange(0, i as int)),
            out.deep_view() == closed_records(content@.subrange(0, i as int)),
        decreases content@.len() - i,
    {
        let c = content[i];
        let ghost pre = content@.subrange(0, i as int);
        let ghost next = content@.subrange(0, i + 1);
        assert(next.drop_last() =~= pre);
        if c == SEPARATOR {
            if cur.len() > 0 {
                let ghost old_out = out.deep_view();
                assert(cur.deep_view() =~= cur@);
                out.push(cur);
                assert(out.deep_view() =~= old_out.push(tail_segment(pre)));
            }
            cur = Vec::new();
            assert(cur@ =~= tail_segment(next));
        } else {
            cur.push(c);
        }
        i += 1;
    }
    assert(content@.subrange(0, content@.len() as int) =~= content@);
    if cur.len() > 0 {
        let ghost old_out = out.deep_view();
        assert(cur.deep_view() =~= cur@);
        out.push(cur);
        assert(out.deep_view() =~= old_out.push(tail_segment(content@)));
    }
    out
}

/// The records that a stored blob lists, oldest first.
pub fn list_entries(blob: &[u8]) -> (r: Result<Vec<Vec<u8>>, StoreError>)
    ensures
        r is Err <==> !is_blank(blob@) && !vstd::utf8::valid_utf8(blob@),
        r is Err ==> r == Err::<Vec<Vec<u8>>, StoreError>(StoreError::NotUtf8),
        r matches Ok(v) ==> v.deep_view() == listing(blob@),
{
    match get_blob_content(blob) {
        Err(e) => Err(e),
        Ok(None) => {
            let v: Vec<Vec<u8>> = Vec::new();
            assert(v.deep_view() =~= Seq::<Seq<u8>>::empty());
            Ok(v)
        },
        Ok(Some(content)) => Ok(parse_blob_entries(content.as_slice())),
    }
}

/// Bytes `lo..hi` of `e`.
pub(crate) fn copy_range(e: &[u8], lo: usize, hi: usize) -> (r: Vec<u8>)
    requires
        lo <= hi <= e@.len(),
    ensures
        r@ == e@.subrange(lo as int, hi as int),
{
    let mut r: Vec<u8> = Vec::new();
    let mut i: usize = lo;
    while i < hi
        invariant
            lo <= i <= hi <= e@.len(),
            r@ == e@.subrange(lo as int, i as int),
        decreases hi - i,
    {
        r.push(e[i]);
        assert(r@ =~= e@.subrange(lo as int, i + 1));
        i += 1;
    }
    r
}

/// Position of the first `:` of a record.
pub fn find_id_mark(e: &[u8]) -> (r: Option<usize>)
    ensures
        r matches Some(k) ==> is_first_mark(e@, k as int),
        r is None ==> forall|j: int| 0 <= j < e@.len() ==> e@[j] != ID_MARK,
{
    let mut i: usize = 0;
    while i < e.len()
        invariant
            0 <= i <= e@.len(),
            forall|j: int| 0 <= j < i ==> e@[j] != ID_MARK,
        decreases e@.len() - i,
    {
        if e[i] == ID_MARK {
            return Some(i);
        }
        i += 1;
    }
    None
}

proof fn lemma_first_mark_unique(e: Seq<u8>, k: int)
    requires
        is_first_mark(e, k),
    ensures
        (choose|j: int| is_first_mark(e, j)) == k,
{
    let j = choose|j: int| is_first_mark(e, j);
    assert(is_first_mark(e, j));
    if j < k {
        assert(e[j] != ID_MARK);
    } else if k < j {
        assert(e[k] != ID_MARK);
    }
}

/// The id that a record shows in listings: what precedes its first `:`.
/// A record without one is a legacy record and shows none.
pub open spec fn record_id(e: Seq<u8>) -> Option<Seq<u8>> {
    if exists|k: int| is_first_mark(e, k) {
        Some(e.subrange(0, choose|k: int| is_first_mark(e, k)))
    } else {
        None
    }
}

/// The id that a record shows in listings; none for a legacy record.
pub fn entry_display_id(e: &[u8]) -> (r: Option<Vec<u8>>)
    ensures
        r is None <==> record_id(e@) is None,
        r matches Some(id) ==> record_id(e@) == Some(id@),
{
    match find_id_mark(e) {
        Some(k) => {
            proof {
                lemma_first_mark_unique(e@, k as int);
            }
            Some(copy_range(e, 0, k))
        },
        None => {
            assert(!exists|k: int| is_first_mark(e@, k));
            None
        },
    }
}

/// The display ids of a listing, position by position.
pub fn display_ids(entries: &Vec<Vec<u8>>) -> (r: Vec<Option<Vec<u8>>>)
    ensures
        r@.len() == entries@.len(),
        forall|i: int|
            0 <= i < r@.len() ==> ((#[trigger] r@[i]) is None <==> record_id(entries@[i]@) is None),
        forall|i: int|
            0 <= i < r@.len() ==> (#[trigger] r@[i] matches Some(id) ==> record_id(entries@[i]@)
                == Some(id@)),
{
    let mut r: Vec<Option<Vec<u8>>> = Vec::new();
    let mut i: usize = 0;
    while i < entries.len()
        invariant
            0 <= i <= entries@.len(),
            r@.len() == i,
            forall|j: int|
                0 <= j < i ==> ((#[trigger] r@[j]) is None <==> record_id(entries@[j]@) is None),
            forall|j: int|
                0 <= j < i ==> (#[trigger] r@[j] matches Some(id) ==> record_id(entries@[j]@)
                    == Some(id@)),
        decreases entries@.len() - i,
    {
        r.push(entry_display_id(entries[i].as_slice()));
        i += 1;
    }
    r
}

/// The sealed bytes that a record carries: after the first `:` in base64;
/// a legacy record without `:` in base64, or else in hexadecimal.
pub fn sealed_of_record(e: &[u8]) -> (r: Result<Vec<u8>, StoreError>)
    ensures
        r is Ok <==> has_payload(e@),
        r matches Ok(v) ==> payload_ok(e@, v@),
        r matches Ok(v) ==> forall|b: Seq<u8>| #[trigger] payload_ok(e@, b) ==> b == v@,
        r is Err ==> r == Err::<Vec<u8>, StoreError>(StoreError::BadEncoding),
{
    match find_id_mark(e) {
        Some(k) => {
            proof {
                lemma_first_mark_unique(e@, k as int);
            }
            let n = e.len();
            assert(k < n);
            let text = copy_range(e, k + 1, n);
            match decode_base64(text.as_slice()) {
                Some(v) => Ok(v),
                None => Err(StoreError::BadEncoding),
            }
        },
        None => {
            match decode_base64(e) {
                Some(v) => Ok(v),
                None => match decode_hex(e) {
                    Some(v) => Ok(v),
                    None => Err(StoreError::BadEncoding),
                },
            }
        },
    }
}

/// The record of a new entry: its id, `:`, and its sealed bytes in base64.
pub fn make_record(id: &[u8], sealed: &[u8]) -> (r: Result<Vec<u8>, StoreError>)
    ensures
        id@.len() == 0 ==> r == Err::<Vec<u8>, StoreError>(StoreError::EmptyId),
        id@.len() > 0 ==> (r matches Ok(v) && v@ == record_of(id@, sealed@)),
        no_separator(id@) ==> (r matches Ok(v) ==> is_record(v@) && has_id_mark(v@)),
{
    if id.len() == 0 {
        return Err(StoreError::EmptyId);
    }
    let mut v: Vec<u8> = Vec::new();
    v.extend_from_slice(id);
    v.push(ID_MARK);
    let text = encode_base64(sealed);
    v.extend_from_slice(text.as_slice());
    assert(v@ =~= record_of(id@, sealed@));
    proof {
        assert(v@[id@.len() as int] == ID_MARK);
        if no_separator(id@) {
            assert forall|i: int| 0 <= i < v@.len() implies v@[i] != SEPARATOR by {
                if i > id@.len() {
                    assert(is_base64_byte(text@[i - id@.len() - 1]));
                }
            }
        }
    }
    Ok(v)
}

proof fn lemma_append_plain(t: Seq<u8>, x: Seq<u8>)
    requires
        no_separator(x),
    ensures
        closed_records(t + x) == closed_records(t),
        tail_segment(t + x) == tail_segment(t) + x,
    decreases x.len(),
{
    if x.len() == 0 {
        assert(t + x =~= t);
        assert(tail_segment(t) + x =~= tail_segment(t));
    } else {
        let y = x.drop_last();
        assert(no_separator(y));
        lemma_append_plain(t, y);
        assert((t + x).drop_last() =~= t + y);
        assert((t + x).last() == x[x.len() - 1]);
        assert(x[x.len() - 1] != SEPARATOR);
        assert((tail_segment(t) + y).push(x.last()) =~= tail_segment(t) + x);
    }
}

proof fn lemma_append_record(s: Seq<u8>, x: Seq<u8>)
    requires
        is_record(x),
    ensures
        records(s.push(SEPARATOR) + x) == records(s).push(x),
{
    let t = s.push(SEPARATOR);
    assert(t.drop_last() =~= s);
    lemma_append_plain(t, x);
    assert(Seq::<u8>::empty() + x =~= x);
}

proof fn lemma_tail_plain(s: Seq<u8>)
    ensures
        no_separator(tail_segment(s)),
    decreases s.len(),
{
    if s.len() > 0 {
        lemma_tail_plain(s.drop_last());
    }
}

/// Every record that a split yields is non-empty and holds no separator.
pub proof fn lemma_records_well_formed(s: Seq<u8>)
    ensures
        all_records(records(s)),
{
    lemma_closed_well_formed(s);
    lemma_tail_plain(s);
}

proof fn lemma_closed_well_formed(s: Seq<u8>)
    ensures
        all_records(closed_records(s)),
    decreases s.len(),
{
    if s.len() > 0 {
        lemma_closed_well_formed(s.drop_last());
        lemma_tail_plain(s.drop_last());
    }
}

/// Splitting the join of well-formed records gives the records back, in order.
pub proof fn lemma_split_join(entries: Seq<Seq<u8>>)
    requires
        all_records(entries),
    ensures
        records(join(entries)) == entries,
    decreases entries.len(),
{
    if entries.len() == 0 {
    } else if entries.len() == 1 {
        assert(is_record(entries[0]));
        lemma_append_plain(Seq::empty(), entries[0]);
        assert(Seq::<u8>::empty() + entries[0] =~= entries[0]);
        assert(seq![entries[0]] =~= entries);
    } else {
        let rest = entries.drop_last();
        assert(all_records(rest));
        assert(is_record(entries[entries.len() - 1]));
        lemma_split_join(rest);
        lemma_append_record(join(rest), entries.last());
        assert(rest.push(entries.last()) =~= entries);
    }
}

/// A join of two or more records is the join of all but the last, a
/// separator, and the last.
pub proof fn lemma_join_push_len(entries: Seq<Seq<u8>>, x: Seq<u8>)
    requires
        entries.len() > 0,
    ensures
        join(entries.push(x)) == join(entries).push(SEPARATOR) + x,
        join(entries.push(x)).len() == join(entries).len() + 1 + x.len(),
{
    assert(entries.push(x).drop_last() =~= entries);
}

/// A capacity boundary: once there is a record, a new one fits exactly when
/// the catalog that results holds at most `CAPACITY` bytes.
pub proof fn lemma_capacity_boundary(entries: Seq<Seq<u8>>, x: Seq<u8>)
    requires
        entries.len() > 0,
    ensures
        fits_spec(entries, x) <==> join(entries.push(x)).len() <= CAPACITY,
{
    lemma_join_push_len(entries, x);
}

proof fn lemma_join_prefix_step(entries: Seq<Seq<u8>>, i: int)
    requires
        0 <= i < entries.len(),
    ensures
        join(entries.subrange(0, i + 1)) == if i == 0 {
            entries[0]
        } else {
            join(entries.subrange(0, i)).push(SEPARATOR) + entries[i]
        },
{
    let s = entries.subrange(0, i + 1);
    assert(s.drop_last() =~= entries.subrange(0, i));
}

proof fn lemma_join_prefix_len(entries: Seq<Seq<u8>>, i: int)
    requires
        0 <= i <= entries.len(),
    ensures
        join(entries.subrange(0, i)).len() <= join(entries).len(),
    decreases entries.len() - i,
{
    if i < entries.len() {
        lemma_join_prefix_step(entries, i);
        lemma_join_prefix_len(entries, i + 1);
    } else {
        assert(entries.subrange(0, i) =~= entries);
    }
}

proof fn lemma_deep_view_elem(entries: &Vec<Vec<u8>>, i: int)
    requires
        0 <= i < entries@.len(),
    ensures
        entries.deep_view()[i] == entries@[i]@,
{
    assert(entries@[i].deep_view() =~= entries@[i]@);
}

/// The records joined by separators.
pub fn join_records(entries: &Vec<Vec<u8>>) -> (r: Vec<u8>)
    ensures
        r@ == join(entries.deep_view()),
{
    let ghost e = entries.deep_view();
    let mut out: Vec<u8> = Vec::new();
    let mut i: usize = 0;
    while i < entries.len()
        invariant
            e == entries.deep_view(),
            0 <= i <= entries@.len(),
            out@ == join(e.subrange(0, i as int)),
        decreases entries@.len() - i,
    {
        proof {
            lemma_join_prefix_step(e, i as int);
            lemma_deep_view_elem(entries, i as int);
        }
        if i > 0 {
            out.push(SEPARATOR);
        }
        out.extend_from_slice(entries[i].as_slice());
        assert(i == 0 ==> out@ =~= e[0]);
        i += 1;
    }
    assert(e.subrange(0, e.len() as int) =~= e);
    out
}

/// The entry at 1-based position `choice`, if there is one.
pub fn select_entry<T>(entries: &[T], choice: usize) -> (r: Option<&T>)
    ensures
        0 < choice <= entries@.len() ==> r == Some(&entries@[choice - 1]),
        !(0 < choice <= entries@.len()) ==> r is None,
{
    if choice > 0 && choice <= entries.len() {
        Some(&entries[choice - 1])
    } else {
        None
    }
}

/// Whether a new record fits beside the existing ones: the current catalog,
/// the record and one separator within `CAPACITY` bytes.
pub fn fits(existing: &Vec<Vec<u8>>, new_entry: &[u8]) -> (r: bool)
    ensures
        r == fits_spec(existing.deep_view(), new_entry@),
{
    let ghost e = existing.deep_view();
    let mut total: usize = 0;
    let mut i: usize = 0;
    while i < existing.len()
        invariant
            e == existing.deep_view(),
            0 <= i <= existing@.len(),
            total == join(e.subrange(0, i as int)).len(),
            total <= CAPACITY,
        decreases existing@.len() - i,
    {
        proof {
            lemma_join_prefix_step(e, i as int);
            lemma_deep_view_elem(existing, i as int);
            lemma_join_prefix_len(e, i + 1);
        }
        let len = existing[i].len();
        if len > CAPACITY {
            return false;
        }
        let next = if i > 0 {
            total + 1 + len
        } else {
            len
        };
        if next > CAPACITY {
            return false;
        }
        total = next;
        i += 1;
    }
    assert(e.subrange(0, e.len() as int) =~= e);
    if new_entry.len() >= CAPACITY {
        return false;
    }
    total + new_entry.len() + 1 <= CAPACITY
}

/// Makes room for a new record. When it fits, the entries stay as they are;
/// otherwise the entry at 1-based position `eviction_choice` goes (0
/// cancels), and the record must then fit: one eviction at most.
pub fn handle_space_management(existing: Vec<Vec<u8>>, new_entry: &[u8], eviction_choice: usize) -> (r:
    Result<Vec<Vec<u8>>, StoreError>)
    ensures
        ({
            let e = existing.deep_view();
            let kept = e.remove(eviction_choice - 1);
            &&& fits_spec(e, new_entry@) ==> (r matches Ok(v) && v.deep_view() == e)
            &&& !fits_spec(e, new_entry@) && eviction_choice == 0 ==> r == Err::<
                Vec<Vec<u8>>,
                StoreError,
            >(StoreError::Cancelled)
            &&& !fits_spec(e, new_entry@) && eviction_choice > e.len() ==> r == Err::<
                Vec<Vec<u8>>,
                StoreError,
            >(StoreError::InvalidChoice)
            &&& !fits_spec(e, new_entry@) && 0 < eviction_choice <= e.len() && fits_spec(
                kept,
                new_entry@,
            ) ==> (r matches Ok(v) && v.deep_view() == kept)
            &&& !fits_spec(e, new_entry@) && 0 < eviction_choice <= e.len() && !fits_spec(
                kept,
                new_entry@,
            ) ==> r == Err::<Vec<Vec<u8>>, StoreError>(StoreError::NoSpace)
        }),
{
    if fits(&existing, new_entry) {
        return Ok(existing);
    }
    if eviction_choice == 0 {
        return Err(StoreError::Cancelled);
    }
    if eviction_choice > existing.len() {
        return Err(StoreError::InvalidChoice);
    }
    let ghost e = existing.deep_view();
    let mut kept = existing;
    kept.remove(eviction_choice - 1);
    assert(kept.deep_view() =~= e.remove(eviction_choice - 1));
    if fits(&kept, new_entry) {
        Ok(kept)
    } else {
        Err(StoreError::NoSpace)
    }
}

/// The catalog bytes once `new_entry` is appended to `existing_entries`.
pub fn build_final_data(existing_entries: Vec<Vec<u8>>, new_entry: Vec<u8>) -> (r: Vec<u8>)
    ensures
        r@ == join(existing_entries.deep_view().push(new_entry@)),
{
    let ghost e = existing_entries.deep_view();
    let mut all = existing_entries;
    all.push(new_entry);
    assert(all.deep_view() =~= e.push(new_entry@)) by {
        assert(new_entry.deep_view() =~= new_entry@);
    }
    join_records(&all)
}

/// `x` holds the `:` that ends a display id.
pub open spec fn has_id_mark(x: Seq<u8>) -> bool {
    exists|k: int| 0 <= k < x.len() && x[k] == ID_MARK
}

/// The entries that a new record joins: the listing itself when the record
/// fits, else the listing without the entry at 1-based position `choice`.
pub open spec fn kept_entries(listed: Seq<Seq<u8>>, record: Seq<u8>, choice: int) -> Seq<Seq<u8>> {
    if fits_spec(listed, record) {
        listed
    } else {
        listed.remove(choice - 1)
    }
}

proof fn lemma_legacy_marker_plain()
    ensures
        forall|i: int|
            0 <= i < legacy_emptied_marker().len() ==> #[trigger] legacy_emptied_marker()[i]
                != ID_MARK,
{
    assert forall|i: int| 0 <= i < legacy_emptied_marker().len() implies #[trigger] legacy_emptied_marker()[i]
        != ID_MARK by {
        let b = empty_word()[i / 2];
        assert(b / 16 < 16);
        assert(b % 16 < 16);
    }
}

/// A catalog that ends in a record holding `:` is no marker of emptiness.
proof fn lemma_not_blank(v: Seq<u8>, x: Seq<u8>, prefix_len: int)
    requires
        0 <= prefix_len,
        v.len() == prefix_len + x.len(),
        forall|i: int| 0 <= i < x.len() ==> v[prefix_len + i] == x[i],
        has_id_mark(x),
        forall|i: int| 0 <= i < emptied_marker().len() ==> is_base64_byte(#[trigger] emptied_marker()[i]),
    ensures
        !is_blank(v),
{
    let k = choose|k: int| 0 <= k < x.len() && x[k] == ID_MARK;
    assert(v[prefix_len + k] == ID_MARK);
    lemma_legacy_marker_plain();
    if v == emptied_marker() {
        assert(is_base64_byte(emptied_marker()[prefix_len + k]));
    }
    if v == legacy_emptied_marker() {
        assert(legacy_emptied_marker()[prefix_len + k] != ID_MARK);
    }
}

/// The catalog bytes once `record` is inserted into the catalog that `blob`
/// holds, evicting the entry at 1-based position `eviction_choice` when the
/// record does not fit (0 cancels). An inserted record with a display id
/// shows up once, at the end, after the entries that were kept, in order.
pub fn catalog_after_insert(blob: &[u8], record: &[u8], eviction_choice: usize) -> (r: Result<
    Vec<u8>,
    StoreError,
>)
    ensures
        ({
            let listed = listing(blob@);
            let kept = kept_entries(listed, record@, eviction_choice as int);
            let readable = is_blank(blob@) || vstd::utf8::valid_utf8(blob@);
            let room = fits_spec(listed, record@) || (0 < eviction_choice <= listed.len()
                && fits_spec(kept, record@));
            &&& !readable ==> r == Err::<Vec<u8>, StoreError>(StoreError::NotUtf8)
            &&& readable && !fits_spec(listed, record@) && eviction_choice == 0 ==> r == Err::<
                Vec<u8>,
                StoreError,
            >(StoreError::Cancelled)
            &&& readable && !fits_spec(listed, record@) && eviction_choice > listed.len() ==> r
                == Err::<Vec<u8>, StoreError>(StoreError::InvalidChoice)
            &&& readable && !fits_spec(listed, record@) && 0 < eviction_choice <= listed.len()
                && !fits_spec(kept, record@) ==> r == Err::<Vec<u8>, StoreError>(
                StoreError::NoSpace,
            )
            &&& readable && room ==> (r matches Ok(v) && v@ == join(kept.push(record@)))
            &&& is_record(record@) && has_id_mark(record@) ==> (r matches Ok(v) ==> listing(v@)
                == kept.push(record@))
        }),
{
    let marker = emptied_marker_bytes();
    let entries = match list_entries(blob) {
        Ok(v) => v,
        Err(e) => {
            return Err(e);
        },
    };
    let ghost listed = entries.deep_view();
    proof {
        if !is_blank(blob@) {
            lemma_records_well_formed(blob@);
        }
    }
    let kept = match handle_space_management(entries, record, eviction_choice) {
        Ok(v) => v,
        Err(e) => {
            return Err(e);
        },
    };
    let ghost k = kept.deep_view();
    let mut rec: Vec<u8> = Vec::new();
    rec.extend_from_slice(record);
    assert(rec@ =~= record@);
    let v = build_final_data(kept, rec);
    assert(v@ == join(k.push(record@)));
    proof {
        assert(all_records(k)) by {
            if !fits_spec(listed, record@) {
                assert forall|i: int| 0 <= i < k.len() implies is_record(#[trigger] k[i]) by {
                    if i < eviction_choice - 1 {
                        assert(k[i] == listed[i]);
                    } else {
                        assert(k[i] == listed[i + 1]);
                    }
                }
            }
        }
        if is_record(record@) && has_id_mark(record@) {
            assert(all_records(k.push(record@)));
            lemma_split_join(k.push(record@));
            if k.len() > 0 {
                lemma_join_push_len(k, record@);
                let pre = join(k).len() + 1int;
                assert forall|i: int| 0 <= i < record@.len() implies v@[pre + i] == record@[i] by {
                    assert((join(k).push(SEPARATOR) + record@)[pre + i] == record@[i]);
                }
                lemma_not_blank(v@, record@, pre);
            } else {
                assert(k.push(record@) =~= seq![record@]);
                assert forall|i: int| 0 <= i < record@.len() implies v@[0 + i] == record@[i] by {}
                lemma_not_blank(v@, record@, 0);
            }
        }
    }
    Ok(v)
}

/// The catalog bytes once the entry at 1-based position `choice` is deleted:
/// the other records joined, or the emptied marker when none is left; none
/// for a position outside the catalog (0 cancels).
pub fn delete_entry(entries: Vec<Vec<u8>>, choice: usize) -> (r: Option<Vec<u8>>)
    ensures
        ({
            let e = entries.deep_view();
            let kept = e.remove(choice - 1);
            &&& !(0 < choice <= e.len()) ==> r is None
            &&& 0 < choice <= e.len() && kept.len() == 0 ==> (r matches Some(v) && v@
                == emptied_marker() && v@.len() > 0 && is_blank(v@) && listing(v@).len() == 0)
            &&& 0 < choice <= e.len() && kept.len() > 0 ==> (r matches Some(v) && v@ == join(
                kept,
            ))
            &&& 0 < choice <= e.len() && kept.len() > 0 && all_records(e) ==> (r matches Some(v)
                && (!is_blank(v@) ==> listing(v@) == kept))
        }),
{
    if choice == 0 || choice > entries.len() {
        return None;
    }
    let ghost e = entries.deep_view();
    let mut kept = entries;
    kept.remove(choice - 1);
    assert(kept.deep_view() =~= e.remove(choice - 1));
    if kept.len() == 0 {
        return Some(emptied_marker_bytes());
    }
    proof {
        let k = e.remove(choice - 1);
        if all_records(e) {
            assert forall|i: int| 0 <= i < k.len() implies is_record(#[trigger] k[i]) by {
                if i < choice - 1 {
                    assert(k[i] == e[i]);
                } else {
                    assert(k[i] == e[i + 1]);
                }
            }
            lemma_split_join(k);
        }
    }
    Some(join_records(&kept))
}

/// The sealed bytes of the entry at 0-based `index` of the catalog that
/// `blob` holds.
pub fn read_blob_entry_by_index(blob: &[u8], index: usize) -> (r: Result<Vec<u8>, StoreError>)
    ensures
        ({
            let listed = listing(blob@);
            &&& is_blank(blob@) ==> r == Err::<Vec<u8>, StoreError>(StoreError::EmptyBlob)
            &&& !is_blank(blob@) && !vstd::utf8::valid_utf8(blob@) ==> r == Err::<
                Vec<u8>,
                StoreError,
            >(StoreError::NotUtf8)
            &&& !is_blank(blob@) && vstd::utf8::valid_utf8(blob@) && index >= listed.len() ==> r
                == Err::<Vec<u8>, StoreError>(StoreError::InvalidIndex)
            &&& !is_blank(blob@) && vstd::utf8::valid_utf8(blob@) && index < listed.len() ==> {
                &&& r is Ok <==> has_payload(listed[index as int])
                &&& r matches Ok(v) ==> payload_ok(listed[index as int], v@)
                &&& r matches Ok(v) ==> forall|b: Seq<u8>| #[trigger]
                    payload_ok(listed[index as int], b) ==> b == v@
                &&& r is Err ==> r == Err::<Vec<u8>, StoreError>(StoreError::BadEncoding)
            }
        }),
{
    let content = match get_blob_content(blob) {
        Err(e) => {
            return Err(e);
        },
        Ok(None) => {
            return Err(StoreError::EmptyBlob);
        },
        Ok(Some(c)) => c,
    };
    let entries = parse_blob_entries(content.as_slice());
    if index >= entries.len() {
        return Err(StoreError::InvalidIndex);
    }
    proof {
        lemma_deep_view_elem(&entries, index as int);
    }
    sealed_of_record(entries[index].as_slice())
}

/// `i` is the first position of `listed` whose record shows `id`.
pub open spec fn is_first_with_id(listed: Seq<Seq<u8>>, id: Seq<u8>, i: int) -> bool {
    &&& 0 <= i < listed.len()
    &&& record_id(listed[i]) == Some(id)
    &&& forall|j: int| 0 <= j < i ==> record_id(#[trigger] listed[j]) != Some(id)
}

/// The sealed bytes of the first entry that shows `entry_id` in the catalog
/// that `blob` holds.
pub fn read_blob_entry(blob: &[u8], entry_id: &[u8]) -> (r: Result<Vec<u8>, StoreError>)
    ensures
        ({
            let listed = listing(blob@);
            let readable = !is_blank(blob@) && vstd::utf8::valid_utf8(blob@);
            &&& is_blank(blob@) ==> r == Err::<Vec<u8>, StoreError>(StoreError::EmptyBlob)
            &&& !is_blank(blob@) && !vstd::utf8::valid_utf8(blob@) ==> r == Err::<
                Vec<u8>,
                StoreError,
            >(StoreError::NotUtf8)
            &&& readable && listed.len() == 0 ==> r == Err::<Vec<u8>, StoreError>(
                StoreError::NoEntries,
            )
            &&& readable && listed.len() > 0 && (forall|i: int|
                0 <= i < listed.len() ==> record_id(#[trigger] listed[i]) != Some(entry_id@))
                ==> r == Err::<Vec<u8>, StoreError>(StoreError::NotFound)
            &&& forall|i: int|
                readable && #[trigger] is_first_with_id(listed, entry_id@, i) ==> {
                    &&& r is Ok <==> has_payload(listed[i])
                    &&& r matches Ok(v) ==> payload_ok(listed[i], v@)
                    &&& r is Err ==> r == Err::<Vec<u8>, StoreError>(StoreError::BadEncoding)
                }
        }),
{
    let content = match get_blob_content(blob) {
        Err(e) => {
            return Err(e);
        },
        Ok(None) => {
            return Err(StoreError::EmptyBlob);
        },
        Ok(Some(c)) => c,
    };
    let entries = parse_blob_entries(content.as_slice());
    let ghost listed = entries.deep_view();
    if entries.len() == 0 {
        return Err(StoreError::NoEntries);
    }
    let mut i: usize = 0;
    while i < entries.len()
        invariant
            listed == entries.deep_view(),
            listed == listing(blob@),
            !is_blank(blob@),
            vstd::utf8::valid_utf8(blob@),
            0 <= i <= entries@.len(),
            forall|j: int| 0 <= j < i ==> record_id(#[trigger] listed[j]) != Some(entry_id@),
        decreases entries@.len() - i,
    {
        proof {
            lemma_deep_view_elem(&entries, i as int);
        }
        match entry_display_id(entries[i].as_slice()) {
            Some(id) => {
                if same_bytes(id.as_slice(), entry_id) {
                    assert(is_first_with_id(listed, entry_id@, i as int));
                    assert forall|j: int| #[trigger] is_first_with_id(listed, entry_id@, j) implies j
                        == i by {
                        if j < i {
                        } else if j > i {
                            assert(record_id(listed[i as int]) != Some(entry_id@));
                        }
                    }
                    return sealed_of_record(entries[i].as_slice());
                }
            },
            None => {},
        }
        i += 1;
    }
    Err(StoreError::NotFound)
}

/// A record made for an id without `:` carries exactly the sealed bytes it
/// was made from: reading it back gives them, and nothing else.
pub proof fn lemma_record_payload(id: Seq<u8>, sealed: Seq<u8>)
    requires
        forall|i: int| 0 <= i < id.len() ==> id[i] != ID_MARK,
    ensures
        has_payload(record_of(id, sealed)),
        payload_ok(record_of(id, sealed), sealed),
{
    let e = record_of(id, sealed);
    let k = id.len() as int;
    assert(e[k] == ID_MARK);
    assert(is_first_mark(e, k));
    lemma_first_mark_unique(e, k);
    assert(e.subrange(k + 1, e.len() as int) =~= base64_of(sealed));
    assert(is_base64_text(base64_of(sealed)));
}

} // verus!
