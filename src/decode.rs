use crate::entry::{
    lemma_row_lt_irreflexive, lemma_row_lt_total, lemma_row_lt_transitive, lemma_sorted_unique,
    row_lt, rows_of, sorted_rows, ArchiveEntry, Row,
};
use vstd::prelude::*;

verus! {

/// Size in bytes of an archive header; a shorter buffer holds no archive.
pub const HEADER_LEN: usize = 13;

/// Why a chosen file could not be shown.
pub const NOT_AN_ARCHIVE: &'static str = "The chosen file is not an archive this viewer can read.";

/// The registry that vach's archive parser reads from a buffer: each entry's
/// identifier mapped to its location, offset and content version, or `None`
/// where the parser rejects the buffer.
pub uninterp spec fn registry_of(bytes: Seq<u8>) -> Option<Map<Seq<char>, (u64, u64, u8)>>;

/// No identifier occurs twice in `rows`.
pub open spec fn distinct_ids(rows: Seq<Row>) -> bool {
    forall|i: int, j: int| 0 <= i < j < rows.len() ==> rows[i].0 != rows[j].0
}

/// `rows` lists each entry of `registry` exactly once.
pub open spec fn lists_registry(rows: Seq<Row>, registry: Map<Seq<char>, (u64, u64, u8)>) -> bool {
    &&& distinct_ids(rows)
    &&& forall|i: int|
        0 <= i < rows.len() ==> #[trigger] registry.contains_key(rows[i].0) && registry[rows[i].0]
            == (rows[i].1, rows[i].2, rows[i].3)
    &&& forall|k: Seq<char>|
        #[trigger] registry.contains_key(k) ==> exists|i: int| 0 <= i < rows.len() && rows[i].0 == k
}

/// The rows of raw registry records.
pub open spec fn raw_rows(raw: Seq<(String, u64, u64, u8)>) -> Seq<Row> {
    raw.map_values(|t: (String, u64, u64, u8)| (t.0@, t.1, t.2, t.3))
}

/// `outcome` is what decoding `bytes` gives: the entries of the archive's
/// registry in display order when the parser accepts the buffer, the fixed
/// message `NOT_AN_ARCHIVE` when it does not.
pub open spec fn decoded_as(outcome: Result<Vec<ArchiveEntry>, String>, bytes: Seq<u8>) -> bool {
    match outcome {
        Ok(entries) => {
            &&& registry_of(bytes) is Some
            &&& lists_registry(rows_of(entries@), registry_of(bytes)->Some_0)
            &&& sorted_rows(rows_of(entries@))
        },
        Err(reason) => registry_of(bytes) is None && reason@ == NOT_AN_ARCHIVE@,
    }
}

/// Relies on `vach::archive::Archive::new` over an in-memory cursor: it
/// succeeds exactly when the parser accepts the buffer, and its entry map is
/// keyed by each entry's own identifier, so the listing holds each registry
/// entry once. It reads a full header first, so a shorter buffer fails.
#[verifier::external_body]
fn read_registry(bytes: Vec<u8>) -> (r: Option<Vec<(String, u64, u64, u8)>>)
    ensures
        r is Some <==> registry_of(bytes@) is Some,
        r is Some ==> lists_registry(raw_rows(r->Some_0@), registry_of(bytes@)->Some_0),
        bytes@.len() < HEADER_LEN ==> r is None,
{
    match vach::archive::Archive::new(std::io::Cursor::new(bytes)) {
        Ok(archive) => Some(
            archive.entries().iter().map(
                |(id, e)| (id.to_string(), e.location, e.offset, e.content_version),
            ).collect(),
        ),
        Err(_) => None,
    }
}

/// Turns raw registry records into entries in display order (by location,
/// then identifier); no records means the parser rejected the buffer, which
/// gives `NOT_AN_ARCHIVE`.
pub fn entries_from_registry(raw: Option<Vec<(String, u64, u64, u8)>>) -> (r: Result<
    Vec<ArchiveEntry>,
    String,
>)
    requires
        raw is Some ==> distinct_ids(raw_rows(raw->Some_0@)),
    ensures
        raw is None ==> r is Err && r->Err_0@ == NOT_AN_ARCHIVE@,
        raw is Some ==> r is Ok && sorted_rows(rows_of(r->Ok_0@)) && forall|x: Row|
            rows_of(r->Ok_0@).contains(x) <==> raw_rows(raw->Some_0@).contains(x),
{
    match raw {
        None => Err(String::from_str(NOT_AN_ARCHIVE)),
        Some(records) => {
            let ghost src = raw_rows(records@);
            let mut out: Vec<ArchiveEntry> = Vec::new();
            let mut i: usize = 0;
            while i < records.len()
                invariant
                    i <= records@.len(),
                    src == raw_rows(records@),
                    distinct_ids(src),
                    sorted_rows(rows_of(out@)),
                    forall|x: Row| rows_of(out@).contains(x) <==> src.subrange(0, i as int).contains(x),
                decreases records@.len() - i,
            {
                let rec = &records[i];
                let e = ArchiveEntry::new(rec.0.clone(), rec.1, rec.2, rec.3);
                assert(e.row() == src[i as int]);
                let mut p: usize = 0;
                while p < out.len() && out[p].precedes(&e)
                    invariant
                        p <= out@.len(),
                        forall|k: int| 0 <= k < p ==> row_lt(#[trigger] rows_of(out@)[k], e.row()),
                    decreases out@.len() - p,
                {
                    p = p + 1;
                }
                let ghost old_rows = rows_of(out@);
                proof {
                    assert forall|q: int| p <= q < old_rows.len() implies row_lt(
                        e.row(),
                        #[trigger] old_rows[q],
                    ) by {
                        assert(old_rows.contains(old_rows[p as int]));
                        let k = choose|k: int| 0 <= k < i && src.subrange(0, i as int)[k] == old_rows[p as int];
                        assert(src[k] == old_rows[p as int]);
                        lemma_row_lt_total(e.row(), old_rows[p as int]);
                        if q > p {
                            lemma_row_lt_transitive(e.row(), old_rows[p as int], old_rows[q]);
                        }
                    }
                }
                out.insert(p, e);
                let ghost new_rows = rows_of(out@);
                assert(new_rows =~= old_rows.insert(p as int, src[i as int]));
                assert forall|a: int, b: int| 0 <= a < b < new_rows.len() implies #[trigger] row_lt(
                    new_rows[a],
                    new_rows[b],
                ) by {
                    if b < p {
                        assert(row_lt(old_rows[a], old_rows[b]));
                    } else if b == p {
                        assert(row_lt(old_rows[a], e.row()));
                    } else if a < p {
                        assert(row_lt(old_rows[a], old_rows[b - 1]));
                    } else if a == p {
                        assert(row_lt(e.row(), old_rows[b - 1]));
                    } else {
                        assert(row_lt(old_rows[a - 1], old_rows[b - 1]));
                    }
                }
                let ghost pre = src.subrange(0, i as int);
                let ghost pre1 = pre.push(src[i as int]);
                assert(src.subrange(0, i + 1) =~= pre1);
                assert forall|x: Row| new_rows.contains(x) <==> pre1.contains(x) by {
                    if new_rows.contains(x) {
                        let k = choose|k: int| 0 <= k < new_rows.len() && new_rows[k] == x;
                        if k < p {
                            assert(old_rows.contains(x));
                        } else if k > p {
                            assert(old_rows[k - 1] == x);
                            assert(old_rows.contains(x));
                        }
                        if old_rows.contains(x) {
                            let m = choose|m: int| 0 <= m < pre.len() && pre[m] == x;
                            assert(pre1[m] == x);
                        } else {
                            assert(pre1[pre.len() as int] == x);
                        }
                    }
                    if pre1.contains(x) {
                        let k = choose|k: int| 0 <= k < pre1.len() && pre1[k] == x;
                        if k < pre.len() {
                            assert(pre[k] == x);
                            assert(old_rows.contains(x));
                            let m = choose|m: int| 0 <= m < old_rows.len() && old_rows[m] == x;
                            if m < p {
                                assert(new_rows[m] == x);
                            } else {
                                assert(new_rows[m + 1] == x);
                            }
                        } else {
                            assert(new_rows[p as int] == x);
                        }
                    }
                }
                i = i + 1;
            }
            assert(src.subrange(0, i as int) =~= src);
            Ok(out)
        },
    }
}

/// A sorted list with the same rows as a listing of `registry` is itself a
/// listing of it.
proof fn lemma_sorted_listing(raw: Seq<Row>, rows: Seq<Row>, registry: Map<Seq<char>, (u64, u64, u8)>)
    requires
        lists_registry(raw, registry),
        sorted_rows(rows),
        forall|x: Row| rows.contains(x) <==> raw.contains(x),
    ensures
        lists_registry(rows, registry),
{
    assert forall|i: int| 0 <= i < rows.len() implies #[trigger] registry.contains_key(rows[i].0)
        && registry[rows[i].0] == (rows[i].1, rows[i].2, rows[i].3) by {
        assert(rows.contains(rows[i]));
        let k = choose|k: int| 0 <= k < raw.len() && raw[k] == rows[i];
        assert(registry.contains_key(raw[k].0));
    }
    assert forall|i: int, j: int| 0 <= i < j < rows.len() implies rows[i].0 != rows[j].0 by {
        assert(row_lt(rows[i], rows[j]));
        if rows[i].0 == rows[j].0 {
            assert(registry.contains_key(rows[i].0));
            assert(registry.contains_key(rows[j].0));
            assert(rows[i] == rows[j]);
            lemma_row_lt_irreflexive(rows[i]);
        }
    }
    assert forall|k: Seq<char>| #[trigger] registry.contains_key(k) implies exists|i: int|
        0 <= i < rows.len() && rows[i].0 == k by {
        let m = choose|m: int| 0 <= m < raw.len() && raw[m].0 == k;
        assert(raw.contains(raw[m]));
        assert(rows.contains(raw[m]));
    }
}

/// Decodes an archive buffer into its registry entries in display order, or
/// `NOT_AN_ARCHIVE` where the parser rejects it.
pub fn decode(bytes: Vec<u8>) -> (r: Result<Vec<ArchiveEntry>, String>)
    ensures
        decoded_as(r, bytes@),
        bytes@.len() < HEADER_LEN ==> r is Err,
{
    let ghost b = bytes@;
    let raw = read_registry(bytes);
    let r = entries_from_registry(raw);
    proof {
        if r is Ok {
            lemma_sorted_listing(raw_rows(raw->Some_0@), rows_of(r->Ok_0@), registry_of(b)->Some_0);
        }
    }
    r
}

/// Decoding a buffer twice gives the same result, entries and their order
/// included: no state of the decoder carries over between calls.
pub proof fn lemma_decode_deterministic(
    bytes: Seq<u8>,
    first: Result<Vec<ArchiveEntry>, String>,
    second: Result<Vec<ArchiveEntry>, String>,
)
    requires
        decoded_as(first, bytes),
        decoded_as(second, bytes),
    ensures
        first is Ok <==> second is Ok,
        first is Ok ==> rows_of(first->Ok_0@) == rows_of(second->Ok_0@),
        first is Err ==> first->Err_0@ == second->Err_0@,
{
    if first is Ok {
        lemma_same_listing(rows_of(first->Ok_0@), rows_of(second->Ok_0@), registry_of(bytes)->Some_0);
    }
}

/// Two sorted listings of one registry are the same list.
pub proof fn lemma_same_listing(a: Seq<Row>, b: Seq<Row>, registry: Map<Seq<char>, (u64, u64, u8)>)
    requires
        lists_registry(a, registry),
        lists_registry(b, registry),
        sorted_rows(a),
        sorted_rows(b),
    ensures
        a == b,
{
    assert forall|x: Row| a.contains(x) implies b.contains(x) by {
        let i = choose|i: int| 0 <= i < a.len() && a[i] == x;
        assert(registry.contains_key(a[i].0));
        let j = choose|j: int| 0 <= j < b.len() && b[j].0 == a[i].0;
        assert(b[j] == x);
    }
    assert forall|x: Row| b.contains(x) implies a.contains(x) by {
        let i = choose|i: int| 0 <= i < b.len() && b[i] == x;
        assert(registry.contains_key(b[i].0));
        let j = choose|j: int| 0 <= j < a.len() && a[j].0 == b[i].0;
        assert(a[j] == x);
    }
    lemma_sorted_unique(a, b);
}

} // verus!
