use crate::order::{id_less, id_lt, lemma_id_lt_irreflexive, lemma_id_lt_total, lemma_id_lt_transitive};
use vstd::prelude::*;

verus! {

/// One record of an archive's registry: its identifier, where its data
/// starts in the archive, its size in bytes, and its content version.
pub struct ArchiveEntry {
    pub identifier: String,
    pub location: u64,
    pub offset: u64,
    pub content_version: u8,
}

/// An entry as a plain value: identifier, location, offset, content version.
pub type Row = (Seq<char>, u64, u64, u8);

impl ArchiveEntry {
    pub open spec fn row(&self) -> Row {
        (self.identifier@, self.location, self.offset, self.content_version)
    }

    pub fn new(identifier: String, location: u64, offset: u64, content_version: u8) -> (r: ArchiveEntry)
        ensures
            r.row() == (identifier@, location, offset, content_version),
    {
        ArchiveEntry { identifier, location, offset, content_version }
    }

    /// A copy with the same fields.
    pub fn duplicate(&self) -> (r: ArchiveEntry)
        ensures
            r.row() == self.row(),
    {
        ArchiveEntry {
            identifier: self.identifier.clone(),
            location: self.location,
            offset: self.offset,
            content_version: self.content_version,
        }
    }

    /// Whether `self` comes before `other` in the display order `row_lt`.
    pub fn precedes(&self, other: &ArchiveEntry) -> (r: bool)
        ensures
            r == row_lt(self.row(), other.row()),
    {
        self.location < other.location || (self.location == other.location && id_less(
            &self.identifier,
            &other.identifier,
        ))
    }
}

/// The rows of a list of entries, in list order.
pub open spec fn rows_of(s: Seq<ArchiveEntry>) -> Seq<Row> {
    s.map_values(|e: ArchiveEntry| e.row())
}

/// Display order: by location in the archive, then by identifier.
pub open spec fn row_lt(x: Row, y: Row) -> bool {
    x.1 < y.1 || (x.1 == y.1 && id_lt(x.0, y.0))
}

/// Every row comes strictly before all rows after it.
pub open spec fn sorted_rows(s: Seq<Row>) -> bool {
    forall|i: int, j: int| 0 <= i < j < s.len() ==> #[trigger] row_lt(s[i], s[j])
}

pub proof fn lemma_row_lt_irreflexive(x: Row)
    ensures
        !row_lt(x, x),
{
    lemma_id_lt_irreflexive(x.0);
}

pub proof fn lemma_row_lt_transitive(x: Row, y: Row, z: Row)
    requires
        row_lt(x, y),
        row_lt(y, z),
    ensures
        row_lt(x, z),
{
    if x.1 == y.1 && y.1 == z.1 {
        lemma_id_lt_transitive(x.0, y.0, z.0);
    }
}

pub proof fn lemma_row_lt_total(x: Row, y: Row)
    requires
        x.0 != y.0,
    ensures
        row_lt(x, y) || row_lt(y, x),
{
    lemma_id_lt_total(x.0, y.0);
}

/// Two sorted lists that hold the same rows are the same list: the display
/// order leaves no choice.
pub proof fn lemma_sorted_unique(a: Seq<Row>, b: Seq<Row>)
    requires
        sorted_rows(a),
        sorted_rows(b),
        forall|x: Row| a.contains(x) <==> b.contains(x),
    ensures
        a == b,
{
    let n = if a.len() < b.len() { a.len() } else { b.len() };
    lemma_sorted_prefix(a, b, n as int);
    if a.len() < b.len() {
        assert(b.contains(b[n as int]));
        let j = choose|j: int| 0 <= j < a.len() && a[j] == b[n as int];
        assert(row_lt(b[j], b[n as int]));
        lemma_row_lt_irreflexive(a[j]);
    }
    if b.len() < a.len() {
        assert(a.contains(a[n as int]));
        let j = choose|j: int| 0 <= j < b.len() && b[j] == a[n as int];
        assert(row_lt(a[j], a[n as int]));
        lemma_row_lt_irreflexive(b[j]);
    }
    assert(a =~= b);
}

proof fn lemma_sorted_prefix(a: Seq<Row>, b: Seq<Row>, k: int)
    requires
        sorted_rows(a),
        sorted_rows(b),
        forall|x: Row| a.contains(x) <==> b.contains(x),
        0 <= k <= a.len(),
        k <= b.len(),
    ensures
        forall|j: int| 0 <= j < k ==> a[j] == b[j],
    decreases k,
{
    if k > 0 {
        let m = k - 1;
        lemma_sorted_prefix(a, b, m);
        assert(a.contains(a[m]));
        assert(b.contains(b[m]));
        let j = choose|j: int| 0 <= j < b.len() && b[j] == a[m];
        let i = choose|i: int| 0 <= i < a.len() && a[i] == b[m];
        if a[m] != b[m] {
            if j < m {
                assert(row_lt(a[j], a[m]));
                lemma_row_lt_irreflexive(a[m]);
            }
            if i < m {
                assert(row_lt(b[i], b[m]));
                lemma_row_lt_irreflexive(b[m]);
            }
            assert(row_lt(b[m], b[j]));
            assert(row_lt(a[m], a[i]));
            lemma_row_lt_transitive(a[m], b[m], a[m]);
            lemma_row_lt_irreflexive(a[m]);
        }
    }
}

} // verus!
