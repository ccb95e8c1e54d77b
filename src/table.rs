//! Rows of text cells under fixed headers, with the width of each column.
use vstd::prelude::*;

verus! {

/// The width of column `i`: the longest of its header and its cells, in characters.
pub open spec fn column_width<const N: usize>(headers: [String; N], rows: Seq<[String; N]>, i: int) -> nat
    decreases rows.len(),
{
    if rows.len() == 0 {
        headers[i]@.len()
    } else {
        let w = column_width(headers, rows.drop_last(), i);
        let c = rows.last()[i]@.len();
        if c > w {
            c
        } else {
            w
        }
    }
}

pub struct Table<const N: usize> {
    headers: [String; N],
    rows: Vec<[String; N]>,
    maxes: [usize; N],
}

impl<const N: usize> Table<N> {
    /// Each column's recorded width is its true width.
    pub closed spec fn wf(&self) -> bool {
        forall|i: int| 0 <= i < N ==> self.maxes[i] == column_width(self.headers, self.rows@, i)
    }

    pub closed spec fn headers_spec(&self) -> [String; N] {
        self.headers
    }

    pub closed spec fn rows_spec(&self) -> Seq<[String; N]> {
        self.rows@
    }

    pub closed spec fn maxes_spec(&self) -> [usize; N] {
        self.maxes
    }

    /// A table with no rows.
    pub fn new(headers: [String; N]) -> (r: Self)
        ensures
            r.wf(),
            r.headers_spec() == headers,
            r.rows_spec().len() == 0,
            forall|i: int| 0 <= i < N ==> #[trigger] r.maxes_spec()[i] == headers[i]@.len(),
    {
        let mut maxes = [0usize; N];
        let mut i: usize = 0;
        while i < N
            invariant
                0 <= i <= N,
                forall|j: int| 0 <= j < i ==> maxes[j] == headers[j]@.len(),
            decreases N - i,
        {
            maxes[i] = headers[i].as_str().unicode_len();
            i = i + 1;
        }
        Self { rows: Vec::new(), headers, maxes }
    }

    /// Appends a row and widens the columns it needs.
    pub fn insert(&mut self, row: [String; N])
        requires
            old(self).wf(),
        ensures
            final(self).wf(),
            final(self).headers_spec() == old(self).headers_spec(),
            final(self).rows_spec() == old(self).rows_spec().push(row),
            forall|i: int|
                0 <= i < N ==> #[trigger] final(self).maxes_spec()[i] == if row[i]@.len() > old(self).maxes_spec()[i] {
                    row[i]@.len()
                } else {
                    old(self).maxes_spec()[i] as nat
                },
            forall|i: int|
                0 <= i < N ==> #[trigger] final(self).maxes_spec()[i] == column_width(
                    final(self).headers_spec(),
                    final(self).rows_spec(),
                    i,
                ),
    {
        let ghost rows = self.rows@.push(row);
        let mut i: usize = 0;
        while i < N
            invariant
                0 <= i <= N,
                rows == self.rows@.push(row),
                self.headers == old(self).headers,
                self.rows@ == old(self).rows@,
                forall|j: int| 0 <= j < i ==> self.maxes[j] == column_width(self.headers, rows, j),
                forall|j: int|
                    i <= j < N ==> self.maxes[j] == column_width(self.headers, self.rows@, j),
            decreases N - i,
        {
            assert(rows.drop_last() =~= self.rows@);
            let n = row[i].as_str().unicode_len();
            if n > self.maxes[i] {
                self.maxes[i] = n;
            }
            i = i + 1;
        }
        proof {
            assert(rows.drop_last() =~= old(self).rows@);
        }
        self.rows.push(row);
    }

    pub fn headers(&self) -> (r: &[String; N])
        ensures
            *r == self.headers_spec(),
    {
        &self.headers
    }

    pub fn rows(&self) -> (r: &Vec<[String; N]>)
        ensures
            r@ == self.rows_spec(),
    {
        &self.rows
    }

    pub fn maxes(&self) -> (r: &[usize; N])
        ensures
            *r == self.maxes_spec(),
    {
        &self.maxes
    }
}

} // verus!
