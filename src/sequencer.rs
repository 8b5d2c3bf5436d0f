//! Turns a solved assignment into the ordered stream of records.
use vstd::prelude::*;
use crate::assignment::is_matching;
use crate::fuzip::Fuzip;

verus! {

/// The indices that a record holds: into the left collection, then into the
/// right one.
pub type Slot = (Option<usize>, Option<usize>);

/// The columns below `n` that `a` does not select, in increasing order.
pub open spec fn unmatched(a: Seq<usize>, n: nat) -> Seq<usize>
    decreases n,
{
    if n == 0 {
        Seq::empty()
    } else {
        let s = unmatched(a, (n - 1) as nat);
        if a.contains((n - 1) as usize) {
            s
        } else {
            s.push((n - 1) as usize)
        }
    }
}

/// A record from an index of the row side and one of the column side, put
/// back in the caller's left/right order.
pub open spec fn oriented(row: Option<usize>, column: Option<usize>, swapped: bool) -> Slot {
    if swapped {
        (column, row)
    } else {
        (row, column)
    }
}

/// The records for an assignment `a` of `rows` rows into `columns` columns:
/// first each row with its column, from the last row to the first, then each
/// column that no row took, in increasing order.
pub open spec fn sequence_plan(rows: nat, columns: nat, a: Seq<usize>, swapped: bool) -> Seq<Slot> {
    Seq::new(
        columns,
        |k: int|
            if k < rows {
                oriented(Some((rows - 1 - k) as usize), Some(a[rows - 1 - k]), swapped)
            } else {
                oriented(None, Some(unmatched(a, columns)[k - rows]), swapped)
            },
    )
}

/// The records for a left side of `l` and a right side of `r` elements, where
/// `a` assigns the smaller side (the left one on a tie) into the larger one.
pub open spec fn zip_plan(l: nat, r: nat, a: Seq<usize>) -> Seq<Slot> {
    if l <= r {
        sequence_plan(l, r, a, false)
    } else {
        sequence_plan(r, l, a, true)
    }
}

/// `unmatched` depends only on which columns below `n` `a` selects.
pub proof fn lemma_unmatched_same_members(a: Seq<usize>, b: Seq<usize>, n: nat)
    requires
        forall|j: usize| j < n ==> (a.contains(j) <==> b.contains(j)),
    ensures
        unmatched(a, n) == unmatched(b, n),
    decreases n,
{
    if n > 0 {
        lemma_unmatched_same_members(a, b, (n - 1) as nat);
    }
}

/// A column below `n` is listed by `unmatched` exactly when `a` does not
/// select it; the list is increasing and holds nothing else.
pub proof fn lemma_unmatched_members(a: Seq<usize>, n: nat)
    requires
        n <= usize::MAX,
    ensures
        forall|k: int| 0 <= k < unmatched(a, n).len() ==> {
            &&& #[trigger] unmatched(a, n)[k] < n
            &&& !a.contains(unmatched(a, n)[k])
        },
        forall|k: int, m: int| 0 <= k < m < unmatched(a, n).len() ==>
            #[trigger] unmatched(a, n)[k] < #[trigger] unmatched(a, n)[m],
        forall|j: usize| j < n && !a.contains(j) ==> #[trigger] unmatched(a, n).contains(j),
    decreases n,
{
    if n > 0 {
        lemma_unmatched_members(a, (n - 1) as nat);
        let s = unmatched(a, (n - 1) as nat);
        let u = unmatched(a, n);
        assert forall|k: int, m: int| 0 <= k < m < u.len() implies #[trigger] u[k] < #[trigger] u[m] by {
            if m < s.len() {
                assert(u[k] == s[k] && u[m] == s[m]);
            } else {
                assert(u[k] == s[k]);
            }
        }
        assert forall|j: usize| j < n && !a.contains(j) implies #[trigger] unmatched(a, n).contains(j) by {
            if j < n - 1 {
                assert(s.contains(j));
                let k = choose|k: int| 0 <= k < s.len() && s[k] == j;
                assert(unmatched(a, n)[k] == j);
            } else {
                assert(unmatched(a, n)[s.len() as int] == j);
            }
        }
    }
}

/// For a matching of `rows` rows into `n` columns, exactly `n - rows` columns
/// stay unmatched.
pub proof fn lemma_unmatched_len(a: Seq<usize>, n: nat)
    requires
        n <= usize::MAX,
        is_matching(a, a.len(), n),
    ensures
        unmatched(a, n).len() == n - a.len(),
    decreases n,
{
    if n > 0 {
        let last = (n - 1) as usize;
        if a.contains(last) {
            let idx = choose|i: int| 0 <= i < a.len() && a[i] == last;
            let b = a.remove(idx);
            assert forall|j: usize| j < n - 1 implies (a.contains(j) <==> b.contains(j)) by {
                if a.contains(j) {
                    let i = choose|i: int| 0 <= i < a.len() && a[i] == j;
                    assert(i != idx);
                    if i < idx {
                        assert(b[i] == j);
                    } else {
                        assert(b[i - 1] == j);
                    }
                }
                if b.contains(j) {
                    let i = choose|i: int| 0 <= i < b.len() && b[i] == j;
                    if i < idx {
                        assert(a[i] == j);
                    } else {
                        assert(a[i + 1] == j);
                    }
                }
            }
            assert forall|i: int| 0 <= i < b.len() implies #[trigger] b[i] < n - 1 by {
                if i < idx {
                    assert(b[i] == a[i] && a[i] != a[idx]);
                } else {
                    assert(b[i] == a[i + 1] && a[i + 1] != a[idx]);
                }
            }
            assert forall|i: int, k: int| 0 <= i < b.len() && 0 <= k < b.len() && i != k implies b[i] != b[k] by {
                let ii = if i < idx { i } else { i + 1 };
                let kk = if k < idx { k } else { k + 1 };
                assert(b[i] == a[ii] && b[k] == a[kk]);
            }
            lemma_unmatched_len(b, (n - 1) as nat);
            lemma_unmatched_same_members(a, b, (n - 1) as nat);
        } else {
            assert forall|i: int| 0 <= i < a.len() implies #[trigger] a[i] < n - 1 by {
                assert(a[i] != last);
            }
            lemma_unmatched_len(a, (n - 1) as nat);
        }
    } else {
        if a.len() > 0 {
            assert(a[0] < n);
        }
    }
}


/// The value that a record holds for a slot: the element at the slot's index,
/// or nothing.
pub open spec fn resolve<'a, T>(side: &'a [T], index: Option<usize>) -> Option<&'a T> {
    match index {
        Some(i) => Some(&side@[i as int]),
        None => None,
    }
}

/// The record that the indices `slot` stand for.
pub open spec fn record<'a, T>(lefts: &'a [T], rights: &'a [T], slot: Slot) -> Seq<Option<&'a T>> {
    seq![resolve(lefts, slot.0), resolve(rights, slot.1)]
}

/// The records of one matching, replayed one at a time. The whole matching
/// is computed before the first record is handed out.
#[derive(Debug)]
pub struct Fuzip2Iterator<'a, T> {
    lefts: &'a [T],
    rights: &'a [T],
    slots: Vec<Slot>,
    position: usize,
}

impl<'a, T> Fuzip2Iterator<'a, T> {
    /// The left collection, as the caller gave it.
    pub closed spec fn lefts(&self) -> &'a [T] {
        self.lefts
    }

    /// The right collection, as the caller gave it.
    pub closed spec fn rights(&self) -> &'a [T] {
        self.rights
    }

    /// The indices of all records, in the order in which they come out.
    pub closed spec fn slots(&self) -> Seq<Slot> {
        self.slots@
    }

    /// How many records have come out so far.
    pub closed spec fn position(&self) -> nat {
        self.position as nat
    }

    /// Every index of every record is in range, and no more records have come
    /// out than there are.
    pub closed spec fn wf(&self) -> bool {
        &&& self.position <= self.slots@.len()
        &&& forall|k: int| 0 <= k < self.slots@.len() ==> {
            &&& (#[trigger] self.slots@[k]).0 is Some ==> self.slots@[k].0->0 < self.lefts@.len()
            &&& self.slots@[k].1 is Some ==> self.slots@[k].1->0 < self.rights@.len()
        }
    }

    /// The records for the assignment `assignments` of the elements of `rows`
    /// to those of `columns`. `swapped` tells that `rows` is the caller's
    /// right collection; the records hold the elements in the caller's order.
    pub fn new(rows: &'a [T], columns: &'a [T], assignments: Vec<usize>, swapped: bool) -> (r: Self)
        requires
            rows@.len() <= columns@.len(),
            is_matching(assignments@, rows@.len(), columns@.len()),
        ensures
            r.wf(),
            r.position() == 0,
            r.slots() == sequence_plan(rows@.len(), columns@.len(), assignments@, swapped),
            r.lefts() == if swapped { columns } else { rows },
            r.rights() == if swapped { rows } else { columns },
    {
        let n_rows = rows.len();
        let n_columns = columns.len();
        let ghost a = assignments@;
        let ghost plan = sequence_plan(n_rows as nat, n_columns as nat, a, swapped);
        let mut consumed: Vec<bool> = Vec::new();
        let mut j: usize = 0;
        while j < n_columns
            invariant
                j <= n_columns,
                consumed@.len() == j,
                forall|c: int| 0 <= c < j ==> !consumed@[c],
            decreases n_columns - j,
        {
            consumed.push(false);
            j = j + 1;
        }
        let mut slots: Vec<Slot> = Vec::new();
        let mut k: usize = n_rows;
        while k > 0
            invariant
                k <= n_rows,
                n_rows == a.len(),
                n_rows <= n_columns,
                a == assignments@,
                plan == sequence_plan(n_rows as nat, n_columns as nat, a, swapped),
                is_matching(a, n_rows as nat, n_columns as nat),
                consumed@.len() == n_columns,
                forall|c: int| 0 <= c < n_columns ==> (#[trigger] consumed@[c] <==> a.subrange(k as int, n_rows as int).contains(c as usize)),
                slots@.len() == n_rows - k,
                forall|m: int| 0 <= m < slots@.len() ==> #[trigger] slots@[m] == plan[m],
            decreases k,
        {
            k = k - 1;
            let column = assignments[k];
            consumed.set(column, true);
            slots.push(oriented_exec(Some(k), Some(column), swapped));
            proof {
                let before = a.subrange(k + 1, n_rows as int);
                let after = a.subrange(k as int, n_rows as int);
                assert forall|c: int| 0 <= c < n_columns implies (#[trigger] consumed@[c] <==> after.contains(c as usize)) by {
                    if after.contains(c as usize) && c != column {
                        let i = choose|i: int| 0 <= i < after.len() && after[i] == c as usize;
                        assert(i > 0);
                        assert(before[i - 1] == c as usize);
                    }
                    if before.contains(c as usize) {
                        let i = choose|i: int| 0 <= i < before.len() && before[i] == c as usize;
                        assert(after[i + 1] == c as usize);
                    }
                    if c == column {
                        assert(after[0] == c as usize);
                    }
                }
            }
        }
        assert(a.subrange(0, n_rows as int) =~= a);
        proof {
            lemma_unmatched_len(a, n_columns as nat);
        }
        let mut c: usize = 0;
        while c < n_columns
            invariant
                c <= n_columns,
                n_rows == a.len(),
                n_rows <= n_columns,
                a == assignments@,
                plan == sequence_plan(n_rows as nat, n_columns as nat, a, swapped),
                is_matching(a, n_rows as nat, n_columns as nat),
                consumed@.len() == n_columns,
                forall|x: int| 0 <= x < n_columns ==> (#[trigger] consumed@[x] <==> a.contains(x as usize)),
                slots@.len() == n_rows + unmatched(a, c as nat).len(),
                forall|m: int| 0 <= m < n_rows ==> #[trigger] slots@[m] == plan[m],
                forall|m: int| n_rows <= m < slots@.len() ==> #[trigger] slots@[m]
                    == oriented(None, Some(unmatched(a, c as nat)[m - n_rows]), swapped),
                unmatched(a, n_columns as nat).len() == n_columns - n_rows,
            decreases n_columns - c,
        {
            if !consumed[c] {
                slots.push(oriented_exec(None, Some(c), swapped));
            }
            proof {
                lemma_unmatched_prefix(a, c as nat + 1, n_columns as nat);
            }
            c = c + 1;
        }
        assert(slots@ =~= plan);
        let r = Fuzip2Iterator {
            lefts: if swapped { columns } else { rows },
            rights: if swapped { rows } else { columns },
            slots,
            position: 0,
        };
        proof {
            lemma_unmatched_members(a, n_columns as nat);
            assert forall|m: int| 0 <= m < r.slots@.len() implies {
                &&& (#[trigger] r.slots@[m]).0 is Some ==> r.slots@[m].0->0 < r.lefts@.len()
                &&& r.slots@[m].1 is Some ==> r.slots@[m].1->0 < r.rights@.len()
            } by {
                if m >= n_rows {
                    assert(unmatched(a, n_columns as nat)[m - n_rows] < n_columns);
                }
            }
        }
        r
    }

    /// The next record, or `None` once all have come out.
    pub fn next(&mut self) -> (r: Option<Fuzip<&'a T>>)
        requires
            old(self).wf(),
        ensures
            final(self).wf(),
            final(self).lefts() == old(self).lefts(),
            final(self).rights() == old(self).rights(),
            final(self).slots() == old(self).slots(),
            old(self).position() < old(self).slots().len() ==> {
                &&& final(self).position() == old(self).position() + 1
                &&& r is Some
                &&& r->0@ == record(old(self).lefts(), old(self).rights(), old(self).slots()[old(self).position() as int])
            },
            old(self).position() >= old(self).slots().len() ==> {
                &&& final(self).position() == old(self).position()
                &&& r is None
            },
    {
        if self.position < self.slots.len() {
            let slot = self.slots[self.position];
            let left = match slot.0 {
                Some(i) => Some(&self.lefts[i]),
                None => None,
            };
            let right = match slot.1 {
                Some(i) => Some(&self.rights[i]),
                None => None,
            };
            self.position = self.position + 1;
            Some(Fuzip::new(vec![left, right]))
        } else {
            None
        }
    }

    /// How many records are still to come.
    pub fn size_hint(&self) -> (r: usize)
        requires
            self.wf(),
        ensures
            r == self.slots().len() - self.position(),
    {
        self.slots.len() - self.position
    }
}

/// Executable form of `oriented`.
fn oriented_exec(row: Option<usize>, column: Option<usize>, swapped: bool) -> (r: Slot)
    ensures
        r == oriented(row, column, swapped),
{
    if swapped {
        (column, row)
    } else {
        (row, column)
    }
}

/// A prefix of `unmatched` grows by the next column exactly when `a` does not
/// select it.
proof fn lemma_unmatched_prefix(a: Seq<usize>, c: nat, n: nat)
    requires
        0 < c <= n,
        n <= usize::MAX,
    ensures
        unmatched(a, c) == if a.contains((c - 1) as usize) {
            unmatched(a, (c - 1) as nat)
        } else {
            unmatched(a, (c - 1) as nat).push((c - 1) as usize)
        },
{
}

} // verus!
