//! Decisions of the per-block pipeline between retrieval, verification and
//! reconstruction.

use vstd::prelude::*;
use crate::cells::{copy_bytes, rows_view};
use crate::matrix::Error;

verus! {

/// Whether a block is to be processed for `app_id`: it has columns and its
/// lookup holds the application.
pub fn is_block_relevant(cols: u16, lookup_app_ids: &[u32], app_id: u32) -> (r: bool)
    ensures
        r == (cols > 0 && lookup_app_ids@.contains(app_id)),
{
    cols > 0 && contains_row(lookup_app_ids, app_id)
}

/// The answer of a disabled fallback source: every one of `n` rows absent.
pub fn absent_rows(n: usize) -> (r: Vec<Option<Vec<u8>>>)
    ensures
        r@.len() == n,
        forall|k: int| 0 <= k < n ==> #[trigger] r@[k] is None,
{
    let mut r: Vec<Option<Vec<u8>>> = Vec::new();
    let mut i: usize = 0;
    while i < n
        invariant
            i <= n,
            r@.len() == i,
            forall|k: int| 0 <= k < i ==> #[trigger] r@[k] is None,
        decreases n - i,
    {
        r.push(None);
        i = i + 1;
    }
    r
}

/// Whether `x` is one of `s`.
pub fn contains_row(s: &[u32], x: u32) -> (r: bool)
    ensures
        r == s@.contains(x),
{
    let mut i: usize = 0;
    while i < s.len()
        invariant
            i <= s@.len(),
            forall|k: int| 0 <= k < i ==> s@[k] != x,
        decreases s@.len() - i,
    {
        if s[i] == x {
            assert(s@[i as int] == x);
            return true;
        }
        i = i + 1;
    }
    false
}

/// The rows of `s` that are not in `ex`, in their order.
pub open spec fn exclude_rows(s: Seq<u32>, ex: Seq<u32>) -> Seq<u32>
    decreases s.len(),
{
    if s.len() == 0 {
        Seq::empty()
    } else if ex.contains(s.last()) {
        exclude_rows(s.drop_last(), ex)
    } else {
        exclude_rows(s.drop_last(), ex).push(s.last())
    }
}

/// A row left missing after the fallback round is never one that the primary
/// source verified: no row of `exclude_rows(s, ex)` is in `ex`, and each is in `s`.
pub proof fn lemma_exclude_rows(s: Seq<u32>, ex: Seq<u32>)
    ensures
        forall|k: int|
            0 <= k < exclude_rows(s, ex).len() ==> !ex.contains(#[trigger] exclude_rows(s, ex)[k])
                && s.contains(exclude_rows(s, ex)[k]),
    decreases s.len(),
{
    if s.len() > 0 {
        let d = s.drop_last();
        lemma_exclude_rows(d, ex);
        let e = exclude_rows(s, ex);
        assert forall|k: int| 0 <= k < e.len() implies !ex.contains(#[trigger] e[k]) && s.contains(
            e[k],
        ) by {
            if k < exclude_rows(d, ex).len() {
                assert(e[k] == exclude_rows(d, ex)[k]);
                let j = choose|j: int| 0 <= j < d.len() && d[j] == e[k];
                assert(s[j] == e[k]);
            } else {
                assert(s[s.len() - 1] == e[k]);
            }
        }
    }
}

/// The row that the primary source gave, else the one of the fallback source.
pub open spec fn either_row(primary: Option<Seq<u8>>, fallback: Option<Seq<u8>>) -> Option<Seq<u8>> {
    match primary {
        Some(d) => Some(d),
        None => fallback,
    }
}

/// The row kept at index `k`: the primary or else the fallback row, where `k`
/// was verified by either source; none otherwise.
pub open spec fn selected_row(
    primary: Seq<Option<Seq<u8>>>,
    fallback: Seq<Option<Seq<u8>>>,
    primary_verified: Seq<u32>,
    fallback_verified: Seq<u32>,
    k: int,
) -> Option<Seq<u8>> {
    if primary_verified.contains(k as u32) || fallback_verified.contains(k as u32) {
        either_row(primary[k], fallback[k])
    } else {
        None
    }
}

/// Number of row slots: those that both sources answered for and that the
/// extended matrix has.
pub open spec fn slot_count(primary_len: nat, fallback_len: nat, extended_rows: nat) -> nat {
    if primary_len <= fallback_len && primary_len <= extended_rows {
        primary_len
    } else if fallback_len <= extended_rows {
        fallback_len
    } else {
        extended_rows
    }
}

/// Whether the missing rows hold more cells than the threshold allows.
pub open spec fn over_threshold(missing: nat, cols: u16, threshold: usize) -> bool {
    missing * (cols as nat) > threshold as nat
}

/// The trusted rows of a block and the rows still missing.
pub struct RowSelection {
    /// One slot per row: the row where it was verified, else none.
    pub rows: Vec<Option<Vec<u8>>>,
    /// The rows that neither source delivered verified.
    pub missing_rows: Vec<u32>,
}

fn copy_row(row: &Option<Vec<u8>>) -> (r: Option<Vec<u8>>)
    ensures
        rows_view(seq![r]) == rows_view(seq![*row]),
{
    match row {
        Some(d) => Some(copy_bytes(d.as_slice())),
        None => None,
    }
}

/// Combines the answers of both sources after verification. Rows missing after
/// the fallback round that the primary source verified are no longer missing.
/// Each slot keeps the primary row, else the fallback row, and only where its
/// index was verified by one of the sources. Where the missing rows hold more
/// than `threshold` cells, the block is given up before any reconstruction.
pub fn select_rows(
    extended_rows: u32,
    cols: u16,
    threshold: usize,
    primary_rows: &Vec<Option<Vec<u8>>>,
    fallback_rows: &Vec<Option<Vec<u8>>>,
    primary_verified: &[u32],
    fallback_verified: &[u32],
    fallback_missing: &[u32],
) -> (r: Result<RowSelection, Error>)
    ensures
        r is Err <==> over_threshold(
            exclude_rows(fallback_missing@, primary_verified@).len(),
            cols,
            threshold,
        ),
        r matches Err(e) ==> e == Error::TooManyCellsMissing,
        r matches Ok(sel) ==> {
            &&& sel.missing_rows@ == exclude_rows(fallback_missing@, primary_verified@)
            &&& sel.rows@.len() == slot_count(
                primary_rows@.len(),
                fallback_rows@.len(),
                extended_rows as nat,
            )
            &&& forall|k: int|
                0 <= k < sel.rows@.len() ==> #[trigger] rows_view(sel.rows@)[k] == selected_row(
                    rows_view(primary_rows@),
                    rows_view(fallback_rows@),
                    primary_verified@,
                    fallback_verified@,
                    k,
                )
        },
{
    let mut missing_rows: Vec<u32> = Vec::new();
    let mut i: usize = 0;
    while i < fallback_missing.len()
        invariant
            i <= fallback_missing@.len(),
            missing_rows@ == exclude_rows(fallback_missing@.subrange(0, i as int), primary_verified@),
        decreases fallback_missing@.len() - i,
    {
        proof {
            assert(fallback_missing@.subrange(0, i + 1).drop_last() =~= fallback_missing@.subrange(
                0,
                i as int,
            ));
        }
        if !contains_row(primary_verified, fallback_missing[i]) {
            missing_rows.push(fallback_missing[i]);
        }
        i = i + 1;
    }
    proof {
        assert(fallback_missing@.subrange(0, fallback_missing@.len() as int) =~= fallback_missing@);
    }
    let cols_u: usize = cols as usize;
    let missing_cells: Option<usize> = missing_rows.len().checked_mul(cols_u);
    match missing_cells {
        Some(n) => {
            if n > threshold {
                return Err(Error::TooManyCellsMissing);
            }
        },
        None => {
            return Err(Error::TooManyCellsMissing);
        },
    }
    let ghost pv = rows_view(primary_rows@);
    let ghost fv = rows_view(fallback_rows@);
    let mut n: usize = primary_rows.len();
    if fallback_rows.len() < n {
        n = fallback_rows.len();
    }
    if (extended_rows as usize) < n {
        n = extended_rows as usize;
    }
    let mut rows: Vec<Option<Vec<u8>>> = Vec::new();
    let mut k: usize = 0;
    while k < n
        invariant
            n <= primary_rows@.len(),
            n <= fallback_rows@.len(),
            n <= u32::MAX,
            k <= n,
            pv == rows_view(primary_rows@),
            fv == rows_view(fallback_rows@),
            rows@.len() == k,
            forall|j: int|
                0 <= j < k ==> #[trigger] rows_view(rows@)[j] == selected_row(
                    pv,
                    fv,
                    primary_verified@,
                    fallback_verified@,
                    j,
                ),
        decreases n - k,
    {
        let index: u32 = k as u32;
        let verified = contains_row(primary_verified, index) || contains_row(
            fallback_verified,
            index,
        );
        let slot: Option<Vec<u8>> = if !verified {
            None
        } else if primary_rows[k].is_some() {
            copy_row(&primary_rows[k])
        } else {
            copy_row(&fallback_rows[k])
        };
        proof {
            assert(pv[k as int] == rows_view(seq![primary_rows@[k as int]])[0]);
            assert(fv[k as int] == rows_view(seq![fallback_rows@[k as int]])[0]);
            assert(rows_view(seq![slot])[0] == selected_row(
                pv,
                fv,
                primary_verified@,
                fallback_verified@,
                k as int,
            ));
        }
        let ghost prev = rows@;
        rows.push(slot);
        proof {
            assert forall|j: int| 0 <= j < k + 1 implies #[trigger] rows_view(rows@)[j] == selected_row(
                pv,
                fv,
                primary_verified@,
                fallback_verified@,
                j,
            ) by {
                if j < k {
                    assert(rows@[j] == prev[j]);
                    assert(rows_view(prev)[j] == rows_view(rows@)[j]);
                } else {
                    assert(rows@[j] == slot);
                }
            }
        }
        k = k + 1;
    }
    Ok(RowSelection { rows, missing_rows })
}

/// A slot of the selection holds a row only where its index was verified by one
/// of the two sources: an index that neither verified gives no row, even where a
/// source returned bytes for it; a verified index gives the row that a source
/// returned.
pub proof fn lemma_selected_iff_verified(
    primary: Seq<Option<Seq<u8>>>,
    fallback: Seq<Option<Seq<u8>>>,
    primary_verified: Seq<u32>,
    fallback_verified: Seq<u32>,
    k: int,
)
    requires
        0 <= k < primary.len(),
        k < fallback.len(),
    ensures
        selected_row(primary, fallback, primary_verified, fallback_verified, k) is Some ==> (
        primary_verified.contains(k as u32) || fallback_verified.contains(k as u32)),
        !primary_verified.contains(k as u32) && !fallback_verified.contains(k as u32)
            ==> selected_row(primary, fallback, primary_verified, fallback_verified, k) is None,
        (primary_verified.contains(k as u32) || fallback_verified.contains(k as u32)) && (
        primary[k] is Some || fallback[k] is Some) ==> selected_row(
            primary,
            fallback,
            primary_verified,
            fallback_verified,
            k,
        ) is Some,
{
}

/// The views of recovered rows.
pub open spec fn recovered_view(s: Seq<(u32, Vec<u8>)>) -> Seq<(u32, Seq<u8>)> {
    s.map_values(|x: (u32, Vec<u8>)| (x.0, x.1@))
}

/// `rows` with each recovered row put in the slot of its index, in order.
pub open spec fn spliced(rows: Seq<Option<Seq<u8>>>, recovered: Seq<(u32, Seq<u8>)>) -> Seq<
    Option<Seq<u8>>,
>
    decreases recovered.len(),
{
    if recovered.len() == 0 {
        rows
    } else {
        spliced(rows, recovered.drop_last()).update(
            recovered.last().0 as int,
            Some(recovered.last().1),
        )
    }
}

/// Puts each recovered row into the slot of its index.
pub fn splice_rows(rows: &mut Vec<Option<Vec<u8>>>, recovered: &Vec<(u32, Vec<u8>)>)
    requires
        forall|k: int| 0 <= k < recovered@.len() ==> (#[trigger] recovered@[k]).0 < old(rows)@.len(),
    ensures
        rows_view(final(rows)@) == spliced(rows_view(old(rows)@), recovered_view(recovered@)),
{
    let ghost start = rows_view(rows@);
    let mut i: usize = 0;
    while i < recovered.len()
        invariant
            i <= recovered@.len(),
            rows@.len() == old(rows)@.len(),
            start == rows_view(old(rows)@),
            forall|k: int| 0 <= k < recovered@.len() ==> (#[trigger] recovered@[k]).0 < rows@.len(),
            rows_view(rows@) == spliced(start, recovered_view(recovered@.subrange(0, i as int))),
        decreases recovered@.len() - i,
    {
        let index: usize = recovered[i].0 as usize;
        let data = copy_bytes(recovered[i].1.as_slice());
        let ghost prev = rows@;
        rows.set(index, Some(data));
        proof {
            let sub = recovered_view(recovered@.subrange(0, i + 1));
            assert(sub.drop_last() =~= recovered_view(recovered@.subrange(0, i as int)));
            assert(sub.last() == (recovered@[i as int].0, recovered@[i as int].1@));
            assert(rows_view(rows@) =~= rows_view(prev).update(index as int, Some(data@)));
        }
        i = i + 1;
    }
    proof {
        assert(recovered@.subrange(0, recovered@.len() as int) =~= recovered@);
    }
}

} // verus!
