//! The profiles list: its rows, the profile to come back to, and bringing
//! the rows in line with what the core reports without rebuilding them.

use vstd::prelude::*;

verus! {

/// One profile, as its row shows it.
pub struct AccountItem {
    pub account_id: u32,
    pub display_name: String,
    pub addr: String,
    pub is_configured: bool,
    pub avatar_path: String,
    pub color: String,
    pub unread_count: u32,
}

/// A row, with its texts as characters.
pub struct AccountRow {
    pub account_id: u32,
    pub display_name: Seq<char>,
    pub addr: Seq<char>,
    pub is_configured: bool,
    pub avatar_path: Seq<char>,
    pub color: Seq<char>,
    pub unread_count: u32,
}

impl View for AccountItem {
    type V = AccountRow;

    open spec fn view(&self) -> AccountRow {
        AccountRow {
            account_id: self.account_id,
            display_name: self.display_name@,
            addr: self.addr@,
            is_configured: self.is_configured,
            avatar_path: self.avatar_path@,
            color: self.color@,
            unread_count: self.unread_count,
        }
    }
}

impl Default for AccountItem {
    fn default() -> (item: AccountItem)
        ensures
            item.account_id == 0,
            item.display_name@.len() == 0,
            item.addr@.len() == 0,
            !item.is_configured,
            item.avatar_path@.len() == 0,
            item.color@.len() == 0,
            item.unread_count == 0,
    {
        AccountItem {
            account_id: 0,
            display_name: String::new(),
            addr: String::new(),
            is_configured: false,
            avatar_path: String::new(),
            color: String::new(),
            unread_count: 0,
        }
    }
}

impl AccountItem {
    /// The same row again.
    pub fn duplicate(&self) -> (copy: AccountItem)
        ensures
            copy@ == self@,
    {
        AccountItem {
            account_id: self.account_id,
            display_name: self.display_name.clone(),
            addr: self.addr.clone(),
            is_configured: self.is_configured,
            avatar_path: self.avatar_path.clone(),
            color: self.color.clone(),
            unread_count: self.unread_count,
        }
    }

    /// Whether the two rows show the same.
    pub fn same_as(&self, other: &AccountItem) -> (same: bool)
        ensures
            same == (self@ == other@),
    {
        self.account_id == other.account_id && self.display_name == other.display_name
            && self.addr == other.addr && self.is_configured == other.is_configured
            && self.avatar_path == other.avatar_path && self.color == other.color
            && self.unread_count == other.unread_count
    }
}

/// The rows, as what they show.
pub open spec fn rows_of(items: Seq<AccountItem>) -> Seq<AccountRow> {
    items.map_values(|item: AccountItem| item@)
}

/// The first configured profile's id.
pub open spec fn first_configured(rows: Seq<AccountRow>) -> Option<u32>
    decreases rows.len(),
{
    if rows.len() == 0 {
        None
    } else if rows[0].is_configured {
        Some(rows[0].account_id)
    } else {
        first_configured(rows.drop_first())
    }
}

/// A configured profile has this id.
pub open spec fn configured_with(rows: Seq<AccountRow>, id: u32) -> bool {
    exists|i: int| 0 <= i < rows.len() && rows[i].is_configured && rows[i].account_id == id
}

/// The profile to open on: the selected one when it is configured, else
/// the first configured one, else 0.
pub open spec fn resume_choice(rows: Seq<AccountRow>, selected: Option<u32>) -> u32 {
    match selected {
        Some(id) if configured_with(rows, id) => id,
        _ => match first_configured(rows) {
            Some(id) => id,
            None => 0,
        },
    }
}

/// The profile to open on: the one the core has selected when it is a
/// configured one, else the first configured, else 0.
pub fn resume_account(items: &[AccountItem], selected: Option<u32>) -> (id: u32)
    ensures
        id == resume_choice(rows_of(items@), selected),
{
    let ghost rows = rows_of(items@);
    let n = items.len();
    if let Some(wanted) = selected {
        let mut i: usize = 0;
        while i < n
            invariant
                n == items@.len(),
                rows == rows_of(items@),
                selected == Some(wanted),
                i <= n,
                forall|j: int| 0 <= j < i ==> !(rows[j].is_configured && rows[j].account_id == wanted),
            decreases n - i,
        {
            if items[i].is_configured && items[i].account_id == wanted {
                assert(rows[i as int].is_configured && rows[i as int].account_id == wanted);
                return wanted;
            }
            i = i + 1;
        }
    }
    let mut i: usize = 0;
    proof {
        assert(rows.subrange(0, n as int) =~= rows);
    }
    assert(match selected {
        Some(w) => !configured_with(rows, w),
        None => true,
    });
    while i < n
        invariant
            n == items@.len(),
            rows == rows_of(items@),
            match selected {
                Some(w) => !configured_with(rows, w),
                None => true,
            },
            i <= n,
            first_configured(rows) == first_configured(rows.subrange(i as int, n as int)),
        decreases n - i,
    {
        proof {
            assert(rows.subrange(i as int, n as int).drop_first() =~= rows.subrange(i + 1, n as int));
        }
        if items[i].is_configured {
            return items[i].account_id;
        }
        i = i + 1;
    }
    0
}

/// How many of the rows are configured profiles.
pub open spec fn count_configured(rows: Seq<AccountRow>) -> nat
    decreases rows.len(),
{
    if rows.len() == 0 {
        0
    } else {
        count_configured(rows.drop_last()) + if rows.last().is_configured {
            1nat
        } else {
            0nat
        }
    }
}

/// How many profiles are usable, saturating at `u32::MAX`: "very many" is
/// the right answer to whether there is any.
pub fn configured_count(items: &[AccountItem]) -> (count: u32)
    ensures
        count == (if count_configured(rows_of(items@)) <= u32::MAX {
            count_configured(rows_of(items@))
        } else {
            u32::MAX as nat
        }),
{
    let ghost rows = rows_of(items@);
    let n = items.len();
    let mut count: u32 = 0;
    let mut i: usize = 0;
    while i < n
        invariant
            n == items@.len(),
            rows == rows_of(items@),
            i <= n,
            count == (if count_configured(rows.subrange(0, i as int)) <= u32::MAX {
                count_configured(rows.subrange(0, i as int))
            } else {
                u32::MAX as nat
            }),
        decreases n - i,
    {
        proof {
            assert(rows.subrange(0, i + 1).drop_last() =~= rows.subrange(0, i as int));
        }
        if items[i].is_configured && count < u32::MAX {
            count = count + 1;
        }
        i = i + 1;
    }
    proof {
        assert(rows.subrange(0, n as int) =~= rows);
    }
    count
}

/// An edit to the rows of the list, as the model is told it.
pub enum RowEdit {
    /// The row at this index goes.
    Remove(usize),
    /// This row is put in at this index.
    Insert(usize, AccountItem),
    /// The row at this index now shows this.
    Change(usize, AccountItem),
}

/// An edit, with its row as what it shows.
pub enum EditView {
    Remove(int),
    Insert(int, AccountRow),
    Change(int, AccountRow),
}

impl View for RowEdit {
    type V = EditView;

    open spec fn view(&self) -> EditView {
        match self {
            RowEdit::Remove(i) => EditView::Remove(*i as int),
            RowEdit::Insert(i, item) => EditView::Insert(*i as int, item@),
            RowEdit::Change(i, item) => EditView::Change(*i as int, item@),
        }
    }
}

/// The rows after one edit.
pub open spec fn apply_edit(rows: Seq<AccountRow>, edit: EditView) -> Seq<AccountRow> {
    match edit {
        EditView::Remove(i) => rows.remove(i),
        EditView::Insert(i, row) => rows.insert(i, row),
        EditView::Change(i, row) => rows.update(i, row),
    }
}

/// The rows after the edits, in order.
pub open spec fn apply_edits(rows: Seq<AccountRow>, edits: Seq<EditView>) -> Seq<AccountRow>
    decreases edits.len(),
{
    if edits.len() == 0 {
        rows
    } else {
        apply_edit(apply_edits(rows, edits.drop_last()), edits.last())
    }
}

/// Each edit, as what it does.
pub open spec fn edits_of(edits: Seq<RowEdit>) -> Seq<EditView> {
    edits.map_values(|e: RowEdit| e@)
}

/// Some row has this id.
pub open spec fn has_id(rows: Seq<AccountRow>, id: u32) -> bool {
    exists|i: int| 0 <= i < rows.len() && rows[i].account_id == id
}

/// No two rows share an id.
pub open spec fn ids_distinct(rows: Seq<AccountRow>) -> bool {
    forall|i: int, j: int| 0 <= i < j < rows.len() ==> rows[i].account_id != rows[j].account_id
}

/// `wanted` names each profile once, and the rows of `old` that are still
/// wanted come in `wanted`'s order: nothing was reordered.
pub open spec fn kept_in_order(old: Seq<AccountRow>, wanted: Seq<AccountRow>) -> bool {
    &&& ids_distinct(wanted)
    &&& forall|a: int, b: int, i: int, j: int|
        #![trigger old[a], old[b], wanted[i], wanted[j]]
        0 <= a < b < old.len() && 0 <= i < wanted.len() && 0 <= j < wanted.len()
            && old[a].account_id == wanted[i].account_id && old[b].account_id == wanted[j].account_id
            ==> i < j
}

/// One edit, made to `rows`, leaves every row that is still wanted where
/// it is: a row removed is one `wanted` no longer has, a row inserted is
/// a profile `old` did not have, and a row is changed only to show
/// something else of the same profile.
pub open spec fn edit_in_place(
    rows: Seq<AccountRow>,
    edit: EditView,
    old: Seq<AccountRow>,
    wanted: Seq<AccountRow>,
) -> bool {
    match edit {
        EditView::Remove(i) => 0 <= i < rows.len() && !has_id(wanted, rows[i].account_id),
        EditView::Insert(_, row) => !has_id(old, row.account_id),
        EditView::Change(i, row) => 0 <= i < rows.len() && rows[i].account_id == row.account_id
            && rows[i] != row,
    }
}

/// Every edit, made in turn from `old`, is made in place.
pub open spec fn edits_in_place(old: Seq<AccountRow>, edits: Seq<EditView>, wanted: Seq<AccountRow>) -> bool {
    forall|k: int|
        0 <= k < edits.len() ==> #[trigger] edit_in_place(apply_edits(old, edits.take(k)), edits[k], old, wanted)
}

/// Where `wanted` has this id.
spec fn position(wanted: Seq<AccountRow>, id: u32) -> int {
    choose|p: int| 0 <= p < wanted.len() && wanted[p].account_id == id
}

/// Some row from `lo` on has this id.
spec fn has_id_from(rows: Seq<AccountRow>, lo: int, id: u32) -> bool {
    exists|r: int| lo <= r < rows.len() && rows[r].account_id == id
}

proof fn lemma_position(wanted: Seq<AccountRow>, p: int)
    requires
        ids_distinct(wanted),
        0 <= p < wanted.len(),
    ensures
        position(wanted, wanted[p].account_id) == p,
{
    let id = wanted[p].account_id;
    assert(0 <= p < wanted.len() && wanted[p].account_id == id);
    let q = position(wanted, id);
    assert(0 <= q < wanted.len() && wanted[q].account_id == id);
    if q < p {
        assert(wanted[q].account_id != wanted[p].account_id);
    } else if p < q {
        assert(wanted[p].account_id != wanted[q].account_id);
    }
}

proof fn lemma_has_position(wanted: Seq<AccountRow>, id: u32)
    requires
        ids_distinct(wanted),
        has_id(wanted, id),
    ensures
        0 <= position(wanted, id) < wanted.len(),
        wanted[position(wanted, id)].account_id == id,
{
    let p = choose|p: int| 0 <= p < wanted.len() && wanted[p].account_id == id;
    lemma_position(wanted, p);
}

/// Whether some row has this id.
fn has_account(items: &Vec<AccountItem>, id: u32) -> (found: bool)
    ensures
        found == has_id(rows_of(items@), id),
{
    let ghost rows = rows_of(items@);
    let n = items.len();
    let mut i: usize = 0;
    while i < n
        invariant
            n == items@.len(),
            rows == rows_of(items@),
            i <= n,
            forall|j: int| 0 <= j < i ==> rows[j].account_id != id,
        decreases n - i,
    {
        if items[i].account_id == id {
            assert(rows[i as int].account_id == id);
            return true;
        }
        i = i + 1;
    }
    false
}

fn record(
    edits: &mut Vec<RowEdit>,
    edit: RowEdit,
    Ghost(start): Ghost<Seq<AccountRow>>,
    Ghost(wanted): Ghost<Seq<AccountRow>>,
)
    ensures
        final(edits)@ == old(edits)@.push(edit),
        apply_edits(start, edits_of(final(edits)@)) == apply_edit(
            apply_edits(start, edits_of(old(edits)@)),
            edit@,
        ),
        edits_in_place(start, edits_of(old(edits)@), wanted) && edit_in_place(
            apply_edits(start, edits_of(old(edits)@)),
            edit@,
            start,
            wanted,
        ) ==> edits_in_place(start, edits_of(final(edits)@), wanted),
{
    let ghost before = edits@;
    let ghost made = edit@;
    edits.push(edit);
    proof {
        let eo = edits_of(before);
        let en = edits_of(edits@);
        assert(en.drop_last() =~= eo);
        if edits_in_place(start, eo, wanted) && edit_in_place(apply_edits(start, eo), made, start, wanted) {
            assert forall|k: int| 0 <= k < en.len() implies #[trigger] edit_in_place(
                apply_edits(start, en.take(k)),
                en[k],
                start,
                wanted,
            ) by {
                if k < eo.len() {
                    assert(en.take(k) =~= eo.take(k));
                    assert(en[k] == eo[k]);
                } else {
                    assert(en.take(k) =~= eo);
                }
            }
        }
    }
}

/// Bring the rows in line with `wanted` without rebuilding them: rows
/// that are gone are removed, new ones inserted where they belong, and a
/// row still in its place is changed only when what it shows changed.
/// The edits made are returned in order, for the list's model to make
/// the same ones, so a row that is still there keeps its delegate: unless
/// profiles were reordered, no wanted row is ever removed and put back.
pub fn reconcile_accounts(rows: &mut Vec<AccountItem>, wanted: Vec<AccountItem>) -> (edits: Vec<RowEdit>)
    ensures
        rows_of(final(rows)@) == rows_of(wanted@),
        apply_edits(rows_of(old(rows)@), edits_of(edits@)) == rows_of(final(rows)@),
        rows_of(old(rows)@) == rows_of(wanted@) ==> edits@.len() == 0,
        kept_in_order(rows_of(old(rows)@), rows_of(wanted@)) ==> edits_in_place(
            rows_of(old(rows)@),
            edits_of(edits@),
            rows_of(wanted@),
        ),
{
    let ghost start = rows_of(rows@);
    let ghost want = rows_of(wanted@);
    let ghost unchanged = start == want;
    let ghost ordered = kept_in_order(start, want);
    let mut edits: Vec<RowEdit> = Vec::new();
    // Backwards, so each index still means what it did when it was found.
    let mut i = rows.len();
    while i > 0
        invariant
            start == rows_of(old(rows)@),
            want == rows_of(wanted@),
            unchanged == (start == want),
            ordered == kept_in_order(start, want),
            i <= rows@.len(),
            i <= start.len(),
            forall|r: int| 0 <= r < i ==> #[trigger] rows_of(rows@)[r] == start[r],
            apply_edits(start, edits_of(edits@)) == rows_of(rows@),
            unchanged ==> rows_of(rows@) == start && edits@.len() == 0,
            ordered ==> edits_in_place(start, edits_of(edits@), want),
            ordered ==> forall|r: int|
                i <= r < rows@.len() ==> has_id(want, #[trigger] rows_of(rows@)[r].account_id)
                    && has_id_from(start, i as int, rows_of(rows@)[r].account_id),
            ordered ==> forall|r1: int, r2: int|
                i <= r1 < r2 < rows@.len() ==> position(want, #[trigger] rows_of(rows@)[r1].account_id)
                    < position(want, #[trigger] rows_of(rows@)[r2].account_id),
            ordered ==> forall|s: int|
                i <= s < start.len() && has_id(want, #[trigger] start[s].account_id) ==> has_id_from(
                    rows_of(rows@),
                    i as int,
                    start[s].account_id,
                ),
        decreases i,
    {
        i = i - 1;
        let ghost before = rows_of(rows@);
        assert(before[i as int] == start[i as int]);
        if !has_account(&wanted, rows[i].account_id) {
            proof {
                if unchanged {
                    assert(want[i as int].account_id == rows@[i as int].account_id);
                }
            }
            let _gone = rows.remove(i);
            record(&mut edits, RowEdit::Remove(i), Ghost(start), Ghost(want));
            proof {
                let after = rows_of(rows@);
                assert(after =~= before.remove(i as int));
                if ordered {
                    assert forall|r: int| i <= r < after.len() implies has_id(want, #[trigger] after[r].account_id)
                        && has_id_from(start, i as int, after[r].account_id) by {
                        assert(after[r] == before[r + 1]);
                    }
                    assert forall|r1: int, r2: int| i <= r1 < r2 < after.len() implies position(
                        want,
                        #[trigger] after[r1].account_id,
                    ) < position(want, #[trigger] after[r2].account_id) by {
                        assert(after[r1] == before[r1 + 1]);
                        assert(after[r2] == before[r2 + 1]);
                    }
                    assert forall|s: int|
                        i <= s < start.len() && has_id(want, #[trigger] start[s].account_id) implies has_id_from(
                        after,
                        i as int,
                        start[s].account_id,
                    ) by {
                        let r = choose|r: int| i + 1 <= r < before.len() && before[r].account_id == start[s].account_id;
                        assert(after[r - 1] == before[r]);
                    }
                }
            }
        } else {
            proof {
                if ordered {
                    let id = before[i as int].account_id;
                    assert(has_id_from(start, i as int, id)) by {
                        assert(start[i as int].account_id == id);
                    }
                    assert forall|r: int| i <= r < before.len() implies has_id(want, #[trigger] before[r].account_id)
                        && has_id_from(start, i as int, before[r].account_id) by {
                        if r > i {
                            let t = choose|t: int| i + 1 <= t < start.len() && start[t].account_id == before[r].account_id;
                            assert(start[t].account_id == before[r].account_id);
                        }
                    }
                    assert forall|r1: int, r2: int| i <= r1 < r2 < before.len() implies position(
                        want,
                        #[trigger] before[r1].account_id,
                    ) < position(want, #[trigger] before[r2].account_id) by {
                        if r1 == i {
                            let t = choose|t: int| i + 1 <= t < start.len() && start[t].account_id == before[r2].account_id;
                            lemma_has_position(want, id);
                            lemma_has_position(want, before[r2].account_id);
                            let pa = position(want, id);
                            let pb = position(want, before[r2].account_id);
                            assert(start[i as int].account_id == want[pa].account_id);
                            assert(start[t].account_id == want[pb].account_id);
                        }
                    }
                    assert forall|s: int|
                        i <= s < start.len() && has_id(want, #[trigger] start[s].account_id) implies has_id_from(
                        before,
                        i as int,
                        start[s].account_id,
                    ) by {
                        if s == i {
                            assert(before[i as int].account_id == start[s].account_id);
                        } else {
                            let r = choose|r: int| i + 1 <= r < before.len() && before[r].account_id == start[s].account_id;
                            assert(before[r].account_id == start[s].account_id);
                        }
                    }
                }
            }
        }
    }
    let count = wanted.len();
    let mut index: usize = 0;
    proof {
        if ordered {
            let now = rows_of(rows@);
            assert forall|r: int| 0 <= r < now.len() implies has_id(start, #[trigger] now[r].account_id) by {
                let t = choose|t: int| 0 <= t < start.len() && start[t].account_id == now[r].account_id;
                assert(start[t].account_id == now[r].account_id);
            }
            assert forall|r: int| 0 <= r < now.len() implies position(want, #[trigger] now[r].account_id) >= 0 by {
                lemma_has_position(want, now[r].account_id);
            }
            assert forall|p: int|
                0 <= p < want.len() && has_id(start, #[trigger] want[p].account_id) implies has_id_from(
                now,
                0,
                want[p].account_id,
            ) by {
                let s = choose|s: int| 0 <= s < start.len() && start[s].account_id == want[p].account_id;
                assert(start[s].account_id == want[p].account_id);
                assert(has_id(want, start[s].account_id));
            }
        }
    }
    while index < count
        invariant
            start == rows_of(old(rows)@),
            want == rows_of(wanted@),
            unchanged == (start == want),
            ordered == kept_in_order(start, want),
            count == wanted@.len(),
            index <= count,
            index <= rows@.len(),
            forall|j: int| 0 <= j < index ==> rows@[j]@ == wanted@[j]@,
            apply_edits(start, edits_of(edits@)) == rows_of(rows@),
            unchanged ==> rows_of(rows@) == start && edits@.len() == 0,
            ordered ==> edits_in_place(start, edits_of(edits@), want),
            ordered ==> forall|r: int|
                index <= r < rows@.len() ==> has_id(start, #[trigger] rows_of(rows@)[r].account_id)
                    && has_id(want, rows_of(rows@)[r].account_id)
                    && position(want, rows_of(rows@)[r].account_id) >= index,
            ordered ==> forall|r1: int, r2: int|
                index <= r1 < r2 < rows@.len() ==> position(want, #[trigger] rows_of(rows@)[r1].account_id)
                    < position(want, #[trigger] rows_of(rows@)[r2].account_id),
            ordered ==> forall|p: int|
                index <= p < want.len() && has_id(start, #[trigger] want[p].account_id) ==> has_id_from(
                    rows_of(rows@),
                    index as int,
                    want[p].account_id,
                ),
        decreases count - index,
    {
        let ghost before = rows_of(rows@);
        let in_place = index < rows.len() && rows[index].account_id == wanted[index].account_id;
        proof {
            if ordered {
                lemma_position(want, index as int);
            }
        }
        if in_place {
            if !rows[index].same_as(&wanted[index]) {
                proof {
                    if unchanged {
                        assert(before[index as int] == want[index as int]);
                    }
                }
                rows.set(index, wanted[index].duplicate());
                record(&mut edits, RowEdit::Change(index, wanted[index].duplicate()), Ghost(start), Ghost(want));
                proof {
                    assert(rows_of(rows@) =~= before.update(index as int, want[index as int]));
                }
            }
            proof {
                let after = rows_of(rows@);
                if ordered {
                    assert forall|p: int|
                        index + 1 <= p < want.len() && has_id(start, #[trigger] want[p].account_id) implies has_id_from(
                        after,
                        index + 1,
                        want[p].account_id,
                    ) by {
                        let r = choose|r: int| index <= r < before.len() && before[r].account_id == want[p].account_id;
                        assert(want[index as int].account_id != want[p].account_id);
                        assert(after[r] == before[r]);
                    }
                    assert forall|r: int| index + 1 <= r < after.len() implies position(
                        want,
                        #[trigger] after[r].account_id,
                    ) >= index + 1 by {
                        assert(after[r] == before[r]);
                        assert(position(want, before[index as int].account_id) < position(want, before[r].account_id));
                    }
                }
            }
        } else {
            proof {
                if unchanged {
                    assert(before[index as int] == want[index as int]);
                }
                if ordered {
                    if has_id(start, want[index as int].account_id) {
                        let r = choose|r: int| index <= r < before.len() && before[r].account_id == want[index as int].account_id;
                        if r > index {
                            assert(position(want, before[index as int].account_id) < position(want, before[r].account_id));
                        }
                        assert(false);
                    }
                }
            }
            rows.insert(index, wanted[index].duplicate());
            record(&mut edits, RowEdit::Insert(index, wanted[index].duplicate()), Ghost(start), Ghost(want));
            proof {
                let after = rows_of(rows@);
                assert(after =~= before.insert(index as int, want[index as int]));
                if ordered {
                    assert forall|r: int| index + 1 <= r < after.len() implies has_id(start, #[trigger] after[r].account_id)
                        && has_id(want, after[r].account_id)
                        && position(want, after[r].account_id) >= index + 1 by {
                        assert(after[r] == before[r - 1]);
                    }
                    assert forall|r1: int, r2: int| index + 1 <= r1 < r2 < after.len() implies position(
                        want,
                        #[trigger] after[r1].account_id,
                    ) < position(want, #[trigger] after[r2].account_id) by {
                        assert(after[r1] == before[r1 - 1]);
                        assert(after[r2] == before[r2 - 1]);
                    }
                    assert forall|p: int|
                        index + 1 <= p < want.len() && has_id(start, #[trigger] want[p].account_id) implies has_id_from(
                        after,
                        index + 1,
                        want[p].account_id,
                    ) by {
                        let r = choose|r: int| index <= r < before.len() && before[r].account_id == want[p].account_id;
                        assert(after[r + 1] == before[r]);
                    }
                }
            }
        }
        index = index + 1;
    }
    proof {
        if ordered && rows@.len() > count {
            let r = count as int;
            assert(has_id(want, rows_of(rows@)[r].account_id));
            lemma_has_position(want, rows_of(rows@)[r].account_id);
        }
    }
    // Only a reordering leaves anything past the end: a row inserted at
    // its new place while its old one was still there.
    while rows.len() > count
        invariant
            start == rows_of(old(rows)@),
            want == rows_of(wanted@),
            unchanged == (start == want),
            ordered == kept_in_order(start, want),
            count == wanted@.len(),
            count <= rows@.len(),
            forall|j: int| 0 <= j < count ==> rows@[j]@ == wanted@[j]@,
            apply_edits(start, edits_of(edits@)) == rows_of(rows@),
            unchanged ==> rows_of(rows@) == start && edits@.len() == 0,
            ordered ==> rows@.len() == count,
            ordered ==> edits_in_place(start, edits_of(edits@), want),
        decreases rows@.len(),
    {
        let ghost before = rows_of(rows@);
        let _gone = rows.remove(count);
        record(&mut edits, RowEdit::Remove(count), Ghost(start), Ghost(want));
        proof {
            assert(rows_of(rows@) =~= before.remove(count as int));
        }
    }
    assert(rows_of(rows@) =~= rows_of(wanted@));
    edits
}

/// An account id that names a profile: 0 names none.
pub fn names_an_account(account_id: u32) -> (yes: bool)
    ensures
        yes == (account_id != 0),
{
    account_id != 0
}

/// The first row of this profile whose count is not already `count`.
pub open spec fn stale_row(rows: Seq<AccountRow>, account_id: u32, count: u32, i: int) -> bool {
    &&& 0 <= i < rows.len()
    &&& rows[i].account_id == account_id
    &&& rows[i].unread_count != count
    &&& forall|j: int| 0 <= j < i ==> !(rows[j].account_id == account_id && rows[j].unread_count != count)
}

/// A profile's unread count was read again: its row is changed in place,
/// if it shows another count. The index changed, for the model to say so.
pub fn apply_unread(rows: &mut Vec<AccountItem>, account_id: u32, count: u32) -> (changed: Option<usize>)
    ensures
        match changed {
            Some(i) => stale_row(rows_of(old(rows)@), account_id, count, i as int)
                && rows_of(final(rows)@) == rows_of(old(rows)@).update(
                i as int,
                AccountRow { unread_count: count, ..rows_of(old(rows)@)[i as int] },
            ),
            None => (forall|i: int| !stale_row(rows_of(old(rows)@), account_id, count, i))
                && rows_of(final(rows)@) == rows_of(old(rows)@),
        },
{
    let ghost start = rows_of(rows@);
    let n = rows.len();
    let mut i: usize = 0;
    while i < n
        invariant
            n == rows@.len(),
            start == rows_of(rows@),
            rows@ == old(rows)@,
            i <= n,
            forall|j: int| 0 <= j < i ==> !(start[j].account_id == account_id && start[j].unread_count != count),
        decreases n - i,
    {
        if rows[i].account_id == account_id && rows[i].unread_count != count {
            let mut row = rows[i].duplicate();
            row.unread_count = count;
            rows.set(i, row);
            proof {
                assert(rows_of(rows@) =~= start.update(
                    i as int,
                    AccountRow { unread_count: count, ..start[i as int] },
                ));
            }
            return Some(i);
        }
        i = i + 1;
    }
    assert forall|k: int| !stale_row(start, account_id, count, k) by {
        if 0 <= k < n {
        }
    }
    None
}

/// The figure on a profile's row: how many messages wait, saturating, or
/// nothing waiting when the core could not be asked.
pub fn unread_badge(fresh: Option<usize>) -> (badge: u32)
    ensures
        badge == (match fresh {
            Some(n) => if n <= u32::MAX {
                n as u32
            } else {
                u32::MAX
            },
            None => 0,
        }),
{
    match fresh {
        Some(n) => {
            if n <= u32::MAX as usize {
                n as u32
            } else {
                u32::MAX
            }
        },
        None => 0,
    }
}

/// The counts added up.
pub open spec fn sum(counts: Seq<u64>) -> nat
    decreases counts.len(),
{
    if counts.len() == 0 {
        0
    } else {
        sum(counts.drop_last()) + (counts.last() as nat)
    }
}

/// How many messages a deletion period would delete across every account,
/// from each account's count: their sum, saturating at `u32::MAX`.
pub fn deletion_total(counts: &[u64]) -> (total: u32)
    ensures
        total == (if sum(counts@) <= u32::MAX {
            sum(counts@)
        } else {
            u32::MAX as nat
        }),
{
    let n = counts.len();
    let mut total: u64 = 0;
    let mut i: usize = 0;
    while i < n
        invariant
            n == counts@.len(),
            i <= n,
            total == (if sum(counts@.subrange(0, i as int)) <= u64::MAX {
                sum(counts@.subrange(0, i as int))
            } else {
                u64::MAX as nat
            }),
        decreases n - i,
    {
        proof {
            assert(counts@.subrange(0, i + 1).drop_last() =~= counts@.subrange(0, i as int));
        }
        total = total.saturating_add(counts[i]);
        i = i + 1;
    }
    proof {
        assert(counts@.subrange(0, n as int) =~= counts@);
    }
    if total <= u32::MAX as u64 {
        total as u32
    } else {
        u32::MAX
    }
}

} // verus!
