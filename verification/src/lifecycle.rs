//! Facts about the paste lifecycle that relate several operations of the
//! store: what a read sees after a creation, a deletion or a sweep.

use vstd::prelude::*;
use crate::config::AppState;
use crate::cryptography::hash_spec;
use crate::pastes::{
    any_selected, creation, find_live, has_id, is_live, new_record, remaining, selects, unique_ids,
    validation, CreatePasteRequest, CreatePasteResponse, CreateError, PasteRecord, Selector,
    lemma_remaining_keeps_rows,
};

verus! {

/// A read returns only a row that carries the id asked for, is stored, and
/// is live at the time of the read; it returns nothing only if no stored
/// row with that id is live. In particular a row whose expiry has passed is
/// never returned, swept or not.
pub proof fn lemma_read_sees_only_live_rows(rows: Seq<PasteRecord>, id: Seq<char>, now: i64)
    ensures
        match find_live(rows, id, now) {
            Some(row) => row.id == id && is_live(row, now) && rows.contains(row),
            None => forall|j: int|
                0 <= j < rows.len() && (#[trigger] rows[j]).id == id ==> !is_live(rows[j], now),
        },
    decreases rows.len(),
{
    if rows.len() > 0 {
        let shorter = rows.drop_last();
        lemma_read_sees_only_live_rows(shorter, id, now);
        match find_live(rows, id, now) {
            Some(row) => {
                if rows.last().id == id && is_live(rows.last(), now) {
                    assert(rows[rows.len() - 1] == row);
                } else {
                    let j = choose|j: int| 0 <= j < shorter.len() && shorter[j] == row;
                    assert(rows[j] == row);
                }
            },
            None => {
                assert forall|j: int| 0 <= j < rows.len() && (#[trigger] rows[j]).id == id implies !is_live(
                    rows[j],
                    now,
                ) by {
                    if j < shorter.len() {
                        assert(shorter[j] == rows[j]);
                    }
                }
            },
        }
    }
}

/// Where the id is a key, a read returns the one stored row with that id
/// whenever that row is live.
pub proof fn lemma_read_finds_live_row(rows: Seq<PasteRecord>, k: int, now: i64)
    requires
        unique_ids(rows),
        0 <= k < rows.len(),
        is_live(rows[k], now),
    ensures
        find_live(rows, rows[k].id, now) == Some(rows[k]),
{
    let id = rows[k].id;
    lemma_read_sees_only_live_rows(rows, id, now);
    match find_live(rows, id, now) {
        Some(row) => {
            let j = choose|j: int| 0 <= j < rows.len() && rows[j] == row;
            if j < k {
                assert(rows[j].id != rows[k].id);
            } else if k < j {
                assert(rows[k].id != rows[j].id);
            }
        },
        None => {},
    }
}

/// A request that passes the creation rules, under an id that is not yet
/// taken, is stored, and every read of that id before its expiry returns
/// the row with the three opaque fields exactly as they were submitted.
pub proof fn lemma_created_paste_is_read_back(
    state: &AppState,
    payload: CreatePasteRequest,
    now: i64,
    id: Seq<char>,
    deletion_key: Seq<char>,
    before: Seq<PasteRecord>,
    after: Seq<PasteRecord>,
    answer: Result<CreatePasteResponse, CreateError>,
    at_time: i64,
)
    requires
        validation(
            state,
            payload.encrypted_title@,
            payload.encrypted_content@,
            payload.expires_at,
            now,
        ) is None,
        !has_id(before, id),
        creation(state, payload, now, id, deletion_key, before, after, answer),
        payload.expires_at is None || payload.expires_at->Some_0 > at_time,
    ensures
        answer is Ok,
        answer->Ok_0.id@ == id,
        answer->Ok_0.deletion_key@ == deletion_key,
        find_live(after, id, at_time) == Some(new_record(payload, id, deletion_key, now)),
        find_live(after, id, at_time)->Some_0.encrypted_title == payload.encrypted_title@,
        find_live(after, id, at_time)->Some_0.encrypted_content == payload.encrypted_content@,
        find_live(after, id, at_time)->Some_0.encrypted_syntax_type
            == payload.encrypted_syntax_type@,
{
    let record = new_record(payload, id, deletion_key, now);
    assert(after.last() == record);
}

/// A delete that addresses rows by id removes at most one row where the id
/// is a key, and exactly one where it selects any.
pub proof fn lemma_delete_by_id_removes_one(rows: Seq<PasteRecord>, sel: Selector)
    requires
        unique_ids(rows),
        sel is Id || sel is IdAndHash,
    ensures
        any_selected(rows, sel) ==> remaining(rows, sel).len() == rows.len() - 1,
        !any_selected(rows, sel) ==> remaining(rows, sel) == rows,
    decreases rows.len(),
{
    lemma_remaining_keeps_rows(rows, sel);
    if rows.len() > 0 {
        let shorter = rows.drop_last();
        assert(unique_ids(shorter)) by {
            assert forall|i: int, j: int| 0 <= i < j < shorter.len() implies (#[trigger] shorter[i]).id
                != (#[trigger] shorter[j]).id by {
                assert(rows[i].id != rows[j].id);
            }
        }
        lemma_delete_by_id_removes_one(shorter, sel);
        lemma_remaining_keeps_rows(shorter, sel);
        if selects(sel, rows.last()) {
            if any_selected(shorter, sel) {
                let k = choose|k: int| 0 <= k < shorter.len() && selects(sel, #[trigger] shorter[k]);
                assert(rows[k].id != rows[rows.len() - 1].id);
            }
        } else if any_selected(rows, sel) {
            let k = choose|k: int| 0 <= k < rows.len() && selects(sel, #[trigger] rows[k]);
            assert(selects(sel, shorter[k]));
        }
    }
}

/// Deleting with the secret whose hash guards a stored row removes that
/// row and no other; from then on no read finds the id, and a second delete
/// with the same secret finds nothing and changes nothing.
pub proof fn lemma_delete_by_secret_once(
    rows: Seq<PasteRecord>,
    k: int,
    secret: Seq<char>,
    now: i64,
)
    requires
        unique_ids(rows),
        0 <= k < rows.len(),
        rows[k].deletion_key_hash == hash_spec(secret),
    ensures
        ({
            let sel = Selector::IdAndHash(rows[k].id, hash_spec(secret));
            let after = remaining(rows, sel);
            &&& any_selected(rows, sel)
            &&& after.len() == rows.len() - 1
            &&& !has_id(after, rows[k].id)
            &&& find_live(after, rows[k].id, now) is None
            &&& !any_selected(after, sel)
            &&& remaining(after, sel) == after
        }),
{
    let id = rows[k].id;
    let sel = Selector::IdAndHash(id, hash_spec(secret));
    let after = remaining(rows, sel);
    assert(selects(sel, rows[k]));
    lemma_delete_by_id_removes_one(rows, sel);
    lemma_remaining_keeps_rows(rows, sel);
    if has_id(after, id) {
        let a = choose|a: int| 0 <= a < after.len() && (#[trigger] after[a]).id == id;
        assert(rows.contains(after[a]));
        let j = choose|j: int| 0 <= j < rows.len() && rows[j] == after[a];
        if j < k {
            assert(rows[j].id != rows[k].id);
        } else if k < j {
            assert(rows[k].id != rows[j].id);
        }
        assert(!selects(sel, after[a]));
    }
    lemma_read_sees_only_live_rows(after, id, now);
    if find_live(after, id, now) is Some {
        let row = find_live(after, id, now)->Some_0;
        let a = choose|a: int| 0 <= a < after.len() && after[a] == row;
        assert(after[a].id == id);
    }
    lemma_remaining_keeps_rows(after, sel);
}

/// A delete with a secret whose hash guards no row of that id removes
/// nothing, exactly as a delete of an id that is not stored: neither
/// selects a row, and both leave the store as it was.
pub proof fn lemma_wrong_secret_reads_as_absent(
    rows: Seq<PasteRecord>,
    id: Seq<char>,
    secret: Seq<char>,
    absent_id: Seq<char>,
    any_secret: Seq<char>,
)
    requires
        forall|j: int|
            0 <= j < rows.len() && (#[trigger] rows[j]).id == id ==> rows[j].deletion_key_hash
                != hash_spec(secret),
        !has_id(rows, absent_id),
    ensures
        !any_selected(rows, Selector::IdAndHash(id, hash_spec(secret))),
        remaining(rows, Selector::IdAndHash(id, hash_spec(secret))) == rows,
        !any_selected(rows, Selector::IdAndHash(absent_id, hash_spec(any_secret))),
        remaining(rows, Selector::IdAndHash(absent_id, hash_spec(any_secret))) == rows,
{
    let wrong = Selector::IdAndHash(id, hash_spec(secret));
    let absent = Selector::IdAndHash(absent_id, hash_spec(any_secret));
    if any_selected(rows, wrong) {
        let k = choose|k: int| 0 <= k < rows.len() && selects(wrong, #[trigger] rows[k]);
        assert(rows[k].id == id);
    }
    if any_selected(rows, absent) {
        let k = choose|k: int| 0 <= k < rows.len() && selects(absent, #[trigger] rows[k]);
        assert(rows[k].id == absent_id);
    }
    lemma_remaining_keeps_rows(rows, wrong);
    lemma_remaining_keeps_rows(rows, absent);
}

/// An admin delete leaves no row with the id: no later read finds it, and
/// a later delete of it, by an admin or with any secret, finds nothing.
pub proof fn lemma_admin_delete_is_final(
    rows: Seq<PasteRecord>,
    id: Seq<char>,
    now: i64,
    secret: Seq<char>,
)
    ensures
        !has_id(remaining(rows, Selector::Id(id)), id),
        find_live(remaining(rows, Selector::Id(id)), id, now) is None,
        !any_selected(remaining(rows, Selector::Id(id)), Selector::Id(id)),
        !any_selected(
            remaining(rows, Selector::Id(id)),
            Selector::IdAndHash(id, hash_spec(secret)),
        ),
{
    let sel = Selector::Id(id);
    let after = remaining(rows, sel);
    lemma_remaining_keeps_rows(rows, sel);
    if has_id(after, id) {
        let a = choose|a: int| 0 <= a < after.len() && (#[trigger] after[a]).id == id;
        assert(!selects(sel, after[a]));
    }
    lemma_read_sees_only_live_rows(after, id, now);
    if find_live(after, id, now) is Some {
        let row = find_live(after, id, now)->Some_0;
        let a = choose|a: int| 0 <= a < after.len() && after[a] == row;
        assert(after[a].id == id);
    }
    let by_secret = Selector::IdAndHash(id, hash_spec(secret));
    if any_selected(after, by_secret) {
        let a = choose|a: int| 0 <= a < after.len() && selects(by_secret, #[trigger] after[a]);
        assert(after[a].id == id);
    }
    if any_selected(after, sel) {
        let a = choose|a: int| 0 <= a < after.len() && selects(sel, #[trigger] after[a]);
        assert(after[a].id == id);
    }
}

/// A sweep never changes what a read returns at the time of the sweep or
/// later: it removes only rows that such a read already passes over, and
/// every row that is live stays stored.
pub proof fn lemma_sweep_keeps_reads(
    rows: Seq<PasteRecord>,
    swept_at: i64,
    id: Seq<char>,
    now: i64,
)
    requires
        swept_at <= now,
    ensures
        find_live(remaining(rows, Selector::ExpiredBefore(swept_at)), id, now) == find_live(
            rows,
            id,
            now,
        ),
    decreases rows.len(),
{
    if rows.len() > 0 {
        let sel = Selector::ExpiredBefore(swept_at);
        let shorter = rows.drop_last();
        lemma_sweep_keeps_reads(shorter, swept_at, id, now);
        if !selects(sel, rows.last()) {
            let out = remaining(rows, sel);
            assert(out.last() == rows.last());
            assert(out.drop_last() =~= remaining(shorter, sel));
        }
    }
}

/// A row that a sweep has removed is gone for every later operation: no
/// row carries its id, so a read finds nothing and a delete of it, by an
/// admin or with its secret, finds nothing either.
pub proof fn lemma_swept_row_is_gone(
    rows: Seq<PasteRecord>,
    k: int,
    swept_at: i64,
    now: i64,
    secret: Seq<char>,
)
    requires
        unique_ids(rows),
        0 <= k < rows.len(),
        rows[k].expires_at is Some,
        rows[k].expires_at->Some_0 < swept_at,
    ensures
        ({
            let after = remaining(rows, Selector::ExpiredBefore(swept_at));
            &&& !has_id(after, rows[k].id)
            &&& find_live(after, rows[k].id, now) is None
            &&& !any_selected(after, Selector::Id(rows[k].id))
            &&& !any_selected(after, Selector::IdAndHash(rows[k].id, hash_spec(secret)))
        }),
{
    let id = rows[k].id;
    let sel = Selector::ExpiredBefore(swept_at);
    let after = remaining(rows, sel);
    lemma_remaining_keeps_rows(rows, sel);
    if has_id(after, id) {
        let a = choose|a: int| 0 <= a < after.len() && (#[trigger] after[a]).id == id;
        assert(rows.contains(after[a]));
        let j = choose|j: int| 0 <= j < rows.len() && rows[j] == after[a];
        if j < k {
            assert(rows[j].id != rows[k].id);
        } else if k < j {
            assert(rows[k].id != rows[j].id);
        }
        assert(!selects(sel, after[a]));
    }
    lemma_read_sees_only_live_rows(after, id, now);
    if find_live(after, id, now) is Some {
        let row = find_live(after, id, now)->Some_0;
        let a = choose|a: int| 0 <= a < after.len() && after[a] == row;
        assert(after[a].id == id);
    }
    let by_admin = Selector::Id(id);
    if any_selected(after, by_admin) {
        let a = choose|a: int| 0 <= a < after.len() && selects(by_admin, #[trigger] after[a]);
        assert(after[a].id == id);
    }
    let by_secret = Selector::IdAndHash(id, hash_spec(secret));
    if any_selected(after, by_secret) {
        let a = choose|a: int| 0 <= a < after.len() && selects(by_secret, #[trigger] after[a]);
        assert(after[a].id == id);
    }
}

/// After a sweep no stored row has an expiry before the time of the sweep.
pub proof fn lemma_sweep_leaves_no_expired_row(rows: Seq<PasteRecord>, swept_at: i64)
    ensures
        forall|k: int|
            0 <= k < remaining(rows, Selector::ExpiredBefore(swept_at)).len() ==> {
                let row = #[trigger] remaining(rows, Selector::ExpiredBefore(swept_at))[k];
                row.expires_at is None || row.expires_at->Some_0 >= swept_at
            },
{
    lemma_remaining_keeps_rows(rows, Selector::ExpiredBefore(swept_at));
}

} // verus!
