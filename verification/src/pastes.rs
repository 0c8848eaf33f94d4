//! The paste store: creation under the size and expiry policy, reads that
//! only see live rows, deletion by secret or by an admin, and removal of
//! expired rows.

use vstd::prelude::*;
use vstd::utf8::encode_utf8;
use crate::config::AppState;
use crate::cryptography::{hash_spec, hash_value_sha256};
use crate::lifecycle::{lemma_delete_by_id_removes_one, lemma_read_sees_only_live_rows};

verus! {

/// A stored paste as a mathematical value. The three `encrypted_*` fields
/// are opaque to the store.
pub struct PasteRecord {
    pub id: Seq<char>,
    pub encrypted_title: Seq<char>,
    pub encrypted_content: Seq<char>,
    pub encrypted_syntax_type: Seq<char>,
    pub deletion_key_hash: Seq<char>,
    pub expires_at: Option<i64>,
    pub created_at: i64,
}

pub struct CreatePasteRequest {
    pub encrypted_title: String,
    pub encrypted_content: String,
    pub expires_at: Option<i64>,
    pub encrypted_syntax_type: String,
}

#[derive(Debug)]
pub struct CreatePasteResponse {
    pub id: String,
    /// The plaintext deletion secret. It is handed out here and nowhere else.
    pub deletion_key: String,
}

#[derive(Debug)]
pub struct GetPasteResponse {
    pub id: String,
    pub encrypted_title: String,
    pub encrypted_content: String,
    pub encrypted_syntax_type: String,
    pub expires_at: Option<i64>,
    pub created_at: i64,
}

pub struct DeletePasteRequest {
    pub deletion_key: String,
}

/// Why a paste was not created. The first rule that fails decides.
#[derive(Clone, Copy, Debug, PartialEq, Eq, Structural)]
pub enum CreateError {
    /// The instance demands an expiry and none was given.
    ExpiryRequired,
    /// The expiry lies further ahead than the instance allows.
    InvalidExpiry,
    /// Title or content is empty.
    EmptyField,
    /// Title and content together exceed the size limit.
    TooLarge,
    /// The store refused the row: its id is already taken.
    Storage,
}

/// What a delete reports. A wrong secret and an absent id read the same.
#[derive(Clone, Copy, Debug, PartialEq, Eq, Structural)]
pub enum Deletion {
    Deleted,
    NotFound,
}

/// Which rows a single delete statement addresses.
pub enum Selector {
    /// The row with this id.
    Id(Seq<char>),
    /// The row with this id, if it carries this deletion key hash.
    IdAndHash(Seq<char>, Seq<char>),
    /// Every row whose expiry is set and lies before this time.
    ExpiredBefore(i64),
}

/// The length of a text in bytes, as the machine reports it.
pub open spec fn byte_len(text: Seq<char>) -> usize {
    encode_utf8(text).len() as usize
}

/// A paste is live while it has no expiry or its expiry is still ahead.
pub open spec fn is_live(row: PasteRecord, now: i64) -> bool {
    match row.expires_at {
        None => true,
        Some(at) => at > now,
    }
}

pub open spec fn selects(sel: Selector, row: PasteRecord) -> bool {
    match sel {
        Selector::Id(id) => row.id == id,
        Selector::IdAndHash(id, hash) => row.id == id && row.deletion_key_hash == hash,
        Selector::ExpiredBefore(now) => match row.expires_at {
            None => false,
            Some(at) => at < now,
        },
    }
}

pub open spec fn any_selected(rows: Seq<PasteRecord>, sel: Selector) -> bool {
    exists|i: int| 0 <= i < rows.len() && selects(sel, #[trigger] rows[i])
}

/// The rows a delete leaves behind, in their order.
pub open spec fn remaining(rows: Seq<PasteRecord>, sel: Selector) -> Seq<PasteRecord>
    decreases rows.len(),
{
    if rows.len() == 0 {
        rows
    } else if selects(sel, rows.last()) {
        remaining(rows.drop_last(), sel)
    } else {
        remaining(rows.drop_last(), sel).push(rows.last())
    }
}

pub open spec fn has_id(rows: Seq<PasteRecord>, id: Seq<char>) -> bool {
    exists|i: int| 0 <= i < rows.len() && (#[trigger] rows[i]).id == id
}

/// No two rows share an id.
pub open spec fn unique_ids(rows: Seq<PasteRecord>) -> bool {
    forall|i: int, j: int|
        0 <= i < j < rows.len() ==> (#[trigger] rows[i]).id != (#[trigger] rows[j]).id
}

/// What a read by id sees at a given time: the row with that id, provided
/// it is live.
pub open spec fn find_live(rows: Seq<PasteRecord>, id: Seq<char>, now: i64) -> Option<PasteRecord>
    decreases rows.len(),
{
    if rows.len() == 0 {
        None
    } else if rows.last().id == id && is_live(rows.last(), now) {
        Some(rows.last())
    } else {
        find_live(rows.drop_last(), id, now)
    }
}

/// The creation rules, in the order in which they are applied.
pub open spec fn validation(
    state: &AppState,
    title: Seq<char>,
    content: Seq<char>,
    expires_at: Option<i64>,
    now: i64,
) -> Option<CreateError> {
    if state.paste_expiry_required && expires_at is None {
        Some(CreateError::ExpiryRequired)
    } else if expires_at is Some && expires_at->Some_0 as int > now as int
        + state.paste_max_expiry as int {
        Some(CreateError::InvalidExpiry)
    } else if title.len() == 0 || content.len() == 0 {
        Some(CreateError::EmptyField)
    } else if byte_len(title) as int + byte_len(content) as int > state.paste_max_size as int {
        Some(CreateError::TooLarge)
    } else {
        None
    }
}

/// The row that a request becomes, given the hash that guards it.
pub open spec fn stored_record(
    payload: CreatePasteRequest,
    id: Seq<char>,
    deletion_key_hash: Seq<char>,
    now: i64,
) -> PasteRecord {
    PasteRecord {
        id,
        encrypted_title: payload.encrypted_title@,
        encrypted_content: payload.encrypted_content@,
        encrypted_syntax_type: payload.encrypted_syntax_type@,
        deletion_key_hash,
        expires_at: payload.expires_at,
        created_at: now,
    }
}

/// The row that a request becomes: it is guarded by the hash of the
/// deletion secret, never by the secret.
pub open spec fn new_record(
    payload: CreatePasteRequest,
    id: Seq<char>,
    deletion_key: Seq<char>,
    now: i64,
) -> PasteRecord {
    stored_record(payload, id, hash_spec(deletion_key), now)
}

/// Why creation fails, if it does: a broken rule, or an id that is taken.
pub open spec fn creation_error(
    state: &AppState,
    payload: CreatePasteRequest,
    now: i64,
    id: Seq<char>,
    before: Seq<PasteRecord>,
) -> Option<CreateError> {
    match validation(
        state,
        payload.encrypted_title@,
        payload.encrypted_content@,
        payload.expires_at,
        now,
    ) {
        Some(e) => Some(e),
        None => if has_id(before, id) {
            Some(CreateError::Storage)
        } else {
            None
        },
    }
}

/// How creation at time `now`, with a given id and deletion secret, relates
/// the store before and after to the answer.
pub open spec fn creation(
    state: &AppState,
    payload: CreatePasteRequest,
    now: i64,
    id: Seq<char>,
    deletion_key: Seq<char>,
    before: Seq<PasteRecord>,
    after: Seq<PasteRecord>,
    answer: Result<CreatePasteResponse, CreateError>,
) -> bool {
    match creation_error(state, payload, now, id, before) {
        Some(e) => answer == Err::<CreatePasteResponse, CreateError>(e) && after == before,
        None => answer is Ok && answer->Ok_0.id@ == id && answer->Ok_0.deletion_key@
            == deletion_key && after == before.push(new_record(payload, id, deletion_key, now)),
    }
}

impl GetPasteResponse {
    /// The response shows a row: every field but the key hash, verbatim.
    pub open spec fn shows(&self, row: PasteRecord) -> bool {
        &&& self.id@ == row.id
        &&& self.encrypted_title@ == row.encrypted_title
        &&& self.encrypted_content@ == row.encrypted_content
        &&& self.encrypted_syntax_type@ == row.encrypted_syntax_type
        &&& self.expires_at == row.expires_at
        &&& self.created_at == row.created_at
    }
}

/// A read of `id` at `at_time` returns a row that holds the request's three
/// opaque fields verbatim.
pub open spec fn reads_back(
    rows: Seq<PasteRecord>,
    id: Seq<char>,
    at_time: i64,
    payload: CreatePasteRequest,
) -> bool {
    match find_live(rows, id, at_time) {
        Some(row) => row.id == id && row.encrypted_title == payload.encrypted_title@
            && row.encrypted_content == payload.encrypted_content@ && row.encrypted_syntax_type
            == payload.encrypted_syntax_type@ && row.expires_at == payload.expires_at,
        None => false,
    }
}

/// How a read relates the store to the answer.
pub open spec fn reading(
    rows: Seq<PasteRecord>,
    id: Seq<char>,
    now: i64,
    answer: Option<GetPasteResponse>,
) -> bool {
    match find_live(rows, id, now) {
        Some(row) => answer is Some && answer->Some_0.shows(row),
        None => answer is None,
    }
}

/// Checks a request against the creation rules.
pub fn validate_paste(state: &AppState, payload: &CreatePasteRequest, now: i64) -> (checked:
    Result<(), CreateError>)
    ensures
        checked == match validation(
            state,
            payload.encrypted_title@,
            payload.encrypted_content@,
            payload.expires_at,
            now,
        ) {
            Some(e) => Err::<(), CreateError>(e),
            None => Ok::<(), CreateError>(()),
        },
{
    if state.paste_expiry_required && payload.expires_at.is_none() {
        return Err(CreateError::ExpiryRequired);
    }
    match payload.expires_at {
        Some(at) => {
            if (at as i128) > (now as i128) + (state.paste_max_expiry as i128) {
                return Err(CreateError::InvalidExpiry);
            }
        },
        None => {},
    }
    let title = payload.encrypted_title.as_str();
    let content = payload.encrypted_content.as_str();
    if title.is_empty() || content.is_empty() {
        return Err(CreateError::EmptyField);
    }
    if (title.len() as u128) + (content.len() as u128) > (state.paste_max_size as u128) {
        return Err(CreateError::TooLarge);
    }
    Ok(())
}

struct StoredPaste {
    id: String,
    encrypted_title: String,
    encrypted_content: String,
    encrypted_syntax_type: String,
    deletion_key_hash: String,
    expires_at: Option<i64>,
    created_at: i64,
}

impl View for StoredPaste {
    type V = PasteRecord;

    closed spec fn view(&self) -> PasteRecord {
        PasteRecord {
            id: self.id@,
            encrypted_title: self.encrypted_title@,
            encrypted_content: self.encrypted_content@,
            encrypted_syntax_type: self.encrypted_syntax_type@,
            deletion_key_hash: self.deletion_key_hash@,
            expires_at: self.expires_at,
            created_at: self.created_at,
        }
    }
}

impl StoredPaste {
    fn duplicate(&self) -> (copy: StoredPaste)
        ensures
            copy@ == self@,
    {
        StoredPaste {
            id: self.id.clone(),
            encrypted_title: self.encrypted_title.clone(),
            encrypted_content: self.encrypted_content.clone(),
            encrypted_syntax_type: self.encrypted_syntax_type.clone(),
            deletion_key_hash: self.deletion_key_hash.clone(),
            expires_at: self.expires_at,
            created_at: self.created_at,
        }
    }

    fn live_at(&self, now: i64) -> (live: bool)
        ensures
            live == is_live(self@, now),
    {
        match self.expires_at {
            None => true,
            Some(at) => at > now,
        }
    }
}

/// A delete statement's condition, over borrowed texts.
enum RowFilter<'a> {
    ById(&'a String),
    ByIdAndHash(&'a String, &'a String),
    ExpiredBefore(i64),
}

impl<'a> RowFilter<'a> {
    closed spec fn model(&self) -> Selector {
        match self {
            RowFilter::ById(id) => Selector::Id(id@),
            RowFilter::ByIdAndHash(id, hash) => Selector::IdAndHash(id@, hash@),
            RowFilter::ExpiredBefore(now) => Selector::ExpiredBefore(*now),
        }
    }

    fn applies(&self, row: &StoredPaste) -> (yes: bool)
        ensures
            yes == selects(self.model(), row@),
    {
        match self {
            RowFilter::ById(id) => row.id == **id,
            RowFilter::ByIdAndHash(id, hash) => row.id == **id && row.deletion_key_hash == **hash,
            RowFilter::ExpiredBefore(now) => match row.expires_at {
                None => false,
                Some(at) => at < *now,
            },
        }
    }
}

spec fn rows_view(rows: Seq<StoredPaste>) -> Seq<PasteRecord> {
    Seq::new(rows.len(), |i: int| rows[i]@)
}

/// The paste rows, in the order in which they were inserted.
pub struct PasteStore {
    rows: Vec<StoredPaste>,
}

impl View for PasteStore {
    type V = Seq<PasteRecord>;

    closed spec fn view(&self) -> Seq<PasteRecord> {
        rows_view(self.rows@)
    }
}

impl PasteStore {
    /// The store's invariant: the id is a key.
    pub open spec fn wf(&self) -> bool {
        unique_ids(self@)
    }

    pub fn new() -> (store: PasteStore)
        ensures
            store@ == Seq::<PasteRecord>::empty(),
            store.wf(),
    {
        let store = PasteStore { rows: Vec::new() };
        assert(store@ =~= Seq::<PasteRecord>::empty());
        store
    }

    /// The number of rows, expired ones included.
    pub fn len(&self) -> (n: usize)
        ensures
            n == self@.len(),
    {
        self.rows.len()
    }

    /// Whether a row with this id is stored, live or not.
    pub fn contains(&self, id: &str) -> (found: bool)
        ensures
            found == has_id(self@, id@),
    {
        let wanted = id.to_owned();
        let mut i: usize = 0;
        while i < self.rows.len()
            invariant
                0 <= i <= self.rows.len(),
                wanted@ == id@,
                forall|j: int| 0 <= j < i ==> (#[trigger] self@[j]).id != id@,
            decreases self.rows.len() - i,
        {
            if self.rows[i].id == wanted {
                assert(self@[i as int].id == id@);
                return true;
            }
            i += 1;
        }
        false
    }

    /// Inserts a row for a paste made at `now` under `id`, guarded by a
    /// deletion key hash that the caller has computed. The rules are
    /// checked first; a taken id is a storage failure.
    pub fn insert(
        &mut self,
        state: &AppState,
        payload: CreatePasteRequest,
        now: i64,
        id: String,
        deletion_key_hash: String,
    ) -> (answer: Result<(), CreateError>)
        requires
            old(self).wf(),
        ensures
            final(self).wf(),
            match creation_error(state, payload, now, id@, old(self)@) {
                Some(e) => answer == Err::<(), CreateError>(e) && final(self)@ == old(self)@,
                None => answer is Ok && final(self)@ == old(self)@.push(
                    stored_record(payload, id@, deletion_key_hash@, now),
                ),
            },
    {
        match validate_paste(state, &payload, now) {
            Err(e) => {
                return Err(e);
            },
            Ok(_) => {},
        }
        if self.contains(id.as_str()) {
            return Err(CreateError::Storage);
        }
        let ghost record = stored_record(payload, id@, deletion_key_hash@, now);
        let row = StoredPaste {
            id,
            encrypted_title: payload.encrypted_title,
            encrypted_content: payload.encrypted_content,
            encrypted_syntax_type: payload.encrypted_syntax_type,
            deletion_key_hash,
            expires_at: payload.expires_at,
            created_at: now,
        };
        self.rows.push(row);
        proof {
            assert(self@ =~= old(self)@.push(record));
            assert forall|i: int, j: int| 0 <= i < j < self@.len() implies (#[trigger] self@[i]).id
                != (#[trigger] self@[j]).id by {
                if j == self@.len() - 1 {
                    assert(old(self)@[i].id != record.id);
                }
            }
        }
        Ok(())
    }

    /// Creates a paste made at `now` under a fresh `id`: hashes the deletion
    /// secret, inserts the row, and returns the id with the plaintext
    /// secret.
    pub fn create(
        &mut self,
        state: &AppState,
        payload: CreatePasteRequest,
        now: i64,
        id: String,
        deletion_key: String,
    ) -> (answer: Result<CreatePasteResponse, CreateError>)
        requires
            old(self).wf(),
        ensures
            final(self).wf(),
            creation(state, payload, now, id@, deletion_key@, old(self)@, final(self)@, answer),
            answer is Ok ==> forall|at_time: i64|
                payload.expires_at is None || payload.expires_at->Some_0 > at_time
                    ==> #[trigger] reads_back(final(self)@, id@, at_time, payload),
    {
        let deletion_key_hash = hash_value_sha256(deletion_key.as_str());
        match self.insert(state, payload, now, id.clone(), deletion_key_hash) {
            Err(e) => Err(e),
            Ok(_) => {
                assert(self@.last() == new_record(payload, id@, deletion_key@, now));
                Ok(CreatePasteResponse { id, deletion_key })
            },
        }
    }

    /// Reads a paste by id as of `at_time`. An expired row is as absent as
    /// one that was never stored.
    pub fn get(&self, id: &str, at_time: i64) -> (answer: Option<GetPasteResponse>)
        ensures
            reading(self@, id@, at_time, answer),
            answer is Some ==> has_id(self@, id@) && answer->Some_0.id@ == id@ && (
            answer->Some_0.expires_at is None || answer->Some_0.expires_at->Some_0 > at_time),
    {
        proof {
            lemma_read_sees_only_live_rows(self@, id@, at_time);
            if find_live(self@, id@, at_time) is Some {
                let row = find_live(self@, id@, at_time)->Some_0;
                let j = choose|j: int| 0 <= j < self@.len() && self@[j] == row;
                assert(self@[j].id == id@);
            }
        }
        let wanted = id.to_owned();
        let mut i: usize = self.rows.len();
        assert(self@.take(i as int) =~= self@);
        while i > 0
            invariant
                0 <= i <= self.rows.len(),
                wanted@ == id@,
                find_live(self@, id@, at_time) == find_live(self@.take(i as int), id@, at_time),
            decreases i,
        {
            i -= 1;
            let row = &self.rows[i];
            proof {
                let shorter = self@.take(i + 1);
                assert(shorter.last() == row@);
                assert(shorter.drop_last() =~= self@.take(i as int));
            }
            if row.id == wanted && row.live_at(at_time) {
                return Some(
                    GetPasteResponse {
                        id: row.id.clone(),
                        encrypted_title: row.encrypted_title.clone(),
                        encrypted_content: row.encrypted_content.clone(),
                        encrypted_syntax_type: row.encrypted_syntax_type.clone(),
                        expires_at: row.expires_at,
                        created_at: row.created_at,
                    },
                );
            }
        }
        None
    }

    /// One delete statement: drops the rows that the filter selects and
    /// says how many there were.
    fn remove_where(&mut self, filter: &RowFilter<'_>) -> (removed: usize)
        requires
            old(self).wf(),
        ensures
            final(self).wf(),
            final(self)@ == remaining(old(self)@, filter.model()),
            removed == old(self)@.len() - final(self)@.len(),
            removed > 0 <==> any_selected(old(self)@, filter.model()),
    {
        let ghost sel = filter.model();
        let ghost before = self@;
        let mut kept: Vec<StoredPaste> = Vec::new();
        let mut removed: usize = 0;
        let mut i: usize = 0;
        assert(before.take(0) =~= Seq::<PasteRecord>::empty());
        assert(rows_view(kept@) =~= Seq::<PasteRecord>::empty());
        while i < self.rows.len()
            invariant
                0 <= i <= self.rows.len(),
                self@ == before,
                sel == filter.model(),
                rows_view(kept@) == remaining(before.take(i as int), sel),
                removed + kept@.len() == i,
                removed > 0 <==> any_selected(before.take(i as int), sel),
            decreases self.rows.len() - i,
        {
            let row = &self.rows[i];
            proof {
                let longer = before.take(i + 1);
                assert(longer.last() == row@);
                assert(longer.drop_last() =~= before.take(i as int));
                if any_selected(before.take(i as int), sel) {
                    let k = choose|k: int|
                        0 <= k < before.take(i as int).len() && selects(
                            sel,
                            #[trigger] before.take(i as int)[k],
                        );
                    assert(selects(sel, longer[k]));
                }
                if any_selected(longer, sel) && !selects(sel, row@) {
                    let k = choose|k: int| 0 <= k < longer.len() && selects(sel, #[trigger] longer[k]);
                    assert(selects(sel, before.take(i as int)[k]));
                }
                if selects(sel, row@) {
                    assert(selects(sel, longer[i as int]));
                }
            }
            if filter.applies(row) {
                removed += 1;
            } else {
                let copy = row.duplicate();
                kept.push(copy);
                assert(rows_view(kept@) =~= remaining(before.take(i as int), sel).push(row@));
            }
            i += 1;
        }
        proof {
            assert(before.take(i as int) =~= before);
            lemma_remaining_keeps_rows(before, sel);
        }
        self.rows = kept;
        removed
    }

    /// Removes the row with this id only if it carries this deletion key
    /// hash.
    pub fn delete_by_hash(&mut self, id: &str, deletion_key_hash: &str) -> (outcome: Deletion)
        requires
            old(self).wf(),
        ensures
            final(self).wf(),
            final(self)@ == remaining(old(self)@, Selector::IdAndHash(id@, deletion_key_hash@)),
            outcome == if any_selected(old(self)@, Selector::IdAndHash(id@, deletion_key_hash@)) {
                Deletion::Deleted
            } else {
                Deletion::NotFound
            },
            outcome == Deletion::Deleted ==> final(self)@.len() == old(self)@.len() - 1,
            outcome == Deletion::NotFound ==> final(self)@ == old(self)@,
    {
        let wanted = id.to_owned();
        let hashed = deletion_key_hash.to_owned();
        proof {
            lemma_delete_by_id_removes_one(self@, Selector::IdAndHash(id@, deletion_key_hash@));
        }
        let removed = self.remove_where(&RowFilter::ByIdAndHash(&wanted, &hashed));
        if removed > 0 {
            Deletion::Deleted
        } else {
            Deletion::NotFound
        }
    }

    /// Owner-initiated delete: removes the row with this id only if the
    /// hash of the presented secret is the stored one.
    pub fn delete_by_secret(&mut self, id: &str, presented_secret: &str) -> (outcome: Deletion)
        requires
            old(self).wf(),
        ensures
            final(self).wf(),
            final(self)@ == remaining(
                old(self)@,
                Selector::IdAndHash(id@, hash_spec(presented_secret@)),
            ),
            outcome == if any_selected(
                old(self)@,
                Selector::IdAndHash(id@, hash_spec(presented_secret@)),
            ) {
                Deletion::Deleted
            } else {
                Deletion::NotFound
            },
            outcome == Deletion::Deleted ==> final(self)@.len() == old(self)@.len() - 1,
            outcome == Deletion::NotFound ==> final(self)@ == old(self)@,
    {
        let hashed = hash_value_sha256(presented_secret);
        self.delete_by_hash(id, hashed.as_str())
    }

    /// Admin delete: removes the row with this id, no secret asked.
    pub fn delete_by_admin(&mut self, id: &str) -> (outcome: Deletion)
        requires
            old(self).wf(),
        ensures
            final(self).wf(),
            final(self)@ == remaining(old(self)@, Selector::Id(id@)),
            outcome == if has_id(old(self)@, id@) {
                Deletion::Deleted
            } else {
                Deletion::NotFound
            },
            outcome == Deletion::Deleted ==> final(self)@.len() == old(self)@.len() - 1,
            outcome == Deletion::NotFound ==> final(self)@ == old(self)@,
    {
        let wanted = id.to_owned();
        proof {
            lemma_delete_by_id_removes_one(self@, Selector::Id(id@));
        }
        let removed = self.remove_where(&RowFilter::ById(&wanted));
        proof {
            let sel = Selector::Id(id@);
            if has_id(old(self)@, id@) {
                let k = choose|k: int| 0 <= k < old(self)@.len() && (#[trigger] old(self)@[k]).id == id@;
                assert(selects(sel, old(self)@[k]));
            }
            if any_selected(old(self)@, sel) {
                let k = choose|k: int|
                    0 <= k < old(self)@.len() && selects(sel, #[trigger] old(self)@[k]);
                assert(old(self)@[k].id == id@);
            }
        }
        if removed > 0 {
            Deletion::Deleted
        } else {
            Deletion::NotFound
        }
    }

    /// One sweep: removes every row whose expiry is set and lies before
    /// `now`, and says how many were removed.
    pub fn sweep(&mut self, now: i64) -> (removed: usize)
        requires
            old(self).wf(),
        ensures
            final(self).wf(),
            final(self)@ == remaining(old(self)@, Selector::ExpiredBefore(now)),
            removed == old(self)@.len() - final(self)@.len(),
    {
        self.remove_where(&RowFilter::ExpiredBefore(now))
    }
}

/// What a delete leaves behind: exactly the rows it did not select, each
/// taken from the rows before, and ids stay distinct. Where it selects
/// nothing, nothing changes.
pub proof fn lemma_remaining_keeps_rows(rows: Seq<PasteRecord>, sel: Selector)
    ensures
        remaining(rows, sel).len() <= rows.len(),
        forall|k: int|
            0 <= k < remaining(rows, sel).len() ==> !selects(sel, #[trigger] remaining(rows, sel)[k])
                && rows.contains(remaining(rows, sel)[k]),
        forall|j: int|
            0 <= j < rows.len() && !selects(sel, #[trigger] rows[j]) ==> remaining(
                rows,
                sel,
            ).contains(rows[j]),
        unique_ids(rows) ==> unique_ids(remaining(rows, sel)),
        !any_selected(rows, sel) ==> remaining(rows, sel) == rows,
    decreases rows.len(),
{
    if rows.len() > 0 {
        let shorter = rows.drop_last();
        let rest = remaining(shorter, sel);
        let out = remaining(rows, sel);
        lemma_remaining_keeps_rows(shorter, sel);
        assert forall|k: int| 0 <= k < out.len() implies !selects(sel, #[trigger] out[k])
            && rows.contains(out[k]) by {
            if k < rest.len() {
                assert(out[k] == rest[k]);
                assert(shorter.contains(rest[k]));
                let j = choose|j: int| 0 <= j < shorter.len() && shorter[j] == rest[k];
                assert(rows[j] == out[k]);
            } else {
                assert(out[k] == rows[rows.len() - 1]);
            }
        }
        assert forall|j: int| 0 <= j < rows.len() && !selects(sel, #[trigger] rows[j]) implies out.contains(
            rows[j],
        ) by {
            if j < shorter.len() {
                assert(shorter[j] == rows[j]);
                assert(rest.contains(shorter[j]));
                let k = choose|k: int| 0 <= k < rest.len() && rest[k] == shorter[j];
                assert(out[k] == rows[j]);
            } else {
                assert(out[out.len() - 1] == rows[j]);
            }
        }
        if unique_ids(rows) {
            assert(unique_ids(shorter)) by {
                assert forall|i: int, j: int| 0 <= i < j < shorter.len() implies (#[trigger] shorter[i]).id
                    != (#[trigger] shorter[j]).id by {
                    assert(rows[i].id != rows[j].id);
                }
            }
            assert forall|a: int, b: int| 0 <= a < b < out.len() implies (#[trigger] out[a]).id
                != (#[trigger] out[b]).id by {
                if b < rest.len() {
                    assert(rest[a].id != rest[b].id);
                } else {
                    assert(out[a] == rest[a]);
                    assert(shorter.contains(rest[a]));
                    let j = choose|j: int| 0 <= j < shorter.len() && shorter[j] == rest[a];
                    assert(rows[j].id != rows[rows.len() - 1].id);
                }
            }
        }
        if !any_selected(rows, sel) {
            assert(!selects(sel, rows[rows.len() - 1]));
            assert(!any_selected(shorter, sel)) by {
                if any_selected(shorter, sel) {
                    let k = choose|k: int| 0 <= k < shorter.len() && selects(sel, #[trigger] shorter[k]);
                    assert(selects(sel, rows[k]));
                }
            }
            assert(out =~= rows);
        }
    }
}

} // verus!
