//! The operations behind the endpoints: each takes the state, the store it
//! works on and the request's plain values, and returns what the boundary
//! is to send.

use vstd::prelude::*;
use crate::clock::current_timestamp;
use crate::config::AppState;
use crate::cryptography::{hash_spec, hash_value_sha256};
use crate::pastes::{
    any_selected, creation, find_live, has_id, new_record, reading, reads_back, remaining,
    CreateError, CreatePasteRequest,
    CreatePasteResponse, DeletePasteRequest, Deletion, GetPasteResponse, PasteStore, Selector,
};
use crate::reports::{
    filing, has_report, items_view, page_count, page_window, report_validation, ListReportsItem,
    ListReportsRequest, ListReportsResponse, ReportError, ReportPasteRequest, ReportRegistry,
};
use crate::status::StatusCode;

verus! {

#[derive(Clone, Copy, Debug, PartialEq, Eq, Structural)]
pub struct StatisticsResponse {
    pub total_pastes: i64,
}

/// The letters and digits that a paste id is made of.
pub open spec fn is_alphanumeric(c: char) -> bool {
    let n = c as u32;
    (0x30 <= n <= 0x39) || (0x41 <= n <= 0x5A) || (0x61 <= n <= 0x7A)
}

/// The number of characters in a paste id.
pub const PASTE_ID_LENGTH: usize = 12;

/// The number of characters in a deletion secret.
pub const DELETION_KEY_LENGTH: usize = 36;

/// The shape of a paste id: ASCII letters or digits, `PASTE_ID_LENGTH` of
/// them.
pub open spec fn is_paste_id(id: Seq<char>) -> bool {
    id.len() == PASTE_ID_LENGTH && forall|i: int|
        0 <= i < id.len() ==> is_alphanumeric(#[trigger] id[i])
}

/// The digits of lowercase hexadecimal.
pub open spec fn is_lower_hex(c: char) -> bool {
    let n = c as u32;
    (0x30 <= n <= 0x39) || (0x61 <= n <= 0x66)
}

/// The hyphenated form of a random UUID: 36 characters, hyphens after the
/// groups of 8, 4, 4 and 4 digits, lowercase hexadecimal digits elsewhere,
/// and the version digit 4 at the head of the third group.
pub open spec fn is_uuid_v4_text(text: Seq<char>) -> bool {
    &&& text.len() == 36
    &&& forall|i: int|
        0 <= i < text.len() ==> if i == 8 || i == 13 || i == 18 || i == 23 {
            #[trigger] text[i] == '-'
        } else {
            is_lower_hex(text[i])
        }
    &&& text[14] == '4'
}

/// Draws `len` samples of `rand::distr::Alphanumeric` from `rand::rng`.
/// Trusted: the result has `len` characters, each an ASCII letter or
/// digit. Which they are depends on chance, and nothing is claimed of that.
#[verifier::external_body]
fn random_alphanumeric(len: usize) -> (text: String)
    ensures
        text@.len() == len,
        forall|i: int| 0 <= i < text@.len() ==> is_alphanumeric(#[trigger] text@[i]),
{
    rand::Rng::sample_iter(rand::rng(), rand::distr::Alphanumeric).take(len).map(char::from).collect()
}

/// Draws a fresh paste id.
fn generate_paste_id() -> (id: String)
    ensures
        is_paste_id(id@),
{
    random_alphanumeric(PASTE_ID_LENGTH)
}

/// Calls `uuid::Uuid::new_v4` and renders it with `to_string`. Trusted: the
/// text has the hyphenated form of a version 4 UUID. Which one it is
/// depends on chance, and nothing is claimed of that.
#[verifier::external_body]
fn new_deletion_key() -> (key: String)
    ensures
        is_uuid_v4_text(key@),
{
    uuid::Uuid::new_v4().to_string()
}

/// What is minted for a new paste: its public id, the deletion secret that
/// goes to the creator, and the hash of the secret that goes into the row.
#[derive(Debug)]
pub struct PasteCredentials {
    pub id: String,
    pub deletion_key: String,
    pub deletion_key_hash: String,
}

/// Draws a fresh id and a fresh deletion secret, and hashes the secret.
pub fn mint_credentials() -> (minted: PasteCredentials)
    ensures
        is_paste_id(minted.id@),
        is_uuid_v4_text(minted.deletion_key@),
        minted.deletion_key@.len() == DELETION_KEY_LENGTH,
        minted.deletion_key_hash@ == hash_spec(minted.deletion_key@),
{
    let id = generate_paste_id();
    let deletion_key = new_deletion_key();
    let deletion_key_hash = hash_value_sha256(deletion_key.as_str());
    PasteCredentials { id, deletion_key, deletion_key_hash }
}

impl CreateError {
    pub open spec fn spec_status(self) -> StatusCode {
        match self {
            CreateError::ExpiryRequired => StatusCode::BadRequest,
            CreateError::InvalidExpiry => StatusCode::BadRequest,
            CreateError::EmptyField => StatusCode::BadRequest,
            CreateError::TooLarge => StatusCode::PayloadTooLarge,
            CreateError::Storage => StatusCode::InternalServerError,
        }
    }

    /// The response class of a failed creation.
    pub fn status(self) -> (status: StatusCode)
        ensures
            status == self.spec_status(),
    {
        match self {
            CreateError::ExpiryRequired => StatusCode::BadRequest,
            CreateError::InvalidExpiry => StatusCode::BadRequest,
            CreateError::EmptyField => StatusCode::BadRequest,
            CreateError::TooLarge => StatusCode::PayloadTooLarge,
            CreateError::Storage => StatusCode::InternalServerError,
        }
    }
}

impl Deletion {
    pub open spec fn spec_status(self) -> StatusCode {
        match self {
            Deletion::Deleted => StatusCode::NoContent,
            Deletion::NotFound => StatusCode::NotFound,
        }
    }

    /// The response class of a delete.
    pub fn status(self) -> (status: StatusCode)
        ensures
            status == self.spec_status(),
    {
        match self {
            Deletion::Deleted => StatusCode::NoContent,
            Deletion::NotFound => StatusCode::NotFound,
        }
    }
}

/// The response class of an attempt to file a report.
pub open spec fn filing_status(answer: Result<i64, ReportError>) -> StatusCode {
    match answer {
        Ok(_) => StatusCode::Created,
        Err(ReportError::Disabled) => StatusCode::Forbidden,
        Err(ReportError::EmptyDecryptionKey) => StatusCode::BadRequest,
        Err(ReportError::ReasonTooShort) => StatusCode::BadRequest,
        Err(ReportError::Storage) => StatusCode::InternalServerError,
    }
}

pub fn report_status(answer: Result<i64, ReportError>) -> (status: StatusCode)
    ensures
        status == filing_status(answer),
{
    match answer {
        Ok(_) => StatusCode::Created,
        Err(ReportError::Disabled) => StatusCode::Forbidden,
        Err(ReportError::EmptyDecryptionKey) => StatusCode::BadRequest,
        Err(ReportError::ReasonTooShort) => StatusCode::BadRequest,
        Err(ReportError::Storage) => StatusCode::InternalServerError,
    }
}

/// Creates a paste now, under a freshly drawn id and deletion secret. The
/// answer and the store are those of [`PasteStore::create`] for some time,
/// some id of the right shape and some secret in the form of a UUID. A paste
/// that was created is read back verbatim at every time before its expiry.
pub fn paste_create_handler(
    state: &AppState,
    store: &mut PasteStore,
    payload: CreatePasteRequest,
) -> (answer: Result<CreatePasteResponse, CreateError>)
    requires
        old(store).wf(),
    ensures
        final(store).wf(),
        exists|now: i64, id: Seq<char>, key: Seq<char>|
            is_paste_id(id) && is_uuid_v4_text(key) && #[trigger] creation(
                state,
                payload,
                now,
                id,
                key,
                old(store)@,
                final(store)@,
                answer,
            ),
        answer is Ok ==> is_paste_id(answer->Ok_0.id@) && is_uuid_v4_text(
            answer->Ok_0.deletion_key@,
        ) && final(store)@.len() == old(store)@.len() + 1,
        answer is Ok ==> forall|at_time: i64|
            payload.expires_at is None || payload.expires_at->Some_0 > at_time
                ==> #[trigger] reads_back(final(store)@, answer->Ok_0.id@, at_time, payload),
        answer is Err ==> final(store)@ == old(store)@,
        state.paste_expiry_required && payload.expires_at is None ==> answer == Err::<
            CreatePasteResponse,
            CreateError,
        >(CreateError::ExpiryRequired),
{
    let now = current_timestamp();
    let minted = mint_credentials();
    let id = minted.id;
    let deletion_key = minted.deletion_key;
    let inserted = store.insert(state, payload, now, id.clone(), minted.deletion_key_hash);
    let answer = match inserted {
        Err(e) => Err(e),
        Ok(_) => {
            assert(store@.last() == new_record(payload, id@, deletion_key@, now));
            Ok(CreatePasteResponse { id, deletion_key })
        },
    };
    assert(creation(state, payload, now, id@, deletion_key@, old(store)@, store@, answer));
    answer
}

/// Reads a paste as of now. An absent, expired or deleted paste is not
/// found.
pub fn paste_get_handler(store: &PasteStore, id: &str) -> (answer: Result<
    GetPasteResponse,
    StatusCode,
>)
    ensures
        match answer {
            Ok(paste) => exists|now: i64| #[trigger] reading(store@, id@, now, Some(paste)),
            Err(status) => status == StatusCode::NotFound && exists|now: i64| #[trigger]
                find_live(store@, id@, now) is None,
        },
{
    let now = current_timestamp();
    match store.get(id, now) {
        Some(paste) => {
            assert(reading(store@, id@, now, Some(paste)));
            Ok(paste)
        },
        None => {
            assert(find_live(store@, id@, now) is None);
            Err(StatusCode::NotFound)
        },
    }
}

/// Deletes a paste for its owner: the presented key must hash to the
/// stored one. A wrong key and an absent id give the same answer.
pub fn paste_delete_handler(store: &mut PasteStore, id: &str, payload: &DeletePasteRequest) -> (status:
    StatusCode)
    requires
        old(store).wf(),
    ensures
        final(store).wf(),
        final(store)@ == remaining(
            old(store)@,
            Selector::IdAndHash(id@, hash_spec(payload.deletion_key@)),
        ),
        status == if any_selected(
            old(store)@,
            Selector::IdAndHash(id@, hash_spec(payload.deletion_key@)),
        ) {
            StatusCode::NoContent
        } else {
            StatusCode::NotFound
        },
{
    store.delete_by_secret(id, payload.deletion_key.as_str()).status()
}

/// Deletes a paste for an admin.
pub fn admin_delete_paste_handler(store: &mut PasteStore, id: &str) -> (status: StatusCode)
    requires
        old(store).wf(),
    ensures
        final(store).wf(),
        final(store)@ == remaining(old(store)@, Selector::Id(id@)),
        status == if has_id(old(store)@, id@) {
            StatusCode::NoContent
        } else {
            StatusCode::NotFound
        },
{
    store.delete_by_admin(id).status()
}

/// Counts the stored pastes, expired ones that were not yet swept included.
pub fn get_statistics_handler(store: &PasteStore) -> (answer: Result<StatisticsResponse, StatusCode>)
    ensures
        answer == if store@.len() <= i64::MAX {
            Ok::<StatisticsResponse, StatusCode>(
                StatisticsResponse { total_pastes: store@.len() as i64 },
            )
        } else {
            Err::<StatisticsResponse, StatusCode>(StatusCode::InternalServerError)
        },
{
    let n = store.len();
    if n as u128 <= i64::MAX as u128 {
        Ok(StatisticsResponse { total_pastes: n as i64 })
    } else {
        Err(StatusCode::InternalServerError)
    }
}

/// Files a report now against the paste id, which is not looked up.
pub fn create_paste_report_handler(
    state: &AppState,
    registry: &mut ReportRegistry,
    id: &str,
    payload: &ReportPasteRequest,
) -> (status: StatusCode)
    requires
        old(registry).wf(),
    ensures
        final(registry).wf(),
        exists|now: i64, answer: Result<i64, ReportError>|
            status == filing_status(answer) && #[trigger] filing(
                state,
                id@,
                payload.decryption_key@,
                payload.reason@,
                now,
                old(registry)@,
                old(registry).next_id(),
                final(registry)@,
                final(registry).next_id(),
                answer,
            ),
        status == match report_validation(state, payload.decryption_key@, payload.reason@) {
            Some(e) => filing_status(Err(e)),
            None => if old(registry).next_id() == i64::MAX {
                StatusCode::InternalServerError
            } else {
                StatusCode::Created
            },
        },
{
    let now = current_timestamp();
    let answer = registry.create_report(state, id, payload, now);
    assert(filing(
        state,
        id@,
        payload.decryption_key@,
        payload.reason@,
        now,
        old(registry)@,
        old(registry).next_id(),
        registry@,
        registry.next_id(),
        answer,
    ));
    report_status(answer)
}

/// Lists one page of reports. A page size below 1, for which no page count
/// is defined, is a bad request; the page number is not bounded.
pub fn admin_get_all_reports_handler(registry: &ReportRegistry, query: &ListReportsRequest) -> (answer:
    Result<ListReportsResponse, StatusCode>)
    requires
        registry.wf(),
    ensures
        answer is Err <==> query.per_page < 1,
        answer is Err ==> answer->Err_0 == StatusCode::BadRequest,
        answer is Ok ==> {
            let response = answer->Ok_0;
            &&& response.total == registry@.len()
            &&& response.page == query.page
            &&& response.pages == page_count(registry@.len() as int, query.per_page as int)
            &&& response.reports@.len() == page_window(
                registry@.len() as int,
                query.page as int,
                query.per_page as int,
            ).1 - page_window(registry@.len() as int, query.page as int, query.per_page as int).0
            &&& items_view(response.reports@) == registry@.subrange(
                page_window(registry@.len() as int, query.page as int, query.per_page as int).0,
                page_window(registry@.len() as int, query.page as int, query.per_page as int).1,
            )
        },
{
    if query.per_page < 1 {
        Err(StatusCode::BadRequest)
    } else {
        Ok(registry.list(query.page, query.per_page))
    }
}

/// Reads one report.
pub fn admin_get_report_handler(registry: &ReportRegistry, id: i64) -> (answer: Result<
    ListReportsItem,
    StatusCode,
>)
    ensures
        answer is Ok <==> has_report(registry@, id),
        answer is Ok ==> answer->Ok_0.id == id && registry@.contains(answer->Ok_0@),
        answer is Err ==> answer->Err_0 == StatusCode::NotFound,
{
    match registry.get(id) {
        Some(report) => Ok(report),
        None => Err(StatusCode::NotFound),
    }
}

/// Deletes one report.
pub fn admin_delete_report_handler(registry: &mut ReportRegistry, id: i64) -> (status: StatusCode)
    requires
        old(registry).wf(),
    ensures
        final(registry).wf(),
        final(registry).next_id() == old(registry).next_id(),
        status == if has_report(old(registry)@, id) {
            StatusCode::NoContent
        } else {
            StatusCode::NotFound
        },
        !has_report(old(registry)@, id) ==> final(registry)@ == old(registry)@,
        forall|k: int|
            0 <= k < old(registry)@.len() && (#[trigger] old(registry)@[k]).id == id
                ==> final(registry)@ == old(registry)@.remove(k),
        !has_report(final(registry)@, id),
{
    registry.delete(id).status()
}

} // verus!
