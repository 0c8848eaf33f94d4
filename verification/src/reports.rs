//! The report registry: flags raised against pastes, kept newest first for
//! moderators to list, read and delete.

use vstd::prelude::*;
use vstd::utf8::encode_utf8;
use crate::config::AppState;
use crate::pastes::Deletion;

verus! {

/// A stored report as a mathematical value.
pub struct ReportRecord {
    pub id: i64,
    /// The flagged paste, by value: it need not exist.
    pub paste_id: Seq<char>,
    pub decryption_key: Seq<char>,
    pub reason: Seq<char>,
    pub created_at: i64,
}

pub struct ReportPasteRequest {
    pub decryption_key: String,
    pub reason: String,
}

#[derive(Clone, Copy, Debug, PartialEq, Eq, Structural)]
pub struct ListReportsRequest {
    pub page: i64,
    pub per_page: i64,
}

#[derive(Debug)]
pub struct ListReportsItem {
    pub id: i64,
    pub paste_id: String,
    pub decryption_key: String,
    pub reason: String,
    pub created_at: i64,
}

#[derive(Debug)]
pub struct ListReportsResponse {
    pub total: i64,
    pub page: i64,
    pub pages: i64,
    pub reports: Vec<ListReportsItem>,
}

/// Why a report was not filed.
#[derive(Clone, Copy, Debug, PartialEq, Eq, Structural)]
pub enum ReportError {
    /// Reporting is switched off for the instance.
    Disabled,
    /// The decryption key is empty once trimmed.
    EmptyDecryptionKey,
    /// The reason, once trimmed, is shorter than the configured minimum.
    ReasonTooShort,
    /// The registry has run out of ids.
    Storage,
}

/// The characters with the Unicode property `White_Space`.
pub open spec fn is_whitespace(c: char) -> bool {
    let n = c as u32;
    (0x09 <= n <= 0x0D) || n == 0x20 || n == 0x85 || n == 0xA0 || n == 0x1680 || (0x2000 <= n
        <= 0x200A) || n == 0x2028 || n == 0x2029 || n == 0x202F || n == 0x205F || n == 0x3000
}

pub open spec fn trim_start(text: Seq<char>) -> Seq<char>
    decreases text.len(),
{
    if text.len() > 0 && is_whitespace(text.first()) {
        trim_start(text.drop_first())
    } else {
        text
    }
}

pub open spec fn trim_end(text: Seq<char>) -> Seq<char>
    decreases text.len(),
{
    if text.len() > 0 && is_whitespace(text.last()) {
        trim_end(text.drop_last())
    } else {
        text
    }
}

/// A text without its leading and trailing whitespace.
pub open spec fn trimmed(text: Seq<char>) -> Seq<char> {
    trim_end(trim_start(text))
}

/// Calls `str::trim`. Trusted: the result is the text with the leading and
/// the trailing run of `White_Space` characters removed.
#[verifier::external_body]
fn trim_text<'a>(text: &'a str) -> (out: &'a str)
    ensures
        out@ == trimmed(text@),
{
    text.trim()
}

/// The rules for filing a report, in the order in which they are applied.
pub open spec fn report_validation(
    state: &AppState,
    decryption_key: Seq<char>,
    reason: Seq<char>,
) -> Option<ReportError> {
    if !state.reports_enabled {
        Some(ReportError::Disabled)
    } else if trimmed(decryption_key).len() == 0 {
        Some(ReportError::EmptyDecryptionKey)
    } else if (encode_utf8(trimmed(reason)).len() as usize) < state.reports_min_length {
        Some(ReportError::ReasonTooShort)
    } else {
        None
    }
}

/// Checks a report against the rules and returns the reason as it will be
/// stored: trimmed.
pub fn validate_report<'a>(state: &AppState, payload: &'a ReportPasteRequest) -> (checked: Result<
    &'a str,
    ReportError,
>)
    ensures
        match report_validation(state, payload.decryption_key@, payload.reason@) {
            Some(e) => checked == Err::<&str, ReportError>(e),
            None => checked is Ok && checked->Ok_0@ == trimmed(payload.reason@),
        },
{
    if !state.reports_enabled {
        return Err(ReportError::Disabled);
    }
    let decryption_key = trim_text(payload.decryption_key.as_str());
    let report_reason = trim_text(payload.reason.as_str());
    if decryption_key.is_empty() {
        return Err(ReportError::EmptyDecryptionKey);
    }
    if report_reason.len() < state.reports_min_length {
        return Err(ReportError::ReasonTooShort);
    }
    Ok(report_reason)
}

/// The number of pages that `total` items fill at `per_page` items a page.
pub open spec fn page_count(total: int, per_page: int) -> int
    recommends
        total >= 0,
        per_page > 0,
{
    if total % per_page == 0 {
        total / per_page
    } else {
        total / per_page + 1
    }
}

/// Where a page starts: the number of items on the pages before it.
pub open spec fn page_start(page: int, per_page: int) -> int {
    (page - 1) * per_page
}

/// The part of `total` items that a page shows, as a half-open range. A
/// start before the first item counts as the first item, one past the last
/// as the end.
pub open spec fn page_window(total: int, page: int, per_page: int) -> (int, int) {
    let start = page_start(page, per_page);
    let lo = if start < 0 {
        0
    } else if start < total {
        start
    } else {
        total
    };
    let hi = if lo + per_page < total {
        lo + per_page
    } else {
        total
    };
    (lo, hi)
}

/// The number of pages, rounded up.
pub fn count_pages(total: i64, per_page: i64) -> (pages: i64)
    requires
        total >= 0,
        per_page > 0,
    ensures
        pages == page_count(total as int, per_page as int),
        0 <= pages <= total,
        (pages - 1) * per_page < total <= pages * per_page,
{
    let whole: i64 = total / per_page;
    let rest: i64 = total % per_page;
    assert(total == whole * per_page + rest && 0 <= whole <= total) by (nonlinear_arith)
        requires
            total >= 0,
            per_page > 0,
            whole == total / per_page,
            rest == total % per_page,
    ;
    assert((whole + 1 - 1) * per_page == whole * per_page && (whole - 1) * per_page == whole
        * per_page - per_page && (whole + 1) * per_page == whole * per_page + per_page)
        by (nonlinear_arith);
    if rest == 0 {
        whole
    } else {
        assert(whole < total) by (nonlinear_arith)
            requires
                total == whole * per_page + rest,
                rest > 0,
                per_page > 0,
                whole >= 0,
                rest < per_page,
        ;
        whole + 1
    }
}

/// The offset of a page, where it fits the machine's integers.
pub fn page_offset(page: i64, per_page: i64) -> (offset: Option<i64>)
    ensures
        match offset {
            Some(at) => at == page_start(page as int, per_page as int),
            None => page_start(page as int, per_page as int) < i64::MIN || page_start(
                page as int,
                per_page as int,
            ) > i64::MAX,
        },
{
    let pages_before: i128 = page as i128 - 1;
    let size: i128 = per_page as i128;
    assert(-0x4000_0000_0000_0000_8000_0000_0000_0000 <= pages_before * size
        <= 0x4000_0000_0000_0000_8000_0000_0000_0000) by (nonlinear_arith)
        requires
            -0x8000_0000_0000_0001 <= pages_before <= 0x7fff_ffff_ffff_fffe,
            -0x8000_0000_0000_0000 <= size <= 0x7fff_ffff_ffff_ffff,
    ;
    let wide: i128 = pages_before * size;
    if wide < (i64::MIN as i128) || wide > (i64::MAX as i128) {
        None
    } else {
        Some(wide as i64)
    }
}

/// What the store is asked for a page.
#[derive(Clone, Copy, Debug, PartialEq, Eq, Structural)]
pub enum PageFetch {
    /// Up to `limit` rows, newest first, after skipping `offset` rows.
    Rows { limit: i64, offset: i64 },
    /// No row: the page starts beyond any row that a store can hold.
    Nothing,
}

/// The statement for a page: a start before the first row is the first
/// row; a start beyond the machine's integers shows nothing.
pub open spec fn page_fetch(page: i64, per_page: i64) -> PageFetch {
    let start = page_start(page as int, per_page as int);
    if start > i64::MAX {
        PageFetch::Nothing
    } else if start < 0 {
        PageFetch::Rows { limit: per_page, offset: 0 }
    } else {
        PageFetch::Rows { limit: per_page, offset: start as i64 }
    }
}

/// Decides what to ask the store for a page.
pub fn plan_page(page: i64, per_page: i64) -> (fetch: PageFetch)
    ensures
        fetch == page_fetch(page, per_page),
{
    match page_offset(page, per_page) {
        Some(offset) => {
            if offset < 0 {
                PageFetch::Rows { limit: per_page, offset: 0 }
            } else {
                PageFetch::Rows { limit: per_page, offset }
            }
        },
        None => {
            let first: i128 = page as i128 - 1;
            let size: i128 = per_page as i128;
            assert(first * size > 0 <==> (first > 0 && size > 0) || (first < 0 && size < 0))
                by (nonlinear_arith);
            if (page > 1 && per_page > 0) || (page < 1 && per_page < 0) {
                PageFetch::Nothing
            } else {
                PageFetch::Rows { limit: per_page, offset: 0 }
            }
        },
    }
}

/// What a page fetch returns from a store of `total` rows is the page's
/// window: the rows from the offset on, at most `limit` of them.
pub proof fn lemma_fetch_is_the_window(total: int, page: i64, per_page: i64)
    requires
        0 <= total <= i64::MAX,
        per_page > 0,
    ensures
        ({
            let (lo, hi) = page_window(total, page as int, per_page as int);
            match page_fetch(page, per_page) {
                PageFetch::Rows { limit, offset } => limit == per_page && lo == (if offset
                    < total {
                    offset as int
                } else {
                    total
                }) && hi == (if lo + limit < total {
                    lo + limit
                } else {
                    total
                }),
                PageFetch::Nothing => lo == total && hi == total,
            }
        }),
{
}

struct StoredReport {
    id: i64,
    paste_id: String,
    decryption_key: String,
    reason: String,
    created_at: i64,
}

impl View for StoredReport {
    type V = ReportRecord;

    closed spec fn view(&self) -> ReportRecord {
        ReportRecord {
            id: self.id,
            paste_id: self.paste_id@,
            decryption_key: self.decryption_key@,
            reason: self.reason@,
            created_at: self.created_at,
        }
    }
}

impl View for ListReportsItem {
    type V = ReportRecord;

    open spec fn view(&self) -> ReportRecord {
        ReportRecord {
            id: self.id,
            paste_id: self.paste_id@,
            decryption_key: self.decryption_key@,
            reason: self.reason@,
            created_at: self.created_at,
        }
    }
}

impl StoredReport {
    fn item(&self) -> (item: ListReportsItem)
        ensures
            item@ == self@,
    {
        ListReportsItem {
            id: self.id,
            paste_id: self.paste_id.clone(),
            decryption_key: self.decryption_key.clone(),
            reason: self.reason.clone(),
            created_at: self.created_at,
        }
    }
}

spec fn reports_view(rows: Seq<StoredReport>) -> Seq<ReportRecord> {
    Seq::new(rows.len(), |i: int| rows[i]@)
}

/// The items of a response, as mathematical values.
pub open spec fn items_view(items: Seq<ListReportsItem>) -> Seq<ReportRecord> {
    Seq::new(items.len(), |i: int| items[i]@)
}

/// Newest first: no row is older than a row that follows it.
pub open spec fn newest_first(rows: Seq<ReportRecord>) -> bool {
    forall|i: int, j: int|
        0 <= i < j < rows.len() ==> (#[trigger] rows[i]).created_at >= (#[trigger] rows[j]).created_at
}

/// Ids are positive, below the next id to hand out, and no two rows share
/// one.
pub open spec fn ids_in_use(rows: Seq<ReportRecord>, next_id: int) -> bool {
    &&& forall|i: int| 0 <= i < rows.len() ==> 0 < (#[trigger] rows[i]).id < next_id
    &&& forall|i: int, j: int|
        0 <= i < j < rows.len() ==> (#[trigger] rows[i]).id != (#[trigger] rows[j]).id
}

/// The number of rows at the head of the list that are strictly newer than
/// `now`: the place where a report made at `now` is inserted.
pub open spec fn newer_prefix(rows: Seq<ReportRecord>, now: i64) -> int
    decreases rows.len(),
{
    if rows.len() > 0 && rows.first().created_at > now {
        1 + newer_prefix(rows.drop_first(), now)
    } else {
        0
    }
}

pub open spec fn has_report(rows: Seq<ReportRecord>, id: i64) -> bool {
    exists|i: int| 0 <= i < rows.len() && (#[trigger] rows[i]).id == id
}

/// How filing a report at `now` relates the registry before and after to
/// the answer.
pub open spec fn filing(
    state: &AppState,
    paste_id: Seq<char>,
    decryption_key: Seq<char>,
    reason: Seq<char>,
    now: i64,
    before: Seq<ReportRecord>,
    next_before: int,
    after: Seq<ReportRecord>,
    next_after: int,
    answer: Result<i64, ReportError>,
) -> bool {
    match report_validation(state, decryption_key, reason) {
        Some(e) => answer == Err::<i64, ReportError>(e) && after == before && next_after
            == next_before,
        None => if next_before == i64::MAX {
            answer == Err::<i64, ReportError>(ReportError::Storage) && after == before
                && next_after == next_before
        } else {
            answer == Ok::<i64, ReportError>(next_before as i64) && next_after == next_before + 1
                && after == before.insert(
                newer_prefix(before, now),
                ReportRecord {
                    id: next_before as i64,
                    paste_id,
                    decryption_key,
                    reason: trimmed(reason),
                    created_at: now,
                },
            )
        },
    }
}

/// Inserting a row with the next id at the place its time gives it keeps
/// the ids distinct and the list newest first.
pub proof fn lemma_insert_keeps_order(
    before: Seq<ReportRecord>,
    at: int,
    record: ReportRecord,
    next_id: int,
)
    requires
        ids_in_use(before, next_id),
        newest_first(before),
        0 <= at <= before.len(),
        record.id == next_id,
        next_id >= 1,
        at == newer_prefix(before, record.created_at),
        forall|j: int| 0 <= j < at ==> (#[trigger] before[j]).created_at > record.created_at,
        at < before.len() ==> before[at].created_at <= record.created_at,
    ensures
        ids_in_use(before.insert(at, record), next_id + 1),
        newest_first(before.insert(at, record)),
{
    let after = before.insert(at, record);
    assert forall|i: int| 0 <= i < after.len() implies 0 < (#[trigger] after[i]).id < next_id
        + 1 by {
        if i < at {
            assert(after[i] == before[i]);
        } else if i > at {
            assert(after[i] == before[i - 1]);
        }
    }
    assert forall|i: int, j: int| 0 <= i < j < after.len() implies (#[trigger] after[i]).id
        != (#[trigger] after[j]).id && after[i].created_at >= after[j].created_at by {
        let a = if i < at { i } else { i - 1 };
        let b = if j < at { j } else { j - 1 };
        if i != at {
            assert(after[i] == before[a]);
        }
        if j != at {
            assert(after[j] == before[b]);
        }
        if i != at && j != at {
            assert(before[a].id != before[b].id);
            assert(before[a].created_at >= before[b].created_at);
        }
        if i == at {
            assert(before[at].created_at <= record.created_at);
            if b > at {
                assert(before[at].created_at >= before[b].created_at);
            }
        }
    }
}

/// Removing a row keeps the ids distinct and the list newest first, and
/// leaves no row with the removed id.
pub proof fn lemma_remove_keeps_order(before: Seq<ReportRecord>, at: int, next_id: int)
    requires
        ids_in_use(before, next_id),
        newest_first(before),
        0 <= at < before.len(),
    ensures
        ids_in_use(before.remove(at), next_id),
        newest_first(before.remove(at)),
        !has_report(before.remove(at), before[at].id),
        forall|k: int| 0 <= k < before.len() && (#[trigger] before[k]).id == before[at].id ==> k == at,
{
    let after = before.remove(at);
    assert forall|k: int| 0 <= k < before.len() && (#[trigger] before[k]).id
        == before[at].id implies k == at by {
        if k < at {
            assert(before[k].id != before[at].id);
        } else if k > at {
            assert(before[at].id != before[k].id);
        }
    }
    assert forall|a: int| 0 <= a < after.len() implies 0 < (#[trigger] after[a]).id < next_id
        && after[a].id != before[at].id by {
        let b = if a < at { a } else { a + 1 };
        assert(after[a] == before[b]);
    }
    assert forall|a: int, c: int| 0 <= a < c < after.len() implies (#[trigger] after[a]).id
        != (#[trigger] after[c]).id && after[a].created_at >= after[c].created_at by {
        let b = if a < at { a } else { a + 1 };
        let d = if c < at { c } else { c + 1 };
        assert(after[a] == before[b]);
        assert(after[c] == before[d]);
        assert(before[b].id != before[d].id);
        assert(before[b].created_at >= before[d].created_at);
    }
}

/// The report rows, newest first, and the next id to hand out.
pub struct ReportRegistry {
    rows: Vec<StoredReport>,
    next_id: i64,
}

impl View for ReportRegistry {
    type V = Seq<ReportRecord>;

    closed spec fn view(&self) -> Seq<ReportRecord> {
        reports_view(self.rows@)
    }
}

impl ReportRegistry {
    /// The id that the next report gets.
    pub closed spec fn next_id(&self) -> int {
        self.next_id as int
    }

    /// The registry's invariant.
    pub open spec fn wf(&self) -> bool {
        &&& 1 <= self.next_id() <= i64::MAX
        &&& self@.len() < self.next_id()
        &&& ids_in_use(self@, self.next_id())
        &&& newest_first(self@)
    }

    pub fn new() -> (registry: ReportRegistry)
        ensures
            registry@ == Seq::<ReportRecord>::empty(),
            registry.next_id() == 1,
            registry.wf(),
    {
        let registry = ReportRegistry { rows: Vec::new(), next_id: 1 };
        assert(registry@ =~= Seq::<ReportRecord>::empty());
        registry
    }

    /// An empty registry whose ids go on from `next_id`, or from 1 where
    /// that is lower.
    pub fn starting_at(next_id: i64) -> (registry: ReportRegistry)
        ensures
            registry@ == Seq::<ReportRecord>::empty(),
            registry.next_id() == if next_id < 1 {
                1
            } else {
                next_id as int
            },
            registry.wf(),
    {
        let first: i64 = if next_id < 1 {
            1
        } else {
            next_id
        };
        let registry = ReportRegistry { rows: Vec::new(), next_id: first };
        assert(registry@ =~= Seq::<ReportRecord>::empty());
        registry
    }

    pub fn len(&self) -> (n: usize)
        ensures
            n == self@.len(),
    {
        self.rows.len()
    }

    /// Files a report made at `now` against `paste_id`, which is not looked
    /// up. The reason is stored trimmed, the decryption key as submitted.
    /// The new row gets the next id and goes in front of every row that is
    /// not newer.
    pub fn create_report(
        &mut self,
        state: &AppState,
        paste_id: &str,
        payload: &ReportPasteRequest,
        now: i64,
    ) -> (answer: Result<i64, ReportError>)
        requires
            old(self).wf(),
        ensures
            final(self).wf(),
            filing(
                state,
                paste_id@,
                payload.decryption_key@,
                payload.reason@,
                now,
                old(self)@,
                old(self).next_id(),
                final(self)@,
                final(self).next_id(),
                answer,
            ),
            answer is Ok ==> has_report(final(self)@, answer->Ok_0) && final(self)@.len()
                == old(self)@.len() + 1,
    {
        let reason = match validate_report(state, payload) {
            Err(e) => {
                return Err(e);
            },
            Ok(reason) => reason,
        };
        if self.next_id == i64::MAX {
            return Err(ReportError::Storage);
        }
        let ghost before = self@;
        let mut at: usize = 0;
        assert(before.skip(0) =~= before);
        while at < self.rows.len() && self.rows[at].created_at > now
            invariant
                0 <= at <= self.rows.len(),
                self@ == before,
                newer_prefix(before, now) == at + newer_prefix(before.skip(at as int), now),
                forall|j: int| 0 <= j < at ==> (#[trigger] before[j]).created_at > now,
            decreases self.rows.len() - at,
        {
            proof {
                let tail = before.skip(at as int);
                assert(tail.first() == before[at as int]);
                assert(tail.drop_first() =~= before.skip(at + 1));
            }
            at += 1;
        }
        proof {
            let tail = before.skip(at as int);
            if at < before.len() {
                assert(tail.first() == before[at as int]);
            }
            assert(newer_prefix(before, now) == at);
        }
        let id = self.next_id;
        let row = StoredReport {
            id,
            paste_id: paste_id.to_owned(),
            decryption_key: payload.decryption_key.clone(),
            reason: reason.to_owned(),
            created_at: now,
        };
        let ghost record = row@;
        self.rows.insert(at, row);
        self.next_id = id + 1;
        proof {
            assert(self@ =~= before.insert(at as int, record));
            lemma_insert_keeps_order(before, at as int, record, id as int);
            assert(self@[at as int].id == id);
        }
        Ok(id)
    }

    /// One page of the list, newest first, with the totals. The page
    /// number is not bounded: a page below the first shows what the first
    /// shows, a page beyond the last shows nothing.
    pub fn list(&self, page: i64, per_page: i64) -> (response: ListReportsResponse)
        requires
            self.wf(),
            per_page > 0,
        ensures
            response.total == self@.len(),
            response.page == page,
            response.pages == page_count(self@.len() as int, per_page as int),
            response.reports@.len() == page_window(self@.len() as int, page as int, per_page as int).1
                - page_window(self@.len() as int, page as int, per_page as int).0,
            items_view(response.reports@) == self@.subrange(
                page_window(self@.len() as int, page as int, per_page as int).0,
                page_window(self@.len() as int, page as int, per_page as int).1,
            ),
    {
        let total: usize = self.rows.len();
        let pages_before: i128 = page as i128 - 1;
        let size: i128 = per_page as i128;
        assert(-0x4000_0000_0000_0000_8000_0000_0000_0000 <= pages_before * size
            <= 0x4000_0000_0000_0000_8000_0000_0000_0000) by (nonlinear_arith)
            requires
                -0x8000_0000_0000_0001 <= pages_before <= 0x7fff_ffff_ffff_fffe,
                0 < size <= 0x7fff_ffff_ffff_ffff,
        ;
        let start: i128 = pages_before * size;
        assert(start == page_start(page as int, per_page as int));
        let lo: usize = if start < 0 {
            0
        } else if start < (total as i128) {
            start as usize
        } else {
            total
        };
        let hi: usize = if (lo as i128) + (per_page as i128) < (total as i128) {
            lo + (per_page as usize)
        } else {
            total
        };
        let mut reports: Vec<ListReportsItem> = Vec::new();
        let mut i: usize = lo;
        assert(items_view(reports@) =~= self@.subrange(lo as int, lo as int));
        while i < hi
            invariant
                lo <= i <= hi <= self.rows.len(),
                self@.len() == self.rows.len(),
                reports@.len() == i - lo,
                items_view(reports@) == self@.subrange(lo as int, i as int),
            decreases hi - i,
        {
            let item = self.rows[i].item();
            let ghost old_items = reports@;
            let ghost shown = items_view(reports@);
            let ghost record = item@;
            reports.push(item);
            proof {
                assert(self@[i as int] == record);
                assert forall|k: int| 0 <= k < i + 1 - lo implies items_view(reports@)[k]
                    == self@.subrange(lo as int, i + 1)[k] by {
                    if k < i - lo {
                        assert(shown[k] == self@.subrange(lo as int, i as int)[k]);
                        assert(reports@[k] == old_items[k]);
                    } else {
                        assert(reports@[k]@ == record);
                    }
                }
                assert(items_view(reports@) =~= self@.subrange(lo as int, i + 1));
            }
            i += 1;
        }
        ListReportsResponse {
            total: total as i64,
            page,
            pages: count_pages(total as i64, per_page),
            reports,
        }
    }

    /// Reads a report by id.
    pub fn get(&self, id: i64) -> (answer: Option<ListReportsItem>)
        ensures
            answer is Some <==> has_report(self@, id),
            answer is Some ==> answer->Some_0.id == id && self@.contains(answer->Some_0@),
    {
        let mut i: usize = 0;
        while i < self.rows.len()
            invariant
                0 <= i <= self.rows.len(),
                forall|j: int| 0 <= j < i ==> (#[trigger] self@[j]).id != id,
            decreases self.rows.len() - i,
        {
            if self.rows[i].id == id {
                assert(self@[i as int].id == id);
                return Some(self.rows[i].item());
            }
            i += 1;
        }
        None
    }

    /// Deletes a report by id. The other rows keep their order.
    pub fn delete(&mut self, id: i64) -> (outcome: Deletion)
        requires
            old(self).wf(),
        ensures
            final(self).wf(),
            final(self).next_id() == old(self).next_id(),
            outcome == if has_report(old(self)@, id) {
                Deletion::Deleted
            } else {
                Deletion::NotFound
            },
            !has_report(old(self)@, id) ==> final(self)@ == old(self)@,
            forall|k: int|
                0 <= k < old(self)@.len() && (#[trigger] old(self)@[k]).id == id ==> final(self)@
                    == old(self)@.remove(k),
            !has_report(final(self)@, id),
    {
        let ghost before = self@;
        let mut i: usize = 0;
        while i < self.rows.len()
            invariant
                0 <= i <= self.rows.len(),
                self@ == before,
                *self == *old(self),
                self.wf(),
                forall|j: int| 0 <= j < i ==> (#[trigger] before[j]).id != id,
            decreases self.rows.len() - i,
        {
            if self.rows[i].id == id {
                assert(before[i as int].id == id);
                self.rows.remove(i);
                proof {
                    assert(self@ =~= before.remove(i as int));
                    lemma_remove_keeps_order(before, i as int, self.next_id());
                }
                return Deletion::Deleted;
            }
            i += 1;
        }
        Deletion::NotFound
    }
}

/// Dropping the last character never lengthens the UTF-8 encoding.
proof fn lemma_drop_last_encoding(text: Seq<char>)
    requires
        text.len() > 0,
    ensures
        encode_utf8(text.drop_last()).len() <= encode_utf8(text).len(),
    decreases text.len(),
{
    if text.len() > 1 {
        let tail = text.drop_first();
        lemma_drop_last_encoding(tail);
        assert(text.drop_last().drop_first() =~= tail.drop_last());
        assert(text.drop_last()[0] == text[0]);
    } else {
        assert(text.drop_last() =~= Seq::<char>::empty());
    }
}

/// Trimming never lengthens a text, counted in characters or in bytes.
pub proof fn lemma_trimming_never_lengthens(text: Seq<char>)
    ensures
        trimmed(text).len() <= text.len(),
        encode_utf8(trimmed(text)).len() <= encode_utf8(text).len(),
{
    lemma_trim_start_never_lengthens(text);
    lemma_trim_end_never_lengthens(trim_start(text));
}

proof fn lemma_trim_start_never_lengthens(text: Seq<char>)
    ensures
        trim_start(text).len() <= text.len(),
        encode_utf8(trim_start(text)).len() <= encode_utf8(text).len(),
    decreases text.len(),
{
    if text.len() > 0 && is_whitespace(text.first()) {
        lemma_trim_start_never_lengthens(text.drop_first());
    }
}

proof fn lemma_trim_end_never_lengthens(text: Seq<char>)
    ensures
        trim_end(text).len() <= text.len(),
        encode_utf8(trim_end(text)).len() <= encode_utf8(text).len(),
    decreases text.len(),
{
    if text.len() > 0 && is_whitespace(text.last()) {
        lemma_trim_end_never_lengthens(text.drop_last());
        lemma_drop_last_encoding(text);
    }
}

/// With reporting switched off every report is refused as disabled,
/// whatever it holds; with reporting on, one whose reason is shorter than
/// the configured minimum, as submitted or once trimmed, is refused as
/// invalid: for its reason, or, where the trimmed decryption key is empty
/// too, for that. Either way the registry stays as it was.
pub proof fn lemma_disabled_or_short_report_is_refused(
    state: &AppState,
    paste_id: Seq<char>,
    decryption_key: Seq<char>,
    reason: Seq<char>,
    now: i64,
    before: Seq<ReportRecord>,
    next_before: int,
    after: Seq<ReportRecord>,
    next_after: int,
    answer: Result<i64, ReportError>,
)
    requires
        filing(
            state,
            paste_id,
            decryption_key,
            reason,
            now,
            before,
            next_before,
            after,
            next_after,
            answer,
        ),
        !state.reports_enabled || (encode_utf8(trimmed(reason)).len() as usize)
            < state.reports_min_length || encode_utf8(reason).len() < state.reports_min_length,
    ensures
        answer is Err,
        !state.reports_enabled ==> answer == Err::<i64, ReportError>(ReportError::Disabled),
        state.reports_enabled ==> answer == Err::<i64, ReportError>(
            if trimmed(decryption_key).len() == 0 {
                ReportError::EmptyDecryptionKey
            } else {
                ReportError::ReasonTooShort
            },
        ),
        after == before,
        next_after == next_before,
{
    lemma_trimming_never_lengthens(reason);
}

/// The number of pages is the least number that holds every item: none
/// for no items, and otherwise the last page is the first that reaches the
/// total.
pub proof fn lemma_page_count_is_least(total: int, per_page: int)
    requires
        total >= 0,
        per_page > 0,
    ensures
        page_count(total, per_page) >= 0,
        page_count(total, per_page) == 0 <==> total == 0,
        (page_count(total, per_page) - 1) * per_page < total <= page_count(total, per_page)
            * per_page,
{
    let whole = total / per_page;
    let rest = total % per_page;
    assert(total == whole * per_page + rest && 0 <= rest < per_page && whole >= 0)
        by (nonlinear_arith)
        requires
            total >= 0,
            per_page > 0,
            whole == total / per_page,
            rest == total % per_page,
    ;
    assert((whole - 1) * per_page == whole * per_page - per_page && (whole + 1) * per_page == whole
        * per_page + per_page && (whole + 1 - 1) * per_page == whole * per_page)
        by (nonlinear_arith);
    if whole == 0 {
        assert(whole * per_page == 0) by (nonlinear_arith)
            requires
                whole == 0,
        ;
    } else {
        assert(whole * per_page >= per_page) by (nonlinear_arith)
            requires
                whole >= 1,
                per_page > 0,
        ;
    }
}

/// The pages split the list: each page up to the last shows the items from
/// its start on, `per_page` of them or, on the last page, those that are
/// left, and at least one; a page beyond the last shows none.
pub proof fn lemma_pages_split_the_list(total: int, page: int, per_page: int)
    requires
        total >= 0,
        per_page > 0,
        page >= 1,
    ensures
        ({
            let pages = page_count(total, per_page);
            let (lo, hi) = page_window(total, page, per_page);
            &&& page < pages ==> lo == page_start(page, per_page) && hi - lo == per_page
            &&& page == pages ==> lo == page_start(page, per_page) && hi == total && 0 < hi - lo
                <= per_page
            &&& page > pages ==> lo == hi
        }),
{
    lemma_page_count_is_least(total, per_page);
    let pages = page_count(total, per_page);
    if page < pages {
        assert(page * per_page <= (pages - 1) * per_page) by (nonlinear_arith)
            requires
                page <= pages - 1,
                per_page > 0,
        ;
        assert((page - 1) * per_page + per_page == page * per_page) by (nonlinear_arith);
    } else if page == pages {
        assert((page - 1) * per_page + per_page == page * per_page) by (nonlinear_arith);
    } else {
        assert((page - 1) * per_page >= pages * per_page) by (nonlinear_arith)
            requires
                page - 1 >= pages,
                per_page > 0,
        ;
    }
}

} // verus!
