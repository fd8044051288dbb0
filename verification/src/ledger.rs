//! The daily usage table: one row per day, as the `network_logs` table holds it,
//! and the statements that the logger runs on it: add usage to a day, total a
//! range of days, list a range of days, delete days before a cutoff.
use crate::date_text::{
    lemma_text_le_total, lemma_text_le_transitive, text_at_most, text_le,
};
use vstd::prelude::*;

verus! {

/// Represents a single network usage log entry for a specific day.
#[derive(Debug, Clone)]
pub struct NetworkLog {
    pub id: Option<i64>,
    /// Format: YYYY-MM-DD
    pub date: String,
    pub uploaded_bytes: i64,
    pub downloaded_bytes: i64,
    pub created_at: String,
    pub updated_at: String,
}

/// The content of a log row, with its text fields as character sequences.
pub struct LogRecord {
    pub id: Option<i64>,
    pub date: Seq<char>,
    pub uploaded_bytes: i64,
    pub downloaded_bytes: i64,
    pub created_at: Seq<char>,
    pub updated_at: Seq<char>,
}

impl View for NetworkLog {
    type V = LogRecord;

    open spec fn view(&self) -> LogRecord {
        LogRecord {
            id: self.id,
            date: self.date@,
            uploaded_bytes: self.uploaded_bytes,
            downloaded_bytes: self.downloaded_bytes,
            created_at: self.created_at@,
            updated_at: self.updated_at@,
        }
    }
}

/// Why a statement on the table failed.
#[derive(Debug, Clone, Copy, PartialEq, Eq, Structural)]
pub enum LedgerError {
    /// Two rows name the same day.
    DuplicateDate,
    /// A sum of bytes, or a count of days, leaves the `i64` range.
    Overflow,
    /// The day a period or a cutoff needs could not be read off the clock.
    ClockUnavailable,
}

pub open spec fn records_of(rows: Seq<NetworkLog>) -> Seq<LogRecord> {
    rows.map_values(|r: NetworkLog| r@)
}

/// No two rows name the same day (the table's `UNIQUE` constraint on `date`).
pub open spec fn dates_distinct(s: Seq<LogRecord>) -> bool {
    forall|i: int, j: int| 0 <= i < j < s.len() ==> s[i].date != s[j].date
}

/// The rows of `s` that satisfy `keep`, in their order.
pub open spec fn rows_where(s: Seq<LogRecord>, keep: spec_fn(LogRecord) -> bool) -> Seq<LogRecord>
    decreases s.len(),
{
    if s.len() == 0 {
        Seq::empty()
    } else {
        let rest = rows_where(s.drop_last(), keep);
        if keep(s.last()) {
            rest.push(s.last())
        } else {
            rest
        }
    }
}

/// Rows kept from a sequence are rows of that sequence.
pub proof fn lemma_rows_where_subset(s: Seq<LogRecord>, keep: spec_fn(LogRecord) -> bool)
    ensures
        forall|x: LogRecord| #[trigger] rows_where(s, keep).contains(x) <==> s.contains(x) && keep(x),
        rows_where(s, keep).len() <= s.len(),
    decreases s.len(),
{
    if s.len() > 0 {
        lemma_rows_where_subset(s.drop_last(), keep);
        assert(s =~= s.drop_last().push(s.last()));
        let rest = rows_where(s.drop_last(), keep);
        let init = s.drop_last();
        let last = s.last();
        assert forall|x: LogRecord| #[trigger] rows_where(s, keep).contains(x) <==> s.contains(x)
            && keep(x) by {
            if s.contains(x) && keep(x) {
                let k = choose|k: int| 0 <= k < s.len() && s[k] == x;
                if k < s.len() - 1 {
                    assert(init[k] == x);
                    assert(init.contains(x));
                    assert(rest.contains(x));
                    let m = choose|m: int| 0 <= m < rest.len() && rest[m] == x;
                    if keep(last) {
                        assert(rest.push(last)[m] == x);
                    }
                } else {
                    assert(rest.push(last)[rest.len() as int] == x);
                }
            }
            if rows_where(s, keep).contains(x) {
                if keep(last) && x == last {
                    assert(s[s.len() - 1] == x);
                } else {
                    let m = choose|m: int|
                        0 <= m < rows_where(s, keep).len() && rows_where(s, keep)[m] == x;
                    if keep(last) {
                        if m == rest.len() {
                            assert(x == last);
                        } else {
                            assert(rest[m] == x);
                        }
                    }
                    assert(rest.contains(x));
                    let k = choose|k: int| 0 <= k < init.len() && init[k] == x;
                    assert(s[k] == x);
                }
            }
        }
    }
}

/// Rows kept from a sequence with distinct days have distinct days.
pub proof fn lemma_rows_where_distinct(s: Seq<LogRecord>, keep: spec_fn(LogRecord) -> bool)
    requires
        dates_distinct(s),
    ensures
        dates_distinct(rows_where(s, keep)),
    decreases s.len(),
{
    if s.len() > 0 {
        let init = s.drop_last();
        assert(dates_distinct(init));
        lemma_rows_where_distinct(init, keep);
        lemma_rows_where_subset(init, keep);
        let rest = rows_where(init, keep);
        if keep(s.last()) {
            assert forall|i: int, j: int|
                0 <= i < j < rest.len() + 1 implies #[trigger] rest.push(s.last())[i].date
                != #[trigger] rest.push(s.last())[j].date by {
                if j == rest.len() {
                    assert(rest.contains(rest[i]));
                    let k = choose|k: int| 0 <= k < init.len() && init[k] == rest[i];
                    assert(s[k] == init[k]);
                }
            }
        }
    }
}

/// The rows kept from a prefix are a prefix of the rows kept from the whole.
pub proof fn lemma_rows_where_prefix(s: Seq<LogRecord>, keep: spec_fn(LogRecord) -> bool, n: int)
    requires
        0 <= n <= s.len(),
    ensures
        rows_where(s.take(n), keep).len() <= rows_where(s, keep).len(),
        rows_where(s.take(n), keep) == rows_where(s, keep).take(
            rows_where(s.take(n), keep).len() as int,
        ),
    decreases s.len() - n,
{
    if n == s.len() {
        assert(s.take(n) =~= s);
        assert(rows_where(s, keep) =~= rows_where(s, keep).take(rows_where(s, keep).len() as int));
    } else {
        lemma_rows_where_prefix(s, keep, n + 1);
        assert(s.take(n + 1).drop_last() =~= s.take(n));
        let a = rows_where(s.take(n), keep);
        let b = rows_where(s.take(n + 1), keep);
        let full = rows_where(s, keep);
        assert(a =~= b.take(a.len() as int));
        assert(a =~= full.take(a.len() as int));
    }
}

/// Splitting rows by a condition and its negation accounts for every row once.
pub proof fn lemma_rows_where_split(
    s: Seq<LogRecord>,
    keep: spec_fn(LogRecord) -> bool,
    drop: spec_fn(LogRecord) -> bool,
)
    requires
        forall|r: LogRecord| #[trigger] drop(r) == !keep(r),
    ensures
        rows_where(s, keep).len() + rows_where(s, drop).len() == s.len(),
    decreases s.len(),
{
    if s.len() > 0 {
        lemma_rows_where_split(s.drop_last(), keep, drop);
        assert(drop(s.last()) == !keep(s.last()));
    }
}

/// Whether the row of `s` for `date` exists.
pub open spec fn has_date(s: Seq<LogRecord>, date: Seq<char>) -> bool {
    exists|i: int| 0 <= i < s.len() && s[i].date == date
}

/// The position of the row for `date`, where there is one.
pub open spec fn date_position(s: Seq<LogRecord>, date: Seq<char>) -> int {
    choose|i: int| 0 <= i < s.len() && s[i].date == date
}

/// The row inserted for a day that had none yet; the database assigns its id.
pub open spec fn fresh_record(date: Seq<char>, up: i64, down: i64, now: Seq<char>) -> LogRecord {
    LogRecord {
        id: None,
        date,
        uploaded_bytes: up,
        downloaded_bytes: down,
        created_at: now,
        updated_at: now,
    }
}

/// A day's row after usage was added to it: the byte counts grow, the update
/// time is replaced, the rest stays.
pub open spec fn merged_record(old: LogRecord, up: i64, down: i64, now: Seq<char>) -> LogRecord {
    LogRecord {
        uploaded_bytes: (old.uploaded_bytes + up) as i64,
        downloaded_bytes: (old.downloaded_bytes + down) as i64,
        updated_at: now,
        ..old
    }
}

/// Adding the usage to the day's row keeps its counts in the `i64` range.
pub open spec fn merge_fits(s: Seq<LogRecord>, date: Seq<char>, up: i64, down: i64) -> bool {
    has_date(s, date) ==> {
        let old = s[date_position(s, date)];
        &&& i64::MIN <= old.uploaded_bytes + up <= i64::MAX
        &&& i64::MIN <= old.downloaded_bytes + down <= i64::MAX
    }
}

/// The row that recording usage on `date` leaves for that day.
pub open spec fn recorded_row(
    s: Seq<LogRecord>,
    date: Seq<char>,
    up: i64,
    down: i64,
    now: Seq<char>,
) -> LogRecord {
    if has_date(s, date) {
        merged_record(s[date_position(s, date)], up, down, now)
    } else {
        fresh_record(date, up, down, now)
    }
}

/// The table after recording usage on `date` (insert, or update on conflict).
pub open spec fn after_recording(
    s: Seq<LogRecord>,
    date: Seq<char>,
    up: i64,
    down: i64,
    now: Seq<char>,
) -> Seq<LogRecord> {
    if has_date(s, date) {
        s.update(date_position(s, date), recorded_row(s, date, up, down, now))
    } else {
        s.push(recorded_row(s, date, up, down, now))
    }
}

/// What recording usage on `date`, stamped `now`, does to the table `before`,
/// leaving `after` and answering `r`: the row of the day grows by the bytes
/// (or is created), or, where a sum would leave the `i64` range, nothing
/// changes and the answer is `Overflow`.
pub open spec fn recorded_on(
    before: Seq<LogRecord>,
    after: Seq<LogRecord>,
    date: Seq<char>,
    now: Seq<char>,
    up: i64,
    down: i64,
    r: Result<NetworkLog, LedgerError>,
) -> bool {
    match r {
        Ok(row) => {
            &&& merge_fits(before, date, up, down)
            &&& after == after_recording(before, date, up, down, now)
            &&& row@ == recorded_row(before, date, up, down, now)
        },
        Err(e) => {
            &&& e == LedgerError::Overflow
            &&& !merge_fits(before, date, up, down)
            &&& after == before
        },
    }
}

/// The `date >= start AND date <= end` condition of the range queries.
pub open spec fn within(date: Seq<char>, start: Seq<char>, end: Seq<char>) -> bool {
    text_le(start, date) && text_le(date, end)
}

pub open spec fn in_window(start: Seq<char>, end: Seq<char>) -> spec_fn(LogRecord) -> bool {
    |r: LogRecord| within(r.date, start, end)
}

/// The rows whose day lies in `[start, end]`, in table order.
pub open spec fn rows_between(s: Seq<LogRecord>, start: Seq<char>, end: Seq<char>) -> Seq<LogRecord> {
    rows_where(s, in_window(start, end))
}

/// The `date < cutoff` condition of the cleanup statement.
pub open spec fn before_cutoff(cutoff: Seq<char>) -> spec_fn(LogRecord) -> bool {
    |r: LogRecord| !text_le(cutoff, r.date)
}

pub open spec fn not_before_cutoff(cutoff: Seq<char>) -> spec_fn(LogRecord) -> bool {
    |r: LogRecord| text_le(cutoff, r.date)
}

pub open spec fn uploaded_sum(s: Seq<LogRecord>) -> int
    decreases s.len(),
{
    if s.len() == 0 {
        0
    } else {
        uploaded_sum(s.drop_last()) + s.last().uploaded_bytes
    }
}

pub open spec fn downloaded_sum(s: Seq<LogRecord>) -> int
    decreases s.len(),
{
    if s.len() == 0 {
        0
    } else {
        downloaded_sum(s.drop_last()) + s.last().downloaded_bytes
    }
}

/// Summing the rows in order never leaves the `i64` range.
pub open spec fn sums_fit(s: Seq<LogRecord>) -> bool
    decreases s.len(),
{
    s.len() == 0 || {
        &&& sums_fit(s.drop_last())
        &&& i64::MIN <= uploaded_sum(s) <= i64::MAX
        &&& i64::MIN <= downloaded_sum(s) <= i64::MAX
    }
}

/// The totals over `s` can be computed: the sums fit and so does the count.
pub open spec fn totals_fit(s: Seq<LogRecord>) -> bool {
    sums_fit(s) && s.len() <= i64::MAX
}

pub proof fn lemma_sums_fit_prefix(s: Seq<LogRecord>, n: int)
    requires
        sums_fit(s),
        0 <= n <= s.len(),
    ensures
        sums_fit(s.take(n)),
    decreases s.len() - n,
{
    if n == s.len() {
        assert(s.take(n) =~= s);
    } else {
        lemma_sums_fit_prefix(s, n + 1);
        assert(s.take(n + 1).drop_last() =~= s.take(n));
    }
}

/// Later days come first.
pub open spec fn newest_first(s: Seq<LogRecord>) -> bool {
    forall|i: int, j: int| 0 <= i < j < s.len() ==> text_le(#[trigger] s[j].date, #[trigger] s[i].date)
}

/// `out` lists exactly the rows of `rows` (which name distinct days), latest day first.
pub open spec fn lists_newest_first(out: Seq<LogRecord>, rows: Seq<LogRecord>) -> bool {
    &&& out.len() == rows.len()
    &&& forall|x: LogRecord| #[trigger] out.contains(x) <==> rows.contains(x)
    &&& newest_first(out)
    &&& dates_distinct(out)
}

proof fn lemma_insert_newest_first(res: Seq<LogRecord>, k: int, x: LogRecord)
    requires
        newest_first(res),
        0 <= k <= res.len(),
        forall|j: int| 0 <= j < k ==> !text_le(#[trigger] res[j].date, x.date),
        k < res.len() ==> text_le(res[k].date, x.date),
    ensures
        newest_first(res.insert(k, x)),
        forall|y: LogRecord| #[trigger] res.insert(k, x).contains(y) <==> res.contains(y) || y == x,
{
    let out = res.insert(k, x);
    assert forall|j: int| 0 <= j < k implies text_le(x.date, #[trigger] res[j].date) by {
        lemma_text_le_total(x.date, res[j].date);
    }
    assert forall|j: int| k <= j < res.len() implies text_le(#[trigger] res[j].date, x.date) by {
        if j > k {
            lemma_text_le_transitive(res[j].date, res[k].date, x.date);
        }
    }
    assert forall|a: int, b: int| 0 <= a < b < out.len() implies text_le(
        #[trigger] out[b].date,
        #[trigger] out[a].date,
    ) by {
        if a < k && b == k {
        } else if a == k && b > k {
            assert(out[b] == res[b - 1]);
        } else if a < k && b > k {
            assert(out[b] == res[b - 1]);
        } else if b < k {
        } else {
            assert(out[a] == res[a - 1]);
            assert(out[b] == res[b - 1]);
        }
    }
    assert forall|y: LogRecord| #[trigger] out.contains(y) <==> res.contains(y) || y == x by {
        if out.contains(y) {
            let m = choose|m: int| 0 <= m < out.len() && out[m] == y;
            if m < k {
                assert(res[m] == y);
            } else if m > k {
                assert(res[m - 1] == y);
            }
        }
        if res.contains(y) {
            let m = choose|m: int| 0 <= m < res.len() && res[m] == y;
            if m < k {
                assert(out[m] == y);
            } else {
                assert(out[m + 1] == y);
            }
        }
        if y == x {
            assert(out[k] == y);
        }
    }
}

/// Totals of a range of days.
#[derive(Debug, Clone, Copy, PartialEq, Eq, Structural)]
pub struct UsageTotals {
    pub uploaded_bytes: i64,
    pub downloaded_bytes: i64,
    pub days: i64,
}

/// The daily usage table, one row per day.
pub struct UsageLedger {
    rows: Vec<NetworkLog>,
}

impl View for UsageLedger {
    type V = Seq<LogRecord>;

    closed spec fn view(&self) -> Seq<LogRecord> {
        records_of(self.rows@)
    }
}

/// A copy of a row.
fn copy_log(r: &NetworkLog) -> (c: NetworkLog)
    ensures
        c@ == r@,
{
    NetworkLog {
        id: r.id,
        date: r.date.clone(),
        uploaded_bytes: r.uploaded_bytes,
        downloaded_bytes: r.downloaded_bytes,
        created_at: r.created_at.clone(),
        updated_at: r.updated_at.clone(),
    }
}

impl UsageLedger {
    pub closed spec fn well_formed(&self) -> bool {
        dates_distinct(self@)
    }

    /// A well-formed table holds at most one row per day.
    pub proof fn lemma_well_formed_dates_distinct(&self)
        requires
            self.well_formed(),
        ensures
            dates_distinct(self@),
    {
    }

    /// An empty table.
    pub fn new() -> (l: UsageLedger)
        ensures
            l.well_formed(),
            l@ == Seq::<LogRecord>::empty(),
    {
        let l = UsageLedger { rows: Vec::new() };
        assert(l@ =~= Seq::<LogRecord>::empty());
        l
    }

    /// The table holding `rows`, in their order; refused where two rows name
    /// the same day.
    pub fn from_rows(rows: Vec<NetworkLog>) -> (r: Result<UsageLedger, LedgerError>)
        ensures
            match r {
                Ok(l) => l.well_formed() && l@ == records_of(rows@),
                Err(e) => e == LedgerError::DuplicateDate && !dates_distinct(records_of(rows@)),
            },
    {
        let n = rows.len();
        let mut i: usize = 0;
        while i < n
            invariant
                n == rows@.len(),
                i <= n,
                forall|a: int, b: int|
                    0 <= a < b < n && a < i ==> #[trigger] rows@[a].date@ != #[trigger] rows@[b].date@,
            decreases n - i,
        {
            let mut j: usize = i + 1;
            while j < n
                invariant
                    n == rows@.len(),
                    i < n,
                    i < j <= n,
                    forall|a: int, b: int|
                        0 <= a < b < n && a < i ==> #[trigger] rows@[a].date@
                            != #[trigger] rows@[b].date@,
                    forall|b: int| i < b < j ==> rows@[i as int].date@ != #[trigger] rows@[b].date@,
                decreases n - j,
            {
                if rows[i].date == rows[j].date {
                    proof {
                        let s = records_of(rows@);
                        assert(s[i as int].date == s[j as int].date);
                    }
                    return Err(LedgerError::DuplicateDate);
                }
                j = j + 1;
            }
            i = i + 1;
        }
        let l = UsageLedger { rows };
        proof {
            let s = records_of(l.rows@);
            assert forall|a: int, b: int| 0 <= a < b < s.len() implies s[a].date != s[b].date by {
                assert(l.rows@[a].date@ != l.rows@[b].date@);
            }
        }
        Ok(l)
    }

    /// The rows of the table, in its order.
    pub fn rows(&self) -> (r: Vec<NetworkLog>)
        ensures
            records_of(r@) == self@,
    {
        let mut out: Vec<NetworkLog> = Vec::new();
        let n = self.rows.len();
        for i in 0..n
            invariant
                n == self.rows@.len(),
                out@.len() == i,
                forall|k: int| 0 <= k < i ==> #[trigger] out@[k]@ == self.rows@[k]@,
        {
            out.push(copy_log(&self.rows[i]));
        }
        assert(records_of(out@) =~= self@);
        out
    }

    /// The position of the row for `date`, if there is one.
    fn position_of(&self, date: &String) -> (r: Option<usize>)
        requires
            self.well_formed(),
        ensures
            match r {
                Some(i) => i < self@.len() && self@[i as int].date == date@ && has_date(self@, date@)
                    && date_position(self@, date@) == i,
                None => !has_date(self@, date@),
            },
    {
        let n = self.rows.len();
        for i in 0..n
            invariant
                n == self.rows@.len(),
                self.well_formed(),
                forall|k: int| 0 <= k < i ==> self@[k].date != date@,
        {
            if self.rows[i].date == *date {
                proof {
                    assert(self@[i as int].date == date@);
                    let p = date_position(self@, date@);
                    assert(self@[p].date == date@);
                    if p != i {
                        assert(dates_distinct(self@));
                        if p < i {
                            assert(self@[p].date != self@[i as int].date);
                        } else {
                            assert(self@[i as int].date != self@[p].date);
                        }
                    }
                }
                return Some(i);
            }
        }
        None
    }

    /// Log network usage for `date`: the day's row gains `uploaded_bytes` and
    /// `downloaded_bytes` and its update time becomes `now`, or a new row is
    /// added for the day. Returns the day's row as it now stands; refused,
    /// leaving the table unchanged, where a count would leave the `i64` range.
    pub fn record_usage(
        &mut self,
        date: &String,
        uploaded_bytes: i64,
        downloaded_bytes: i64,
        now: &String,
    ) -> (r: Result<NetworkLog, LedgerError>)
        requires
            old(self).well_formed(),
        ensures
            final(self).well_formed(),
            recorded_on(old(self)@, final(self)@, date@, now@, uploaded_bytes, downloaded_bytes, r),
    {
        match self.position_of(date) {
            Some(i) => {
                let up = self.rows[i].uploaded_bytes.checked_add(uploaded_bytes);
                let down = self.rows[i].downloaded_bytes.checked_add(downloaded_bytes);
                match (up, down) {
                    (Some(up), Some(down)) => {
                        let old_row = &self.rows[i];
                        let row = NetworkLog {
                            id: old_row.id,
                            date: old_row.date.clone(),
                            uploaded_bytes: up,
                            downloaded_bytes: down,
                            created_at: old_row.created_at.clone(),
                            updated_at: now.clone(),
                        };
                        let stored = copy_log(&row);
                        let ghost before = self@;
                        self.rows.set(i, stored);
                        proof {
                            assert(self@ =~= before.update(i as int, row@));
                            assert forall|a: int, b: int|
                                0 <= a < b < self@.len() implies self@[a].date
                                != self@[b].date by {
                                assert(before[a].date != before[b].date);
                            }
                        }
                        Ok(row)
                    },
                    _ => Err(LedgerError::Overflow),
                }
            },
            None => {
                let row = NetworkLog {
                    id: None,
                    date: date.clone(),
                    uploaded_bytes,
                    downloaded_bytes,
                    created_at: now.clone(),
                    updated_at: now.clone(),
                };
                let stored = copy_log(&row);
                let ghost before = self@;
                self.rows.push(stored);
                proof {
                    assert(self@ =~= before.push(row@));
                    assert forall|a: int, b: int|
                        0 <= a < b < self@.len() implies self@[a].date != self@[b].date by {
                        if b == before.len() {
                            assert(before[a].date != date@);
                        } else {
                            assert(before[a].date != before[b].date);
                        }
                    }
                }
                Ok(row)
            },
        }
    }

    /// `SELECT COALESCE(SUM(uploaded_bytes), 0), COALESCE(SUM(downloaded_bytes),
    /// 0), COUNT(*) ... WHERE date >= start AND date <= end`; refused where a sum
    /// leaves the `i64` range (the database's integer overflow).
    pub fn totals_between(&self, start: &str, end: &str) -> (r: Result<UsageTotals, LedgerError>)
        ensures
            match r {
                Ok(t) => {
                    let rows = rows_between(self@, start@, end@);
                    &&& totals_fit(rows)
                    &&& t.uploaded_bytes == uploaded_sum(rows)
                    &&& t.downloaded_bytes == downloaded_sum(rows)
                    &&& t.days == rows.len()
                },
                Err(e) => e == LedgerError::Overflow && !totals_fit(rows_between(self@, start@, end@)),
            },
    {
        let ghost keep = in_window(start@, end@);
        let n = self.rows.len();
        let mut up: i64 = 0;
        let mut down: i64 = 0;
        let mut days: i64 = 0;
        for i in 0..n
            invariant
                n == self.rows@.len(),
                keep == in_window(start@, end@),
                totals_fit(rows_where(self@.take(i as int), keep)),
                up == uploaded_sum(rows_where(self@.take(i as int), keep)),
                down == downloaded_sum(rows_where(self@.take(i as int), keep)),
                days == rows_where(self@.take(i as int), keep).len(),
        {
            let ghost prev = rows_where(self@.take(i as int), keep);
            proof {
                assert(self@.take(i + 1).drop_last() =~= self@.take(i as int));
                assert(self@.take(i + 1).last() == self@[i as int]);
            }
            let row = &self.rows[i];
            if text_at_most(start, row.date.as_str()) && text_at_most(row.date.as_str(), end) {
                proof {
                    assert(rows_where(self@.take(i + 1), keep) == prev.push(self@[i as int]));
                    assert(prev.push(self@[i as int]).drop_last() =~= prev);
                }
                let next_up = up.checked_add(row.uploaded_bytes);
                let next_down = down.checked_add(row.downloaded_bytes);
                let next_days = days.checked_add(1);
                match (next_up, next_down, next_days) {
                    (Some(u), Some(d), Some(c)) => {
                        up = u;
                        down = d;
                        days = c;
                    },
                    _ => {
                        proof {
                            let full = rows_between(self@, start@, end@);
                            lemma_rows_where_prefix(self@, keep, i + 1);
                            lemma_rows_where_subset(self@, keep);
                            let p = rows_where(self@.take(i + 1), keep);
                            if totals_fit(full) {
                                lemma_sums_fit_prefix(full, p.len() as int);
                                assert(full.take(p.len() as int) == p);
                            }
                        }
                        return Err(LedgerError::Overflow);
                    },
                }
            } else {
                proof {
                    assert(rows_where(self@.take(i + 1), keep) == prev);
                }
            }
        }
        proof {
            assert(self@.take(n as int) =~= self@);
        }
        Ok(UsageTotals { uploaded_bytes: up, downloaded_bytes: down, days })
    }

    /// `SELECT ... WHERE date >= start AND date <= end ORDER BY date DESC`: the
    /// rows of the range, latest day first.
    pub fn logs_between(&self, start: &str, end: &str) -> (r: Vec<NetworkLog>)
        requires
            self.well_formed(),
        ensures
            lists_newest_first(records_of(r@), rows_between(self@, start@, end@)),
    {
        let ghost keep = in_window(start@, end@);
        let n = self.rows.len();
        let mut out: Vec<NetworkLog> = Vec::new();
        for i in 0..n
            invariant
                n == self.rows@.len(),
                self.well_formed(),
                keep == in_window(start@, end@),
                lists_newest_first(records_of(out@), rows_where(self@.take(i as int), keep)),
        {
            let ghost prev = rows_where(self@.take(i as int), keep);
            proof {
                assert(self@.take(i + 1).drop_last() =~= self@.take(i as int));
                assert(self@.take(i + 1).last() == self@[i as int]);
            }
            let row = &self.rows[i];
            if text_at_most(start, row.date.as_str()) && text_at_most(row.date.as_str(), end) {
                let mut k: usize = 0;
                while k < out.len() && !text_at_most(out[k].date.as_str(), row.date.as_str())
                    invariant
                        k <= out@.len(),
                        forall|j: int| 0 <= j < k ==> !text_le(#[trigger] out@[j].date@, row.date@),
                    decreases out.len() - k,
                {
                    k = k + 1;
                }
                let ghost before = records_of(out@);
                proof {
                    lemma_insert_newest_first(before, k as int, row@);
                    lemma_rows_where_subset(self@.take(i as int), keep);
                    assert forall|j: int| 0 <= j < before.len() implies #[trigger] before[j].date
                        != row@.date by {
                        assert(before.contains(before[j]));
                        assert(prev.contains(before[j]));
                        let m = choose|m: int|
                            0 <= m < i && self@.take(i as int)[m] == before[j];
                        assert(self@[m].date != self@[i as int].date);
                    }
                    let ins = before.insert(k as int, row@);
                    assert forall|a: int, b: int| 0 <= a < b < ins.len() implies ins[a].date
                        != ins[b].date by {
                        if a < k && b < k {
                        } else if a < k && b == k {
                        } else if a < k {
                            assert(ins[b] == before[b - 1]);
                        } else if a == k {
                            assert(ins[b] == before[b - 1]);
                        } else {
                            assert(ins[a] == before[a - 1]);
                            assert(ins[b] == before[b - 1]);
                        }
                    }
                }
                out.insert(k, copy_log(row));
                proof {
                    assert(records_of(out@) =~= before.insert(k as int, row@));
                    let now_rows = rows_where(self@.take(i + 1), keep);
                    assert(now_rows == prev.push(self@[i as int]));
                    assert forall|x: LogRecord| #[trigger] now_rows.contains(x) <==> prev.contains(x)
                        || x == row@ by {
                        if now_rows.contains(x) {
                            let m = choose|m: int| 0 <= m < now_rows.len() && now_rows[m] == x;
                            if m < prev.len() {
                                assert(prev[m] == x);
                            }
                        }
                        if prev.contains(x) {
                            let m = choose|m: int| 0 <= m < prev.len() && prev[m] == x;
                            assert(now_rows[m] == x);
                        }
                        if x == row@ {
                            assert(now_rows[prev.len() as int] == x);
                        }
                    }
                }
            } else {
                proof {
                    assert(rows_where(self@.take(i + 1), keep) == prev);
                }
            }
        }
        proof {
            assert(self@.take(n as int) =~= self@);
        }
        out
    }

    /// `DELETE FROM network_logs WHERE date < cutoff`: the rows of days before
    /// the cutoff leave the table, the others stay in their order. Returns the
    /// rows that left, in table order.
    pub fn remove_before(&mut self, cutoff: &str) -> (r: Vec<NetworkLog>)
        requires
            old(self).well_formed(),
        ensures
            final(self).well_formed(),
            final(self)@ == rows_where(old(self)@, not_before_cutoff(cutoff@)),
            records_of(r@) == rows_where(old(self)@, before_cutoff(cutoff@)),
    {
        let ghost gone = before_cutoff(cutoff@);
        let ghost stays = not_before_cutoff(cutoff@);
        let n = self.rows.len();
        let mut kept: Vec<NetworkLog> = Vec::new();
        let mut removed: Vec<NetworkLog> = Vec::new();
        for i in 0..n
            invariant
                n == self.rows@.len(),
                gone == before_cutoff(cutoff@),
                stays == not_before_cutoff(cutoff@),
                records_of(kept@) == rows_where(self@.take(i as int), stays),
                records_of(removed@) == rows_where(self@.take(i as int), gone),
        {
            proof {
                assert(self@.take(i + 1).drop_last() =~= self@.take(i as int));
                assert(self@.take(i + 1).last() == self@[i as int]);
            }
            let ghost k0 = records_of(kept@);
            let ghost r0 = records_of(removed@);
            let row = &self.rows[i];
            if text_at_most(cutoff, row.date.as_str()) {
                kept.push(copy_log(row));
                assert(records_of(kept@) =~= k0.push(self@[i as int]));
            } else {
                removed.push(copy_log(row));
                assert(records_of(removed@) =~= r0.push(self@[i as int]));
            }
        }
        proof {
            assert(self@.take(n as int) =~= self@);
            lemma_rows_where_distinct(self@, stays);
        }
        self.rows = kept;
        removed
    }
}

} // verus!
