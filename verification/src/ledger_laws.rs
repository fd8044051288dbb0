//! What the statements on the usage table promise together: recording usage
//! adds exactly that usage to every range that holds the day, a cleanup never
//! touches the days it keeps, and a period's totals are the sums of its daily
//! rows.
use crate::date_text::{lemma_text_le_transitive, text_le};
use crate::ledger::{
    after_recording, before_cutoff, date_position, dates_distinct, downloaded_sum, fresh_record,
    has_date, merged_record,
    in_window, lists_newest_first, merge_fits, not_before_cutoff, recorded_on, rows_between,
    rows_where, uploaded_sum, within, LogRecord, NetworkLog, LedgerError,
};
use vstd::prelude::*;

verus! {

proof fn lemma_rows_where_push(s: Seq<LogRecord>, x: LogRecord, keep: spec_fn(LogRecord) -> bool)
    ensures
        rows_where(s.push(x), keep) == (if keep(x) {
            rows_where(s, keep).push(x)
        } else {
            rows_where(s, keep)
        }),
{
    assert(s.push(x).drop_last() =~= s);
}

proof fn lemma_rows_where_update(
    s: Seq<LogRecord>,
    i: int,
    x: LogRecord,
    keep: spec_fn(LogRecord) -> bool,
)
    requires
        0 <= i < s.len(),
        keep(x) == keep(s[i]),
    ensures
        rows_where(s.update(i, x), keep).len() == rows_where(s, keep).len(),
        uploaded_sum(rows_where(s.update(i, x), keep)) == uploaded_sum(rows_where(s, keep)) + (if keep(
            x,
        ) {
            x.uploaded_bytes - s[i].uploaded_bytes
        } else {
            0
        }),
        downloaded_sum(rows_where(s.update(i, x), keep)) == downloaded_sum(rows_where(s, keep)) + (
        if keep(x) {
            x.downloaded_bytes - s[i].downloaded_bytes
        } else {
            0
        }),
    decreases s.len(),
{
    let t = s.update(i, x);
    if i == s.len() - 1 {
        assert(t.drop_last() =~= s.drop_last());
        let rest = rows_where(s.drop_last(), keep);
        if keep(x) {
            assert(rest.push(x).drop_last() =~= rest);
            assert(rest.push(s[i]).drop_last() =~= rest);
        }
    } else {
        assert(t.drop_last() =~= s.drop_last().update(i, x));
        lemma_rows_where_update(s.drop_last(), i, x, keep);
        let rest_s = rows_where(s.drop_last(), keep);
        let rest_t = rows_where(t.drop_last(), keep);
        if keep(s.last()) {
            assert(rest_s.push(s.last()).drop_last() =~= rest_s);
            assert(rest_t.push(s.last()).drop_last() =~= rest_t);
        }
    }
}

/// Recording usage on a day adds exactly that usage to the totals of every
/// range of days that holds the day, leaves the totals of every other range
/// as they were, and adds a day to the count only where the day had no row.
pub proof fn lemma_recording_adds_to_totals(
    s: Seq<LogRecord>,
    date: Seq<char>,
    up: i64,
    down: i64,
    now: Seq<char>,
    start: Seq<char>,
    end: Seq<char>,
)
    requires
        merge_fits(s, date, up, down),
    ensures
        ({
            let before = rows_between(s, start, end);
            let after = rows_between(after_recording(s, date, up, down, now), start, end);
            &&& uploaded_sum(after) == uploaded_sum(before) + (if within(date, start, end) {
                up as int
            } else {
                0
            })
            &&& downloaded_sum(after) == downloaded_sum(before) + (if within(date, start, end) {
                down as int
            } else {
                0
            })
            &&& after.len() == before.len() + (if within(date, start, end) && !has_date(s, date) {
                1int
            } else {
                0
            })
        }),
{
    let keep = in_window(start, end);
    if has_date(s, date) {
        let i = date_position(s, date);
        let x = after_recording(s, date, up, down, now)[i];
        lemma_rows_where_update(s, i, x, keep);
    } else {
        let x = after_recording(s, date, up, down, now).last();
        lemma_rows_where_push(s, x, keep);
        if keep(x) {
            let b = rows_between(s, start, end);
            assert(b.push(x).drop_last() =~= b);
        }
    }
}

/// A cleanup with a given cutoff leaves every range that starts at or after
/// the cutoff with exactly the rows, and so the totals, it had.
pub proof fn lemma_cleanup_keeps_later_ranges(
    s: Seq<LogRecord>,
    cutoff: Seq<char>,
    start: Seq<char>,
    end: Seq<char>,
)
    requires
        text_le(cutoff, start),
    ensures
        rows_between(rows_where(s, not_before_cutoff(cutoff)), start, end) == rows_between(
            s,
            start,
            end,
        ),
        uploaded_sum(rows_between(rows_where(s, not_before_cutoff(cutoff)), start, end))
            == uploaded_sum(rows_between(s, start, end)),
        downloaded_sum(rows_between(rows_where(s, not_before_cutoff(cutoff)), start, end))
            == downloaded_sum(rows_between(s, start, end)),
    decreases s.len(),
{
    if s.len() > 0 {
        lemma_cleanup_keeps_later_ranges(s.drop_last(), cutoff, start, end);
        let stays = not_before_cutoff(cutoff);
        let kept_init = rows_where(s.drop_last(), stays);
        if stays(s.last()) {
            lemma_rows_where_push(kept_init, s.last(), in_window(start, end));
        } else if within(s.last().date, start, end) {
            lemma_text_le_transitive(cutoff, start, s.last().date);
        }
    }
}

/// A cleanup splits the table: every row either stays or leaves, so the usage
/// that stays and the usage that leaves add up to the usage there was, and a
/// second cleanup with the same cutoff removes nothing.
pub proof fn lemma_cleanup_partitions(s: Seq<LogRecord>, cutoff: Seq<char>)
    ensures
        rows_where(s, not_before_cutoff(cutoff)).len() + rows_where(s, before_cutoff(cutoff)).len()
            == s.len(),
        uploaded_sum(rows_where(s, not_before_cutoff(cutoff))) + uploaded_sum(
            rows_where(s, before_cutoff(cutoff)),
        ) == uploaded_sum(s),
        downloaded_sum(rows_where(s, not_before_cutoff(cutoff))) + downloaded_sum(
            rows_where(s, before_cutoff(cutoff)),
        ) == downloaded_sum(s),
        rows_where(rows_where(s, not_before_cutoff(cutoff)), before_cutoff(cutoff)).len() == 0,
        rows_where(rows_where(s, not_before_cutoff(cutoff)), not_before_cutoff(cutoff))
            == rows_where(s, not_before_cutoff(cutoff)),
    decreases s.len(),
{
    crate::ledger::lemma_rows_where_split(s, not_before_cutoff(cutoff), before_cutoff(cutoff));
    if s.len() > 0 {
        lemma_cleanup_partitions(s.drop_last(), cutoff);
        let stays = not_before_cutoff(cutoff);
        let kept_init = rows_where(s.drop_last(), stays);
        let gone_init = rows_where(s.drop_last(), before_cutoff(cutoff));
        if stays(s.last()) {
            lemma_rows_where_push(kept_init, s.last(), before_cutoff(cutoff));
            lemma_rows_where_push(kept_init, s.last(), stays);
            assert(kept_init.push(s.last()).drop_last() =~= kept_init);
        } else {
            assert(gone_init.push(s.last()).drop_last() =~= gone_init);
        }
    }
}

proof fn lemma_sum_remove(s: Seq<LogRecord>, k: int)
    requires
        0 <= k < s.len(),
    ensures
        uploaded_sum(s) == uploaded_sum(s.remove(k)) + s[k].uploaded_bytes,
        downloaded_sum(s) == downloaded_sum(s.remove(k)) + s[k].downloaded_bytes,
    decreases s.len(),
{
    if k == s.len() - 1 {
        assert(s.remove(k) =~= s.drop_last());
    } else {
        lemma_sum_remove(s.drop_last(), k);
        assert(s.remove(k).drop_last() =~= s.drop_last().remove(k));
        assert(s.remove(k).last() == s.last());
    }
}

/// Two sequences of rows with distinct days and the same rows have the same sums.
proof fn lemma_same_rows_same_sums(a: Seq<LogRecord>, b: Seq<LogRecord>)
    requires
        dates_distinct(a),
        dates_distinct(b),
        a.len() == b.len(),
        forall|x: LogRecord| #[trigger] a.contains(x) <==> b.contains(x),
    ensures
        uploaded_sum(a) == uploaded_sum(b),
        downloaded_sum(a) == downloaded_sum(b),
    decreases b.len(),
{
    if b.len() > 0 {
        let x = b.last();
        assert(b.contains(x)) by {
            assert(b[b.len() - 1] == x);
        }
        assert(a.contains(x));
        let k = choose|k: int| 0 <= k < a.len() && a[k] == x;
        let a2 = a.remove(k);
        assert forall|m: int| 0 <= m < a2.len() implies #[trigger] a2[m] == (if m < k {
            a[m]
        } else {
            a[m + 1]
        }) by {}
        let b2 = b.drop_last();
        lemma_sum_remove(a, k);
        assert forall|y: LogRecord| #[trigger] a2.contains(y) <==> b2.contains(y) by {
            if a2.contains(y) {
                let m = choose|m: int| 0 <= m < a2.len() && a2[m] == y;
                let m0 = if m < k {
                    m
                } else {
                    m + 1
                };
                assert(a[m0] == y);
                assert(a.contains(y));
                assert(y != x) by {
                    if y == x {
                        assert(a[m0].date == a[k].date);
                    }
                }
                assert(b.contains(y));
                let n = choose|n: int| 0 <= n < b.len() && b[n] == y;
                assert(n != b.len() - 1);
                assert(b2[n] == y);
            }
            if b2.contains(y) {
                let n = choose|n: int| 0 <= n < b2.len() && b2[n] == y;
                assert(b[n] == y);
                assert(y.date != x.date);
                assert(a.contains(y));
                let m = choose|m: int| 0 <= m < a.len() && a[m] == y;
                assert(m != k);
                if m < k {
                    assert(a2[m] == y);
                } else {
                    assert(a2[m - 1] == y);
                }
            }
        }
        assert forall|i: int, j: int| 0 <= i < j < a2.len() implies a2[i].date != a2[j].date by {
            let i0 = if i < k {
                i
            } else {
                i + 1
            };
            let j0 = if j < k {
                j
            } else {
                j + 1
            };
            assert(a2[i] == a[i0]);
            assert(a2[j] == a[j0]);
        }
        lemma_same_rows_same_sums(a2, b2);
    }
}

/// The daily rows listed for a range add up to the totals of that range, and
/// there are as many of them as the range counts days.
pub proof fn lemma_daily_logs_add_up(
    listed: Seq<LogRecord>,
    s: Seq<LogRecord>,
    start: Seq<char>,
    end: Seq<char>,
)
    requires
        dates_distinct(s),
        lists_newest_first(listed, rows_between(s, start, end)),
    ensures
        uploaded_sum(listed) == uploaded_sum(rows_between(s, start, end)),
        downloaded_sum(listed) == downloaded_sum(rows_between(s, start, end)),
        listed.len() == rows_between(s, start, end).len(),
{
    crate::ledger::lemma_rows_where_distinct(s, in_window(start, end));
    lemma_same_rows_same_sums(listed, rows_between(s, start, end));
}

/// A range whose end sorts before its start holds no rows.
pub proof fn lemma_inverted_range_is_empty(s: Seq<LogRecord>, start: Seq<char>, end: Seq<char>)
    requires
        !text_le(start, end),
    ensures
        rows_between(s, start, end).len() == 0,
    decreases s.len(),
{
    if s.len() > 0 {
        lemma_inverted_range_is_empty(s.drop_last(), start, end);
        if within(s.last().date, start, end) {
            lemma_text_le_transitive(start, s.last().date, end);
        }
    }
}

/// The position of a day's row in a table with one row per day.
proof fn lemma_date_position_unique(s: Seq<LogRecord>, date: Seq<char>, i: int)
    requires
        dates_distinct(s),
        0 <= i < s.len(),
        s[i].date == date,
    ensures
        has_date(s, date),
        date_position(s, date) == i,
{
    let p = date_position(s, date);
    if p != i {
        if p < i {
            assert(s[p].date != s[i].date);
        } else {
            assert(s[i].date != s[p].date);
        }
    }
}

/// Recording usage twice on one day leaves every row with the same days, ids
/// and byte counts as recording the summed usage once, with the later update
/// time; the day has exactly one row either way. Only the creation time of a
/// day that had no row differs: it is the time of the first recording.
pub proof fn lemma_two_recordings_make_one(
    s: Seq<LogRecord>,
    date: Seq<char>,
    up1: i64,
    down1: i64,
    now1: Seq<char>,
    up2: i64,
    down2: i64,
    now2: Seq<char>,
)
    requires
        dates_distinct(s),
        merge_fits(s, date, up1, down1),
        merge_fits(after_recording(s, date, up1, down1, now1), date, up2, down2),
        i64::MIN <= up1 + up2 <= i64::MAX,
        i64::MIN <= down1 + down2 <= i64::MAX,
    ensures
        ({
            let twice = after_recording(
                after_recording(s, date, up1, down1, now1),
                date,
                up2,
                down2,
                now2,
            );
            let once = after_recording(
                s,
                date,
                (up1 + up2) as i64,
                (down1 + down2) as i64,
                now2,
            );
            &&& merge_fits(s, date, (up1 + up2) as i64, (down1 + down2) as i64)
            &&& twice.len() == once.len()
            &&& forall|i: int|
                0 <= i < twice.len() ==> {
                    &&& #[trigger] twice[i].date == once[i].date
                    &&& twice[i].id == once[i].id
                    &&& twice[i].uploaded_bytes == once[i].uploaded_bytes
                    &&& twice[i].downloaded_bytes == once[i].downloaded_bytes
                    &&& twice[i].updated_at == once[i].updated_at
                    &&& (twice[i].date != date ==> twice[i] == once[i])
                }
            &&& has_date(twice, date)
            &&& forall|i: int, j: int|
                0 <= i < j < twice.len() ==> #[trigger] twice[i].date != #[trigger] twice[j].date
        }),
{
    let first = after_recording(s, date, up1, down1, now1);
    let once = after_recording(s, date, (up1 + up2) as i64, (down1 + down2) as i64, now2);
    if has_date(s, date) {
        let i = date_position(s, date);
        assert(first[i].date == date);
        lemma_date_position_unique(first, date, i);
        assert forall|a: int, b: int| 0 <= a < b < first.len() implies first[a].date != first[b].date by {
            assert(s[a].date != s[b].date);
        }
        let twice = after_recording(first, date, up2, down2, now2);
        assert(twice =~= s.update(i, merged_record(first[i], up2, down2, now2)));
        assert(once =~= s.update(i, merged_record(s[i], (up1 + up2) as i64, (down1 + down2) as i64, now2)));
        assert(twice[i].date == date);
        assert forall|a: int, b: int| 0 <= a < b < twice.len() implies #[trigger] twice[a].date
            != #[trigger] twice[b].date by {
            assert(first[a].date != first[b].date);
        }
    } else {
        let n = s.len() as int;
        assert(first[n].date == date);
        assert forall|a: int, b: int| 0 <= a < b < first.len() implies first[a].date != first[b].date by {
            if b == n {
                assert(s[a].date != date);
            } else {
                assert(s[a].date != s[b].date);
            }
        }
        lemma_date_position_unique(first, date, n);
        let twice = after_recording(first, date, up2, down2, now2);
        assert(twice =~= s.push(merged_record(fresh_record(date, up1, down1, now1), up2, down2, now2)));
        assert(once =~= s.push(fresh_record(date, (up1 + up2) as i64, (down1 + down2) as i64, now2)));
        assert(twice[n].date == date);
        assert forall|a: int, b: int| 0 <= a < b < twice.len() implies #[trigger] twice[a].date
            != #[trigger] twice[b].date by {
            assert(first[a].date != first[b].date);
        }
    }
}

/// Two recordings that succeed on one day, as `record_usage` and the logger's
/// `log_usage` make them, leave every row with the same days, ids, byte counts
/// and update time as one recording of the summed usage with the later stamp;
/// only the creation time of a day that had no row differs.
pub proof fn lemma_two_recordings_on_one_day(
    s0: Seq<LogRecord>,
    s1: Seq<LogRecord>,
    s2: Seq<LogRecord>,
    date: Seq<char>,
    now1: Seq<char>,
    up1: i64,
    down1: i64,
    r1: Result<NetworkLog, LedgerError>,
    now2: Seq<char>,
    up2: i64,
    down2: i64,
    r2: Result<NetworkLog, LedgerError>,
)
    requires
        dates_distinct(s0),
        recorded_on(s0, s1, date, now1, up1, down1, r1),
        recorded_on(s1, s2, date, now2, up2, down2, r2),
        r1 is Ok,
        r2 is Ok,
        i64::MIN <= up1 + up2 <= i64::MAX,
        i64::MIN <= down1 + down2 <= i64::MAX,
    ensures
        ({
            let once = after_recording(
                s0,
                date,
                (up1 + up2) as i64,
                (down1 + down2) as i64,
                now2,
            );
            &&& merge_fits(s0, date, (up1 + up2) as i64, (down1 + down2) as i64)
            &&& s2.len() == once.len()
            &&& forall|i: int|
                0 <= i < s2.len() ==> {
                    &&& #[trigger] s2[i].date == once[i].date
                    &&& s2[i].id == once[i].id
                    &&& s2[i].uploaded_bytes == once[i].uploaded_bytes
                    &&& s2[i].downloaded_bytes == once[i].downloaded_bytes
                    &&& s2[i].updated_at == once[i].updated_at
                    &&& (s2[i].date != date ==> s2[i] == once[i])
                }
        }),
{
    lemma_two_recordings_make_one(s0, date, up1, down1, now1, up2, down2, now2);
}

/// The daily logs listed for a range and the statistics of the same range in a
/// table with one row per day agree: as many days, the same byte totals, and
/// every listed day inside the range.
pub proof fn lemma_daily_logs_match_stats(
    listed: Seq<LogRecord>,
    s: Seq<LogRecord>,
    start: Seq<char>,
    end: Seq<char>,
)
    requires
        dates_distinct(s),
        lists_newest_first(listed, rows_between(s, start, end)),
    ensures
        listed.len() == rows_between(s, start, end).len(),
        uploaded_sum(listed) == uploaded_sum(rows_between(s, start, end)),
        downloaded_sum(listed) == downloaded_sum(rows_between(s, start, end)),
        forall|i: int| 0 <= i < listed.len() ==> within(#[trigger] listed[i].date, start, end),
{
    lemma_daily_logs_add_up(listed, s, start, end);
    crate::ledger::lemma_rows_where_subset(s, in_window(start, end));
    assert forall|i: int| 0 <= i < listed.len() implies within(#[trigger] listed[i].date, start, end) by {
        assert(listed.contains(listed[i]));
        assert(rows_between(s, start, end).contains(listed[i]));
    }
}

} // verus!
