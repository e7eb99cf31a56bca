//! The time-clock feature: per-user timesheets of clock-in/clock-out
//! ranges, with second-granularity timestamps in seconds since the
//! Unix epoch and days counted as whole days since the epoch.

use vstd::prelude::*;
use crate::types::{UserID, ServerAction};

verus! {

/// Seconds in a day.
pub const SECS_PER_DAY: u64 = 86400;

/// The day a timestamp falls on, as whole days since the epoch.
pub open spec fn spec_day_of(t: u64) -> u64 {
    t / 86400
}

/// The day a timestamp falls on.
pub fn day_of(t: u64) -> (r: u64)
    ensures
        r == spec_day_of(t),
{
    t / SECS_PER_DAY
}

/// A clock event: when, and an optional note.
pub struct Timestamp {
    pub time: u64,
    pub note: Option<String>,
}

/// Mathematical value of a [`Timestamp`].
#[verifier::ext_equal]
pub struct TimestampV {
    pub time: u64,
    pub note: Option<Seq<char>>,
}

impl View for Timestamp {
    type V = TimestampV;

    open spec fn view(&self) -> TimestampV {
        TimestampV {
            time: self.time,
            note: match self.note {
                Some(n) => Some(n@),
                None => None,
            },
        }
    }
}

impl Clone for Timestamp {
    fn clone(&self) -> (r: Self)
        ensures
            r@ == self@,
    {
        Timestamp {
            time: self.time,
            note: match &self.note {
                Some(n) => Some(n.clone()),
                None => None,
            },
        }
    }
}

/// One completed clock-in/clock-out range.
pub struct TimeRange {
    pub id: i64,
    pub start: Timestamp,
    pub end: Timestamp,
}

/// Mathematical value of a [`TimeRange`].
#[verifier::ext_equal]
pub struct TimeRangeV {
    pub id: i64,
    pub start: TimestampV,
    pub end: TimestampV,
}

impl View for TimeRange {
    type V = TimeRangeV;

    open spec fn view(&self) -> TimeRangeV {
        TimeRangeV { id: self.id, start: self.start@, end: self.end@ }
    }
}

impl Clone for TimeRange {
    fn clone(&self) -> (r: Self)
        ensures
            r@ == self@,
    {
        TimeRange { id: self.id, start: self.start.clone(), end: self.end.clone() }
    }
}

impl TimeRange {
    /// The seconds this range spans.
    pub fn seconds(&self) -> (r: u64)
        requires
            self.start.time <= self.end.time,
        ensures
            r == self.end.time - self.start.time,
    {
        self.end.time - self.start.time
    }
}

/// View of a sequence of ranges.
pub open spec fn ranges_view(v: Seq<TimeRange>) -> Seq<TimeRangeV> {
    v.map_values(|r: TimeRange| r@)
}

/// The first range carrying this identifier, if any.
pub open spec fn find_range(rs: Seq<TimeRangeV>, id: i64) -> Option<TimeRangeV>
    decreases rs.len(),
{
    if rs.len() == 0 {
        None
    } else if rs.first().id == id {
        Some(rs.first())
    } else {
        find_range(rs.drop_first(), id)
    }
}

/// The ranges whose start falls between two days inclusive, in order.
pub open spec fn ranges_in_days(rs: Seq<TimeRangeV>, lo: u64, hi: u64) -> Seq<TimeRangeV>
    decreases rs.len(),
{
    if rs.len() == 0 {
        Seq::empty()
    } else {
        let rest = ranges_in_days(rs.drop_last(), lo, hi);
        if lo <= spec_day_of(rs.last().start.time) && spec_day_of(rs.last().start.time) <= hi {
            rest.push(rs.last())
        } else {
            rest
        }
    }
}

/// One user's timesheet: the completed ranges and the open clock-in,
/// if one is running.
pub struct TimeSheet {
    pub completed: Vec<TimeRange>,
    pub current: Option<Timestamp>,
}

/// Mathematical value of a [`TimeSheet`].
#[verifier::ext_equal]
pub struct TimeSheetV {
    pub completed: Seq<TimeRangeV>,
    pub current: Option<TimestampV>,
}

impl View for TimeSheet {
    type V = TimeSheetV;

    open spec fn view(&self) -> TimeSheetV {
        TimeSheetV {
            completed: ranges_view(self.completed@),
            current: match self.current {
                Some(t) => Some(t@),
                None => None,
            },
        }
    }
}

impl TimeSheet {
    /// The completed range carrying this identifier, if any: the first
    /// match in sheet order.
    pub fn get(&self, id: i64) -> (r: Option<TimeRange>)
        ensures
            match r {
                Some(tr) => find_range(self@.completed, id) == Some(tr@),
                None => find_range(self@.completed, id) is None,
            },
    {
        let ghost rv = self@.completed;
        let mut k: usize = 0;
        proof {
            assert(rv.skip(0) =~= rv);
        }
        while k < self.completed.len()
            invariant
                k <= self.completed.len(),
                rv == self@.completed,
                rv.len() == self.completed@.len(),
                find_range(rv, id) == find_range(rv.skip(k as int), id),
            decreases self.completed.len() - k,
        {
            proof {
                assert(rv.skip(k as int).first() == rv[k as int]);
                assert(rv.skip(k as int).drop_first() =~= rv.skip(k + 1));
                assert(self.completed@[k as int]@ == rv[k as int]);
            }
            if self.completed[k].id == id {
                return Some(self.completed[k].clone());
            }
            k = k + 1;
        }
        proof {
            assert(rv.skip(self.completed@.len() as int) =~= Seq::<TimeRangeV>::empty());
        }
        None
    }

    /// Every completed range runs forward in time.
    pub open spec fn wf(&self) -> bool {
        forall|k: int|
            0 <= k < self@.completed.len() ==> (#[trigger] self@.completed[k]).start.time
                <= self@.completed[k].end.time
    }

    /// The seconds worked in total: every completed range, plus the
    /// open clock-in measured against `now`.
    pub fn total_seconds(&self, now: u64) -> (r: u64)
        requires
            self.wf(),
            self@.current matches Some(c) ==> c.time <= now,
            spec_total_secs(self@, now) <= u64::MAX,
        ensures
            r == spec_total_secs(self@, now),
    {
        let ghost rv = self@.completed;
        let mut total: u64 = 0;
        let mut k: usize = 0;
        proof {
            lemma_ranges_secs_prefix(rv, 0, now, self@);
        }
        while k < self.completed.len()
            invariant
                k <= self.completed.len(),
                rv == self@.completed,
                rv.len() == self.completed@.len(),
                self.wf(),
                self@.current matches Some(c) ==> c.time <= now,
                total == spec_ranges_secs(rv.take(k as int)),
                spec_ranges_secs(rv.take(k as int)) <= spec_total_secs(self@, now),
                spec_total_secs(self@, now) <= u64::MAX,
            decreases self.completed.len() - k,
        {
            proof {
                crate::engine::lemma_take_push(rv, k as int);
                assert(rv.take(k + 1).drop_last() =~= rv.take(k as int));
                assert(rv.take(k + 1).last() == rv[k as int]);
                assert(self.completed@[k as int]@ == rv[k as int]);
                lemma_ranges_secs_prefix(rv, k + 1, now, self@);
            }
            total = total + self.completed[k].seconds();
            k = k + 1;
        }
        proof {
            assert(rv.take(self.completed@.len() as int) =~= rv);
        }
        match &self.current {
            Some(c) => total + (now - c.time),
            None => total,
        }
    }

    /// The seconds worked on one day: every completed range whose
    /// clock-in falls on it.
    pub fn seconds_for_day(&self, day: u64) -> (r: u64)
        requires
            self.wf(),
            spec_day_secs(self@.completed, day) <= u64::MAX,
        ensures
            r == spec_day_secs(self@.completed, day),
    {
        let ghost rv = self@.completed;
        let mut total: u64 = 0;
        let mut k: usize = 0;
        proof {
            lemma_day_secs_prefix(rv, 0, day);
        }
        while k < self.completed.len()
            invariant
                k <= self.completed.len(),
                rv == self@.completed,
                rv.len() == self.completed@.len(),
                self.wf(),
                total == spec_day_secs(rv.take(k as int), day),
                spec_day_secs(rv.take(k as int), day) <= spec_day_secs(rv, day),
                spec_day_secs(rv, day) <= u64::MAX,
            decreases self.completed.len() - k,
        {
            proof {
                crate::engine::lemma_take_push(rv, k as int);
                assert(rv.take(k + 1).drop_last() =~= rv.take(k as int));
                assert(rv.take(k + 1).last() == rv[k as int]);
                assert(self.completed@[k as int]@ == rv[k as int]);
                lemma_day_secs_prefix(rv, k + 1, day);
            }
            if day_of(self.completed[k].start.time) == day {
                total = total + self.completed[k].seconds();
            }
            k = k + 1;
        }
        proof {
            assert(rv.take(self.completed@.len() as int) =~= rv);
        }
        total
    }

    /// The completed ranges whose start falls between two days
    /// inclusive, in sheet order.
    pub fn find_in_range(&self, start_day: u64, end_day: u64) -> (r: Vec<TimeRange>)
        ensures
            ranges_view(r@) == ranges_in_days(self@.completed, start_day, end_day),
    {
        let ghost rv = self@.completed;
        let mut out: Vec<TimeRange> = Vec::new();
        let mut k: usize = 0;
        proof {
            assert(ranges_view(out@) =~= ranges_in_days(rv.take(0), start_day, end_day));
        }
        while k < self.completed.len()
            invariant
                k <= self.completed.len(),
                rv == self@.completed,
                rv.len() == self.completed@.len(),
                ranges_view(out@) == ranges_in_days(rv.take(k as int), start_day, end_day),
            decreases self.completed.len() - k,
        {
            proof {
                crate::engine::lemma_take_push(rv, k as int);
                assert(rv.take(k + 1).drop_last() =~= rv.take(k as int));
                assert(rv.take(k + 1).last() == rv[k as int]);
                assert(self.completed@[k as int]@ == rv[k as int]);
            }
            let d = day_of(self.completed[k].start.time);
            if start_day <= d && d <= end_day {
                out.push(self.completed[k].clone());
            }
            proof {
                assert(ranges_view(out@) =~= ranges_in_days(rv.take(k + 1), start_day, end_day));
            }
            k = k + 1;
        }
        proof {
            assert(rv.take(self.completed@.len() as int) =~= rv);
        }
        out
    }
}

/// The seconds the completed ranges span together.
pub open spec fn spec_ranges_secs(rs: Seq<TimeRangeV>) -> int
    decreases rs.len(),
{
    if rs.len() == 0 {
        0
    } else {
        spec_ranges_secs(rs.drop_last()) + (rs.last().end.time - rs.last().start.time)
    }
}

/// The seconds a sheet spans, the open clock-in included.
pub open spec fn spec_total_secs(sheet: TimeSheetV, now: u64) -> int {
    spec_ranges_secs(sheet.completed) + match sheet.current {
        Some(c) => now - c.time,
        None => 0,
    }
}

/// The seconds spanned by the completed ranges whose clock-in falls on
/// one day.
pub open spec fn spec_day_secs(rs: Seq<TimeRangeV>, day: u64) -> int
    decreases rs.len(),
{
    if rs.len() == 0 {
        0
    } else {
        spec_day_secs(rs.drop_last(), day) + if spec_day_of(rs.last().start.time) == day {
            rs.last().end.time - rs.last().start.time
        } else {
            0
        }
    }
}

/// A forward-running prefix sum never exceeds the whole.
proof fn lemma_ranges_secs_prefix(rs: Seq<TimeRangeV>, k: int, now: u64, sheet: TimeSheetV)
    requires
        0 <= k <= rs.len(),
        sheet.completed == rs,
        forall|i: int| 0 <= i < rs.len() ==> (#[trigger] rs[i]).start.time <= rs[i].end.time,
        sheet.current matches Some(c) ==> c.time <= now,
    ensures
        spec_ranges_secs(rs.take(k)) <= spec_total_secs(sheet, now),
    decreases rs.len() - k,
{
    if k == rs.len() {
        assert(rs.take(k) =~= rs);
        lemma_ranges_secs_nonneg_tail(rs, k);
    } else {
        lemma_ranges_secs_prefix(rs, k + 1, now, sheet);
        crate::engine::lemma_take_push(rs, k);
        assert(rs.take(k + 1).drop_last() =~= rs.take(k));
        assert(rs.take(k + 1).last() == rs[k]);
    }
}

/// Remaining summands are never negative.
proof fn lemma_ranges_secs_nonneg_tail(rs: Seq<TimeRangeV>, k: int)
    requires
        0 <= k <= rs.len(),
        forall|i: int| 0 <= i < rs.len() ==> (#[trigger] rs[i]).start.time <= rs[i].end.time,
    ensures
        spec_ranges_secs(rs.take(k)) >= 0,
    decreases k,
{
    if k > 0 {
        lemma_ranges_secs_nonneg_tail(rs, k - 1);
        crate::engine::lemma_take_push(rs, k - 1);
        assert(rs.take(k).drop_last() =~= rs.take(k - 1));
        assert(rs.take(k).last() == rs[k - 1]);
    }
}

/// A day-scoped prefix sum never exceeds the whole day's sum.
proof fn lemma_day_secs_prefix(rs: Seq<TimeRangeV>, k: int, day: u64)
    requires
        0 <= k <= rs.len(),
        forall|i: int| 0 <= i < rs.len() ==> (#[trigger] rs[i]).start.time <= rs[i].end.time,
    ensures
        spec_day_secs(rs.take(k), day) <= spec_day_secs(rs, day),
    decreases rs.len() - k,
{
    if k == rs.len() {
        assert(rs.take(k) =~= rs);
    } else {
        lemma_day_secs_prefix(rs, k + 1, day);
        crate::engine::lemma_take_push(rs, k);
        assert(rs.take(k + 1).drop_last() =~= rs.take(k));
        assert(rs.take(k + 1).last() == rs[k]);
    }
}

/// One user's entry in the clock state.
pub struct SheetEntry {
    pub user: UserID,
    pub sheet: TimeSheet,
}

/// Mathematical value of a [`SheetEntry`].
#[verifier::ext_equal]
pub struct SheetEntryV {
    pub user: Seq<char>,
    pub sheet: TimeSheetV,
}

impl View for SheetEntry {
    type V = SheetEntryV;

    open spec fn view(&self) -> SheetEntryV {
        SheetEntryV { user: self.user@, sheet: self.sheet@ }
    }
}

/// Whether some entry carries this user.
pub open spec fn has_sheet(ss: Seq<SheetEntryV>, user: Seq<char>) -> bool {
    exists|i: int| 0 <= i < ss.len() && #[trigger] ss[i].user == user
}

/// The index of the entry for this user (meaningful under `has_sheet`).
pub open spec fn sheet_index(ss: Seq<SheetEntryV>, user: Seq<char>) -> int {
    choose|i: int| 0 <= i < ss.len() && #[trigger] ss[i].user == user
}

/// The sheet of this user (meaningful under `has_sheet`).
pub open spec fn sheet_of(ss: Seq<SheetEntryV>, user: Seq<char>) -> TimeSheetV {
    ss[sheet_index(ss, user)].sheet
}

/// One entry per user.
pub open spec fn unique_sheet_users(ss: Seq<SheetEntryV>) -> bool {
    forall|i: int, j: int|
        0 <= i < j < ss.len() ==> #[trigger] ss[i].user != #[trigger] ss[j].user
}

/// With unique users, the chosen index for the user that entry `i`
/// carries is `i` itself.
pub proof fn lemma_sheet_index_unique(ss: Seq<SheetEntryV>, i: int)
    requires
        unique_sheet_users(ss),
        0 <= i < ss.len(),
    ensures
        sheet_index(ss, ss[i].user) == i,
        sheet_of(ss, ss[i].user) == ss[i].sheet,
        has_sheet(ss, ss[i].user),
{
    assert(has_sheet(ss, ss[i].user));
    let j = sheet_index(ss, ss[i].user);
    if i < j {
        assert(ss[i].user != ss[j].user);
    } else if j < i {
        assert(ss[j].user != ss[i].user);
    }
}

/// The greater of two optional identifiers, treating absence as
/// smaller than anything.
pub open spec fn opt_max(a: Option<i64>, b: Option<i64>) -> Option<i64> {
    match (a, b) {
        (Option::None, x) => x,
        (Option::Some(p), Option::None) => Some(p),
        (Option::Some(p), Option::Some(q)) => Some(if p >= q { p } else { q }),
    }
}

/// The largest range identifier in a sheet, if any.
pub open spec fn ranges_max_id(rs: Seq<TimeRangeV>) -> Option<i64>
    decreases rs.len(),
{
    if rs.len() == 0 {
        None
    } else {
        opt_max(ranges_max_id(rs.drop_last()), Some(rs.last().id))
    }
}

/// The largest range identifier across all sheets, if any.
pub open spec fn sheets_max_id(ss: Seq<SheetEntryV>) -> Option<i64>
    decreases ss.len(),
{
    if ss.len() == 0 {
        None
    } else {
        opt_max(sheets_max_id(ss.drop_last()), ranges_max_id(ss.last().sheet.completed))
    }
}

/// View of an optional note.
pub open spec fn opt_note_view(o: Option<String>) -> Option<Seq<char>> {
    match o {
        Some(n) => Some(n@),
        None => None,
    }
}

/// The sheets after a clock-in by `user` at `now`: a fresh sheet for
/// an unknown user, the open clock-in set where none was running, and
/// no change while one already is.
pub open spec fn start_result(
    ss: Seq<SheetEntryV>,
    user: Seq<char>,
    note: Option<Seq<char>>,
    now: u64,
) -> Seq<SheetEntryV> {
    let nts = (TimestampV { time: now, note: note });
    if !has_sheet(ss, user) {
        ss.push(
            (SheetEntryV {
                user: user,
                sheet: (TimeSheetV { completed: Seq::empty(), current: Some(nts) }),
            }))
    } else if sheet_of(ss, user).current is None {
        ss.update(sheet_index(ss, user),
            (SheetEntryV {
                user: user,
                sheet: (TimeSheetV { completed: sheet_of(ss, user).completed, current: Some(nts) }),
            }))
    } else {
        ss
    }
}

/// Whether a clock-out by `user` closes anything: a sheet exists and a
/// clock-in is open.
pub open spec fn stop_allowed(ss: Seq<SheetEntryV>, user: Seq<char>) -> bool {
    has_sheet(ss, user) && sheet_of(ss, user).current is Some
}

/// The sheets after a clock-out by `user` at `now` under identifier
/// `id` (meaningful under `stop_allowed`).
pub open spec fn stop_result(
    ss: Seq<SheetEntryV>,
    user: Seq<char>,
    note: Option<Seq<char>>,
    now: u64,
    id: i64,
) -> Seq<SheetEntryV> {
    ss.update(sheet_index(ss, user),
        (SheetEntryV {
            user: user,
            sheet: (TimeSheetV {
                completed: sheet_of(ss, user).completed.push(
                    (TimeRangeV {
                        id: id,
                        start: sheet_of(ss, user).current->0,
                        end: (TimestampV { time: now, note: note }),
                    })),
                current: None,
            }),
        }))
}

/// The in-memory clock state: one timesheet per user and the counter
/// from which new range identifiers are drawn.
pub struct TimeState {
    pub sheets: Vec<SheetEntry>,
    pub id_counter: i64,
}

impl View for TimeState {
    type V = Seq<SheetEntryV>;

    open spec fn view(&self) -> Seq<SheetEntryV> {
        self.sheets@.map_values(|e: SheetEntry| e@)
    }
}

impl TimeState {
    /// The clock-state invariant: one sheet per user.
    pub open spec fn wf(&self) -> bool {
        unique_sheet_users(self@)
    }

    /// An empty clock state.
    pub fn new() -> (r: Self)
        ensures
            r.wf(),
            r@ == Seq::<SheetEntryV>::empty(),
            r.id_counter == 0,
    {
        let r = TimeState { sheets: Vec::new(), id_counter: 0 };
        proof {
            assert(r@ =~= Seq::<SheetEntryV>::empty());
        }
        r
    }

    /// Rebuild the clock state from loaded sheets: identifiers resume
    /// from the largest one on record, or from zero on none.
    pub fn from_data(data: Vec<SheetEntry>) -> (r: Self)
        requires
            unique_sheet_users(data@.map_values(|e: SheetEntry| e@)),
        ensures
            r.wf(),
            r@ == data@.map_values(|e: SheetEntry| e@),
            r.id_counter == match sheets_max_id(data@.map_values(|e: SheetEntry| e@)) {
                Some(m) => m,
                None => 0,
            },
    {
        let ghost dv = data@.map_values(|e: SheetEntry| e@);
        let mut best: Option<i64> = None;
        let mut i: usize = 0;
        proof {
            assert(sheets_max_id(dv.take(0)) == Option::<i64>::None);
        }
        while i < data.len()
            invariant
                i <= data.len(),
                dv == data@.map_values(|e: SheetEntry| e@),
                dv.len() == data@.len(),
                best == sheets_max_id(dv.take(i as int)),
            decreases data.len() - i,
        {
            proof {
                crate::engine::lemma_take_push(dv, i as int);
                assert(dv.take(i + 1).drop_last() =~= dv.take(i as int));
                assert(dv.take(i + 1).last() == dv[i as int]);
                assert(data@[i as int]@ == dv[i as int]);
            }
            let ghost rsv = dv[i as int].sheet.completed;
            let rs = &data[i].sheet.completed;
            let mut inner: Option<i64> = None;
            let mut k: usize = 0;
            proof {
                assert(ranges_max_id(rsv.take(0)) == Option::<i64>::None);
            }
            while k < rs.len()
                invariant
                    k <= rs.len(),
                    rsv == ranges_view(rs@),
                    rsv.len() == rs@.len(),
                    inner == ranges_max_id(rsv.take(k as int)),
                decreases rs.len() - k,
            {
                proof {
                    crate::engine::lemma_take_push(rsv, k as int);
                    assert(rsv.take(k + 1).drop_last() =~= rsv.take(k as int));
                    assert(rsv.take(k + 1).last() == rsv[k as int]);
                    assert(rs@[k as int]@ == rsv[k as int]);
                }
                let id = rs[k].id;
                inner = match inner {
                    None => Some(id),
                    Some(p) => if p >= id {
                        Some(p)
                    } else {
                        Some(id)
                    },
                };
                k = k + 1;
            }
            proof {
                assert(rsv.take(rs@.len() as int) =~= rsv);
            }
            best = match (best, inner) {
                (None, x) => x,
                (Some(p), None) => Some(p),
                (Some(p), Some(q)) => if p >= q {
                    Some(p)
                } else {
                    Some(q)
                },
            };
            i = i + 1;
        }
        proof {
            assert(dv.take(data@.len() as int) =~= dv);
        }
        let id_counter: i64 = match best {
            Some(m) => m,
            None => 0,
        };
        TimeState { sheets: data, id_counter }
    }

    /// Position of the sheet for this user, if any.
    fn index_of(&self, user: &UserID) -> (r: Option<usize>)
        ensures
            match r {
                Some(i) => i < self@.len() && self@[i as int].user == user@,
                None => !has_sheet(self@, user@),
            },
    {
        let mut i: usize = 0;
        while i < self.sheets.len()
            invariant
                i <= self.sheets.len(),
                forall|k: int| 0 <= k < i ==> #[trigger] self@[k].user != user@,
            decreases self.sheets.len() - i,
        {
            if self.sheets[i].user.0 == user.0 {
                return Some(i);
            }
            i = i + 1;
        }
        None
    }

    /// Clock a user in: a sheet is opened for an unknown user, and the
    /// open clock-in begins at `now` with the note. Clocking in while
    /// already clocked in changes nothing.
    pub fn start(&mut self, user: UserID, note: Option<String>, now: u64)
        requires
            old(self).wf(),
        ensures
            final(self).wf(),
            final(self).id_counter == old(self).id_counter,
            final(self)@ == start_result(old(self)@, user@, opt_note_view(note), now),
    {
        let ghost pre = self@;
        let ghost ntsv = (TimestampV {
            time: now,
            note: match &note {
                Some(n) => Some(n@),
                None => None,
            },
        });
        match self.index_of(&user) {
            None => {
                self.sheets.push(SheetEntry {
                    user,
                    sheet: TimeSheet {
                        completed: Vec::new(),
                        current: Some(Timestamp { time: now, note }),
                    },
                });
                proof {
                    assert(self@.last() =~~= (SheetEntryV {
                        user: user@,
                        sheet: (TimeSheetV { completed: Seq::empty(), current: Some(ntsv) }),
                    }));
                    assert(self@ =~~= pre.push(self@.last()));
                    assert forall|i: int, j: int|
                        0 <= i < j < self@.len() implies #[trigger] self@[i].user
                        != #[trigger] self@[j].user by {
                        if j < pre.len() {
                            assert(pre[i].user != pre[j].user);
                        } else {
                            if pre[i].user == self@[j].user {
                                assert(has_sheet(pre, self@[j].user));
                            }
                        }
                    }
                }
            },
            Some(i) => {
                proof {
                    lemma_sheet_index_unique(pre, i as int);
                }
                let e = self.sheets.remove(i);
                let SheetEntry { user: eu, sheet } = e;
                let TimeSheet { completed, current } = sheet;
                match current {
                    Some(ts) => {
                        self.sheets.insert(i, SheetEntry {
                            user: eu,
                            sheet: TimeSheet { completed, current: Some(ts) },
                        });
                        proof {
                            assert(self@ =~~= pre);
                        }
                    },
                    None => {
                        self.sheets.insert(i, SheetEntry {
                            user: eu,
                            sheet: TimeSheet {
                                completed,
                                current: Some(Timestamp { time: now, note }),
                            },
                        });
                        proof {
                            assert(self@ =~~= pre.update(i as int,
                                (SheetEntryV {
                                    user: user@,
                                    sheet: (TimeSheetV {
                                        completed: sheet_of(pre, user@).completed,
                                        current: Some(ntsv),
                                    }),
                                })));
                        }
                    },
                }
            },
        }
    }

    /// Clock a user out: the open clock-in closes at `now` with the
    /// note, under a fresh identifier, which is returned. Yields
    /// `None`, changing nothing, iff the user has no sheet or no open
    /// clock-in.
    pub fn stop(&mut self, user: &UserID, note: Option<String>, now: u64) -> (r: Option<i64>)
        requires
            old(self).wf(),
            old(self).id_counter < i64::MAX,
        ensures
            final(self).wf(),
            match r {
                Some(id) => {
                    &&& stop_allowed(old(self)@, user@)
                    &&& id == old(self).id_counter
                    &&& final(self).id_counter == old(self).id_counter + 1
                    &&& final(self)@ == stop_result(old(self)@, user@, opt_note_view(note), now,
                        id)
                },
                None => {
                    &&& final(self)@ == old(self)@
                    &&& final(self).id_counter == old(self).id_counter
                    &&& !stop_allowed(old(self)@, user@)
                },
            },
    {
        let ghost pre = self@;
        let Some(i) = self.index_of(user) else {
            return None;
        };
        proof {
            lemma_sheet_index_unique(pre, i as int);
        }
        let e = self.sheets.remove(i);
        let SheetEntry { user: eu, sheet } = e;
        let TimeSheet { mut completed, current } = sheet;
        match current {
            None => {
                self.sheets.insert(i, SheetEntry {
                    user: eu,
                    sheet: TimeSheet { completed, current: None },
                });
                proof {
                    assert(self@ =~~= pre);
                }
                None
            },
            Some(start) => {
                let id = self.id_counter;
                self.id_counter = self.id_counter + 1;
                let ghost rngv = (TimeRangeV {
                    id: id,
                    start: start@,
                    end: (TimestampV {
                        time: now,
                        note: match &note {
                            Some(n) => Some(n@),
                            None => None,
                        },
                    }),
                });
                completed.push(TimeRange { id, start, end: Timestamp { time: now, note } });
                self.sheets.insert(i, SheetEntry {
                    user: eu,
                    sheet: TimeSheet { completed, current: None },
                });
                proof {
                    assert(start@ == sheet_of(pre, user@).current->0);
                    assert(self@ =~~= pre.update(i as int,
                        (SheetEntryV {
                            user: user@,
                            sheet: (TimeSheetV {
                                completed: sheet_of(pre, user@).completed.push(rngv),
                                current: None,
                            }),
                        })));
                }
                Some(id)
            },
        }
    }

    /// Whether a user is clocked in: `None` for a user with no sheet.
    pub fn is_active(&self, user: &UserID) -> (r: Option<bool>)
        requires
            self.wf(),
        ensures
            match r {
                Some(b) => has_sheet(self@, user@) && b == (sheet_of(self@, user@).current
                    is Some),
                None => !has_sheet(self@, user@),
            },
    {
        match self.index_of(user) {
            None => None,
            Some(i) => {
                proof {
                    lemma_sheet_index_unique(self@, i as int);
                }
                Some(self.sheets[i].sheet.current.is_some())
            },
        }
    }
}

/// Whether a user clocks in or out.
pub enum ClockType {
    TimeIn,
    TimeOut,
}

/// A clock-in or clock-out request with its optional note.
pub struct TimingAction {
    pub action: ClockType,
    pub note: Option<String>,
}

impl TimingAction {
    /// Apply the request to the clock state at time `now`.
    pub fn handle(self, user: &UserID, time: &mut TimeState, now: u64)
        requires
            old(time).wf(),
            old(time).id_counter < i64::MAX,
        ensures
            final(time).wf(),
            match self.action {
                ClockType::TimeIn => final(time)@ == start_result(old(time)@, user@,
                    opt_note_view(self.note), now) && final(time).id_counter
                    == old(time).id_counter,
                ClockType::TimeOut => if stop_allowed(old(time)@, user@) {
                    final(time)@ == stop_result(old(time)@, user@, opt_note_view(self.note), now,
                        old(time).id_counter) && final(time).id_counter == old(time).id_counter
                        + 1
                } else {
                    final(time)@ == old(time)@ && final(time).id_counter == old(time).id_counter
                },
            },
    {
        match self.action {
            ClockType::TimeIn => time.start(user.clone(), self.note, now),
            ClockType::TimeOut => {
                let _ = time.stop(user, self.note, now);
            },
        }
    }
}

/// A query for whether the requester is clocked in.
pub struct CheckTime;

impl CheckTime {
    /// Answer the query: a status event for the requester alone. A
    /// user with no sheet counts as clocked out.
    pub fn handle(self, user: &UserID, time: &TimeState) -> (r: ServerAction)
        requires
            time.wf(),
        ensures
            r == ServerAction::TimedIn(has_sheet(time@, user@) && sheet_of(time@, user@).current
                is Some),
    {
        let timed_in = match time.is_active(user) {
            Some(b) => b,
            None => false,
        };
        ServerAction::TimedIn(timed_in)
    }
}

/// The ranges handed back by the time query, narrowed to a day window
/// when one is given: a range stays when the window's start is no
/// earlier than the day its clock-in falls on, and the day its
/// clock-out falls on is no later than the window's end; with both
/// bounds absent the list is returned whole, and an absent bound
/// defaults to `today`.
pub fn filter_time_ranges(
    ranges: Vec<TimeRange>,
    start_day: Option<u64>,
    end_day: Option<u64>,
    today: u64,
) -> (r: Vec<TimeRange>)
    ensures
        start_day is None && end_day is None ==> ranges_view(r@) == ranges_view(ranges@),
        !(start_day is None && end_day is None) ==> ({
            let lo = match start_day {
                Some(d) => d,
                None => today,
            };
            let hi = match end_day {
                Some(d) => d,
                None => today,
            };
            ranges_view(r@) == kept_ranges(ranges_view(ranges@), lo, hi)
        }),
{
    if start_day.is_none() && end_day.is_none() {
        return ranges;
    }
    let lo = match start_day {
        Some(d) => d,
        None => today,
    };
    let hi = match end_day {
        Some(d) => d,
        None => today,
    };
    let ghost rv = ranges_view(ranges@);
    let mut out: Vec<TimeRange> = Vec::new();
    let mut k: usize = 0;
    proof {
        assert(ranges_view(out@) =~= kept_ranges(rv.take(0), lo, hi));
    }
    while k < ranges.len()
        invariant
            k <= ranges.len(),
            rv == ranges_view(ranges@),
            rv.len() == ranges@.len(),
            ranges_view(out@) == kept_ranges(rv.take(k as int), lo, hi),
        decreases ranges.len() - k,
    {
        proof {
            crate::engine::lemma_take_push(rv, k as int);
            assert(rv.take(k + 1).drop_last() =~= rv.take(k as int));
            assert(rv.take(k + 1).last() == rv[k as int]);
            assert(ranges@[k as int]@ == rv[k as int]);
        }
        let sd = day_of(ranges[k].start.time);
        let ed = day_of(ranges[k].end.time);
        if lo >= sd && ed <= hi {
            out.push(ranges[k].clone());
        }
        proof {
            assert(ranges_view(out@) =~= kept_ranges(rv.take(k + 1), lo, hi));
        }
        k = k + 1;
    }
    proof {
        assert(rv.take(ranges@.len() as int) =~= rv);
    }
    out
}

/// The ranges the time query keeps for a day window: the window start
/// at or past the clock-in's day, the clock-out's day at or before the
/// window end.
pub open spec fn kept_ranges(rs: Seq<TimeRangeV>, lo: u64, hi: u64) -> Seq<TimeRangeV>
    decreases rs.len(),
{
    if rs.len() == 0 {
        Seq::empty()
    } else {
        let rest = kept_ranges(rs.drop_last(), lo, hi);
        if lo >= spec_day_of(rs.last().start.time) && spec_day_of(rs.last().end.time) <= hi {
            rest.push(rs.last())
        } else {
            rest
        }
    }
}

} // verus!
