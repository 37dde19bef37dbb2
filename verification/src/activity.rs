//! The contribution heatmap: daily commit counts over the 53-week grid that
//! ends in the current week. Days are counted as whole days since 1970-01-01
//! (day 0 was a Thursday); reading commit dates out of the repos is I/O.
use vstd::prelude::*;

verus! {

/// Week columns in the heatmap.
pub const WEEKS: usize = 53;

/// Cells in the grid (53 weeks × 7 weekdays).
pub const CELLS: usize = 371;

/// Largest day number (either side of 1970) the grid arithmetic accepts; far
/// beyond any calendar date.
pub const DAY_LIMIT: i64 = 1099511627776;

/// The heatmap: `CELLS` cells, column-major (`week * 7 + weekday`, weekday 0 =
/// Sunday), each the day's commit count, or `None` for the days after today
/// in the trailing partial week.
#[derive(Debug, Clone)]
pub struct Activity {
    /// Commits counted across the window.
    pub total: u32,
    /// First day of the grid, always a Sunday.
    pub start: i64,
    pub cells: Vec<Option<u32>>,
    /// Largest single-day count.
    pub max: u32,
}

/// Weekday of a day number, 0 = Sunday.
pub open spec fn weekday_of(day: int) -> int {
    (day + 4) % 7
}

/// The grid's first day for a window ending in `today`'s week.
pub open spec fn start_of(today: int) -> int {
    today - weekday_of(today) - (WEEKS - 1) * 7
}

/// How many of `dates` fall on `day`.
pub open spec fn count_on(dates: Seq<i64>, day: int) -> nat
    decreases dates.len(),
{
    if dates.len() == 0 {
        0
    } else {
        count_on(dates.drop_last(), day) + if dates.last() == day {
            1nat
        } else {
            0nat
        }
    }
}

/// How many of `dates` fall within `lo..=hi`.
pub open spec fn count_within(dates: Seq<i64>, lo: int, hi: int) -> nat
    decreases dates.len(),
{
    if dates.len() == 0 {
        0
    } else {
        count_within(dates.drop_last(), lo, hi) + if lo <= dates.last() <= hi {
            1nat
        } else {
            0nat
        }
    }
}

/// Weekday (0 = Sunday) of a day number.
pub fn weekday(day: i64) -> (r: i64)
    requires
        -DAY_LIMIT <= day <= DAY_LIMIT,
    ensures
        r == weekday_of(day as int),
        0 <= r < 7,
{
    let shifted: u64 = (day + 4 + 7 * DAY_LIMIT) as u64;
    let r = (shifted % 7) as i64;
    assert(r == weekday_of(day as int)) by (nonlinear_arith)
        requires
            shifted == day + 4 + 7 * DAY_LIMIT,
            r == shifted % 7,
            DAY_LIMIT == 1099511627776,
    ;
    r
}

/// The grid's first day (a Sunday) for a window ending in `today`'s week.
pub fn grid_start(today: i64) -> (r: i64)
    requires
        -DAY_LIMIT <= today <= DAY_LIMIT,
    ensures
        r == start_of(today as int),
        weekday_of(r as int) == 0,
        today - 370 <= r <= today - 364,
{
    let w = weekday(today);
    let r = today - w - 364;
    assert(weekday_of(r as int) == 0) by (nonlinear_arith)
        requires
            r == today - w - 364,
            w == (today + 4) % 7,
    ;
    r
}

proof fn lemma_counts_bounded(dates: Seq<i64>, day: int, lo: int, hi: int)
    ensures
        count_on(dates, day) <= dates.len(),
        count_within(dates, lo, hi) <= dates.len(),
    decreases dates.len(),
{
    if dates.len() > 0 {
        lemma_counts_bounded(dates.drop_last(), day, lo, hi);
    }
}

/// Whether `x` is the largest of the present cells (0 when none is).
pub open spec fn is_max_cell(cells: Seq<Option<u32>>, x: u32) -> bool {
    &&& forall|i: int| 0 <= i < cells.len() ==> (#[trigger] cells[i] matches Some(c) ==> c <= x)
    &&& (x == 0 || exists|i: int| 0 <= i < cells.len() && cells[i] == Some(x))
}

/// Build the grid for `today` from the dates of the commits: in-window
/// commits are counted per day, days after today stay empty.
pub fn tally(today: i64, dates: &[i64]) -> (r: Activity)
    requires
        -DAY_LIMIT <= today <= DAY_LIMIT,
        dates@.len() <= u32::MAX,
    ensures
        r.start == start_of(today as int),
        r.cells@.len() == CELLS,
        forall|i: int|
            0 <= i < CELLS ==> #[trigger] r.cells@[i] == if r.start + i <= today {
                Some(count_on(dates@, r.start + i) as u32)
            } else {
                None
            },
        r.total == count_within(dates@, r.start as int, today as int),
        is_max_cell(r.cells@, r.max),
{
    let start = grid_start(today);
    let mut counts: Vec<u32> = Vec::new();
    while counts.len() < CELLS
        invariant
            counts@.len() <= CELLS,
            forall|j: int| 0 <= j < counts@.len() ==> counts@[j] == 0,
        decreases CELLS - counts@.len(),
    {
        counts.push(0);
    }
    let mut total: u32 = 0;
    let mut k: usize = 0;
    while k < dates.len()
        invariant
            k <= dates@.len(),
            dates@.len() <= u32::MAX,
            -DAY_LIMIT <= today <= DAY_LIMIT,
            start == start_of(today as int),
            today - 370 <= start <= today - 364,
            counts@.len() == CELLS,
            forall|j: int|
                0 <= j < CELLS ==> #[trigger] counts@[j] == if start + j <= today {
                    count_on(dates@.take(k as int), start + j)
                } else {
                    0
                },
            total == count_within(dates@.take(k as int), start as int, today as int),
        decreases dates.len() - k,
    {
        proof {
            assert(dates@.take(k + 1).drop_last() =~= dates@.take(k as int));
            assert(dates@.take(k + 1).last() == dates@[k as int]);
            lemma_counts_bounded(dates@.take(k as int), 0, start as int, today as int);
        }
        let d = dates[k];
        let ghost old_counts = counts@;
        if start <= d && d <= today {
            let idx: usize = (d - start) as usize;
            proof {
                lemma_counts_bounded(dates@.take(k as int), start + idx, start as int, today as int);
            }
            let c = counts[idx];
            counts.set(idx, c + 1);
            total = total + 1;
        }
        proof {
            assert forall|j: int| 0 <= j < CELLS implies #[trigger] counts@[j] == if start + j
                <= today {
                count_on(dates@.take(k + 1), start + j)
            } else {
                0
            } by {
                assert(count_on(dates@.take(k + 1), start + j) == count_on(dates@.take(k as int), start + j)
                    + if d == start + j {
                    1nat
                } else {
                    0nat
                });
            }
        }
        k = k + 1;
    }
    proof {
        assert(dates@.take(dates@.len() as int) =~= dates@);
    }
    let mut cells: Vec<Option<u32>> = Vec::new();
    let mut max: u32 = 0;
    let mut i: usize = 0;
    while i < CELLS
        invariant
            i <= CELLS,
            -DAY_LIMIT <= today <= DAY_LIMIT,
            cells@.len() == i,
            counts@.len() == CELLS,
            today - 370 <= start <= today - 364,
            forall|j: int|
                0 <= j < CELLS ==> #[trigger] counts@[j] == if start + j <= today {
                    count_on(dates@, start + j)
                } else {
                    0
                },
            forall|j: int|
                0 <= j < i ==> #[trigger] cells@[j] == if start + j <= today {
                    Some(counts@[j])
                } else {
                    None
                },
            is_max_cell(cells@, max),
        decreases CELLS - i,
    {
        let cell = if start + (i as i64) <= today {
            Some(counts[i])
        } else {
            None
        };
        let ghost before = cells@;
        cells.push(cell);
        match cell {
            Some(c) => {
                if c > max {
                    max = c;
                }
            },
            None => {},
        }
        proof {
            assert forall|j: int| 0 <= j < cells@.len() implies (#[trigger] cells@[j] matches Some(
                c,
            ) ==> c <= max) by {
                if j < i {
                    assert(cells@[j] == before[j]);
                }
            }
            if max != 0 {
                if cell == Some(max) {
                    assert(cells@[i as int] == Some(max));
                } else {
                    let w = choose|w: int| 0 <= w < before.len() && before[w] == Some(max);
                    assert(cells@[w] == Some(max));
                }
            }
        }
        i = i + 1;
    }
    Activity { total, start, cells, max }
}

} // verus!
