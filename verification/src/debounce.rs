//! The debounce filter: per-switch confirmation counters over an R x C
//! switch grid.
//!
//! Each tick the scanner hands the filter one raw boolean grid (flattened
//! row-major). A switch's transition is confirmed — and an [`Event`] emitted —
//! only after the raw sample has disagreed with the confirmed state for
//! `threshold` consecutive ticks; any agreeing sample resets that switch's
//! counter. The ghost `history` field records every raw grid ever sampled, so
//! the confirmation law can be stated over all past scans.

use vstd::prelude::*;

use crate::event::{Event, EventKind};

verus! {

/// Does one sample flip (confirm a transition of) a cell whose confirmed
/// state is `conf` and whose mismatch counter is `cnt`?
pub open spec fn cell_flips(threshold: u16, conf: bool, cnt: u16, raw: bool) -> bool {
    raw != conf && cnt + 1 >= threshold
}

/// The cell's confirmed state after one sample.
pub open spec fn cell_next_confirmed(threshold: u16, conf: bool, cnt: u16, raw: bool) -> bool {
    if cell_flips(threshold, conf, cnt, raw) {
        raw
    } else {
        conf
    }
}

/// The cell's mismatch counter after one sample: reset on agreement or on
/// confirmation, incremented on a still-unconfirmed disagreement.
pub open spec fn cell_next_count(threshold: u16, conf: bool, cnt: u16, raw: bool) -> u16 {
    if raw == conf {
        0
    } else if cnt + 1 >= threshold {
        0
    } else {
        (cnt + 1) as u16
    }
}

/// The event a confirmed transition at flattened position `i` produces:
/// a press when the new state is closed, a release when it is open.
pub open spec fn event_at(i: int, pressed: bool, cols: u8) -> Event {
    Event {
        kind: if pressed {
            EventKind::Press
        } else {
            EventKind::Release
        },
        row: (i / (cols as int)) as u8,
        col: (i % (cols as int)) as u8,
    }
}

/// The events confirmed by one sample over the first `n` cells, in row-major
/// (increasing flattened index) order.
pub open spec fn confirmed_events(
    threshold: u16,
    conf: Seq<bool>,
    cnts: Seq<u16>,
    raw: Seq<bool>,
    cols: u8,
    n: int,
) -> Seq<Event>
    decreases n,
{
    if n <= 0 {
        Seq::empty()
    } else {
        let rest = confirmed_events(threshold, conf, cnts, raw, cols, n - 1);
        if cell_flips(threshold, conf[n - 1], cnts[n - 1], raw[n - 1]) {
            rest.push(event_at(n - 1, raw[n - 1], cols))
        } else {
            rest
        }
    }
}

/// How many grids at the end of history `h` read `b` at position `i`.
pub open spec fn trailing_run(h: Seq<Seq<bool>>, i: int, b: bool) -> nat
    decreases h.len(),
{
    if h.len() == 0 {
        0
    } else if h.last()[i] == b {
        trailing_run(h.drop_last(), i, b) + 1
    } else {
        0
    }
}

proof fn lemma_trailing_run_push(h: Seq<Seq<bool>>, g: Seq<bool>, i: int, b: bool)
    ensures
        trailing_run(h.push(g), i, b) == if g[i] == b {
            trailing_run(h, i, b) + 1
        } else {
            0
        },
{
    assert(h.push(g).last() =~= g);
    assert(h.push(g).drop_last() =~= h);
}

proof fn lemma_trailing_run_window(h: Seq<Seq<bool>>, i: int, b: bool, k: nat)
    requires
        k <= trailing_run(h, i, b),
    ensures
        k <= h.len(),
        forall|t: int| h.len() - k <= t < h.len() ==> (#[trigger] h[t])[i] == b,
    decreases k,
{
    if k > 0 {
        lemma_trailing_run_window(h.drop_last(), i, b, (k - 1) as nat);
        assert forall|t: int| h.len() - k <= t < h.len() implies (#[trigger] h[t])[i] == b by {
            if t < h.len() - 1 {
                assert(h.drop_last()[t] =~= h[t]);
            } else {
                assert(h[t] =~= h.last());
            }
        }
    }
}

/// The per-switch debounce state: the confirmed grid, the mismatch counters,
/// and (in ghost state) every raw grid ever sampled.
pub struct DebounceState {
    pub rows: u8,
    pub cols: u8,
    pub threshold: u16,
    pub confirmed: Vec<bool>,
    pub counts: Vec<u16>,
    pub history: Ghost<Seq<Seq<bool>>>,
}

impl DebounceState {
    /// Number of cells in the flattened grid.
    pub open spec fn grid_len(&self) -> int {
        self.rows as int * self.cols as int
    }

    /// Well-formedness: the grids match the declared dimensions, every
    /// counter sits strictly below the threshold, and each counter is backed
    /// by that many trailing disagreeing samples in the recorded history.
    pub open spec fn inv(&self) -> bool {
        &&& self.threshold >= 1
        &&& self.cols >= 1
        &&& self.confirmed@.len() == self.grid_len()
        &&& self.counts@.len() == self.grid_len()
        &&& (forall|i: int| 0 <= i < self.grid_len() ==> #[trigger] self.counts@[i] < self.threshold)
        &&& (forall|t: int|
            0 <= t < self.history@.len() ==> (#[trigger] self.history@[t]).len() == self.grid_len())
        &&& (forall|i: int|
            0 <= i < self.grid_len() ==> #[trigger] self.counts@[i] as nat <= trailing_run(
                self.history@,
                i,
                !self.confirmed@[i],
            ))
    }

    /// No transition is pending anywhere: every counter is zero.
    pub open spec fn settled(&self) -> bool {
        forall|i: int| 0 <= i < self.grid_len() ==> #[trigger] self.counts@[i] == 0
    }

    /// A fresh filter, built once at boot: everything open, nothing pending.
    pub fn new(rows: u8, cols: u8, threshold: u16) -> (s: DebounceState)
        requires
            rows >= 1,
            cols >= 1,
            threshold >= 1,
        ensures
            s.inv(),
            s.settled(),
            s.rows == rows,
            s.cols == cols,
            s.threshold == threshold,
            s.history@ =~= Seq::<Seq<bool>>::empty(),
            forall|i: int| 0 <= i < s.grid_len() ==> !(#[trigger] s.confirmed@[i]),
    {
        proof {
            assert(rows as int * cols as int <= 255 * 255) by (nonlinear_arith)
                requires
                    rows <= 255,
                    cols <= 255,
            ;
        }
        let n: usize = rows as usize * cols as usize;
        let mut confirmed: Vec<bool> = Vec::new();
        let mut counts: Vec<u16> = Vec::new();
        let mut i: usize = 0;
        while i < n
            invariant
                i <= n,
                confirmed@.len() == i,
                counts@.len() == i,
                forall|j: int| 0 <= j < i ==> !(#[trigger] confirmed@[j]),
                forall|j: int| 0 <= j < i ==> #[trigger] counts@[j] == 0,
            decreases n - i,
        {
            confirmed.push(false);
            counts.push(0);
            i = i + 1;
        }
        DebounceState { rows, cols, threshold, confirmed, counts, history: Ghost(Seq::empty()) }
    }

    /// Feeds one raw grid (flattened row-major, `true` = contact closed)
    /// through the filter. Returns the transitions this sample confirms, in
    /// row-major order, and steps every cell's state as the cell functions
    /// say.
    pub fn sample(&mut self, raw: &Vec<bool>) -> (events: Vec<Event>)
        requires
            old(self).inv(),
            raw@.len() == old(self).grid_len(),
        ensures
            final(self).inv(),
            final(self).rows == old(self).rows,
            final(self).cols == old(self).cols,
            final(self).threshold == old(self).threshold,
            final(self).history@ =~= old(self).history@.push(raw@),
            forall|i: int|
                0 <= i < old(self).grid_len() ==> #[trigger] final(self).confirmed@[i]
                    == cell_next_confirmed(
                    old(self).threshold,
                    old(self).confirmed@[i],
                    old(self).counts@[i],
                    raw@[i],
                ),
            forall|i: int|
                0 <= i < old(self).grid_len() ==> #[trigger] final(self).counts@[i]
                    == cell_next_count(
                    old(self).threshold,
                    old(self).confirmed@[i],
                    old(self).counts@[i],
                    raw@[i],
                ),
            events@ =~= confirmed_events(
                old(self).threshold,
                old(self).confirmed@,
                old(self).counts@,
                raw@,
                old(self).cols,
                old(self).grid_len(),
            ),
    {
        proof {
            assert(self.rows as int * self.cols as int <= 255 * 255) by (nonlinear_arith)
                requires
                    self.rows <= 255,
                    self.cols <= 255,
            ;
        }
        let n: usize = self.rows as usize * self.cols as usize;
        let cols_us: usize = self.cols as usize;
        let mut new_confirmed: Vec<bool> = Vec::new();
        let mut new_counts: Vec<u16> = Vec::new();
        let mut events: Vec<Event> = Vec::new();
        let mut i: usize = 0;
        while i < n
            invariant
                self == old(self),
                self.inv(),
                n == self.grid_len(),
                cols_us == self.cols as usize,
                raw@.len() == n,
                i <= n,
                new_confirmed@.len() == i,
                new_counts@.len() == i,
                forall|j: int|
                    0 <= j < i ==> #[trigger] new_confirmed@[j] == cell_next_confirmed(
                        self.threshold,
                        self.confirmed@[j],
                        self.counts@[j],
                        raw@[j],
                    ),
                forall|j: int|
                    0 <= j < i ==> #[trigger] new_counts@[j] == cell_next_count(
                        self.threshold,
                        self.confirmed@[j],
                        self.counts@[j],
                        raw@[j],
                    ),
                events@ =~= confirmed_events(
                    self.threshold,
                    self.confirmed@,
                    self.counts@,
                    raw@,
                    self.cols,
                    i as int,
                ),
            decreases n - i,
        {
            let conf: bool = self.confirmed[i];
            let cnt: u16 = self.counts[i];
            let raw_i: bool = raw[i];
            if raw_i == conf {
                new_confirmed.push(conf);
                new_counts.push(0);
            } else if cnt + 1 >= self.threshold {
                new_confirmed.push(raw_i);
                new_counts.push(0);
                let row: u8 = (i / cols_us) as u8;
                let col: u8 = (i % cols_us) as u8;
                let kind: EventKind = if raw_i {
                    EventKind::Press
                } else {
                    EventKind::Release
                };
                events.push(Event { kind, row, col });
                assert(events@.last() =~= event_at(i as int, raw@[i as int], self.cols));
            } else {
                new_confirmed.push(conf);
                new_counts.push(cnt + 1);
            }
            i = i + 1;
        }
        proof {
            let h = self.history@;
            let hp = h.push(raw@);
            assert forall|j: int| 0 <= j < n implies #[trigger] new_counts@[j] as nat
                <= trailing_run(hp, j, !new_confirmed@[j]) by {
                let conf = self.confirmed@[j];
                let cnt = self.counts@[j];
                let r = raw@[j];
                lemma_trailing_run_push(h, raw@, j, !cell_next_confirmed(self.threshold, conf, cnt, r));
                if r != conf && !(cnt + 1 >= self.threshold) {
                    assert(r == !conf);
                }
            }
        }
        self.confirmed = new_confirmed;
        self.counts = new_counts;
        proof {
            self.history@ = self.history@.push(raw@);
        }
        events
    }
}

/// Law: a transition is confirmed only after at least `threshold` consecutive
/// identical raw samples. When a new sample flips position `i`, the
/// `threshold - 1` most recent recorded grids all already read the new value
/// at `i`; together with the flipping sample itself that is `threshold`
/// consecutive identical readings. Fewer consecutive identical samples never
/// confirm.
pub proof fn lemma_confirmation_needs_streak(s: DebounceState, raw: Seq<bool>, i: int)
    requires
        s.inv(),
        0 <= i < s.grid_len(),
        cell_flips(s.threshold, s.confirmed@[i], s.counts@[i], raw[i]),
    ensures
        s.history@.len() >= s.threshold - 1,
        forall|t: int|
            s.history@.len() - (s.threshold - 1) <= t < s.history@.len() ==> (#[trigger] s.history@[t])[i]
                == raw[i],
{
    assert(s.counts@[i] as nat >= (s.threshold - 1) as nat);
    assert(raw[i] == !s.confirmed@[i]);
    lemma_trailing_run_window(s.history@, i, !s.confirmed@[i], (s.threshold - 1) as nat);
}

/// The flattened row-major position an event speaks of.
pub open spec fn flat_pos(e: Event, cols: u8) -> int {
    e.row as int * cols as int + e.col as int
}

proof fn lemma_event_position(i: int, pressed: bool, cols: u8)
    requires
        cols >= 1,
        0 <= i < 255 * cols as int,
    ensures
        flat_pos(event_at(i, pressed, cols), cols) == i,
{
    let c = cols as int;
    assert(0 <= i / c < 255) by (nonlinear_arith)
        requires
            c >= 1,
            0 <= i < 255 * c,
    ;
    assert(0 <= i % c < c) by (nonlinear_arith)
        requires
            c >= 1,
            0 <= i,
    ;
    assert(i / c * c + i % c == i) by (nonlinear_arith)
        requires
            c >= 1,
    ;
}

/// Law: the events one sample confirms come in scan order — their flattened
/// row-major positions strictly increase along the sequence, and each lies
/// inside the grid. Simultaneous confirmations are therefore applied to the
/// layout in a stable, significant order.
pub proof fn lemma_events_scan_order(
    threshold: u16,
    conf: Seq<bool>,
    cnts: Seq<u16>,
    raw: Seq<bool>,
    cols: u8,
    n: int,
)
    requires
        cols >= 1,
        n <= 255 * cols as int,
    ensures
        forall|j: int|
            0 <= j < confirmed_events(threshold, conf, cnts, raw, cols, n).len() ==> 0 <= flat_pos(
                #[trigger] confirmed_events(threshold, conf, cnts, raw, cols, n)[j],
                cols,
            ) < n,
        forall|j: int, k: int|
            0 <= j < k < confirmed_events(threshold, conf, cnts, raw, cols, n).len() ==> flat_pos(
                confirmed_events(threshold, conf, cnts, raw, cols, n)[j],
                cols,
            ) < flat_pos(confirmed_events(threshold, conf, cnts, raw, cols, n)[k], cols),
    decreases n,
{
    if n > 0 {
        lemma_events_scan_order(threshold, conf, cnts, raw, cols, n - 1);
        let prev = confirmed_events(threshold, conf, cnts, raw, cols, n - 1);
        let cur = confirmed_events(threshold, conf, cnts, raw, cols, n);
        if cell_flips(threshold, conf[n - 1], cnts[n - 1], raw[n - 1]) {
            lemma_event_position(n - 1, raw[n - 1], cols);
            assert forall|j: int| 0 <= j < cur.len() implies 0 <= flat_pos(
                #[trigger] cur[j],
                cols,
            ) < n by {
                if j < prev.len() {
                    assert(cur[j] == prev[j]);
                }
            }
        }
    }
}

/// Law: the events a well-formed filter confirms for any raw grid are in
/// scan order. The grid-size bound that [`lemma_events_scan_order`] asks for
/// follows from the filter's declared dimensions.
pub proof fn lemma_sample_events_scan_order(s: DebounceState, raw: Seq<bool>)
    requires
        s.inv(),
    ensures
        forall|j: int, k: int|
            0 <= j < k < confirmed_events(
                s.threshold,
                s.confirmed@,
                s.counts@,
                raw,
                s.cols,
                s.grid_len(),
            ).len() ==> flat_pos(
                confirmed_events(s.threshold, s.confirmed@, s.counts@, raw, s.cols, s.grid_len())[j],
                s.cols,
            ) < flat_pos(
                confirmed_events(s.threshold, s.confirmed@, s.counts@, raw, s.cols, s.grid_len())[k],
                s.cols,
            ),
{
    assert(s.rows as int * s.cols as int <= 255 * s.cols as int) by (nonlinear_arith)
        requires
            s.rows <= 255,
    ;
    lemma_events_scan_order(s.threshold, s.confirmed@, s.counts@, raw, s.cols, s.grid_len());
}

/// Law: fewer than `threshold` consecutive identical samples never confirm.
/// If, counting the incoming sample, position `i` has read the opposite of
/// its confirmed state for fewer than `threshold` consecutive scans, the
/// confirmed state stays as it is.
pub proof fn lemma_short_streak_never_confirms(s: DebounceState, raw: Seq<bool>, i: int)
    requires
        s.inv(),
        0 <= i < s.grid_len(),
        raw.len() == s.grid_len(),
        trailing_run(s.history@.push(raw), i, !s.confirmed@[i]) < s.threshold,
    ensures
        cell_next_confirmed(s.threshold, s.confirmed@[i], s.counts@[i], raw[i]) == s.confirmed@[i],
{
    lemma_trailing_run_push(s.history@, raw, i, !s.confirmed@[i]);
    if raw[i] != s.confirmed@[i] {
        assert(raw[i] == !s.confirmed@[i]);
    }
}

/// Law: a sample that agrees with the confirmed grid everywhere confirms
/// nothing — the emitted event sequence is empty.
pub proof fn lemma_matching_sample_quiet(
    threshold: u16,
    conf: Seq<bool>,
    cnts: Seq<u16>,
    raw: Seq<bool>,
    cols: u8,
    n: int,
)
    requires
        forall|i: int| 0 <= i < n ==> raw[i] == conf[i],
    ensures
        confirmed_events(threshold, conf, cnts, raw, cols, n) =~= Seq::<Event>::empty(),
    decreases n,
{
    if n > 0 {
        lemma_matching_sample_quiet(threshold, conf, cnts, raw, cols, n - 1);
    }
}

} // verus!
