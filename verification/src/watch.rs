//! The file watcher of one service: which changes count, and when a burst of
//! them asks for a restart.
//!
//! Observing the file system is the caller's part; this module is told of
//! each change and of the time, in milliseconds on a clock that does not go
//! back.

use crate::text::{chars_of, pieces_of, rows, split};
use vstd::prelude::*;

verus! {

/// Whether the pattern matches the text. `*` stands for any run of
/// characters, `?` for any one character, and every other character for
/// itself.
pub open spec fn glob_matches(pattern: Seq<char>, text: Seq<char>) -> bool
    decreases pattern.len(), text.len(),
{
    if pattern.len() == 0 {
        text.len() == 0
    } else if pattern[0] == '*' {
        glob_matches(pattern.skip(1), text) || (text.len() > 0 && glob_matches(
            pattern,
            text.skip(1),
        ))
    } else if text.len() == 0 {
        false
    } else if pattern[0] == '?' || pattern[0] == text[0] {
        glob_matches(pattern.skip(1), text.skip(1))
    } else {
        false
    }
}

/// Whether the pattern matches the text.
pub fn glob_match(pattern: &Vec<char>, text: &Vec<char>) -> (r: bool)
    ensures
        r == glob_matches(pattern@, text@),
{
    let m = pattern.len();
    let n = text.len();
    // below[j] says whether the pattern from i + 1 on matches the text from j on
    let mut below: Vec<bool> = Vec::new();
    let mut j: usize = 0;
    while j < n
        invariant
            n == text@.len(),
            m == pattern@.len(),
            j <= n,
            below@.len() == j,
            forall|b: int|
                0 <= b < j ==> #[trigger] below@[b] == glob_matches(
                    pattern@.skip(m as int),
                    text@.skip(b),
                ),
        decreases n - j,
    {
        proof {
            assert(pattern@.skip(m as int).len() == 0);
            assert(text@.skip(j as int).len() > 0);
        }
        below.push(false);
        j += 1;
    }
    proof {
        assert(pattern@.skip(m as int).len() == 0);
        assert(text@.skip(n as int).len() == 0);
    }
    below.push(true);
    let mut i: usize = m;
    while i > 0
        invariant
            n == text@.len(),
            m == pattern@.len(),
            i <= m,
            below@.len() == n + 1,
            forall|b: int|
                0 <= b <= n ==> #[trigger] below@[b] == glob_matches(
                    pattern@.skip(i as int),
                    text@.skip(b),
                ),
        decreases i,
    {
        i -= 1;
        let c = pattern[i];
        let ghost rest = pattern@.skip(i as int);
        proof {
            assert(rest.len() > 0 && rest[0] == c);
            assert(rest.skip(1) =~= pattern@.skip(i + 1));
        }
        let mut row: Vec<bool> = Vec::new();
        // the row is filled from its end; `row` holds it turned round
        let mut k: usize = 0;
        while k <= n
            invariant
                n == text@.len(),
                m == pattern@.len(),
                i < m,
                c == pattern@[i as int],
                rest == pattern@.skip(i as int),
                rest.len() > 0 && rest[0] == c,
                rest.skip(1) == pattern@.skip(i + 1),
                below@.len() == n + 1,
                k <= n + 1,
                row@.len() == k,
                forall|b: int|
                    0 <= b <= n ==> #[trigger] below@[b] == glob_matches(
                        pattern@.skip(i + 1),
                        text@.skip(b),
                    ),
                forall|a: int|
                    0 <= a < k ==> #[trigger] row@[a] == glob_matches(rest, text@.skip(n - a)),
            decreases n + 1 - k,
        {
            let at = n - k;
            let ghost tail = text@.skip(at as int);
            proof {
                if k > 0 {
                    assert(tail.len() > 0);
                    assert(tail.skip(1) =~= text@.skip(at + 1));
                    assert(tail[0] == text@[at as int]);
                } else {
                    assert(tail.len() == 0);
                }
            }
            let value = if c == '*' {
                below[at] || (k > 0 && row[k - 1])
            } else if k == 0 {
                false
            } else if c == '?' || c == text[at] {
                below[at + 1]
            } else {
                false
            };
            row.push(value);
            k += 1;
        }
        let mut turned: Vec<bool> = Vec::new();
        let mut b: usize = 0;
        while b <= n
            invariant
                n == text@.len(),
                row@.len() == n + 1,
                b <= n + 1,
                turned@.len() == b,
                forall|a: int| 0 <= a < b ==> #[trigger] turned@[a] == row@[n - a],
            decreases n + 1 - b,
        {
            turned.push(row[n - b]);
            b += 1;
        }
        proof {
            assert forall|x: int| 0 <= x <= n implies #[trigger] turned@[x] == glob_matches(
                rest,
                text@.skip(x),
            ) by {
                assert(turned@[x] == row@[n - x]);
            }
        }
        below = turned;
    }
    proof {
        assert(pattern@.skip(0) =~= pattern@);
        assert(text@.skip(0) =~= text@);
    }
    below[0]
}

/// Whether a pattern matches the path as a whole or one of its parts between
/// slashes.
pub open spec fn pattern_hits(pattern: Seq<char>, path: Seq<char>) -> bool {
    glob_matches(pattern, path) || exists|k: int|
        0 <= k < pieces_of(path, '/').len() && glob_matches(
            pattern,
            #[trigger] pieces_of(path, '/')[k],
        )
}

/// Whether some pattern hits the path.
pub open spec fn is_ignored(patterns: Seq<Seq<char>>, path: Seq<char>) -> bool {
    exists|p: int| 0 <= p < patterns.len() && pattern_hits(#[trigger] patterns[p], path)
}

/// Whether a change of `path` is passed over: some pattern matches the path
/// as a whole or one of its parts between slashes.
pub fn ignored(patterns: &Vec<Vec<char>>, path: &str) -> (r: bool)
    ensures
        r == is_ignored(rows(patterns@), path@),
{
    let whole = chars_of(path);
    let parts = split(&whole, '/');
    let mut p: usize = 0;
    while p < patterns.len()
        invariant
            whole@ == path@,
            rows(parts@) == pieces_of(path@, '/'),
            p <= patterns@.len(),
            forall|a: int| 0 <= a < p ==> !pattern_hits(#[trigger] rows(patterns@)[a], path@),
        decreases patterns@.len() - p,
    {
        assert(rows(patterns@)[p as int] == patterns@[p as int]@);
        if glob_match(&patterns[p], &whole) {
            return true;
        }
        let mut k: usize = 0;
        while k < parts.len()
            invariant
                rows(parts@) == pieces_of(path@, '/'),
                p < patterns@.len(),
                k <= parts@.len(),
                forall|b: int|
                    0 <= b < k ==> !glob_matches(
                        patterns@[p as int]@,
                        #[trigger] pieces_of(path@, '/')[b],
                    ),
            decreases parts@.len() - k,
        {
            assert(rows(parts@)[k as int] == parts@[k as int]@);
            if glob_match(&patterns[p], &parts[k]) {
                assert(pattern_hits(rows(patterns@)[p as int], path@));
                return true;
            }
            k += 1;
        }
        p += 1;
    }
    false
}

/// Lets one change of a burst through.
#[derive(Clone, Copy, Debug, PartialEq, Eq)]
pub struct Debouncer {
    /// The length of a burst.
    pub window: u64,
    /// When the last change was let through.
    pub last: Option<u64>,
}

/// Whether a change at `now` is let through: it is the first one, or the
/// window of the last one that was let through is over.
pub open spec fn fires(d: Debouncer, now: u64) -> bool {
    match d.last {
        None => true,
        Some(t) => now >= t && now - t >= d.window,
    }
}

/// The debouncer after a change at `now`.
pub open spec fn after_change(d: Debouncer, now: u64) -> Debouncer {
    if fires(d, now) {
        Debouncer { window: d.window, last: Some(now) }
    } else {
        d
    }
}

/// The debouncer after the changes at `times`, first to last.
pub open spec fn after_changes(d: Debouncer, times: Seq<u64>) -> Debouncer
    decreases times.len(),
{
    if times.len() == 0 {
        d
    } else {
        after_change(after_changes(d, times.drop_last()), times.last())
    }
}

/// How many of the changes at `times` are let through.
pub open spec fn let_through(d: Debouncer, times: Seq<u64>) -> nat
    decreases times.len(),
{
    if times.len() == 0 {
        0
    } else if fires(after_changes(d, times.drop_last()), times.last()) {
        let_through(d, times.drop_last()) + 1
    } else {
        let_through(d, times.drop_last())
    }
}

/// The changes come in the order of time and all within one window after
/// the first.
pub open spec fn is_burst(times: Seq<u64>, window: u64) -> bool {
    &&& times.len() > 0
    &&& forall|a: int, b: int| 0 <= a <= b < times.len() ==> times[a] <= times[b]
    &&& times[times.len() - 1] - times[0] < window
}

/// Of a burst of changes that a debouncer sees first of all, exactly one is
/// let through: the first.
pub proof fn law_burst_fires_once(window: u64, times: Seq<u64>)
    requires
        is_burst(times, window),
    ensures
        let_through(Debouncer { window, last: None }, times) == 1,
        after_changes(Debouncer { window, last: None }, times) == (Debouncer {
            window,
            last: Some(times[0]),
        }),
    decreases times.len(),
{
    let d = Debouncer { window, last: None };
    if times.len() > 1 {
        let before = times.drop_last();
        assert(is_burst(before, window)) by {
            assert(before[before.len() - 1] == times[times.len() - 2]);
            assert(times[times.len() - 2] <= times[times.len() - 1]);
            assert(before[0] == times[0]);
        }
        law_burst_fires_once(window, before);
        assert(times[0] <= times[times.len() - 1]);
        let seen = after_changes(d, before);
        assert(seen.last == Some(times[0]));
        assert(!fires(seen, times.last()));
        assert(let_through(d, times) == let_through(d, before));
    } else {
        let before = times.drop_last();
        assert(before.len() == 0);
        assert(after_changes(d, before) == d);
        assert(let_through(d, before) == 0);
        assert(fires(d, times.last()));
    }
}

impl Debouncer {
    /// A debouncer that has seen no change.
    pub fn new(window: u64) -> (d: Debouncer)
        ensures
            d == (Debouncer { window, last: None }),
    {
        Debouncer { window, last: None }
    }

    /// Takes in a change at `now`; says whether it is let through.
    pub fn change(&mut self, now: u64) -> (through: bool)
        ensures
            through == fires(*old(self), now),
            *final(self) == after_change(*old(self), now),
    {
        let through = match self.last {
            None => true,
            Some(t) => now >= t && now - t >= self.window,
        };
        if through {
            self.last = Some(now);
        }
        through
    }
}

/// The watcher of one service.
pub struct FileWatcher {
    /// The patterns of the paths that do not count.
    pub ignore: Vec<Vec<char>>,
    /// Whether a change restarts the service.
    pub restart: bool,
    pub debounce: Debouncer,
}

impl FileWatcher {
    /// A watcher with the given patterns that has seen no change.
    pub fn new(ignore: &Vec<String>, restart: bool, window: u64) -> (w: FileWatcher)
        ensures
            rows(w.ignore@) == crate::graph::texts(ignore@),
            w.restart == restart,
            w.debounce == (Debouncer { window, last: None }),
    {
        let mut patterns: Vec<Vec<char>> = Vec::new();
        let mut i: usize = 0;
        while i < ignore.len()
            invariant
                i <= ignore@.len(),
                patterns@.len() == i,
                forall|a: int| 0 <= a < i ==> (#[trigger] patterns@[a])@ == ignore@[a]@,
            decreases ignore@.len() - i,
        {
            patterns.push(chars_of(ignore[i].as_str()));
            i += 1;
        }
        assert(rows(patterns@) =~= crate::graph::texts(ignore@));
        FileWatcher { ignore: patterns, restart, debounce: Debouncer::new(window) }
    }

    /// Takes in a change of `path` at `now`; says whether the service is to
    /// be asked to restart. A watcher that does not restart asks for
    /// nothing; an ignored path is passed over; of a burst of changes the
    /// first asks.
    pub fn on_change(&mut self, path: &str, now: u64) -> (restart: bool)
        ensures
            final(self).ignore == old(self).ignore,
            final(self).restart == old(self).restart,
            restart == (old(self).restart && !is_ignored(rows(old(self).ignore@), path@) && fires(
                old(self).debounce,
                now,
            )),
            final(self).debounce == if old(self).restart && !is_ignored(
                rows(old(self).ignore@),
                path@,
            ) {
                after_change(old(self).debounce, now)
            } else {
                old(self).debounce
            },
    {
        if !self.restart || ignored(&self.ignore, path) {
            return false;
        }
        self.debounce.change(now)
    }
}

} // verus!
