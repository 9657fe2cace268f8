//! A fixed-window rate limiter.
//!
//! Moments are given in nanoseconds since the limiter was made.

use vstd::hash_map::StringHashMap;
use vstd::prelude::*;

use crate::text;

verus! {

/// A second, in nanoseconds.
pub const SECOND: u128 = 1_000_000_000;

/// How many windows the table holds before it is pruned.
pub const TABLE_SIZE: usize = 10_000;

/// A moment of the monotonic clock.
#[verifier::external_type_specification]
#[verifier::external_body]
pub struct ExInstant(std::time::Instant);

/// `Instant::now` reads the monotonic clock.
#[verifier::external_body]
fn read_clock() -> std::time::Instant {
    std::time::Instant::now()
}

/// `Instant::elapsed` gives the time since a moment. Nothing is said of how long that is.
#[verifier::external_body]
pub(crate) fn nanoseconds_since(start: &std::time::Instant) -> u128 {
    start.elapsed().as_nanos()
}

/// The model of a [`RateLimiter`]: how many requests a window has room for, and by name the
/// requests that were let through in a window and when the window began.
pub ghost struct LimiterView {
    pub limit: u32,
    pub windows: Map<Seq<char>, (u32, u128)>,
}

/// The windows of a limiter, by name.
pub struct Windows {
    table: StringHashMap<(u32, u128)>,
    /// The names that have a window.
    names: Vec<String>,
    /// When the limiter was made.
    start: std::time::Instant,
}

impl View for Windows {
    type V = Map<Seq<char>, (u32, u128)>;

    closed spec fn view(&self) -> Map<Seq<char>, (u32, u128)> {
        self.table@
    }
}

/// Simple fixed-window per-IP rate limiter.
/// Each IP gets its own 1-second window; the counter resets when the window expires.
pub struct RateLimiter {
    pub windows: Windows,
    pub limit_per_second: u32,
}

impl View for RateLimiter {
    type V = LimiterView;

    open spec fn view(&self) -> LimiterView {
        LimiterView { limit: self.limit_per_second, windows: self.windows@ }
    }
}

/// How long ago a moment was.
pub open spec fn age(then: u128, now: u128) -> int {
    if now >= then {
        now - then
    } else {
        0
    }
}

/// The window of a name that has not expired yet.
pub open spec fn live(
    windows: Map<Seq<char>, (u32, u128)>,
    name: Seq<char>,
    now: u128,
) -> Option<(u32, u128)> {
    if windows.contains_key(name) && age(windows[name].1, now) < SECOND {
        Some(windows[name])
    } else {
        None
    }
}

/// The window that a request falls into: the live one, or a new one.
pub open spec fn window_for(view: LimiterView, name: Seq<char>, now: u128) -> (u32, u128) {
    match live(view.windows, name, now) {
        Some(window) => window,
        None => (0, now),
    }
}

/// Whether a request is let through: its window has room.
pub open spec fn is_allowed(view: LimiterView, name: Seq<char>, now: u128) -> bool {
    window_for(view, name, now).0 < view.limit
}

/// The table without the windows that began two seconds ago or earlier, where it has grown large.
pub open spec fn pruned(windows: Map<Seq<char>, (u32, u128)>, now: u128) -> Map<
    Seq<char>,
    (u32, u128),
> {
    if windows.len() > TABLE_SIZE {
        windows.restrict(
            Set::new(
                |name: Seq<char>|
                    windows.contains_key(name) && age(windows[name].1, now) < 2 * SECOND,
            ),
        )
    } else {
        windows
    }
}

/// The limiter after a request.
pub open spec fn after(view: LimiterView, name: Seq<char>, now: u128) -> LimiterView {
    let (count, start) = window_for(view, name, now);
    let counted = if is_allowed(view, name, now) {
        (count + 1) as u32
    } else {
        count
    };
    LimiterView {
        limit: view.limit,
        windows: pruned(view.windows, now).insert(name, (counted, start)),
    }
}

/// A sequence has one more element after a push.
proof fn lemma_contains_push(list: Seq<Seq<char>>, added: Seq<char>)
    ensures
        forall|item: Seq<char>|
            #[trigger] list.push(added).contains(item) <==> list.contains(item) || item == added,
        list.no_duplicates() && !list.contains(added) ==> list.push(added).no_duplicates(),
{
    assert forall|item: Seq<char>|
        #[trigger] list.push(added).contains(item) <==> list.contains(item) || item == added by {
        if list.contains(item) {
            let i = choose|i: int| 0 <= i < list.len() && list[i] == item;
            assert(list.push(added)[i] == item);
        }
        if item == added {
            assert(list.push(added)[list.len() as int] == item);
        }
    }
}

impl Windows {
    /// The list of names has each name that has a window, once.
    pub closed spec fn is_valid(&self) -> bool {
        let names = text::string_views(self.names@);
        &&& names.no_duplicates()
        &&& forall|name: Seq<char>| #[trigger]
            self.table@.contains_key(name) <==> names.contains(name)
    }

    /// When the limiter was made.
    pub closed spec fn made_at(&self) -> std::time::Instant {
        self.start
    }

    /// Whether the clock may read this many nanoseconds since the limiter was made: it is what
    /// [`nanoseconds_since`] may return for that moment.
    pub closed spec fn may_read(&self, now: u128) -> bool {
        call_ensures(nanoseconds_since, (&self.made_at(),), now)
    }

    /// Read the clock: the nanoseconds since the limiter was made.
    fn read(&self) -> (now: u128)
        ensures
            self.may_read(now),
    {
        let clock = nanoseconds_since;
        clock(&self.start)
    }

    /// No windows yet.
    fn new() -> (windows: Self)
        ensures
            windows.is_valid(),
            windows@.dom() =~= Set::empty(),
    {
        Windows { table: StringHashMap::new(), names: Vec::new(), start: read_clock() }
    }

    /// Drop the windows that began two seconds ago or earlier, where the table has grown large.
    fn prune(&mut self, now: u128)
        requires
            old(self).is_valid(),
        ensures
            final(self).is_valid(),
            final(self).made_at() == old(self).made_at(),
            final(self)@ == pruned(old(self)@, now),
    {
        if self.table.len() <= TABLE_SIZE {
            return;
        }
        let ghost before = self.table@;
        let ghost all = text::string_views(self.names@);
        let mut table: StringHashMap<(u32, u128)> = StringHashMap::new();
        let mut names: Vec<String> = Vec::new();
        let mut i: usize = 0;
        assert(all.take(0) =~= seq![]);
        while i < self.names.len()
            invariant
                i <= self.names@.len(),
                self.table@ == before,
                all == text::string_views(self.names@),
                all.no_duplicates(),
                forall|name: Seq<char>| #[trigger]
                    before.contains_key(name) <==> all.contains(name),
                text::string_views(names@).no_duplicates(),
                forall|name: Seq<char>| #[trigger]
                    table@.contains_key(name) <==> text::string_views(names@).contains(name),
                forall|name: Seq<char>| #[trigger]
                    table@.contains_key(name) <==> all.take(i as int).contains(name) && age(
                        before[name].1,
                        now,
                    ) < 2 * SECOND,
                forall|name: Seq<char>| #[trigger]
                    table@.contains_key(name) ==> table@[name] == before[name],
            decreases self.names@.len() - i,
        {
            let ghost name = all[i as int];
            let ghost prior = text::string_views(names@);
            proof {
                assert(all.take(i + 1) =~= all.take(i as int).push(name));
                lemma_contains_push(all.take(i as int), name);
                lemma_contains_push(prior, name);
                assert(all.contains(name));
                assert(!all.take(i as int).contains(name)) by {
                    if all.take(i as int).contains(name) {
                        let j = choose|j: int| 0 <= j < i && all.take(i as int)[j] == name;
                        assert(all[j] == all[i as int]);
                    }
                }
                assert(!table@.contains_key(name));
            }
            if let Some(window) = self.table.get(self.names[i].as_str()) {
                let window: (u32, u128) = *window;
                if !(now >= window.1 && now - window.1 >= 2 * SECOND) {
                    table.insert(self.names[i].clone(), window);
                    names.push(self.names[i].clone());
                    assert(text::string_views(names@) =~= prior.push(name));
                }
            }
            i += 1;
        }
        self.table = table;
        self.names = names;
        assert(all.take(all.len() as int) =~= all);
        assert(self.table@ =~= pruned(before, now));
    }

    /// The window of a name.
    fn get(&self, name: &str) -> (window: Option<(u32, u128)>)
        ensures
            window == (if self@.contains_key(name@) {
                Some(self@[name@])
            } else {
                None
            }),
    {
        match self.table.get(name) {
            Some(window) => Some(*window),
            None => None,
        }
    }

    /// Put a window under a name.
    fn put(&mut self, name: &str, window: (u32, u128))
        requires
            old(self).is_valid(),
        ensures
            final(self).is_valid(),
            final(self).made_at() == old(self).made_at(),
            final(self)@ == old(self)@.insert(name@, window),
    {
        let ghost names = text::string_views(self.names@);
        if self.table.get(name).is_none() {
            self.names.push(name.to_owned());
            proof {
                assert(text::string_views(self.names@) =~= names.push(name@));
                lemma_contains_push(names, name@);
            }
        }
        self.table.insert(name.to_owned(), window);
    }
}

impl RateLimiter {
    /// The windows are valid.
    pub open spec fn is_valid(&self) -> bool {
        self.windows.is_valid()
    }

    /// Make a limiter that lets this many requests through in a window.
    pub fn new(limit_per_second: u32) -> (limiter: Self)
        ensures
            limiter.is_valid(),
            limiter.limit_per_second == limit_per_second,
            limiter@.windows.dom() =~= Set::empty(),
    {
        RateLimiter { windows: Windows::new(), limit_per_second }
    }

    /// Returns `true` if a request at this moment should be allowed, `false` when the limit is
    /// exceeded.
    pub fn allow_at(&mut self, ip: &str, now: u128) -> (allowed: bool)
        requires
            old(self).is_valid(),
        ensures
            final(self).is_valid(),
            final(self).limit_per_second == old(self).limit_per_second,
            final(self).windows.made_at() == old(self).windows.made_at(),
            allowed == is_allowed(old(self)@, ip@, now),
            final(self)@ == after(old(self)@, ip@, now),
    {
        let ghost view = self@;
        self.windows.prune(now);
        let (count, began): (u32, u128) = match self.windows.get(ip) {
            Some(window) => {
                if now >= window.1 && now - window.1 >= SECOND {
                    (0, now)
                } else {
                    (window.0, window.1)
                }
            },
            None => (0, now),
        };
        assert((count, began) == window_for(view, ip@, now));
        let allowed = count < self.limit_per_second;
        let counted: u32 = if allowed {
            count + 1
        } else {
            count
        };
        self.windows.put(ip, (counted, began));
        allowed
    }

    /// Returns `true` if this request should be allowed, `false` when the limit is exceeded.
    pub fn allow(&mut self, ip: &str) -> (allowed: bool)
        requires
            old(self).is_valid(),
        ensures
            final(self).is_valid(),
            final(self).limit_per_second == old(self).limit_per_second,
            final(self).windows.made_at() == old(self).windows.made_at(),
            exists|now: u128| #[trigger]
                old(self).windows.may_read(now) && allowed == is_allowed(old(self)@, ip@, now)
                    && final(self)@ == after(old(self)@, ip@, now),
    {
        let now = self.windows.read();
        self.allow_at(ip, now)
    }
}

/// The limiter after some requests, each with a name and a moment.
pub open spec fn after_all(view: LimiterView, requests: Seq<(Seq<char>, u128)>) -> LimiterView
    decreases requests.len(),
{
    if requests.len() == 0 {
        view
    } else {
        let last = requests.last();
        after(after_all(view, requests.drop_last()), last.0, last.1)
    }
}

/// How many of the requests with this name are let through.
pub open spec fn granted(
    view: LimiterView,
    requests: Seq<(Seq<char>, u128)>,
    name: Seq<char>,
) -> nat
    decreases requests.len(),
{
    if requests.len() == 0 {
        0
    } else {
        let before = requests.drop_last();
        let last = requests.last();
        granted(view, before, name) + if last.0 == name && is_allowed(
            after_all(view, before),
            last.0,
            last.1,
        ) {
            1nat
        } else {
            0nat
        }
    }
}

/// The requests with this name.
pub open spec fn only(requests: Seq<(Seq<char>, u128)>, name: Seq<char>) -> Seq<(Seq<char>, u128)>
    decreases requests.len(),
{
    if requests.len() == 0 {
        seq![]
    } else {
        let before = only(requests.drop_last(), name);
        if requests.last().0 == name {
            before.push(requests.last())
        } else {
            before
        }
    }
}

/// Whether the requests stand in the order of time, the first not before `start`.
pub open spec fn in_order(requests: Seq<(Seq<char>, u128)>, start: u128) -> bool {
    &&& forall|i: int| 0 <= i < requests.len() ==> start <= (#[trigger] requests[i]).1
    &&& forall|i: int, j: int|
        0 <= i <= j < requests.len() ==> (#[trigger] requests[i]).1 <= (#[trigger] requests[j]).1
}

/// A request leaves the live windows of the other names as they are, pruning or not.
pub proof fn law_other_names_untouched(
    view: LimiterView,
    name: Seq<char>,
    now: u128,
    other: Seq<char>,
    later: u128,
)
    requires
        other != name,
        now <= later,
    ensures
        live(after(view, name, now).windows, other, later) == live(view.windows, other, later),
{
}

/// What a request does is fixed by the live window of its name: the window counts the request
/// where it has room, and a request without a live window opens one. So pruning the table never
/// changes what is let through.
pub proof fn law_live_window_decides(view: LimiterView, name: Seq<char>, now: u128, later: u128)
    requires
        now <= later,
    ensures
        is_allowed(view, name, now) == (match live(view.windows, name, now) {
            Some(window) => window.0 < view.limit,
            None => 0 < view.limit,
        }),
        live(after(view, name, now).windows, name, later) == (if age(
            window_for(view, name, now).1,
            later,
        ) < 1_000_000_000 {
            Some(
                (
                    if is_allowed(view, name, now) {
                        (window_for(view, name, now).0 + 1) as u32
                    } else {
                        window_for(view, name, now).0
                    },
                    window_for(view, name, now).1,
                ),
            )
        } else {
            None
        }),
{
}

/// The limit stays as it is.
proof fn lemma_limit_stays(view: LimiterView, requests: Seq<(Seq<char>, u128)>)
    ensures
        after_all(view, requests).limit == view.limit,
    decreases requests.len(),
{
    if requests.len() > 0 {
        lemma_limit_stays(view, requests.drop_last());
    }
}

/// Requests in order stay so without the last one.
proof fn lemma_in_order_before(requests: Seq<(Seq<char>, u128)>, start: u128)
    requires
        in_order(requests, start),
        requests.len() > 0,
    ensures
        in_order(requests.drop_last(), start),
        forall|i: int|
            0 <= i < requests.drop_last().len() ==> (#[trigger] requests.drop_last()[i]).1
                <= requests.last().1,
{
    let before = requests.drop_last();
    assert forall|i: int| 0 <= i < before.len() implies start <= (#[trigger] before[i]).1
        && before[i].1 <= requests.last().1 by {
        assert(before[i] == requests[i]);
        assert(requests[i].1 <= requests[requests.len() - 1].1);
    }
    assert forall|i: int, j: int| 0 <= i <= j < before.len() implies (#[trigger] before[i]).1 <= (
    #[trigger] before[j]).1 by {
        assert(before[i] == requests[i] && before[j] == requests[j]);
    }
}

/// The requests of the other names change nothing for a name: not which of its requests are let
/// through, and not its live window.
pub proof fn law_names_are_independent(
    view: LimiterView,
    requests: Seq<(Seq<char>, u128)>,
    name: Seq<char>,
    start: u128,
    later: u128,
)
    requires
        in_order(requests, start),
        forall|i: int| 0 <= i < requests.len() ==> (#[trigger] requests[i]).1 <= later,
    ensures
        granted(view, requests, name) == granted(view, only(requests, name), name),
        live(after_all(view, requests).windows, name, later) == live(
            after_all(view, only(requests, name)).windows,
            name,
            later,
        ),
    decreases requests.len(),
{
    if requests.len() > 0 {
        let before = requests.drop_last();
        let last = requests.last();
        assert(last == requests[requests.len() - 1]);
        lemma_in_order_before(requests, start);
        assert forall|i: int| 0 <= i < before.len() implies (#[trigger] before[i]).1 <= later by {
            assert(before[i] == requests[i]);
        }
        law_names_are_independent(view, before, name, start, last.1);
        law_names_are_independent(view, before, name, start, later);
        lemma_limit_stays(view, before);
        lemma_limit_stays(view, only(before, name));
        if last.0 == name {
            assert(only(requests, name).drop_last() =~= only(before, name));
            law_live_window_decides(after_all(view, before), name, last.1, later);
            law_live_window_decides(after_all(view, only(before, name)), name, last.1, later);
        } else {
            law_other_names_untouched(after_all(view, before), last.0, last.1, name, later);
        }
    }
}

/// Of the requests of a name in one window, as many are let through as the limit says, and all
/// of them where they are no more.
pub proof fn law_limit_per_window(
    view: LimiterView,
    requests: Seq<(Seq<char>, u128)>,
    name: Seq<char>,
    start: u128,
    later: u128,
)
    requires
        live(view.windows, name, start) is None,
        in_order(requests, start),
        requests.len() > 0,
        requests[0] == (name, start),
        forall|i: int| 0 <= i < requests.len() ==> (#[trigger] requests[i]).1 <= later,
        later < start + 1_000_000_000,
    ensures
        granted(view, requests, name) == (if only(requests, name).len() <= view.limit {
            only(requests, name).len()
        } else {
            view.limit as nat
        }),
        live(after_all(view, requests).windows, name, later) == Some(
            (granted(view, requests, name) as u32, start),
        ),
    decreases requests.len(),
{
    let before = requests.drop_last();
    let last = requests.last();
    assert(last == requests[requests.len() - 1]);
    if requests.len() == 1 {
        assert(before =~= seq![]);
        law_live_window_decides(view, name, start, later);
        assert(only(before, name) =~= seq![]);
        assert(granted(view, before, name) == 0);
        assert(after_all(view, before) == view);
        assert(only(requests, name).len() == 1);
    } else {
        lemma_in_order_before(requests, start);
        assert(before[0] == requests[0]);
        law_limit_per_window(view, before, name, start, last.1);
        assert forall|i: int| 0 <= i < before.len() implies (#[trigger] before[i]).1 <= later by {
            assert(before[i] == requests[i]);
        }
        law_limit_per_window(view, before, name, start, later);
        lemma_limit_stays(view, before);
        if last.0 == name {
            law_live_window_decides(after_all(view, before), name, last.1, later);
        } else {
            law_other_names_untouched(after_all(view, before), last.0, last.1, name, later);
        }
    }
}

/// A second after its window began, a name is let through again, where anything is.
pub proof fn law_window_expires(
    view: LimiterView,
    name: Seq<char>,
    window: (u32, u128),
    began: u128,
    now: u128,
)
    requires
        live(view.windows, name, began) == Some(window),
        now >= window.1 + 1_000_000_000,
        view.limit > 0,
    ensures
        is_allowed(view, name, now),
        live(after(view, name, now).windows, name, now) == Some((1u32, now)),
{
}

/// A limit of zero lets nothing through.
pub proof fn law_zero_limit(view: LimiterView, name: Seq<char>, now: u128)
    requires
        view.limit == 0,
    ensures
        !is_allowed(view, name, now),
{
}

/// After a request on a table that has grown large, no window in it began two seconds ago or
/// earlier.
pub proof fn law_large_table_is_pruned(
    view: LimiterView,
    name: Seq<char>,
    now: u128,
    other: Seq<char>,
)
    requires
        view.windows.len() > 10_000,
        after(view, name, now).windows.contains_key(other),
    ensures
        age(after(view, name, now).windows[other].1, now) < 2_000_000_000,
{
}

/// A window lasts a second: a request is counted in the window of an earlier one of its name if
/// and only if less than a second has passed since that window began, and otherwise begins one of
/// its own, which has room for as many requests as the limit says.
pub proof fn law_windows_last_a_second(view: LimiterView, name: Seq<char>, first: u128, second: u128)
    requires
        live(view.windows, name, first) is None,
        first <= second,
        view.limit > 0,
    ensures
        is_allowed(view, name, first),
        after(view, name, first).windows[name] == (1u32, first),
        second - first < 1_000_000_000 ==> {
            &&& is_allowed(after(view, name, first), name, second) <==> view.limit > 1
            &&& after(after(view, name, first), name, second).windows[name].1 == first
        },
        second - first >= 1_000_000_000 ==> {
            &&& is_allowed(after(view, name, first), name, second)
            &&& after(after(view, name, first), name, second).windows[name] == (1u32, second)
        },
{
}

/// A window counts the requests that are let through, one by one, and lets none through once it is
/// full; the limit stays as it is.
pub proof fn law_window_counts(
    view: LimiterView,
    name: Seq<char>,
    count: u32,
    began: u128,
    now: u128,
)
    requires
        view.windows.contains_key(name),
        view.windows[name] == (count, began),
        began <= now < began + 1_000_000_000,
    ensures
        is_allowed(view, name, now) <==> count < view.limit,
        count < view.limit ==> after(view, name, now).windows[name] == ((count + 1) as u32, began),
        count >= view.limit ==> after(view, name, now).windows[name] == (count, began),
        after(view, name, now).limit == view.limit,
{
}

/// What a limiter holds is its limit and its windows.
pub proof fn law_limiter_view(limiter: RateLimiter)
    ensures
        limiter@.limit == limiter.limit_per_second,
        limiter@.windows == limiter.windows@,
{
}

/// What the clock may read is what [`nanoseconds_since`] may return for the moment at which the
/// limiter was made, in nanoseconds as they are returned.
pub(crate) proof fn law_clock_is_read(windows: Windows, now: u128)
    ensures
        windows.may_read(now) <==> call_ensures(nanoseconds_since, (&windows.made_at(),), now),
{
}

/// The windows of a limiter are those of its table, and it was made when its clock was read first.
proof fn law_windows_view(windows: Windows)
    ensures
        windows@ == windows.table@,
        windows.made_at() == windows.start,
{
}

} // verus!
