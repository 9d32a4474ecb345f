//! The paginated fetcher's decision core.
//!
//! HTTP itself is performed outside the library; this module holds every
//! decision the fetcher makes: which query parameters each page carries,
//! which failures are retried and with what delay, when the run stops,
//! and the statistics it reports. Pages are processed in page order;
//! the first page with fewer records than the page size (an empty page
//! included) is counted and ends the run, and a page that fails after
//! its retries ends the run keeping the statistics gathered so far.

use vstd::prelude::*;
use crate::strutil::{dec_chars, u64_to_string};

verus! {

/// How successive pages of one resource are requested.
#[derive(Debug, Clone)]
pub enum Pagination {
    LimitOffset { limit_param: String, offset_param: String },
    PageNumber { page_param: String, per_page_param: String },
    PageOnly { page_param: String },
    Cursor { cursor_param: String, page_size_param: String },
    Default,
}

/// Retry policy for one page request. The backoff multiplier is held in
/// hundredths, so `150` scales each delay by one and a half.
#[derive(Debug, Clone, Copy, PartialEq, Eq, Structural)]
pub struct Retry {
    pub max_attempts: u32,
    pub base_delay_ms: u64,
    pub multiplier_hundredths: u64,
    pub max_delay_ms: u64,
}

impl Retry {
    /// At least one attempt, and a multiplier of at least one.
    pub open spec fn valid(&self) -> bool {
        self.max_attempts >= 1 && self.multiplier_hundredths >= 100
    }
}

/// Summary of one fetch run.
#[derive(Debug, Clone, Copy, PartialEq, Eq, Structural)]
pub struct FetchStats {
    pub total_items: u64,
    pub pages_fetched: u64,
    pub retries: u64,
    pub elapsed_ms: u64,
}

impl FetchStats {
    /// A zeroed summary.
    pub fn new() -> (r: Self)
        ensures
            r.total_items == 0 && r.pages_fetched == 0 && r.retries == 0 && r.elapsed_ms == 0,
    {
        FetchStats { total_items: 0, pages_fetched: 0, retries: 0, elapsed_ms: 0 }
    }
}

/// The query parameters one page carries under a strategy, as name and
/// decimal value: `limit`/`offset` counts records, `page`/`per_page`
/// counts pages starting at one. Strategies that issue no pages yield
/// nothing.
pub open spec fn page_params_spec(p: Pagination, page_index: int, page_size: int) -> Option<
    Seq<(Seq<char>, Seq<char>)>,
> {
    match p {
        Pagination::LimitOffset { limit_param, offset_param } => Some(
            seq![
                (limit_param@, dec_chars(page_size as nat)),
                (offset_param@, dec_chars((page_index * page_size) as nat)),
            ],
        ),
        Pagination::PageNumber { page_param, per_page_param } => Some(
            seq![
                (page_param@, dec_chars((page_index + 1) as nat)),
                (per_page_param@, dec_chars(page_size as nat)),
            ],
        ),
        _ => None,
    }
}

/// The query parameters for one page request.
pub fn page_params(p: &Pagination, page_index: u64, page_size: u64) -> (r: Option<
    Vec<(String, String)>,
>)
    requires
        page_index * page_size <= u64::MAX,
        page_index < u64::MAX,
    ensures
        match r {
            Some(v) => {
                &&& page_params_spec(*p, page_index as int, page_size as int) matches Some(ps)
                &&& v@.len() == ps.len()
                &&& forall|j: int|
                    0 <= j < ps.len() ==> v@[j].0@ == ps[j].0 && v@[j].1@ == ps[j].1
            },
            None => page_params_spec(*p, page_index as int, page_size as int) is None,
        },
{
    match p {
        Pagination::LimitOffset { limit_param, offset_param } => {
            proof {
                assert(page_index * page_size >= 0) by (nonlinear_arith)
                    requires
                        page_index >= 0 && page_size >= 0,
                ;
            }
            let offset: u64 = page_index * page_size;
            let mut v: Vec<(String, String)> = Vec::new();
            v.push((limit_param.clone(), u64_to_string(page_size)));
            v.push((offset_param.clone(), u64_to_string(offset)));
            Some(v)
        },
        Pagination::PageNumber { page_param, per_page_param } => {
            let mut v: Vec<(String, String)> = Vec::new();
            v.push((page_param.clone(), u64_to_string(page_index + 1)));
            v.push((per_page_param.clone(), u64_to_string(page_size)));
            Some(v)
        },
        _ => None,
    }
}

/// Failures worth retrying: transport errors (no status), HTTP 429, and
/// the 5xx range. Other statuses are final.
pub open spec fn retryable_spec(status: Option<u16>) -> bool {
    match status {
        None => true,
        Some(c) => c == 429 || (500 <= c && c <= 599),
    }
}

/// Whether a failed attempt is retried: the failure must be retryable
/// and attempts must remain.
pub fn should_retry(status: Option<u16>, attempts_done: u32, retry: &Retry) -> (r: bool)
    ensures
        r == (retryable_spec(status) && attempts_done < retry.max_attempts),
{
    let retryable = match status {
        None => true,
        Some(c) => c == 429 || (500 <= c && c <= 599),
    };
    retryable && attempts_done < retry.max_attempts
}

/// The delay before retry `k` (1-indexed): the base delay scaled by the
/// multiplier once per earlier retry, each step capped at the maximum.
pub open spec fn delay_spec(base: int, mult_h: int, max: int, k: int) -> int
    decreases k,
{
    if k <= 1 {
        if base <= max {
            base
        } else {
            max
        }
    } else {
        let d = delay_spec(base, mult_h, max, k - 1);
        let n = d * mult_h / 100;
        if n <= max {
            n
        } else {
            max
        }
    }
}

/// The delay in milliseconds before retry `k` (1-indexed).
pub fn retry_delay_ms(retry: &Retry, k: u32) -> (r: u64)
    requires
        k >= 1,
    ensures
        r as int == delay_spec(
            retry.base_delay_ms as int,
            retry.multiplier_hundredths as int,
            retry.max_delay_ms as int,
            k as int,
        ),
{
    let max = retry.max_delay_ms;
    let mut d: u64 = if retry.base_delay_ms <= max {
        retry.base_delay_ms
    } else {
        max
    };
    let mut j: u32 = 1;
    while j < k
        invariant
            1 <= j <= k,
            d as int == delay_spec(
                retry.base_delay_ms as int,
                retry.multiplier_hundredths as int,
                retry.max_delay_ms as int,
                j as int,
            ),
            d <= max || d == retry.base_delay_ms,
            max == retry.max_delay_ms,
        decreases k - j,
    {
        proof {
            assert((d as int) * (retry.multiplier_hundredths as int) < 0x1_0000_0000_0000_0000_0000_0000_0000_0000)
                by (nonlinear_arith)
                requires
                    0 <= d < 0x1_0000_0000_0000_0000,
                    0 <= retry.multiplier_hundredths < 0x1_0000_0000_0000_0000,
            ;
        }
        let wide: u128 = (d as u128) * (retry.multiplier_hundredths as u128) / 100;
        let nd: u64 = if wide > max as u128 {
            max
        } else {
            wide as u64
        };
        proof {
            assert((d as u128) * (retry.multiplier_hundredths as u128) == (d as int) * (
            retry.multiplier_hundredths as int)) by (nonlinear_arith);
        }
        d = nd;
        j = j + 1;
    }
    d
}

/// The fetcher's run state: configuration, progress, and statistics.
#[derive(Debug, Clone, Copy, PartialEq, Eq, Structural)]
pub struct FetchEngine {
    pub page_size: u64,
    pub concurrency: u64,
    pub next_page: u64,
    pub done: bool,
    pub attempts_made: u64,
    pub stats: FetchStats,
}

impl FetchEngine {
    /// A page size of at least one record.
    pub open spec fn wf(&self) -> bool {
        self.page_size >= 1 && self.concurrency >= 1
    }

    /// Every attempt is either the one fetch of a counted page or a
    /// counted retry.
    pub open spec fn accounting_ok(&self) -> bool {
        self.attempts_made == self.stats.retries + self.stats.pages_fetched
    }

    /// A fresh engine about to request page zero.
    pub fn new(page_size: u64, concurrency: u64) -> (r: Self)
        requires
            page_size >= 1,
            concurrency >= 1,
        ensures
            r.wf(),
            r.accounting_ok(),
            r.page_size == page_size,
            r.concurrency == concurrency,
            r.next_page == 0,
            !r.done,
            r.attempts_made == 0,
            r.stats.total_items == 0 && r.stats.pages_fetched == 0 && r.stats.retries == 0
                && r.stats.elapsed_ms == 0,
    {
        FetchEngine {
            page_size,
            concurrency,
            next_page: 0,
            done: false,
            attempts_made: 0,
            stats: FetchStats::new(),
        }
    }

    /// The page indices of the next wave: up to `concurrency` pages
    /// starting at the next unprocessed page.
    pub fn next_wave(&self) -> (r: Vec<u64>)
        requires
            !self.done,
            self.next_page + self.concurrency <= u64::MAX,
        ensures
            r@.len() == self.concurrency,
            forall|j: int| 0 <= j < r@.len() ==> r@[j] == self.next_page + j,
    {
        let mut v: Vec<u64> = Vec::new();
        let mut j: u64 = 0;
        while j < self.concurrency
            invariant
                j <= self.concurrency,
                self.next_page + self.concurrency <= u64::MAX,
                v@.len() == j,
                forall|t: int| 0 <= t < v@.len() ==> v@[t] == self.next_page + t,
            decreases self.concurrency - j,
        {
            v.push(self.next_page + j);
            j = j + 1;
        }
        v
    }

    /// Count one page that was fetched successfully with `count` records
    /// after `attempts` attempts. A page shorter than the page size ends
    /// the run; its records still count.
    pub fn apply_page_success(&mut self, count: u64, attempts: u64)
        requires
            old(self).wf(),
            !old(self).done,
            attempts >= 1,
            old(self).stats.total_items + count <= u64::MAX,
            old(self).stats.pages_fetched < u64::MAX,
            old(self).stats.retries + (attempts - 1) <= u64::MAX,
            old(self).attempts_made + attempts <= u64::MAX,
            old(self).next_page < u64::MAX,
        ensures
            final(self).wf(),
            final(self).page_size == old(self).page_size,
            final(self).concurrency == old(self).concurrency,
            final(self).stats.total_items == old(self).stats.total_items + count,
            final(self).stats.pages_fetched == old(self).stats.pages_fetched + 1,
            final(self).stats.retries == old(self).stats.retries + (attempts - 1),
            final(self).stats.elapsed_ms == old(self).stats.elapsed_ms,
            final(self).attempts_made == old(self).attempts_made + attempts,
            final(self).next_page == old(self).next_page + 1,
            final(self).done == (count < old(self).page_size),
            old(self).accounting_ok() ==> final(self).accounting_ok(),
    {
        self.stats.total_items = self.stats.total_items + count;
        self.stats.pages_fetched = self.stats.pages_fetched + 1;
        self.stats.retries = self.stats.retries + (attempts - 1);
        self.attempts_made = self.attempts_made + attempts;
        self.next_page = self.next_page + 1;
        if count < self.page_size {
            self.done = true;
        }
    }

    /// Count one page whose retries were exhausted. The run ends; the
    /// records and pages counted so far are kept.
    pub fn apply_page_failure(&mut self, attempts: u64)
        requires
            old(self).wf(),
            !old(self).done,
            attempts >= 1,
            old(self).stats.retries + (attempts - 1) <= u64::MAX,
            old(self).attempts_made + attempts <= u64::MAX,
        ensures
            final(self).wf(),
            final(self).stats.total_items == old(self).stats.total_items,
            final(self).stats.pages_fetched == old(self).stats.pages_fetched,
            final(self).stats.retries == old(self).stats.retries + (attempts - 1),
            final(self).stats.elapsed_ms == old(self).stats.elapsed_ms,
            final(self).attempts_made == old(self).attempts_made + attempts,
            final(self).done,
    {
        self.stats.retries = self.stats.retries + (attempts - 1);
        self.attempts_made = self.attempts_made + attempts;
        self.done = true;
    }

    /// Record the run's wall-clock duration.
    pub fn set_elapsed(&mut self, ms: u64)
        ensures
            (*final(self) == FetchEngine {
                stats: FetchStats { elapsed_ms: ms, ..old(self).stats },
                ..*old(self)
            }),
    {
        self.stats.elapsed_ms = ms;
    }
}

/// One page of a simulated source: how many records it returns, how many
/// attempts it took, and whether it failed for good.
#[derive(Debug, Clone, Copy, PartialEq, Eq, Structural)]
pub struct SimPage {
    pub count: u64,
    pub attempts: u64,
    pub failed: bool,
}

/// The outcome of a simulated run.
pub struct SimOut {
    pub total: int,
    pub pages: int,
    pub retries: int,
    pub attempts: int,
    pub ok: bool,
}

/// The outcome of consuming the pages from `i` on, in page order: stop
/// at a failed page or at the first page shorter than the page size.
pub open spec fn sim_from(pages: Seq<SimPage>, page_size: int, i: int) -> SimOut
    decreases pages.len() - i,
    when 0 <= i
{
    if i >= pages.len() {
        SimOut { total: 0, pages: 0, retries: 0, attempts: 0, ok: true }
    } else {
        let p = pages[i];
        if p.failed {
            SimOut {
                total: 0,
                pages: 0,
                retries: p.attempts - 1,
                attempts: p.attempts as int,
                ok: false,
            }
        } else if p.count < page_size {
            SimOut {
                total: p.count as int,
                pages: 1,
                retries: p.attempts - 1,
                attempts: p.attempts as int,
                ok: true,
            }
        } else {
            let rest = sim_from(pages, page_size, i + 1);
            SimOut {
                total: p.count + rest.total,
                pages: 1 + rest.pages,
                retries: (p.attempts - 1) + rest.retries,
                attempts: p.attempts + rest.attempts,
                ok: rest.ok,
            }
        }
    }
}

/// Drive an engine over a fixed table of page results, in page order.
///
/// Returns the final statistics and whether the run ended without a hard
/// failure. When it did, the retries are exactly the attempts beyond one
/// per fetched page.
pub fn run_fetch_sim(pages: &Vec<SimPage>, page_size: u64) -> (r: (FetchStats, bool))
    requires
        page_size >= 1,
        pages@.len() <= 0xFFFF,
        forall|j: int|
            0 <= j < pages@.len() ==> (#[trigger] pages@[j]).count <= 0xFFFF_FFFF && 1 <= pages@[
                j].attempts <= 0xFFFF,
    ensures
        ({
            let out = sim_from(pages@, page_size as int, 0);
            &&& r.0.total_items == out.total
            &&& r.0.pages_fetched == out.pages
            &&& r.0.retries == out.retries
            &&& r.1 == out.ok
            &&& out.ok ==> r.0.retries == out.attempts - out.pages
        }),
{
    let mut engine = FetchEngine::new(page_size, 1);
    let mut i: usize = 0;
    let mut failed = false;
    loop
        invariant_except_break
            0 <= i <= pages@.len(),
            engine.wf(),
            engine.accounting_ok(),
            engine.page_size == page_size,
            !engine.done,
            !failed,
            pages@.len() <= 0xFFFF,
            forall|j: int|
                0 <= j < pages@.len() ==> (#[trigger] pages@[j]).count <= 0xFFFF_FFFF && 1
                    <= pages@[j].attempts <= 0xFFFF,
            engine.stats.total_items <= i * 0x1_0000_0000,
            engine.stats.pages_fetched <= i,
            engine.next_page <= i,
            engine.stats.retries <= i * 0x1_0000,
            engine.attempts_made <= i * 0x1_0000 + i,
            ({
                let out = sim_from(pages@, page_size as int, 0);
                let rest = sim_from(pages@, page_size as int, i as int);
                &&& out.total == engine.stats.total_items + rest.total
                &&& out.pages == engine.stats.pages_fetched + rest.pages
                &&& out.retries == engine.stats.retries + rest.retries
                &&& out.attempts == engine.attempts_made + rest.attempts
                &&& out.ok == rest.ok
            }),
        ensures
            ({
                let out = sim_from(pages@, page_size as int, 0);
                &&& out.total == engine.stats.total_items
                &&& out.pages == engine.stats.pages_fetched
                &&& out.retries == engine.stats.retries
                &&& out.ok == !failed
                &&& !failed ==> out.attempts == engine.attempts_made
                &&& !failed ==> engine.accounting_ok()
            }),
        decreases pages@.len() - i,
    {
        if i >= pages.len() {
            proof {
                assert(sim_from(pages@, page_size as int, i as int) == (SimOut {
                    total: 0,
                    pages: 0,
                    retries: 0,
                    attempts: 0,
                    ok: true,
                }));
            }
            break ;
        }
        let p = pages[i];
        if p.failed {
            engine.apply_page_failure(p.attempts);
            failed = true;
            break ;
        }
        let short = p.count < page_size;
        engine.apply_page_success(p.count, p.attempts);
        i = i + 1;
        if short {
            break ;
        }
    }
    proof {
        if !failed {
            assert(engine.attempts_made == engine.stats.retries + engine.stats.pages_fetched);
        }
    }
    (engine.stats, !failed)
}

/// The canonical pagination of a source of `n` records at `p` records a
/// page: full pages, then one short final page of the remainder.
pub open spec fn full_pages(n: int, p: int) -> Seq<SimPage>
    recommends
        p >= 1,
        n >= 0,
{
    Seq::new((n / p + 1) as nat, |i: int| if i < n / p {
        SimPage { count: p as u64, attempts: 1, failed: false }
    } else {
        SimPage { count: (n % p) as u64, attempts: 1, failed: false }
    })
}

proof fn lemma_sim_full_pages(n: int, p: int, i: int)
    requires
        1 <= p <= 0xFFFF_FFFF,
        0 <= n <= 0xFFFF_FFFF,
        n % p != 0,
        0 <= i <= n / p,
    ensures
        sim_from(full_pages(n, p), p, i) == (SimOut {
            total: n - i * p,
            pages: n / p + 1 - i,
            retries: 0,
            attempts: n / p + 1 - i,
            ok: true,
        }),
    decreases n / p - i,
{
    vstd::arithmetic::div_mod::lemma_fundamental_div_mod(n, p);
    let pages = full_pages(n, p);
    if i == n / p {
        assert(pages[i].count == n % p);
        assert(n % p < p);
        assert(n - i * p == n % p) by (nonlinear_arith)
            requires
                p >= 1 && n == p * (n / p) + n % p && i == n / p,
        ;
    } else {
        assert(pages[i].count == p);
        lemma_sim_full_pages(n, p, i + 1);
        assert(n - i * p == p + (n - (i + 1) * p)) by (nonlinear_arith);
    }
}

/// Completeness of the fetcher: over the canonical pagination of `n`
/// records at page size `p` (with a proper short final page, so `p` does
/// not divide `n`), the run counts exactly `n` records over exactly
/// `ceil(n / p)` pages, with no retries.
pub proof fn lemma_fetch_completeness(n: int, p: int)
    requires
        1 <= p <= 0xFFFF_FFFF,
        0 <= n <= 0xFFFF_FFFF,
        n % p != 0,
    ensures
        sim_from(full_pages(n, p), p, 0).total == n,
        sim_from(full_pages(n, p), p, 0).pages == (n + p - 1) / p,
        sim_from(full_pages(n, p), p, 0).retries == 0,
        sim_from(full_pages(n, p), p, 0).ok,
{
    lemma_sim_full_pages(n, p, 0);
    assert(sim_from(full_pages(n, p), p, 0).total == n - 0 * p);
    assert(n - 0 * p == n) by (nonlinear_arith);
    assert((n + p - 1) / p == n / p + 1) by {
        vstd::arithmetic::div_mod::lemma_fundamental_div_mod(n, p);
        vstd::arithmetic::div_mod::lemma_mod_bound(n, p);
        assert(n + p - 1 == p * (n / p + 1) + (n % p - 1)) by (nonlinear_arith)
            requires
                n == p * (n / p) + n % p,
        ;
        vstd::arithmetic::div_mod::lemma_fundamental_div_mod_converse(
            n + p - 1,
            p,
            n / p + 1,
            n % p - 1,
        );
    }
}

} // verus!
