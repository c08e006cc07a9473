//! Configuration values that the bus and its pipelines are built from:
//! reconnection backoff and the per-service middleware lists.

use vstd::prelude::*;
use vstd::arithmetic::div_mod::lemma_div_is_ordered;
use vstd::arithmetic::mul::lemma_mul_upper_bound;
use vstd::string::StringExecFns;
use vstd::string::StrSliceExecFns;
use crate::scaled::{lemma_scaled_monotone, scaled, scaled_capped};
use crate::text::{push_char, trim, trimmed, texts};

verus! {

/// A configuration that cannot be put into effect.
#[derive(Debug, Clone)]
pub enum ConfigError {
    /// A service lists a middleware that is not defined.
    UndefinedMiddleware { name: String },
}

impl ConfigError {
    pub open spec fn text(self) -> Seq<char> {
        match self {
            ConfigError::UndefinedMiddleware { name } => "middleware '"@ + name@
                + "' referenced but not defined in config"@,
        }
    }

    /// A description of the error for people.
    pub fn message(&self) -> (r: String)
        ensures
            r@ == self.text(),
    {
        match self {
            ConfigError::UndefinedMiddleware { name } => {
                let mut s = String::new();
                s.append("middleware '");
                s.append(name.as_str());
                s.append("' referenced but not defined in config");
                s
            },
        }
    }
}

/// The storage root when none is configured.
pub fn default_data_directory() -> (r: String)
    ensures
        r@ == "./data"@,
{
    String::from_str("./data")
}

/// Delay before the first restart, in milliseconds.
pub fn default_initial_delay() -> (r: u64)
    ensures
        r == 1000,
{
    1000
}

/// Largest delay before a restart, in milliseconds.
pub fn default_max_delay() -> (r: u64)
    ensures
        r == 60_000,
{
    60_000
}

/// Growth of the delay from one restart to the next, in thousandths.
pub fn default_multiplier() -> (r: u64)
    ensures
        r == 2000,
{
    2000
}

/// Spread of the random jitter around the delay, in thousandths.
pub fn default_jitter_factor() -> (r: u64)
    ensures
        r == 100,
{
    100
}

/// How restarts of a service are spaced: durations in milliseconds, the
/// multiplier and the jitter factor in thousandths (2000 doubles the delay,
/// 100 spreads it by ten percent either way).
#[derive(Debug, Clone, Copy, PartialEq, Eq, Structural)]
pub struct ReconnectionConfig {
    pub initial_delay_ms: u64,
    pub max_delay_ms: u64,
    pub multiplier_milli: u64,
    pub jitter_milli: u64,
}

impl Default for ReconnectionConfig {
    fn default() -> (r: ReconnectionConfig)
        ensures
            r == (ReconnectionConfig {
                initial_delay_ms: 1000,
                max_delay_ms: 60_000,
                multiplier_milli: 2000,
                jitter_milli: 100,
            }),
    {
        ReconnectionConfig {
            initial_delay_ms: default_initial_delay(),
            max_delay_ms: default_max_delay(),
            multiplier_milli: default_multiplier(),
            jitter_milli: default_jitter_factor(),
        }
    }
}

pub open spec fn min_nat(a: nat, b: nat) -> nat {
    if a <= b { a } else { b }
}

/// The delay before jitter after `k` earlier failures: the initial delay
/// times `multiplier^k`, rounded down once to whole milliseconds, and never
/// above the maximum.
pub open spec fn capped_delay(c: ReconnectionConfig, k: nat) -> nat {
    min_nat(scaled(c.initial_delay_ms as nat, c.multiplier_milli as nat, k), c.max_delay_ms as nat)
}

/// Smallest jitter factor, in thousandths: `1 - jitter`, not below zero.
pub open spec fn jitter_low(c: ReconnectionConfig) -> nat {
    if c.jitter_milli <= 1000 { (1000 - c.jitter_milli) as nat } else { 0 }
}

/// Largest jitter factor, in thousandths: `1 + jitter`.
pub open spec fn jitter_high(c: ReconnectionConfig) -> nat {
    min_nat(1000 + c.jitter_milli as nat, u64::MAX as nat)
}

/// A delay scaled by a jitter factor in thousandths, within `u64`.
pub open spec fn jittered(d: nat, factor_milli: nat) -> nat {
    min_nat(d * factor_milli / 1000, u64::MAX as nat)
}

/// Restart delays stay in bounds: before jitter a delay never exceeds the
/// maximum, and with any jitter factor the configuration allows the delay
/// lies in `[0, max_delay × (1 + jitter)]`.
pub proof fn lemma_delay_bounds(c: ReconnectionConfig, k: nat, factor_milli: nat)
    requires
        jitter_low(c) <= factor_milli <= jitter_high(c),
    ensures
        capped_delay(c, k) <= c.max_delay_ms,
        0 <= jittered(capped_delay(c, k), factor_milli),
        jittered(capped_delay(c, k), factor_milli) <= c.max_delay_ms as nat * (1000
            + c.jitter_milli as nat) / 1000,
{
    let d = capped_delay(c, k);
    lemma_mul_upper_bound(d as int, c.max_delay_ms as int, factor_milli as int, 1000 + c.jitter_milli);
    lemma_div_is_ordered(
        (d * factor_milli) as int,
        (c.max_delay_ms as nat * (1000 + c.jitter_milli as nat)) as int,
        1000,
    );
}

/// With a multiplier of at least one, delays before jitter never shrink from
/// one failure to the next, and once the scaled initial delay reaches the
/// maximum every later delay is the maximum.
pub proof fn lemma_delays_grow_to_cap(c: ReconnectionConfig, j: nat, k: nat)
    requires
        c.multiplier_milli >= 1000,
        j <= k,
    ensures
        capped_delay(c, j) <= capped_delay(c, k),
        scaled(c.initial_delay_ms as nat, c.multiplier_milli as nat, j) >= c.max_delay_ms
            ==> capped_delay(c, k) == c.max_delay_ms,
{
    lemma_scaled_monotone(c.initial_delay_ms as nat, c.multiplier_milli as nat, j, k);
}

proof fn lemma_product_fits(a: u64, b: u64)
    ensures
        (a as nat) * (b as nat) <= u128::MAX,
{
    lemma_mul_upper_bound(a as int, u64::MAX as int, b as int, u64::MAX as int);
    assert((u64::MAX as int) * (u64::MAX as int) <= u128::MAX) by (nonlinear_arith);
}

/// The delay before jitter after `attempt` earlier failures.
pub fn capped_delay_ms(c: &ReconnectionConfig, attempt: u32) -> (r: u64)
    ensures
        r == capped_delay(*c, attempt as nat),
{
    scaled_capped(c.initial_delay_ms, c.multiplier_milli, attempt, c.max_delay_ms)
}

/// `d` scaled by a jitter factor in thousandths.
pub fn apply_jitter(d: u64, factor_milli: u64) -> (r: u64)
    ensures
        r == jittered(d as nat, factor_milli as nat),
{
    proof {
        lemma_product_fits(d, factor_milli);
    }
    let v: u128 = (d as u128) * (factor_milli as u128) / 1000;
    if v <= u64::MAX as u128 {
        v as u64
    } else {
        u64::MAX
    }
}

/// Relies on rand's `Rng::gen_range` on the thread-local generator: a
/// value drawn from the inclusive range; it panics only on an empty range.
#[verifier::external_body]
pub(crate) fn random_between(low: u64, high: u64) -> (r: u64)
    requires
        low <= high,
    ensures
        low <= r <= high,
{
    rand::Rng::gen_range(&mut rand::thread_rng(), low..=high)
}

/// Exponential backoff over a reconnection configuration; `attempt` counts
/// the delays handed out since the last reset.
#[derive(Debug, Clone, Copy)]
pub struct ExponentialBackoff {
    pub config: ReconnectionConfig,
    pub attempt: u32,
}

pub open spec fn next_attempt(a: u32) -> u32 {
    if a < u32::MAX { (a + 1) as u32 } else { a }
}

impl ExponentialBackoff {
    pub fn new(config: ReconnectionConfig) -> (r: ExponentialBackoff)
        ensures
            r.config == config,
            r.attempt == 0,
    {
        ExponentialBackoff { config, attempt: 0 }
    }

    /// The next delay, with the jitter factor given in thousandths.
    pub fn next_delay_with(&mut self, factor_milli: u64) -> (r: u64)
        ensures
            r == jittered(capped_delay(old(self).config, old(self).attempt as nat), factor_milli as nat),
            final(self).config == old(self).config,
            final(self).attempt == next_attempt(old(self).attempt),
    {
        let d = capped_delay_ms(&self.config, self.attempt);
        if self.attempt < u32::MAX {
            self.attempt = self.attempt + 1;
        }
        apply_jitter(d, factor_milli)
    }

    /// The next delay, with a jitter factor drawn uniformly from
    /// `[1 - jitter, 1 + jitter]`.
    pub fn next_delay(&mut self) -> (r: u64)
        ensures
            exists|f: nat|
                jitter_low(old(self).config) <= f <= jitter_high(old(self).config) && r == jittered(
                    capped_delay(old(self).config, old(self).attempt as nat),
                    f,
                ),
            r <= old(self).config.max_delay_ms as nat * (1000 + old(self).config.jitter_milli as nat)
                / 1000,
            final(self).config == old(self).config,
            final(self).attempt == next_attempt(old(self).attempt),
    {
        let low: u64 = if self.config.jitter_milli <= 1000 {
            1000 - self.config.jitter_milli
        } else {
            0
        };
        let high: u64 = self.config.jitter_milli.saturating_add(1000);
        let f = random_between(low, high);
        proof {
            lemma_delay_bounds(self.config, self.attempt as nat, f as nat);
        }
        self.next_delay_with(f)
    }

    /// Starts the delays over from the initial one.
    pub fn reset(&mut self)
        ensures
            final(self).config == old(self).config,
            final(self).attempt == 0,
    {
        self.attempt = 0;
    }
}

/// The comma-separated fields of `s`, each as it stands.
pub open spec fn comma_fields(s: Seq<char>) -> Seq<Seq<char>>
    decreases s.len(),
{
    if s.len() == 0 {
        seq![Seq::empty()]
    } else {
        let r = comma_fields(s.drop_last());
        if s.last() == ',' {
            r.push(Seq::empty())
        } else {
            r.update(r.len() - 1, r.last().push(s.last()))
        }
    }
}

/// The fields trimmed, those left empty dropped.
pub open spec fn kept_fields(fields: Seq<Seq<char>>) -> Seq<Seq<char>>
    decreases fields.len(),
{
    if fields.len() == 0 {
        Seq::empty()
    } else {
        let k = kept_fields(fields.drop_last());
        if trim(fields.last()).len() == 0 {
            k
        } else {
            k.push(trim(fields.last()))
        }
    }
}

/// The middleware names that a comma-separated list gives.
pub open spec fn middleware_names(s: Seq<char>) -> Seq<Seq<char>> {
    kept_fields(comma_fields(s))
}

proof fn lemma_comma_fields_len(s: Seq<char>)
    ensures
        comma_fields(s).len() >= 1,
    decreases s.len(),
{
    if s.len() > 0 {
        lemma_comma_fields_len(s.drop_last());
    }
}

/// Splits a comma-separated list of middleware names: each entry trimmed of
/// white space, empty entries dropped.
pub fn parse_middleware_list(s: &str) -> (r: Vec<String>)
    ensures
        texts(r@) == middleware_names(s@),
{
    let n = s.unicode_len();
    let mut out: Vec<String> = Vec::new();
    let mut cur = String::new();
    let mut i: usize = 0;
    while i < n
        invariant
            n == s@.len(),
            i <= n,
            comma_fields(s@.subrange(0, i as int)).len() >= 1,
            texts(out@) == kept_fields(comma_fields(s@.subrange(0, i as int)).drop_last()),
            cur@ == comma_fields(s@.subrange(0, i as int)).last(),
        decreases n - i,
    {
        let c = s.get_char(i);
        let ghost pre = s@.subrange(0, i as int);
        let ghost post = s@.subrange(0, i + 1);
        proof {
            assert(post.drop_last() =~= pre);
            assert(post.last() == c);
            lemma_comma_fields_len(post);
        }
        if c == ',' {
            let t = trimmed(cur.as_str());
            if !t.as_str().is_empty() {
                out.push(t);
            }
            proof {
                let f = comma_fields(post);
                assert(f == comma_fields(pre).push(Seq::empty()));
                assert(f.drop_last() =~= comma_fields(pre));
                assert(texts(out@) =~= kept_fields(comma_fields(pre)));
            }
            cur = String::new();
        } else {
            push_char(&mut cur, c);
            proof {
                let f = comma_fields(post);
                let g = comma_fields(pre);
                assert(f == g.update(g.len() - 1, g.last().push(c)));
                assert(f.drop_last() =~= g.drop_last());
            }
        }
        i = i + 1;
    }
    let t = trimmed(cur.as_str());
    if !t.as_str().is_empty() {
        out.push(t);
    }
    proof {
        let f = comma_fields(s@.subrange(0, n as int));
        assert(s@.subrange(0, n as int) =~= s@);
        assert(f.drop_last().push(f.last()) =~= f);
        assert(texts(out@) =~= kept_fields(f));
    }
    out
}

} // verus!
