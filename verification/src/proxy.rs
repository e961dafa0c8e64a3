//! Who may open a tunnel: a limit on the rate of new tunnels and one on how many are open.
//! Time is a number of nanoseconds on a clock of the caller's choice.

use vstd::prelude::*;

verus! {

/// Most tunnels open at a time on the connecting side.
pub const CONNECT_MAX_CONNS: usize = 128;

/// Most new tunnels per second on the connecting side.
pub const CONNECT_MAX_CONN_RATE: u32 = 64;

/// Parts of a token: one is added per nanosecond at a rate of one token per second.
pub const TOKEN: u128 = 1_000_000_000;

/// What a limiter holds, in parts of a token.
pub struct BucketModel {
    pub tokens: nat,
    pub rate: nat,
    pub last: nat,
}

impl BucketModel {
    /// What fits in: the tokens of one second.
    pub open spec fn capacity(self) -> nat {
        self.rate * TOKEN as nat
    }

    /// The rate is not zero and the bucket not overfull.
    pub open spec fn ok(self) -> bool {
        self.rate >= 1 && self.tokens <= self.capacity()
    }

    /// The bucket after time has gone by. A clock that went back adds nothing.
    pub open spec fn refilled(self, now: nat) -> BucketModel {
        let elapsed: nat = if now >= self.last {
            (now - self.last) as nat
        } else {
            0
        };
        let sum = self.tokens + elapsed * self.rate;
        BucketModel {
            tokens: if sum <= self.capacity() {
                sum
            } else {
                self.capacity()
            },
            last: now,
            ..self
        }
    }

    /// Whether a token can be spent.
    pub open spec fn allows(self, now: nat) -> bool {
        self.refilled(now).tokens >= TOKEN
    }

    /// The bucket after somebody asked for a token.
    pub open spec fn asked(self, now: nat) -> BucketModel {
        let r = self.refilled(now);
        if r.tokens >= TOKEN {
            BucketModel { tokens: (r.tokens - TOKEN) as nat, ..r }
        } else {
            r
        }
    }
}

/// A limit on the rate of new tunnels. It starts with the tokens of one second.
pub struct RateLimiter {
    tokens: u128,
    rate: u32,
    last: u64,
}

impl View for RateLimiter {
    type V = BucketModel;

    closed spec fn view(&self) -> BucketModel {
        BucketModel { tokens: self.tokens as nat, rate: self.rate as nat, last: self.last as nat }
    }
}

impl RateLimiter {
    #[verifier::type_invariant]
    spec fn type_ok(self) -> bool {
        self@.ok()
    }

    /// A full bucket at `now`. A rate of zero counts as one.
    pub fn new(per_sec: u32, now: u64) -> (limiter: Self)
        ensures
            limiter@.rate == (if per_sec == 0 {
                1
            } else {
                per_sec as nat
            }),
            limiter@.tokens == limiter@.capacity(),
            limiter@.last == now,
            limiter@.ok(),
    {
        let rate: u32 = if per_sec == 0 {
            1
        } else {
            per_sec
        };
        assert(rate * 1_000_000_000 <= u32::MAX * 1_000_000_000) by (nonlinear_arith)
            requires
                rate <= u32::MAX,
        ;
        RateLimiter { tokens: rate as u128 * TOKEN, rate, last: now }
    }

    /// Tries to spend one token.
    pub fn allow(&mut self, now: u64) -> (allowed: bool)
        ensures
            final(self)@ == old(self)@.asked(now as nat),
            allowed == old(self)@.allows(now as nat),
            final(self)@.ok(),
    {
        proof {
            use_type_invariant(&*self);
        }
        let elapsed: u64 = if now >= self.last {
            now - self.last
        } else {
            0
        };
        let rate: u128 = self.rate as u128;
        assert(elapsed * self.rate <= u64::MAX * u32::MAX) by (nonlinear_arith)
            requires
                elapsed <= u64::MAX,
                self.rate <= u32::MAX,
        ;
        assert(self.rate * 1_000_000_000 <= u32::MAX * 1_000_000_000) by (nonlinear_arith)
            requires
                self.rate <= u32::MAX,
        ;
        let capacity: u128 = rate * TOKEN;
        let sum: u128 = self.tokens + elapsed as u128 * rate;
        let filled: u128 = if sum <= capacity {
            sum
        } else {
            capacity
        };
        let allowed = filled >= TOKEN;
        let left: u128 = if allowed {
            filled - TOKEN
        } else {
            filled
        };
        *self = RateLimiter { tokens: left, rate: self.rate, last: now };
        allowed
    }
}

/// What becomes of somebody who wants a tunnel.
#[derive(Debug, Clone, Copy, PartialEq, Eq, Structural)]
pub enum Admission {
    /// A tunnel is opened.
    Admitted,
    /// Too many came in a short time.
    RateExceeded,
    /// Too many tunnels are open.
    CapReached,
}

/// What a turnstile remembers.
pub struct TurnstileModel {
    pub bucket: BucketModel,
    pub live: nat,
    pub max_conns: nat,
}

impl TurnstileModel {
    /// No more tunnels are open than allowed.
    pub open spec fn ok(self) -> bool {
        self.bucket.ok() && self.live <= self.max_conns
    }

    /// What becomes of somebody who comes at `now`. The rate is looked at first.
    pub open spec fn admission(self, now: nat) -> Admission {
        if !self.bucket.allows(now) {
            Admission::RateExceeded
        } else if self.live >= self.max_conns {
            Admission::CapReached
        } else {
            Admission::Admitted
        }
    }

    /// The turnstile after that. A token is spent even if the tunnel is then refused.
    pub open spec fn arrived(self, now: nat) -> TurnstileModel {
        TurnstileModel {
            bucket: self.bucket.asked(now),
            live: if self.admission(now) == Admission::Admitted {
                self.live + 1
            } else {
                self.live
            },
            ..self
        }
    }

    /// The turnstile after a tunnel was closed.
    pub open spec fn left(self) -> TurnstileModel {
        TurnstileModel {
            live: if self.live > 0 {
                (self.live - 1) as nat
            } else {
                0
            },
            ..self
        }
    }
}

/// Lets tunnels in, up to a rate and up to a number.
pub struct Turnstile {
    rate: RateLimiter,
    live: usize,
    max_conns: usize,
}

impl View for Turnstile {
    type V = TurnstileModel;

    closed spec fn view(&self) -> TurnstileModel {
        TurnstileModel { bucket: self.rate@, live: self.live as nat, max_conns: self.max_conns as nat }
    }
}

impl Turnstile {
    #[verifier::type_invariant]
    spec fn type_ok(self) -> bool {
        self@.ok()
    }

    /// A turnstile with no tunnels open.
    pub fn new(max_conns: usize, new_conn_per_sec: u32, now: u64) -> (turnstile: Self)
        ensures
            turnstile@.live == 0,
            turnstile@.max_conns == max_conns,
            turnstile@.bucket.rate == (if new_conn_per_sec == 0 {
                1
            } else {
                new_conn_per_sec as nat
            }),
            turnstile@.bucket.tokens == turnstile@.bucket.capacity(),
            turnstile@.bucket.last == now,
            turnstile@.ok(),
    {
        let rate = RateLimiter::new(new_conn_per_sec, now);
        Turnstile { rate, live: 0, max_conns }
    }

    /// Somebody wants a tunnel.
    pub fn arrive(&mut self, now: u64) -> (admission: Admission)
        ensures
            admission == old(self)@.admission(now as nat),
            final(self)@ == old(self)@.arrived(now as nat),
            final(self)@.ok(),
    {
        proof {
            use_type_invariant(&*self);
        }
        let mut rate = RateLimiter { tokens: self.rate.tokens, rate: self.rate.rate, last: self.rate.last };
        let allowed = rate.allow(now);
        let live: usize = self.live;
        let max_conns: usize = self.max_conns;
        if !allowed {
            *self = Turnstile { rate, live, max_conns };
            Admission::RateExceeded
        } else if live >= max_conns {
            *self = Turnstile { rate, live, max_conns };
            Admission::CapReached
        } else {
            *self = Turnstile { rate, live: live + 1, max_conns };
            Admission::Admitted
        }
    }

    /// A tunnel was closed.
    pub fn leave(&mut self)
        ensures
            final(self)@ == old(self)@.left(),
            final(self)@.ok(),
    {
        proof {
            use_type_invariant(&*self);
        }
        if self.live > 0 {
            self.live = self.live - 1;
        }
    }

    /// How many tunnels are open.
    pub fn live(&self) -> (n: usize)
        ensures
            n == self@.live,
            n <= self@.max_conns,
    {
        proof {
            use_type_invariant(self);
        }
        self.live
    }
}

// ---------------------------------------------------------------------------
// Laws
// ---------------------------------------------------------------------------

impl BucketModel {
    /// The bucket after tokens were asked for at the given times.
    pub open spec fn asked_all(self, times: Seq<nat>) -> BucketModel
        decreases times.len(),
    {
        if times.len() == 0 {
            self
        } else {
            self.asked_all(times.drop_last()).asked(times.last())
        }
    }

    /// How many of those who asked at the given times got a token.
    pub open spec fn granted(self, times: Seq<nat>) -> nat
        decreases times.len(),
    {
        if times.len() == 0 {
            0
        } else {
            let before = self.granted(times.drop_last());
            if self.asked_all(times.drop_last()).allows(times.last()) {
                before + 1
            } else {
                before
            }
        }
    }
}

/// The times do not go back, starting from `from`.
pub open spec fn in_order(from: nat, times: Seq<nat>) -> bool {
    forall|i: int|
        0 <= i < times.len() ==> from <= #[trigger] times[i] && (i > 0 ==> times[i - 1] <= times[i])
}

proof fn lemma_budget(b: BucketModel, times: Seq<nat>)
    requires
        b.ok(),
        in_order(b.last, times),
    ensures
        b.asked_all(times).ok(),
        b.asked_all(times).rate == b.rate,
        b.asked_all(times).last == (if times.len() == 0 {
            b.last
        } else {
            times.last()
        }),
        b.granted(times) * TOKEN + b.asked_all(times).tokens <= b.tokens + (b.asked_all(times).last
            - b.last) * b.rate,
    decreases times.len(),
{
    if times.len() > 0 {
        let rest = times.drop_last();
        assert forall|i: int| 0 <= i < rest.len() implies b.last <= #[trigger] rest[i] && (i > 0
            ==> rest[i - 1] <= rest[i]) by {
            assert(times[i] == rest[i]);
            if i > 0 {
                assert(times[i - 1] == rest[i - 1]);
            }
        }
        lemma_budget(b, rest);
        let m = b.asked_all(rest);
        let now = times.last();
        assert(times[times.len() - 1] == now);
        if rest.len() > 0 {
            assert(rest.last() == times[times.len() - 2]);
        }
        assert(m.last <= now);
        let e1 = m.last - b.last;
        let e2 = now - m.last;
        assert((e1 + e2) * b.rate == e1 * b.rate + e2 * b.rate) by (nonlinear_arith);
        let g = b.granted(rest);
        assert((g + 1) * TOKEN == g * TOKEN + TOKEN) by (nonlinear_arith);
    } else {
        assert((b.last - b.last) * b.rate == 0) by (nonlinear_arith);
        assert(0 * TOKEN == 0);
    }
}

/// However tunnels are asked for, no more are granted between two points in time than what was
/// in the bucket and what the rate adds in between: at most the tokens of one second and `rate`
/// more per second.
pub proof fn law_rate_is_bounded(b: BucketModel, times: Seq<nat>)
    requires
        b.ok(),
        times.len() > 0,
        in_order(b.last, times),
    ensures
        b.granted(times) * TOKEN <= b.tokens + (times.last() - b.last) * b.rate,
        b.granted(times) * TOKEN <= b.rate * TOKEN + (times.last() - b.last) * b.rate,
{
    lemma_budget(b, times);
}

proof fn lemma_burst(b: BucketModel, n: nat)
    requires
        b.rate >= 1,
        b.tokens == b.capacity(),
    ensures
        ({
            let times = Seq::new(n, |i: int| b.last);
            let left = b.asked_all(times);
            let spent: nat = if n <= b.rate {
                n
            } else {
                b.rate
            };
            &&& left.rate == b.rate
            &&& left.last == b.last
            &&& left.tokens == (b.rate - spent) * TOKEN
            &&& b.granted(times) == spent
        }),
    decreases n,
{
    let times = Seq::new(n, |i: int| b.last);
    if n > 0 {
        lemma_burst(b, (n - 1) as nat);
        let rest = Seq::new((n - 1) as nat, |i: int| b.last);
        assert(times.drop_last() =~= rest);
        let left = b.asked_all(rest);
        assert(0 * b.rate == 0) by (nonlinear_arith);
        if n <= b.rate {
            let k = b.rate - (n - 1);
            assert(k * TOKEN >= TOKEN) by (nonlinear_arith)
                requires
                    k >= 1,
            ;
            assert((k - 1) * TOKEN == k * TOKEN - TOKEN) by (nonlinear_arith);
            assert(k * TOKEN <= b.rate * TOKEN) by (nonlinear_arith)
                requires
                    k <= b.rate,
            ;
        } else {
            assert((b.rate - b.rate) * TOKEN == 0) by (nonlinear_arith);
        }
    } else {
        assert((b.rate - 0) * TOKEN == b.rate * TOKEN);
    }
}

/// A full bucket grants as many tunnels at once as its rate says, and then no more.
pub proof fn law_burst_is_one_second(b: BucketModel, n: nat)
    requires
        b.ok(),
        b.tokens == b.capacity(),
    ensures
        b.granted(Seq::new(n, |i: int| b.last)) == (if n <= b.rate {
            n
        } else {
            b.rate
        }),
{
    lemma_burst(b, n);
}

/// Whoever waits long enough gets a token: after the time in which the rate adds one, somebody
/// who asks is granted one.
pub proof fn law_tokens_come_back(b: BucketModel, now: nat)
    requires
        b.ok(),
        now >= b.last,
        (now - b.last) * b.rate >= TOKEN,
    ensures
        b.allows(now),
{
    assert(b.rate * TOKEN >= TOKEN) by (nonlinear_arith)
        requires
            b.rate >= 1,
    ;
}

/// Nobody is refused for the rate alone, or for the cap alone, without cause: with a token left
/// and a tunnel free, the tunnel is opened.
pub proof fn law_turnstile_admits_within_limits(g: TurnstileModel, now: nat)
    requires
        g.bucket.allows(now),
        g.live < g.max_conns,
    ensures
        g.admission(now) == Admission::Admitted,
        g.arrived(now).live == g.live + 1,
{
}

/// What happens at a turnstile.
pub enum Move {
    /// Somebody comes, at this time.
    Arrive(nat),
    /// A tunnel is closed.
    Leave,
}

impl TurnstileModel {
    /// The turnstile after a move.
    pub open spec fn moved(self, m: Move) -> TurnstileModel {
        match m {
            Move::Arrive(now) => self.arrived(now),
            Move::Leave => self.left(),
        }
    }

    /// The turnstile after all moves.
    pub open spec fn after(self, moves: Seq<Move>) -> TurnstileModel
        decreases moves.len(),
    {
        if moves.len() == 0 {
            self
        } else {
            self.moved(moves[0]).after(moves.drop_first())
        }
    }

    /// How many tunnels the moves open.
    pub open spec fn admitted(self, moves: Seq<Move>) -> nat
        decreases moves.len(),
    {
        if moves.len() == 0 {
            0
        } else {
            let rest = self.moved(moves[0]).admitted(moves.drop_first());
            match moves[0] {
                Move::Arrive(now) if self.admission(now) == Admission::Admitted => rest + 1,
                _ => rest,
            }
        }
    }
}

/// Whoever comes, comes within the two points in time, and not before somebody who came earlier.
pub open spec fn within(moves: Seq<Move>, from: nat, to: nat) -> bool
    decreases moves.len(),
{
    if moves.len() == 0 {
        true
    } else {
        match moves[0] {
            Move::Arrive(now) => from <= now <= to && within(moves.drop_first(), now, to),
            Move::Leave => within(moves.drop_first(), from, to),
        }
    }
}

/// Whatever happens at a turnstile, never more tunnels are open than allowed, and neither of the
/// two limits changes.
pub proof fn law_cap_holds(g: TurnstileModel, moves: Seq<Move>)
    requires
        g.ok(),
    ensures
        g.after(moves).ok(),
        g.after(moves).live <= g.max_conns,
        g.after(moves).max_conns == g.max_conns,
        g.after(moves).bucket.rate == g.bucket.rate,
    decreases moves.len(),
{
    if moves.len() > 0 {
        law_cap_holds(g.moved(moves[0]), moves.drop_first());
    }
}

/// As long as nobody came after a point in time, the bucket was last filled before it.
proof fn lemma_last_fill(g: TurnstileModel, moves: Seq<Move>, from: nat, to: nat)
    requires
        g.bucket.last <= to,
        within(moves, from, to),
    ensures
        g.after(moves).bucket.last <= to,
    decreases moves.len(),
{
    if moves.len() > 0 {
        let next = match moves[0] {
            Move::Arrive(now) => now,
            Move::Leave => from,
        };
        lemma_last_fill(g.moved(moves[0]), moves.drop_first(), next, to);
    }
}

/// What is in the bucket at one time is no more than what was in it earlier and what the rate
/// adds in between.
proof fn lemma_refill(b: BucketModel, from: nat, to: nat)
    requires
        b.last <= from <= to,
    ensures
        b.refilled(to).tokens <= b.refilled(from).tokens + (to - from) * b.rate,
{
    let e1 = from - b.last;
    let e2 = to - from;
    assert((e1 + e2) * b.rate == e1 * b.rate + e2 * b.rate) by (nonlinear_arith);
    assert(e2 * b.rate >= 0) by (nonlinear_arith)
        requires
            e2 >= 0,
            b.rate >= 0,
    ;
}

/// The moves open no more tunnels than what is in the bucket when the time begins, and what the
/// rate adds until it ends.
proof fn lemma_window(g: TurnstileModel, moves: Seq<Move>, from: nat, to: nat)
    requires
        g.ok(),
        g.bucket.last <= from <= to,
        within(moves, from, to),
    ensures
        g.admitted(moves) * TOKEN <= g.bucket.refilled(from).tokens + (to - from) * g.bucket.rate,
    decreases moves.len(),
{
    let rate = g.bucket.rate;
    if moves.len() == 0 {
        assert((to - from) * rate >= 0) by (nonlinear_arith)
            requires
                from <= to,
                rate >= 0,
        ;
        assert(0 * TOKEN == 0);
    } else {
        let next = g.moved(moves[0]);
        let rest = moves.drop_first();
        match moves[0] {
            Move::Leave => {
                lemma_window(next, rest, from, to);
            },
            Move::Arrive(now) => {
                lemma_window(next, rest, now, to);
                lemma_refill(g.bucket, from, now);
                let e1 = now - from;
                let e2 = to - now;
                assert((e1 + e2) * rate == e1 * rate + e2 * rate) by (nonlinear_arith);
                let k = next.admitted(rest);
                assert((k + 1) * TOKEN == k * TOKEN + TOKEN) by (nonlinear_arith);
                assert((now - now) * rate == 0) by (nonlinear_arith);
            },
        }
    }
}

/// In any window of time, whatever happened before it, no more tunnels are opened than the rate
/// says for one second and for each second of the window.
pub proof fn law_admissions_are_bounded(
    start: TurnstileModel,
    before: Seq<Move>,
    window: Seq<Move>,
    from: nat,
    to: nat,
    seconds: nat,
)
    requires
        start.ok(),
        start.bucket.last <= from <= to,
        within(before, start.bucket.last, from),
        within(window, from, to),
        to - from <= seconds * TOKEN,
    ensures
        start.after(before).admitted(window) * TOKEN <= start.bucket.rate * TOKEN + (to - from)
            * start.bucket.rate,
        start.after(before).admitted(window) <= start.bucket.rate + start.bucket.rate * seconds,
{
    let g = start.after(before);
    let rate = start.bucket.rate;
    law_cap_holds(start, before);
    lemma_last_fill(start, before, start.bucket.last, from);
    lemma_window(g, window, from, to);
    let n = g.admitted(window);
    assert((to - from) * rate <= (seconds * TOKEN) * rate) by (nonlinear_arith)
        requires
            to - from <= seconds * TOKEN,
            rate >= 0,
    ;
    assert((seconds * TOKEN) * rate == (rate * seconds) * TOKEN) by (nonlinear_arith);
    assert(rate * TOKEN + (rate * seconds) * TOKEN == (rate + rate * seconds) * TOKEN)
        by (nonlinear_arith);
    assert(n <= rate + rate * seconds) by (nonlinear_arith)
        requires
            n * TOKEN <= (rate + rate * seconds) * TOKEN,
            TOKEN > 0,
    ;
}

/// How many of the moves close a tunnel.
pub open spec fn closings(moves: Seq<Move>) -> nat
    decreases moves.len(),
{
    if moves.len() == 0 {
        0
    } else if moves[0] == Move::Leave {
        closings(moves.drop_first()) + 1
    } else {
        closings(moves.drop_first())
    }
}

/// As long as a tunnel is closed only while one is open, those counted as open are those that
/// were open at the start and those admitted since, without those closed since. So never more
/// are open than allowed.
pub proof fn law_open_tunnels_are_counted(g: TurnstileModel, moves: Seq<Move>)
    requires
        g.ok(),
        forall|n: int|
            #![trigger moves[n]]
            0 <= n < moves.len() && moves[n] == Move::Leave ==> g.live + g.admitted(moves.take(n))
                > closings(moves.take(n)),
    ensures
        g.after(moves).live == g.live + g.admitted(moves) - closings(moves),
        g.live + g.admitted(moves) - closings(moves) <= g.max_conns,
    decreases moves.len(),
{
    law_cap_holds(g, moves);
    if moves.len() > 0 {
        let next = g.moved(moves[0]);
        let rest = moves.drop_first();
        assert(moves.take(0) =~= Seq::empty());
        assert(moves[0] == Move::Leave ==> g.live > 0);
        assert forall|n: int|
            #![trigger rest[n]]
            0 <= n < rest.len() && rest[n] == Move::Leave implies next.live + next.admitted(
            rest.take(n),
        ) > closings(rest.take(n)) by {
            let longer = moves.take(n + 1);
            assert(moves[n + 1] == Move::Leave);
            assert(longer[0] == moves[0]);
            assert(longer.drop_first() =~= rest.take(n));
        }
        law_open_tunnels_are_counted(next, rest);
    }
}

/// A closed tunnel is one less, and changes nothing else; so does an admitted one the other way.
pub proof fn law_one_at_a_time(g: TurnstileModel, now: nat)
    ensures
        g.live > 0 ==> g.left().live == g.live - 1,
        g.live == 0 ==> g.left().live == 0,
        g.left().bucket == g.bucket,
        g.left().max_conns == g.max_conns,
        g.admission(now) == Admission::Admitted <==> g.bucket.allows(now) && g.live < g.max_conns,
        g.admission(now) == Admission::RateExceeded <==> !g.bucket.allows(now),
        g.admission(now) == Admission::Admitted ==> g.arrived(now).live == g.live + 1,
        g.admission(now) != Admission::Admitted ==> g.arrived(now).live == g.live,
        g.arrived(now).max_conns == g.max_conns,
        g.arrived(now).bucket == g.bucket.asked(now),
{
}

/// With each nanosecond `rate` parts of a token come in, a billion of which make one, until the
/// tokens of one second are there. Two waits one after the other bring what one long wait
/// brings, and a clock that goes back brings nothing.
pub proof fn law_refill_is_steady(b: BucketModel, wait: nat, more: nat, earlier: nat)
    requires
        b.ok(),
        earlier <= b.last,
    ensures
        b.refilled(b.last + wait).tokens == (if b.tokens + wait * b.rate <= b.rate * 1_000_000_000 {
            b.tokens + wait * b.rate
        } else {
            b.rate * 1_000_000_000
        }),
        b.refilled(b.last + wait).rate == b.rate,
        b.refilled(b.last + wait).last == b.last + wait,
        b.refilled(b.last + wait).refilled(b.last + wait + more) == b.refilled(b.last + wait + more),
        b.refilled(earlier).tokens == b.tokens,
{
    assert((wait + more) * b.rate == wait * b.rate + more * b.rate) by (nonlinear_arith);
    assert(wait * b.rate >= 0 && more * b.rate >= 0) by (nonlinear_arith);
    assert(0 * b.rate == 0) by (nonlinear_arith);
}

/// Whoever asks gets a token if and only if a whole one is there, and exactly that one is gone
/// then; otherwise nothing is.
pub proof fn law_asking_costs_one_token(b: BucketModel, now: nat)
    ensures
        b.allows(now) <==> b.refilled(now).tokens >= 1_000_000_000,
        b.allows(now) ==> b.asked(now).tokens + 1_000_000_000 == b.refilled(now).tokens,
        !b.allows(now) ==> b.asked(now).tokens == b.refilled(now).tokens,
        b.asked(now).rate == b.rate,
        b.asked(now).last == now,
{
}

} // verus!
