//! The demo backend service's decisions: which handler a request reaches,
//! and the randomized status, body and delay each handler answers with.

use vstd::prelude::*;
use rand::RngExt;
use rand::rngs::ThreadRng;
use crate::text::same_text;

verus! {

#[verifier::external_type_specification]
#[verifier::external_body]
pub struct ExThreadRng(ThreadRng);

/// Calls `rand::rng`: a handle to the thread's random generator.
#[verifier::external_body]
fn thread_rng() -> ThreadRng {
    rand::rng()
}

/// Calls `RngExt::random_range` on `low..high`, which rand documents as a
/// uniform draw from the half-open range (and which panics on an empty
/// range, hence the requirement).
#[verifier::external_body]
fn random_range(rng: &mut ThreadRng, low: u64, high: u64) -> (r: u64)
    requires
        low < high,
    ensures
        low <= r < high,
{
    rng.random_range(low..high)
}

/// Calls `RngExt::random_ratio`, true with probability
/// `numerator / denominator`; rand documents that it is always false for a
/// zero numerator, always true when numerator equals denominator, and that it
/// panics when the denominator is zero or below the numerator.
#[verifier::external_body]
fn random_ratio(rng: &mut ThreadRng, numerator: u32, denominator: u32) -> (r: bool)
    requires
        0 < denominator,
        numerator <= denominator,
    ensures
        numerator == 0 ==> !r,
        numerator == denominator ==> r,
{
    rng.random_ratio(numerator, denominator)
}

/// The handler a request reaches.
#[derive(PartialEq, Eq, Structural, Clone, Copy, Debug)]
pub enum Route {
    Work,
    Health,
    NotFound,
}

/// Dispatch on method and path: `GET /work`, `GET /health`, anything else is
/// not found.
pub fn route(method: &str, path: &str) -> (r: Route)
    ensures
        r == if method@ == "GET"@ && path@ == "/work"@ {
            Route::Work
        } else if method@ == "GET"@ && path@ == "/health"@ {
            Route::Health
        } else {
            Route::NotFound
        },
{
    if same_text(method, "GET") && same_text(path, "/work") {
        Route::Work
    } else if same_text(method, "GET") && same_text(path, "/health") {
        Route::Health
    } else {
        Route::NotFound
    }
}

/// A status code with a body.
pub struct Reply {
    pub status: u16,
    pub body: &'static str,
}

/// The answer to an unknown route.
pub fn not_found_reply() -> (r: Reply)
    ensures
        r.status == 404,
        r.body@ == "not found"@,
{
    Reply { status: 404, body: "not found" }
}

/// Status and body of `/health` for a roll in `0..100`: 500 `unhealthy` for
/// rolls below 5, else 200 `healthy`.
pub open spec fn health_outcome(roll: u64) -> (u16, Seq<char>) {
    if roll < 5 {
        (500, "unhealthy"@)
    } else {
        (200, "healthy"@)
    }
}

/// Decides `/health` for a given roll.
pub fn health_for_roll(roll: u64) -> (r: Reply)
    ensures
        (r.status, r.body@) == health_outcome(roll),
        roll < 5 ==> r.status == 500 && r.body@ == "unhealthy"@,
        roll >= 5 ==> r.status == 200 && r.body@ == "healthy"@,
{
    if roll < 5 {
        Reply { status: 500, body: "unhealthy" }
    } else {
        Reply { status: 200, body: "healthy" }
    }
}

/// Answers `/health`, failing about one time in twenty.
pub fn health_reply() -> (r: Reply)
    ensures
        exists|roll: u64| roll < 100 && (r.status, r.body@) == #[trigger] health_outcome(roll),
{
    let mut rng = thread_rng();
    let roll = random_range(&mut rng, 0, 100);
    health_for_roll(roll)
}

/// What `/work` does: wait `delay_ms`, then answer `status` with `body`.
pub struct WorkPlan {
    pub delay_ms: u64,
    pub status: u16,
    pub body: &'static str,
}

/// Status and body of `/work` for a roll in `0..100`: 500 for rolls below 6,
/// 503 below 9, 504 at 9, else 200.
pub open spec fn work_outcome(roll: u64) -> (u16, Seq<char>) {
    if roll < 6 {
        (500, "internal error"@)
    } else if roll < 9 {
        (503, "unavailable"@)
    } else if roll == 9 {
        (504, "timeout"@)
    } else {
        (200, "work done."@)
    }
}

/// Whether a delay is one `/work` can take: 200 ms up to 2 s on the slow
/// path, 8 ms up to 15 ms otherwise (upper bounds excluded).
pub open spec fn work_delay_ok(slow: bool, delay_ms: u64) -> bool {
    if slow {
        200 <= delay_ms < 2000
    } else {
        8 <= delay_ms < 15
    }
}

/// Decides `/work` for a given delay and status roll.
pub fn work_for(delay_ms: u64, roll: u64) -> (r: WorkPlan)
    ensures
        r.delay_ms == delay_ms,
        (r.status, r.body@) == work_outcome(roll),
        roll < 6 ==> r.status == 500 && r.body@ == "internal error"@,
        6 <= roll < 9 ==> r.status == 503 && r.body@ == "unavailable"@,
        roll == 9 ==> r.status == 504 && r.body@ == "timeout"@,
        roll >= 10 ==> r.status == 200 && r.body@ == "work done."@,
{
    let (status, body): (u16, &'static str) = if roll < 6 {
        (500, "internal error")
    } else if roll < 9 {
        (503, "unavailable")
    } else if roll == 9 {
        (504, "timeout")
    } else {
        (200, "work done.")
    };
    WorkPlan { delay_ms, status, body }
}

/// Plans one `/work` request: slow one time in twenty, then a status roll.
pub fn work_plan() -> (r: WorkPlan)
    ensures
        exists|slow: bool, roll: u64|
            #[trigger] work_delay_ok(slow, r.delay_ms) && roll < 100 && (r.status, r.body@)
                == #[trigger] work_outcome(roll),
{
    let mut rng = thread_rng();
    let slow = random_ratio(&mut rng, 1, 20);
    let delay_ms = if slow {
        random_range(&mut rng, 200, 2000)
    } else {
        random_range(&mut rng, 8, 15)
    };
    let roll = random_range(&mut rng, 0, 100);
    let plan = work_for(delay_ms, roll);
    assert(work_delay_ok(slow, plan.delay_ms));
    plan
}

/// Every `/health` answer is 200 or 500: 500 `unhealthy` for exactly the
/// rolls 0 to 4, 200 `healthy` for every other roll.
pub proof fn lemma_health_statuses(roll: u64)
    ensures
        health_outcome(roll).0 == 200 || health_outcome(roll).0 == 500,
        health_outcome(roll).0 == 500 <==> roll < 5,
        roll < 5 ==> health_outcome(roll).1 == "unhealthy"@,
        roll >= 5 ==> health_outcome(roll).1 == "healthy"@,
{
}

/// How a roll in `0..100` decides `/work`: 500 `internal error` for exactly
/// rolls 0 to 5, 503 `unavailable` for 6 to 8, 504 `timeout` for 9, and
/// 200 `work done.` for every roll from 10 on.
pub proof fn lemma_work_statuses(roll: u64)
    ensures
        work_outcome(roll).0 == 500 <==> roll < 6,
        work_outcome(roll).0 == 503 <==> 6 <= roll < 9,
        work_outcome(roll).0 == 504 <==> roll == 9,
        work_outcome(roll).0 == 200 <==> roll >= 10,
        roll < 6 ==> work_outcome(roll).1 == "internal error"@,
        6 <= roll < 9 ==> work_outcome(roll).1 == "unavailable"@,
        roll == 9 ==> work_outcome(roll).1 == "timeout"@,
        roll >= 10 ==> work_outcome(roll).1 == "work done."@,
{
}

/// Every `/work` answer waits at least 8 ms and carries one of 200, 500, 503
/// or 504.
pub proof fn lemma_work_bounds(slow: bool, delay_ms: u64, roll: u64)
    requires
        work_delay_ok(slow, delay_ms),
    ensures
        delay_ms >= 8,
        work_outcome(roll).0 == 200 || work_outcome(roll).0 == 500 || work_outcome(roll).0 == 503
            || work_outcome(roll).0 == 504,
{
}

/// The port the backend listens on: the configured value when it is set and
/// not empty, else 8080.
pub fn listen_port(configured: Option<String>) -> (r: String)
    ensures
        r@ == match configured {
            Some(p) => if p@.len() > 0 {
                p@
            } else {
                "8080"@
            },
            None => "8080"@,
        },
{
    match configured {
        Some(p) => {
            if p.as_str().unicode_len() > 0 {
                p
            } else {
                "8080".to_owned()
            }
        },
        None => "8080".to_owned(),
    }
}

} // verus!
