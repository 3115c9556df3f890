use vstd::prelude::*;

use crate::config::Configuration;
use crate::config::DEFAULT_COUNT;
use crate::config::is_ws;
use crate::config::parse_result;
use crate::config::skip_ws;

verus! {

/// What a single execution of the wrapped body reports: normal completion, or
/// abnormal termination carrying its cause.
#[derive(Debug, PartialEq, Eq)]
pub enum AttemptOutcome {
    Success,
    Failure(String),
}

/// The observable behaviour of one run of the generated wrapper: how many
/// times the body was executed, and what the wrapper itself reports.
#[derive(Debug, PartialEq, Eq)]
pub struct RetryReport {
    pub attempts_made: u64,
    pub verdict: AttemptOutcome,
}

/// Some attempt among the first `count` completes normally.
pub open spec fn succeeds_within(s: Seq<AttemptOutcome>, count: int) -> bool {
    exists|k: int| 0 <= k < count && s[k] is Success
}

/// Index of the first attempt that completes normally (the length of `s` when
/// none does).
pub open spec fn first_success(s: Seq<AttemptOutcome>) -> int
    decreases s.len(),
{
    if s.len() == 0 {
        0
    } else if s[0] is Success {
        0
    } else {
        1 + first_success(s.drop_first())
    }
}

/// How many times the wrapper executes the body: up to the first normal
/// completion, and never more than `count` times.
pub open spec fn wrapper_attempts(s: Seq<AttemptOutcome>, count: int) -> int {
    if succeeds_within(s, count) {
        first_success(s) + 1
    } else {
        count
    }
}

/// What the wrapper reports: success as soon as any attempt completes
/// normally, else the failure of the last attempt, cause intact.
pub open spec fn wrapper_verdict(s: Seq<AttemptOutcome>, count: int) -> AttemptOutcome {
    if succeeds_within(s, count) {
        AttemptOutcome::Success
    } else {
        s[count - 1]
    }
}

proof fn lemma_first_success_at(s: Seq<AttemptOutcome>, k: int)
    requires
        0 <= k < s.len(),
        s[k] is Success,
        forall|j: int| 0 <= j < k ==> !(s[j] is Success),
    ensures
        first_success(s) == k,
    decreases k,
{
    if k > 0 {
        assert(forall|j: int| 0 <= j < k - 1 ==> !(s.drop_first()[j] is Success));
        lemma_first_success_at(s.drop_first(), k - 1);
    }
}

/// The retry loop of a generated wrapper, over the outcomes that successive
/// executions of the body would report. The wrapper stops at the first attempt
/// that completes normally; when all `count` attempts fail, it surfaces the
/// last failure unchanged.
#[verifier::loop_isolation(false)]
pub fn run_retries(count: u64, outcomes: Vec<AttemptOutcome>) -> (r: RetryReport)
    requires
        1 <= count,
        count <= outcomes@.len(),
    ensures
        r.attempts_made == wrapper_attempts(outcomes@, count as int),
        r.verdict == wrapper_verdict(outcomes@, count as int),
        1 <= r.attempts_made <= count,
        r.verdict is Success <==> succeeds_within(outcomes@, count as int),
        !(r.verdict is Success) ==> r.attempts_made == count && r.verdict == outcomes@[
            count - 1
        ],
        r.verdict is Success ==> outcomes@[r.attempts_made - 1] is Success && forall|j: int|
            0 <= j < r.attempts_made - 1 ==> !(outcomes@[j] is Success),
{
    let ghost all = outcomes@;
    let mut rest = outcomes;
    let mut i: u64 = 0;
    while i < count
        invariant
            0 <= i < count,
            rest@ == all.skip(i as int),
            forall|j: int| 0 <= j < i ==> !(all[j] is Success),
        decreases count - i,
    {
        let attempt = rest.remove(0);
        proof {
            assert(all.skip(i as int).remove(0) =~= all.skip(i as int + 1));
            assert(attempt == all[i as int]);
        }
        match attempt {
            AttemptOutcome::Success => {
                proof {
                    lemma_first_success_at(all, i as int);
                    assert(succeeds_within(all, count as int)) by {
                        assert(all[i as int] is Success);
                    }
                }
                return RetryReport { attempts_made: i + 1, verdict: AttemptOutcome::Success };
            },
            AttemptOutcome::Failure(cause) => {
                if i == count - 1 {
                    proof {
                        assert(!(all[i as int] is Success));
                        assert(!succeeds_within(all, count as int)) by {
                            assert(forall|k: int| 0 <= k < count ==> !(all[k] is Success));
                        }
                    }
                    return RetryReport {
                        attempts_made: count,
                        verdict: AttemptOutcome::Failure(cause),
                    };
                }
            },
        }
        i = i + 1;
    }
    vstd::pervasive::unreached()
}

/// A body whose first normal completion is attempt `k` (counting from one),
/// with `k` within the allowed count, makes the wrapper succeed after exactly
/// `k` executions of the body: earlier failures are swallowed, and no further
/// attempt follows the first success.
pub proof fn lemma_success_on_attempt(s: Seq<AttemptOutcome>, count: int, k: int)
    requires
        1 <= count <= s.len(),
        1 <= k <= count,
        s[k - 1] is Success,
        forall|j: int| 0 <= j < k - 1 ==> !(s[j] is Success),
    ensures
        wrapper_verdict(s, count) is Success,
        wrapper_attempts(s, count) == k,
{
    assert(succeeds_within(s, count)) by {
        assert(s[k - 1] is Success);
    }
    lemma_first_success_at(s, k - 1);
}

/// A body that fails on every one of the first `count` attempts makes the
/// wrapper fail: the body runs exactly `count` times and the surfaced failure
/// is the one of the last attempt, its cause unchanged.
pub proof fn lemma_all_attempts_fail(s: Seq<AttemptOutcome>, count: int)
    requires
        1 <= count <= s.len(),
        forall|j: int| 0 <= j < count ==> !(s[j] is Success),
    ensures
        wrapper_attempts(s, count) == count,
        wrapper_verdict(s, count) == s[count - 1],
        !(wrapper_verdict(s, count) is Success),
{
    assert(!succeeds_within(s, count));
}

/// A body that completes normally on its first execution runs exactly once,
/// whatever count the wrapper was generated with.
pub proof fn lemma_immediate_success_any_count(s: Seq<AttemptOutcome>, c1: int, c2: int)
    requires
        s.len() >= 1,
        s[0] is Success,
        1 <= c1,
        1 <= c2,
    ensures
        wrapper_attempts(s, c1) == 1,
        wrapper_attempts(s, c2) == 1,
        wrapper_verdict(s, c1) is Success,
        wrapper_verdict(s, c2) is Success,
{
    lemma_first_success_at(s, 0);
    assert(succeeds_within(s, c1)) by {
        assert(s[0] is Success);
    }
    assert(succeeds_within(s, c2)) by {
        assert(s[0] is Success);
    }
}

/// With a count of one there is no retry: the body runs exactly once, and a
/// failure of that single attempt surfaces immediately.
pub proof fn lemma_single_attempt_no_retry(s: Seq<AttemptOutcome>)
    requires
        s.len() >= 1,
    ensures
        wrapper_attempts(s, 1) == 1,
        wrapper_verdict(s, 1) == (if s[0] is Success {
            AttemptOutcome::Success
        } else {
            s[0]
        }),
{
    if s[0] is Success {
        lemma_first_success_at(s, 0);
        assert(succeeds_within(s, 1)) by {
            assert(s[0] is Success);
        }
    } else {
        assert(!succeeds_within(s, 1));
    }
}

proof fn lemma_skip_ws_all(s: Seq<u8>, i: int)
    requires
        0 <= i <= s.len(),
        forall|j: int| 0 <= j < s.len() ==> is_ws(s[j]),
    ensures
        skip_ws(s, i) == s.len(),
    decreases s.len() - i,
{
    if i < s.len() {
        lemma_skip_ws_all(s, i + 1);
    }
}

/// An attribute whose argument list is empty (or all whitespace) parses to the
/// default configuration, and that configuration drives the wrapper exactly as
/// an explicit `count = 3` does.
pub proof fn lemma_default_behaves_as_three(args: Seq<u8>, s: Seq<AttemptOutcome>)
    requires
        forall|j: int| 0 <= j < args.len() ==> is_ws(args[j]),
    ensures
        parse_result(args) == Ok::<Configuration, crate::config::ConfigError>(
            Configuration { count: DEFAULT_COUNT },
        ),
        DEFAULT_COUNT == 3,
        wrapper_attempts(s, parse_result(args).unwrap().count as int) == wrapper_attempts(s, 3),
        wrapper_verdict(s, parse_result(args).unwrap().count as int) == wrapper_verdict(s, 3),
{
    lemma_skip_ws_all(args, 0);
}

} // verus!
