//! How many worker and blocking threads the node's async runtime gets, from
//! the thread-count environment settings and the machine's CPU count.

use vstd::prelude::*;

verus! {

/// What reading an environment variable gave.
#[derive(Debug)]
pub enum EnvValue {
    /// The variable is not set.
    NotPresent,
    /// The variable is set but is not valid unicode.
    NotUnicode,
    /// The variable's value, as bytes.
    Present(Vec<u8>),
}

/// Why a decimal number did not parse (the kinds of `core::num::ParseIntError`
/// that parsing a `usize` can give).
#[derive(Clone, Copy, Debug, PartialEq, Eq, Structural)]
pub enum NumberError {
    /// The text is empty.
    Empty,
    /// The text holds a byte that is not a decimal digit where one is needed.
    InvalidDigit,
    /// The number is larger than `usize::MAX`.
    PosOverflow,
}

/// Why no runtime plan could be made.
#[derive(Clone, Copy, Debug, PartialEq, Eq, Structural)]
pub enum ThreadsError {
    /// The thread-count setting is not valid unicode.
    ThreadsNotUnicode,
    /// The thread-count setting is not a number.
    InvalidThreads(NumberError),
    /// The blocking-thread-count setting is not valid unicode.
    BlockingThreadsNotUnicode,
    /// The blocking-thread-count setting is not a number.
    InvalidBlockingThreads(NumberError),
}

/// The thread counts the runtime is built with.
#[derive(Clone, Copy, Debug, PartialEq, Eq, Structural)]
pub struct RuntimePlan {
    pub worker_threads: usize,
    pub blocking_threads: usize,
}

/// Whether `c` is an ASCII decimal digit.
pub open spec fn is_digit(c: u8) -> bool {
    48 <= c <= 57
}

/// Reading decimal digits left to right, for numbers up to `max`: the value
/// so far, or the first failure met, where a non-digit is reported before an
/// overflow at the same place.
pub open spec fn parse_digits(d: Seq<u8>, max: int) -> Result<int, NumberError>
    decreases d.len(),
{
    if d.len() == 0 {
        Ok(0)
    } else {
        match parse_digits(d.drop_last(), max) {
            Err(e) => Err(e),
            Ok(v) => {
                let c = d.last();
                if !is_digit(c) {
                    Err(NumberError::InvalidDigit)
                } else if v * 10 + (c - 48) > max {
                    Err(NumberError::PosOverflow)
                } else {
                    Ok(v * 10 + (c - 48))
                }
            },
        }
    }
}

/// An unsigned number up to `max` parsed from decimal text as `str::parse`
/// does: one optional leading `+`, then at least one digit.
pub open spec fn parse_unsigned(s: Seq<u8>, max: int) -> Result<int, NumberError> {
    if s.len() == 0 {
        Err(NumberError::Empty)
    } else if s.len() == 1 && (s[0] == 43u8 || s[0] == 45u8) {
        Err(NumberError::InvalidDigit)
    } else if s[0] == 43u8 {
        parse_digits(s.drop_first(), max)
    } else {
        parse_digits(s, max)
    }
}

/// `str::parse::<usize>` on the text `s`.
pub open spec fn parse_usize(s: Seq<u8>) -> Result<usize, NumberError> {
    match parse_unsigned(s, usize::MAX as int) {
        Ok(n) => Ok(n as usize),
        Err(e) => Err(e),
    }
}

/// `str::parse::<u64>` on the text `s`.
pub open spec fn parse_u64(s: Seq<u8>) -> Result<u64, NumberError> {
    match parse_unsigned(s, u64::MAX as int) {
        Ok(n) => Ok(n as u64),
        Err(e) => Err(e),
    }
}

/// A failure met in a prefix of the digits is the failure of the whole.
proof fn lemma_parse_digits_failure_sticks(d: Seq<u8>, max: int, n: nat)
    requires
        n <= d.len(),
        parse_digits(d.subrange(0, n as int), max) is Err,
    ensures
        parse_digits(d, max) == parse_digits(d.subrange(0, n as int), max),
    decreases d.len() - n,
{
    if n == d.len() {
        assert(d.subrange(0, n as int) =~= d);
    } else {
        assert(d.subrange(0, (n + 1) as int).drop_last() =~= d.subrange(0, n as int));
        lemma_parse_digits_failure_sticks(d, max, n + 1);
    }
}

/// Parses an unsigned number up to `max` from decimal text.
fn parse_unsigned_bytes(s: &[u8], max: u64) -> (r: Result<u64, NumberError>)
    ensures
        match r {
            Ok(n) => parse_unsigned(s@, max as int) == Ok::<int, NumberError>(n as int),
            Err(e) => parse_unsigned(s@, max as int) == Err::<int, NumberError>(e),
        },
{
    let len = s.len();
    if len == 0 {
        return Err(NumberError::Empty);
    }
    if len == 1 && (s[0] == 43u8 || s[0] == 45u8) {
        return Err(NumberError::InvalidDigit);
    }
    let start: usize = if s[0] == 43u8 {
        1
    } else {
        0
    };
    let ghost digits = s@.subrange(start as int, len as int);
    assert(start == 1 ==> digits =~= s@.drop_first());
    assert(start == 0 ==> digits =~= s@);
    let mut acc: u64 = 0;
    let mut i: usize = start;
    while i < len
        invariant
            start <= i <= len,
            len == s@.len(),
            digits == s@.subrange(start as int, len as int),
            parse_unsigned(s@, max as int) == parse_digits(digits, max as int),
            parse_digits(digits.subrange(0, i - start), max as int) == Ok::<int, NumberError>(
                acc as int,
            ),
        decreases len - i,
    {
        let c = s[i];
        let ghost prefix = digits.subrange(0, i + 1 - start);
        assert(prefix.drop_last() =~= digits.subrange(0, i - start));
        assert(prefix.last() == c);
        if c < 48 || c > 57 {
            proof {
                lemma_parse_digits_failure_sticks(digits, max as int, (i + 1 - start) as nat);
            }
            return Err(NumberError::InvalidDigit);
        }
        let digit = (c - 48) as u64;
        let next = match acc.checked_mul(10) {
            Some(m) => m.checked_add(digit),
            None => None,
        };
        match next {
            Some(n) if n <= max => {
                acc = n;
            },
            _ => {
                proof {
                    lemma_parse_digits_failure_sticks(digits, max as int, (i + 1 - start) as nat);
                }
                return Err(NumberError::PosOverflow);
            },
        }
        i = i + 1;
    }
    assert(digits.subrange(0, len - start) =~= digits);
    Ok(acc)
}

/// Parses a `usize` from decimal text, as `str::parse::<usize>` does.
pub fn parse_usize_bytes(s: &[u8]) -> (r: Result<usize, NumberError>)
    ensures
        r == parse_usize(s@),
{
    match parse_unsigned_bytes(s, usize::MAX as u64) {
        Ok(n) => Ok(n as usize),
        Err(e) => Err(e),
    }
}

/// Parses a `u64` from decimal text, as `str::parse::<u64>` does.
pub fn parse_u64_bytes(s: &[u8]) -> (r: Result<u64, NumberError>)
    ensures
        r == parse_u64(s@),
{
    parse_unsigned_bytes(s, u64::MAX)
}

/// The setting that decides the thread count: the first of the two
/// variables, where it is set to valid unicode, else the second.
pub open spec fn thread_setting(first: EnvValue, second: EnvValue) -> EnvValue {
    if first is Present {
        first
    } else {
        second
    }
}

/// The thread count: the machine's CPU count where no setting is given,
/// else the setting's number.
pub open spec fn thread_count_spec(first: EnvValue, second: EnvValue, cpus: usize) -> Result<
    usize,
    ThreadsError,
> {
    match thread_setting(first, second) {
        EnvValue::NotPresent => Ok(cpus),
        EnvValue::NotUnicode => Err(ThreadsError::ThreadsNotUnicode),
        EnvValue::Present(v) => match parse_usize(v@) {
            Ok(n) => Ok(n),
            Err(e) => Err(ThreadsError::InvalidThreads(e)),
        },
    }
}

/// The blocking-thread count: the thread count where no setting is given,
/// else the setting's number.
pub open spec fn blocking_thread_count_spec(blocking: EnvValue, threads: usize) -> Result<
    usize,
    ThreadsError,
> {
    match blocking {
        EnvValue::NotPresent => Ok(threads),
        EnvValue::NotUnicode => Err(ThreadsError::BlockingThreadsNotUnicode),
        EnvValue::Present(v) => match parse_usize(v@) {
            Ok(n) => Ok(n),
            Err(e) => Err(ThreadsError::InvalidBlockingThreads(e)),
        },
    }
}

/// The worker-thread count: one thread fewer than the thread count from four
/// threads up, as one thread is kept for the chain task.
pub open spec fn worker_threads_spec(threads: usize) -> usize {
    if threads >= 4 {
        (threads - 1) as usize
    } else {
        threads
    }
}

/// The runtime plan for the given settings and CPU count.
pub open spec fn runtime_plan_spec(
    first: EnvValue,
    second: EnvValue,
    blocking: EnvValue,
    cpus: usize,
) -> Result<RuntimePlan, ThreadsError> {
    match thread_count_spec(first, second, cpus) {
        Err(e) => Err(e),
        Ok(t) => match blocking_thread_count_spec(blocking, t) {
            Err(e) => Err(e),
            Ok(b) => Ok(RuntimePlan { worker_threads: worker_threads_spec(t), blocking_threads: b }),
        },
    }
}

/// The number of CPUs available to the process (`num_cpus::get`), which that
/// crate documents as always at least one. It depends on the machine and the
/// process's limits, so nothing more is stated.
#[verifier::external_body]
fn available_cpus() -> (n: usize)
    ensures
        n >= 1,
{
    num_cpus::get()
}

/// The worker-thread count for a thread count.
pub fn worker_threads(threads: usize) -> (r: usize)
    ensures
        r == worker_threads_spec(threads),
{
    if threads >= 4 {
        threads - 1
    } else {
        threads
    }
}

/// The number a present setting holds.
fn setting_number(v: &Vec<u8>) -> (r: Result<usize, NumberError>)
    ensures
        r == parse_usize(v@),
{
    parse_usize_bytes(v.as_slice())
}

/// The blocking-thread count for a setting and a thread count.
pub fn blocking_thread_count(blocking: &EnvValue, threads: usize) -> (r: Result<
    usize,
    ThreadsError,
>)
    ensures
        r == blocking_thread_count_spec(*blocking, threads),
{
    match blocking {
        EnvValue::NotPresent => Ok(threads),
        EnvValue::NotUnicode => Err(ThreadsError::BlockingThreadsNotUnicode),
        EnvValue::Present(v) => match setting_number(v) {
            Ok(n) => Ok(n),
            Err(e) => Err(ThreadsError::InvalidBlockingThreads(e)),
        },
    }
}

/// The thread count for the two settings and a CPU count.
pub fn thread_count(first: &EnvValue, second: &EnvValue, cpus: usize) -> (r: Result<
    usize,
    ThreadsError,
>)
    ensures
        r == thread_count_spec(*first, *second, cpus),
{
    let setting = match first {
        EnvValue::Present(_) => first,
        _ => second,
    };
    match setting {
        EnvValue::NotPresent => Ok(cpus),
        EnvValue::NotUnicode => Err(ThreadsError::ThreadsNotUnicode),
        EnvValue::Present(v) => match setting_number(v) {
            Ok(n) => Ok(n),
            Err(e) => Err(ThreadsError::InvalidThreads(e)),
        },
    }
}

/// The runtime plan for the given settings and CPU count.
pub fn plan_runtime_with_cpus(
    first: &EnvValue,
    second: &EnvValue,
    blocking: &EnvValue,
    cpus: usize,
) -> (r: Result<RuntimePlan, ThreadsError>)
    ensures
        r == runtime_plan_spec(*first, *second, *blocking, cpus),
{
    let threads = thread_count(first, second, cpus)?;
    let blocking_threads = blocking_thread_count(blocking, threads)?;
    Ok(RuntimePlan { worker_threads: worker_threads(threads), blocking_threads })
}

/// The runtime plan for the given settings, counting the machine's CPUs
/// where no thread-count setting is given: the plan for some CPU count of at
/// least one, and where a setting is given, the plan for every CPU count.
pub fn plan_runtime(first: &EnvValue, second: &EnvValue, blocking: &EnvValue) -> (r: Result<
    RuntimePlan,
    ThreadsError,
>)
    ensures
        exists|cpus: usize| cpus >= 1 && r == runtime_plan_spec(*first, *second, *blocking, cpus),
        !(thread_setting(*first, *second) is NotPresent) ==> forall|cpus: usize|
            r == #[trigger] runtime_plan_spec(*first, *second, *blocking, cpus),
{
    let setting = match first {
        EnvValue::Present(_) => first,
        _ => second,
    };
    let threads = match setting {
        EnvValue::NotPresent => available_cpus(),
        EnvValue::NotUnicode => {
            assert(runtime_plan_spec(*first, *second, *blocking, 1) == Err::<RuntimePlan, ThreadsError>(ThreadsError::ThreadsNotUnicode));
            return Err(ThreadsError::ThreadsNotUnicode);
        },
        EnvValue::Present(v) => match setting_number(v) {
            Ok(n) => n,
            Err(e) => {
                assert(runtime_plan_spec(*first, *second, *blocking, 1) == Err::<RuntimePlan, ThreadsError>(ThreadsError::InvalidThreads(e)));
                return Err(ThreadsError::InvalidThreads(e));
            },
        },
    };
    let ghost cpus: usize = if setting is NotPresent { threads } else { 1 };
    assert(thread_count_spec(*first, *second, cpus) == Ok::<usize, ThreadsError>(threads));
    let blocking_threads = blocking_thread_count(blocking, threads)?;
    let r = Ok(RuntimePlan { worker_threads: worker_threads(threads), blocking_threads });
    assert(r == runtime_plan_spec(*first, *second, *blocking, cpus));
    r
}

/// The decimal text of `n`, most significant digit first, with no leading
/// zeros.
pub open spec fn decimal(n: nat) -> Seq<u8>
    decreases n,
{
    if n < 10 {
        seq![(48 + n) as u8]
    } else {
        decimal(n / 10).push((48 + n % 10) as u8)
    }
}

/// The digits of `n` read back as `n`, for any bound at least `n`.
proof fn lemma_parse_decimal(n: nat, max: int)
    requires
        n <= max,
    ensures
        parse_digits(decimal(n), max) == Ok::<int, NumberError>(n as int),
        decimal(n).len() >= 1,
        is_digit(decimal(n)[0]),
    decreases n,
{
    if n < 10 {
        assert(decimal(n).drop_last() =~= Seq::<u8>::empty());
        assert(parse_digits(Seq::<u8>::empty(), max) == Ok::<int, NumberError>(0));
    } else {
        lemma_parse_decimal(n / 10, max);
        assert(decimal(n).drop_last() =~= decimal(n / 10));
        assert((n / 10) * 10 + n % 10 == n);
    }
}

/// Parsing the decimal text of a number gives the number back, with or
/// without a leading `+`.
pub proof fn lemma_parse_usize_decimal(n: usize)
    ensures
        parse_usize(decimal(n as nat)) == Ok::<usize, NumberError>(n),
        parse_usize(seq![43u8] + decimal(n as nat)) == Ok::<usize, NumberError>(n),
{
    lemma_parse_decimal(n as nat, usize::MAX as int);
    assert((seq![43u8] + decimal(n as nat)).drop_first() =~= decimal(n as nat));
}

/// Parsing the decimal text of a number gives the number back, with or
/// without a leading `+`.
pub proof fn lemma_parse_u64_decimal(n: u64)
    ensures
        parse_u64(decimal(n as nat)) == Ok::<u64, NumberError>(n),
        parse_u64(seq![43u8] + decimal(n as nat)) == Ok::<u64, NumberError>(n),
{
    lemma_parse_decimal(n as nat, u64::MAX as int);
    assert((seq![43u8] + decimal(n as nat)).drop_first() =~= decimal(n as nat));
}

/// A thread count given in the first setting is used whatever the second
/// holds; the second is used where the first is unset or not unicode; with
/// neither set, the CPU count is used.
pub proof fn lemma_thread_count_precedence(
    first: Vec<u8>,
    n: usize,
    second: EnvValue,
    unset_or_bad: EnvValue,
    other: Vec<u8>,
    m: usize,
    cpus: usize,
)
    requires
        first@ == decimal(n as nat),
        other@ == decimal(m as nat),
        !(unset_or_bad is Present),
    ensures
        thread_count_spec(EnvValue::Present(first), second, cpus) == Ok::<usize, ThreadsError>(n),
        thread_count_spec(unset_or_bad, EnvValue::Present(other), cpus) == Ok::<
            usize,
            ThreadsError,
        >(m),
        thread_count_spec(EnvValue::NotPresent, EnvValue::NotPresent, cpus) == Ok::<
            usize,
            ThreadsError,
        >(cpus),
{
    lemma_parse_usize_decimal(n);
    lemma_parse_usize_decimal(m);
}

/// With no thread-count setting, the plan is made for the CPU count,
/// whatever the blocking setting holds: one worker thread fewer than the
/// CPUs from four CPUs up, else one per CPU; the blocking threads are the
/// CPU count where unset, or the number set.
pub proof fn lemma_plan_from_cpus(blocking: Vec<u8>, b: usize, cpus: usize)
    requires
        blocking@ == decimal(b as nat),
    ensures
        ({
            let plan = runtime_plan_spec(
                EnvValue::NotPresent,
                EnvValue::NotPresent,
                EnvValue::NotPresent,
                cpus,
            );
            &&& plan is Ok
            &&& plan->Ok_0.blocking_threads == cpus
            &&& plan->Ok_0.worker_threads + (if cpus >= 4 {
                1int
            } else {
                0int
            }) == cpus
        }),
        ({
            let plan = runtime_plan_spec(
                EnvValue::NotPresent,
                EnvValue::NotPresent,
                EnvValue::Present(blocking),
                cpus,
            );
            &&& plan is Ok
            &&& plan->Ok_0.blocking_threads == b
            &&& plan->Ok_0.worker_threads + (if cpus >= 4 {
                1int
            } else {
                0int
            }) == cpus
        }),
{
    lemma_parse_usize_decimal(b);
}

/// Digits that parse hold only decimal digits.
proof fn lemma_parsed_digits_are_digits(d: Seq<u8>, max: int)
    requires
        parse_digits(d, max) is Ok,
    ensures
        forall|i: int| 0 <= i < d.len() ==> is_digit(#[trigger] d[i]),
    decreases d.len(),
{
    if d.len() > 0 {
        lemma_parsed_digits_are_digits(d.drop_last(), max);
        assert forall|i: int| 0 <= i < d.len() implies is_digit(#[trigger] d[i]) by {
            if i < d.len() - 1 {
                assert(d[i] == d.drop_last()[i]);
            }
        }
    }
}

/// Only text made of decimal digits, after at most one leading `+`, parses:
/// a text with any other byte, or with no digit, is refused.
pub proof fn lemma_parse_accepts_only_digits(s: Seq<u8>, max: int)
    requires
        parse_unsigned(s, max) is Ok,
    ensures
        s.len() >= 1,
        s[0] == 43u8 ==> s.len() >= 2,
        forall|i: int| 0 < i < s.len() ==> is_digit(#[trigger] s[i]),
        s[0] != 43u8 ==> is_digit(s[0]),
{
    if s[0] == 43u8 {
        lemma_parsed_digits_are_digits(s.drop_first(), max);
        assert forall|i: int| 0 < i < s.len() implies is_digit(#[trigger] s[i]) by {
            assert(s[i] == s.drop_first()[i - 1]);
        }
    } else {
        lemma_parsed_digits_are_digits(s, max);
    }
}

} // verus!
