use godwoken::runtime::{
    blocking_thread_count, parse_u64_bytes, parse_usize_bytes, plan_runtime,
    plan_runtime_with_cpus, thread_count, worker_threads, EnvValue, NumberError, RuntimePlan,
    ThreadsError,
};
use std::num::IntErrorKind;

fn present(s: &str) -> EnvValue {
    EnvValue::Present(s.as_bytes().to_vec())
}

fn kind_of(e: NumberError) -> IntErrorKind {
    match e {
        NumberError::Empty => IntErrorKind::Empty,
        NumberError::InvalidDigit => IntErrorKind::InvalidDigit,
        NumberError::PosOverflow => IntErrorKind::PosOverflow,
    }
}

const SAMPLES: &[&str] = &[
    "", "+", "-", "0", "7", "+7", "-7", "007", "12a", "a12", " 1", "1 ", "++1",
    "4294967295", "4294967296", "18446744073709551615", "18446744073709551616",
    "1844674407370955162x", "99999999999999999999999", "+18446744073709551615",
];

#[test]
fn usize_parsing_agrees_with_std() {
    for s in SAMPLES {
        let ours = parse_usize_bytes(s.as_bytes());
        match s.parse::<usize>() {
            Ok(n) => assert_eq!(ours, Ok(n), "{:?}", s),
            Err(e) => assert_eq!(ours.map_err(kind_of), Err(e.kind().clone()), "{:?}", s),
        }
    }
}

#[test]
fn u64_parsing_agrees_with_std() {
    for s in SAMPLES {
        let ours = parse_u64_bytes(s.as_bytes());
        match s.parse::<u64>() {
            Ok(n) => assert_eq!(ours, Ok(n), "{:?}", s),
            Err(e) => assert_eq!(ours.map_err(kind_of), Err(e.kind().clone()), "{:?}", s),
        }
    }
}

#[test]
fn parse_errors_by_kind() {
    assert_eq!(parse_u64_bytes(b""), Err(NumberError::Empty));
    assert_eq!(parse_u64_bytes(b"-1"), Err(NumberError::InvalidDigit));
    assert_eq!(parse_u64_bytes(b"18446744073709551616"), Err(NumberError::PosOverflow));
    assert_eq!(parse_u64_bytes(b"+42"), Ok(42));
}

#[test]
fn one_thread_is_kept_from_four_up() {
    assert_eq!(worker_threads(1), 1);
    assert_eq!(worker_threads(3), 3);
    assert_eq!(worker_threads(4), 3);
    assert_eq!(worker_threads(16), 15);
    assert_eq!(worker_threads(0), 0);
}

#[test]
fn first_setting_wins_when_valid_unicode() {
    assert_eq!(thread_count(&present("8"), &present("2"), 4), Ok(8));
    assert_eq!(thread_count(&EnvValue::NotPresent, &present("2"), 4), Ok(2));
    assert_eq!(thread_count(&EnvValue::NotUnicode, &present("2"), 4), Ok(2));
    assert_eq!(thread_count(&EnvValue::NotPresent, &EnvValue::NotPresent, 4), Ok(4));
    assert_eq!(
        thread_count(&EnvValue::NotPresent, &EnvValue::NotUnicode, 4),
        Err(ThreadsError::ThreadsNotUnicode)
    );
    assert_eq!(
        thread_count(&present("x"), &present("2"), 4),
        Err(ThreadsError::InvalidThreads(NumberError::InvalidDigit))
    );
}

#[test]
fn blocking_threads_default_to_thread_count() {
    assert_eq!(blocking_thread_count(&EnvValue::NotPresent, 6), Ok(6));
    assert_eq!(blocking_thread_count(&present("32"), 6), Ok(32));
    assert_eq!(
        blocking_thread_count(&EnvValue::NotUnicode, 6),
        Err(ThreadsError::BlockingThreadsNotUnicode)
    );
    assert_eq!(
        blocking_thread_count(&present(""), 6),
        Err(ThreadsError::InvalidBlockingThreads(NumberError::Empty))
    );
}

#[test]
fn plan_from_cpu_count() {
    let none = EnvValue::NotPresent;
    assert_eq!(
        plan_runtime_with_cpus(&none, &none, &none, 8),
        Ok(RuntimePlan { worker_threads: 7, blocking_threads: 8 })
    );
    assert_eq!(
        plan_runtime_with_cpus(&none, &none, &none, 2),
        Ok(RuntimePlan { worker_threads: 2, blocking_threads: 2 })
    );
    assert_eq!(
        plan_runtime_with_cpus(&present("5"), &none, &present("9"), 2),
        Ok(RuntimePlan { worker_threads: 4, blocking_threads: 9 })
    );
}

#[test]
fn thread_error_comes_before_blocking_error() {
    assert_eq!(
        plan_runtime_with_cpus(&present("z"), &EnvValue::NotPresent, &EnvValue::NotUnicode, 2),
        Err(ThreadsError::InvalidThreads(NumberError::InvalidDigit))
    );
}

#[test]
fn plan_counts_the_machine_cpus() {
    let none = EnvValue::NotPresent;
    let cpus = num_cpus::get();
    let plan = plan_runtime(&none, &none, &none).unwrap();
    assert_eq!(plan.blocking_threads, cpus);
    assert_eq!(plan.worker_threads, if cpus >= 4 { cpus - 1 } else { cpus });
    assert_eq!(
        plan_runtime(&present("6"), &none, &none),
        Ok(RuntimePlan { worker_threads: 5, blocking_threads: 6 })
    );
}
