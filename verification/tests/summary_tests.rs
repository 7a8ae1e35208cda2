use load_sampler::fetcher::{summary, FetchReceiverState, FetchResult};

fn valid(duration_ms: u64, status_code: u16, size: usize) -> FetchResult {
    FetchResult { valid: true, duration_ms, status_code, size }
}

fn invalid() -> FetchResult {
    FetchResult { valid: false, duration_ms: 0, status_code: 0, size: 0 }
}

fn state_of(results: Vec<FetchResult>, start: u64, end: u64) -> FetchReceiverState {
    let mut st = FetchReceiverState::new();
    st.start(start);
    for r in results {
        st.append(r);
    }
    st.end(end);
    st
}

#[test]
fn scenario_all_valid() {
    let st = state_of(
        vec![valid(10, 200, 100), valid(20, 200, 200), valid(30, 200, 300)],
        0,
        60,
    );
    let s = summary(&st);
    assert_eq!(s.valid_requests, 3);
    assert_eq!(s.invalid_requests, 0);
    assert_eq!(s.shortest_request_duration_ms, 10);
    assert_eq!(s.longest_request_duration_ms, 30);
    assert_eq!(s.average_request_duration_ms, 20);
    assert_eq!(s.total_downloaded_bytes, 600);
    assert_eq!(s.test_duration_ms, 60);
    assert_eq!(s.requests_per_second, 1000 * 60 / 3);
    assert_eq!(s.status_codes.len(), 1);
    assert_eq!(s.status_codes.get(&200), Some(&3));
}

#[test]
fn scenario_one_of_each() {
    let st = state_of(vec![valid(5, 404, 0), invalid()], 0, 10);
    let s = summary(&st);
    assert_eq!(s.valid_requests, 1);
    assert_eq!(s.invalid_requests, 1);
    assert_eq!(s.shortest_request_duration_ms, 5);
    assert_eq!(s.longest_request_duration_ms, 5);
    assert_eq!(s.average_request_duration_ms, 5);
    assert_eq!(s.status_codes.len(), 1);
    assert_eq!(s.status_codes.get(&404), Some(&1));
}

#[test]
fn degenerate_zero_valid() {
    let st = state_of(vec![invalid(), invalid(), invalid()], 0, 25);
    let s = summary(&st);
    assert_eq!(s.valid_requests, 0);
    assert_eq!(s.invalid_requests, 3);
    assert_eq!(s.average_request_duration_ms, 0);
    assert_eq!(s.requests_per_second, 0);
    assert!(s.status_codes.is_empty());
    assert_eq!(s.shortest_request_duration_ms, u128::MAX);
    assert_eq!(s.longest_request_duration_ms, 0);
    assert_eq!(s.total_downloaded_bytes, 0);
}

#[test]
fn empty_run() {
    let st = state_of(vec![], 3, 9);
    let s = summary(&st);
    assert_eq!(s.valid_requests, 0);
    assert_eq!(s.invalid_requests, 0);
    assert_eq!(s.test_duration_ms, 6);
    assert_eq!(s.requests_per_second, 0);
    assert!(s.status_codes.is_empty());
}

#[test]
fn counts_partition_the_results() {
    let st = state_of(
        vec![valid(1, 200, 1), invalid(), valid(2, 500, 2), invalid(), invalid()],
        0,
        5,
    );
    let s = summary(&st);
    assert_eq!(s.valid_requests + s.invalid_requests, 5);
    assert_eq!(s.valid_requests, 2);
    assert_eq!(s.invalid_requests, 3);
}

#[test]
fn average_truncates_like_integer_division() {
    let st = state_of(vec![valid(10, 200, 0), valid(15, 200, 0)], 0, 30);
    let s = summary(&st);
    assert_eq!(s.average_request_duration_ms, 12);
}

#[test]
fn shortest_never_exceeds_longest() {
    let st = state_of(
        vec![valid(42, 200, 0), valid(7, 200, 0), invalid(), valid(19, 301, 0)],
        0,
        100,
    );
    let s = summary(&st);
    assert!(s.shortest_request_duration_ms <= s.longest_request_duration_ms);
    assert_eq!(s.shortest_request_duration_ms, 7);
    assert_eq!(s.longest_request_duration_ms, 42);
}

#[test]
fn bytes_count_only_valid_results() {
    let mut st = FetchReceiverState::new();
    st.start(0);
    st.append(valid(1, 200, 100));
    st.append(FetchResult { valid: false, duration_ms: 9, status_code: 9, size: 999 });
    st.append(valid(2, 200, 50));
    st.end(10);
    let s = summary(&st);
    assert_eq!(s.total_downloaded_bytes, 150);
}

#[test]
fn histogram_counts_per_code_and_total() {
    let st = state_of(
        vec![
            valid(1, 200, 0),
            valid(2, 404, 0),
            valid(3, 200, 0),
            invalid(),
            valid(4, 500, 0),
            valid(5, 404, 0),
            valid(6, 200, 0),
        ],
        0,
        50,
    );
    let s = summary(&st);
    assert_eq!(s.status_codes.get(&200), Some(&3));
    assert_eq!(s.status_codes.get(&404), Some(&2));
    assert_eq!(s.status_codes.get(&500), Some(&1));
    assert_eq!(s.status_codes.get(&0), None);
    assert_eq!(s.status_codes.len(), 3);
    let total: u128 = s.status_codes.values().sum();
    assert_eq!(total, s.valid_requests);
}

#[test]
fn reducer_is_idempotent() {
    let st = state_of(
        vec![valid(10, 200, 100), invalid(), valid(30, 404, 300)],
        0,
        60,
    );
    let a = summary(&st);
    let b = summary(&st);
    assert_eq!(a.valid_requests, b.valid_requests);
    assert_eq!(a.invalid_requests, b.invalid_requests);
    assert_eq!(a.average_request_duration_ms, b.average_request_duration_ms);
    assert_eq!(a.shortest_request_duration_ms, b.shortest_request_duration_ms);
    assert_eq!(a.longest_request_duration_ms, b.longest_request_duration_ms);
    assert_eq!(a.requests_per_second, b.requests_per_second);
    assert_eq!(a.test_duration_ms, b.test_duration_ms);
    assert_eq!(a.total_downloaded_bytes, b.total_downloaded_bytes);
    assert_eq!(a.status_codes, b.status_codes);
}

#[test]
fn hundred_results_all_accounted_for() {
    let mut st = FetchReceiverState::new();
    st.start(0);
    for i in 0..100u64 {
        st.append(valid(1 + (i * 7) % 50, 200, 10));
    }
    st.end(500);
    let s = summary(&st);
    assert_eq!(s.valid_requests, 100);
    assert_eq!(s.invalid_requests, 0);
    assert_eq!(s.total_downloaded_bytes, 1000);
    assert_eq!(s.status_codes.get(&200), Some(&100));
}

#[test]
fn summary_ignores_append_order() {
    let results = vec![
        valid(10, 200, 100),
        valid(20, 404, 200),
        invalid(),
        valid(30, 200, 300),
        valid(5, 500, 50),
    ];
    let mut reversed = results.clone();
    reversed.reverse();
    let a = summary(&state_of(results, 0, 90));
    let b = summary(&state_of(reversed, 0, 90));
    assert_eq!(a.valid_requests, b.valid_requests);
    assert_eq!(a.invalid_requests, b.invalid_requests);
    assert_eq!(a.average_request_duration_ms, b.average_request_duration_ms);
    assert_eq!(a.shortest_request_duration_ms, b.shortest_request_duration_ms);
    assert_eq!(a.longest_request_duration_ms, b.longest_request_duration_ms);
    assert_eq!(a.total_downloaded_bytes, b.total_downloaded_bytes);
    assert_eq!(a.status_codes, b.status_codes);
}

#[test]
fn clock_running_backwards_saturates_to_zero() {
    let st = state_of(vec![valid(1, 200, 0)], 100, 40);
    let s = summary(&st);
    assert_eq!(s.test_duration_ms, 0);
    assert_eq!(s.requests_per_second, 0);
}

#[test]
fn snapshot_copies_the_state() {
    let mut st = FetchReceiverState::new();
    st.start(1);
    st.append(valid(10, 200, 100));
    st.append(invalid());
    st.end(9);
    let copy = st.snapshot();
    assert_eq!(copy.start, Some(1));
    assert_eq!(copy.end, Some(9));
    assert_eq!(copy.results.len(), 2);
    assert!(copy.results[0].valid);
    assert_eq!(copy.results[0].duration_ms, 10);
    assert!(!copy.results[1].valid);
}
