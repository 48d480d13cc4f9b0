use doh_proxy::cache::Cache;
use doh_proxy::forward::{Fetched, ForwardError};
use doh_proxy::proxy::{
    begin_cycle, complete_cycle, effective_ttl, log_line, observed_name, CycleError, Step,
};

fn example_query(id: [u8; 2]) -> Vec<u8> {
    let mut q = vec![id[0], id[1], 0x01, 0x00, 0, 1, 0, 0, 0, 0, 0, 0];
    q.push(7);
    q.extend_from_slice(b"example");
    q.push(3);
    q.extend_from_slice(b"com");
    q.push(0);
    q.extend_from_slice(&[0, 1, 0, 1]);
    q
}

fn example_answer(id: [u8; 2]) -> Vec<u8> {
    let mut a = vec![id[0], id[1], 0x81, 0x80, 0, 1, 0, 1, 0, 0, 0, 0];
    a.extend_from_slice(&[93, 184, 216, 34]);
    a
}

#[test]
fn first_query_forwards_and_second_hits() {
    let mut cache = Cache::new();
    let first = example_query([0xab, 0xcd]);
    let ttl = effective_ttl(true, 3600);
    assert_eq!(ttl, 3600);

    let query = match begin_cycle(&mut cache, &first, 100, ttl) {
        Step::Forward { query } => query,
        _ => panic!("a first query is forwarded"),
    };
    assert_eq!(query, first);

    let answer = example_answer([0x55, 0x66]);
    let fetched = Fetched::Answered { status: 200, body: answer.clone() };
    let reply = complete_cycle(&mut cache, &first, 100, fetched).unwrap();
    assert_eq!(&reply[..2], &[0xab, 0xcd]);
    assert_eq!(&reply[2..], &answer[2..]);
    let entry = cache.get(&first[2..]).unwrap();
    assert_eq!(entry.payload, answer[2..].to_vec());
    assert_eq!(entry.inserted_at, 100);

    let second = example_query([0x12, 0x34]);
    let reply = match begin_cycle(&mut cache, &second, 100 + 3599, ttl) {
        Step::Reply { reply } => reply,
        _ => panic!("a query within the time-to-live is a hit"),
    };
    assert_eq!(&reply[..2], &[0x12, 0x34]);
    assert_eq!(&reply[2..], &answer[2..]);
}

#[test]
fn query_after_ttl_is_forwarded_again() {
    let mut cache = Cache::new();
    let q = example_query([1, 2]);
    let fetched = Fetched::Answered { status: 200, body: example_answer([0, 0]) };
    assert!(complete_cycle(&mut cache, &q, 100, fetched).is_ok());
    assert!(matches!(begin_cycle(&mut cache, &q, 100 + 3601, 3600), Step::Forward { .. }));
    assert!(!cache.contains_key(&q[2..]));
}

#[test]
fn disabled_cache_forwards_every_query() {
    let mut cache = Cache::new();
    let ttl = effective_ttl(false, 3600);
    assert_eq!(ttl, 0);
    let q = example_query([1, 2]);
    for now in [5u64, 5, 6] {
        assert!(matches!(begin_cycle(&mut cache, &q, now, ttl), Step::Forward { .. }));
        let fetched = Fetched::Answered { status: 200, body: example_answer([0, 0]) };
        let reply = complete_cycle(&mut cache, &q, now, fetched).unwrap();
        assert_eq!(&reply[..2], &[1, 2]);
    }
}

#[test]
fn short_datagram_is_skipped() {
    let mut cache = Cache::new();
    let q = example_query([1, 2]);
    let fetched = Fetched::Answered { status: 200, body: example_answer([0, 0]) };
    assert!(complete_cycle(&mut cache, &q, 10, fetched).is_ok());

    assert!(matches!(begin_cycle(&mut cache, &[], 5000, 0), Step::Skip));
    assert!(matches!(begin_cycle(&mut cache, &[1, 2, 3], 5000, 0), Step::Skip));
    assert!(matches!(begin_cycle(&mut cache, &q[..11], 5000, 0), Step::Skip));
    assert!(cache.contains_key(&q[2..]));

    assert!(matches!(begin_cycle(&mut cache, &q, 11, 3600), Step::Reply { .. }));
}

#[test]
fn header_alone_is_long_enough() {
    let mut cache = Cache::new();
    let header = [0u8; 12];
    assert!(matches!(begin_cycle(&mut cache, &header, 0, 10), Step::Forward { .. }));
}

#[test]
fn failed_forward_caches_nothing() {
    let mut cache = Cache::new();
    let q = example_query([1, 2]);
    assert_eq!(
        complete_cycle(&mut cache, &q, 10, Fetched::Failed),
        Err(CycleError::Forward(ForwardError::Transport))
    );
    let refused = Fetched::Answered { status: 502, body: example_answer([0, 0]) };
    assert_eq!(
        complete_cycle(&mut cache, &q, 10, refused),
        Err(CycleError::Forward(ForwardError::Status(502)))
    );
    let short = Fetched::Answered { status: 200, body: vec![1] };
    assert_eq!(
        complete_cycle(&mut cache, &q, 10, short),
        Err(CycleError::Forward(ForwardError::ShortBody))
    );
    assert!(!cache.contains_key(&q[2..]));
    assert!(matches!(begin_cycle(&mut cache, &q, 10, 3600), Step::Forward { .. }));
}

#[test]
fn completing_a_short_datagram_is_refused() {
    let mut cache = Cache::new();
    let fetched = Fetched::Answered { status: 200, body: vec![0, 0, 1] };
    assert_eq!(complete_cycle(&mut cache, &[1, 2, 3], 10, fetched), Err(CycleError::Malformed));
    assert!(!cache.contains_key(&[3]));
}

#[test]
fn observed_name_decodes_the_question() {
    assert_eq!(observed_name(&example_query([0xab, 0xcd])), "example.com.");
}

#[test]
fn observed_name_is_empty_without_a_name() {
    assert_eq!(observed_name(&[1, 2, 3]), "");
    assert_eq!(observed_name(&[0u8; 12]), "");
    let mut broken = vec![0u8; 12];
    broken.extend_from_slice(&[9, b'a']);
    assert_eq!(observed_name(&broken), "");
}

#[test]
fn log_line_names_hit_or_miss() {
    assert_eq!(log_line("example.com.", true), "example.com. HIT");
    assert_eq!(log_line("example.com.", false), "example.com. MISS");
    assert_eq!(log_line("", false), " MISS");
}

#[test]
fn two_answers_for_one_content_share_a_key() {
    let mut cache = Cache::new();
    let q1 = example_query([0xab, 0xcd]);
    let q2 = example_query([0x12, 0x34]);
    let first = Fetched::Answered { status: 200, body: vec![0, 0, 1, 1] };
    let second = Fetched::Answered { status: 200, body: vec![0, 0, 2, 2, 2] };
    assert!(complete_cycle(&mut cache, &q1, 10, first).is_ok());
    assert!(complete_cycle(&mut cache, &q2, 20, second).is_ok());
    let entry = cache.get(&q1[2..]).unwrap();
    assert_eq!(entry.key, q2[2..].to_vec());
    assert_eq!(entry.inserted_at, 20);
    assert_eq!(entry.payload, vec![2, 2, 2]);
}

#[test]
fn hit_leaves_a_fresh_cache_as_it_was() {
    let mut cache = Cache::new();
    let q1 = example_query([0xab, 0xcd]);
    let q2 = example_query([0x12, 0x34]);
    let fetched = Fetched::Answered { status: 200, body: vec![0, 0, 7, 8] };
    assert!(complete_cycle(&mut cache, &q1, 10, fetched).is_ok());
    match begin_cycle(&mut cache, &q2, 500, 3600) {
        Step::Reply { reply } => assert_eq!(reply, vec![0x12, 0x34, 7, 8]),
        _ => panic!("a query of cached content is a hit"),
    }
    let entry = cache.get(&q1[2..]).unwrap();
    assert_eq!(entry.inserted_at, 10);
    assert_eq!(entry.payload, vec![7, 8]);
}
