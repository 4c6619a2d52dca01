use agent_bookkeeper::measurement::{
    duration_delta, max_resident_bytes, resource_delta, timeval_duration, ProcessResources,
};

#[test]
fn times_of_a_process_are_whole_and_subtracted() {
    let before = timeval_duration(5, 999_999).unwrap();
    assert_eq!((before.seconds(), before.nanoseconds()), (5, 999_999_000));
    let after = timeval_duration(7, 1).unwrap();
    let grown = duration_delta(Some(before), Some(after)).unwrap();
    assert_eq!((grown.seconds(), grown.nanoseconds()), (1, 2_000));
    let shrunk = duration_delta(Some(after), Some(before)).unwrap();
    assert_eq!((shrunk.seconds(), shrunk.nanoseconds()), (0, 0));
    assert_eq!(duration_delta(None, Some(after)), None);
    assert_eq!(timeval_duration(-1, 0), None);
    assert_eq!(timeval_duration(1, 1_000_000), None);
    assert_eq!(timeval_duration(1, -1), None);
}

#[test]
fn resident_memory_is_the_later_mark() {
    assert_eq!(max_resident_bytes(3, 1024), Some(3072));
    assert_eq!(max_resident_bytes(-1, 1024), None);
    assert_eq!(max_resident_bytes(i64::MAX, 1024), None);
    let before = ProcessResources {
        user_cpu: timeval_duration(1, 0),
        system_cpu: None,
        process_max_resident_bytes: Some(10),
    };
    let after = ProcessResources {
        user_cpu: timeval_duration(3, 0),
        system_cpu: timeval_duration(1, 0),
        process_max_resident_bytes: Some(20),
    };
    let delta = resource_delta(before, after);
    assert_eq!(delta.user_cpu, timeval_duration(2, 0));
    assert_eq!(delta.system_cpu, None);
    assert_eq!(delta.process_max_resident_bytes, Some(20));
}
