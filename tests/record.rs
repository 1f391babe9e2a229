use timelapse::record::Status;

fn stored(st: &Status) -> String {
    let mut s = String::from("stale content that must go");
    st.store_to(&mut s);
    s
}

#[test]
fn new_record_starts_at_zero() {
    let st = Status::new(1_700_000_000);
    assert_eq!(st.get_index(), 0);
    assert_eq!(st.timestamp, 1_700_000_000);
}

#[test]
fn inc_and_reset() {
    let mut st = Status::new(5);
    st.inc();
    st.inc();
    assert_eq!(st.get_index(), 2);
    st.reset();
    assert_eq!(st.get_index(), 0);
    assert_eq!(st.timestamp, 5);
}

#[test]
fn inc_saturates() {
    let mut st = Status { index: u32::MAX, timestamp: 0 };
    st.inc();
    assert_eq!(st.get_index(), u32::MAX);
}

#[test]
fn stored_text_is_two_lines() {
    let st = Status { index: 5, timestamp: 1_700_000_000 };
    assert_eq!(stored(&st), "index = 5\ntimestamp = 1700000000\n");
    let st = Status { index: 0, timestamp: -42 };
    assert_eq!(stored(&st), "index = 0\ntimestamp = -42\n");
}

#[test]
fn persist_round_trip() {
    let cases = [
        (0u32, 0i64),
        (1, 1),
        (42, 1_700_000_000),
        (u32::MAX, i64::MAX),
        (7, i64::MIN),
        (100, -1),
    ];
    for (index, timestamp) in cases {
        let st = Status { index, timestamp };
        assert_eq!(Status::load(&stored(&st)), Some(st));
    }
}

#[test]
fn load_reads_a_written_file() {
    let st = Status::load("index = 12\ntimestamp = 1699999999\n").unwrap();
    assert_eq!(st.get_index(), 12);
    assert_eq!(st.timestamp, 1_699_999_999);
}

#[test]
fn load_rejects_corrupt_content() {
    assert_eq!(Status::load(""), None);
    assert_eq!(Status::load("garbage"), None);
    assert_eq!(Status::load("index = x\ntimestamp = 1\n"), None);
    assert_eq!(Status::load("index = 3\n"), None);
    assert_eq!(Status::load("timestamp = 1\nindex = 3\n"), None);
    assert_eq!(Status::load("index = 03\ntimestamp = 1\n"), None);
    assert_eq!(Status::load("index = 4294967296\ntimestamp = 1\n"), None);
    assert_eq!(Status::load("index = 1\ntimestamp = 9223372036854775808\n"), None);
    assert_eq!(Status::load("index = 1\ntimestamp = -0\n"), None);
    assert_eq!(Status::load("index = 1\ntimestamp = 2\nextra = 3\n"), None);
}

#[test]
fn load_rejects_truncated_content() {
    let text = stored(&Status { index: 31, timestamp: 1_700_000_000 });
    for k in 0..text.len() {
        assert_eq!(Status::load(&text[..k]), None);
    }
}
