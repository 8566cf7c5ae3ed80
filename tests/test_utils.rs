use lsm_storage::utils::{generate_timestamp, generate_timestamp_micros, generate_timestamp_secs};

#[test]
fn test_generate_timestamp_secs() {
    let ts = generate_timestamp_secs();
    assert!(ts > 1577836800);
}

#[test]
fn test_timestamp_units_agree() {
    let secs = generate_timestamp_secs();
    let millis = generate_timestamp();
    let micros = generate_timestamp_micros();
    assert!(millis / 1000 >= secs);
    assert!(micros / 1000 >= millis);
}
