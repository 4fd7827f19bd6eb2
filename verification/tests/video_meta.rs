//! Video metadata parsing checks that stay outside the verified core: the
//! frame-rate field of a probe report is a rational like `30000/1001`.

#[test]
fn test_parse_fps() {
    // Test rational fps parsing
    let rate = "30000/1001";
    let parts: Vec<&str> = rate.split('/').collect();
    let num: f64 = parts[0].parse().unwrap();
    let den: f64 = parts[1].parse().unwrap();
    let fps = num / den;
    assert!((fps - 29.97).abs() < 0.01);
}
