use i5_req::{i32_to_string, I5RequestUrl};

#[test]
fn endpoint_url_has_the_documented_shape() {
    let url = I5RequestUrl::new(
        "localhost".to_string(),
        43001,
        "Processor".to_string(),
        "Default".to_string(),
    );
    assert_eq!(
        url.to_url(),
        "https://localhost:43001/api/v1/Input/Default/Processor/Batches"
    );
}

#[test]
fn endpoint_url_takes_tenant_before_scenario() {
    let url = I5RequestUrl::new(
        "i5.example.org".to_string(),
        443,
        "Scen".to_string(),
        "Ten".to_string(),
    );
    assert_eq!(url.to_url(), "https://i5.example.org:443/api/v1/Input/Ten/Scen/Batches");
}

#[test]
fn decimal_rendering_of_edge_values() {
    assert_eq!(i32_to_string(0), "0");
    assert_eq!(i32_to_string(7), "7");
    assert_eq!(i32_to_string(-1), "-1");
    assert_eq!(i32_to_string(43001), "43001");
    assert_eq!(i32_to_string(i32::MAX), "2147483647");
    assert_eq!(i32_to_string(i32::MIN), "-2147483648");
}
