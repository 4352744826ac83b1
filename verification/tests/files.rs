use base64::Engine as _;
use i5_req::I5Reqeust;

fn data_field_of_single_file(payload: I5Reqeust) -> String {
    let text = payload
        .validate()
        .expect("payload should validate")
        .to_json_string()
        .expect("serialization should succeed");
    let value: serde_json::Value = serde_json::from_str(&text).unwrap();
    value["Documents"][0]["Files"][0]["Data"]
        .as_str()
        .unwrap()
        .to_string()
}

#[test]
fn bytes_file_round_trips_through_base64() {
    let bytes: Vec<u8> = vec![0, 1, 2, 3, 255, 254, 100, 42, 7];
    let mut payload = I5Reqeust::new("Batch".to_string());
    let index = payload.add_document("Doc".to_string());
    payload
        .get_document_mut(index)
        .unwrap()
        .add_bytes_file("blob.bin".to_string(), &bytes);
    let data = data_field_of_single_file(payload);
    let decoded = base64::engine::general_purpose::STANDARD
        .decode(&data)
        .expect("stored data must be valid base64");
    assert_eq!(decoded, bytes);
}

#[test]
fn bytes_file_uses_standard_padded_alphabet() {
    let mut payload = I5Reqeust::new("Batch".to_string());
    let index = payload.add_document("Doc".to_string());
    payload
        .get_document_mut(index)
        .unwrap()
        .add_bytes_file("hello.txt".to_string(), b"hello");
    let data = data_field_of_single_file(payload);
    assert_eq!(data, "aGVsbG8=");
}

#[test]
fn empty_bytes_give_empty_base64() {
    let mut payload = I5Reqeust::new("Batch".to_string());
    let index = payload.add_document("Doc".to_string());
    payload
        .get_document_mut(index)
        .unwrap()
        .add_bytes_file("empty.bin".to_string(), &[]);
    let data = data_field_of_single_file(payload);
    assert_eq!(data, "");
}
