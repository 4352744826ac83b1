use i5_req::I5Reqeust;

fn wire_text(payload: I5Reqeust) -> String {
    payload
        .validate()
        .expect("payload should validate")
        .to_json_string()
        .expect("serialization should succeed")
}

#[test]
fn exact_wire_text_of_small_payload() {
    let mut payload = I5Reqeust::new("Batch".to_string());
    let index = payload.add_document("Doc".to_string());
    payload
        .get_document_mut(index)
        .unwrap()
        .add_header_field("F".to_string(), "V".to_string());
    let text = wire_text(payload);
    assert_eq!(
        text,
        "{\"Name\":\"Batch\",\"Documents\":[{\"Name\":\"Doc\",\"Fields\":[{\"Name\":\"F\",\"Value\":\"V\",\"ItemNo\":0}],\"Files\":[]}]}"
    );
}

#[test]
fn exact_wire_text_escapes_special_characters() {
    let mut payload = I5Reqeust::new("A\"B".to_string());
    let index = payload.add_document("Back\\slash".to_string());
    payload
        .get_document_mut(index)
        .unwrap()
        .add_header_field("Line".to_string(), "a\nb".to_string());
    let text = wire_text(payload);
    assert_eq!(
        text,
        "{\"Name\":\"A\\\"B\",\"Documents\":[{\"Name\":\"Back\\\\slash\",\"Fields\":[{\"Name\":\"Line\",\"Value\":\"a\\u000ab\",\"ItemNo\":0}],\"Files\":[]}]}"
    );
}

#[test]
fn round_trip_reconstructs_the_structure() {
    let mut payload = I5Reqeust::new("Batch".to_string());
    let first = payload.add_document("Invoice".to_string());
    {
        let document = payload.get_document_mut(first).unwrap();
        document.add_header_field("InvoiceNumber".to_string(), "42".to_string());
        document.add_item_field("Qty".to_string(), "3".to_string(), 1);
        document.add_item_field("Qty\twith\"quotes\"".to_string(), "-5".to_string(), 2);
        document.add_base64_file("scan.pdf".to_string(), "aGVsbG8=".to_string());
    }
    let second = payload.add_document("Receipt".to_string());
    payload
        .get_document_mut(second)
        .unwrap()
        .add_header_field("Total".to_string(), "9,99 €".to_string());

    let text = wire_text(payload);
    let value: serde_json::Value = serde_json::from_str(&text).expect("wire text must be JSON");

    assert_eq!(value["Name"].as_str().unwrap(), "Batch");
    let documents = value["Documents"].as_array().unwrap();
    assert_eq!(documents.len(), 2);

    assert_eq!(documents[0]["Name"].as_str().unwrap(), "Invoice");
    let fields = documents[0]["Fields"].as_array().unwrap();
    assert_eq!(fields.len(), 3);
    assert_eq!(fields[0]["Name"].as_str().unwrap(), "InvoiceNumber");
    assert_eq!(fields[0]["Value"].as_str().unwrap(), "42");
    assert_eq!(fields[0]["ItemNo"].as_i64().unwrap(), 0);
    assert_eq!(fields[1]["Name"].as_str().unwrap(), "Qty");
    assert_eq!(fields[1]["ItemNo"].as_i64().unwrap(), 1);
    assert_eq!(fields[2]["Name"].as_str().unwrap(), "Qty\twith\"quotes\"");
    assert_eq!(fields[2]["Value"].as_str().unwrap(), "-5");
    assert_eq!(fields[2]["ItemNo"].as_i64().unwrap(), 2);
    let files = documents[0]["Files"].as_array().unwrap();
    assert_eq!(files.len(), 1);
    assert_eq!(files[0]["Name"].as_str().unwrap(), "scan.pdf");
    assert!(files[0]["Key"].is_null());
    assert_eq!(files[0]["Data"].as_str().unwrap(), "aGVsbG8=");

    assert_eq!(documents[1]["Name"].as_str().unwrap(), "Receipt");
    let fields = documents[1]["Fields"].as_array().unwrap();
    assert_eq!(fields.len(), 1);
    assert_eq!(fields[0]["Value"].as_str().unwrap(), "9,99 €");
    assert_eq!(documents[1]["Files"].as_array().unwrap().len(), 0);
}

#[test]
fn wire_output_keeps_insertion_order() {
    let mut payload = I5Reqeust::new("Batch".to_string());
    let names = ["Zeta", "Alpha", "Mid"];
    for name in names {
        let index = payload.add_document(name.to_string());
        let document = payload.get_document_mut(index).unwrap();
        document.add_header_field("Second".to_string(), "2".to_string());
        document
            .add_header_field("First".to_string(), "1".to_string())
            .add_header_field("Third".to_string(), "3".to_string());
    }
    let text = wire_text(payload);
    let value: serde_json::Value = serde_json::from_str(&text).unwrap();
    let documents = value["Documents"].as_array().unwrap();
    assert_eq!(documents.len(), 3);
    for (i, name) in names.iter().enumerate() {
        assert_eq!(documents[i]["Name"].as_str().unwrap(), *name);
        let fields = documents[i]["Fields"].as_array().unwrap();
        let field_names: Vec<&str> = fields
            .iter()
            .map(|f| f["Name"].as_str().unwrap())
            .collect();
        assert_eq!(field_names, vec!["Second", "First", "Third"]);
    }
}

#[test]
fn negative_and_large_item_numbers_render_in_decimal() {
    let mut payload = I5Reqeust::new("B".to_string());
    let index = payload.add_document("D".to_string());
    {
        let document = payload.get_document_mut(index).unwrap();
        document.add_item_field("N".to_string(), "v".to_string(), -2147483648);
        document.add_item_field("P".to_string(), "v".to_string(), 2147483647);
    }
    let text = wire_text(payload);
    assert!(text.contains("\"ItemNo\":-2147483648"));
    assert!(text.contains("\"ItemNo\":2147483647"));
}
