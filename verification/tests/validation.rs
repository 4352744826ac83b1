use i5_req::{I5Reqeust, I5RequestError};

#[test]
fn zero_documents_always_fails() {
    let payload = I5Reqeust::new("Batch".to_string());
    assert!(!payload.is_valid());
    match payload.validate() {
        Err(I5RequestError::ValidationError) => {}
        _ => panic!("expected a validation failure"),
    }
}

#[test]
fn one_header_field_and_no_files_passes() {
    let mut payload = I5Reqeust::new("Batch".to_string());
    let index = payload.add_document("Invoice".to_string());
    payload
        .get_document_mut(index)
        .unwrap()
        .add_header_field("InvoiceNumber".to_string(), "42".to_string());
    assert!(payload.is_valid());
    assert!(payload.validate().is_ok());
}

#[test]
fn empty_document_passes_by_vacuous_continuity() {
    // A document with zero fields and zero files has an empty item-number
    // set, which the continuity rule accepts vacuously, so the payload
    // validates despite the document being empty.
    let mut payload = I5Reqeust::new("Batch".to_string());
    payload.add_document("Empty".to_string());
    assert!(payload.is_valid());
    assert!(payload.validate().is_ok());
}

#[test]
fn document_with_gapped_item_numbers_still_passes() {
    // The live rule only consults the continuity check for documents with
    // neither fields nor files; a document with fields always passes.
    let mut payload = I5Reqeust::new("Batch".to_string());
    let index = payload.add_document("Lines".to_string());
    let document = payload.get_document_mut(index).unwrap();
    document.add_item_field("Qty".to_string(), "1".to_string(), 1);
    document.add_item_field("Qty".to_string(), "2".to_string(), 7);
    assert!(payload.is_valid());
}

#[test]
fn document_indexes_are_stable_and_bounds_checked() {
    let mut payload = I5Reqeust::new("Batch".to_string());
    let first = payload.add_document("One".to_string());
    let second = payload.add_document("Two".to_string());
    assert_eq!(first, 0);
    assert_eq!(second, 1);
    assert!(payload.get_document(0).is_some());
    assert!(payload.get_document(1).is_some());
    assert!(payload.get_document(2).is_none());
    assert!(payload.get_document_mut(2).is_none());
}

#[test]
fn error_messages() {
    assert_eq!(I5RequestError::ValidationError.message(), "I5Request not valid!");
    assert_eq!(
        I5RequestError::SerializeError.message(),
        "Failed to convert Object to String"
    );
}
