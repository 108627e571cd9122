use multisig_processor::processor::{CustomProcessor, CustomProcessorName};

#[test]
fn test_processor_names_complete() {
    assert_eq!(CustomProcessorName::variants(), CustomProcessor::variants());
}
