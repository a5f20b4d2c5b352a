use quiet_water::summary::{SummaryService, SUMMARY_OUTPUT_DIR, TRANSCRIPT_PROMPT_PATH};

#[test]
fn test_default_initialization() {
    // Act
    let service = SummaryService::new();

    // Assert
    assert_eq!(service.model_name, "gemma4:e4b");
    assert_eq!(service.prompt_path, TRANSCRIPT_PROMPT_PATH);
    assert_eq!(service.output_dir, SUMMARY_OUTPUT_DIR);
}

#[test]
fn test_default_trait_implementation() {
    // Act
    let service = SummaryService::default();

    // Assert
    assert_eq!(service.model_name, "gemma4:e4b");
    assert_eq!(service.prompt_path, TRANSCRIPT_PROMPT_PATH);
    assert_eq!(service.output_dir, SUMMARY_OUTPUT_DIR);
}

#[test]
fn test_builder_with_model() {
    // Arrange
    let service = SummaryService::new();
    let expected_model = "llama3.1:latest";

    // Act
    let updated_service = service.with_model(expected_model);

    // Assert
    assert_eq!(updated_service.model_name, expected_model);
    assert_eq!(updated_service.prompt_path, "./src/transcriptor.md");
    assert_eq!(updated_service.output_dir, "./outputs");
}

#[test]
fn test_builder_with_prompt_path() {
    // Arrange
    let service = SummaryService::new();
    let custom_path = "/custom/path/prompt.md";

    // Act
    let updated_service = service.with_prompt_path(custom_path);

    // Assert
    assert_eq!(updated_service.prompt_path, custom_path);
}

#[test]
fn test_builder_with_output_dir() {
    // Arrange
    let service = SummaryService::new();
    let custom_dir = "/tmp/custom_outputs";

    // Act
    let updated_service = service.with_output_dir(custom_dir);

    // Assert
    assert_eq!(updated_service.output_dir, custom_dir);
}

#[test]
fn test_builder_chaining() {
    // Arrange
    let initial_service = SummaryService::new();
    let target_model = "mistral:7b";
    let target_prompt = "./prompts/custom.md";
    let target_output = "./custom_out";

    // Act
    let configured_service = initial_service
        .with_model(target_model)
        .with_prompt_path(target_prompt)
        .with_output_dir(target_output);

    // Assert
    assert_eq!(configured_service.model_name, target_model);
    assert_eq!(configured_service.prompt_path, target_prompt);
    assert_eq!(configured_service.output_dir, target_output);
}
