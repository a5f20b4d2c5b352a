use quiet_water::cli::{CliArgs, CliError, DEFAULT_MODEL, DEFAULT_OUTPUT_DIR, DEFAULT_WHISPER_MODEL_PATH};

// The option values below are those that the command lines of the tests
// carry: absent options are `None`.

#[test]
fn parses_default_cli_values() {
    // quiet-water --input-audio ./files/audio.wav
    let args = CliArgs::from_values(Some("./files/audio.wav".to_string()), None, None, None).unwrap();

    assert_eq!(args.input_audio, "./files/audio.wav");
    assert_eq!(args.output_dir, "./outputs");
    assert_eq!(args.whisper_model_path, "./models/ggml-base.bin");
    assert_eq!(args.model, "gemma4:e4b");
}

#[test]
fn parses_custom_cli_values() {
    // quiet-water --input-audio ./custom/audio.wav --output-dir ./custom/outputs
    //   --whisper-model-path ./custom/model.bin --model llama3.2:latest
    let args = CliArgs::from_values(
        Some("./custom/audio.wav".to_string()),
        Some("./custom/outputs".to_string()),
        Some("./custom/model.bin".to_string()),
        Some("llama3.2:latest".to_string()),
    )
    .unwrap();

    assert_eq!(args.input_audio, "./custom/audio.wav");
    assert_eq!(args.output_dir, "./custom/outputs");
    assert_eq!(args.whisper_model_path, "./custom/model.bin");
    assert_eq!(args.model, "llama3.2:latest");
}

#[test]
fn missing_input_audio_is_a_readable_error() {
    // quiet-water --output-dir ./outputs
    let err = CliArgs::from_values(None, Some("./outputs".to_string()), None, None).unwrap_err();

    assert_eq!(err, CliError::MissingRequiredArgument);
    assert!(err.message().contains("--input-audio"));
}

#[test]
fn cli_defaults() {
    assert_eq!(DEFAULT_OUTPUT_DIR, "./outputs");
    assert_eq!(DEFAULT_WHISPER_MODEL_PATH, "./models/ggml-base.bin");
    assert_eq!(DEFAULT_MODEL, "gemma4:e4b");
}
