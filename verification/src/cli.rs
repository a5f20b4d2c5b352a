//! Command-line settings of the pipeline: which options there are, which
//! one is required, and the defaults of the others.

use vstd::prelude::*;

verus! {

/// Name of the program in usage texts.
pub const PROGRAM_NAME: &'static str = "quiet-water";

/// Default of `--output-dir`.
pub const DEFAULT_OUTPUT_DIR: &'static str = "./outputs";

/// Default of `--whisper-model-path`.
pub const DEFAULT_WHISPER_MODEL_PATH: &'static str = "./models/ggml-base.bin";

/// Default of `--model`, the language model that writes the summaries.
pub const DEFAULT_MODEL: &'static str = "gemma4:e4b";

/// The settings of one run.
#[derive(Debug, Clone, PartialEq, Eq)]
pub struct CliArgs {
    /// `--input-audio`: the recording to transcribe (required).
    pub input_audio: String,
    /// `--output-dir`: where summaries are written.
    pub output_dir: String,
    /// `--whisper-model-path`: the speech-recognition model file.
    pub whisper_model_path: String,
    /// `--model`: the language model that writes the summaries.
    pub model: String,
}

/// Why the command line is refused.
#[derive(Debug, Clone, Copy, PartialEq, Eq)]
pub enum CliError {
    /// `--input-audio` was not given.
    MissingRequiredArgument,
}

impl CliError {
    /// The text of the error, as it is reported to the user.
    pub open spec fn text(self) -> Seq<char> {
        "the following required arguments were not provided: --input-audio <INPUT_AUDIO_PATH>"@
    }

    /// The text of the error, as it is reported to the user.
    pub fn message(&self) -> (r: String)
        ensures
            r@ == self.text(),
    {
        String::from_str(
            "the following required arguments were not provided: --input-audio <INPUT_AUDIO_PATH>",
        )
    }
}

/// `value` where given, `default` otherwise.
pub open spec fn or_default(value: Option<String>, default: Seq<char>) -> Seq<char> {
    match value {
        Some(v) => v@,
        None => default,
    }
}

fn value_or(value: Option<String>, default: &str) -> (r: String)
    ensures
        r@ == or_default(value, default@),
{
    match value {
        Some(v) => v,
        None => String::from_str(default),
    }
}

impl CliArgs {
    /// The settings for the option values found on a command line (`None`
    /// for an option that is absent): `--input-audio` is required, the other
    /// options fall back to their defaults.
    pub fn from_values(
        input_audio: Option<String>,
        output_dir: Option<String>,
        whisper_model_path: Option<String>,
        model: Option<String>,
    ) -> (r: Result<CliArgs, CliError>)
        ensures
            input_audio is None ==> r == Err::<CliArgs, CliError>(CliError::MissingRequiredArgument),
            input_audio matches Some(input) ==> (r matches Ok(args) && args.input_audio == input
                && args.output_dir@ == or_default(output_dir, DEFAULT_OUTPUT_DIR@)
                && args.whisper_model_path@ == or_default(
                whisper_model_path,
                DEFAULT_WHISPER_MODEL_PATH@,
            ) && args.model@ == or_default(model, DEFAULT_MODEL@)),
    {
        match input_audio {
            None => Err(CliError::MissingRequiredArgument),
            Some(input_audio) => Ok(
                CliArgs {
                    input_audio,
                    output_dir: value_or(output_dir, DEFAULT_OUTPUT_DIR),
                    whisper_model_path: value_or(whisper_model_path, DEFAULT_WHISPER_MODEL_PATH),
                    model: value_or(model, DEFAULT_MODEL),
                },
            ),
        }
    }
}

} // verus!
