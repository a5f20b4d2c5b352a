use quiet_water::model::{model_download_url, ModelError, MODEL_BASE_URL};

#[test]
fn model_download_url_uses_filename_from_path() {
    let path = "/tmp/model/ggml-small.bin";
    assert_eq!(model_download_url(path).unwrap(), format!("{}/{}", MODEL_BASE_URL, "ggml-small.bin"));
}

#[test]
fn model_download_url_requires_filename() {
    let path = "";
    assert!(model_download_url(path).is_err());
}

#[test]
fn model_file_names_follow_path_components() {
    let url = |name: &str| format!("{}/{}", MODEL_BASE_URL, name);
    assert_eq!(model_download_url("ggml-base.bin").unwrap(), url("ggml-base.bin"));
    assert_eq!(model_download_url("./models/ggml-base.bin").unwrap(), url("ggml-base.bin"));
    assert_eq!(model_download_url("models/ggml-base.bin/").unwrap(), url("ggml-base.bin"));
    assert_eq!(model_download_url("models/ggml-base.bin/.").unwrap(), url("ggml-base.bin"));
    assert_eq!(model_download_url("models//x.bin").unwrap(), url("x.bin"));
    assert_eq!(model_download_url("a/./b").unwrap(), url("b"));
    assert_eq!(model_download_url("...").unwrap(), url("..."));
    assert_eq!(model_download_url(".hidden").unwrap(), url(".hidden"));
}

#[test]
fn model_paths_without_file_name_are_refused() {
    for path in ["", "/", "//", ".", "./", "..", "models/..", "/models/../"] {
        assert_eq!(model_download_url(path), Err(ModelError::MissingFileName), "{path}");
    }
    assert_eq!(ModelError::MissingFileName.message(), "Invalid or missing filename in model path");
}

#[test]
fn model_file_names_agree_with_std_paths() {
    let paths = [
        "", "/", "a", "a/", "a/b", "a/b/", "./a", "a/.", "a/..", "..", ".", "./", "/a//b//", "a/./",
        "..a", "a/.b", "./.", "a/b/./.",
    ];
    for path in paths {
        let expected = std::path::Path::new(path).file_name().and_then(|n| n.to_str());
        let got = model_download_url(path).ok();
        assert_eq!(got, expected.map(|n| format!("{}/{}", MODEL_BASE_URL, n)), "{path}");
    }
}
