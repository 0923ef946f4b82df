use gh_flake_detector::output::{choose_format, infer_format, OutputFormat};

#[test]
fn json_extension() {
    assert_eq!(infer_format("report.json"), Some(OutputFormat::Json));
}

#[test]
fn markdown_extensions() {
    assert_eq!(infer_format("out/report.md"), Some(OutputFormat::Markdown));
    assert_eq!(infer_format("report.markdown"), Some(OutputFormat::Markdown));
}

#[test]
fn text_extensions() {
    assert_eq!(infer_format("report.txt"), Some(OutputFormat::Text));
    assert_eq!(infer_format("report.text"), Some(OutputFormat::Text));
}

#[test]
fn unknown_or_missing_extensions() {
    assert_eq!(infer_format("report.csv"), None);
    assert_eq!(infer_format("report"), None);
    assert_eq!(infer_format("dir.json/report"), None);
    assert_eq!(infer_format(".json"), None);
    assert_eq!(infer_format("dir/.md"), None);
    assert_eq!(infer_format(""), None);
    assert_eq!(infer_format("report.JSON"), None);
}

#[test]
fn the_last_extension_counts() {
    assert_eq!(infer_format("archive.json.md"), Some(OutputFormat::Markdown));
}

#[test]
fn explicit_format_wins() {
    assert_eq!(choose_format(Some(OutputFormat::Json), Some("a.md")), OutputFormat::Json);
}

#[test]
fn format_follows_the_output_file() {
    assert_eq!(choose_format(None, Some("a.md")), OutputFormat::Markdown);
    assert_eq!(choose_format(None, Some("a.csv")), OutputFormat::Text);
}

#[test]
fn text_by_default() {
    assert_eq!(choose_format(None, None), OutputFormat::Text);
}
