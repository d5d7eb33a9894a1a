use std::path::PathBuf;
use yolo_io::{Cli, CliError, Format};

fn args(items: &[&str]) -> Vec<String> {
    items.iter().map(|s| s.to_string()).collect()
}

#[test]
fn parses_required_args() {
    let args = args(&["test", "--config", "path/to/config.yaml"]);
    let cli = Cli::try_parse_from(&args).expect("Failed to parse args");
    assert_eq!(PathBuf::from(&cli.config), PathBuf::from("path/to/config.yaml"));
    assert_eq!(PathBuf::from(&cli.output), PathBuf::from("report.json"));
    assert_eq!(cli.format, Format::Json);
}

#[test]
fn parses_custom_output_and_format() {
    let args = args(&[
        "test", "--config", "c.yaml", "--output", "out.yml", "--format", "yaml",
    ]);
    let cli = Cli::try_parse_from(&args).expect("Failed to parse args");
    assert_eq!(PathBuf::from(&cli.output), PathBuf::from("out.yml"));
    assert_eq!(cli.format, Format::Yaml);
}

#[test]
fn short_options_are_read() {
    let cli = Cli::try_parse_from(&args(&["test", "-c", "a.yaml", "-o", "r.yaml", "-f", "yaml"]))
        .unwrap();
    assert_eq!(cli.config, "a.yaml");
    assert_eq!(cli.output, "r.yaml");
    assert_eq!(cli.format, Format::Yaml);
}

#[test]
fn missing_config_is_refused() {
    let r = Cli::try_parse_from(&args(&["test", "--output", "x.json"]));
    assert_eq!(r, Err(CliError::MissingConfig));
}

#[test]
fn unknown_format_is_refused() {
    let r = Cli::try_parse_from(&args(&["test", "--config", "c.yaml", "--format", "xml"]));
    assert_eq!(r, Err(CliError::UnknownFormat("xml".to_string())));
}

#[test]
fn unknown_option_is_a_usage_error() {
    let r = Cli::try_parse_from(&args(&["test", "--config", "c.yaml", "--verbose"]));
    assert!(matches!(r, Err(CliError::Usage(_))));
}

#[test]
fn values_give_defaults() {
    let r = Cli::from_values(Some("c.yaml".to_string()), None, None).unwrap();
    assert_eq!(r.output, "report.json");
    assert_eq!(r.format, Format::Json);
}
