use markdoc::config::{Args, Config, Options, OutputFormat};

fn b(s: &str) -> Vec<u8> {
    s.as_bytes().to_vec()
}

fn base_args() -> Args {
    Args {
        config: None,
        output_file: None,
        output_format: OutputFormat::Pdf,
        pages: Vec::new(),
        stylesheet: None,
    }
}

fn base_config() -> Config {
    Config {
        pages: Vec::new(),
        stylesheet: None,
        output_file: None,
        output_format: None,
    }
}

#[test]
fn derive_output_file_uses_first_page_stem() {
    let pages = vec![b("docs/report.md"), b("docs/extra.md")];
    let out = Options::derive_output_file(&pages, &OutputFormat::Pdf);
    assert_eq!(out, b("report.pdf"));
}

#[test]
fn derive_output_file_html_extension() {
    let pages = vec![b("notes.md")];
    let out = Options::derive_output_file(&pages, &OutputFormat::Html);
    assert_eq!(out, b("notes.html"));
}

#[test]
fn derive_output_file_falls_back_without_pages() {
    let pages: Vec<Vec<u8>> = Vec::new();
    let out = Options::derive_output_file(&pages, &OutputFormat::Pdf);
    assert_eq!(out, b("output.pdf"));
}

#[test]
fn derive_output_file_hidden_file() {
    let pages = vec![b("dir/.notes.md")];
    let out = Options::derive_output_file(&pages, &OutputFormat::Pdf);
    assert_eq!(out, b(".notes.pdf"));
}

#[test]
fn derive_output_file_dot_page_falls_back() {
    let pages = vec![b(".")];
    let out = Options::derive_output_file(&pages, &OutputFormat::Html);
    assert_eq!(out, b("output.html"));
}

#[test]
fn derive_output_file_dotdot_page_falls_back() {
    let pages = vec![b("..")];
    let out = Options::derive_output_file(&pages, &OutputFormat::Pdf);
    assert_eq!(out, b("output.pdf"));
}

#[test]
fn derive_output_file_ignores_trailing_slash() {
    let pages = vec![b("docs/")];
    let out = Options::derive_output_file(&pages, &OutputFormat::Html);
    assert_eq!(out, b("docs.html"));
}

#[test]
fn derive_output_file_skips_final_dot_component() {
    let pages = vec![b("foo.txt/.")];
    let out = Options::derive_output_file(&pages, &OutputFormat::Pdf);
    assert_eq!(out, b("foo.pdf"));
}

#[test]
fn no_pages_is_error() {
    let r = Options::from_args_and_config(base_args(), base_config(), false);
    assert!(r.is_err());
}

#[test]
fn cli_pages_override_config() {
    let mut args = base_args();
    args.pages = vec![b("cli.md")];
    let mut config = base_config();
    config.pages = vec![b("cfg.md")];
    let o = Options::from_args_and_config(args, config, false).unwrap();
    assert_eq!(o.pages, vec![b("cli.md")]);
}

#[test]
fn config_pages_relative_to_config_dir() {
    let mut args = base_args();
    args.config = Some(b("conf/app.yaml"));
    let mut config = base_config();
    config.pages = vec![b("a.md"), b("sub/b.md")];
    let o = Options::from_args_and_config(args, config, false).unwrap();
    assert_eq!(o.pages, vec![b("conf/a.md"), b("conf/sub/b.md")]);
}

#[test]
fn absolute_config_page_stays_absolute() {
    let mut args = base_args();
    args.config = Some(b("conf/app.yaml"));
    let mut config = base_config();
    config.pages = vec![b("/abs/a.md")];
    let o = Options::from_args_and_config(args, config, false).unwrap();
    assert_eq!(o.pages, vec![b("/abs/a.md")]);
}

#[test]
fn config_dir_trailing_slash_ignored() {
    let mut args = base_args();
    args.config = Some(b("conf/"));
    let mut config = base_config();
    config.pages = vec![b("a.md")];
    let o = Options::from_args_and_config(args, config, false).unwrap();
    assert_eq!(o.pages, vec![b("a.md")]);
}

#[test]
fn root_config_resolves_in_current_dir() {
    let mut args = base_args();
    args.config = Some(b("/"));
    let mut config = base_config();
    config.pages = vec![b("a.md")];
    let o = Options::from_args_and_config(args, config, false).unwrap();
    assert_eq!(o.pages, vec![b("./a.md")]);
}

#[test]
fn config_without_dir_uses_current() {
    let mut args = base_args();
    args.config = Some(b("app.yaml"));
    let mut config = base_config();
    config.pages = vec![b("a.md")];
    let o = Options::from_args_and_config(args, config, false).unwrap();
    assert_eq!(o.pages, vec![b("a.md")]);
}

#[test]
fn cli_format_wins_when_explicit() {
    let mut args = base_args();
    args.pages = vec![b("x.md")];
    let mut config = base_config();
    config.output_format = Some(OutputFormat::Html);
    let o = Options::from_args_and_config(args, config, true).unwrap();
    assert_eq!(o.output_format, OutputFormat::Pdf);
}

#[test]
fn config_format_wins_when_cli_defaulted() {
    let mut args = base_args();
    args.pages = vec![b("x.md")];
    let mut config = base_config();
    config.output_format = Some(OutputFormat::Html);
    let o = Options::from_args_and_config(args, config, false).unwrap();
    assert_eq!(o.output_format, OutputFormat::Html);
}

#[test]
fn output_file_cli_overrides_config() {
    let mut args = base_args();
    args.pages = vec![b("x.md")];
    args.output_file = Some(b("mine.pdf"));
    let mut config = base_config();
    config.output_file = Some(b("theirs.pdf"));
    let o = Options::from_args_and_config(args, config, false).unwrap();
    assert_eq!(o.output_file, b("mine.pdf"));
}

#[test]
fn output_file_from_config_is_joined() {
    let mut args = base_args();
    args.config = Some(b("conf/app.yaml"));
    args.pages = vec![b("x.md")];
    let mut config = base_config();
    config.output_file = Some(b("out.pdf"));
    let o = Options::from_args_and_config(args, config, false).unwrap();
    assert_eq!(o.output_file, b("conf/out.pdf"));
}

#[test]
fn output_file_derived_when_unset() {
    let mut args = base_args();
    args.pages = vec![b("pages/guide.md")];
    let o = Options::from_args_and_config(args, base_config(), false).unwrap();
    assert_eq!(o.output_file, b("guide.pdf"));
}

#[test]
fn stylesheet_from_config_is_joined() {
    let mut args = base_args();
    args.config = Some(b("conf/app.yaml"));
    args.pages = vec![b("x.md")];
    let mut config = base_config();
    config.stylesheet = Some(b("style.css"));
    let o = Options::from_args_and_config(args, config, false).unwrap();
    assert_eq!(o.stylesheet, Some(b("conf/style.css")));
}

#[test]
fn stylesheet_cli_wins() {
    let mut args = base_args();
    args.pages = vec![b("x.md")];
    args.stylesheet = Some(b("cli.css"));
    let mut config = base_config();
    config.stylesheet = Some(b("cfg.css"));
    let o = Options::from_args_and_config(args, config, false).unwrap();
    assert_eq!(o.stylesheet, Some(b("cli.css")));
}
