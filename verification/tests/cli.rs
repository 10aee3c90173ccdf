use std::path::PathBuf;

use chronogit::app::model::AppView;
use chronogit::cli::{Cli, InitialView};
use clap::{Arg, ArgAction, Command};

fn command() -> Command {
    Command::new("chronogit")
        .arg(Arg::new("path").default_value("."))
        .arg(
            Arg::new("view")
                .long("view")
                .value_parser(["changes", "history", "graph", "code"])
                .default_value("changes"),
        )
        .arg(Arg::new("keymap").long("keymap"))
        .arg(Arg::new("lsp").long("lsp").action(ArgAction::Append))
        .arg(Arg::new("lsp-config").long("lsp-config"))
}

fn parse(args: &[&str]) -> Cli {
    let matches = command()
        .try_get_matches_from(args)
        .unwrap_or_else(|error| panic!("could not parse the command line: {error}"));
    let view = match matches.get_one::<String>("view").map(String::as_str) {
        Some("history") => InitialView::History,
        Some("graph") => InitialView::Graph,
        Some("code") => InitialView::Code,
        _ => InitialView::Changes,
    };
    Cli {
        path: PathBuf::from(matches.get_one::<String>("path").cloned().unwrap_or_default()),
        view,
        keymap: matches.get_one::<String>("keymap").map(PathBuf::from),
        lsp: matches
            .get_many::<String>("lsp")
            .map(|values| values.cloned().collect())
            .unwrap_or_default(),
        lsp_config: matches.get_one::<String>("lsp-config").map(PathBuf::from),
    }
}

#[test]
fn parses_code_as_an_initial_view() {
    let cli = parse(&["chronogit", "--view", "code"]);
    assert_eq!(cli.initial_view(), AppView::Code);
}

#[test]
fn accepts_multiple_explicit_lsp_profiles() {
    let cli = parse(&[
        "chronogit",
        "--lsp",
        "rust-analyzer",
        "--lsp",
        "jdtls",
        "--lsp",
        "pyright",
    ]);
    assert_eq!(cli.lsp_profiles(), &["rust-analyzer", "jdtls", "pyright"]);
}
