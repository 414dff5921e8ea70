use rshell::command::{parse_line, Command};
use rshell::text::{split_stages, split_words, trim_line};

fn strings(v: &[&str]) -> Vec<String> {
    v.iter().map(|s| s.to_string()).collect()
}

#[test]
fn trim_removes_surrounding_whitespace() {
    assert_eq!(trim_line("  \t echo hi \n"), "echo hi");
    assert_eq!(trim_line("   "), "");
    assert_eq!(trim_line(""), "");
    assert_eq!(trim_line("\u{3000}ls\u{a0}"), "ls");
}

#[test]
fn words_split_on_any_whitespace_run() {
    assert_eq!(split_words("\t a  b\u{3000}c "), strings(&["a", "b", "c"]));
    assert_eq!(split_words("   "), Vec::<String>::new());
    assert_eq!(split_words("head -n 2"), strings(&["head", "-n", "2"]));
}

#[test]
fn stages_are_trimmed_and_kept_in_order() {
    assert_eq!(split_stages(" a | b|c "), strings(&["a", "b", "c"]));
    assert_eq!(split_stages("|"), strings(&["", ""]));
    assert_eq!(split_stages("echo hi || wc -l"), strings(&["echo hi", "", "wc -l"]));
    assert_eq!(split_stages("ls"), strings(&["ls"]));
}

#[test]
fn stage_count_is_bars_plus_one() {
    let line = "a|b | c|| d";
    let bars = line.chars().filter(|c| *c == '|').count();
    assert_eq!(split_stages(line).len(), bars + 1);
}

#[test]
fn blank_line_asks_for_nothing() {
    assert_eq!(parse_line(""), Command::Nothing);
    assert_eq!(parse_line("  \t "), Command::Nothing);
}

#[test]
fn single_command_with_arguments() {
    assert_eq!(
        parse_line("  echo hello  "),
        Command::Run { program: "echo".to_string(), args: strings(&["hello"]) }
    );
    assert_eq!(
        parse_line("ls"),
        Command::Run { program: "ls".to_string(), args: vec![] }
    );
}

#[test]
fn first_word_ends_at_first_whitespace() {
    match parse_line("grep\t-r  foo .") {
        Command::Run { program, args } => {
            assert_eq!(program, "grep");
            assert_eq!(args, strings(&["-r", "foo", "."]));
        }
        other => panic!("unexpected {:?}", other),
    }
}

#[test]
fn cd_alone_is_cd_home() {
    assert_eq!(parse_line("cd"), Command::ChangeDir("~".to_string()));
    assert_eq!(parse_line("cd"), parse_line("cd ~"));
    assert_eq!(parse_line("  cd   "), parse_line("cd   ~ "));
}

#[test]
fn cd_takes_first_argument_only() {
    assert_eq!(parse_line("cd /tmp extra"), Command::ChangeDir("/tmp".to_string()));
    assert_eq!(
        parse_line("cd /nonexistent-path-xyz"),
        Command::ChangeDir("/nonexistent-path-xyz".to_string())
    );
}

#[test]
fn exit_ignores_arguments() {
    assert_eq!(parse_line("exit"), Command::Exit);
    assert_eq!(parse_line(" exit 3 "), Command::Exit);
}

#[test]
fn builtins_inside_a_pipeline_are_stages() {
    assert_eq!(
        parse_line("cd /tmp | cat"),
        Command::Pipeline(vec![strings(&["cd", "/tmp"]), strings(&["cat"])])
    );
}

#[test]
fn two_stage_pipeline() {
    assert_eq!(
        parse_line("echo hello | wc -c"),
        Command::Pipeline(vec![strings(&["echo", "hello"]), strings(&["wc", "-c"])])
    );
}

#[test]
fn three_stage_pipeline() {
    assert_eq!(
        parse_line("printf 'b\\na\\nc' | sort | head -n 2"),
        Command::Pipeline(vec![
            strings(&["printf", "'b\\na\\nc'"]),
            strings(&["sort"]),
            strings(&["head", "-n", "2"]),
        ])
    );
}

#[test]
fn blank_stage_is_kept_by_the_parser() {
    assert_eq!(
        parse_line("echo hi || wc -l"),
        Command::Pipeline(vec![strings(&["echo", "hi"]), vec![], strings(&["wc", "-l"])])
    );
    assert_eq!(parse_line("|"), Command::Pipeline(vec![vec![], vec![]]));
}

#[test]
fn parsing_is_repeatable() {
    let line = "echo hello | wc -c";
    assert_eq!(parse_line(line), parse_line(line));
}
