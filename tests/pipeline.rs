use rshell::command::{parse_line, Command};
use rshell::pipeline::{plan_pipeline, Launch};

fn stages_of(line: &str) -> Vec<Vec<String>> {
    match parse_line(line) {
        Command::Pipeline(stages) => stages,
        other => panic!("not a pipeline: {:?}", other),
    }
}

fn launch(stage: usize, program: &str, args: &[&str], from_previous: bool, piped: bool) -> Launch {
    Launch {
        stage,
        program: program.to_string(),
        args: args.iter().map(|s| s.to_string()).collect(),
        from_previous,
        piped,
    }
}

#[test]
fn two_stages_are_chained() {
    let plan = plan_pipeline(&stages_of("echo hello | wc -c"));
    assert_eq!(
        plan,
        vec![
            launch(0, "echo", &["hello"], false, true),
            launch(1, "wc", &["-c"], true, false),
        ]
    );
}

#[test]
fn three_stages_are_chained() {
    let plan = plan_pipeline(&stages_of("printf 'b\\na\\nc' | sort | head -n 2"));
    assert_eq!(
        plan,
        vec![
            launch(0, "printf", &["'b\\na\\nc'"], false, true),
            launch(1, "sort", &[], true, true),
            launch(2, "head", &["-n", "2"], true, false),
        ]
    );
}

#[test]
fn blank_stage_between_two_is_skipped() {
    let plan = plan_pipeline(&stages_of("echo hi || wc -l"));
    assert_eq!(
        plan,
        vec![launch(0, "echo", &["hi"], false, true), launch(2, "wc", &["-l"], true, false)]
    );
}

#[test]
fn trailing_blank_stage_leaves_last_output_piped() {
    let plan = plan_pipeline(&stages_of("echo hi |"));
    assert_eq!(plan, vec![launch(0, "echo", &["hi"], false, true)]);
}

#[test]
fn leading_blank_stage_lets_next_inherit_input() {
    let plan = plan_pipeline(&stages_of("| wc -l"));
    assert_eq!(plan, vec![launch(1, "wc", &["-l"], false, false)]);
}

#[test]
fn only_bars_launch_nothing() {
    assert_eq!(plan_pipeline(&stages_of("||")), vec![]);
}

#[test]
fn missing_program_keeps_its_stage_and_name() {
    let plan = plan_pipeline(&stages_of("no-such-program-xyz | cat"));
    assert_eq!(plan[0], launch(0, "no-such-program-xyz", &[], false, true));
    assert_eq!(plan[1], launch(1, "cat", &[], true, false));
}

#[test]
fn planning_is_repeatable() {
    let stages = stages_of("ls | sort | head -n 3");
    assert_eq!(plan_pipeline(&stages), plan_pipeline(&stages));
}
