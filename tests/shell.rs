use minishell::pipeline::{parse, Stage};
use minishell::session::{Command, Event, Phase, Session};
use minishell::terminal::{raw_mode, TermSettings, RAW_INPUT_OFF, RAW_LOCAL_OFF, VMIN, VTIME};
use minishell::terminal::{BRKINT, CS8, ECHO, ICANON, ICRNL, IEXTEN, INPCK, ISIG, ISTRIP, IXON, NCCS, OPOST};
use minishell::text::{is_blank, split_segments, split_words, trim};
use minishell::wiring::{plan_stage, str_eq, PipelineRun, Sink, Source, StageAction, Step};

fn stage(program: &str, args: &[&str]) -> Stage {
    Stage { program: program.to_string(), args: args.iter().map(|a| a.to_string()).collect() }
}

fn names(stages: &[Stage]) -> Vec<String> {
    stages.iter().map(|s| s.program.clone()).collect()
}

#[test]
fn blank_agrees_with_std_on_every_char() {
    for u in 0u32..0x110000 {
        if let Some(c) = char::from_u32(u) {
            assert_eq!(is_blank(c), c.is_whitespace(), "char {:x}", u);
        }
    }
}

#[test]
fn trim_removes_outer_whitespace_only() {
    assert_eq!(trim("  ls -l \t\n"), "ls -l");
    assert_eq!(trim("   "), "");
    assert_eq!(trim(""), "");
    assert_eq!(trim("\u{3000}a b\u{a0}"), "a b");
}

#[test]
fn words_are_maximal_runs() {
    assert_eq!(split_words("  grep   -v  x "), vec!["grep", "-v", "x"]);
    assert_eq!(split_words("\t"), Vec::<String>::new());
    assert_eq!(split_words("one"), vec!["one"]);
}

#[test]
fn segments_split_on_spaced_bar_only() {
    assert_eq!(split_segments("a | b | c"), vec!["a", "b", "c"]);
    assert_eq!(split_segments("a|b"), vec!["a|b"]);
    assert_eq!(split_segments("a | | b"), vec!["a", "| b"]);
    assert_eq!(split_segments(""), vec![""]);
    assert_eq!(split_segments("a | "), vec!["a", ""]);
}

#[test]
fn line_without_delimiter_is_one_stage() {
    let p = parse("  ls -la /tmp  ");
    assert_eq!(p.len(), 1);
    assert_eq!(p[0].program, "ls");
    assert_eq!(p[0].args, vec!["-la", "/tmp"]);
    assert_eq!(parse("echo a|b").len(), 1);
}

#[test]
fn empty_line_is_one_empty_stage() {
    let p = parse("   ");
    assert_eq!(p.len(), 1);
    assert_eq!(p[0].program, "");
    assert!(p[0].args.is_empty());
}

#[test]
fn delimiters_give_stages_in_order() {
    let p = parse("cat file.txt | grep foo | sort -r | head -n 3");
    assert_eq!(p.len(), 4);
    assert_eq!(names(&p), vec!["cat", "grep", "sort", "head"]);
    assert_eq!(p[0].args, vec!["file.txt"]);
    assert_eq!(p[3].args, vec!["-n", "3"]);
}

#[test]
fn str_eq_compares_characters() {
    assert!(str_eq("cd", "cd"));
    assert!(!str_eq("cd", "c"));
    assert!(!str_eq("cd", "cD"));
}

#[test]
fn cd_without_argument_goes_to_root() {
    match plan_stage(&stage("cd", &[]), true, false) {
        StageAction::ChangeDir { path } => assert_eq!(path, "/"),
        _ => panic!("expected a directory change"),
    }
}

#[test]
fn cd_with_argument_goes_there_verbatim() {
    match plan_stage(&stage("cd", &["~/src/$HOME", "x"]), false, true) {
        StageAction::ChangeDir { path } => assert_eq!(path, "~/src/$HOME"),
        _ => panic!("expected a directory change"),
    }
}

#[test]
fn exit_plans_the_end() {
    assert!(matches!(plan_stage(&stage("exit", &["3"]), true, false), StageAction::Exit));
}

#[test]
fn external_stage_wiring() {
    assert!(matches!(
        plan_stage(&stage("ls", &[]), false, false),
        StageAction::Spawn { input: Source::Session, output: Sink::Pipe }
    ));
    assert!(matches!(
        plan_stage(&stage("ls", &[]), true, true),
        StageAction::Spawn { input: Source::Previous, output: Sink::Session }
    ));
}

fn run_step(run: &PipelineRun) -> (usize, StageAction) {
    match run.next_step() {
        Step::Run { index, action } => (index, action),
        _ => panic!("expected a stage"),
    }
}

#[test]
fn three_stages_chain_and_only_last_is_awaited() {
    let mut run = PipelineRun::new(parse("a | b | c"));
    let (i, act) = run_step(&run);
    assert_eq!(i, 0);
    assert!(matches!(act, StageAction::Spawn { input: Source::Session, output: Sink::Pipe }));
    run.record(true);
    let (i, act) = run_step(&run);
    assert_eq!(i, 1);
    assert!(matches!(act, StageAction::Spawn { input: Source::Previous, output: Sink::Pipe }));
    run.record(true);
    let (i, act) = run_step(&run);
    assert_eq!(i, 2);
    assert_eq!(run.stage(i).program, "c");
    assert!(matches!(act, StageAction::Spawn { input: Source::Previous, output: Sink::Session }));
    run.record(true);
    assert!(matches!(run.next_step(), Step::Wait));
}

#[test]
fn cd_in_the_middle_cuts_the_chain() {
    let mut run = PipelineRun::new(parse("ls | cd /tmp | wc"));
    run_step(&run);
    run.record(true);
    let (_, act) = run_step(&run);
    assert!(matches!(act, StageAction::ChangeDir { .. }));
    run.record(false);
    let (_, act) = run_step(&run);
    assert!(matches!(act, StageAction::Spawn { input: Source::Session, output: Sink::Session }));
    run.record(true);
    assert!(matches!(run.next_step(), Step::Wait));
}

#[test]
fn cd_last_leaves_nothing_to_wait_for() {
    let mut run = PipelineRun::new(parse("ls | cd"));
    run_step(&run);
    run.record(true);
    run_step(&run);
    run.record(true);
    assert!(matches!(run.next_step(), Step::Done));
}

#[test]
fn failed_spawn_gives_next_stage_session_input() {
    let mut run = PipelineRun::new(parse("nosuchprogram | wc -l"));
    run_step(&run);
    run.record(false);
    let (_, act) = run_step(&run);
    assert!(matches!(act, StageAction::Spawn { input: Source::Session, output: Sink::Session }));
    run.record(false);
    assert!(matches!(run.next_step(), Step::Done));
}

#[test]
fn exit_in_the_middle_ends_the_walk() {
    let mut run = PipelineRun::new(parse("yes | exit | wc"));
    run_step(&run);
    run.record(true);
    let (i, act) = run_step(&run);
    assert_eq!(i, 1);
    assert!(matches!(act, StageAction::Exit));
}

fn settings() -> TermSettings {
    TermSettings {
        input_modes: 0o2766,
        output_modes: 0o5,
        control_modes: 0o277,
        local_modes: 0o105073,
        control_chars: (0u8..32).collect(),
    }
}

#[test]
fn raw_mode_clears_and_sets_the_listed_flags() {
    let s = settings();
    let r = raw_mode(&s);
    assert_eq!(r.input_modes, 0o0304);
    assert_eq!(r.output_modes, 0o4);
    assert_eq!(r.control_modes, 0o277);
    assert_eq!(r.local_modes, 0o5060);
    assert_eq!(r.input_modes & RAW_INPUT_OFF, 0);
    assert_eq!(r.local_modes & RAW_LOCAL_OFF, 0);
    assert_eq!(r.control_chars[VMIN], 0);
    assert_eq!(r.control_chars[VTIME], 1);
    assert_eq!(r.control_chars[0], 0);
    assert_eq!(r.control_chars[7], 7);
    assert_eq!(s.control_chars[VMIN], 6);
}

#[test]
fn flag_values_match_the_termios_crate() {
    assert_eq!(BRKINT, termios::BRKINT);
    assert_eq!(ICRNL, termios::ICRNL);
    assert_eq!(INPCK, termios::INPCK);
    assert_eq!(ISTRIP, termios::ISTRIP);
    assert_eq!(IXON, termios::IXON);
    assert_eq!(OPOST, termios::OPOST);
    assert_eq!(CS8, termios::CS8);
    assert_eq!(ECHO, termios::ECHO);
    assert_eq!(ICANON, termios::ICANON);
    assert_eq!(IEXTEN, termios::IEXTEN);
    assert_eq!(ISIG, termios::ISIG);
    assert_eq!(VMIN, termios::VMIN);
    assert_eq!(VTIME, termios::VTIME);
    assert_eq!(NCCS, termios::os::target::NCCS);
}

fn restored(cmd: Command) -> TermSettings {
    match cmd {
        Command::Restore(s) => s,
        _ => panic!("expected a restore"),
    }
}

#[test]
fn session_restores_after_exit() {
    let mut s = Session::new();
    assert!(matches!(s.first_command(), Command::Capture));
    let cmd = s.handle(Event::Captured(settings()));
    match cmd {
        Command::Apply(raw) => assert_eq!(raw.control_chars[VMIN], 0),
        _ => panic!("expected apply"),
    }
    assert!(matches!(s.handle(Event::Applied), Command::ReadLine));
    assert!(matches!(s.handle(Event::PipelineDone), Command::ReadLine));
    let back = restored(s.handle(Event::ExitRequested));
    assert_eq!(back.local_modes, 0o105073);
    assert_eq!(back.control_chars, settings().control_chars);
    assert!(matches!(s.handle(Event::Restored), Command::Stop { restore_failed: false }));
    assert!(matches!(s.handle(Event::Restored), Command::Stop { .. }));
}

#[test]
fn session_restores_after_failed_apply() {
    let mut s = Session::new();
    s.handle(Event::Captured(settings()));
    let back = restored(s.handle(Event::ApplyFailed));
    assert_eq!(back.input_modes, 0o2766);
    assert!(matches!(s.handle(Event::RestoreFailed), Command::Stop { restore_failed: true }));
}

#[test]
fn session_restores_after_failed_read() {
    let mut s = Session::new();
    s.handle(Event::Captured(settings()));
    s.handle(Event::Applied);
    let back = restored(s.handle(Event::ReadFailed));
    assert_eq!(back.output_modes, 0o5);
}

#[test]
fn session_without_terminal_stops_at_once() {
    let mut s = Session::new();
    assert!(matches!(s.handle(Event::CaptureFailed), Command::Stop { restore_failed: false }));
}

#[test]
fn phase_follows_the_events() {
    let mut s = Session::new();
    assert_eq!(s.current_phase(), Phase::Capturing);
    s.handle(Event::Captured(settings()));
    assert_eq!(s.current_phase(), Phase::Applying);
    s.handle(Event::Applied);
    assert_eq!(s.current_phase(), Phase::Active);
    s.handle(Event::ExitRequested);
    assert_eq!(s.current_phase(), Phase::Restoring);
    s.handle(Event::Restored);
    assert_eq!(s.current_phase(), Phase::Finished);
}

#[test]
fn short_settings_are_restored_without_apply() {
    let mut s = Session::new();
    let short = TermSettings { input_modes: 1, output_modes: 2, control_modes: 3, local_modes: 4, control_chars: vec![0; 3] };
    let back = restored(s.handle(Event::Captured(short)));
    assert_eq!(back.control_modes, 3);
    assert_eq!(s.current_phase(), Phase::Restoring);
}
