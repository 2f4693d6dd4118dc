use sued::command::{parse_command, Command};
use sued::session::{
    crash_codes, overflow_choice, overflow_choice_of, plan_run, startup_message,
    startup_message_at, startup_messages, OverflowChoice, RunPlan,
};

fn words(ws: &[&str]) -> Vec<String> {
    ws.iter().map(|s| s.to_string()).collect()
}

#[test]
fn parse_simple_commands() {
    assert!(matches!(parse_command("~\n", 0), Command::ListCommands));
    assert!(matches!(parse_command("~help\n", 0), Command::Help));
    assert!(matches!(parse_command("~about\r\n", 0), Command::About));
    assert!(matches!(parse_command("~clear", 0), Command::Clear));
    assert!(matches!(parse_command("~bsod\n", 0), Command::Bsod));
}

#[test]
fn parse_exit_only_when_alone() {
    assert!(matches!(parse_command("~exit\n", 3), Command::Exit));
    assert!(matches!(parse_command("~exit now\n", 3), Command::Nothing));
}

#[test]
fn parse_file_names_keep_spaces() {
    match parse_command("~save my notes.txt\n", 0) {
        Command::Save(p) => assert_eq!(p, "my notes.txt"),
        _ => panic!("expected save"),
    }
    assert!(matches!(parse_command("~save\n", 0), Command::SaveWhere));
    match parse_command("~open ~/a  b\n", 0) {
        Command::Open(p) => assert_eq!(p, "~/a  b"),
        _ => panic!("expected open"),
    }
    assert!(matches!(parse_command("~open\n", 0), Command::OpenWhat));
}

#[test]
fn parse_show_defaults_and_errors() {
    assert!(matches!(parse_command("~show\n", 7), Command::Show { start: Some(1), end: Some(7) }));
    assert!(matches!(parse_command("~show 3\n", 7), Command::Show { start: Some(3), end: Some(7) }));
    assert!(matches!(parse_command("~show 2 4\n", 7), Command::Show { start: Some(2), end: Some(4) }));
    assert!(matches!(parse_command("~show x\n", 7), Command::Show { start: None, end: Some(7) }));
}

#[test]
fn parse_line_numbers_default_to_zero() {
    assert!(matches!(parse_command("~insert 4\n", 0), Command::Insert(4)));
    assert!(matches!(parse_command("~insert four\n", 0), Command::Insert(0)));
    assert!(matches!(parse_command("~insert\n", 0), Command::InsertWhere));
    assert!(matches!(parse_command("~replace 2\n", 0), Command::Replace(2)));
    assert!(matches!(parse_command("~replace\n", 0), Command::ReplaceWhich));
    assert!(matches!(parse_command("~del 2\n", 0), Command::Delete(2)));
    assert!(matches!(parse_command("~delete +5\n", 0), Command::Delete(5)));
    assert!(matches!(parse_command("~delete\n", 0), Command::DeleteWhich));
}

#[test]
fn parse_swap_variants() {
    assert!(matches!(parse_command("~swap 1 3\n", 0), Command::Swap(1, 3)));
    match parse_command("~swap 1\n", 0) {
        Command::SwapWithWhat(a) => assert_eq!(a, "1"),
        _ => panic!("expected swap with what"),
    }
    assert!(matches!(parse_command("~swap\n", 0), Command::SwapWhich));
}

#[test]
fn parse_substitute_variants() {
    match parse_command("~sub 2 fo+/bar baz\n", 0) {
        Command::Substitute { line, pattern, replacement } => {
            assert_eq!(line, 2);
            assert_eq!(pattern, "fo+");
            assert_eq!(replacement, "bar baz");
        }
        _ => panic!("expected substitute"),
    }
    assert!(matches!(parse_command("~substitute 2 nothing\n", 0), Command::SubstituteWhat));
    assert!(matches!(parse_command("~substitute 2\n", 0), Command::SubstituteWhat));
    assert!(matches!(parse_command("~substitute\n", 0), Command::SubstituteWhichLine));
    match parse_command("~sub 1 ab/c/d\n", 0) {
        Command::Substitute { line, pattern, replacement } => {
            assert_eq!(line, 1);
            assert_eq!(pattern, "ab");
            assert_eq!(replacement, "c");
        }
        _ => panic!("expected substitute"),
    }
}

#[test]
fn parse_search_and_indent() {
    match parse_command("~search a b\n", 0) {
        Command::Search(t) => assert_eq!(t, "a b"),
        _ => panic!("expected search"),
    }
    assert!(matches!(parse_command("~search\n", 0), Command::SearchWhat));
    assert!(matches!(parse_command("~indent 2 -4\n", 0), Command::Indent(2, -4)));
    assert!(matches!(parse_command("~indent 2 x\n", 0), Command::Indent(2, 0)));
    assert!(matches!(parse_command("~indent 2\n", 0), Command::IndentHow(2)));
    assert!(matches!(parse_command("~indent\n", 0), Command::IndentWhich));
}

#[test]
fn parse_run_keeps_all_words() {
    match parse_command("~run ls -l\n", 0) {
        Command::Run(w) => assert_eq!(w, words(&["~run", "ls", "-l"])),
        _ => panic!("expected run"),
    }
}

#[test]
fn parse_text_and_unknown() {
    match parse_command("hello world\r\n", 0) {
        Command::Text(t) => assert_eq!(t, "hello world"),
        _ => panic!("expected text"),
    }
    match parse_command("~frobnicate now\n", 0) {
        Command::Unknown(w) => assert_eq!(w, "~frobnicate"),
        _ => panic!("expected unknown"),
    }
    match parse_command("", 0) {
        Command::Text(t) => assert_eq!(t, ""),
        _ => panic!("expected text"),
    }
    match parse_command(" ~help\n", 0) {
        Command::Text(t) => assert_eq!(t, " ~help"),
        _ => panic!("expected text"),
    }
}

#[test]
fn run_plans() {
    assert!(matches!(plan_run(&words(&["~run"])), RunPlan::RunWhat));
    assert!(matches!(plan_run(&words(&["~run", "sued"])), RunPlan::Overflow));
    match plan_run(&words(&["~run", "echo", "a", "b"])) {
        RunPlan::Run { command, args } => {
            assert_eq!(command, "echo");
            assert_eq!(args, words(&["a", "b"]));
        }
        _ => panic!("expected run"),
    }
}

#[test]
fn overflow_answers() {
    assert_eq!(overflow_choice(" A \n"), OverflowChoice::Abort);
    assert_eq!(overflow_choice("f\n"), OverflowChoice::Fail);
    assert_eq!(overflow_choice("F"), OverflowChoice::Fail);
    assert_eq!(overflow_choice("r\n"), OverflowChoice::Retry);
    assert_eq!(overflow_choice("abort\n"), OverflowChoice::Retry);
    assert_eq!(overflow_choice_of("a"), OverflowChoice::Abort);
    assert_eq!(overflow_choice_of("A"), OverflowChoice::Retry);
}

#[test]
fn crash_codes_pad_and_cut() {
    assert_eq!(crash_codes(&[0xDEAD, 0x101]), vec![0xDEAD, 0x101, 0, 0]);
    assert_eq!(crash_codes(&[1, 2, 3, 4, 5]), vec![1, 2, 3, 4]);
    assert_eq!(crash_codes(&[]), vec![0, 0, 0, 0]);
}

#[test]
fn startup_message_is_one_of_the_list() {
    let all = startup_messages();
    assert_eq!(all.len(), 28);
    assert_eq!(startup_message_at(0), "the editor of all time");
    assert_eq!(startup_message_at(27), "free software, hell yeah");
    for _ in 0..50 {
        assert!(all.contains(&startup_message()));
    }
}
