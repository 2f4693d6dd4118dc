//! The editor's session-level decisions: the greeting, the `~run` command,
//! the "editor overflow" prompt and the crash screen's codes.
use vstd::prelude::*;
use rand::Rng;
use crate::text::{trim, trimmed, str_eq};

verus! {

/// The greetings, one of which is shown at startup.
pub open spec fn startup_message_list() -> Seq<Seq<char>> {
    seq![
        "the editor of all time"@,
        "shut up and edit"@,
        "the nonstandard text editor"@,
        "it's pronounced \"soo-ed\""@,
        "sued as in editor, not as in law"@,
        "sued, man! ~run man sued"@,
        "there is no visual mode"@,
        "the itor fell off"@,
        "the ultimate blank slate"@,
        "words matter; nothing else does"@,
        "the text editor that doesn't give a damn"@,
        "write like no one is watching, because they're not"@,
        "syntax? never heard of them"@,
        "what you get is what you get"@,
        "what the frick is a config file"@,
        "a non-extensible, uncustomisable but still free/libre editor"@,
        "text is stored in the balls"@,
        "want to configure? learn rust"@,
        "good luck figuring out how to exit"@,
        "sublime is temporary, sued is eternal"@,
        "you are on your own. good luck"@,
        "back in the day they charged for stuff like this"@,
        "no cursor keys, no need to worry about emacs pinky"@,
        "the control key is only used in emergencies"@,
        "no need for an evil-mode, sued is evil enough"@,
        "no config file means no config bankruptcy"@,
        "if vim is evil, sued is demonic"@,
        "free software, hell yeah"@,
    ]
}

/// The greetings, one of which is shown at startup.
pub fn startup_messages() -> (r: Vec<&'static str>)
    ensures
        r@.len() == startup_message_list().len(),
        forall|k: int| 0 <= k < r@.len() ==> #[trigger] r@[k]@ == startup_message_list()[k],
{
    let r = vec![
        "the editor of all time",
        "shut up and edit",
        "the nonstandard text editor",
        "it's pronounced \"soo-ed\"",
        "sued as in editor, not as in law",
        "sued, man! ~run man sued",
        "there is no visual mode",
        "the itor fell off",
        "the ultimate blank slate",
        "words matter; nothing else does",
        "the text editor that doesn't give a damn",
        "write like no one is watching, because they're not",
        "syntax? never heard of them",
        "what you get is what you get",
        "what the frick is a config file",
        "a non-extensible, uncustomisable but still free/libre editor",
        "text is stored in the balls",
        "want to configure? learn rust",
        "good luck figuring out how to exit",
        "sublime is temporary, sued is eternal",
        "you are on your own. good luck",
        "back in the day they charged for stuff like this",
        "no cursor keys, no need to worry about emacs pinky",
        "the control key is only used in emergencies",
        "no need for an evil-mode, sued is evil enough",
        "no config file means no config bankruptcy",
        "if vim is evil, sued is demonic",
        "free software, hell yeah",
    ];
    assert(r@.len() == startup_message_list().len());
    r
}

/// Calls `rand::thread_rng().gen_range(0..n)`. Trusted: the result is below
/// `n`; which value comes is left to chance.
#[verifier::external_body]
fn random_below(n: usize) -> (r: usize)
    requires
        n > 0,
    ensures
        r < n,
{
    rand::thread_rng().gen_range(0..n)
}

/// The greeting with the given index.
pub fn startup_message_at(index: usize) -> (r: &'static str)
    requires
        index < startup_message_list().len(),
    ensures
        r@ == startup_message_list()[index as int],
{
    let messages = startup_messages();
    messages[index]
}

/// A greeting picked at random from `startup_messages`.
pub fn startup_message() -> (r: &'static str)
    ensures
        exists|k: int| 0 <= k < startup_message_list().len() && r@ == #[trigger] startup_message_list()[k],
{
    let index = random_below(28);
    startup_message_at(index)
}

/// What `str::to_lowercase` returns: the string with each character replaced
/// by its Unicode lowercase mapping.
pub uninterp spec fn lowercase(s: Seq<char>) -> Seq<char>;

/// Calls `str::to_lowercase`. Trusted: the result is the named result
/// `lowercase` of the argument.
#[verifier::external_body]
fn to_lowercase(s: &str) -> (r: String)
    ensures
        r@ == lowercase(s@),
{
    s.to_lowercase()
}

/// The answers to the "(a)bort, (r)etry, (f)ail?" prompt.
#[derive(PartialEq, Eq, Structural, Clone, Copy, Debug)]
pub enum OverflowChoice {
    /// Leave the prompt.
    Abort,
    /// Show the crash screen and exit.
    Fail,
    /// Ask again.
    Retry,
}

/// The choice an answer makes, once it is trimmed and lowercased.
pub open spec fn overflow_choice_spec(answer: Seq<char>) -> OverflowChoice {
    if answer == seq!['a'] {
        OverflowChoice::Abort
    } else if answer == seq!['f'] {
        OverflowChoice::Fail
    } else {
        OverflowChoice::Retry
    }
}

/// The choice that an already trimmed and lowercased answer makes.
pub fn overflow_choice_of(answer: &str) -> (r: OverflowChoice)
    ensures
        r == overflow_choice_spec(answer@),
{
    proof {
        reveal_strlit("a");
        reveal_strlit("f");
        assert("a"@ =~= seq!['a']);
        assert("f"@ =~= seq!['f']);
    }
    if str_eq(answer, "a") {
        OverflowChoice::Abort
    } else if str_eq(answer, "f") {
        OverflowChoice::Fail
    } else {
        OverflowChoice::Retry
    }
}

/// The choice that a typed answer to the overflow prompt makes: the answer is
/// trimmed and lowercased, then `a` aborts, `f` fails and anything else retries.
pub fn overflow_choice(input: &str) -> (r: OverflowChoice)
    ensures
        r == overflow_choice_spec(lowercase(trimmed(input@))),
{
    let t = trim(input);
    let lowered = to_lowercase(t.as_str());
    overflow_choice_of(lowered.as_str())
}

/// The four codes shown on the crash screen: the first (up to) four of
/// `hex_codes`, then zeros.
pub fn crash_codes(hex_codes: &[u32]) -> (r: Vec<u32>)
    ensures
        r@.len() == 4,
        forall|k: int| 0 <= k < 4 ==> #[trigger] r@[k] == if k < hex_codes@.len() {
            hex_codes@[k]
        } else {
            0u32
        },
{
    let mut populated: Vec<u32> = vec![0u32, 0u32, 0u32, 0u32];
    let num_values = if hex_codes.len() < 4 {
        hex_codes.len()
    } else {
        4
    };
    let mut i: usize = 0;
    while i < num_values
        invariant
            i <= num_values <= 4,
            num_values <= hex_codes@.len(),
            num_values == 4 || num_values == hex_codes@.len(),
            populated@.len() == 4,
            forall|k: int| 0 <= k < i ==> #[trigger] populated@[k] == hex_codes@[k],
            forall|k: int| i <= k < 4 ==> #[trigger] populated@[k] == 0u32,
        decreases num_values - i,
    {
        populated.set(i, hex_codes[i]);
        i = i + 1;
    }
    populated
}

/// What the `~run` command does with its words.
pub enum RunPlan {
    /// No command was given.
    RunWhat,
    /// The command is `sued` itself: the editor overflows.
    Overflow,
    /// Run `command` through the shell, handing it the remaining words.
    Run { command: String, args: Vec<String> },
}

/// Decides what `~run` does with the words of its line (the first word being
/// `~run` itself).
pub fn plan_run(command_args: &Vec<String>) -> (r: RunPlan)
    ensures
        command_args@.len() <= 1 ==> r is RunWhat,
        command_args@.len() > 1 && command_args@[1]@ == seq!['s', 'u', 'e', 'd'] ==> r is Overflow,
        r matches RunPlan::Run { command, args } ==> {
            &&& command_args@.len() > 1
            &&& command@ == command_args@[1]@
            &&& args@ == command_args@.subrange(2, command_args@.len() as int)
        },
        command_args@.len() > 1 && command_args@[1]@ != seq!['s', 'u', 'e', 'd'] ==> r is Run,
{
    if command_args.len() <= 1 {
        return RunPlan::RunWhat;
    }
    proof {
        reveal_strlit("sued");
        assert("sued"@ =~= seq!['s', 'u', 'e', 'd']);
    }
    if str_eq(command_args[1].as_str(), "sued") {
        return RunPlan::Overflow;
    }
    let mut args: Vec<String> = Vec::new();
    let mut i: usize = 2;
    while i < command_args.len()
        invariant
            2 <= i <= command_args@.len(),
            args@ == command_args@.subrange(2, i as int),
        decreases command_args@.len() - i,
    {
        args.push(command_args[i].clone());
        i = i + 1;
    }
    RunPlan::Run { command: command_args[1].clone(), args }
}

} // verus!
