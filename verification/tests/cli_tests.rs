use standby::commands::completions::{execute as completions, CompletionsArgs, BASH_COMPLETION, FISH_COMPLETION, ZSH_COMPLETION};
use standby::commands::sleep::{execute as sleep, SleepArgs, SleepPlan};
use standby::commands::wait::WaitArgs;
use standby::commands::{Cli, Commands, Plan};
use standby::time::Duration;

#[test]
fn sleep_plans() {
    assert!(matches!(sleep(SleepArgs { duration: "infinity".to_string() }).unwrap(), SleepPlan::Forever));
    match sleep(SleepArgs { duration: "1m30s".to_string() }).unwrap() {
        SleepPlan::For(d) => assert_eq!(d, Duration::from_secs(90)),
        SleepPlan::Forever => panic!("finite"),
    }
    assert!(sleep(SleepArgs { duration: "invalid".to_string() }).is_err());
}

#[test]
fn completion_scripts() {
    assert_eq!(completions(&CompletionsArgs { shell: "bash".to_string() }), BASH_COMPLETION);
    assert_eq!(completions(&CompletionsArgs { shell: "zsh".to_string() }), ZSH_COMPLETION);
    assert_eq!(completions(&CompletionsArgs { shell: "fish".to_string() }), FISH_COMPLETION);
    assert!(BASH_COMPLETION.contains("complete -o bashdefault -o default -o nospace -F _standby_completions standby"));
    assert!(BASH_COMPLETION.contains("cur=\"${COMP_WORDS[COMP_CWORD]}\""));
    assert!(ZSH_COMPLETION.starts_with("#compdef standby\n"));
}

#[test]
fn cli_dispatch() {
    let cli = Cli { command: Commands::Wait(WaitArgs { pids: vec![7], timeout: None }) };
    match cli.execute().unwrap() {
        Plan::Wait(p) => assert_eq!(p.pids, std::collections::HashSet::from([7])),
        _ => panic!("expected a wait plan"),
    }
    let cli = Cli { command: Commands::Sleep(SleepArgs { duration: "2".to_string() }) };
    assert!(matches!(cli.execute().unwrap(), Plan::Sleep(SleepPlan::For(_))));
    let cli = Cli { command: Commands::Completions(CompletionsArgs { shell: "fish".to_string() }) };
    assert!(matches!(cli.execute().unwrap(), Plan::Completions(_)));
}
