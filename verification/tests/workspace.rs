//! Workspaces and the agents written into them.

use coin::cli::debater;
use coin::debate::credence::CredenceFormat;
use coin::debate::format::DebateFormat;
use coin::debate::state::{Side, Topic};
use coin::error::CoinError;
use coin::opencode::workspace::{agent_file, needs_init, settle_init};

#[test]
fn an_agent_is_a_markdown_file_with_a_header() {
    let agent = agent_file("debater-a", "Debate side A", "You are A.");
    assert_eq!(agent.directory, vec![".opencode", "agent"]);
    assert_eq!(agent.file_name, "debater-a.md");
    assert_eq!(
        agent.contents,
        "---\ndescription: Debate side A\nmode: primary\n---\nYou are A.\n"
    );
}

#[test]
fn each_side_gets_its_own_persona() {
    let topic = Topic::new("q", "first case", "second case");
    for (side, name) in [(Side::A, "debater-a.md"), (Side::B, "debater-b.md")] {
        let agent = debater(&CredenceFormat, side, &topic);
        assert_eq!(agent.file_name, name);
        assert!(agent.contents.contains(&CredenceFormat.system_prompt(side, &topic)));
        let description = format!("description: Debate side {}\n", side.to_string());
        assert!(agent.contents.contains(&description));
    }
}

#[test]
fn a_failed_init_is_reported() {
    assert_eq!(settle_init(true, "exit status: 0"), Ok(()));
    assert_eq!(
        settle_init(false, "exit status: 128"),
        Err(CoinError::OpencodeExited {
            status: "git init failed with exit status: 128".to_string()
        })
    );
}

#[test]
fn a_workspace_that_is_a_repository_is_left_alone() {
    assert!(needs_init(false));
    assert!(!needs_init(true));
}
