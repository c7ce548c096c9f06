//! Preparation of the directory an opencode server treats as its project root.
//!
//! Debates run against a disposable scratch directory rather than the user's
//! own projects, so a debater's tool use lands somewhere throwaway.
//!
//! That directory must be a **git repository**. opencode resolves its model
//! catalog per project, and a directory outside a repository yields an empty
//! catalog, so no model can be selected by name. Prompting still succeeds
//! against the server's default model, which makes the failure quiet and
//! confusing. Initializing a repository is what avoids it.

use vstd::prelude::*;

use crate::error::{CoinError, ErrorView};
use crate::text;

verus! {

/// Name of the directory that makes a workspace a repository.
pub const REPOSITORY_DIRECTORY: &'static str = ".git";

/// An agent definition and where it goes in a workspace.
///
/// Agents are how coin controls a debater's persona. A file under
/// `.opencode/agent/` is registered under its name, and its body **replaces**
/// the built-in system prompt rather than being appended to it. Agent files are
/// read when the server starts, so every agent must be written before that.
#[derive(Debug, Clone)]
pub struct AgentFile {
    /// Directory below the workspace, outermost name first.
    pub directory: Vec<String>,
    /// Name of the file in it.
    pub file_name: String,
    /// What the file says.
    pub contents: String,
}

/// The agent definition for a name, a description, and a system prompt.
pub fn agent_file(name: &str, description: &str, prompt: &str) -> (r: AgentFile)
    ensures
        text::texts(r.directory@) == seq![".opencode"@, "agent"@],
        r.file_name@ == name@ + ".md"@,
        r.contents@ == "---\ndescription: "@ + description@ + "\nmode: primary\n---\n"@ + prompt@
            + "\n"@,
{
    let mut directory: Vec<String> = Vec::new();
    directory.push(".opencode".to_owned());
    directory.push("agent".to_owned());
    assert(text::texts(directory@) =~= seq![".opencode"@, "agent"@]);
    let mut file_name = name.to_owned();
    file_name.append(".md");
    let mut contents = "---\ndescription: ".to_owned();
    contents.append(description);
    contents.append("\nmode: primary\n---\n");
    contents.append(prompt);
    contents.append("\n");
    AgentFile { directory, file_name, contents }
}

/// Whether a workspace has to be made a repository. One that is there already is
/// left alone, so that preparing a workspace again changes nothing.
pub fn needs_init(repository_exists: bool) -> (r: bool)
    ensures
        r == !repository_exists,
{
    !repository_exists
}

/// Settle what initializing the repository amounts to, given whether `git`
/// reported success and how it describes its exit.
pub fn settle_init(success: bool, status: &str) -> (r: Result<(), CoinError>)
    ensures
        success ==> r is Ok,
        !success ==> r is Err && r->Err_0@ == (ErrorView::OpencodeExited {
            status: "git init failed with "@ + status@,
        }),
{
    if success {
        Ok(())
    } else {
        let mut message = "git init failed with ".to_owned();
        message.append(status);
        Err(CoinError::OpencodeExited { status: message })
    }
}

} // verus!
