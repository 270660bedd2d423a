use repo_check::gateway::{command_line, git_command, GatewayError, ProcessOutput, Query};

fn strings(parts: &[&str]) -> Vec<String> {
    parts.iter().map(|part| String::from(*part)).collect()
}

#[test]
fn each_query_has_its_fixed_arguments() {
    assert_eq!(Query::Status.args(), strings(&["status", "--porcelain"]));
    assert_eq!(Query::StashList.args(), strings(&["stash", "list"]));
    assert_eq!(Query::Remotes.args(), strings(&["remote"]));
    assert_eq!(
        Query::RemoteRefs.args(),
        strings(&["for-each-ref", "--format=%(refname)", "refs/remotes/"])
    );
    assert_eq!(
        Query::LocalOnlyLog.args(),
        strings(&["log", "--oneline", "--branches", "--not", "--remotes"])
    );
}

#[test]
fn command_line_names_the_repository_first() {
    assert_eq!(
        command_line("/work/repo", &Query::StashList.args()),
        strings(&["-C", "/work/repo", "stash", "list"])
    );
    assert_eq!(command_line("", &vec![]), strings(&["-C", ""]));
}

#[test]
fn success_hands_out_standard_output() {
    let outcome = Ok(ProcessOutput {
        success: true,
        stdout: String::from(" M file.txt\n"),
        stderr: String::from("warning: something\n"),
    });
    assert_eq!(git_command(&Query::Status.args(), outcome), Ok(String::from(" M file.txt\n")));
}

#[test]
fn failure_carries_arguments_and_trimmed_standard_error() {
    let outcome = Ok(ProcessOutput {
        success: false,
        stdout: String::from("ignored"),
        stderr: String::from("fatal: not a git repository\n"),
    });
    assert_eq!(
        git_command(&Query::Status.args(), outcome),
        Err(GatewayError {
            message: String::from("git status --porcelain failed: fatal: not a git repository"),
        })
    );
}

#[test]
fn failure_without_standard_error() {
    let outcome = Ok(ProcessOutput {
        success: false,
        stdout: String::new(),
        stderr: String::from(" \n"),
    });
    assert_eq!(
        git_command(&Query::Remotes.args(), outcome),
        Err(GatewayError { message: String::from("git remote failed: ") })
    );
}

#[test]
fn launch_error_is_a_gateway_error() {
    let outcome = Err(String::from("No such file or directory (os error 2)"));
    assert_eq!(
        git_command(&Query::Status.args(), outcome),
        Err(GatewayError { message: String::from("No such file or directory (os error 2)") })
    );
}
