use repo_check::cli::{Args, RunMode};
use repo_check::types::Status;

fn plain() -> Args {
    Args {
        include_dot: false,
        only_safe: false,
        only_unsafe: false,
        only_unknown: false,
        json: false,
        ignore_untracked: false,
        allow_unknown: false,
        delete: false,
        yes: false,
        trash: false,
        dry_run: false,
        path: String::from("."),
    }
}

#[test]
fn no_filter_by_default() {
    assert_eq!(plain().status_filter(), None);
}

#[test]
fn each_flag_selects_its_verdict() {
    assert_eq!(Args { only_safe: true, ..plain() }.status_filter(), Some(Status::Safe));
    assert_eq!(Args { only_unsafe: true, ..plain() }.status_filter(), Some(Status::Unsafe));
    assert_eq!(Args { only_unknown: true, ..plain() }.status_filter(), Some(Status::Unknown));
}

#[test]
fn first_flag_set_decides() {
    let args = Args { only_safe: true, only_unsafe: true, only_unknown: true, ..plain() };
    assert_eq!(args.status_filter(), Some(Status::Safe));
    let args = Args { only_unsafe: true, only_unknown: true, ..plain() };
    assert_eq!(args.status_filter(), Some(Status::Unsafe));
}

#[test]
fn run_modes() {
    assert_eq!(plain().run_mode(), RunMode::Report);
    assert_eq!(Args { dry_run: true, ..plain() }.run_mode(), RunMode::Report);
    assert_eq!(Args { delete: true, ..plain() }.run_mode(), RunMode::Delete);
    assert_eq!(Args { delete: true, dry_run: true, ..plain() }.run_mode(), RunMode::DryRun);
}
