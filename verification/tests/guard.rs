use merle::guard::discards_uncommitted_changes;

const RESTORE: &str = "a checkout/restore command is about to run while these files have \
    uncommitted changes (blocked regardless of the exact target, since '.' or a directory would \
    silently include them too):\n";

#[test]
fn clean_repository_is_never_blocked() {
    for cmd in ["git reset --hard", "git clean -fd", "git checkout -- .", "git restore x", "ls"] {
        assert_eq!(discards_uncommitted_changes(cmd, 0, ""), None);
        assert_eq!(discards_uncommitted_changes(cmd, 0, " \n"), None);
        assert_eq!(discards_uncommitted_changes(cmd, 128, "fatal: not a git repository"), None);
    }
}

#[test]
fn wipe_is_blocked() {
    let wanted = "would discard ALL uncommitted changes in the repo:\n?? new.txt";
    for cmd in ["git reset --hard", "cd x && git reset --hard HEAD~1", "git clean -fd", "git clean --force", "git clean -df"] {
        let warning = discards_uncommitted_changes(cmd, 0, "?? new.txt\n");
        assert_eq!(warning.as_deref(), Some(wanted), "{cmd}");
    }
}

#[test]
fn restore_is_blocked_while_a_file_is_modified() {
    let status = " M wip.txt\nM  staged.rs\nMM both.rs\n?? new\nA  added\nM\n";
    let wanted = format!("{RESTORE}wip.txt\nstaged.rs\nboth.rs");
    assert_eq!(discards_uncommitted_changes("git checkout -- a", 0, status), Some(wanted.clone()));
    assert_eq!(discards_uncommitted_changes("git restore a", 0, status), Some(wanted));
}

#[test]
fn target_of_a_restore_does_not_matter() {
    let status = " M wip.txt\n";
    let named = discards_uncommitted_changes("git checkout -- wip.txt", 0, status);
    let all = discards_uncommitted_changes("git checkout -- .", 0, status);
    let other = discards_uncommitted_changes("git checkout -- other.txt", 0, status);
    assert_eq!(named, Some(format!("{RESTORE}wip.txt")));
    assert_eq!(named, all);
    assert_eq!(named, other);
}

#[test]
fn restore_is_free_while_nothing_is_modified() {
    assert_eq!(discards_uncommitted_changes("git checkout -- .", 0, "?? new\nA  added\n"), None);
    assert_eq!(discards_uncommitted_changes("git restore .", 0, " M\n M \n"), None);
}

#[test]
fn other_commands_are_free() {
    assert_eq!(discards_uncommitted_changes("cargo test", 0, " M wip.txt\n"), None);
    assert_eq!(discards_uncommitted_changes("git clean -n", 0, " M wip.txt\n"), None);
    assert_eq!(discards_uncommitted_changes("git checkout main", 0, " M wip.txt\n"), None);
}

#[test]
fn checkout_of_files_is_blocked_in_every_form() {
    for cmd in ["git checkout .", "git checkout ./src", "git checkout HEAD -- .", "git checkout HEAD .", "git checkout main -- f", "git checkout main ./f", "git checkout -f main", "git switch -f main", "git switch --force main", "git switch --discard-changes main"] {
        assert_eq!(
            discards_uncommitted_changes(cmd, 0, " M wip.txt\n"),
            Some(format!("{RESTORE}wip.txt")),
            "{cmd}"
        );
    }
    for cmd in ["git checkout -b topic", "git checkout HEAD~1", "git checkout topic", "git checkout HEAD --detach", "git checkout main --", "git checkout main -- && ls", "git checkout main 2>/dev/null", "git checkout main; ls -- f", "git switch topic", "git switch --force-create topic"] {
        assert_eq!(discards_uncommitted_changes(cmd, 0, " M wip.txt\n"), None, "{cmd}");
    }
}

#[test]
fn every_change_that_a_restore_discards_counts() {
    for mark in [" M", " D", " T", "M ", "MM", "MD", "AM", "AD", "RM", "CM", "TM"] {
        assert_eq!(
            discards_uncommitted_changes("git restore .", 0, &format!("{mark} f.rs\n")),
            Some(format!("{RESTORE}f.rs")),
            "{mark}"
        );
    }
    for mark in ["??", "A ", "D ", "R ", "!!"] {
        assert_eq!(
            discards_uncommitted_changes("git restore .", 0, &format!("{mark} f.rs\n")),
            None,
            "{mark}"
        );
    }
}

#[test]
fn forced_clean_is_blocked_in_every_form() {
    for cmd in ["git clean -df", "git clean -xdf", "git clean -fd", "git clean -d -f", "git clean -d --force", "git clean -df && ls -n", "(git clean -qdf)", "git clean -Xdf src"] {
        assert!(discards_uncommitted_changes(cmd, 0, "?? new\n").is_some(), "{cmd}");
    }
    for cmd in ["git clean -n", "git clean -nf", "git clean -dnf", "git clean -dfn", "git clean -df -n", "git clean -df --dry-run", "git clean -if", "git clean -nd leaf", "git clean -", "git clean"] {
        assert_eq!(discards_uncommitted_changes(cmd, 0, "?? new\n"), None, "{cmd}");
    }
}

#[test]
fn blocked_command_stays_blocked_in_a_longer_one() {
    for cmd in ["git reset --hard", "git clean -xdf", "git checkout -- .", "git checkout .", "git checkout main -- f", "git restore x"] {
        for (before, behind) in [("cd x && ", ""), ("", "&& ls"), ("x", "; ls"), ("(", ") | cat")] {
            let longer = format!("{before}{cmd}{behind}");
            assert!(discards_uncommitted_changes(&longer, 0, " M wip.txt\n").is_some(), "{longer}");
        }
    }
}

#[test]
fn path_begins_behind_the_third_character() {
    assert_eq!(
        discards_uncommitted_changes("git restore .", 0, " M…wip.txt\nRM old -> new\n"),
        Some(format!("{RESTORE}wip.txt\nold -> new"))
    );
}
