use xalias::error::Error;
use xalias::shell::{
    add_path_to_config, detect_shell, ensure_path_in_config, get_shell_config_path,
    path_exists_in_config, path_question, ShellType,
};

#[test]
fn test_detect_shell_from_env() {
    let shell = detect_shell("bash");
    assert!(matches!(
        shell,
        ShellType::Bash | ShellType::Zsh | ShellType::Fish | ShellType::Unknown
    ));
}

#[test]
fn detect_shell_knows_three_shells() {
    assert_eq!(detect_shell("bash"), ShellType::Bash);
    assert_eq!(detect_shell("zsh"), ShellType::Zsh);
    assert_eq!(detect_shell("fish"), ShellType::Fish);
    assert_eq!(detect_shell("sh"), ShellType::Unknown);
    assert_eq!(detect_shell("Bash"), ShellType::Unknown);
    assert_eq!(detect_shell("/bin/bash"), ShellType::Unknown);
    assert_eq!(detect_shell(""), ShellType::Unknown);
}

#[test]
fn test_path_exists_in_config() {
    assert!(!path_exists_in_config(None, "/test/bin"));

    let content = "export PATH=\"/test/bin:$PATH\"\n";
    assert!(path_exists_in_config(Some(content), "/test/bin"));

    let content2 = "export PATH=\"/other/bin:$PATH\"\n";
    assert!(!path_exists_in_config(Some(content2), "/test/bin"));
}

#[test]
fn path_exists_in_each_known_form() {
    let dir = "/home/u/.local/bin/x";
    assert!(path_exists_in_config(Some("export PATH=\"/home/u/.local/bin/x:$PATH\""), dir));
    assert!(path_exists_in_config(Some("export PATH='/home/u/.local/bin/x:$PATH'"), dir));
    assert!(path_exists_in_config(Some("export PATH=/home/u/.local/bin/x:$PATH"), dir));
    assert!(path_exists_in_config(Some("set -gx PATH /home/u/.local/bin/x $PATH"), dir));
    assert!(path_exists_in_config(Some("set PATH /home/u/.local/bin/x $PATH"), dir));
    assert!(path_exists_in_config(Some("a\nPATH=$PATH:/home/u/.local/bin/x\nb\n"), dir));
    assert!(path_exists_in_config(Some("/home/u/.local/bin/x on my PATH"), dir));
}

#[test]
fn path_must_stand_on_one_line_with_its_directory() {
    let dir = "/test/bin";
    assert!(!path_exists_in_config(Some(""), dir));
    assert!(!path_exists_in_config(Some("PATH\n/test/bin\n"), dir));
    assert!(!path_exists_in_config(Some("# /test/bin\nexport PATH=/usr/bin\n"), dir));
    assert!(!path_exists_in_config(Some("path=/test/bin"), dir));
    assert!(path_exists_in_config(Some("x\r\nPATH /test/bin\r\ny"), dir));
}

#[test]
fn lines_end_at_line_feeds_and_lose_a_return_before_them() {
    assert!(path_exists_in_config(Some("PATH a\r"), "a\r"));
    assert!(!path_exists_in_config(Some("PATH a\r\n"), "a\r"));
    assert!(path_exists_in_config(Some("PATH a\r\r\n"), "a\r"));
    assert!(!path_exists_in_config(Some("PATH a\nb"), "a\nb"));
    assert!(path_exists_in_config(Some("export PATH=a\nb:$PATH"), "a\nb"));
    assert!(path_exists_in_config(Some("PATH"), ""));
    assert!(!path_exists_in_config(Some("path"), ""));
    assert!(!path_exists_in_config(Some(""), ""));
}

#[test]
fn test_add_path_to_config() {
    let content = add_path_to_config(&ShellType::Bash, None, "/test/bin").unwrap();
    assert!(content.contains("export PATH=\"/test/bin:$PATH\""));
    assert!(content.contains("# Added by x"));

    let content = add_path_to_config(&ShellType::Fish, None, "/test/bin").unwrap();
    assert!(content.contains("set -gx PATH /test/bin $PATH"));
}

#[test]
fn add_path_appends_comment_and_setting() {
    assert_eq!(
        add_path_to_config(&ShellType::Zsh, Some(""), "/b").unwrap(),
        "\n# Added by x - https://github.com/dwpeng/x\nexport PATH=\"/b:$PATH\"\n"
    );
    assert_eq!(
        add_path_to_config(&ShellType::Bash, Some("alias l=ls"), "/b").unwrap(),
        "alias l=ls\n\n# Added by x - https://github.com/dwpeng/x\nexport PATH=\"/b:$PATH\"\n"
    );
    assert_eq!(
        add_path_to_config(&ShellType::Fish, Some("alias l=ls\n"), "/b").unwrap(),
        "alias l=ls\n\n# Added by x - https://github.com/dwpeng/x\nset -gx PATH /b $PATH\n"
    );
}

#[test]
fn added_path_is_found_again() {
    for shell in [ShellType::Bash, ShellType::Zsh, ShellType::Fish] {
        let before = "# my settings";
        assert!(!path_exists_in_config(Some(before), "/test/bin"));
        let after = add_path_to_config(&shell, Some(before), "/test/bin").unwrap();
        assert!(path_exists_in_config(Some(&after), "/test/bin"));
    }
}

#[test]
fn add_path_refuses_unknown_shell() {
    assert_eq!(add_path_to_config(&ShellType::Unknown, None, "/b"), Err(Error::UnknownShell));
    assert_eq!(add_path_to_config(&ShellType::Unknown, Some("x"), "/b"), Err(Error::UnknownShell));
}

#[test]
fn shell_config_paths() {
    let home = Some("/home/u");
    assert_eq!(get_shell_config_path(&ShellType::Bash, home, true).unwrap(), "/home/u/.bashrc");
    assert_eq!(
        get_shell_config_path(&ShellType::Bash, home, false).unwrap(),
        "/home/u/.bash_profile"
    );
    assert_eq!(get_shell_config_path(&ShellType::Zsh, home, true).unwrap(), "/home/u/.zshrc");
    assert_eq!(
        get_shell_config_path(&ShellType::Fish, Some("/home/u/"), false).unwrap(),
        "/home/u/.config/fish/config.fish"
    );
    assert_eq!(get_shell_config_path(&ShellType::Unknown, home, true), Err(Error::UnknownShell));
    assert_eq!(get_shell_config_path(&ShellType::Bash, None, true), Err(Error::NoHomeDir));
    assert_eq!(get_shell_config_path(&ShellType::Unknown, None, true), Err(Error::NoHomeDir));
}

fn by_std(content: &str, bin_dir: &str) -> bool {
    let settings = vec![
        format!("export PATH=\"{}:$PATH\"", bin_dir),
        format!("export PATH='{}:$PATH'", bin_dir),
        format!("export PATH={}:$PATH", bin_dir),
        format!("set -gx PATH {} $PATH", bin_dir),
        format!("set PATH {} $PATH", bin_dir),
    ];
    settings.iter().any(|s| content.contains(s.as_str()))
        || content.lines().any(|line| line.contains("PATH") && line.contains(bin_dir))
}

#[test]
fn path_exists_agrees_with_std_on_many_texts() {
    let pieces = [
        "", "PATH", "path", "/b", "\n", "\r", "\r\n", " ", "export PATH=", "$PATH", ":", "\"", "'",
        "set -gx PATH ", "é", "x",
    ];
    let dirs = ["/b", "", "\r", "/b\r", "\n", "/b\n", "x", "é", "PATH", "/b:"];
    let mut count = 0;
    for a in pieces {
        for b in pieces {
            for c in pieces {
                let content = format!("{}{}{}", a, b, c);
                for dir in dirs {
                    assert_eq!(
                        path_exists_in_config(Some(&content), dir),
                        by_std(&content, dir),
                        "content {:?}, dir {:?}",
                        content,
                        dir
                    );
                    count += 1;
                }
            }
        }
    }
    assert_eq!(count, 16 * 16 * 16 * 10);
}

#[test]
fn setting_up_asks_before_it_adds_the_path() {
    let rc = "/home/u/.bashrc";
    let question = Some("Add it to /home/u/.bashrc?".to_string());
    assert_eq!(path_question(&ShellType::Bash, None, "/b", rc), question);
    assert_eq!(path_question(&ShellType::Zsh, Some("alias l=ls\n"), "/b", rc), question);
    assert_eq!(path_question(&ShellType::Fish, Some("set PATH /b $PATH"), "/b", rc), None);
    assert_eq!(path_question(&ShellType::Unknown, None, "/b", rc), None);
    assert_eq!(path_question(&ShellType::Unknown, Some("x"), "/b", rc), None);
}

#[test]
fn setting_up_adds_the_path_once_and_only_when_agreed() {
    let added = "x\n\n# Added by x - https://github.com/dwpeng/x\nexport PATH=\"/b:$PATH\"\n";
    assert_eq!(
        ensure_path_in_config(&ShellType::Bash, Some("x"), "/b", true),
        Some(added.to_string())
    );
    assert_eq!(ensure_path_in_config(&ShellType::Bash, Some("x"), "/b", false), None);
    assert_eq!(ensure_path_in_config(&ShellType::Bash, Some(added), "/b", true), None);
    assert_eq!(ensure_path_in_config(&ShellType::Unknown, Some("x"), "/b", true), None);
    assert_eq!(
        ensure_path_in_config(&ShellType::Fish, None, "/b", true),
        add_path_to_config(&ShellType::Fish, None, "/b").ok()
    );
}
