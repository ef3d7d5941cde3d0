use akash::dialect::ShellType;
use akash::merge::{replace_or_append_block, updated_config_content};

const BEGIN: &str = "# BEGIN akash aliases";
const END: &str = "# END akash aliases";

fn entries(pairs: &[(&str, &str)]) -> Vec<(String, String)> {
    pairs.iter().map(|(a, b)| (a.to_string(), b.to_string())).collect()
}

#[test]
fn replaces_only_the_managed_block() {
    let existing = "export PATH=x\n# BEGIN akash aliases\nalias old='x'\n# END akash aliases\nexport EDITOR=vim\n";
    let block = ShellType::Bash.generate_alias_block(&entries(&[("gs", "git status")]));
    assert_eq!(block, "# BEGIN akash aliases\nalias gs='git status'\n# END akash aliases");
    let result = replace_or_append_block(existing, BEGIN, END, &block);
    assert_eq!(
        result,
        "export PATH=x\n# BEGIN akash aliases\nalias gs='git status'\n# END akash aliases\nexport EDITOR=vim\n"
    );
}

#[test]
fn appends_to_empty_file() {
    let result = replace_or_append_block("", BEGIN, END, "# BEGIN akash aliases\n# END akash aliases");
    assert_eq!(result, "# BEGIN akash aliases\n# END akash aliases\n");
}

#[test]
fn appends_after_content_without_trailing_newline() {
    let result = replace_or_append_block("export A=1", BEGIN, END, "B");
    assert_eq!(result, "export A=1\n\nB\n");
}

#[test]
fn appends_after_content_with_trailing_newline() {
    let result = replace_or_append_block("export A=1\n", BEGIN, END, "B");
    assert_eq!(result, "export A=1\n\nB\n");
}

#[test]
fn end_before_begin_is_treated_as_missing() {
    let existing = "# END akash aliases\nx\n# BEGIN akash aliases\n";
    let result = replace_or_append_block(existing, BEGIN, END, "B");
    assert_eq!(result, format!("{}\nB\n", existing));
}

#[test]
fn only_one_marker_appends() {
    let existing = "# BEGIN akash aliases\nalias a='b'\n";
    let result = replace_or_append_block(existing, BEGIN, END, "B");
    assert_eq!(result, format!("{}\nB\n", existing));
}

#[test]
fn blank_lines_before_block_are_collapsed() {
    let existing = "top\n\n\n# BEGIN akash aliases\nold\n# END akash aliases";
    let result = replace_or_append_block(existing, BEGIN, END, "NEW");
    assert_eq!(result, "top\nNEW");
}

#[test]
fn block_at_start_has_nothing_before_it() {
    let existing = "\n\n# BEGIN akash aliases\nold\n# END akash aliases\ntail";
    let result = replace_or_append_block(existing, BEGIN, END, "NEW");
    assert_eq!(result, "NEW\ntail");
}

#[test]
fn merging_twice_changes_nothing() {
    for shell in [ShellType::Bash, ShellType::Zsh, ShellType::PowerShell] {
        let aliases = entries(&[("gs", "git status"), ("ll", "ls -la"), ("q", "it's")]);
        let once = updated_config_content(shell, &aliases, "");
        let twice = updated_config_content(shell, &aliases, &once);
        assert_eq!(once, twice);
        let appended = updated_config_content(shell, &aliases, "export A=1\n");
        let replaced = updated_config_content(shell, &aliases, &appended);
        assert_eq!(replaced, format!("export A=1\n{}", once));
        assert_eq!(updated_config_content(shell, &aliases, &replaced), replaced);
    }
}

#[test]
fn clearing_aliases_keeps_markers() {
    let existing = "export PATH=x\n# BEGIN akash aliases\nalias old='x'\n# END akash aliases\nexport EDITOR=vim\n";
    let empty = ShellType::Bash.generate_alias_block(&Vec::new());
    assert_eq!(empty, "# BEGIN akash aliases\n# END akash aliases");
    let result = updated_config_content(ShellType::Bash, &Vec::new(), existing);
    assert_eq!(
        result,
        "export PATH=x\n# BEGIN akash aliases\n# END akash aliases\nexport EDITOR=vim\n"
    );
}

#[test]
fn non_ascii_text_around_block_is_kept() {
    let existing = "# caf\u{e9} \u{1F600}\n# BEGIN akash aliases\nx\n# END akash aliases\n\u{e9}t\u{e9}\n";
    let result = replace_or_append_block(existing, BEGIN, END, "NEW");
    assert_eq!(result, "# caf\u{e9} \u{1F600}\nNEW\n\u{e9}t\u{e9}\n");
}

#[test]
fn text_on_marker_lines_is_replaced_with_them() {
    let existing = "keep\nx# BEGIN akash aliases\nold\n# END akash aliases z\nafter\n";
    let result = replace_or_append_block(existing, BEGIN, END, "NEW");
    assert_eq!(result, "keep\nNEW\nafter\n");
    assert_eq!(replace_or_append_block("xB\nE", "B", "E", "N"), "N");
    let no_newline_after = "x# BEGIN akash aliases\n# END akash aliases tail";
    assert_eq!(replace_or_append_block(no_newline_after, BEGIN, END, "NEW"), "NEW");
}
