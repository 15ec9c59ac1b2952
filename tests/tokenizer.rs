use mini_shell::tokenizer::parse_command;

fn words(list: &[&str]) -> Vec<String> {
    list.iter().map(|w| w.to_string()).collect()
}

#[test]
fn tokenize_splits_on_spaces() {
    assert_eq!(parse_command("echo hello world"), Ok(words(&["echo", "hello", "world"])));
}

#[test]
fn tokenize_groups_single_quoted() {
    assert_eq!(parse_command("echo 'a b' c"), Ok(words(&["echo", "a b", "c"])));
}

#[test]
fn tokenize_groups_double_quoted() {
    assert_eq!(parse_command("echo \"a b\" c"), Ok(words(&["echo", "a b", "c"])));
}

#[test]
fn tokenize_rejects_unterminated_quote() {
    assert_eq!(parse_command("echo 'unterminated"), Err("mismatched quotes"));
}

#[test]
fn tokenize_rejects_unterminated_double_quote() {
    assert_eq!(parse_command("say \"hi"), Err("mismatched quotes"));
}

#[test]
fn tokenize_collapses_repeated_spaces() {
    assert_eq!(parse_command("a   b"), Ok(words(&["a", "b"])));
}

#[test]
fn tokenize_ignores_leading_and_trailing_spaces() {
    assert_eq!(parse_command("  ls  -l  "), Ok(words(&["ls", "-l"])));
}

#[test]
fn tokenize_lone_quote_is_mismatched() {
    assert_eq!(parse_command("'"), Err("mismatched quotes"));
}

#[test]
fn tokenize_empty_quotes_give_no_argument() {
    assert_eq!(parse_command("''"), Ok(Vec::new()));
    assert_eq!(parse_command("a \"\" b"), Ok(words(&["a", "b"])));
}

#[test]
fn tokenize_joins_quoted_and_unquoted_parts() {
    assert_eq!(parse_command("a'b c'd"), Ok(words(&["ab cd"])));
}

#[test]
fn tokenize_drops_other_quote_inside_region() {
    assert_eq!(parse_command("echo \"it's\" 'say \"hi\"'"), Ok(words(&["echo", "its", "say hi"])));
}

#[test]
fn tokenize_quote_inside_other_region_gives_no_argument() {
    assert_eq!(parse_command("\"'\""), Ok(Vec::new()));
    assert_eq!(parse_command("'\"'"), Ok(Vec::new()));
}

#[test]
fn tokenize_keeps_dollar_sign_verbatim() {
    assert_eq!(parse_command("echo $HOME"), Ok(words(&["echo", "$HOME"])));
}

#[test]
fn plain_words_round_trip() {
    let ws = words(&["grep", "-n", "main", "src/lib.rs"]);
    assert_eq!(parse_command(&ws.join(" ")), Ok(ws));
}

#[test]
fn single_quoted_words_round_trip() {
    let ws = words(&["a b", "say  x", "c"]);
    let line: Vec<String> = ws.iter().map(|w| format!("'{}'", w)).collect();
    assert_eq!(parse_command(&line.join(" ")), Ok(ws));
}
