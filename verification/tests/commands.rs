use mini_redis::commands::Commands;

fn tokens(parts: &[&str]) -> Vec<String> {
    parts.iter().map(|p| p.to_string()).collect()
}

#[test]
fn test_exec_command_get_found() {
    let mut commands = Commands::new(5);
    commands.set("key".to_owned(), "value".to_owned(), None);
    assert_eq!(commands.exec_command(tokens(&["get", "key"])), "+value\r\n");
}

#[test]
fn test_exec_command_get_not_found() {
    let mut commands = Commands::new(5);
    assert_eq!(
        commands.exec_command(tokens(&["get", "nonexistent"])),
        "+Not found.\r\n"
    );
}

#[test]
fn test_exec_command_set_no_ttl() {
    let mut commands = Commands::new(1);
    assert_eq!(commands.exec_command(tokens(&["set", "key", "value"])), "+Ok\r\n");
    assert_eq!(commands.exec_command(tokens(&["get", "key"])), "+value\r\n");
}

#[test]
fn test_exec_command_set_with_ttl() {
    let mut commands = Commands::new(1);
    assert_eq!(
        commands.exec_command(tokens(&["set", "key", "value", "EX", "10"])),
        "+Ok\r\n"
    );
    assert_eq!(commands.exec_command(tokens(&["get", "key"])), "+value\r\n");
}

#[test]
fn test_simple_command() {
    let commands = Commands::new(5);
    assert_eq!(commands.simple_command("hello"), "+hello\r\n");
}

#[test]
fn test_bulk_command() {
    let commands = Commands::new(5);
    assert_eq!(commands.bulk_command("world"), "$5\r\nworld\r\n");
}

#[test]
fn test_bulk_command_empty() {
    let commands = Commands::new(5);
    assert_eq!(commands.bulk_command(""), "$0\r\n\r\n");
}

#[test]
fn test_bulk_command_counts_bytes() {
    let commands = Commands::new(5);
    // The bulk length counts UTF-8 bytes, not characters.
    assert_eq!(commands.bulk_command("héllo"), "$6\r\nhéllo\r\n");
}

#[test]
fn test_extract_commands() {
    let commands = Commands::new(5);
    let command = "*3\r\n$3\r\nSET\r\n$5\r\nhello\r\n$5\r\nworld\r\n";
    assert_eq!(
        commands.extract_commands(command),
        vec!["SET".to_string(), "hello".to_string(), "world".to_string()]
    );
}

#[test]
fn test_extract_commands_trims_tokens() {
    let commands = Commands::new(5);
    assert_eq!(
        commands.extract_commands("*1\r\n  ping\t\r\n"),
        vec!["ping".to_string()]
    );
}

#[test]
fn test_extract_commands_trims_unicode_whitespace() {
    let commands = Commands::new(5);
    // Trimming removes all Unicode White_Space, vertical tab and
    // ideographic space included, as str::trim would.
    assert_eq!(
        commands.extract_commands("*1\n\u{000B}ping\u{3000}"),
        vec!["ping".to_string()]
    );
    assert_eq!(
        commands.extract_commands("*1\r\n\u{00A0}\u{2003}echo me\u{0085}\r\n"),
        vec!["echo me".to_string()]
    );
}

#[test]
fn test_extract_commands_empty_frame() {
    let commands = Commands::new(5);
    assert_eq!(commands.extract_commands(""), Vec::<String>::new());
    assert_eq!(commands.extract_commands("*0\r\n"), Vec::<String>::new());
}

#[test]
fn test_exec_command_ping() {
    let mut commands = Commands::new(5);
    assert_eq!(commands.exec_command(tokens(&["ping"])), "+PONG\r\n");
}

#[test]
fn test_exec_command_echo() {
    let mut commands = Commands::new(5);
    assert_eq!(commands.exec_command(tokens(&["echo", "hello"])), "$5\r\nhello\r\n");
}

#[test]
fn test_exec_command_unknown_returns_error() {
    let mut commands = Commands::new(5);
    assert_eq!(
        commands.exec_command(tokens(&["unknown"])),
        "-ERR unknown command\r\n"
    );
    // The failed request changes nothing.
    assert_eq!(commands.exec_command(tokens(&["get", "key"])), "+Not found.\r\n");
}

#[test]
fn test_default_ttl_fallback() {
    // With a default of zero seconds, an entry stored without an EX
    // clause is born expired: the default really is what a plain set
    // uses.
    let mut commands = Commands::new(0);
    assert_eq!(commands.exec_command(tokens(&["set", "key", "value"])), "+Ok\r\n");
    assert_eq!(commands.exec_command(tokens(&["get", "key"])), "+Not found.\r\n");

    // An EX clause overrides the default.
    assert_eq!(
        commands.exec_command(tokens(&["set", "key", "value", "EX", "10"])),
        "+Ok\r\n"
    );
    assert_eq!(commands.exec_command(tokens(&["get", "key"])), "+value\r\n");
}

#[test]
fn test_set_with_unparseable_ttl_uses_default() {
    let mut commands = Commands::new(0);
    // "EX ten" does not parse, so the (zero second) default applies.
    assert_eq!(
        commands.exec_command(tokens(&["set", "key", "value", "EX", "ten"])),
        "+Ok\r\n"
    );
    assert_eq!(commands.exec_command(tokens(&["get", "key"])), "+Not found.\r\n");
}

#[test]
fn test_handle_command_set_then_get() {
    let mut commands = Commands::new(5);
    let reply = commands.handle_command("*3\r\n$3\r\nset\r\n$3\r\nfoo\r\n$3\r\nbar\r\n");
    assert_eq!(reply, "+Ok\r\n");
    let reply = commands.handle_command("*2\r\n$3\r\nget\r\n$3\r\nfoo\r\n");
    assert_eq!(reply, "+bar\r\n");
}

#[test]
fn test_handle_command_get_missing() {
    let mut commands = Commands::new(5);
    let reply = commands.handle_command("*2\r\n$3\r\nget\r\n$7\r\nmissing\r\n");
    assert_eq!(reply, "+Not found.\r\n");
}

#[test]
fn test_handle_command_echo() {
    let mut commands = Commands::new(5);
    let reply = commands.handle_command("*2\r\n$4\r\necho\r\n$5\r\nhello\r\n");
    assert_eq!(reply, "$5\r\nhello\r\n");
}

#[test]
fn test_handle_command_ping() {
    let mut commands = Commands::new(5);
    let reply = commands.handle_command("*1\r\n$4\r\nping\r\n");
    assert_eq!(reply, "+PONG\r\n");
}
