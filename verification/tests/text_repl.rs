use vnet::text::{parse_u16, parse_addr, split_words, str_eq, has_newline, chars_of};
use vnet::repl::{validate_args, validate_base_args, proper_num_args, execute_command, parse_send, send_handler,
    get_base_commands, get_all_host_commands, CommandTable, Handler, NumArgs, ReplError, CommandData};
use vnet::node::CmdType;
use vnet::ipv4::string_ip;

fn args(v: &[&str]) -> Vec<String> {
    v.iter().map(|s| s.to_string()).collect()
}

#[test]
fn parse_u16_reads_ports() {
    assert_eq!(parse_u16("9999"), Some(9999));
    assert_eq!(parse_u16("0"), Some(0));
    assert_eq!(parse_u16("65535"), Some(65535));
    assert_eq!(parse_u16("+80"), Some(80));
    assert_eq!(parse_u16("007"), Some(7));
}

#[test]
fn parse_u16_refuses_non_ports() {
    assert_eq!(parse_u16("65536"), None);
    assert_eq!(parse_u16(""), None);
    assert_eq!(parse_u16("+"), None);
    assert_eq!(parse_u16("-1"), None);
    assert_eq!(parse_u16("12a"), None);
    assert_eq!(parse_u16(" 12"), None);
    assert_eq!(parse_u16("99999999999999999999"), None);
}

#[test]
fn parse_u16_agrees_with_std() {
    for s in ["1", "65535", "65536", "+1", "++1", "-0", "", "0000065535", "1 ", "x"] {
        assert_eq!(parse_u16(s), s.parse::<u16>().ok(), "{s:?}");
    }
}

#[test]
fn parse_addr_reads_dotted_quads() {
    assert_eq!(parse_addr("10.0.0.1"), Some(0x0a00_0001));
    assert_eq!(parse_addr("0.0.0.0"), Some(0));
    assert_eq!(parse_addr("255.255.255.255"), Some(0xffff_ffff));
    assert_eq!(parse_addr("192.168.1.20"), Some(0xc0a8_0114));
}

#[test]
fn parse_addr_refuses_malformed() {
    for s in ["", "1.2.3", "1.2.3.4.", "1..2.3", "256.1.1.1", "01.2.3.4", "1.2.3.1234", " 1.2.3.4", "+1.2.3.4", "a.b.c.d"] {
        assert_eq!(parse_addr(s), None, "{s:?}");
    }
}

#[test]
fn parse_addr_edge_groups() {
    assert_eq!(parse_addr("10.1.0.2"), Some(0x0a01_0002));
    assert_eq!(parse_addr("001.2.3.4"), None);
    assert_eq!(parse_addr("255.255.255.256"), None);
    assert_eq!(parse_addr("1.2.3.4 "), None);
    assert_eq!(parse_addr("1.2.3.-4"), None);
    assert_eq!(parse_addr("9.9.9.09"), None);
    assert_eq!(parse_addr("9.9.9.0"), Some(0x0909_0900));
}

#[test]
fn printed_address_parses_back() {
    for a in [0u32, 1, 0x0a00_0001, 0xc0a8_0114, 0xffff_ffff, 0x6400_0a0b] {
        let printed: String = string_ip(a).into_iter().collect();
        assert_eq!(parse_addr(&printed), Some(a));
    }
    let printed: String = string_ip(0x0a01_0002).into_iter().collect();
    assert_eq!(printed, "10.1.0.2");
}

#[test]
fn split_words_splits_on_whitespace() {
    assert_eq!(split_words("  send 10.0.0.1   hello\tworld \n"), args(&["send", "10.0.0.1", "hello", "world"]));
    assert_eq!(split_words(""), Vec::<String>::new());
    assert_eq!(split_words("   "), Vec::<String>::new());
    assert_eq!(split_words("li"), args(&["li"]));
}

#[test]
fn string_helpers() {
    assert!(str_eq("abc", "abc"));
    assert!(!str_eq("abc", "abd"));
    assert!(!str_eq("ab", "abc"));
    assert!(has_newline("a\nb"));
    assert!(!has_newline("ab"));
    assert_eq!(chars_of("héllo"), vec!['h', 'é', 'l', 'l', 'o']);
    assert_eq!(split_words(" xy\tz "), vec!["xy".to_string(), "z".to_string()]);
}

#[test]
fn validate_args_accepts_proper_counts() {
    assert_eq!(validate_args("li", &args(&[])), Ok(()));
    assert_eq!(validate_args("up", &args(&["if0"])), Ok(()));
    assert_eq!(validate_args("send", &args(&["10.0.0.1", "hi", "there"])), Ok(()));
    assert_eq!(validate_args("a", &args(&["9999"])), Ok(()));
    assert_eq!(validate_args("s", &args(&["0", "hihihi"])), Ok(()));
    assert_eq!(validate_args("c", &args(&["10.0.0.1", "9999"])), Ok(()));
    assert_eq!(validate_args("r", &args(&["0", "5"])), Ok(()));
    assert_eq!(validate_args("ls", &args(&[])), Ok(()));
    assert_eq!(validate_args("cl", &args(&["1"])), Ok(()));
    assert_eq!(validate_args("sf", &args(&["f", "10.0.0.1", "9999"])), Ok(()));
    assert_eq!(validate_args("rf", &args(&["f", "9999"])), Ok(()));
}

#[test]
fn validate_args_reports_usage() {
    assert_eq!(validate_args("li", &args(&["x"])), Err("li takes no arguments".to_string()));
    assert_eq!(validate_args("ln", &args(&["x"])), Err("ln takes no arguments".to_string()));
    assert_eq!(validate_args("lr", &args(&["x"])), Err("lr takes no arguments".to_string()));
    assert_eq!(validate_args("up", &args(&[])), Err("Proper command format: up <ifname>".to_string()));
    assert_eq!(validate_args("down", &args(&["a", "b"])), Err("Proper command format: down <ifname>".to_string()));
    assert_eq!(validate_args("send", &args(&["10.0.0.1"])), Err("Proper command format: send <addr> <message...>".to_string()));
    assert_eq!(validate_args("a", &args(&[])), Err("Proper command format: a <port>".to_string()));
    assert_eq!(validate_args("s", &args(&["0"])), Err("Proper command format: s <socket ID> <bytes>".to_string()));
    assert_eq!(validate_args("c", &args(&["10.0.0.1"])), Err("Proper command format: c <vip> <port>".to_string()));
    assert_eq!(validate_args("r", &args(&["0"])), Err("Proper command format: a <socket ID> <numbytes>".to_string()));
    assert_eq!(validate_args("ls", &args(&["x"])), Err("ls takes no arguments".to_string()));
    assert_eq!(validate_args("cl", &args(&[])), Err("Proper command format: cl <socket ID>".to_string()));
    assert_eq!(validate_args("sf", &args(&["f"])), Err("Proper command format: sf <file path> <addr> <port>".to_string()));
    assert_eq!(validate_args("rf", &args(&["f"])), Err("Proper command format: rf <dest file> <port>".to_string()));
    assert_eq!(validate_args("bogus", &args(&[])), Err("Invalid command".to_string()));
}

#[test]
fn validate_base_args_knows_base_commands_only() {
    assert_eq!(validate_base_args("lr", &args(&[])), Ok(()));
    assert_eq!(validate_base_args("send", &args(&["1.2.3.4", "m"])), Ok(()));
    assert_eq!(validate_base_args("a", &args(&["9999"])), Err("Invalid command".to_string()));
    assert_eq!(validate_base_args("up", &args(&[])), Err("Proper command format: up <ifname>".to_string()));
}

#[test]
fn proper_num_args_checks_node_commands() {
    assert_eq!(proper_num_args("li", &args(&[])), Ok(()));
    assert_eq!(proper_num_args("down", &args(&["if1"])), Ok(()));
    assert_eq!(proper_num_args("send", &args(&["1.2.3.4", "hi"])), Ok(()));
    assert_eq!(proper_num_args("send", &args(&["1.2.3.4", "hi", "there"])), Err("Improper number of arguments".to_string()));
    assert_eq!(proper_num_args("ln", &args(&["x"])), Err("Improper number of arguments".to_string()));
    assert_eq!(proper_num_args("a", &args(&[])), Err("Invalid command".to_string()));
}

#[test]
fn execute_command_builds_node_commands() {
    assert!(matches!(execute_command("li"), Ok(CmdType::Li)));
    assert!(matches!(execute_command("  ln "), Ok(CmdType::Ln)));
    assert!(matches!(execute_command("lr"), Ok(CmdType::Lr)));
    match execute_command("up if0") {
        Ok(CmdType::Up(s)) => assert_eq!(s, "if0"),
        other => panic!("{other:?}"),
    }
    match execute_command("down if1") {
        Ok(CmdType::Down(s)) => assert_eq!(s, "if1"),
        other => panic!("{other:?}"),
    }
    match execute_command("send 10.0.0.1 hello") {
        Ok(CmdType::Send(a, m)) => {
            assert_eq!(a, "10.0.0.1");
            assert_eq!(m, "hello");
        },
        other => panic!("{other:?}"),
    }
    assert_eq!(execute_command("   ").unwrap_err(), "No command input");
    assert_eq!(execute_command("send 10.0.0.1").unwrap_err(), "Improper number of arguments");
    assert_eq!(execute_command("xyz").unwrap_err(), "Invalid command");
}

#[test]
fn parse_send_joins_message_words() {
    let mut a = args(&["10.0.0.1", "hello", "there", "world"]);
    let (addr, msg) = parse_send(&mut a);
    assert_eq!(addr, "10.0.0.1");
    assert_eq!(msg, "hello there world");
    assert_eq!(a, args(&["hello", "there", "world"]));
}

#[test]
fn parse_send_stops_at_line_break() {
    let mut a = args(&["10.0.0.1", "one", "two\n", "three"]);
    let (_, msg) = parse_send(&mut a);
    assert_eq!(msg, "one");
    let mut b = args(&["10.0.0.1"]);
    assert_eq!(parse_send(&mut b).1, "");
    let mut c = args(&["x", "", "b"]);
    assert_eq!(parse_send(&mut c).1, "b");
}

#[test]
fn send_handler_builds_test_packet_basis() {
    let mut a = args(&["10.0.0.2", "hi", "you"]);
    let pb = send_handler(&mut a).unwrap();
    assert_eq!(pb.dst_ip, 0x0a00_0002);
    assert_eq!(pb.prot_num, 0);
    assert_eq!(pb.msg, b"hi you".to_vec());
    let mut b = args(&["10.0.0", "hi"]);
    assert!(send_handler(&mut b).is_none());
}

#[test]
fn command_tables_resolve_handlers() {
    let base = get_base_commands();
    assert_eq!(base.len(), 6);
    let all = get_all_host_commands();
    assert_eq!(all.len(), 14);
    let mut t = CommandTable::new();
    t.insert_all(all);
    assert_eq!(t.get("send"), Some(CommandData { handler: Handler::Send, num_args: NumArgs::Any }));
    assert_eq!(t.get("c"), Some(CommandData { handler: Handler::C, num_args: NumArgs::Exactly(2) }));
    assert_eq!(t.get("nope"), None);
    assert_eq!(t.handle_cmd(&"li".to_string(), 0).unwrap(), Handler::Li);
    assert!(matches!(t.handle_cmd(&"li".to_string(), 1), Err(ReplError::ImproperArgs(c)) if c == "li"));
    assert!(matches!(t.handle_cmd(&"zz".to_string(), 0), Err(ReplError::InvalidCommand(c)) if c == "zz"));
    assert!(matches!(t.handle_cmd(&"send".to_string(), 0), Err(ReplError::ImproperArgs(_))));
    match t.execute_command("  r 3 10 ") {
        Ok((h, a)) => {
            assert_eq!(h, Handler::R);
            assert_eq!(a, args(&["3", "10"]));
        },
        Err(e) => panic!("{e:?}"),
    }
    assert!(matches!(t.execute_command(""), Err(ReplError::NoCommandInput)));
}

#[test]
fn later_command_overrides_earlier() {
    let mut t = CommandTable::new();
    t.insert("x".to_string(), CommandData { handler: Handler::Li, num_args: NumArgs::Exactly(0) });
    t.insert("x".to_string(), CommandData { handler: Handler::Ln, num_args: NumArgs::Any });
    assert_eq!(t.get("x"), Some(CommandData { handler: Handler::Ln, num_args: NumArgs::Any }));
}
