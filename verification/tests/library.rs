use pegasus::collect::{client_for_fd, ReadOutcome, ReplyCounter};
use pegasus::command::parse_client_command;
use pegasus::comm_tests::CommTests;
use pegasus::data::Data;
use pegasus::delay::random_delay_ms;
use pegasus::foo::{bar, foo, BarError, FooError};
use pegasus::message::{client_reply, socket_path, tagged_message};
use pegasus::text::{chars_of, push_decimal, string_of, white_space};

fn strings(v: &[&str]) -> Vec<String> {
    v.iter().map(|s| s.to_string()).collect()
}

#[test]
fn foo_fails_with_the_inner_error() {
    assert_eq!(foo(), Err(FooError::BarError(BarError::SimpleError)));
}

#[test]
fn bar_always_fails() {
    assert_eq!(bar(), Err(BarError::SimpleError));
}

#[test]
fn error_texts() {
    assert_eq!(BarError::SimpleError.message(), "Bar error");
    assert_eq!(FooError::SimpleError.message(), "Foo error");
    assert_eq!(FooError::BarError(BarError::SimpleError).message(), "Bar error");
    match foo() {
        Err(e) => assert_eq!(e.message(), "Bar error"),
        Ok(()) => panic!("foo succeeded"),
    }
}

#[test]
fn new_store_is_empty() {
    let d = Data::new();
    assert_eq!(d.len(), 0);
    assert!(d.messages(7).is_none());
    assert_eq!(d.to_display_string(), "");
}

#[test]
fn record_appends_in_order() {
    let mut d = Data::new();
    d.record(10, "first".to_string());
    d.record(20, "other".to_string());
    d.record(10, "second".to_string());
    assert_eq!(d.len(), 2);
    assert_eq!(d.messages(10).unwrap(), &strings(&["first", "second"]));
    assert_eq!(d.messages(20).unwrap(), &strings(&["other"]));
    assert!(d.messages(30).is_none());
}

#[test]
fn record_commutes_across_clients() {
    let mut a = Data::new();
    a.record(1, "x".to_string());
    a.record(2, "y".to_string());
    let mut b = Data::new();
    b.record(2, "y".to_string());
    b.record(1, "x".to_string());
    assert_eq!(a.messages(1), b.messages(1));
    assert_eq!(a.messages(2), b.messages(2));
    assert_eq!(a.len(), b.len());
}

#[test]
fn claim_gives_a_copy_and_an_entry() {
    let mut d = Data::new();
    let got = d.claim(5);
    assert!(got.is_empty());
    assert_eq!(d.messages(5).unwrap(), &Vec::<String>::new());
    d.record(5, "a".to_string());
    let got = d.claim(5);
    assert_eq!(got, strings(&["a"]));
    assert_eq!(d.messages(5).unwrap(), &strings(&["a"]));
}

#[test]
fn claim_push_insert_matches_record() {
    let mut via_copy = Data::new();
    via_copy.record(3, "old".to_string());
    let mut list = via_copy.claim(3);
    list.push("new".to_string());
    via_copy.insert(3, list);

    let mut direct = Data::new();
    direct.record(3, "old".to_string());
    direct.record(3, "new".to_string());
    assert_eq!(via_copy.messages(3), direct.messages(3));
    assert_eq!(via_copy.len(), direct.len());
}

#[test]
fn insert_replaces() {
    let mut d = Data::new();
    d.record(4, "gone".to_string());
    d.insert(4, strings(&["kept"]));
    assert_eq!(d.messages(4).unwrap(), &strings(&["kept"]));
}

#[test]
fn get_mut_changes_the_store() {
    let mut d = Data::new();
    d.get_mut().insert(9, strings(&["via map"]));
    d.get_mut().entry(9).or_default().push("again".to_string());
    assert_eq!(d.messages(9).unwrap(), &strings(&["via map", "again"]));
}

#[test]
fn display_one_client() {
    let mut d = Data::new();
    d.record(1234, "Client 1 got 1: Hello from Server".to_string());
    d.record(1234, "two".to_string());
    assert_eq!(
        d.to_display_string(),
        "\nClient PID 1234: 'Client 1 got 1: Hello from Server' 'two'"
    );
}

#[test]
fn display_client_without_replies() {
    let mut d = Data::new();
    let _ = d.claim(0);
    assert_eq!(d.to_display_string(), "\nClient PID 0:");
}

#[test]
fn display_two_clients_lists_each_once() {
    let mut d = Data::new();
    d.record(7, "a".to_string());
    d.record(4294967295, "b".to_string());
    let s = d.to_display_string();
    let one = "\nClient PID 7: 'a'";
    let two = "\nClient PID 4294967295: 'b'";
    assert!(s == format!("{}{}", one, two) || s == format!("{}{}", two, one));
}

#[test]
fn greeting_is_tagged() {
    assert_eq!(tagged_message("1", "Hello from Server\n"), "1: Hello from Server\n");
    assert_eq!(tagged_message("2", ""), "2: ");
}

#[test]
fn reply_names_the_client_and_echoes_the_line() {
    assert_eq!(
        client_reply("1", "1: Hello from Server"),
        "Client 1 got 1: Hello from Server\n"
    );
    assert_eq!(client_reply("", ""), "Client  got \n");
}

#[test]
fn socket_path_is_under_tmp_socket() {
    assert_eq!(socket_path("1"), "/tmp/socket/1");
}

#[test]
fn plain_command() {
    let c = parse_client_command("target/debug/client", "1");
    assert_eq!(c.program, "target/debug/client");
    assert_eq!(c.args, strings(&["1"]));
}

#[test]
fn command_with_arguments() {
    let c = parse_client_command("docker run --rm -v /tmp/socket:/socket -i client", "2");
    assert_eq!(c.program, "docker");
    assert_eq!(
        c.args,
        strings(&["run", "--rm", "-v", "/tmp/socket:/socket", "-i", "client", "2"])
    );
}

#[test]
fn command_is_trimmed_and_cut_at_every_space() {
    let c = parse_client_command("\t prog  a \u{3000}\n", "7");
    assert_eq!(c.program, "prog");
    assert_eq!(c.args, strings(&["", "a", "7"]));
}

#[test]
fn blank_command_gives_empty_program() {
    let c = parse_client_command("   ", "1");
    assert_eq!(c.program, "");
    assert_eq!(c.args, strings(&["1"]));
}

#[test]
fn tab_is_not_a_separator() {
    let c = parse_client_command("a\tb", "1");
    assert_eq!(c.program, "a\tb");
    assert_eq!(c.args, strings(&["1"]));
}

#[test]
fn counter_counts_replies_only() {
    let mut d = Data::new();
    let mut c = ReplyCounter::new(2);
    assert!(!c.is_done());
    assert_eq!(c.on_read(&mut d, 2, 200, None), ReadOutcome::NoMessage(2));
    assert_eq!(c.received(), 0);
    assert_eq!(d.len(), 0);
    assert_eq!(c.on_read(&mut d, 1, 100, Some("hi".to_string())), ReadOutcome::Recorded);
    assert!(!c.is_done());
    assert_eq!(c.on_read(&mut d, 2, 200, Some("yo".to_string())), ReadOutcome::Recorded);
    assert!(c.is_done());
    assert_eq!(c.received(), 2);
    assert_eq!(d.messages(100).unwrap(), &strings(&["hi"]));
    assert_eq!(d.messages(200).unwrap(), &strings(&["yo"]));
}

#[test]
fn zero_replies_awaited_is_done_at_once() {
    assert!(ReplyCounter::new(0).is_done());
}

#[test]
fn ready_descriptor_picks_the_client() {
    assert_eq!(client_for_fd(5, 5, 100, 200), (1, 100));
    assert_eq!(client_for_fd(6, 5, 100, 200), (2, 200));
}

#[test]
fn test_names() {
    assert_eq!(CommTests::AsyncMutex.name(), "AsyncMutex");
    assert_eq!(CommTests::FuturesUnordered.name(), "FuturesUnordered");
    assert_eq!(CommTests::MpscChannel.name(), "MpscChannel");
    assert_eq!(CommTests::SelectChannel.name(), "SelectChannel");
    assert_eq!(CommTests::SelectTokio.name(), "SelectTokio");
    assert_eq!(CommTests::Sync.name(), "Sync");
    assert_eq!(CommTests::TokioSpawn.name(), "TokioSpawn");
    assert_eq!(CommTests::UnixSelect.name(), "UnixSelect");
}

#[test]
fn delay_is_a_byte() {
    for _ in 0..100 {
        assert!(random_delay_ms() < 256);
    }
}

#[test]
fn decimal_notation() {
    for (n, text) in [(0u32, "0"), (7, "7"), (10, "10"), (305, "305"), (4294967295, "4294967295")] {
        let mut s = String::from("#");
        push_decimal(&mut s, n);
        assert_eq!(s, format!("#{}", text));
    }
}

#[test]
fn characters_and_substrings() {
    let cs = chars_of("héllo");
    assert_eq!(cs, vec!['h', 'é', 'l', 'l', 'o']);
    assert_eq!(string_of(&cs, 1, 4), "éll");
    assert_eq!(string_of(&cs, 2, 2), "");
}

#[test]
fn white_space_set() {
    for c in [' ', '\t', '\n', '\r', '\u{b}', '\u{c}', '\u{85}', '\u{a0}', '\u{1680}', '\u{2000}', '\u{200a}', '\u{2028}', '\u{2029}', '\u{202f}', '\u{205f}', '\u{3000}'] {
        assert!(white_space(c));
        assert!(c.is_whitespace());
    }
    for c in ['a', '0', '\u{200b}', '\u{feff}', '_'] {
        assert!(!white_space(c));
        assert!(!c.is_whitespace());
    }
}

#[test]
fn default_store_is_empty() {
    let d = Data::default();
    assert_eq!(d.len(), 0);
    assert_eq!(d.to_display_string(), "");
}

#[test]
fn cloned_store_keeps_replies() {
    let mut d = Data::new();
    d.record(1, "a".to_string());
    let e = d.clone();
    assert_eq!(e.messages(1).unwrap(), &strings(&["a"]));
}

#[test]
fn command_pieces_rejoin_to_trimmed_command() {
    for command in ["  docker run -i  client ", "prog", "a b c", "\u{2003}x y\u{2003}"] {
        let c = parse_client_command(command, "9");
        let mut pieces = vec![c.program.clone()];
        pieces.extend(c.args[..c.args.len() - 1].iter().cloned());
        assert_eq!(pieces.join(" "), command.trim());
        assert_eq!(c.args.last().unwrap(), "9");
    }
}
