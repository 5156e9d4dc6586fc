use slowpoke_store::detection::is_url;
use slowpoke_store::factory::SqliteDatabasePoolFactory;
use slowpoke_store::parameters::Parameters;
use slowpoke_store::tenant_path::{db_file_name, parse_chat_id, parse_tenant_entry, render_chat_id};

#[test]
fn chat_id_parsing_matches_std() {
    let cases = [
        "0",
        "42",
        "-42",
        "+42",
        "007",
        "9223372036854775807",
        "-9223372036854775808",
        "9223372036854775808",
        "-9223372036854775809",
        "99999999999999999999999999",
        "",
        "-",
        "+",
        "1x",
        "x1",
        "4 2",
        " 42",
        "12.5",
    ];
    for s in cases {
        assert_eq!(parse_chat_id(s), s.parse::<i64>().ok(), "input {:?}", s);
    }
}

#[test]
fn chat_id_parsing_exact_values() {
    assert_eq!(parse_chat_id("42"), Some(42));
    assert_eq!(parse_chat_id("-7"), Some(-7));
    assert_eq!(parse_chat_id("0007"), Some(7));
    assert_eq!(parse_chat_id("9223372036854775807"), Some(i64::MAX));
    assert_eq!(parse_chat_id("-9223372036854775808"), Some(i64::MIN));
    assert_eq!(parse_chat_id("9223372036854775808"), None);
}

#[test]
fn rendering_round_trips() {
    for id in [0i64, 1, -1, 7, 42, -42, 1000, i64::MAX, i64::MIN] {
        let text = render_chat_id(id);
        assert_eq!(text, id.to_string());
        assert_eq!(parse_chat_id(&text), Some(id));
        let file = db_file_name(id);
        assert_eq!(file, format!("{}.db", id));
        assert_eq!(parse_tenant_entry(&file), Some(id));
    }
}

#[test]
fn tenant_entries_are_filtered() {
    assert_eq!(parse_tenant_entry("42.db"), Some(42));
    assert_eq!(parse_tenant_entry("-7.db"), Some(-7));
    assert_eq!(parse_tenant_entry("0.db"), Some(0));
    assert_eq!(parse_tenant_entry(".db"), None);
    assert_eq!(parse_tenant_entry("db"), None);
    assert_eq!(parse_tenant_entry("42.DB"), None);
    assert_eq!(parse_tenant_entry("42.db-journal"), None);
    assert_eq!(parse_tenant_entry("settings.db"), None);
    assert_eq!(parse_tenant_entry("5..db"), None);
    assert_eq!(parse_tenant_entry("a.b.db"), None);
    assert_eq!(parse_tenant_entry(""), None);
}

#[test]
fn listing_keeps_exactly_the_valid_entries() {
    let names = vec![
        String::from("42.db"),
        String::from("tmp.txt"),
        String::from("-7.db"),
        String::from("nonsense.db"),
        String::from("13.db-journal"),
        String::from(".db"),
        String::from("0.db"),
        String::from("99.DB"),
        String::from("5..db"),
    ];
    let chats = SqliteDatabasePoolFactory::list_existing_chats(&names);
    assert_eq!(chats, vec![42, -7, 0]);
}

#[test]
fn url_detection_goes_through_the_parser() {
    assert!(is_url("https://example.com"));
    assert!(is_url("https://github.com/some/repo"));
    assert!(!is_url("not a url"));
    assert!(!is_url(""));
    assert!(!is_url("example.com"));
}

#[test]
fn parameters_defaults_apply_only_where_unset() {
    let p = Parameters::new(
        String::from("bot"),
        99,
        String::from("/var/settings"),
        String::from("/var/chats"),
        None,
        None,
        None,
        None,
    );
    assert_eq!(p.max_database_connections_count, 5);
    assert_eq!(p.max_message_age_secs, 259200);
    assert_eq!(p.message_clean_periodicity_secs, 86400);
    assert!(!p.is_webhook_mode_enabled);
    let q = Parameters::new(
        String::from("bot"),
        99,
        String::from("/var/settings"),
        String::from("/var/chats"),
        Some(9),
        Some(3600),
        Some(60),
        Some(true),
    );
    assert_eq!(q.bot_name, "bot");
    assert_eq!(q.owner_id, 99);
    assert_eq!(q.max_database_connections_count, 9);
    assert_eq!(q.max_message_age_secs, 3600);
    assert_eq!(q.message_clean_periodicity_secs, 60);
    assert!(q.is_webhook_mode_enabled);
}
