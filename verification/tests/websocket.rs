use iridium_proxy::breezart::SetOutcome;
use iridium_proxy::websocket::{create_message, route_client_message, snapshot_messages, split_once, ClientAction};

#[test]
fn messages_are_framed() {
    assert_eq!(create_message(0, &"Breezart.Tempr".to_string(), &"21".to_string()), "tag;0;Breezart.Tempr;21");
    assert_eq!(create_message(4294967295, &"a".to_string(), &"".to_string()), "tag;4294967295;a;");
    assert_eq!(create_message(100, &"x;y".to_string(), &"z".to_string()), "tag;100;x;y;z");
}

#[test]
fn split_at_the_first_semicolon() {
    assert_eq!(split_once("a;b;c"), Some(("a".to_string(), "b;c".to_string())));
    assert_eq!(split_once(";"), Some((String::new(), String::new())));
    assert_eq!(split_once("ab"), None);
    assert_eq!(split_once("й;ё"), Some(("й".to_string(), "ё".to_string())));
}

#[test]
fn client_messages_are_routed() {
    assert_eq!(route_client_message("no separator"), ClientAction::Malformed);
    assert_eq!(
        route_client_message("Breezart.PwrBtn;1"),
        ClientAction::Breezart(SetOutcome::Enqueue("VWPwr_C5E4_1".to_string()))
    );
    assert_eq!(route_client_message("Breezart.PwrBtn;on"), ClientAction::Breezart(SetOutcome::Invalid));
    assert_eq!(
        route_client_message("Light.Hall;75"),
        ClientAction::Iridium("Light.Hall".to_string(), "75".to_string())
    );
}

#[test]
fn snapshot_lists_tags_then_unit_values() {
    let tags = vec![(7u32, "Light".to_string(), "1".to_string()), (12u32, "Door".to_string(), "0".to_string())];
    let values = vec![("Breezart.Tempr".to_string(), "21".to_string())];
    assert_eq!(
        snapshot_messages(&tags, &values),
        vec!["tag;7;Light;1".to_string(), "tag;12;Door;0".to_string(), "tag;0;Breezart.Tempr;21".to_string()]
    );
    assert_eq!(snapshot_messages(&vec![], &vec![]), Vec::<String>::new());
}
