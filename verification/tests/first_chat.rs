use towny_bot::bot::bot_state::State;
use towny_bot::bot::events::chat::parse_towny_list;
use towny_bot::events::chat::{can_handle_chat, handle_chat, parse_list_after_colon, parse_list_cleaned};
use towny_bot::events::packet::handle_packet;
use towny_bot::events::spawn::handle_spawn;
use towny_bot::names::NameSet;
use towny_bot::text::chars_of;

fn names(set: &NameSet) -> Vec<String> {
    let mut v = set.to_vec();
    v.sort();
    v
}

#[test]
fn list_is_read_after_the_first_colon() {
    assert_eq!(names(&parse_list_after_colon(&chars_of("Residents: a, b:c"))), vec!["a", "b:c"]);
    assert_eq!(parse_list_after_colon(&chars_of("Residents a, b")).len(), 0);
}

#[test]
fn names_that_name_no_resident_are_left_out() {
    let mut residents = NameSet::new();
    residents.insert("Bob".to_string());
    let set = parse_list_cleaned(&chars_of("Helper: Sir Bob, Lady Ann, Cy!"), &residents);
    assert_eq!(names(&set), vec!["Bob", "Cy"]);
}

#[test]
fn trusted_players_message_is_said() {
    let mut state = State::new();
    let sudo = Some("Admin".to_string());
    let tab = vec!["Ann".to_string()];
    let line = "✉ [MSG] Admin → Bot hey {}";
    assert!(can_handle_chat(&state, line, &sudo));
    let commands = handle_chat(&mut state, line, &sudo, &tab);
    assert_eq!(commands, vec!["hey Ann"]);
    let other = handle_chat(&mut state, "✉ [MSG] Eve → Bot hey", &sudo, &tab);
    assert!(other.is_empty());
    let unset = handle_chat(&mut state, "✉ [MSG] Admin → Bot hey", &None, &tab);
    assert!(unset.is_empty());
}

#[test]
fn unreadable_lines_are_recognised() {
    let state = State::new();
    let sudo = Some("Admin".to_string());
    assert!(!can_handle_chat(&state, "✉ [MSG] Admin →", &sudo));
    assert!(!can_handle_chat(&state, "✉ [MSG] Admin → Bot", &sudo));
    assert!(!can_handle_chat(&state, "Mayor Bob", &None));
    assert!(!can_handle_chat(&state, "Mayor: King Bob", &None));
    assert!(can_handle_chat(&state, "Mayor: Bob", &None));
    assert!(can_handle_chat(&state, "anything else", &sudo));
}

#[test]
fn rank_lists_and_greeting() {
    let mut state = State::new();
    let c = handle_chat(&mut state, "[+] Lestallum", &None, &vec![]);
    assert_eq!(c.len(), 5);
    assert!(state.on_towny);
    handle_chat(&mut state, "Residents [2]: Bob, Ann", &None, &vec![]);
    assert_eq!(names(&state.town_residents), vec!["Ann", "Bob"]);
    handle_chat(&mut state, "Mayor: King Bob", &None, &vec![]);
    assert_eq!(state.town_mayor, "Bob");
    handle_chat(&mut state, "Builder: Ann, Nobody Here", &None, &vec![]);
    assert_eq!(names(&state.town_builders), vec!["Ann"]);
}

#[test]
fn spawn_asks_for_the_town_until_joined() {
    let mut state = State::new();
    assert_eq!(handle_spawn(&state), vec!["/server towny"]);
    state.on_towny = true;
    assert!(handle_spawn(&state).is_empty());
    assert!(handle_packet(&state).is_empty());
}

#[test]
fn both_readings_take_the_same_names() {
    let line = chars_of("Residents [2]: Ann, Bob");
    let (_, _, strict) = parse_towny_list(&line).unwrap();
    assert_eq!(names(&strict), names(&parse_list_after_colon(&line)));
}
