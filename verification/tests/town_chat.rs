use towny_bot::bot::bot_state::State;
use towny_bot::bot::events::chat::{
    clean_resident_name, handle_chat, parse_list, parse_towny_list, parse_towny_list_cleaned,
    ChatError,
};
use towny_bot::names::NameSet;
use towny_bot::text::{chars_of, IntErrorKind};

fn names(set: &NameSet) -> Vec<String> {
    let mut v = set.to_vec();
    v.sort();
    v
}

fn set_of(items: &[&str]) -> NameSet {
    let mut s = NameSet::new();
    for i in items {
        s.insert(i.to_string());
    }
    s
}

#[test]
fn parse_list_trims_and_drops_empty_names() {
    let set = parse_list(&chars_of(" Bob, Ann ,, Bob ,\tCy "));
    assert_eq!(names(&set), vec!["Ann", "Bob", "Cy"]);
    assert_eq!(parse_list(&chars_of("")).len(), 0);
}

#[test]
fn towny_list_with_count() {
    let (key, count, list) = parse_towny_list(&chars_of("Residents [3]: Bob, Ann, Cy")).unwrap();
    assert_eq!(key, "Residents");
    assert_eq!(count, 3);
    assert_eq!(names(&list), vec!["Ann", "Bob", "Cy"]);
}

#[test]
fn towny_list_without_count_counts_one() {
    let (key, count, list) = parse_towny_list(&chars_of("  Mayor : Bob")).unwrap();
    assert_eq!(key, "Mayor");
    assert_eq!(count, 1);
    assert_eq!(names(&list), vec!["Bob"]);
}

#[test]
fn towny_list_errors() {
    assert_eq!(
        parse_towny_list(&chars_of("Residents Bob")).err(),
        Some(ChatError::InvalidListFormat)
    );
    assert_eq!(
        parse_towny_list(&chars_of("Residents [3: Bob")).err(),
        Some(ChatError::InvalidBracketFormat)
    );
    assert_eq!(
        parse_towny_list(&chars_of("Residents [x]: Bob")).err(),
        Some(ChatError::InvalidCount(IntErrorKind::InvalidDigit))
    );
    assert_eq!(
        parse_towny_list(&chars_of("Residents [-1]: Bob")).err(),
        Some(ChatError::InvalidCount(IntErrorKind::InvalidDigit))
    );
    assert_eq!(
        parse_towny_list(&chars_of("Residents []: Bob")).err(),
        Some(ChatError::InvalidCount(IntErrorKind::Empty))
    );
    assert_eq!(
        parse_towny_list(&chars_of("Residents [99999999999999999999999]: Bob")).err(),
        Some(ChatError::InvalidCount(IntErrorKind::PosOverflow))
    );
}

#[test]
fn clean_keeps_name_characters() {
    let residents = NameSet::new();
    let r = clean_resident_name(&chars_of("  §aMayor_Bob*! "), &residents).unwrap();
    assert_eq!(r, "aMayor_Bob*");
}

#[test]
fn clean_picks_the_resident_among_words() {
    let residents = set_of(&["Bob"]);
    let r = clean_resident_name(&chars_of("King  Bob the First"), &residents).unwrap();
    assert_eq!(r, "Bob");
    let none = NameSet::new();
    assert_eq!(
        clean_resident_name(&chars_of("King Bob"), &none).err(),
        Some(ChatError::UncleanableName)
    );
}

#[test]
fn clean_is_stable() {
    let residents = set_of(&["Bob"]);
    for raw in ["  §aMayor_Bob*! ", "King Bob", "x-y-z", ""] {
        let once = clean_resident_name(&chars_of(raw), &residents).unwrap();
        let twice = clean_resident_name(&chars_of(&once), &residents).unwrap();
        assert_eq!(once, twice);
    }
}

#[test]
fn cleaned_list_fails_on_an_unknown_titled_name() {
    let residents = set_of(&["Bob", "Ann"]);
    let (_, _, list) =
        parse_towny_list_cleaned(&chars_of("Co-mayor [2]: Sir Bob, Ann"), &residents).unwrap();
    assert_eq!(names(&list), vec!["Ann", "Bob"]);
    assert_eq!(
        parse_towny_list_cleaned(&chars_of("Co-mayor: Sir Cy"), &residents).err(),
        Some(ChatError::UncleanableName)
    );
}

#[test]
fn dm_from_the_trusted_player_is_said() {
    let mut state = State::new();
    let sudo = Some("Admin".to_string());
    let r = handle_chat(&mut state, "✉ [MSG] Admin → Bot hello there", &sudo, &vec![]);
    assert_eq!(r.result, Ok(()));
    assert_eq!(r.commands, vec!["hello there"]);
}

#[test]
fn dm_with_placeholder_is_said_once_per_player() {
    let mut state = State::new();
    let sudo = Some("Admin".to_string());
    let tab = vec!["Ann".to_string(), "Bob".to_string()];
    let r = handle_chat(&mut state, "✉ [MSG] Admin → Bot hi {}!", &sudo, &tab);
    assert_eq!(r.commands, vec!["hi Ann!", "hi Bob!"]);
}

#[test]
fn dm_from_someone_else_is_ignored() {
    let mut state = State::new();
    let sudo = Some("Admin".to_string());
    let r = handle_chat(&mut state, "✉ [MSG] Eve → Bot do it", &sudo, &vec![]);
    assert_eq!(r.result, Ok(()));
    assert!(r.commands.is_empty());
}

#[test]
fn dm_without_trusted_player_gets_a_reply() {
    let mut state = State::new();
    let r = handle_chat(&mut state, "✉ [MSG] Eve → Bot do it", &None, &vec![]);
    assert_eq!(
        r.commands,
        vec!["/msg Eve Hi! this is a bot, and your message goes to nowhere ..."]
    );
}

#[test]
fn malformed_dms_are_reported() {
    let mut state = State::new();
    let sudo = Some("Admin".to_string());
    let cases = [
        ("✉ [MSG]Admin → Bot hi", ChatError::DmMissingPrefix),
        ("✉ [MSG] Admin Bot hi", ChatError::DmMissingArrow),
        ("✉ [MSG] Admin → Bot", ChatError::DmMissingMessage),
    ];
    for (line, err) in cases {
        let r = handle_chat(&mut state, line, &sudo, &vec![]);
        assert_eq!(r.result, Err(err));
        assert!(r.commands.is_empty());
    }
}

#[test]
fn joining_the_town_sends_the_greeting() {
    let mut state = State::new();
    let r = handle_chat(&mut state, "[+] Lestallum joined", &None, &vec![]);
    assert!(state.on_towny);
    assert_eq!(
        r.commands,
        vec!["/pvp on", "/t", "/t reslist", "/t ranklist", "/msg Lestallum INIT_END"]
    );
}

#[test]
fn rank_lists_fill_the_town() {
    let mut state = State::new();
    let r = handle_chat(&mut state, "Residents [2]: Bob, Ann", &None, &vec![]);
    assert_eq!(r.result, Ok(()));
    assert_eq!(names(&state.town_residents), vec!["Ann", "Bob"]);

    let r = handle_chat(&mut state, "Mayor: Lord Bob", &None, &vec![]);
    assert_eq!(r.result, Ok(()));
    assert_eq!(state.town_mayor, "Bob");

    handle_chat(&mut state, "Sheriff: Ann", &None, &vec![]);
    handle_chat(&mut state, "Trusted: Sir Cy", &None, &vec![]);
    handle_chat(&mut state, "Vip: Bob", &None, &vec![]);
    assert_eq!(names(&state.town_sheriffs), vec!["Ann"]);
    assert_eq!(names(&state.town_trusteds), vec!["Sir Cy"]);
    assert_eq!(names(&state.town_vips), vec!["Bob"]);
    assert_eq!(state.town_helpers.len(), 0);
}

#[test]
fn empty_mayor_list_is_reported() {
    let mut state = State::new();
    let r = handle_chat(&mut state, "Mayor: , ", &None, &vec![]);
    assert_eq!(r.result, Err(ChatError::EmptyList));
    assert_eq!(state.town_mayor, "");
}

#[test]
fn town_lists_only_grow() {
    let mut state = State::new();
    handle_chat(&mut state, "Residents: Bob, Ann", &None, &vec![]);
    handle_chat(&mut state, "Residents: Cy", &None, &vec![]);
    let r = handle_chat(&mut state, "Residents [x]: Dee", &None, &vec![]);
    assert_eq!(r.result, Err(ChatError::InvalidCount(IntErrorKind::InvalidDigit)));
    assert_eq!(names(&state.town_residents), vec!["Ann", "Bob", "Cy"]);
}

#[test]
fn error_messages() {
    assert_eq!(ChatError::EmptyList.message(), "Failed to parse towny list, its empty");
    assert_eq!(ChatError::DmMissingArrow.message(), "Invalid DM format: missing arrow");
    assert_eq!(
        ChatError::InvalidCount(IntErrorKind::InvalidDigit).message(),
        "x".parse::<usize>().unwrap_err().to_string()
    );
    assert_eq!(
        ChatError::InvalidCount(IntErrorKind::Empty).message(),
        "".parse::<usize>().unwrap_err().to_string()
    );
    assert_eq!(
        ChatError::InvalidCount(IntErrorKind::PosOverflow).message(),
        "99999999999999999999999".parse::<usize>().unwrap_err().to_string()
    );
}

#[test]
fn joined_names_read_back() {
    let set = parse_list(&chars_of("Ann,Bob,Cy"));
    assert_eq!(names(&set), vec!["Ann", "Bob", "Cy"]);
}

#[test]
fn other_lines_change_nothing() {
    let mut state = State::new();
    handle_chat(&mut state, "Residents: Bob", &None, &vec![]);
    let r = handle_chat(&mut state, "just chatting: Residents", &Some("Admin".to_string()), &vec![]);
    assert_eq!(r.result, Ok(()));
    assert!(r.commands.is_empty());
    assert!(!state.on_towny);
    assert_eq!(names(&state.town_residents), vec!["Bob"]);
}
