//! A lenient reading of the town's chat: the rank lists are taken from
//! whatever follows the first `:`, names that cannot be reduced to a resident
//! are left out, and only the trusted player's direct messages are read.
use vstd::prelude::*;

use crate::bot::bot_state::{State, TownRank};
use crate::bot::events::chat::{
    clean_resident_name, opt_view, parse_list, placeholder, rank_list_of, rank_list_target,
    rank_list_target_exec, spec_clean_resident_name, spec_parse_list, spec_parse_towny_list, spec_rank_list_of,
    string_views, towny_join_commands, RankList,
};
use crate::names::NameSet;
use crate::text::{
    chars_of, concat_chars, contains, contains_chars, replace_all, replace_all_chars, split_once,
    split_once_chars, starts_with, starts_with_chars, string_of, trim, trim_chars,
};

verus! {

/// What follows the first `:` of `m`, or nothing where it has none.
pub open spec fn after_first_colon(m: Seq<char>) -> Seq<char> {
    match split_once(m, seq![':']) {
        Some((_head, rest)) => rest,
        None => Seq::<char>::empty(),
    }
}

/// The names listed after the first `:` of `m`.
pub open spec fn spec_parse_list_after_colon(m: Seq<char>) -> Set<Seq<char>> {
    spec_parse_list(after_first_colon(m))
}

/// The names listed after the first `:` of `m` that can be reduced to a
/// resident, so reduced.
pub open spec fn spec_parse_list_cleaned(m: Seq<char>, residents: Set<Seq<char>>) -> Set<Seq<char>> {
    Set::new(
        |x: Seq<char>|
            exists|n: Seq<char>|
                spec_parse_list_after_colon(m).contains(n) && #[trigger] spec_clean_resident_name(
                    n,
                    residents,
                ) == Some(x),
    )
}

/// Whether `m` is a direct message from the trusted player `p`.
pub open spec fn is_dm_from(m: Seq<char>, p: Seq<char>) -> bool {
    starts_with(m, "✉ [MSG]"@) && contains(m, p + " →"@)
}

/// The text of a direct message: what follows the first space after the first `→ `.
pub open spec fn dm_text(m: Seq<char>) -> Seq<char> {
    split_once(split_once(m, "→ "@)->Some_0.1, seq![' '])->Some_0.1
}

/// Whether `handle_chat` can read `m`: a direct message from the trusted
/// player has a `→ ` followed later by a space, and a mayor's line has a `:`
/// and names a resident.
pub open spec fn spec_can_handle_chat(
    m: Seq<char>,
    sudo: Option<Seq<char>>,
    residents: Set<Seq<char>>,
) -> bool {
    &&& (sudo matches Some(p) && is_dm_from(m, p)) ==> {
        &&& split_once(m, "→ "@) is Some
        &&& split_once(split_once(m, "→ "@)->Some_0.1, seq![' ']) is Some
    }
    &&& spec_rank_list_of(m) == Some(RankList::Mayor) ==> {
        &&& split_once(m, seq![':']) is Some
        &&& spec_clean_resident_name(trim(after_first_colon(m)), residents) is Some
    }
}

/// The commands that a direct message from the trusted player owes.
pub open spec fn spec_sudo_commands(m: Seq<char>, sudo: Option<Seq<char>>, tab: Seq<Seq<char>>) -> Seq<
    Seq<char>,
> {
    match sudo {
        Some(p) => if is_dm_from(m, p) {
            let text = dm_text(m);
            if contains(text, placeholder()) {
                Seq::new(tab.len(), |i: int| replace_all(text, placeholder(), tab[i]))
            } else {
                seq![text]
            }
        } else {
            seq![]
        },
        None => seq![],
    }
}

/// The names that a rank list line adds to its town list.
pub open spec fn spec_added_names(l: RankList, m: Seq<char>, residents: Set<Seq<char>>) -> Set<
    Seq<char>,
> {
    if l == RankList::Residents || l == RankList::Trusted {
        spec_parse_list_after_colon(m)
    } else {
        spec_parse_list_cleaned(m, residents)
    }
}

/// A direct message from the trusted player whose text holds no `{}`
/// placeholder is said exactly once, as it is, however many players are
/// listed; one that holds it is said once per listed player, in order, with
/// that player's name where the placeholder stood.
pub proof fn law_trusted_message_is_said(m: Seq<char>, player: Seq<char>, tab: Seq<Seq<char>>)
    requires
        is_dm_from(m, player),
    ensures
        !contains(dm_text(m), seq!['{', '}']) ==> spec_sudo_commands(m, Some(player), tab) == seq![
            dm_text(m),
        ],
        contains(dm_text(m), seq!['{', '}']) ==> {
            &&& spec_sudo_commands(m, Some(player), tab).len() == tab.len()
            &&& forall|i: int|
                0 <= i < tab.len() ==> #[trigger] spec_sudo_commands(m, Some(player), tab)[i]
                    == replace_all(dm_text(m), seq!['{', '}'], tab[i])
        },
{
    assert(placeholder() =~= seq!['{', '}']);
}

/// Without a trusted player, and from anyone who does not write as the
/// trusted player, no direct message is said.
pub proof fn law_untrusted_messages_are_not_said(
    m: Seq<char>,
    sudo: Option<Seq<char>>,
    tab: Seq<Seq<char>>,
)
    requires
        match sudo {
            Some(p) => !is_dm_from(m, p),
            None => true,
        },
    ensures
        spec_sudo_commands(m, sudo, tab).len() == 0,
{
}

/// Both ways of reading a rank list take the same names where the stricter
/// one, which also reads the title and count, succeeds.
pub proof fn law_list_readings_agree(m: Seq<char>)
    ensures
        spec_parse_towny_list(m) matches Ok((_key, _count, names)) ==> names
            == spec_parse_list_after_colon(m),
{
}

/// The names listed after the first `:` of `m`.
pub fn parse_list_after_colon(m: &[char]) -> (r: NameSet)
    ensures
        r@ == spec_parse_list_after_colon(m@),
{
    let colon = [':'];
    assert(colon@ =~= seq![':']);
    match split_once_chars(m, &colon) {
        Some((_head, rest)) => parse_list(&rest),
        None => {
            let empty: Vec<char> = Vec::new();
            parse_list(&empty)
        },
    }
}

/// The names listed after the first `:` of `m` that can be reduced to a
/// resident, so reduced.
pub fn parse_list_cleaned(m: &[char], residents: &NameSet) -> (r: NameSet)
    ensures
        r@ == spec_parse_list_cleaned(m@, residents@),
{
    let listed = parse_list_after_colon(m);
    let names = listed.to_vec();
    let ghost ns = names@.map_values(|s: String| s@);
    let mut cleaned = NameSet::new();
    let mut k: usize = 0;
    while k < names.len()
        invariant
            k <= names@.len() == ns.len(),
            ns == names@.map_values(|s: String| s@),
            ns.to_set() == spec_parse_list_after_colon(m@),
            cleaned@ == Set::new(
                |x: Seq<char>|
                    exists|i: int|
                        0 <= i < k && spec_clean_resident_name(#[trigger] ns[i], residents@) == Some(
                            x,
                        ),
            ),
        decreases names@.len() - k,
    {
        let name_chars = chars_of(names[k].as_str());
        assert(name_chars@ == ns[k as int]);
        let ghost before = cleaned@;
        match clean_resident_name(&name_chars, residents) {
            Err(_) => {},
            Ok(c) => {
                cleaned.insert(c);
            },
        }
        proof {
            assert(cleaned@ =~= Set::new(
                |x: Seq<char>|
                    exists|i: int|
                        0 <= i < k + 1 && spec_clean_resident_name(#[trigger] ns[i], residents@)
                            == Some(x),
            )) by {
                assert forall|x: Seq<char>|
                    cleaned@.contains(x) implies exists|i: int|
                    0 <= i < k + 1 && spec_clean_resident_name(#[trigger] ns[i], residents@) == Some(
                        x,
                    ) by {
                    if before.contains(x) {
                        let i = choose|i: int|
                            0 <= i < k && spec_clean_resident_name(#[trigger] ns[i], residents@)
                                == Some(x);
                        assert(0 <= i < k + 1);
                    } else {
                        assert(spec_clean_resident_name(ns[k as int], residents@) == Some(x));
                    }
                }
                assert forall|x: Seq<char>|
                    (exists|i: int|
                        0 <= i < k + 1 && spec_clean_resident_name(#[trigger] ns[i], residents@)
                            == Some(x)) implies cleaned@.contains(x) by {
                    let i = choose|i: int|
                        0 <= i < k + 1 && spec_clean_resident_name(#[trigger] ns[i], residents@)
                            == Some(x);
                    if i < k {
                        assert(before.contains(x));
                    }
                }
            }
        }
        k = k + 1;
    }
    proof {
        assert(cleaned@ =~= spec_parse_list_cleaned(m@, residents@)) by {
            assert forall|x: Seq<char>|
                spec_parse_list_cleaned(m@, residents@).contains(x) implies cleaned@.contains(
                x,
            ) by {
                let n = choose|n: Seq<char>|
                    spec_parse_list_after_colon(m@).contains(n) && #[trigger] spec_clean_resident_name(
                        n,
                        residents@,
                    ) == Some(x);
                assert(ns.to_set().contains(n));
                let i = choose|i: int| 0 <= i < ns.len() && ns[i] == n;
                assert(spec_clean_resident_name(ns[i], residents@) == Some(x));
            }
            assert forall|x: Seq<char>|
                cleaned@.contains(x) implies spec_parse_list_cleaned(m@, residents@).contains(
                x,
            ) by {
                let i = choose|i: int|
                    0 <= i < k && spec_clean_resident_name(#[trigger] ns[i], residents@) == Some(x);
                assert(ns.to_set().contains(ns[i]));
            }
        }
    }
    cleaned
}

/// Whether `handle_chat` can read `message` (see `spec_can_handle_chat`).
pub fn can_handle_chat(state: &State, message: &str, sudo_player: &Option<String>) -> (b: bool)
    ensures
        b == spec_can_handle_chat(message@, opt_view(*sudo_player), state.town_residents@),
{
    let m = chars_of(message);
    let mut dm_ok = true;
    if let Some(player) = sudo_player {
        let marker = concat_chars(&chars_of(player.as_str()), &chars_of(" →"));
        if starts_with_chars(&m, &chars_of("✉ [MSG]")) && contains_chars(&m, &marker) {
            let space = [' '];
            assert(space@ =~= seq![' ']);
            dm_ok = match split_once_chars(&m, &chars_of("→ ")) {
                None => false,
                Some((_head, after)) => split_once_chars(&after, &space).is_some(),
            };
        }
    }
    let mut mayor_ok = true;
    if rank_list_of(&m) == Some(RankList::Mayor) {
        let colon = [':'];
        assert(colon@ =~= seq![':']);
        mayor_ok = match split_once_chars(&m, &colon) {
            None => false,
            Some((_head, rest)) => {
                let name = trim_chars(&rest);
                clean_resident_name(&name, &state.town_residents).is_ok()
            },
        };
    }
    dm_ok && mayor_ok
}

/// Handles a chat line (see `spec_can_handle_chat` for the lines it can
/// read): says aloud what the trusted player sends it, answers the town's
/// greeting, and records the rank lists that the server sends. Gives back
/// the commands to send, in order.
pub fn handle_chat(
    state: &mut State,
    message: &str,
    sudo_player: &Option<String>,
    tab_names: &Vec<String>,
) -> (commands: Vec<String>)
    requires
        spec_can_handle_chat(message@, opt_view(*sudo_player), old(state).town_residents@),
    ensures
        ({
            let m = message@;
            let joins = contains(m, "[+] Lestallum"@);
            &&& string_views(commands@) == spec_sudo_commands(
                m,
                opt_view(*sudo_player),
                string_views(tab_names@),
            ) + (if joins {
                towny_join_commands()
            } else {
                Seq::<Seq<char>>::empty()
            })
            &&& final(state).on_towny == (old(state).on_towny || joins)
            &&& final(state).shutdown_signal_sent == old(state).shutdown_signal_sent
            &&& match spec_rank_list_of(m) {
                None => final(state).same_town(old(state)),
                Some(l) => match rank_list_target(l) {
                    Some(t) => {
                        &&& final(state).rank(t) == old(state).rank(t).union(
                            spec_added_names(l, m, old(state).town_residents@),
                        )
                        &&& final(state).same_town_except(old(state), t)
                    },
                    None => {
                        &&& Some(final(state).town_mayor@) == spec_clean_resident_name(
                            trim(after_first_colon(m)),
                            old(state).town_residents@,
                        )
                        &&& forall|r: TownRank| #[trigger] final(state).rank(r) == old(state).rank(r)
                    },
                },
            }
        }),
        final(state).knows_at_least(old(state)),
{
    let m = chars_of(message);
    let mut commands: Vec<String> = Vec::new();
    if let Some(player) = sudo_player {
        let marker = concat_chars(&chars_of(player.as_str()), &chars_of(" →"));
        if starts_with_chars(&m, &chars_of("✉ [MSG]")) && contains_chars(&m, &marker) {
            let space = [' '];
            assert(space@ =~= seq![' ']);
            let after = match split_once_chars(&m, &chars_of("→ ")) {
                Some((_head, after)) => after,
                None => {
                    assert(false);
                    Vec::new()
                },
            };
            let text = match split_once_chars(&after, &space) {
                Some((_to, text)) => text,
                None => {
                    assert(false);
                    Vec::new()
                },
            };
            assert(text@ == dm_text(m@));
            let pat = ['{', '}'];
            assert(pat@ =~= placeholder());
            if contains_chars(&text, &pat) {
                let mut i: usize = 0;
                while i < tab_names.len()
                    invariant
                        i <= tab_names@.len(),
                        pat@ == placeholder(),
                        string_views(commands@) == Seq::new(
                            i as nat,
                            |k: int| replace_all(text@, placeholder(), tab_names@[k]@),
                        ),
                    decreases tab_names@.len() - i,
                {
                    let name = chars_of(tab_names[i].as_str());
                    let line = replace_all_chars(&text, &pat, &name);
                    let ghost before = string_views(commands@);
                    commands.push(string_of(&line));
                    assert(string_views(commands@) =~= before.push(line@));
                    i = i + 1;
                    assert(string_views(commands@) =~= Seq::new(
                        i as nat,
                        |k: int| replace_all(text@, placeholder(), tab_names@[k]@),
                    ));
                }
                assert(Seq::new(
                    tab_names@.len() as nat,
                    |k: int| replace_all(text@, placeholder(), tab_names@[k]@),
                ) =~= Seq::new(
                    string_views(tab_names@).len(),
                    |k: int| replace_all(text@, placeholder(), string_views(tab_names@)[k]),
                ));
            } else {
                commands.push(string_of(&text));
                assert(string_views(commands@) =~= seq![text@]);
            }
        } else {
            assert(string_views(commands@) =~= Seq::<Seq<char>>::empty());
        }
    } else {
        assert(string_views(commands@) =~= Seq::<Seq<char>>::empty());
    }
    let ghost dm = string_views(commands@);
    if contains_chars(&m, &chars_of("[+] Lestallum")) {
        state.on_towny = true;
        commands.push("/pvp on".to_owned());
        commands.push("/t".to_owned());
        commands.push("/t reslist".to_owned());
        commands.push("/t ranklist".to_owned());
        commands.push("/msg Lestallum INIT_END".to_owned());
        assert(string_views(commands@) =~= dm + towny_join_commands());
    } else {
        assert(string_views(commands@) =~= dm + Seq::<Seq<char>>::empty());
    }
    let ghost mid = *state;
    match rank_list_of(&m) {
        None => {},
        Some(l) => {
            match rank_list_target_exec(l) {
                Some(t) => {
                    let names = if l == RankList::Residents || l == RankList::Trusted {
                        parse_list_after_colon(&m)
                    } else {
                        parse_list_cleaned(&m, &state.town_residents)
                    };
                    state.extend_rank(t, &names);
                },
                None => {
                    let colon = [':'];
                    assert(colon@ =~= seq![':']);
                    let rest = match split_once_chars(&m, &colon) {
                        Some((_head, rest)) => rest,
                        None => {
                            assert(false);
                            Vec::new()
                        },
                    };
                    let name = trim_chars(&rest);
                    match clean_resident_name(&name, &state.town_residents) {
                        Ok(mayor) => {
                            state.town_mayor = mayor;
                        },
                        Err(_) => {
                            assert(false);
                        },
                    }
                },
            }
        },
    }
    proof {
        assert forall|t: TownRank| #[trigger] old(state).rank(t).subset_of(state.rank(t)) by {
            assert(mid.rank(t) == old(state).rank(t));
        }
    }
    commands
}

} // verus!
