//! Reading the town's chat: rank lists sent by the server, resident names,
//! and direct messages.
use vstd::prelude::*;

use crate::bot::bot_state::{State, TownRank};
use crate::names::NameSet;
use crate::text::{
    chars_of, concat_chars, contains, contains_chars, replace_all, replace_all_chars, starts_with,
    starts_with_chars, strip_prefix, strip_prefix_chars, is_ascii_alphanumeric, parse_usize, parse_usize_chars, IntErrorKind,
    split_on, split_on_chars, split_once, split_once_chars, string_of, strip_suffix,
    strip_suffix_chars, trim, trim_chars, lemma_trim, lemma_trim_of_untrimmable, lemma_split_on_pieces, lemma_replace_absent, occurs_at, join_with, lemma_split_join,
    lemma_find, find,
};

verus! {

/// Why a chat line could not be handled.
#[derive(Debug, Clone, Copy, PartialEq, Eq, Structural)]
pub enum ChatError {
    /// A direct message that lacks the `✉ [MSG] ` prefix.
    DmMissingPrefix,
    /// A direct message without the ` → ` between sender and receiver.
    DmMissingArrow,
    /// A direct message with nothing after the receiver.
    DmMissingMessage,
    /// A rank list without `:`.
    InvalidListFormat,
    /// A rank list whose `[` is not closed by a final `]`.
    InvalidBracketFormat,
    /// A rank list whose count is not a `usize`, and why.
    InvalidCount(IntErrorKind),
    /// A name with spaces none of whose words is a known resident.
    UncleanableName,
    /// A mayor list with no name in it.
    EmptyList,
}

/// The text of an error.
pub open spec fn chat_error_text(e: ChatError) -> Seq<char> {
    match e {
        ChatError::DmMissingPrefix => "Invalid DM format: missing prefix"@,
        ChatError::DmMissingArrow => "Invalid DM format: missing arrow"@,
        ChatError::DmMissingMessage => "Invalid DM format: missing message"@,
        ChatError::InvalidListFormat => "Invalid towny list format"@,
        ChatError::InvalidBracketFormat => "Invalid bracket format"@,
        ChatError::InvalidCount(IntErrorKind::Empty) => "cannot parse integer from empty string"@,
        ChatError::InvalidCount(IntErrorKind::InvalidDigit) => "invalid digit found in string"@,
        ChatError::InvalidCount(IntErrorKind::PosOverflow) => "number too large to fit in target type"@,
        ChatError::UncleanableName => "Failed to clean resident name"@,
        ChatError::EmptyList => "Failed to parse towny list, its empty"@,
    }
}

impl ChatError {
    /// The text of the error.
    pub fn message(&self) -> (s: String)
        ensures
            s@ == chat_error_text(*self),
    {
        match self {
            ChatError::DmMissingPrefix => "Invalid DM format: missing prefix".to_owned(),
            ChatError::DmMissingArrow => "Invalid DM format: missing arrow".to_owned(),
            ChatError::DmMissingMessage => "Invalid DM format: missing message".to_owned(),
            ChatError::InvalidListFormat => "Invalid towny list format".to_owned(),
            ChatError::InvalidBracketFormat => "Invalid bracket format".to_owned(),
            ChatError::InvalidCount(IntErrorKind::Empty) => "cannot parse integer from empty string".to_owned(),
            ChatError::InvalidCount(IntErrorKind::InvalidDigit) => "invalid digit found in string".to_owned(),
            ChatError::InvalidCount(IntErrorKind::PosOverflow) => "number too large to fit in target type".to_owned(),
            ChatError::UncleanableName => "Failed to clean resident name".to_owned(),
            ChatError::EmptyList => "Failed to parse towny list, its empty".to_owned(),
        }
    }
}

// ---------------------------------------------------------------------------
// Comma-separated name lists
// ---------------------------------------------------------------------------
/// The non-empty trimmed pieces among `pieces`.
pub open spec fn listed_names(pieces: Seq<Seq<char>>) -> Set<Seq<char>> {
    Set::new(
        |x: Seq<char>|
            exists|i: int| 0 <= i < pieces.len() && x == trim(#[trigger] pieces[i]) && x.len() > 0,
    )
}

/// The names of a comma-separated list: each piece trimmed, empty ones left out.
pub open spec fn spec_parse_list(message: Seq<char>) -> Set<Seq<char>> {
    listed_names(split_on(message, ','))
}

/// The names of a comma-separated list.
pub fn parse_list(message: &[char]) -> (r: NameSet)
    ensures
        r@ == spec_parse_list(message@),
        forall|x: Seq<char>| #[trigger] r@.contains(x) ==> x.len() > 0 && trim(x) == x,
{
    let pieces = split_on_chars(message, ',');
    let ghost ps = split_on(message@, ',');
    let mut set = NameSet::new();
    let mut k: usize = 0;
    assert(listed_names(ps.take(0)) =~= Set::<Seq<char>>::empty());
    while k < pieces.len()
        invariant
            k <= pieces@.len() == ps.len(),
            ps == split_on(message@, ','),
            forall|i: int| 0 <= i < pieces@.len() ==> #[trigger] pieces@[i]@ == ps[i],
            set@ == listed_names(ps.take(k as int)),
        decreases pieces@.len() - k,
    {
        let t = trim_chars(&pieces[k]);
        let ghost before = set@;
        if t.len() > 0 {
            set.insert(string_of(&t));
        }
        proof {
            let a = ps.take(k as int);
            let b = ps.take(k + 1);
            assert forall|x: Seq<char>| listed_names(b).contains(x) == set@.contains(x) by {
                if listed_names(b).contains(x) {
                    let i = choose|i: int| 0 <= i < b.len() && x == trim(#[trigger] b[i]) && x.len() > 0;
                    if i < k {
                        assert(a[i] == b[i]);
                        assert(listed_names(a).contains(x));
                    }
                }
                if set@.contains(x) && !before.contains(x) {
                    assert(b[k as int] == ps[k as int]);
                    assert(x == trim(b[k as int]));
                }
                if before.contains(x) {
                    let i = choose|i: int| 0 <= i < a.len() && x == trim(#[trigger] a[i]) && x.len() > 0;
                    assert(b[i] == a[i]);
                }
            }
            assert(listed_names(b) =~= set@);
        }
        k = k + 1;
    }
    assert(ps.take(pieces@.len() as int) =~= ps);
    proof {
        assert forall|x: Seq<char>| #[trigger] set@.contains(x) implies x.len() > 0 && trim(x) == x by {
            let i = choose|i: int| 0 <= i < ps.len() && x == trim(#[trigger] ps[i]) && x.len() > 0;
            lemma_trim(ps[i]);
        }
    }
    set
}

/// A list of names, each trimmed, non-empty and without a comma, written
/// with commas between them, reads back as those names.
pub proof fn law_parse_list_of_joined_names(ns: Seq<Seq<char>>)
    requires
        ns.len() > 0,
        forall|i: int| 0 <= i < ns.len() ==> (#[trigger] ns[i]).len() > 0 && trim(ns[i]) == ns[i],
        forall|i: int, j: int| 0 <= i < ns.len() && 0 <= j < ns[i].len() ==> #[trigger] ns[i][j] != ',',
    ensures
        spec_parse_list(join_with(ns, ',')) == ns.to_set(),
{
    lemma_split_join(ns, ',');
    assert(spec_parse_list(join_with(ns, ',')) =~= ns.to_set()) by {
        assert forall|x: Seq<char>| ns.to_set().contains(x) implies spec_parse_list(join_with(ns, ',')).contains(x) by {
            let i = choose|i: int| 0 <= i < ns.len() && ns[i] == x;
            assert(x == trim(ns[i]) && x.len() > 0);
        }
    }
}

// ---------------------------------------------------------------------------
// Rank lists: `Name [count]: a, b, c`
// ---------------------------------------------------------------------------
/// A rank list read from the server: its title, its count and its names.
pub open spec fn spec_parse_towny_list(message: Seq<char>) -> Result<
    (Seq<char>, usize, Set<Seq<char>>),
    ChatError,
> {
    match split_once(message, seq![':']) {
        None => Err(ChatError::InvalidListFormat),
        Some((head, list)) => {
            let raw_key = trim(head);
            match split_once(raw_key, seq!['[']) {
                Some((name, rest)) => match strip_suffix(rest, seq![']']) {
                    None => Err(ChatError::InvalidBracketFormat),
                    Some(number) => match parse_usize(number) {
                        Err(k) => Err(ChatError::InvalidCount(k)),
                        Ok(n) => Ok((trim(name), n, spec_parse_list(list))),
                    },
                },
                None => Ok((raw_key, 1usize, spec_parse_list(list))),
            }
        },
    }
}

/// Reads a rank list of the form `Title [count]: a, b, c` (the count in
/// brackets may be left out, and is then 1).
pub fn parse_towny_list(message: &[char]) -> (r: Result<(String, usize, NameSet), ChatError>)
    ensures
        match (r, spec_parse_towny_list(message@)) {
            (Ok((k, n, names)), Ok((sk, sn, snames))) => k@ == sk && n == sn && names@ == snames,
            (Err(e), Err(se)) => e == se,
            _ => false,
        },
{
    let colon = [':'];
    assert(colon@ =~= seq![':']);
    let (head, list) = match split_once_chars(message, &colon) {
        None => {
            return Err(ChatError::InvalidListFormat);
        },
        Some(parts) => parts,
    };
    assert(colon@ =~= seq![':']);
    let raw_key = trim_chars(&head);
    let bracket = ['['];
    let close = [']'];
    assert(bracket@ =~= seq!['[']);
    assert(close@ =~= seq![']']);
    let (key, count) = match split_once_chars(&raw_key, &bracket) {
        Some((name, rest)) => {
            let number = match strip_suffix_chars(&rest, &close) {
                None => {
                    return Err(ChatError::InvalidBracketFormat);
                },
                Some(number) => number,
            };
            let n = match parse_usize_chars(&number) {
                Err(k) => {
                    return Err(ChatError::InvalidCount(k));
                },
                Ok(n) => n,
            };
            (trim_chars(&name), n)
        },
        None => (raw_key, 1usize),
    };
    let names = parse_list(&list);
    Ok((string_of(&key), count, names))
}

// ---------------------------------------------------------------------------
// Resident names
// ---------------------------------------------------------------------------
/// The characters kept in a resident's name: ASCII letters and digits, `_`,
/// `*` and the space.
pub open spec fn is_name_char(c: char) -> bool {
    is_ascii_alphanumeric(c) || c == '_' || c == '*' || c == ' '
}

/// `s` with every character that is not a name character left out.
pub open spec fn keep_name_chars(s: Seq<char>) -> Seq<char>
    decreases s.len(),
{
    if s.len() == 0 {
        s
    } else if is_name_char(s.last()) {
        keep_name_chars(s.drop_last()).push(s.last())
    } else {
        keep_name_chars(s.drop_last())
    }
}

/// The first non-empty piece of `pieces` that is a known resident.
pub open spec fn first_resident(pieces: Seq<Seq<char>>, residents: Set<Seq<char>>) -> Option<
    Seq<char>,
>
    decreases pieces.len(),
{
    if pieces.len() == 0 {
        None
    } else if pieces[0].len() > 0 && residents.contains(pieces[0]) {
        Some(pieces[0])
    } else {
        first_resident(pieces.drop_first(), residents)
    }
}

/// A name as it appears in a rank list, reduced to the resident it names:
/// the name characters, trimmed; where that still holds a space (a title
/// before the name), the first of its words that is a known resident. After
/// the reduction the space is the only white space left, so its words are
/// the non-empty pieces between spaces.
pub open spec fn spec_clean_resident_name(name: Seq<char>, residents: Set<Seq<char>>) -> Option<
    Seq<char>,
> {
    let cleaned = trim(keep_name_chars(name));
    if !contains(cleaned, seq![' ']) {
        Some(cleaned)
    } else {
        first_resident(split_on(cleaned, ' '), residents)
    }
}

/// Whether `c` is kept in a resident's name.
pub fn is_name_char_exec(c: char) -> (b: bool)
    ensures
        b == is_name_char(c),
{
    ('a' <= c && c <= 'z') || ('A' <= c && c <= 'Z') || ('0' <= c && c <= '9') || c == '_' || c
        == '*' || c == ' '
}

/// `s` with the characters that are not name characters left out.
pub fn keep_name_chars_exec(s: &[char]) -> (r: Vec<char>)
    ensures
        r@ == keep_name_chars(s@),
{
    let mut r: Vec<char> = Vec::new();
    let mut i: usize = 0;
    assert(s@.take(0) =~= Seq::<char>::empty());
    while i < s.len()
        invariant
            i <= s@.len(),
            r@ == keep_name_chars(s@.take(i as int)),
        decreases s@.len() - i,
    {
        assert(s@.take(i + 1).drop_last() =~= s@.take(i as int));
        if is_name_char_exec(s[i]) {
            r.push(s[i]);
        }
        i = i + 1;
    }
    assert(s@.take(s@.len() as int) =~= s@);
    r
}

/// Reduces a listed name to the resident it names (see
/// `spec_clean_resident_name`); fails where a name with spaces names no known
/// resident.
pub fn clean_resident_name(name: &[char], residents: &NameSet) -> (r: Result<String, ChatError>)
    ensures
        match spec_clean_resident_name(name@, residents@) {
            Some(n) => r matches Ok(s) && s@ == n,
            None => r == Err::<String, ChatError>(ChatError::UncleanableName),
        },
{
    let kept = keep_name_chars_exec(name);
    let cleaned = trim_chars(&kept);
    let space = [' '];
    assert(space@ =~= seq![' ']);
    if !contains_chars(&cleaned, &space) {
        return Ok(string_of(&cleaned));
    }
    let pieces = split_on_chars(&cleaned, ' ');
    let ghost ps = split_on(cleaned@, ' ');
    let mut k: usize = 0;
    assert(ps.skip(0) =~= ps);
    while k < pieces.len()
        invariant
            k <= pieces@.len() == ps.len(),
            cleaned@ == trim(keep_name_chars(name@)),
            contains(cleaned@, seq![' ']),
            ps == split_on(cleaned@, ' '),
            forall|i: int| 0 <= i < pieces@.len() ==> #[trigger] pieces@[i]@ == ps[i],
            first_resident(ps, residents@) == first_resident(ps.skip(k as int), residents@),
        decreases pieces@.len() - k,
    {
        assert(ps.skip(k as int).drop_first() =~= ps.skip(k + 1));
        assert(ps.skip(k as int)[0] == ps[k as int]);
        if pieces[k].len() > 0 {
            let word = string_of(&pieces[k]);
            if residents.contains(&word) {
                assert(first_resident(ps.skip(k as int), residents@) == Some(ps[k as int]));
                return Ok(word);
            }
        }
        k = k + 1;
    }
    assert(ps.skip(k as int) =~= Seq::<Seq<char>>::empty());
    Err(ChatError::UncleanableName)
}

/// What `keep_name_chars` keeps are name characters.
pub proof fn lemma_keep_name_chars(s: Seq<char>)
    ensures
        forall|i: int| 0 <= i < keep_name_chars(s).len() ==> is_name_char(#[trigger] keep_name_chars(s)[i]),
        (forall|i: int| 0 <= i < s.len() ==> is_name_char(#[trigger] s[i])) ==> keep_name_chars(s) == s,
    decreases s.len(),
{
    if s.len() > 0 {
        lemma_keep_name_chars(s.drop_last());
        let r = keep_name_chars(s.drop_last());
        assert forall|i: int| 0 <= i < keep_name_chars(s).len() implies is_name_char(#[trigger] keep_name_chars(s)[i]) by {
            if is_name_char(s.last()) && i == r.len() {
                assert(keep_name_chars(s)[i] == s.last());
            } else {
                assert(keep_name_chars(s)[i] == r[i]);
            }
        }
        if forall|i: int| 0 <= i < s.len() ==> is_name_char(#[trigger] s[i]) {
            assert(forall|i: int| 0 <= i < s.drop_last().len() ==> is_name_char(#[trigger] s.drop_last()[i]) ) by {
                assert forall|i: int| 0 <= i < s.drop_last().len() implies is_name_char(#[trigger] s.drop_last()[i]) by {
                    assert(s.drop_last()[i] == s[i]);
                }
            }
            assert(is_name_char(s[s.len() - 1]));
            assert(s.drop_last().push(s.last()) =~= s);
        }
    }
}

/// `first_resident` picks a non-empty piece that is a resident.
pub proof fn lemma_first_resident(pieces: Seq<Seq<char>>, residents: Set<Seq<char>>)
    ensures
        first_resident(pieces, residents) matches Some(w) ==> w.len() > 0 && residents.contains(w)
            && exists|i: int| 0 <= i < pieces.len() && #[trigger] pieces[i] == w,
    decreases pieces.len(),
{
    if pieces.len() > 0 && !(pieces[0].len() > 0 && residents.contains(pieces[0])) {
        lemma_first_resident(pieces.drop_first(), residents);
        if first_resident(pieces, residents) is Some {
            let w = first_resident(pieces, residents)->Some_0;
            let i = choose|i: int| 0 <= i < pieces.drop_first().len() && #[trigger] pieces.drop_first()[i] == w;
            assert(pieces[i + 1] == w);
        }
    } else if pieces.len() > 0 {
        assert(pieces[0] == pieces[0]);
    }
}

/// A string of name characters without a space is its own reduction.
pub proof fn lemma_clean_of_plain_name(w: Seq<char>, residents: Set<Seq<char>>)
    requires
        forall|i: int| 0 <= i < w.len() ==> is_name_char(#[trigger] w[i]) && w[i] != ' ',
    ensures
        spec_clean_resident_name(w, residents) == Some(w),
{
    lemma_keep_name_chars(w);
    assert(keep_name_chars(w) == w);
    if w.len() > 0 {
        assert(is_name_char(w[0]) && w[0] != ' ');
        assert(is_name_char(w[w.len() - 1]) && w[w.len() - 1] != ' ');
    }
    lemma_trim_of_untrimmable(w);
    if contains(w, seq![' ']) {
        let i = choose|i: int| occurs_at(w, seq![' '], i);
        assert(w.subrange(i, i + 1)[0] == w[i]);
    }
}

/// Reducing a name is stable: a name reduced once is its own reduction.
pub proof fn law_clean_resident_name_is_stable(name: Seq<char>, residents: Set<Seq<char>>)
    requires
        spec_clean_resident_name(name, residents) is Some,
    ensures
        spec_clean_resident_name(spec_clean_resident_name(name, residents)->Some_0, residents)
            == spec_clean_resident_name(name, residents),
{
    let k = keep_name_chars(name);
    let c = trim(k);
    lemma_keep_name_chars(name);
    lemma_trim(k);
    assert forall|j: int| 0 <= j < c.len() implies is_name_char(#[trigger] c[j]) by {
        let i = choose|i: int| 0 <= i < k.len() && k[i] == c[j];
    }
    if !contains(c, seq![' ']) {
        assert forall|j: int| 0 <= j < c.len() implies is_name_char(#[trigger] c[j]) && c[j] != ' ' by {
            if c[j] == ' ' {
                assert(c.subrange(j, j + 1) =~= seq![' ']);
                assert(occurs_at(c, seq![' '], j));
            }
        }
        lemma_clean_of_plain_name(c, residents);
    } else {
        let ps = split_on(c, ' ');
        lemma_first_resident(ps, residents);
        lemma_split_on_pieces(c, ' ');
        let w = first_resident(ps, residents)->Some_0;
        let i = choose|i: int| 0 <= i < ps.len() && #[trigger] ps[i] == w;
        assert forall|j: int| 0 <= j < w.len() implies is_name_char(#[trigger] w[j]) && w[j] != ' ' by {
            assert(ps[i][j] == w[j]);
            let kk = choose|kk: int| 0 <= kk < c.len() && c[kk] == ps[i][j];
        }
        lemma_clean_of_plain_name(w, residents);
    }
}

/// The names of a rank list, each reduced to the resident it names.
pub open spec fn cleaned_names(names: Set<Seq<char>>, residents: Set<Seq<char>>) -> Set<Seq<char>> {
    Set::new(
        |x: Seq<char>|
            exists|n: Seq<char>|
                names.contains(n) && #[trigger] spec_clean_resident_name(n, residents) == Some(x),
    )
}

/// Whether every name of `names` names a resident.
pub open spec fn all_cleanable(names: Set<Seq<char>>, residents: Set<Seq<char>>) -> bool {
    forall|n: Seq<char>| #[trigger] names.contains(n) ==> spec_clean_resident_name(n, residents) is Some
}

/// A rank list whose names are reduced to the residents they name.
pub open spec fn spec_parse_towny_list_cleaned(message: Seq<char>, residents: Set<Seq<char>>) -> Result<
    (Seq<char>, usize, Set<Seq<char>>),
    ChatError,
> {
    match spec_parse_towny_list(message) {
        Err(e) => Err(e),
        Ok((key, count, names)) => if all_cleanable(names, residents) {
            Ok((key, count, cleaned_names(names, residents)))
        } else {
            Err(ChatError::UncleanableName)
        },
    }
}

/// Reads a rank list and reduces each of its names to the resident it names.
pub fn parse_towny_list_cleaned(message: &[char], residents: &NameSet) -> (r: Result<
    (String, usize, NameSet),
    ChatError,
>)
    ensures
        match (r, spec_parse_towny_list_cleaned(message@, residents@)) {
            (Ok((k, n, names)), Ok((sk, sn, snames))) => k@ == sk && n == sn && names@ == snames,
            (Err(e), Err(se)) => e == se,
            _ => false,
        },
{
    let (key, count, list) = match parse_towny_list(message) {
        Err(e) => {
            return Err(e);
        },
        Ok(parsed) => parsed,
    };
    let names = list.to_vec();
    let ghost ns = names@.map_values(|s: String| s@);
    let mut cleaned = NameSet::new();
    let mut k: usize = 0;
    while k < names.len()
        invariant
            k <= names@.len() == ns.len(),
            spec_parse_towny_list(message@) == Ok::<(Seq<char>, usize, Set<Seq<char>>), ChatError>((key@, count, list@)),
            ns == names@.map_values(|s: String| s@),
            ns.to_set() == list@,
            forall|i: int| 0 <= i < k ==> spec_clean_resident_name(#[trigger] ns[i], residents@) is Some,
            cleaned@ == Set::new(
                |x: Seq<char>|
                    exists|i: int| 0 <= i < k && spec_clean_resident_name(#[trigger] ns[i], residents@) == Some(x),
            ),
        decreases names@.len() - k,
    {
        let name_chars = chars_of(names[k].as_str());
        assert(ns[k as int] == names@[k as int]@);
        match clean_resident_name(&name_chars, residents) {
            Err(e) => {
                proof {
                    assert(name_chars@ == ns[k as int]);
                    assert(spec_clean_resident_name(ns[k as int], residents@) is None);
                    assert(ns.to_set().contains(ns[k as int]));
                    assert(list@.contains(ns[k as int]));
                    assert(!all_cleanable(list@, residents@));
                    assert(e == ChatError::UncleanableName);
                }
                return Err(e);
            },
            Ok(c) => {
                let ghost before = cleaned@;
                cleaned.insert(c);
                proof {
                    assert(cleaned@ =~= Set::new(
                        |x: Seq<char>|
                            exists|i: int| 0 <= i < k + 1 && spec_clean_resident_name(#[trigger] ns[i], residents@) == Some(x),
                    )) by {
                        assert forall|x: Seq<char>| cleaned@.contains(x) implies exists|i: int| 0 <= i < k + 1 && spec_clean_resident_name(#[trigger] ns[i], residents@) == Some(x) by {
                            if before.contains(x) {
                                let i = choose|i: int| 0 <= i < k && spec_clean_resident_name(#[trigger] ns[i], residents@) == Some(x);
                                assert(0 <= i < k + 1);
                            } else {
                                assert(spec_clean_resident_name(ns[k as int], residents@) == Some(x));
                            }
                        }
                    }
                }
            },
        }
        k = k + 1;
    }
    proof {
        assert forall|n: Seq<char>| #[trigger] list@.contains(n) implies spec_clean_resident_name(n, residents@) is Some by {
            assert(ns.to_set().contains(n));
            let i = choose|i: int| 0 <= i < ns.len() && ns[i] == n;
        }
        assert(cleaned@ =~= cleaned_names(list@, residents@)) by {
            assert forall|x: Seq<char>| cleaned_names(list@, residents@).contains(x) implies cleaned@.contains(x) by {
                let n = choose|n: Seq<char>| list@.contains(n) && #[trigger] spec_clean_resident_name(n, residents@) == Some(x);
                assert(ns.to_set().contains(n));
                let i = choose|i: int| 0 <= i < ns.len() && ns[i] == n;
                assert(spec_clean_resident_name(ns[i], residents@) == Some(x));
            }
            assert forall|x: Seq<char>| cleaned@.contains(x) implies cleaned_names(list@, residents@).contains(x) by {
                let i = choose|i: int| 0 <= i < k && spec_clean_resident_name(#[trigger] ns[i], residents@) == Some(x);
                assert(ns.to_set().contains(ns[i]));
                assert(list@.contains(ns[i]));
            }
        }
    }
    Ok((key, count, cleaned))
}

// ---------------------------------------------------------------------------
// Direct messages
// ---------------------------------------------------------------------------
/// The texts of a sequence of strings.
pub open spec fn string_views(v: Seq<String>) -> Seq<Seq<char>> {
    v.map_values(|s: String| s@)
}

/// The text of an optional string.
pub open spec fn opt_view(o: Option<String>) -> Option<Seq<char>> {
    match o {
        Some(s) => Some(s@),
        None => None,
    }
}

/// The placeholder that a forwarded message replaces by each player's name.
pub open spec fn placeholder() -> Seq<char> {
    seq!['{', '}']
}

/// Sender, receiver and text of a direct message
/// `✉ [MSG] <from> → <to> <text>`.
pub open spec fn spec_parse_dm(m: Seq<char>) -> Result<(Seq<char>, Seq<char>, Seq<char>), ChatError> {
    match strip_prefix(m, "✉ [MSG] "@) {
        None => Err(ChatError::DmMissingPrefix),
        Some(content) => match split_once(content, " → "@) {
            None => Err(ChatError::DmMissingArrow),
            Some((from, rest)) => match split_once(rest, seq![' ']) {
                None => Err(ChatError::DmMissingMessage),
                Some((to, text)) => Ok((from, to, text)),
            },
        },
    }
}

/// A message without the placeholder is said as it is, whatever name would
/// fill the placeholder.
pub proof fn law_forward_without_placeholder(text: Seq<char>, name: Seq<char>)
    requires
        !contains(text, placeholder()),
    ensures
        replace_all(text, placeholder(), name) == text,
{
    lemma_replace_absent(text, placeholder(), name);
}

/// What the bot says on a direct message from `from`: with a trusted player
/// configured, a message from that player is said aloud (once per listed
/// player, with the placeholder replaced by the player's name, where it holds
/// the placeholder), and messages from others are ignored; with none
/// configured, the sender is told that nobody reads the message.
pub open spec fn spec_dm_commands(
    from: Seq<char>,
    text: Seq<char>,
    sudo: Option<Seq<char>>,
    tab: Seq<Seq<char>>,
) -> Seq<Seq<char>> {
    match sudo {
        Some(p) => if from == p {
            if contains(text, placeholder()) {
                Seq::new(tab.len(), |i: int| replace_all(text, placeholder(), tab[i]))
            } else {
                seq![text]
            }
        } else {
            seq![]
        },
        None => seq!["/msg "@ + from + " Hi! this is a bot, and your message goes to nowhere ..."@],
    }
}

/// The commands that a chat line owes as a direct message, or why it cannot be read as one.
pub open spec fn spec_dm_step(m: Seq<char>, sudo: Option<Seq<char>>, tab: Seq<Seq<char>>) -> Result<
    Seq<Seq<char>>,
    ChatError,
> {
    if starts_with(m, "✉ [MSG]"@) {
        match spec_parse_dm(m) {
            Err(e) => Err(e),
            Ok((from, _to, text)) => Ok(spec_dm_commands(from, text, sudo, tab)),
        }
    } else {
        Ok(seq![])
    }
}

/// Reads a direct message into sender, receiver and text.
pub fn parse_dm(m: &[char]) -> (r: Result<(Vec<char>, Vec<char>, Vec<char>), ChatError>)
    ensures
        match (r, spec_parse_dm(m@)) {
            (Ok((f, t, x)), Ok((sf, st, sx))) => f@ == sf && t@ == st && x@ == sx,
            (Err(e), Err(se)) => e == se,
            _ => false,
        },
{
    let content = match strip_prefix_chars(m, &chars_of("✉ [MSG] ")) {
        None => {
            return Err(ChatError::DmMissingPrefix);
        },
        Some(c) => c,
    };
    let (from, rest) = match split_once_chars(&content, &chars_of(" → ")) {
        None => {
            return Err(ChatError::DmMissingArrow);
        },
        Some(parts) => parts,
    };
    let space = [' '];
    assert(space@ =~= seq![' ']);
    match split_once_chars(&rest, &space) {
        None => Err(ChatError::DmMissingMessage),
        Some((to, text)) => Ok((from, to, text)),
    }
}

/// Adds to `commands` what the bot says on a direct message from `from` to
/// `to` (see `spec_dm_commands`).
pub fn on_message_dm(
    from: &[char],
    to: &[char],
    text: &[char],
    sudo_player: &Option<String>,
    tab_names: &Vec<String>,
    commands: &mut Vec<String>,
)
    ensures
        string_views(final(commands)@) == string_views(old(commands)@) + spec_dm_commands(
            from@,
            text@,
            opt_view(*sudo_player),
            string_views(tab_names@),
        ),
{
    let ghost start = string_views(commands@);
    match sudo_player {
        Some(player) => {
            if string_of(from) == *player {
                let pat = ['{', '}'];
                assert(pat@ =~= placeholder());
                if contains_chars(text, &pat) {
                    let mut i: usize = 0;
                    while i < tab_names.len()
                        invariant
                            i <= tab_names@.len(),
                            pat@ == placeholder(),
                            string_views(commands@) == start + Seq::new(
                                i as nat,
                                |k: int| replace_all(text@, placeholder(), tab_names@[k]@),
                            ),
                        decreases tab_names@.len() - i,
                    {
                        let name = chars_of(tab_names[i].as_str());
                        let line = replace_all_chars(text, &pat, &name);
                        let ghost before = string_views(commands@);
                        commands.push(string_of(&line));
                        assert(string_views(commands@) =~= before.push(line@));
                        i = i + 1;
                        assert(string_views(commands@) =~= start + Seq::new(
                            i as nat,
                            |k: int| replace_all(text@, placeholder(), tab_names@[k]@),
                        ));
                    }
                    assert(string_views(tab_names@).len() == tab_names@.len());
                    assert(Seq::new(
                        tab_names@.len() as nat,
                        |k: int| replace_all(text@, placeholder(), tab_names@[k]@),
                    ) =~= Seq::new(
                        string_views(tab_names@).len(),
                        |k: int| replace_all(text@, placeholder(), string_views(tab_names@)[k]),
                    ));
                } else {
                    commands.push(string_of(text));
                    assert(string_views(commands@) =~= start + seq![text@]);
                }
            } else {
                assert(start + Seq::<Seq<char>>::empty() =~= start);
            }
        },
        None => {
            let head = concat_chars(&chars_of("/msg "), from);
            let line = concat_chars(
                &head,
                &chars_of(" Hi! this is a bot, and your message goes to nowhere ..."),
            );
            commands.push(string_of(&line));
            assert(string_views(commands@) =~= start + seq![line@]);
        },
    }
}

// ---------------------------------------------------------------------------
// Chat lines
// ---------------------------------------------------------------------------
/// The rank lists that the server sends, each recognised by how its line begins.
#[derive(Debug, Clone, Copy, PartialEq, Eq, Structural)]
pub enum RankList {
    Residents,
    Mayor,
    CoMayor,
    Assistant,
    Helper,
    Recruiter,
    Builder,
    Vip,
    Sheriff,
    Trusted,
}

/// The rank list that a chat line begins, if any.
pub open spec fn spec_rank_list_of(m: Seq<char>) -> Option<RankList> {
    if starts_with(m, "Residents"@) {
        Some(RankList::Residents)
    } else if starts_with(m, "Mayor"@) {
        Some(RankList::Mayor)
    } else if starts_with(m, "Co-mayor"@) {
        Some(RankList::CoMayor)
    } else if starts_with(m, "Assistant"@) {
        Some(RankList::Assistant)
    } else if starts_with(m, "Helper"@) {
        Some(RankList::Helper)
    } else if starts_with(m, "Recruiter"@) {
        Some(RankList::Recruiter)
    } else if starts_with(m, "Builder"@) {
        Some(RankList::Builder)
    } else if starts_with(m, "Vip"@) {
        Some(RankList::Vip)
    } else if starts_with(m, "Sheriff"@) {
        Some(RankList::Sheriff)
    } else if starts_with(m, "Trusted"@) {
        Some(RankList::Trusted)
    } else {
        None
    }
}

/// The town list that a rank list adds to; the mayor's is kept apart.
pub open spec fn rank_list_target(l: RankList) -> Option<TownRank> {
    match l {
        RankList::Residents => Some(TownRank::Residents),
        RankList::Mayor => None,
        RankList::CoMayor => Some(TownRank::Comayors),
        RankList::Assistant => Some(TownRank::Assistants),
        RankList::Helper => Some(TownRank::Helpers),
        RankList::Recruiter => Some(TownRank::Recruiters),
        RankList::Builder => Some(TownRank::Builders),
        RankList::Vip => Some(TownRank::Vips),
        RankList::Sheriff => Some(TownRank::Sheriffs),
        RankList::Trusted => Some(TownRank::Trusteds),
    }
}

/// Whether the names of a rank list are reduced to residents: all but the
/// residents' and the trusted players' lists are.
pub open spec fn rank_list_is_cleaned(l: RankList) -> bool {
    l != RankList::Residents && l != RankList::Trusted
}

/// The names that a rank list line carries.
pub open spec fn spec_rank_list_names(l: RankList, m: Seq<char>, residents: Set<Seq<char>>) -> Result<
    Set<Seq<char>>,
    ChatError,
> {
    if rank_list_is_cleaned(l) {
        match spec_parse_towny_list_cleaned(m, residents) {
            Ok((_k, _n, names)) => Ok(names),
            Err(e) => Err(e),
        }
    } else {
        match spec_parse_towny_list(m) {
            Ok((_k, _n, names)) => Ok(names),
            Err(e) => Err(e),
        }
    }
}

/// How a chat line changes the town lists, and what comes of it.
pub open spec fn spec_rank_list_outcome(
    old: &State,
    new: &State,
    m: Seq<char>,
    result: Result<(), ChatError>,
) -> bool {
    match spec_rank_list_of(m) {
        None => result is Ok && new.same_town(old),
        Some(l) => match spec_rank_list_names(l, m, old.town_residents@) {
            Err(e) => result == Err::<(), ChatError>(e) && new.same_town(old),
            Ok(names) => match rank_list_target(l) {
                Some(t) => {
                    &&& result is Ok
                    &&& new.rank(t) == old.rank(t).union(names)
                    &&& new.same_town_except(old, t)
                },
                None => if names.is_empty() {
                    result == Err::<(), ChatError>(ChatError::EmptyList) && new.same_town(old)
                } else {
                    &&& result is Ok
                    &&& names.contains(new.town_mayor@)
                    &&& forall|r: TownRank| #[trigger] new.rank(r) == old.rank(r)
                },
            },
        },
    }
}

/// The commands with which the bot settles in on joining the town.
pub open spec fn towny_join_commands() -> Seq<Seq<char>> {
    seq!["/pvp on"@, "/t"@, "/t reslist"@, "/t ranklist"@, "/msg Lestallum INIT_END"@]
}

/// How a chat line `m` changes the bot's state from `old` to `new`, with
/// the commands `commands` sent and the outcome `result`: a direct message is
/// read first, the town's greeting next, a rank list last, and a line that
/// cannot be read stops there.
pub open spec fn spec_chat_outcome(
    old: &State,
    new: &State,
    m: Seq<char>,
    sudo: Option<Seq<char>>,
    tab: Seq<Seq<char>>,
    commands: Seq<Seq<char>>,
    result: Result<(), ChatError>,
) -> bool {
    match spec_dm_step(m, sudo, tab) {
        Err(e) => {
            &&& result == Err::<(), ChatError>(e)
            &&& commands.len() == 0
            &&& *new == *old
        },
        Ok(dm) => {
            let joins = contains(m, "[+] Lestallum"@);
            &&& commands == dm + (if joins {
                towny_join_commands()
            } else {
                Seq::<Seq<char>>::empty()
            })
            &&& new.on_towny == (old.on_towny || joins)
            &&& new.shutdown_signal_sent == old.shutdown_signal_sent
            &&& spec_rank_list_outcome(old, new, m, result)
        },
    }
}

/// A chat line that is no direct message, no greeting and no rank list
/// changes nothing and is answered by nothing.
pub proof fn law_other_lines_change_nothing(
    old: &State,
    new: &State,
    m: Seq<char>,
    sudo: Option<Seq<char>>,
    tab: Seq<Seq<char>>,
    commands: Seq<Seq<char>>,
    result: Result<(), ChatError>,
)
    requires
        !starts_with(m, "✉ [MSG]"@),
        !contains(m, "[+] Lestallum"@),
        spec_rank_list_of(m) is None,
        spec_chat_outcome(old, new, m, sudo, tab, commands, result),
    ensures
        commands.len() == 0,
        result is Ok,
        new.same_town(old),
        new.on_towny == old.on_towny,
{
    assert(Seq::<Seq<char>>::empty() + Seq::<Seq<char>>::empty() =~= Seq::<Seq<char>>::empty());
}

/// What the bot does on a chat line: the commands it sends, in order, and
/// whether the line could be handled.
pub struct ChatReaction {
    pub commands: Vec<String>,
    pub result: Result<(), ChatError>,
}

/// The rank list that a chat line begins, if any.
pub fn rank_list_of(m: &[char]) -> (r: Option<RankList>)
    ensures
        r == spec_rank_list_of(m@),
{
    if starts_with_chars(m, &chars_of("Residents")) {
        Some(RankList::Residents)
    } else if starts_with_chars(m, &chars_of("Mayor")) {
        Some(RankList::Mayor)
    } else if starts_with_chars(m, &chars_of("Co-mayor")) {
        Some(RankList::CoMayor)
    } else if starts_with_chars(m, &chars_of("Assistant")) {
        Some(RankList::Assistant)
    } else if starts_with_chars(m, &chars_of("Helper")) {
        Some(RankList::Helper)
    } else if starts_with_chars(m, &chars_of("Recruiter")) {
        Some(RankList::Recruiter)
    } else if starts_with_chars(m, &chars_of("Builder")) {
        Some(RankList::Builder)
    } else if starts_with_chars(m, &chars_of("Vip")) {
        Some(RankList::Vip)
    } else if starts_with_chars(m, &chars_of("Sheriff")) {
        Some(RankList::Sheriff)
    } else if starts_with_chars(m, &chars_of("Trusted")) {
        Some(RankList::Trusted)
    } else {
        None
    }
}

/// The town list that a rank list adds to.
pub fn rank_list_target_exec(l: RankList) -> (r: Option<TownRank>)
    ensures
        r == rank_list_target(l),
{
    match l {
        RankList::Residents => Some(TownRank::Residents),
        RankList::Mayor => None,
        RankList::CoMayor => Some(TownRank::Comayors),
        RankList::Assistant => Some(TownRank::Assistants),
        RankList::Helper => Some(TownRank::Helpers),
        RankList::Recruiter => Some(TownRank::Recruiters),
        RankList::Builder => Some(TownRank::Builders),
        RankList::Vip => Some(TownRank::Vips),
        RankList::Sheriff => Some(TownRank::Sheriffs),
        RankList::Trusted => Some(TownRank::Trusteds),
    }
}

/// Applies a rank list line to the town lists.
pub fn apply_rank_list(state: &mut State, m: &[char]) -> (r: Result<(), ChatError>)
    ensures
        spec_rank_list_outcome(old(state), final(state), m@, r),
        final(state).on_towny == old(state).on_towny,
        final(state).shutdown_signal_sent == old(state).shutdown_signal_sent,
{
    let l = match rank_list_of(m) {
        None => {
            return Ok(());
        },
        Some(l) => l,
    };
    let names = if l != RankList::Residents && l != RankList::Trusted {
        match parse_towny_list_cleaned(m, &state.town_residents) {
            Err(e) => {
                return Err(e);
            },
            Ok((_key, _count, names)) => names,
        }
    } else {
        match parse_towny_list(m) {
            Err(e) => {
                return Err(e);
            },
            Ok((_key, _count, names)) => names,
        }
    };
    match rank_list_target_exec(l) {
        Some(t) => {
            state.extend_rank(t, &names);
            Ok(())
        },
        None => match names.first() {
            None => Err(ChatError::EmptyList),
            Some(mayor) => {
                state.town_mayor = mayor;
                Ok(())
            },
        },
    }
}

/// Handles a chat line: reads it as a direct message where it is one, answers
/// the town's greeting, and records the rank lists that the server sends. The
/// line is read as a direct message first, the greeting next, a rank list
/// last; a line that cannot be read stops there, with what was sent and
/// recorded until then kept. The town lists only ever grow.
pub fn handle_chat(
    state: &mut State,
    message: &str,
    sudo_player: &Option<String>,
    tab_names: &Vec<String>,
) -> (r: ChatReaction)
    ensures
        spec_chat_outcome(
            old(state),
            final(state),
            message@,
            opt_view(*sudo_player),
            string_views(tab_names@),
            string_views(r.commands@),
            r.result,
        ),
        final(state).knows_at_least(old(state)),
        old(state).on_towny ==> final(state).on_towny,
{
    let m = chars_of(message);
    let mut commands: Vec<String> = Vec::new();
    if starts_with_chars(&m, &chars_of("✉ [MSG]")) {
        match parse_dm(&m) {
            Err(e) => {
                return ChatReaction { commands, result: Err(e) };
            },
            Ok((from, to, text)) => {
                on_message_dm(&from, &to, &text, sudo_player, tab_names, &mut commands);
            },
        }
    }
    let ghost dm = string_views(commands@);
    if contains_chars(&m, &chars_of("[+] Lestallum")) {
        state.on_towny = true;
        commands.push("/pvp on".to_owned());
        commands.push("/t".to_owned());
        commands.push("/t reslist".to_owned());
        commands.push("/t ranklist".to_owned());
        commands.push("/msg Lestallum INIT_END".to_owned());
        assert(string_views(commands@) =~= dm + towny_join_commands());
    } else {
        assert(string_views(commands@) =~= dm + Seq::<Seq<char>>::empty());
    }
    let ghost mid = *state;
    let result = apply_rank_list(state, &m);
    proof {
        assert forall|t: TownRank| #[trigger] old(state).rank(t).subset_of(state.rank(t)) by {
            assert(mid.rank(t) == old(state).rank(t));
        }
    }
    ChatReaction { commands, result }
}

// ---------------------------------------------------------------------------
// What the readings are for
// ---------------------------------------------------------------------------
/// A name made only of ASCII letters and digits names itself: reducing it
/// keeps every one of its characters, whoever the residents are.
pub proof fn law_alphanumeric_name_is_kept(w: Seq<char>, residents: Set<Seq<char>>)
    requires
        forall|i: int|
            0 <= i < w.len() ==> ('a' <= #[trigger] w[i] <= 'z') || ('A' <= w[i] <= 'Z') || ('0'
                <= w[i] <= '9'),
    ensures
        spec_clean_resident_name(w, residents) == Some(w),
{
    assert forall|i: int| 0 <= i < w.len() implies is_name_char(#[trigger] w[i]) && w[i] != ' ' by {
        assert(('a' <= w[i] <= 'z') || ('A' <= w[i] <= 'Z') || ('0' <= w[i] <= '9'));
    }
    lemma_clean_of_plain_name(w, residents);
}

/// A name that still holds a space after its reduction, a title before the
/// name, reduces to one of its words that is a known resident, never to
/// text that is not a resident.
pub proof fn law_titled_name_reduces_to_a_resident(name: Seq<char>, residents: Set<Seq<char>>)
    requires
        contains(trim(keep_name_chars(name)), seq![' ']),
        spec_clean_resident_name(name, residents) is Some,
    ensures
        residents.contains(spec_clean_resident_name(name, residents)->Some_0),
        spec_clean_resident_name(name, residents)->Some_0.len() > 0,
{
    lemma_first_resident(split_on(trim(keep_name_chars(name)), ' '), residents);
}

/// A rank list whose title holds no `[` counts 1, whatever names it lists,
/// and its title is the trimmed text before the first `:`.
pub proof fn law_count_without_brackets_is_one(m: Seq<char>, head: Seq<char>, list: Seq<char>)
    requires
        split_once(m, seq![':']) == Some((head, list)),
        forall|i: int| 0 <= i < trim(head).len() ==> #[trigger] trim(head)[i] != '[',
    ensures
        spec_parse_towny_list(m) matches Ok((key, count, _names)) && count == 1 && key == trim(
            head,
        ),
{
    lemma_find(trim(head), seq!['[']);
    if contains(trim(head), seq!['[']) {
        let i = choose|i: int| occurs_at(trim(head), seq!['['], i);
        assert(trim(head).subrange(i, i + 1)[0] == trim(head)[i]);
    }
}

/// A message from the trusted player without the `{}` placeholder is said
/// exactly once, as it is, however many players are listed.
pub proof fn law_plain_message_is_said_once(
    from: Seq<char>,
    text: Seq<char>,
    player: Seq<char>,
    tab: Seq<Seq<char>>,
)
    requires
        from == player,
        !contains(text, seq!['{', '}']),
    ensures
        spec_dm_commands(from, text, Some(player), tab) == seq![text],
{
    assert(placeholder() =~= seq!['{', '}']);
}

/// A message from the trusted player with the `{}` placeholder is said once
/// per listed player, in the order listed, each time with that player's name
/// where the placeholder stood; with nobody listed it is not said.
pub proof fn law_placeholder_message_is_said_per_player(
    from: Seq<char>,
    text: Seq<char>,
    player: Seq<char>,
    tab: Seq<Seq<char>>,
)
    requires
        from == player,
        contains(text, seq!['{', '}']),
    ensures
        spec_dm_commands(from, text, Some(player), tab).len() == tab.len(),
        forall|i: int|
            0 <= i < tab.len() ==> #[trigger] spec_dm_commands(from, text, Some(player), tab)[i]
                == replace_all(text, seq!['{', '}'], tab[i]),
{
    assert(placeholder() =~= seq!['{', '}']);
}

/// A message from anyone but the trusted player is not said; with no trusted
/// player, the sender is answered once, by name.
pub proof fn law_other_senders_are_not_obeyed(
    from: Seq<char>,
    text: Seq<char>,
    sudo: Option<Seq<char>>,
    tab: Seq<Seq<char>>,
)
    ensures
        sudo matches Some(p) && from != p ==> spec_dm_commands(from, text, sudo, tab).len() == 0,
        sudo is None ==> spec_dm_commands(from, text, sudo, tab) == seq![
            "/msg "@ + from + " Hi! this is a bot, and your message goes to nowhere ..."@,
        ],
{
}


/// `m` begins with `p`, so it does not begin with a `q` that differs from
/// `p` at position `k`.
pub proof fn lemma_prefixes_differ(m: Seq<char>, p: Seq<char>, q: Seq<char>, k: int)
    requires
        starts_with(m, p),
        0 <= k < p.len(),
        k < q.len(),
        p[k] != q[k],
    ensures
        !starts_with(m, q),
{
    if starts_with(m, q) {
        assert(m.subrange(0, p.len() as int)[k] == m[k]);
        assert(m.subrange(0, q.len() as int)[k] == m[k]);
    }
}

/// The title with which the server begins the rank list of a town list.
pub open spec fn rank_title(r: TownRank) -> Seq<char> {
    match r {
        TownRank::Residents => "Residents"@,
        TownRank::Comayors => "Co-mayor"@,
        TownRank::Assistants => "Assistant"@,
        TownRank::Builders => "Builder"@,
        TownRank::Helpers => "Helper"@,
        TownRank::Recruiters => "Recruiter"@,
        TownRank::Sheriffs => "Sheriff"@,
        TownRank::Vips => "Vip"@,
        TownRank::Trusteds => "Trusted"@,
    }
}

/// A rank list line that is handled adds its names to the town list of its
/// own title, and to no other: the residents' and trusted players' lists
/// take the names as listed, the others the residents they name. The mayor
/// stays as it was.
pub proof fn law_rank_list_fills_its_own_list(
    old: &State,
    new: &State,
    m: Seq<char>,
    sudo: Option<Seq<char>>,
    tab: Seq<Seq<char>>,
    commands: Seq<Seq<char>>,
    result: Result<(), ChatError>,
    r: TownRank,
)
    requires
        starts_with(m, rank_title(r)),
        spec_chat_outcome(old, new, m, sudo, tab, commands, result),
        result is Ok,
    ensures
        match (if r == TownRank::Residents || r == TownRank::Trusteds {
            spec_parse_towny_list(m)
        } else {
            spec_parse_towny_list_cleaned(m, old.town_residents@)
        }) {
            Ok((_key, _count, names)) => {
                &&& new.rank(r) == old.rank(r).union(names)
                &&& forall|j: TownRank| j != r ==> #[trigger] new.rank(j) == old.rank(j)
                &&& new.town_mayor@ == old.town_mayor@
            },
            Err(_) => false,
        },
{
    reveal_strlit("Residents");
    reveal_strlit("Mayor");
    reveal_strlit("Co-mayor");
    reveal_strlit("Assistant");
    reveal_strlit("Helper");
    reveal_strlit("Recruiter");
    reveal_strlit("Builder");
    reveal_strlit("Vip");
    reveal_strlit("Sheriff");
    reveal_strlit("Trusted");
    reveal_strlit("✉ [MSG]");
    if r == TownRank::Residents {
        lemma_prefixes_differ(m, "Residents"@, "✉ [MSG]"@, 0);
    }
    if r == TownRank::Comayors {
        lemma_prefixes_differ(m, "Co-mayor"@, "Residents"@, 0);
        lemma_prefixes_differ(m, "Co-mayor"@, "Mayor"@, 0);
        lemma_prefixes_differ(m, "Co-mayor"@, "✉ [MSG]"@, 0);
    }
    if r == TownRank::Assistants {
        lemma_prefixes_differ(m, "Assistant"@, "Residents"@, 0);
        lemma_prefixes_differ(m, "Assistant"@, "Mayor"@, 0);
        lemma_prefixes_differ(m, "Assistant"@, "Co-mayor"@, 0);
        lemma_prefixes_differ(m, "Assistant"@, "✉ [MSG]"@, 0);
    }
    if r == TownRank::Helpers {
        lemma_prefixes_differ(m, "Helper"@, "Residents"@, 0);
        lemma_prefixes_differ(m, "Helper"@, "Mayor"@, 0);
        lemma_prefixes_differ(m, "Helper"@, "Co-mayor"@, 0);
        lemma_prefixes_differ(m, "Helper"@, "Assistant"@, 0);
        lemma_prefixes_differ(m, "Helper"@, "✉ [MSG]"@, 0);
    }
    if r == TownRank::Recruiters {
        lemma_prefixes_differ(m, "Recruiter"@, "Residents"@, 2);
        lemma_prefixes_differ(m, "Recruiter"@, "Mayor"@, 0);
        lemma_prefixes_differ(m, "Recruiter"@, "Co-mayor"@, 0);
        lemma_prefixes_differ(m, "Recruiter"@, "Assistant"@, 0);
        lemma_prefixes_differ(m, "Recruiter"@, "Helper"@, 0);
        lemma_prefixes_differ(m, "Recruiter"@, "✉ [MSG]"@, 0);
    }
    if r == TownRank::Builders {
        lemma_prefixes_differ(m, "Builder"@, "Residents"@, 0);
        lemma_prefixes_differ(m, "Builder"@, "Mayor"@, 0);
        lemma_prefixes_differ(m, "Builder"@, "Co-mayor"@, 0);
        lemma_prefixes_differ(m, "Builder"@, "Assistant"@, 0);
        lemma_prefixes_differ(m, "Builder"@, "Helper"@, 0);
        lemma_prefixes_differ(m, "Builder"@, "Recruiter"@, 0);
        lemma_prefixes_differ(m, "Builder"@, "✉ [MSG]"@, 0);
    }
    if r == TownRank::Vips {
        lemma_prefixes_differ(m, "Vip"@, "Residents"@, 0);
        lemma_prefixes_differ(m, "Vip"@, "Mayor"@, 0);
        lemma_prefixes_differ(m, "Vip"@, "Co-mayor"@, 0);
        lemma_prefixes_differ(m, "Vip"@, "Assistant"@, 0);
        lemma_prefixes_differ(m, "Vip"@, "Helper"@, 0);
        lemma_prefixes_differ(m, "Vip"@, "Recruiter"@, 0);
        lemma_prefixes_differ(m, "Vip"@, "Builder"@, 0);
        lemma_prefixes_differ(m, "Vip"@, "✉ [MSG]"@, 0);
    }
    if r == TownRank::Sheriffs {
        lemma_prefixes_differ(m, "Sheriff"@, "Residents"@, 0);
        lemma_prefixes_differ(m, "Sheriff"@, "Mayor"@, 0);
        lemma_prefixes_differ(m, "Sheriff"@, "Co-mayor"@, 0);
        lemma_prefixes_differ(m, "Sheriff"@, "Assistant"@, 0);
        lemma_prefixes_differ(m, "Sheriff"@, "Helper"@, 0);
        lemma_prefixes_differ(m, "Sheriff"@, "Recruiter"@, 0);
        lemma_prefixes_differ(m, "Sheriff"@, "Builder"@, 0);
        lemma_prefixes_differ(m, "Sheriff"@, "Vip"@, 0);
        lemma_prefixes_differ(m, "Sheriff"@, "✉ [MSG]"@, 0);
    }
    if r == TownRank::Trusteds {
        lemma_prefixes_differ(m, "Trusted"@, "Residents"@, 0);
        lemma_prefixes_differ(m, "Trusted"@, "Mayor"@, 0);
        lemma_prefixes_differ(m, "Trusted"@, "Co-mayor"@, 0);
        lemma_prefixes_differ(m, "Trusted"@, "Assistant"@, 0);
        lemma_prefixes_differ(m, "Trusted"@, "Helper"@, 0);
        lemma_prefixes_differ(m, "Trusted"@, "Recruiter"@, 0);
        lemma_prefixes_differ(m, "Trusted"@, "Builder"@, 0);
        lemma_prefixes_differ(m, "Trusted"@, "Vip"@, 0);
        lemma_prefixes_differ(m, "Trusted"@, "Sheriff"@, 0);
        lemma_prefixes_differ(m, "Trusted"@, "✉ [MSG]"@, 0);
    }
}

/// A mayor's line that is handled makes one of the residents it names the
/// mayor and leaves every town list as it was.
pub proof fn law_mayor_line_names_the_mayor(
    old: &State,
    new: &State,
    m: Seq<char>,
    sudo: Option<Seq<char>>,
    tab: Seq<Seq<char>>,
    commands: Seq<Seq<char>>,
    result: Result<(), ChatError>,
)
    requires
        starts_with(m, "Mayor"@),
        spec_chat_outcome(old, new, m, sudo, tab, commands, result),
        result is Ok,
    ensures
        spec_parse_towny_list_cleaned(m, old.town_residents@) matches Ok((_key, _count, names))
            && names.contains(new.town_mayor@),
        forall|j: TownRank| #[trigger] new.rank(j) == old.rank(j),
{
    reveal_strlit("Residents");
    reveal_strlit("Mayor");
    reveal_strlit("Co-mayor");
    reveal_strlit("Assistant");
    reveal_strlit("Helper");
    reveal_strlit("Recruiter");
    reveal_strlit("Builder");
    reveal_strlit("Vip");
    reveal_strlit("Sheriff");
    reveal_strlit("Trusted");
    reveal_strlit("✉ [MSG]");
        lemma_prefixes_differ(m, "Mayor"@, "Residents"@, 0);
        lemma_prefixes_differ(m, "Mayor"@, "✉ [MSG]"@, 0);
}


/// A name of ASCII letters, digits, `_` and `*` names itself, whoever the
/// residents are.
pub proof fn law_plain_name_is_kept(w: Seq<char>, residents: Set<Seq<char>>)
    requires
        forall|i: int|
            0 <= i < w.len() ==> ('a' <= #[trigger] w[i] <= 'z') || ('A' <= w[i] <= 'Z') || ('0'
                <= w[i] <= '9') || w[i] == '_' || w[i] == '*',
    ensures
        spec_clean_resident_name(w, residents) == Some(w),
{
    assert forall|i: int| 0 <= i < w.len() implies is_name_char(#[trigger] w[i]) && w[i] != ' ' by {
        assert(('a' <= w[i] <= 'z') || ('A' <= w[i] <= 'Z') || ('0' <= w[i] <= '9') || w[i] == '_'
            || w[i] == '*');
    }
    lemma_clean_of_plain_name(w, residents);
}

/// A reduced name holds only ASCII letters, digits, `_` and `*`: every
/// other character, the space included, is gone.
pub proof fn law_reduced_names_hold_only_name_characters(name: Seq<char>, residents: Set<Seq<char>>)
    requires
        spec_clean_resident_name(name, residents) is Some,
    ensures
        forall|i: int|
            0 <= i < spec_clean_resident_name(name, residents)->Some_0.len() ==> {
                let c = #[trigger] spec_clean_resident_name(name, residents)->Some_0[i];
                ('a' <= c <= 'z') || ('A' <= c <= 'Z') || ('0' <= c <= '9') || c == '_' || c == '*'
            },
{
    let k = keep_name_chars(name);
    let c = trim(k);
    lemma_keep_name_chars(name);
    lemma_trim(k);
    let w = spec_clean_resident_name(name, residents)->Some_0;
    assert forall|j: int| 0 <= j < c.len() implies is_name_char(#[trigger] c[j]) by {
        let i = choose|i: int| 0 <= i < k.len() && k[i] == c[j];
    }
    if !contains(c, seq![' ']) {
        assert forall|j: int| 0 <= j < c.len() implies c[j] != ' ' by {
            if c[j] == ' ' {
                assert(c.subrange(j, j + 1) =~= seq![' ']);
                assert(occurs_at(c, seq![' '], j));
            }
        }
        assert(w == c);
    } else {
        let ps = split_on(c, ' ');
        lemma_first_resident(ps, residents);
        lemma_split_on_pieces(c, ' ');
        let i = choose|i: int| 0 <= i < ps.len() && #[trigger] ps[i] == w;
        assert forall|j: int| 0 <= j < w.len() implies is_name_char(#[trigger] w[j]) && w[j] != ' ' by {
            assert(ps[i][j] == w[j]);
            let kk = choose|kk: int| 0 <= kk < c.len() && c[kk] == ps[i][j];
        }
    }
}

/// A line that carries the town's greeting, and is no direct message, is
/// answered with the five commands of settling in, in order, and the bot
/// knows itself in the town.
pub proof fn law_greeting_is_answered(
    old: &State,
    new: &State,
    m: Seq<char>,
    sudo: Option<Seq<char>>,
    tab: Seq<Seq<char>>,
    commands: Seq<Seq<char>>,
    result: Result<(), ChatError>,
)
    requires
        !starts_with(m, "✉ [MSG]"@),
        contains(m, "[+] Lestallum"@),
        spec_chat_outcome(old, new, m, sudo, tab, commands, result),
    ensures
        commands == seq!["/pvp on"@, "/t"@, "/t reslist"@, "/t ranklist"@, "/msg Lestallum INIT_END"@],
        new.on_towny,
{
    assert(Seq::<Seq<char>>::empty() + towny_join_commands() =~= towny_join_commands());
}


/// A direct message written as `✉ [MSG] <from> → <to> <text>`, with no `→`
/// in the sender's name and no space in the receiver's, is read back as that
/// sender, receiver and text.
pub proof fn law_dm_is_read_back(from: Seq<char>, to: Seq<char>, text: Seq<char>)
    requires
        forall|i: int| 0 <= i < from.len() ==> #[trigger] from[i] != '→',
        forall|i: int| 0 <= i < to.len() ==> #[trigger] to[i] != ' ',
    ensures
        spec_parse_dm("✉ [MSG] "@ + from + " → "@ + to + seq![' '] + text) == Ok::<
            (Seq<char>, Seq<char>, Seq<char>),
            ChatError,
        >((from, to, text)),
{
    reveal_strlit("✉ [MSG] ");
    reveal_strlit(" → ");
    let pre = "✉ [MSG] "@;
    let arrow = " → "@;
    let space = seq![' '];
    let rest = to + space + text;
    let content = from + arrow + rest;
    let m = pre + from + arrow + to + space + text;
    assert(m =~= pre + content);
    assert(m.subrange(0, pre.len() as int) =~= pre);
    assert(m.subrange(pre.len() as int, m.len() as int) =~= content);
    assert(strip_prefix(m, pre) == Some(content));
    // the arrow first occurs right after the sender
    let f = from.len() as int;
    lemma_find(content, arrow);
    assert(content.subrange(f, f + 3) =~= arrow);
    assert(occurs_at(content, arrow, f));
    assert forall|k: int| 0 <= k < f implies !occurs_at(content, arrow, k) by {
        if occurs_at(content, arrow, k) {
            assert(content.subrange(k, k + 3)[1] == content[k + 1]);
            if k + 1 < f {
                assert(content[k + 1] == from[k + 1]);
            } else {
                assert(content[k + 1] == arrow[0]);
            }
        }
    }
    assert(find(content, arrow) == Some(f)) by {
        let j = find(content, arrow)->Some_0;
        if j < f {
            assert(!occurs_at(content, arrow, j));
        }
    }
    assert(content.subrange(0, f) =~= from);
    assert(content.subrange(f + 3, content.len() as int) =~= rest);
    assert(split_once(content, arrow) == Some((from, rest)));
    // the first space of the rest follows the receiver
    let g = to.len() as int;
    lemma_find(rest, space);
    assert(rest.subrange(g, g + 1) =~= space);
    assert(occurs_at(rest, space, g));
    assert forall|k: int| 0 <= k < g implies !occurs_at(rest, space, k) by {
        if occurs_at(rest, space, k) {
            assert(rest.subrange(k, k + 1)[0] == rest[k]);
            assert(rest[k] == to[k]);
        }
    }
    assert(find(rest, space) == Some(g)) by {
        let j = find(rest, space)->Some_0;
        if j < g {
            assert(!occurs_at(rest, space, j));
        }
    }
    assert(rest.subrange(0, g) =~= to);
    assert(rest.subrange(g + 1, rest.len() as int) =~= text);
}


/// A rank list whose title is `<name>[<number>]`, the name holding no `[`,
/// counts what the number reads as, and is titled by the trimmed name; a
/// number that is no count refuses the line.
pub proof fn law_count_in_brackets(
    m: Seq<char>,
    head: Seq<char>,
    list: Seq<char>,
    name: Seq<char>,
    number: Seq<char>,
)
    requires
        split_once(m, seq![':']) == Some((head, list)),
        trim(head) == name + seq!['['] + number + seq![']'],
        forall|i: int| 0 <= i < name.len() ==> #[trigger] name[i] != '[',
    ensures
        spec_parse_towny_list(m) == (match parse_usize(number) {
            Ok(n) => Ok((trim(name), n, spec_parse_list(list))),
            Err(k) => Err(ChatError::InvalidCount(k)),
        }),
{
    let key = trim(head);
    let open = seq!['['];
    let close = seq![']'];
    let rest = number + close;
    let g = name.len() as int;
    assert(key =~= name + open + rest);
    lemma_find(key, open);
    assert(key.subrange(g, g + 1) =~= open);
    assert(occurs_at(key, open, g));
    assert forall|k: int| 0 <= k < g implies !occurs_at(key, open, k) by {
        if occurs_at(key, open, k) {
            assert(key.subrange(k, k + 1)[0] == key[k]);
            assert(key[k] == name[k]);
        }
    }
    assert(find(key, open) == Some(g)) by {
        let j = find(key, open)->Some_0;
        if j < g {
            assert(!occurs_at(key, open, j));
        }
    }
    assert(key.subrange(0, g) =~= name);
    assert(key.subrange(g + 1, key.len() as int) =~= rest);
    assert(split_once(key, open) == Some((name, rest)));
    assert(rest.subrange(rest.len() - 1, rest.len() as int) =~= close);
    assert(rest.subrange(0, rest.len() - 1) =~= number);
    assert(strip_suffix(rest, close) == Some(number));
}

} // verus!
