//! Character-level text operations on chat lines: trimming, searching,
//! splitting and substitution, each stated over `Seq<char>`.
use vstd::prelude::*;

verus! {

// ---------------------------------------------------------------------------
// Specifications
// ---------------------------------------------------------------------------
/// The Unicode `White_Space` property, the set that `char::is_whitespace`,
/// `str::trim` and `str::split_whitespace` go by.
pub open spec fn is_white_space(c: char) -> bool {
    let u = c as u32;
    ||| 0x9 <= u <= 0xd
    ||| u == 0x20
    ||| u == 0x85
    ||| u == 0xa0
    ||| u == 0x1680
    ||| 0x2000 <= u <= 0x200a
    ||| u == 0x2028
    ||| u == 0x2029
    ||| u == 0x202f
    ||| u == 0x205f
    ||| u == 0x3000
}

/// `s` without its leading white space.
pub open spec fn trim_start(s: Seq<char>) -> Seq<char>
    decreases s.len(),
{
    if s.len() > 0 && is_white_space(s[0]) {
        trim_start(s.drop_first())
    } else {
        s
    }
}

/// `s` without its trailing white space.
pub open spec fn trim_end(s: Seq<char>) -> Seq<char>
    decreases s.len(),
{
    if s.len() > 0 && is_white_space(s.last()) {
        trim_end(s.drop_last())
    } else {
        s
    }
}

/// `s` without leading and trailing white space (`str::trim`).
pub open spec fn trim(s: Seq<char>) -> Seq<char> {
    trim_end(trim_start(s))
}

/// `p` occurs in `s` at position `i`.
pub open spec fn occurs_at(s: Seq<char>, p: Seq<char>, i: int) -> bool {
    0 <= i && i + p.len() <= s.len() && s.subrange(i, i + p.len()) == p
}

/// `s` begins with `p`.
pub open spec fn starts_with(s: Seq<char>, p: Seq<char>) -> bool {
    occurs_at(s, p, 0)
}

/// `s` ends with `p`.
pub open spec fn ends_with(s: Seq<char>, p: Seq<char>) -> bool {
    occurs_at(s, p, s.len() - p.len())
}

/// `p` occurs somewhere in `s`.
pub open spec fn contains(s: Seq<char>, p: Seq<char>) -> bool {
    exists|i: int| occurs_at(s, p, i)
}

/// The first position at or after `i` where `p` occurs in `s`.
pub open spec fn find_from(s: Seq<char>, p: Seq<char>, i: int) -> Option<int>
    decreases s.len() + 1 - i,
{
    if i < 0 || i + p.len() > s.len() {
        None
    } else if s.subrange(i, i + p.len()) == p {
        Some(i)
    } else {
        find_from(s, p, i + 1)
    }
}

/// The first position where `p` occurs in `s`.
pub open spec fn find(s: Seq<char>, p: Seq<char>) -> Option<int> {
    find_from(s, p, 0)
}

/// The parts of `s` before and after the first occurrence of `p`
/// (`str::split_once`).
pub open spec fn split_once(s: Seq<char>, p: Seq<char>) -> Option<(Seq<char>, Seq<char>)> {
    match find(s, p) {
        Some(i) => Some((s.subrange(0, i), s.subrange(i + p.len(), s.len() as int))),
        None => None,
    }
}

/// `s` without the prefix `p`, if it has it (`str::strip_prefix`).
pub open spec fn strip_prefix(s: Seq<char>, p: Seq<char>) -> Option<Seq<char>> {
    if starts_with(s, p) {
        Some(s.subrange(p.len() as int, s.len() as int))
    } else {
        None
    }
}

/// `s` without the suffix `p`, if it has it (`str::strip_suffix`).
pub open spec fn strip_suffix(s: Seq<char>, p: Seq<char>) -> Option<Seq<char>> {
    if ends_with(s, p) {
        Some(s.subrange(0, s.len() - p.len()))
    } else {
        None
    }
}

/// The pieces of `s` between the occurrences of `sep` (`str::split` with a
/// character): always at least one piece, empty pieces included.
pub open spec fn split_on(s: Seq<char>, sep: char) -> Seq<Seq<char>>
    decreases s.len(),
{
    if s.len() == 0 {
        seq![Seq::<char>::empty()]
    } else {
        let r = split_on(s.drop_last(), sep);
        if s.last() == sep {
            r.push(Seq::<char>::empty())
        } else {
            r.update(r.len() - 1, r.last().push(s.last()))
        }
    }
}

/// `s` with every non-overlapping occurrence of `pat`, scanned from the left,
/// replaced by `rep` (`str::replace` with a non-empty pattern).
pub open spec fn replace_all(s: Seq<char>, pat: Seq<char>, rep: Seq<char>) -> Seq<char>
    decreases s.len(),
{
    if pat.len() == 0 || s.len() == 0 {
        s
    } else if starts_with(s, pat) {
        rep + replace_all(s.subrange(pat.len() as int, s.len() as int), pat, rep)
    } else {
        seq![s[0]] + replace_all(s.drop_first(), pat, rep)
    }
}

/// An ASCII letter or digit (`char::is_ascii_alphanumeric`).
pub open spec fn is_ascii_alphanumeric(c: char) -> bool {
    ('a' <= c <= 'z') || ('A' <= c <= 'Z') || ('0' <= c <= '9')
}

/// Why a string is not a `usize` (the kinds of `std::num::ParseIntError`
/// that an unsigned integer can give).
#[derive(Debug, Clone, Copy, PartialEq, Eq, Structural)]
pub enum IntErrorKind {
    /// The string is empty.
    Empty,
    /// A character is not a decimal digit, or the sign stands alone.
    InvalidDigit,
    /// The value does not fit.
    PosOverflow,
}

/// A decimal digit.
pub open spec fn is_digit(c: char) -> bool {
    '0' <= c <= '9'
}

/// The value of a decimal digit.
pub open spec fn digit_value(c: char) -> nat {
    ((c as u32) - ('0' as u32)) as nat
}

/// Reads the digits `d` from the left after the value `acc`: the first
/// character that is not a digit, or the first digit that takes the value
/// beyond `usize::MAX`, stops the reading with its error.
pub open spec fn scan_digits(d: Seq<char>, acc: nat) -> Result<nat, IntErrorKind>
    decreases d.len(),
{
    if d.len() == 0 {
        Ok(acc)
    } else if !is_digit(d[0]) {
        Err(IntErrorKind::InvalidDigit)
    } else if acc * 10 + digit_value(d[0]) > usize::MAX {
        Err(IntErrorKind::PosOverflow)
    } else {
        scan_digits(d.drop_first(), acc * 10 + digit_value(d[0]))
    }
}

/// What `str::parse::<usize>` gives back: an optional `+` and then decimal
/// digits, of a value that fits.
pub open spec fn parse_usize(s: Seq<char>) -> Result<usize, IntErrorKind> {
    if s.len() == 0 {
        Err(IntErrorKind::Empty)
    } else if s.len() == 1 && (s[0] == '+' || s[0] == '-') {
        Err(IntErrorKind::InvalidDigit)
    } else {
        let d = if s[0] == '+' {
            s.drop_first()
        } else {
            s
        };
        match scan_digits(d, 0) {
            Ok(v) => Ok(v as usize),
            Err(e) => Err(e),
        }
    }
}

// ---------------------------------------------------------------------------
// Lemmas
// ---------------------------------------------------------------------------
/// `find_from` gives the first occurrence at or after `i`.
pub proof fn lemma_find_from(s: Seq<char>, p: Seq<char>, i: int)
    requires
        0 <= i,
    ensures
        match find_from(s, p, i) {
            Some(j) => i <= j && occurs_at(s, p, j) && forall|k: int|
                i <= k < j ==> !occurs_at(s, p, k),
            None => forall|k: int| i <= k ==> !occurs_at(s, p, k),
        },
    decreases s.len() + 1 - i,
{
    if i + p.len() > s.len() {
    } else if s.subrange(i, i + p.len()) == p {
    } else {
        lemma_find_from(s, p, i + 1);
    }
}

/// `find` is the first occurrence, and is absent exactly when `p` does not occur.
pub proof fn lemma_find(s: Seq<char>, p: Seq<char>)
    ensures
        find(s, p) is Some <==> contains(s, p),
        match find(s, p) {
            Some(j) => occurs_at(s, p, j) && forall|k: int| 0 <= k < j ==> !occurs_at(s, p, k),
            None => forall|k: int| !occurs_at(s, p, k),
        },
{
    lemma_find_from(s, p, 0);
}

/// Trimming twice trims no more than once.
pub proof fn lemma_trim_start_idempotent(s: Seq<char>)
    ensures
        trim_start(trim_start(s)) == trim_start(s),
        trim_start(s).len() > 0 ==> !is_white_space(trim_start(s)[0]),
    decreases s.len(),
{
    if s.len() > 0 && is_white_space(s[0]) {
        lemma_trim_start_idempotent(s.drop_first());
    }
}

/// A string that does not start with white space keeps its start when its end is trimmed.
pub proof fn lemma_trim_end_keeps_start(s: Seq<char>)
    ensures
        trim_end(s).len() > 0 ==> trim_end(s)[0] == s[0],
        trim_end(s).len() <= s.len(),
        trim_end(s) == s.subrange(0, trim_end(s).len() as int),
        trim_end(s).len() > 0 ==> !is_white_space(trim_end(s).last()),
    decreases s.len(),
{
    if s.len() > 0 && is_white_space(s.last()) {
        lemma_trim_end_keeps_start(s.drop_last());
        assert(s.drop_last().subrange(0, trim_end(s).len() as int) =~= s.subrange(
            0,
            trim_end(s).len() as int,
        ));
    } else {
        assert(s.subrange(0, s.len() as int) =~= s);
    }
}

/// `trim_start` removes a prefix.
pub proof fn lemma_trim_start_suffix(s: Seq<char>)
    ensures
        trim_start(s).len() <= s.len(),
        trim_start(s) == s.subrange(s.len() - trim_start(s).len(), s.len() as int),
    decreases s.len(),
{
    if s.len() > 0 && is_white_space(s[0]) {
        lemma_trim_start_suffix(s.drop_first());
        assert(s.drop_first().subrange(
            s.drop_first().len() - trim_start(s).len(),
            s.drop_first().len() as int,
        ) =~= s.subrange(s.len() - trim_start(s).len(), s.len() as int));
    } else {
        assert(s.subrange(0, s.len() as int) =~= s);
    }
}

/// A string with no white space at its ends is its own trim.
pub proof fn lemma_trim_of_untrimmable(s: Seq<char>)
    requires
        s.len() > 0 ==> !is_white_space(s[0]) && !is_white_space(s.last()),
    ensures
        trim(s) == s,
{
}

/// `trim` is idempotent, and what it gives back is a piece of its argument.
pub proof fn lemma_trim(s: Seq<char>)
    ensures
        trim(trim(s)) == trim(s),
        trim(s).len() <= s.len(),
        forall|j: int|
            0 <= j < trim(s).len() ==> exists|k: int| 0 <= k < s.len() && s[k] == #[trigger] trim(s)[j],
        trim(s).len() > 0 ==> !is_white_space(trim(s)[0]) && !is_white_space(trim(s).last()),
{
    let t = trim_start(s);
    lemma_trim_start_idempotent(s);
    lemma_trim_start_suffix(s);
    lemma_trim_end_keeps_start(t);
    let r = trim_end(t);
    if r.len() > 0 {
        assert(r[0] == t[0]);
    }
    lemma_trim_of_untrimmable(r);
    let a = s.len() - t.len();
    assert forall|j: int| 0 <= j < r.len() implies exists|k: int| 0 <= k < s.len() && s[k] == #[trigger] r[j] by {
        assert(r[j] == t[j]);
        assert(t[j] == s[a + j]);
    }
}

/// The pieces of `split_on` never hold the separator, and each is a run of `s`.
pub proof fn lemma_split_on_pieces(s: Seq<char>, sep: char)
    ensures
        split_on(s, sep).len() >= 1,
        forall|i: int, j: int|
            0 <= i < split_on(s, sep).len() && 0 <= j < split_on(s, sep)[i].len() ==> #[trigger] split_on(
                s,
                sep,
            )[i][j] != sep,
        forall|i: int, j: int|
            0 <= i < split_on(s, sep).len() && 0 <= j < split_on(s, sep)[i].len() ==> exists|k: int|
                0 <= k < s.len() && s[k] == #[trigger] split_on(s, sep)[i][j],
    decreases s.len(),
{
    if s.len() > 0 {
        lemma_split_on_pieces(s.drop_last(), sep);
        let r = split_on(s.drop_last(), sep);
        let q = split_on(s, sep);
        assert forall|i: int, j: int| 0 <= i < q.len() && 0 <= j < q[i].len() implies exists|k: int|
            0 <= k < s.len() && s[k] == #[trigger] q[i][j] by {
            if s.last() != sep && i == r.len() - 1 && j == r.last().len() {
                assert(s[s.len() - 1] == q[i][j]);
            } else {
                let k = choose|k: int| 0 <= k < s.drop_last().len() && s.drop_last()[k] == r[i][j];
                assert(s[k] == q[i][j]);
            }
        }
    }
}

/// `ns` written one after another with `sep` between them.
pub open spec fn join_with(ns: Seq<Seq<char>>, sep: char) -> Seq<char>
    decreases ns.len(),
{
    if ns.len() == 0 {
        Seq::<char>::empty()
    } else if ns.len() == 1 {
        ns[0]
    } else {
        join_with(ns.drop_last(), sep).push(sep) + ns.last()
    }
}

/// Appending text without the separator extends the last piece.
pub proof fn lemma_split_on_append(s: Seq<char>, t: Seq<char>, sep: char)
    requires
        forall|i: int| 0 <= i < t.len() ==> #[trigger] t[i] != sep,
    ensures
        split_on(s + t, sep) == split_on(s, sep).update(
            split_on(s, sep).len() - 1,
            split_on(s, sep).last() + t,
        ),
    decreases t.len(),
{
    lemma_split_on_pieces(s, sep);
    if t.len() == 0 {
        assert(s + t =~= s);
        assert(split_on(s, sep).last() + t =~= split_on(s, sep).last());
        assert(split_on(s, sep).update(split_on(s, sep).len() - 1, split_on(s, sep).last())
            =~= split_on(s, sep));
    } else {
        let t0 = t.drop_last();
        lemma_split_on_append(s, t0, sep);
        assert((s + t).drop_last() =~= s + t0);
        assert((s + t).last() == t.last());
        let r = split_on(s, sep);
        let big = split_on(s + t0, sep);
        assert(t[t.len() - 1] != sep);
        assert(big == r.update(r.len() - 1, r.last() + t0));
        assert(big.len() == r.len());
        assert(big.last() == r.last() + t0);
        assert(split_on(s + t, sep) == big.update(big.len() - 1, big.last().push(t.last())));
        assert((r.last() + t0).push(t.last()) =~= r.last() + t);
        assert(split_on(s + t, sep) =~= r.update(r.len() - 1, r.last() + t));
    }
}

/// Splitting names joined by a separator that none of them holds gives them back.
pub proof fn lemma_split_join(ns: Seq<Seq<char>>, sep: char)
    requires
        ns.len() > 0,
        forall|i: int, j: int| 0 <= i < ns.len() && 0 <= j < ns[i].len() ==> #[trigger] ns[i][j] != sep,
    ensures
        split_on(join_with(ns, sep), sep) == ns,
    decreases ns.len(),
{
    if ns.len() == 1 {
        lemma_split_on_append(Seq::<char>::empty(), ns[0], sep);
        assert(Seq::<char>::empty() + ns[0] =~= ns[0]);
        assert(split_on(ns[0], sep) =~= ns);
    } else {
        let init = ns.drop_last();
        lemma_split_join(init, sep);
        let head = join_with(init, sep).push(sep);
        assert(head.drop_last() =~= join_with(init, sep));
        assert(split_on(head, sep) == init.push(Seq::<char>::empty()));
        assert(forall|j: int| 0 <= j < ns.last().len() ==> #[trigger] ns.last()[j] != sep) by {
            assert forall|j: int| 0 <= j < ns.last().len() implies #[trigger] ns.last()[j] != sep by {
                assert(ns[ns.len() - 1][j] != sep);
            }
        }
        lemma_split_on_append(head, ns.last(), sep);
        assert(Seq::<char>::empty() + ns.last() =~= ns.last());
        assert(init.push(Seq::<char>::empty()).update(init.len() as int, ns.last()) =~= ns);
    }
}

/// Substituting a pattern that does not occur changes nothing.
pub proof fn lemma_replace_absent(s: Seq<char>, pat: Seq<char>, rep: Seq<char>)
    requires
        !contains(s, pat),
    ensures
        replace_all(s, pat, rep) == s,
    decreases s.len(),
{
    if pat.len() == 0 || s.len() == 0 {
    } else {
        assert(!occurs_at(s, pat, 0));
        assert(!contains(s.drop_first(), pat)) by {
            if exists|i: int| occurs_at(s.drop_first(), pat, i) {
                let i = choose|i: int| occurs_at(s.drop_first(), pat, i);
                assert(s.subrange(i + 1, i + 1 + pat.len()) =~= s.drop_first().subrange(
                    i,
                    i + pat.len(),
                ));
                assert(occurs_at(s, pat, i + 1));
            }
        }
        lemma_replace_absent(s.drop_first(), pat, rep);
        assert(seq![s[0]] + s.drop_first() =~= s);
    }
}

/// Reading one more character after the digits `d`.
pub proof fn lemma_scan_digits_push(d: Seq<char>, c: char, acc: nat)
    ensures
        scan_digits(d.push(c), acc) == (match scan_digits(d, acc) {
            Err(e) => Err(e),
            Ok(v) => if !is_digit(c) {
                Err(IntErrorKind::InvalidDigit)
            } else if v * 10 + digit_value(c) > usize::MAX {
                Err(IntErrorKind::PosOverflow)
            } else {
                Ok(v * 10 + digit_value(c))
            },
        }),
    decreases d.len(),
{
    if d.len() == 0 {
        assert(d.push(c) =~= seq![c]);
        assert(seq![c].drop_first() =~= Seq::<char>::empty());
        assert(scan_digits(d, acc) == Ok::<nat, IntErrorKind>(acc));
        assert(scan_digits(Seq::<char>::empty(), acc * 10 + digit_value(c)) == Ok::<nat, IntErrorKind>(acc * 10 + digit_value(c)));
    } else {
        assert(d.push(c)[0] == d[0]);
        assert(d.push(c).drop_first() =~= d.drop_first().push(c));
        if is_digit(d[0]) && acc * 10 + digit_value(d[0]) <= usize::MAX {
            lemma_scan_digits_push(d.drop_first(), c, acc * 10 + digit_value(d[0]));
        }
    }
}

/// Reading digits after a value that fits gives a value that fits.
pub proof fn lemma_scan_digits_fits(d: Seq<char>, acc: nat)
    requires
        acc <= usize::MAX,
    ensures
        scan_digits(d, acc) matches Ok(v) ==> v <= usize::MAX,
    decreases d.len(),
{
    if d.len() > 0 && is_digit(d[0]) && acc * 10 + digit_value(d[0]) <= usize::MAX {
        lemma_scan_digits_fits(d.drop_first(), acc * 10 + digit_value(d[0]));
    }
}

/// What a count reads as: nothing is no number; a single digit is its
/// value; one more digit after a number is ten times it plus the digit, as
/// long as that fits and the number had no sign; a leading `+` changes
/// nothing; and any character that is not a decimal digit, outside a leading
/// `+`, makes it no number.
pub proof fn law_parse_usize(s: Seq<char>, c: char)
    ensures
        parse_usize(Seq::<char>::empty()) == Err::<usize, IntErrorKind>(IntErrorKind::Empty),
        '0' <= c <= '9' ==> parse_usize(seq![c]) == Ok::<usize, IntErrorKind>(
            ((c as u32) - ('0' as u32)) as usize,
        ),
        s.len() > 0 && s[0] != '+' && '0' <= c <= '9' ==> match parse_usize(s) {
            Ok(v) => {
                let w = v * 10 + ((c as u32) - ('0' as u32));
                &&& w <= usize::MAX ==> parse_usize(s.push(c)) == Ok::<usize, IntErrorKind>(
                    w as usize,
                )
                &&& w > usize::MAX ==> parse_usize(s.push(c)) == Err::<usize, IntErrorKind>(
                    IntErrorKind::PosOverflow,
                )
            },
            Err(e) => true,
        },
        s.len() > 0 && s[0] != '+' && s[0] != '-' ==> parse_usize(seq!['+'] + s) == parse_usize(s),
        s.len() > 0 && s[0] != '+' && !('0' <= c <= '9') ==> parse_usize(s.push(c)) is Err,
{
    lemma_scan_digits_push(Seq::<char>::empty(), c, 0);
    assert(Seq::<char>::empty().push(c) =~= seq![c]);
    if s.len() > 0 && s[0] != '+' {
        lemma_scan_digits_push(s, c, 0);
        lemma_scan_digits_fits(s, 0);
        assert(s.push(c)[0] == s[0]);
        assert(s.push(c).len() >= 2);
        if '0' <= c <= '9' {
            assert(digit_value(c) == ((c as u32) - ('0' as u32)));
        }
        if s.len() == 1 && s[0] == '-' {
            assert(scan_digits(s, 0) == Err::<nat, IntErrorKind>(IntErrorKind::InvalidDigit));
        }
    }
    if s.len() > 0 && s[0] != '+' && s[0] != '-' {
        let p = seq!['+'] + s;
        assert(p[0] == '+');
        assert(p.drop_first() =~= s);
    }
}

/// `trim_start` stops at the first character that is not white space.
pub proof fn lemma_trim_start_at(s: Seq<char>, a: int)
    requires
        0 <= a <= s.len(),
        forall|i: int| 0 <= i < a ==> is_white_space(#[trigger] s[i]),
        a < s.len() ==> !is_white_space(s[a]),
    ensures
        trim_start(s) == s.subrange(a, s.len() as int),
    decreases a,
{
    if a == 0 {
        assert(s.subrange(0, s.len() as int) =~= s);
    } else {
        let t = s.drop_first();
        assert forall|i: int| 0 <= i < a - 1 implies is_white_space(#[trigger] t[i]) by {
            assert(t[i] == s[i + 1]);
        }
        if a < s.len() {
            assert(t[a - 1] == s[a]);
        }
        lemma_trim_start_at(t, a - 1);
        assert(t.subrange(a - 1, t.len() as int) =~= s.subrange(a, s.len() as int));
    }
}

/// `trim_end` stops at the last character that is not white space.
pub proof fn lemma_trim_end_at(s: Seq<char>, b: int)
    requires
        0 <= b <= s.len(),
        forall|i: int| b <= i < s.len() ==> is_white_space(#[trigger] s[i]),
        b > 0 ==> !is_white_space(s[b - 1]),
    ensures
        trim_end(s) == s.subrange(0, b),
    decreases s.len() - b,
{
    if b == s.len() {
        assert(s.subrange(0, b) =~= s);
    } else {
        let t = s.drop_last();
        assert forall|i: int| b <= i < t.len() implies is_white_space(#[trigger] t[i]) by {
            assert(t[i] == s[i]);
        }
        if b > 0 {
            assert(t[b - 1] == s[b - 1]);
        }
        assert(is_white_space(s[s.len() - 1]));
        lemma_trim_end_at(t, b);
        assert(t.subrange(0, b) =~= s.subrange(0, b));
    }
}

/// Trimming removes exactly the white space at both ends: where `s[a..b]`
/// begins and ends with characters that are not white space and everything
/// before `a` and from `b` on is white space, the trimmed string is `s[a..b]`.
pub proof fn law_trim_removes_the_white_space_at_the_ends(s: Seq<char>, a: int, b: int)
    requires
        0 <= a <= b <= s.len(),
        forall|i: int| 0 <= i < a ==> is_white_space(#[trigger] s[i]),
        forall|i: int| b <= i < s.len() ==> is_white_space(#[trigger] s[i]),
        a < b ==> !is_white_space(s[a]) && !is_white_space(s[b - 1]),
    ensures
        trim(s) == s.subrange(a, b),
{
    if a == b {
        assert forall|i: int| 0 <= i < s.len() implies is_white_space(#[trigger] s[i]) by {
            if i >= a {
                assert(b <= i);
            }
        }
        lemma_trim_start_at(s, s.len() as int);
        assert(s.subrange(s.len() as int, s.len() as int) =~= Seq::<char>::empty());
        assert(s.subrange(a, b) =~= Seq::<char>::empty());
    } else {
        lemma_trim_start_at(s, a);
        let t = s.subrange(a, s.len() as int);
        assert forall|i: int| b - a <= i < t.len() implies is_white_space(#[trigger] t[i]) by {
            assert(t[i] == s[a + i]);
        }
        assert(t[b - a - 1] == s[b - 1]);
        lemma_trim_end_at(t, b - a);
        assert(t.subrange(0, b - a) =~= s.subrange(a, b));
    }
}

/// Among ASCII characters, white space is the space and the controls from
/// tab to carriage return.
pub proof fn law_ascii_white_space(c: char)
    requires
        (c as u32) < 128,
    ensures
        is_white_space(c) <==> (c == ' ' || c == '\t' || c == '\n' || c == '\u{b}' || c
            == '\u{c}' || c == '\r'),
{
}

/// Substitution replaces an occurrence of the pattern by the replacement and
/// keeps the text before it as it is, where that text holds no character
/// that begins the pattern.
pub proof fn law_replace_at_first_occurrence(
    before: Seq<char>,
    pat: Seq<char>,
    rep: Seq<char>,
    after: Seq<char>,
)
    requires
        pat.len() > 0,
        forall|i: int| 0 <= i < before.len() ==> #[trigger] before[i] != pat[0],
    ensures
        replace_all(before + pat + after, pat, rep) == before + rep + replace_all(after, pat, rep),
    decreases before.len(),
{
    let x = before + pat + after;
    if before.len() == 0 {
        assert(x =~= pat + after);
        assert(x.subrange(0, pat.len() as int) =~= pat);
        assert(x.subrange(pat.len() as int, x.len() as int) =~= after);
        assert(before + rep + replace_all(after, pat, rep) =~= rep + replace_all(after, pat, rep));
    } else {
        let b1 = before.drop_first();
        assert forall|i: int| 0 <= i < b1.len() implies #[trigger] b1[i] != pat[0] by {
            assert(b1[i] == before[i + 1]);
        }
        law_replace_at_first_occurrence(b1, pat, rep, after);
        assert(x[0] == before[0]);
        assert(!starts_with(x, pat)) by {
            if starts_with(x, pat) {
                assert(x.subrange(0, pat.len() as int)[0] == x[0]);
            }
        }
        assert(x.drop_first() =~= b1 + pat + after);
        assert(before + rep + replace_all(after, pat, rep) =~= seq![before[0]] + (b1 + rep
            + replace_all(after, pat, rep)));
    }
}

// ---------------------------------------------------------------------------
// Executable operations
// ---------------------------------------------------------------------------
/// The characters of `s`, in order.
pub fn chars_of(s: &str) -> (v: Vec<char>)
    ensures
        v@ == s@,
{
    let mut v: Vec<char> = Vec::new();
    for c in it: s.chars()
        invariant
            v@ == it.seq().take(it.index() as int),
            it.seq() == s@,
    {
        v.push(c);
    }
    v
}

/// The string made of the characters of `v` (`String: FromIterator<char>`).
#[verifier::external_body]
pub(crate) fn string_of(v: &[char]) -> (s: String)
    ensures
        s@ == v@,
{
    v.iter().collect()
}

/// A copy of `s[from..to]`.
pub fn slice_copy(s: &[char], from: usize, to: usize) -> (r: Vec<char>)
    requires
        from <= to <= s@.len(),
    ensures
        r@ == s@.subrange(from as int, to as int),
{
    let mut r: Vec<char> = Vec::new();
    let mut i = from;
    while i < to
        invariant
            from <= i <= to <= s@.len(),
            r@ == s@.subrange(from as int, i as int),
        decreases to - i,
    {
        r.push(s[i]);
        i = i + 1;
        assert(r@ =~= s@.subrange(from as int, i as int));
    }
    r
}

/// The characters of `a` followed by those of `b`.
pub fn concat_chars(a: &[char], b: &[char]) -> (r: Vec<char>)
    ensures
        r@ == a@ + b@,
{
    let mut r = slice_copy(a, 0, a.len());
    let mut tail = slice_copy(b, 0, b.len());
    assert(a@.subrange(0, a@.len() as int) =~= a@);
    assert(b@.subrange(0, b@.len() as int) =~= b@);
    r.append(&mut tail);
    r
}

/// `c` has the Unicode `White_Space` property.
pub fn is_white_space_char(c: char) -> (b: bool)
    ensures
        b == is_white_space(c),
{
    let u = c as u32;
    (0x9 <= u && u <= 0xd) || u == 0x20 || u == 0x85 || u == 0xa0 || u == 0x1680 || (0x2000 <= u
        && u <= 0x200a) || u == 0x2028 || u == 0x2029 || u == 0x202f || u == 0x205f || u == 0x3000
}

/// `s` without leading and trailing white space.
pub fn trim_chars(s: &[char]) -> (r: Vec<char>)
    ensures
        r@ == trim(s@),
{
    let n = s.len();
    let mut i: usize = 0;
    assert(s@.subrange(0, n as int) =~= s@);
    while i < n && is_white_space_char(s[i])
        invariant
            i <= n == s@.len(),
            trim_start(s@) == trim_start(s@.subrange(i as int, n as int)),
        decreases n - i,
    {
        assert(s@.subrange(i as int, n as int).drop_first() =~= s@.subrange(i + 1, n as int));
        i = i + 1;
    }
    assert(trim_start(s@) == s@.subrange(i as int, n as int));
    let mut j: usize = n;
    while j > i && is_white_space_char(s[j - 1])
        invariant
            i <= j <= n == s@.len(),
            trim(s@) == trim_end(s@.subrange(i as int, j as int)),
        decreases j,
    {
        assert(s@.subrange(i as int, j as int).drop_last() =~= s@.subrange(i as int, j - 1));
        j = j - 1;
    }
    slice_copy(s, i, j)
}

/// Whether `p` occurs in `s` at position `i`.
pub fn occurs_at_exec(s: &[char], p: &[char], i: usize) -> (b: bool)
    ensures
        b == occurs_at(s@, p@, i as int),
{
    if i > s.len() || p.len() > s.len() - i {
        return false;
    }
    let mut k: usize = 0;
    let sl = s.len();
    while k < p.len()
        invariant
            sl == s@.len(),
            i + p@.len() <= s@.len(),
            k <= p@.len(),
            forall|m: int| 0 <= m < k ==> s@[i + m] == p@[m],
        decreases p@.len() - k,
    {
        assert(i + k < s@.len());
        if s[i + k] != p[k] {
            assert(s@.subrange(i as int, i + p@.len())[k as int] != p@[k as int]);
            return false;
        }
        k = k + 1;
    }
    assert(s@.subrange(i as int, i + p@.len()) =~= p@);
    true
}

/// The first position where `p` occurs in `s`.
pub fn find_chars(s: &[char], p: &[char]) -> (r: Option<usize>)
    ensures
        match r {
            Some(i) => find(s@, p@) == Some(i as int),
            None => find(s@, p@) is None,
        },
{
    if p.len() > s.len() {
        return None;
    }
    let last = s.len() - p.len();
    let mut i: usize = 0;
    while i <= last
        invariant
            last + p@.len() == s@.len(),
            find(s@, p@) == find_from(s@, p@, i as int),
        decreases last + 1 - i,
    {
        if occurs_at_exec(s, p, i) {
            return Some(i);
        }
        if i == last {
            assert(find_from(s@, p@, i + 1) is None);
            return None;
        }
        i = i + 1;
    }
    None
}

/// Whether `p` occurs in `s`.
pub fn contains_chars(s: &[char], p: &[char]) -> (b: bool)
    ensures
        b == contains(s@, p@),
{
    proof {
        lemma_find(s@, p@);
    }
    find_chars(s, p).is_some()
}

/// Whether `s` begins with `p`.
pub fn starts_with_chars(s: &[char], p: &[char]) -> (b: bool)
    ensures
        b == starts_with(s@, p@),
{
    occurs_at_exec(s, p, 0)
}

/// The parts of `s` before and after the first occurrence of `p`.
pub fn split_once_chars(s: &[char], p: &[char]) -> (r: Option<(Vec<char>, Vec<char>)>)
    ensures
        match r {
            Some((a, b)) => split_once(s@, p@) == Some((a@, b@)),
            None => split_once(s@, p@) is None,
        },
{
    match find_chars(s, p) {
        Some(i) => {
            proof {
                lemma_find(s@, p@);
                assert(occurs_at(s@, p@, i as int));
            }
            let n = s.len();
            Some((slice_copy(s, 0, i), slice_copy(s, i + p.len(), n)))
        },
        None => None,
    }
}

/// `s` without the prefix `p`, if it has it.
pub fn strip_prefix_chars(s: &[char], p: &[char]) -> (r: Option<Vec<char>>)
    ensures
        match r {
            Some(t) => strip_prefix(s@, p@) == Some(t@),
            None => strip_prefix(s@, p@) is None,
        },
{
    if occurs_at_exec(s, p, 0) {
        Some(slice_copy(s, p.len(), s.len()))
    } else {
        None
    }
}

/// `s` without the suffix `p`, if it has it.
pub fn strip_suffix_chars(s: &[char], p: &[char]) -> (r: Option<Vec<char>>)
    ensures
        match r {
            Some(t) => strip_suffix(s@, p@) == Some(t@),
            None => strip_suffix(s@, p@) is None,
        },
{
    if p.len() > s.len() {
        return None;
    }
    let at = s.len() - p.len();
    if occurs_at_exec(s, p, at) {
        Some(slice_copy(s, 0, at))
    } else {
        None
    }
}

/// The pieces of `s` between the occurrences of `sep`.
pub fn split_on_chars(s: &[char], sep: char) -> (r: Vec<Vec<char>>)
    ensures
        r@.len() == split_on(s@, sep).len(),
        forall|i: int| 0 <= i < r@.len() ==> #[trigger] r@[i]@ == split_on(s@, sep)[i],
{
    let mut done: Vec<Vec<char>> = Vec::new();
    let mut cur: Vec<char> = Vec::new();
    let n = s.len();
    let mut i: usize = 0;
    assert(s@.take(0) =~= Seq::<char>::empty());
    while i < n
        invariant
            i <= n == s@.len(),
            done@.len() + 1 == split_on(s@.take(i as int), sep).len(),
            forall|k: int| 0 <= k < done@.len() ==> #[trigger] done@[k]@ == split_on(s@.take(i as int), sep)[k],
            cur@ == split_on(s@.take(i as int), sep).last(),
        decreases n - i,
    {
        let c = s[i];
        assert(s@.take(i + 1).drop_last() =~= s@.take(i as int));
        if c == sep {
            done.push(cur);
            cur = Vec::new();
        } else {
            cur.push(c);
        }
        i = i + 1;
    }
    assert(s@.take(n as int) =~= s@);
    done.push(cur);
    done
}

/// `s` with every non-overlapping occurrence of `pat` replaced by `rep`.
pub fn replace_all_chars(s: &[char], pat: &[char], rep: &[char]) -> (r: Vec<char>)
    requires
        pat@.len() > 0,
    ensures
        r@ == replace_all(s@, pat@, rep@),
{
    let mut out: Vec<char> = Vec::new();
    let n = s.len();
    let mut i: usize = 0;
    assert(s@.subrange(0, n as int) =~= s@);
    while i < n
        invariant
            i <= n == s@.len(),
            pat@.len() > 0,
            replace_all(s@, pat@, rep@) == out@ + replace_all(s@.subrange(i as int, n as int), pat@, rep@),
        decreases n - i,
    {
        let ghost rest = s@.subrange(i as int, n as int);
        if occurs_at_exec(s, pat, i) {
            assert(rest.subrange(0, pat@.len() as int) =~= s@.subrange(i as int, i + pat@.len()));
            assert(rest.subrange(pat@.len() as int, rest.len() as int) =~= s@.subrange(i + pat@.len(), n as int));
            let mut k: usize = 0;
            let ghost before = out@;
            while k < rep.len()
                invariant
                    k <= rep@.len(),
                    out@ == before + rep@.take(k as int),
                decreases rep@.len() - k,
            {
                out.push(rep[k]);
                k = k + 1;
                assert(out@ =~= before + rep@.take(k as int));
            }
            assert(rep@.take(rep@.len() as int) =~= rep@);
            assert(out@ + replace_all(s@.subrange(i + pat@.len(), n as int), pat@, rep@) =~= before + (rep@ + replace_all(s@.subrange(i + pat@.len(), n as int), pat@, rep@)));
            i = i + pat.len();
        } else {
            assert(!starts_with(rest, pat@)) by {
                if rest.len() >= pat@.len() {
                    assert(rest.subrange(0, pat@.len() as int) =~= s@.subrange(i as int, i + pat@.len()));
                }
            }
            assert(rest.drop_first() =~= s@.subrange(i + 1, n as int));
            let ghost before = out@;
            out.push(s[i]);
            assert(out@ + replace_all(s@.subrange(i + 1, n as int), pat@, rep@) =~= before + (seq![rest[0]] + replace_all(rest.drop_first(), pat@, rep@)));
            i = i + 1;
        }
    }
    assert(out@ + Seq::<char>::empty() =~= out@);
    out
}

/// What `str::parse::<usize>` gives back for `s`.
pub fn parse_usize_chars(s: &[char]) -> (r: Result<usize, IntErrorKind>)
    ensures
        r == parse_usize(s@),
{
    let n = s.len();
    if n == 0 {
        return Err(IntErrorKind::Empty);
    }
    if n == 1 && (s[0] == '+' || s[0] == '-') {
        return Err(IntErrorKind::InvalidDigit);
    }
    let start: usize = if s[0] == '+' { 1 } else { 0 };
    let ghost d = if s@[0] == '+' { s@.drop_first() } else { s@ };
    assert(d =~= s@.subrange(start as int, n as int));
    let mut acc: usize = 0;
    let mut i: usize = start;
    while i < n
        invariant
            start <= i <= n == s@.len(),
            scan_digits(d, 0) == scan_digits(s@.subrange(i as int, n as int), acc as nat),
            parse_usize(s@) == (match scan_digits(d, 0) {
                Ok(v) => Ok(v as usize),
                Err(e) => Err::<usize, IntErrorKind>(e),
            }),
        decreases n - i,
    {
        let ghost rest = s@.subrange(i as int, n as int);
        assert(rest[0] == s@[i as int]);
        assert(rest.drop_first() =~= s@.subrange(i + 1, n as int));
        let c = s[i];
        if c < '0' || c > '9' {
            return Err(IntErrorKind::InvalidDigit);
        }
        let digit = (c as u32 - '0' as u32) as usize;
        match acc.checked_mul(10) {
            None => {
                return Err(IntErrorKind::PosOverflow);
            },
            Some(t) => match t.checked_add(digit) {
                None => {
                    return Err(IntErrorKind::PosOverflow);
                },
                Some(v) => {
                    acc = v;
                },
            },
        }
        i = i + 1;
    }
    assert(s@.subrange(n as int, n as int) =~= Seq::<char>::empty());
    Ok(acc)
}

} // verus!
