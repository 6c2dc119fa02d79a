//! Character-level helpers over `str` and `String`.
//!
//! Every text function of the library works on the character sequence that
//! `@` gives for `str` and `String`; the specifications here are the
//! vocabulary that the other modules' contracts are written in.

use vstd::prelude::*;
use vstd::string::StringExecFns;

verus! {

/// The characters of `s`, in order.
pub fn chars_of(s: &str) -> (out: Vec<char>)
    ensures
        out@ == s@,
{
    let mut out: Vec<char> = Vec::new();
    for c in it: s.chars()
        invariant
            out@ == it.seq().take(it.index() as int),
    {
        out.push(c);
    }
    proof {
        assert(out@ == s@);
    }
    out
}

/// Appends one character through std's `String::push`; trusted to leave
/// the old text followed by `c`, as std documents.
#[verifier::external_body]
pub(crate) fn push_char(s: &mut String, c: char)
    ensures
        final(s)@ == old(s)@.push(c),
{
    s.push(c);
}

/// Appends a string slice.
pub(crate) fn push_str(s: &mut String, t: &str)
    ensures
        final(s)@ == old(s)@ + t@,
{
    s.append(t);
}

/// A `String` holding exactly the characters in `cs`.
pub fn string_from(cs: &[char]) -> (out: String)
    ensures
        out@ == cs@,
{
    let mut out = String::new();
    let mut i: usize = 0;
    while i < cs.len()
        invariant
            0 <= i <= cs@.len(),
            out@ == cs@.take(i as int),
        decreases cs@.len() - i,
    {
        push_char(&mut out, cs[i]);
        i = i + 1;
        proof {
            assert(cs@.take(i as int) == cs@.take(i - 1) .push(cs@[i - 1]));
        }
    }
    proof {
        assert(cs@.take(cs@.len() as int) == cs@);
    }
    out
}

/// The characters `cs[from..to]` as a `String`.
pub fn substring(cs: &[char], from: usize, to: usize) -> (out: String)
    requires
        from <= to <= cs@.len(),
    ensures
        out@ == cs@.subrange(from as int, to as int),
{
    string_from(&cs[from..to])
}

/// An owned copy of `s`.
pub fn owned(s: &str) -> (out: String)
    ensures
        out@ == s@,
{
    s.to_owned()
}

/// `a` followed by `b`.
pub fn concat(a: &str, b: &str) -> (out: String)
    ensures
        out@ == a@ + b@,
{
    let mut out = a.to_owned();
    push_str(&mut out, b);
    out
}

/// Characters that `char::is_whitespace` accepts (Unicode `White_Space`).
pub open spec fn is_ws(c: char) -> bool {
    let u = c as u32;
    ||| (0x09 <= u <= 0x0D)
    ||| u == 0x20
    ||| u == 0x85
    ||| u == 0xA0
    ||| u == 0x1680
    ||| (0x2000 <= u <= 0x200A)
    ||| u == 0x2028
    ||| u == 0x2029
    ||| u == 0x202F
    ||| u == 0x205F
    ||| u == 0x3000
}

/// Executable `is_ws`.
pub fn is_whitespace(c: char) -> (b: bool)
    ensures
        b == is_ws(c),
{
    let u = c as u32;
    (0x09 <= u && u <= 0x0D) || u == 0x20 || u == 0x85 || u == 0xA0 || u == 0x1680 || (0x2000
        <= u && u <= 0x200A) || u == 0x2028 || u == 0x2029 || u == 0x202F || u == 0x205F || u
        == 0x3000
}

/// `s` without its leading whitespace.
pub open spec fn trim_start_seq(s: Seq<char>) -> Seq<char>
    decreases s.len(),
{
    if s.len() > 0 && is_ws(s[0]) {
        trim_start_seq(s.drop_first())
    } else {
        s
    }
}

/// `s` without its trailing whitespace.
pub open spec fn trim_end_seq(s: Seq<char>) -> Seq<char>
    decreases s.len(),
{
    if s.len() > 0 && is_ws(s.last()) {
        trim_end_seq(s.drop_last())
    } else {
        s
    }
}

/// `s` without leading or trailing whitespace (`str::trim`).
pub open spec fn trim_seq(s: Seq<char>) -> Seq<char> {
    trim_end_seq(trim_start_seq(s))
}

/// The index of the first character of `s` at or after `i` that is no
/// whitespace, or `s.len()`.
pub open spec fn first_non_ws_from(s: Seq<char>, i: int) -> int
    decreases s.len() - i,
{
    if i < s.len() && is_ws(s[i]) {
        first_non_ws_from(s, i + 1)
    } else {
        i
    }
}

pub proof fn lemma_trim_start_prefix(s: Seq<char>, i: int)
    requires
        0 <= i <= s.len(),
        forall|k: int| 0 <= k < i ==> is_ws(#[trigger] s[k]),
        i == s.len() || !is_ws(s[i]),
    ensures
        trim_start_seq(s) == s.skip(i),
    decreases i,
{
    if i == 0 {
        assert(s.skip(0) == s);
    } else {
        let t = s.drop_first();
        assert forall|k: int| 0 <= k < i - 1 implies is_ws(#[trigger] t[k]) by {
            assert(t[k] == s[k + 1]);
        }
        if i - 1 < t.len() {
            assert(t[i - 1] == s[i]);
        }
        lemma_trim_start_prefix(t, i - 1);
        assert(t.skip(i - 1) == s.skip(i));
    }
}

pub proof fn lemma_trim_end_prefix(s: Seq<char>, j: int)
    requires
        0 <= j <= s.len(),
        forall|k: int| j <= k < s.len() ==> is_ws(#[trigger] s[k]),
        j == 0 || !is_ws(s[j - 1]),
    ensures
        trim_end_seq(s) == s.take(j),
    decreases s.len() - j,
{
    if j == s.len() {
        assert(s.take(j) == s);
    } else {
        let t = s.drop_last();
        assert forall|k: int| j <= k < t.len() implies is_ws(#[trigger] t[k]) by {
            assert(t[k] == s[k]);
        }
        if j > 0 {
            assert(t[j - 1] == s[j - 1]);
        }
        lemma_trim_end_prefix(t, j);
        assert(t.take(j) == s.take(j));
    }
}

/// `s` with leading and trailing whitespace removed.
pub fn trim(s: &str) -> (out: String)
    ensures
        out@ == trim_seq(s@),
{
    let cs = chars_of(s);
    let mut i: usize = 0;
    while i < cs.len() && is_whitespace(cs[i])
        invariant
            0 <= i <= cs@.len(),
            cs@ == s@,
            forall|k: int| 0 <= k < i ==> is_ws(#[trigger] cs@[k]),
        decreases cs@.len() - i,
    {
        i = i + 1;
    }
    let mut j: usize = cs.len();
    while j > i && is_whitespace(cs[j - 1])
        invariant
            0 <= i <= j <= cs@.len(),
            cs@ == s@,
            forall|k: int| j <= k < cs@.len() ==> is_ws(#[trigger] cs@[k]),
        decreases j,
    {
        j = j - 1;
    }
    proof {
        lemma_trim_start_prefix(cs@, i as int);
        let t = cs@.skip(i as int);
        assert forall|k: int| j - i <= k < t.len() implies is_ws(#[trigger] t[k]) by {
            assert(t[k] == cs@[k + i]);
        }
        if j > i {
            assert(t[j - i - 1] == cs@[j - 1]);
        }
        lemma_trim_end_prefix(t, j - i);
        assert(t.take(j - i) == cs@.subrange(i as int, j as int));
    }
    string_from(&cs.as_slice()[i..j])
}


/// `pat` occurs in `s` at index `i`.
pub open spec fn occurs_at(s: Seq<char>, pat: Seq<char>, i: int) -> bool {
    0 <= i && i + pat.len() <= s.len() && s.subrange(i, i + pat.len()) == pat
}

/// The first index at or after `i` where `pat` occurs in `s`.
pub open spec fn find_from(s: Seq<char>, pat: Seq<char>, i: int) -> Option<int>
    decreases s.len() + 1 - i,
{
    if i < 0 || i + pat.len() > s.len() {
        None
    } else if occurs_at(s, pat, i) {
        Some(i)
    } else {
        find_from(s, pat, i + 1)
    }
}

/// The first index where `pat` occurs in `s` (`str::find`).
pub open spec fn find_seq(s: Seq<char>, pat: Seq<char>) -> Option<int> {
    find_from(s, pat, 0)
}

/// `pat` occurs somewhere in `s`.
pub open spec fn contains_seq(s: Seq<char>, pat: Seq<char>) -> bool {
    exists|i: int| occurs_at(s, pat, i)
}

/// What `find_from` gives: the first occurrence at or after `i`.
pub proof fn lemma_find_from(s: Seq<char>, pat: Seq<char>, i: int)
    requires
        0 <= i,
    ensures
        match find_from(s, pat, i) {
            Some(k) => i <= k && occurs_at(s, pat, k) && forall|j: int|
                i <= j < k ==> !occurs_at(s, pat, j),
            None => forall|j: int| i <= j ==> !occurs_at(s, pat, j),
        },
    decreases s.len() + 1 - i,
{
    if i + pat.len() > s.len() {
    } else if occurs_at(s, pat, i) {
    } else {
        lemma_find_from(s, pat, i + 1);
    }
}

/// `find_seq` is `Some` exactly when `pat` occurs, at its first occurrence.
pub proof fn lemma_find_seq(s: Seq<char>, pat: Seq<char>)
    ensures
        match find_seq(s, pat) {
            Some(k) => occurs_at(s, pat, k) && forall|j: int|
                0 <= j < k ==> !occurs_at(s, pat, j),
            None => !contains_seq(s, pat),
        },
{
    lemma_find_from(s, pat, 0);
}

/// Does `pat` occur in `s` at index `i`?
pub fn matches_at(s: &[char], pat: &[char], i: usize) -> (b: bool)
    ensures
        b == occurs_at(s@, pat@, i as int),
{
    if i > s.len() || pat.len() > s.len() - i {
        return false;
    }
    let mut k: usize = 0;
    while k < pat.len()
        invariant
            i + pat@.len() <= s@.len(),
            0 <= k <= pat@.len(),
            forall|j: int| 0 <= j < k ==> s@[i + j] == pat@[j],
        decreases pat@.len() - k,
    {
        assert(i + k < s.len());
        let j: usize = i + k;
        if s[j] != pat[k] {
            proof {
                assert(s@.subrange(i as int, i + pat@.len())[k as int] != pat@[k as int]);
            }
            return false;
        }
        k = k + 1;
    }
    proof {
        assert(s@.subrange(i as int, i + pat@.len()) =~= pat@);
    }
    true
}

/// The first index at or after `from` where `pat` occurs in `s`.
pub fn find_in(s: &[char], pat: &[char], from: usize) -> (r: Option<usize>)
    ensures
        match r {
            Some(k) => find_from(s@, pat@, from as int) == Some(k as int),
            None => find_from(s@, pat@, from as int) is None,
        },
{
    let mut i = from;
    while i <= s.len() && pat.len() <= s.len() - i
        invariant
            from <= i,
            find_from(s@, pat@, from as int) == find_from(s@, pat@, i as int),
        decreases s@.len() + 1 - i,
    {
        if matches_at(s, pat, i) {
            return Some(i);
        }
        proof {
            if pat@.len() == 0 {
                assert(s@.subrange(i as int, i as int) =~= pat@);
            }
        }
        i = i + 1;
    }
    None
}

/// Does `pat` occur anywhere in `s` (`str::contains`)?
pub fn contains_chars(s: &[char], pat: &[char]) -> (b: bool)
    ensures
        b == contains_seq(s@, pat@),
{
    let r = find_in(s, pat, 0);
    proof {
        lemma_find_seq(s@, pat@);
    }
    r.is_some()
}

/// `c` in ASCII lower case: `A` to `Z` become `a` to `z`, every other
/// character stays.
pub open spec fn ascii_lower(c: char) -> char {
    if 'A' <= c && c <= 'Z' {
        ((c as u32) + 32) as char
    } else {
        c
    }
}

/// `s` in ASCII lower case (`str::to_ascii_lowercase`).
pub open spec fn ascii_lower_seq(s: Seq<char>) -> Seq<char> {
    Seq::new(s.len(), |i: int| ascii_lower(s[i]))
}

/// `c` in ASCII lower case, as `char::to_ascii_lowercase` gives it.
fn to_ascii_lower(c: char) -> (r: char)
    ensures
        r == ascii_lower(c),
{
    if 'A' <= c && c <= 'Z' {
        let b = (c as u8) + 32;
        proof {
            assert(b == (c as u32) + 32);
        }
        b as char
    } else {
        c
    }
}

/// The characters of `s` in ASCII lower case.
pub fn lower_chars(s: &str) -> (out: Vec<char>)
    ensures
        out@ == ascii_lower_seq(s@),
{
    let cs = chars_of(s);
    let mut out: Vec<char> = Vec::new();
    let mut i: usize = 0;
    while i < cs.len()
        invariant
            0 <= i <= cs@.len(),
            cs@ == s@,
            out@ == ascii_lower_seq(s@).take(i as int),
        decreases cs@.len() - i,
    {
        out.push(to_ascii_lower(cs[i]));
        proof {
            assert(ascii_lower_seq(s@).take(i + 1) =~= ascii_lower_seq(s@).take(i as int).push(
                ascii_lower(s@[i as int]),
            ));
        }
        i = i + 1;
    }
    proof {
        assert(ascii_lower_seq(s@).take(i as int) =~= ascii_lower_seq(s@));
    }
    out
}

/// Characters of `s` starting at `i` (`&s[i..]`).
pub open spec fn tail(s: Seq<char>, i: int) -> Seq<char> {
    s.subrange(i, s.len() as int)
}


/// How a piece of text is cut into pieces.
#[derive(Clone, Copy, Debug, PartialEq, Eq, Structural)]
pub enum Sep {
    /// At every occurrence of this character (`str::split(c)`).
    Char(char),
    /// At every whitespace character.
    Whitespace,
}

/// `x` is a separator under `sep`.
pub open spec fn is_sep(sep: Sep, x: char) -> bool {
    match sep {
        Sep::Char(c) => x == c,
        Sep::Whitespace => is_ws(x),
    }
}

/// After reading `s` left to right: the finished pieces and the piece
/// still being read.
pub open spec fn split_acc(s: Seq<char>, sep: Sep) -> (Seq<Seq<char>>, Seq<char>)
    decreases s.len(),
{
    if s.len() == 0 {
        (Seq::empty(), Seq::empty())
    } else {
        let (ps, cur) = split_acc(s.drop_last(), sep);
        if is_sep(sep, s.last()) {
            (ps.push(cur), Seq::empty())
        } else {
            (ps, cur.push(s.last()))
        }
    }
}

/// The pieces of `s` between separators, empty ones included
/// (`str::split`).
pub open spec fn split_seq(s: Seq<char>, sep: Sep) -> Seq<Seq<char>> {
    split_acc(s, sep).0.push(split_acc(s, sep).1)
}

/// The non-empty members of `ps`, in order.
pub open spec fn non_empty(ps: Seq<Seq<char>>) -> Seq<Seq<char>>
    decreases ps.len(),
{
    if ps.len() == 0 {
        ps
    } else if ps.last().len() == 0 {
        non_empty(ps.drop_last())
    } else {
        non_empty(ps.drop_last()).push(ps.last())
    }
}

/// The whitespace-separated words of `s` (`str::split_whitespace`).
pub open spec fn words_seq(s: Seq<char>) -> Seq<Seq<char>> {
    non_empty(split_seq(s, Sep::Whitespace))
}

/// The character views of a sequence of strings.
pub open spec fn views(v: Seq<String>) -> Seq<Seq<char>> {
    Seq::new(v.len(), |i: int| v[i]@)
}

/// The pieces of `s` cut at separators; with `skip_empty`, empty pieces
/// are left out.
pub fn split_by(s: &[char], sep: Sep, skip_empty: bool) -> (out: Vec<String>)
    ensures
        views(out@) == if skip_empty {
            non_empty(split_seq(s@, sep))
        } else {
            split_seq(s@, sep)
        },
{
    let mut done: Vec<String> = Vec::new();
    let ghost mut all: Seq<Seq<char>> = Seq::empty();
    let mut cur: Vec<char> = Vec::new();
    let mut i: usize = 0;
    while i < s.len()
        invariant
            0 <= i <= s@.len(),
            split_acc(s@.take(i as int), sep) == (all, cur@),
            views(done@) == if skip_empty {
                non_empty(all)
            } else {
                all
            },
        decreases s@.len() - i,
    {
        let x = s[i];
        let is = match sep {
            Sep::Char(c) => x == c,
            Sep::Whitespace => is_whitespace(x),
        };
        proof {
            assert(s@.take(i + 1).drop_last() == s@.take(i as int));
            assert(s@.take(i + 1).last() == x);
        }
        if is {
            let piece = string_from(cur.as_slice());
            proof {
                assert(all.push(cur@).drop_last() == all);
                assert(all.push(cur@).last() == cur@);
            }
            if !(skip_empty && cur.len() == 0) {
                let ghost old_done = done@;
                done.push(piece);
                proof {
                    assert(views(done@) =~= views(old_done).push(cur@));
                }
            }
            proof {
                all = all.push(cur@);
            }
            cur = Vec::new();
        } else {
            cur.push(x);
        }
        i = i + 1;
    }
    proof {
        assert(s@.take(s@.len() as int) == s@);
        assert(all.push(cur@).drop_last() == all);
        assert(all.push(cur@).last() == cur@);
    }
    if !(skip_empty && cur.len() == 0) {
        let ghost old_done = done@;
        let piece = string_from(cur.as_slice());
        done.push(piece);
        proof {
            assert(views(done@) =~= views(old_done).push(cur@));
        }
    }
    done
}

/// `parts` joined with `sep` between neighbours (`[String]::join`).
pub open spec fn join_seq(parts: Seq<Seq<char>>, sep: Seq<char>) -> Seq<char>
    decreases parts.len(),
{
    if parts.len() == 0 {
        Seq::empty()
    } else if parts.len() == 1 {
        parts[0]
    } else {
        join_seq(parts.drop_last(), sep) + sep + parts.last()
    }
}

/// Executable `join_seq`.
pub fn join(parts: &[String], sep: &str) -> (out: String)
    ensures
        out@ == join_seq(views(parts@), sep@),
{
    let mut out = String::new();
    let mut i: usize = 0;
    while i < parts.len()
        invariant
            0 <= i <= parts@.len(),
            out@ == join_seq(views(parts@.take(i as int)), sep@),
        decreases parts@.len() - i,
    {
        proof {
            assert(views(parts@.take(i + 1)).drop_last() =~= views(parts@.take(i as int)));
            assert(views(parts@.take(i + 1)).last() == parts@[i as int]@);
        }
        if i > 0 {
            push_str(&mut out, sep);
        } else {
            assert(views(parts@.take(1)) =~= seq![parts@[0]@]);
        }
        push_str(&mut out, parts[i].as_str());
        i = i + 1;
    }
    proof {
        assert(parts@.take(parts@.len() as int) == parts@);
    }
    out
}

/// The decimal digit character for `d < 10`.
pub open spec fn digit_char(d: nat) -> char {
    (('0' as u32) + d) as char
}

/// The decimal representation of `n`, without leading zeros.
pub open spec fn decimal(n: nat) -> Seq<char>
    decreases n,
{
    if n < 10 {
        seq![digit_char(n)]
    } else {
        decimal(n / 10).push(digit_char(n % 10))
    }
}

/// Appends the decimal representation of `n`.
pub fn push_decimal(out: &mut String, n: u32)
    ensures
        final(out)@ == old(out)@ + decimal(n as nat),
    decreases n,
{
    if n >= 10 {
        push_decimal(out, n / 10);
    }
    let d = (n % 10) as u8;
    let c = (48u8 + d) as char;
    proof {
        assert(c == digit_char((n % 10) as nat));
    }
    push_char(out, c);
}

/// Why a text is no unsigned decimal number (`std::num::IntErrorKind`).
#[derive(Clone, Copy, Debug, PartialEq, Eq, Structural)]
pub enum IntErrorKind {
    Empty,
    InvalidDigit,
    PosOverflow,
}

/// The value of the decimal digits `ds` read left to right, as `u32`'s
/// parser reads them: the first non-digit or the first overflow decides.
pub open spec fn parse_digits(ds: Seq<char>) -> Result<u32, IntErrorKind>
    decreases ds.len(),
{
    if ds.len() == 0 {
        Ok(0)
    } else {
        match parse_digits(ds.drop_last()) {
            Err(e) => Err(e),
            Ok(v) => {
                let c = ds.last();
                if !('0' <= c && c <= '9') {
                    Err(IntErrorKind::InvalidDigit)
                } else if v * 10 + (c as u32 - '0' as u32) > u32::MAX {
                    Err(IntErrorKind::PosOverflow)
                } else {
                    Ok((v * 10 + (c as u32 - '0' as u32)) as u32)
                }
            },
        }
    }
}

/// `u32::from_str`: an optional `+`, then at least one decimal digit.
pub open spec fn parse_u32_seq(s: Seq<char>) -> Result<u32, IntErrorKind> {
    if s.len() == 0 {
        Err(IntErrorKind::Empty)
    } else if s.len() == 1 && (s[0] == '+' || s[0] == '-') {
        Err(IntErrorKind::InvalidDigit)
    } else if s[0] == '+' {
        parse_digits(s.drop_first())
    } else {
        parse_digits(s)
    }
}

/// Executable `parse_u32_seq`.
pub fn parse_u32(s: &[char]) -> (r: Result<u32, IntErrorKind>)
    ensures
        r == parse_u32_seq(s@),
{
    if s.len() == 0 {
        return Err(IntErrorKind::Empty);
    }
    if s.len() == 1 && (s[0] == '+' || s[0] == '-') {
        return Err(IntErrorKind::InvalidDigit);
    }
    let start: usize = if s[0] == '+' { 1 } else { 0 };
    let ghost ds = if s@[0] == '+' { s@.drop_first() } else { s@ };
    proof {
        assert(ds == s@.subrange(start as int, s@.len() as int));
        assert(parse_u32_seq(s@) == parse_digits(ds));
        assert(ds.take(0) =~= Seq::<char>::empty());
    }
    let mut v: u32 = 0;
    let mut i: usize = start;
    while i < s.len()
        invariant
            start <= i <= s@.len(),
            ds == s@.subrange(start as int, s@.len() as int),
            parse_u32_seq(s@) == parse_digits(ds),
            parse_digits(ds.take(i - start)) == Ok::<u32, IntErrorKind>(v),
        decreases s@.len() - i,
    {
        let c = s[i];
        proof {
            assert(ds.take(i + 1 - start).drop_last() == ds.take(i - start));
            assert(ds.take(i + 1 - start).last() == c);
        }
        if !('0' <= c && c <= '9') {
            proof {
                assert(parse_digits(ds.take(i + 1 - start)) == Err::<u32, IntErrorKind>(
                    IntErrorKind::InvalidDigit,
                ));
                lemma_parse_digits_err_sticks(ds, (i + 1 - start) as int);
            }
            return Err(IntErrorKind::InvalidDigit);
        }
        let d = (c as u32) - ('0' as u32);
        if v > (u32::MAX - d) / 10 {
            proof {
                assert(v * 10 + d > u32::MAX) by (nonlinear_arith)
                    requires
                        v > (u32::MAX - d) / 10,
                        d <= 9,
                ;
                assert(parse_digits(ds.take(i + 1 - start)) == Err::<u32, IntErrorKind>(
                    IntErrorKind::PosOverflow,
                ));
                lemma_parse_digits_err_sticks(ds, (i + 1 - start) as int);
            }
            return Err(IntErrorKind::PosOverflow);
        }
        proof {
            assert(v * 10 + d <= u32::MAX) by (nonlinear_arith)
                requires
                    v <= (u32::MAX - d) / 10,
                    d <= 9,
            ;
        }
        v = v * 10 + d;
        i = i + 1;
    }
    proof {
        assert(ds.take(i - start) == ds);
    }
    Ok(v)
}

/// An error in a prefix of the digits is the error of the whole.
proof fn lemma_parse_digits_err_sticks(ds: Seq<char>, k: int)
    requires
        0 <= k <= ds.len(),
        parse_digits(ds.take(k)) is Err,
    ensures
        parse_digits(ds) == parse_digits(ds.take(k)),
    decreases ds.len() - k,
{
    if k == ds.len() {
        assert(ds.take(k) == ds);
    } else {
        assert(ds.take(k + 1).drop_last() == ds.take(k));
        lemma_parse_digits_err_sticks(ds, k + 1);
    }
}


/// Whether the characters `a` spell out `b`.
pub fn eq_chars(a: &[char], b: &str) -> (r: bool)
    ensures
        r == (a@ == b@),
{
    let bs = chars_of(b);
    if a.len() != bs.len() {
        return false;
    }
    let mut i: usize = 0;
    while i < a.len()
        invariant
            0 <= i <= a@.len(),
            a@.len() == bs@.len(),
            bs@ == b@,
            forall|k: int| 0 <= k < i ==> a@[k] == bs@[k],
        decreases a@.len() - i,
    {
        if a[i] != bs[i] {
            return false;
        }
        i = i + 1;
    }
    proof {
        assert(a@ =~= bs@);
    }
    true
}

/// Whether two strings hold the same characters.
pub fn str_eq(a: &str, b: &str) -> (r: bool)
    ensures
        r == (a@ == b@),
{
    let ac = chars_of(a);
    eq_chars(ac.as_slice(), b)
}

/// Whether one of the strings of `v` is `x`.
pub fn contains_str(v: &Vec<String>, x: &str) -> (r: bool)
    ensures
        r == views(v@).contains(x@),
{
    let mut i: usize = 0;
    while i < v.len()
        invariant
            0 <= i <= v@.len(),
            forall|k: int| 0 <= k < i ==> (#[trigger] v@[k])@ != x@,
        decreases v@.len() - i,
    {
        if str_eq(v[i].as_str(), x) {
            proof {
                assert(views(v@)[i as int] == x@);
            }
            return true;
        }
        i = i + 1;
    }
    proof {
        if views(v@).contains(x@) {
            let k = choose|k: int| 0 <= k < views(v@).len() && views(v@)[k] == x@;
            assert(v@[k]@ == x@);
        }
    }
    false
}

/// The text of an optional string slice.
pub open spec fn opt_str(o: Option<&str>) -> Option<Seq<char>> {
    match o {
        Some(s) => Some(s@),
        None => None,
    }
}

/// `p` is a prefix of `s`.
pub open spec fn has_prefix(s: Seq<char>, p: Seq<char>) -> bool {
    s.len() >= p.len() && s.take(p.len() as int) == p
}

/// `str::starts_with` for a string prefix.
pub fn starts_with_str(s: &str, prefix: &str) -> (b: bool)
    ensures
        b == has_prefix(s@, prefix@),
{
    let cs = chars_of(s);
    let ps = chars_of(prefix);
    let r = matches_at(cs.as_slice(), ps.as_slice(), 0);
    proof {
        if cs@.len() >= ps@.len() {
            assert(cs@.subrange(0, ps@.len() as int) == cs@.take(ps@.len() as int));
        }
    }
    r
}

/// `p` is a suffix of `s`.
pub open spec fn has_suffix(s: Seq<char>, p: Seq<char>) -> bool {
    s.len() >= p.len() && s.skip(s.len() - p.len()) == p
}

/// `str::ends_with` for a string suffix.
pub fn ends_with_str(s: &str, suffix: &str) -> (b: bool)
    ensures
        b == has_suffix(s@, suffix@),
{
    let cs = chars_of(s);
    let ps = chars_of(suffix);
    if ps.len() > cs.len() {
        return false;
    }
    let r = matches_at(cs.as_slice(), ps.as_slice(), cs.len() - ps.len());
    proof {
        assert(cs@.subrange(cs@.len() - ps@.len(), cs@.len() as int) == cs@.skip(cs@.len() - ps@.len()));
    }
    r
}

/// The last index of `c` in `s` (`str::rfind` of a character).
pub open spec fn rfind_char(s: Seq<char>, c: char) -> Option<int>
    decreases s.len(),
{
    if s.len() == 0 {
        None
    } else if s.last() == c {
        Some(s.len() - 1)
    } else {
        rfind_char(s.drop_last(), c)
    }
}

/// What `rfind_char` gives: the last occurrence.
pub proof fn lemma_rfind_char(s: Seq<char>, c: char)
    ensures
        match rfind_char(s, c) {
            Some(k) => 0 <= k < s.len() && s[k] == c && forall|j: int| k < j < s.len() ==> s[j] != c,
            None => forall|j: int| 0 <= j < s.len() ==> s[j] != c,
        },
    decreases s.len(),
{
    if s.len() > 0 {
        let d = s.drop_last();
        lemma_rfind_char(d, c);
        assert(s.last() == s[s.len() - 1]);
        assert forall|j: int| 0 <= j < d.len() implies d[j] == s[j] by {}
        if s.last() != c {
            match rfind_char(d, c) {
                Some(k) => {
                    assert(s[k] == c);
                    assert forall|j: int| k < j < s.len() implies s[j] != c by {
                        if j < d.len() {
                            assert(d[j] != c);
                        }
                    }
                },
                None => {
                    assert forall|j: int| 0 <= j < s.len() implies s[j] != c by {
                        if j < d.len() {
                            assert(d[j] != c);
                        }
                    }
                },
            }
        }
    }
}

/// The last index of `c` in the characters `s`.
pub fn rfind_in(s: &[char], c: char) -> (r: Option<usize>)
    ensures
        match rfind_char(s@, c) {
            Some(k) => r == Some(k as usize),
            None => r is None,
        },
{
    let mut k: usize = s.len();
    proof {
        assert(s@.take(k as int) =~= s@);
    }
    while k > 0
        invariant
            0 <= k <= s@.len(),
            rfind_char(s@, c) == rfind_char(s@.take(k as int), c),
        decreases k,
    {
        proof {
            assert(s@.take(k as int).drop_last() =~= s@.take(k - 1));
            assert(s@.take(k as int).last() == s@[k - 1]);
        }
        if s[k - 1] == c {
            return Some(k - 1);
        }
        k = k - 1;
    }
    proof {
        assert(s@.take(0) =~= Seq::<char>::empty());
    }
    None
}

/// The message that `std::num::ParseIntError` displays for each kind.
pub open spec fn int_error_msg(e: IntErrorKind) -> Seq<char> {
    match e {
        IntErrorKind::Empty => "cannot parse integer from empty string"@,
        IntErrorKind::InvalidDigit => "invalid digit found in string"@,
        IntErrorKind::PosOverflow => "number too large to fit in target type"@,
    }
}

/// Executable `int_error_msg`.
pub fn int_error_text(e: IntErrorKind) -> (r: &'static str)
    ensures
        r@ == int_error_msg(e),
{
    match e {
        IntErrorKind::Empty => "cannot parse integer from empty string",
        IntErrorKind::InvalidDigit => "invalid digit found in string",
        IntErrorKind::PosOverflow => "number too large to fit in target type",
    }
}

/// The number of bytes in the UTF-8 encoding of `s`.
pub open spec fn utf8_len(s: Seq<char>) -> nat {
    vstd::utf8::encode_utf8(s).len()
}

/// The encoding of a concatenation is the concatenation of the encodings.
pub proof fn lemma_encode_utf8_concat(a: Seq<char>, b: Seq<char>)
    ensures
        vstd::utf8::encode_utf8(a + b) == vstd::utf8::encode_utf8(a) + vstd::utf8::encode_utf8(b),
    decreases a.len(),
{
    if a.len() == 0 {
        assert(a + b =~= b);
    } else {
        lemma_encode_utf8_concat(a.drop_first(), b);
        assert((a + b).drop_first() =~= a.drop_first() + b);
        assert((a + b)[0] == a[0]);
    }
}

/// The number of UTF-8 bytes of one character (`char::len_utf8`).
pub fn utf8_width(c: char) -> (w: usize)
    ensures
        w == vstd::utf8::encode_scalar(c as u32).len(),
        1 <= w <= 4,
{
    let u = c as u32;
    if u <= 0x7F {
        1
    } else if u <= 0x7FF {
        2
    } else if u <= 0xFFFF {
        proof {
            vstd::utf8::char_is_scalar(c);
        }
        3
    } else {
        4
    }
}

/// The UTF-8 byte offset of the character index `i` of `cs`.
pub fn utf8_offset(cs: &[char], i: usize) -> (r: usize)
    requires
        i <= cs@.len(),
        utf8_len(cs@) <= usize::MAX,
    ensures
        r == utf8_len(cs@.take(i as int)),
{
    let mut k: usize = 0;
    let mut total: usize = 0;
    while k < i
        invariant
            0 <= k <= i <= cs@.len(),
            utf8_len(cs@) <= usize::MAX,
            total == utf8_len(cs@.take(k as int)),
        decreases i - k,
    {
        let w = utf8_width(cs[k]);
        proof {
            let t = cs@.take(k as int);
            assert(cs@.take(k + 1) =~= t + seq![cs@[k as int]]);
            lemma_encode_utf8_concat(t, seq![cs@[k as int]]);
            assert(seq![cs@[k as int]].drop_first() =~= Seq::<char>::empty());
            assert(vstd::utf8::encode_utf8(Seq::<char>::empty()) =~= Seq::<u8>::empty());
            assert(vstd::utf8::encode_utf8(seq![cs@[k as int]]) =~= vstd::utf8::encode_scalar(
                cs@[k as int] as u32,
            ));
            assert(cs@ =~= cs@.take(k + 1) + cs@.skip(k + 1));
            lemma_encode_utf8_concat(cs@.take(k + 1), cs@.skip(k + 1));
        }
        total = total + w;
        k = k + 1;
    }
    total
}

/// `s` with every run of three or more newlines shortened to two.
pub open spec fn cap_newlines(s: Seq<char>) -> Seq<char>
    decreases s.len(),
{
    if s.len() == 0 {
        s
    } else {
        let p = cap_newlines(s.drop_last());
        if s.last() == '\n' && p.len() >= 2 && p[p.len() - 1] == '\n' && p[p.len() - 2] == '\n' {
            p
        } else {
            p.push(s.last())
        }
    }
}

/// Executable `cap_newlines`.
pub fn cap_newline_runs(cs: &[char]) -> (out: String)
    ensures
        out@ == cap_newlines(cs@),
{
    let mut acc: Vec<char> = Vec::new();
    let mut i: usize = 0;
    while i < cs.len()
        invariant
            0 <= i <= cs@.len(),
            acc@ == cap_newlines(cs@.take(i as int)),
        decreases cs@.len() - i,
    {
        let c = cs[i];
        proof {
            assert(cs@.take(i + 1).drop_last() == cs@.take(i as int));
            assert(cs@.take(i + 1).last() == c);
        }
        let n = acc.len();
        if !(c == '\n' && n >= 2 && acc[n - 1] == '\n' && acc[n - 2] == '\n') {
            acc.push(c);
        }
        i = i + 1;
    }
    proof {
        assert(cs@.take(cs@.len() as int) == cs@);
    }
    string_from(acc.as_slice())
}

/// A suffix without newlines of `cap_newlines(s)` is a suffix of `s`.
pub proof fn lemma_cap_suffix(s: Seq<char>, w: Seq<char>)
    requires
        forall|k: int| 0 <= k < w.len() ==> #[trigger] w[k] != '\n',
        w.len() <= cap_newlines(s).len(),
        cap_newlines(s).skip(cap_newlines(s).len() - w.len()) == w,
    ensures
        w.len() <= s.len(),
        s.skip(s.len() - w.len()) == w,
    decreases s.len(),
{
    if w.len() == 0 {
        assert(s.skip(s.len() as int) =~= w);
    } else {
        let c = cap_newlines(s);
        assert(s.len() > 0);
        let d = s.drop_last();
        let p = cap_newlines(d);
        assert(w.last() == c.last()) by {
            assert(c.skip(c.len() - w.len())[w.len() - 1] == c[c.len() - 1]);
        }
        if s.last() == '\n' && p.len() >= 2 && p[p.len() - 1] == '\n' && p[p.len() - 2] == '\n' {
            assert(c == p);
            assert(w.last() != '\n');
        } else {
            assert(c == p.push(s.last()));
            let v = w.drop_last();
            assert(p.skip(p.len() - v.len()) =~= v) by {
                assert forall|k: int| 0 <= k < v.len() implies p.skip(p.len() - v.len())[k]
                    == v[k] by {
                    assert(c.skip(c.len() - w.len())[k] == c[c.len() - w.len() + k]);
                }
            }
            lemma_cap_suffix(d, v);
            assert(s.skip(s.len() - w.len()) =~= w) by {
                assert forall|k: int| 0 <= k < w.len() implies s.skip(s.len() - w.len())[k]
                    == w[k] by {
                    if k < v.len() {
                        assert(d.skip(d.len() - v.len())[k] == d[d.len() - v.len() + k]);
                    }
                }
            }
        }
    }
}

/// Shortening newline runs makes no text without newlines appear.
pub proof fn lemma_cap_contains(s: Seq<char>, w: Seq<char>)
    requires
        w.len() > 0,
        forall|k: int| 0 <= k < w.len() ==> #[trigger] w[k] != '\n',
        contains_seq(cap_newlines(s), w),
    ensures
        contains_seq(s, w),
    decreases s.len(),
{
    let c = cap_newlines(s);
    let j = choose|j: int| occurs_at(c, w, j);
    if s.len() == 0 {
        assert(c.len() == 0);
    } else {
        let d = s.drop_last();
        let p = cap_newlines(d);
        let tail = c.len() - w.len();
        if j + w.len() <= p.len() && (c == p || c == p.push(s.last())) {
            assert(occurs_at(p, w, j)) by {
                assert(p.subrange(j, j + w.len()) =~= c.subrange(j, j + w.len()));
            }
            lemma_cap_contains(d, w);
            let i = choose|i: int| occurs_at(d, w, i);
            assert(occurs_at(s, w, i)) by {
                assert(s.subrange(i, i + w.len()) =~= d.subrange(i, i + w.len()));
            }
        } else if s.last() == '\n' && p.len() >= 2 && p[p.len() - 1] == '\n' && p[p.len() - 2]
            == '\n' {
            assert(c == p);
        } else {
            assert(c == p.push(s.last()));
            assert(j == tail);
            assert(c.skip(tail) =~= w) by {
                assert(c.subrange(j, j + w.len()) =~= c.skip(tail));
            }
            lemma_cap_suffix(s, w);
            assert(occurs_at(s, w, s.len() - w.len())) by {
                assert(s.subrange(s.len() - w.len(), s.len() as int) =~= s.skip(s.len() - w.len()));
            }
        }
    }
}


/// Reading characters that are no separators only extends the current
/// piece.
pub proof fn lemma_split_acc_no_sep(a: Seq<char>, b: Seq<char>, sep: Sep)
    requires
        forall|i: int| 0 <= i < b.len() ==> !is_sep(sep, #[trigger] b[i]),
    ensures
        split_acc(a + b, sep) == (split_acc(a, sep).0, split_acc(a, sep).1 + b),
    decreases b.len(),
{
    if b.len() == 0 {
        assert(a + b =~= a);
        assert(split_acc(a, sep).1 + b =~= split_acc(a, sep).1);
    } else {
        lemma_split_acc_no_sep(a, b.drop_last(), sep);
        assert((a + b).drop_last() =~= a + b.drop_last());
        assert((a + b).last() == b.last());
        assert(split_acc(a, sep).1 + b.drop_last() + seq![b.last()] =~= split_acc(a, sep).1 + b);
        assert(!is_sep(sep, b[b.len() - 1]));
    }
}

/// Reading a separator closes the current piece.
pub proof fn lemma_split_acc_sep(a: Seq<char>, c: char, sep: Sep)
    requires
        is_sep(sep, c),
    ensures
        split_acc(a.push(c), sep) == (
            split_acc(a, sep).0.push(split_acc(a, sep).1),
            Seq::<char>::empty(),
        ),
{
    assert(a.push(c).drop_last() =~= a);
}

/// A text without separators is one piece.
pub proof fn lemma_split_single(w: Seq<char>, sep: Sep)
    requires
        forall|i: int| 0 <= i < w.len() ==> !is_sep(sep, #[trigger] w[i]),
    ensures
        split_seq(w, sep) == seq![w],
{
    lemma_split_acc_no_sep(Seq::empty(), w, sep);
    assert(Seq::<char>::empty() + w =~= w);
    assert(Seq::<char>::empty() + w =~= w);
    assert(Seq::<Seq<char>>::empty().push(w) =~= seq![w]);
}

/// Two pieces around one separator.
pub proof fn lemma_split_pair(w1: Seq<char>, c: char, w2: Seq<char>, sep: Sep)
    requires
        forall|i: int| 0 <= i < w1.len() ==> !is_sep(sep, #[trigger] w1[i]),
        forall|i: int| 0 <= i < w2.len() ==> !is_sep(sep, #[trigger] w2[i]),
        is_sep(sep, c),
    ensures
        split_seq(w1 + seq![c] + w2, sep) == seq![w1, w2],
{
    lemma_split_acc_no_sep(Seq::empty(), w1, sep);
    assert(Seq::<char>::empty() + w1 =~= w1);
    lemma_split_acc_sep(w1, c, sep);
    assert(w1.push(c) =~= w1 + seq![c]);
    lemma_split_acc_no_sep(w1 + seq![c], w2, sep);
    assert(Seq::<char>::empty() + w2 =~= w2);
    assert(Seq::<Seq<char>>::empty().push(w1).push(w2) =~= seq![w1, w2]);
}

/// Splitting what was joined with a separator that no part holds gives
/// back the parts.
pub proof fn lemma_split_join(parts: Seq<Seq<char>>, c: char)
    requires
        parts.len() >= 1,
        forall|i: int, j: int|
            0 <= i < parts.len() && 0 <= j < parts[i].len() ==> #[trigger] parts[i][j] != c,
    ensures
        split_seq(join_seq(parts, seq![c]), Sep::Char(c)) == parts,
    decreases parts.len(),
{
    if parts.len() == 1 {
        let w = parts[0];
        assert forall|j: int| 0 <= j < w.len() implies !is_sep(Sep::Char(c), #[trigger] w[j]) by {
            assert(parts[0][j] != c);
        }
        lemma_split_single(w, Sep::Char(c));
        assert(seq![w] =~= parts);
    } else {
        let init = parts.drop_last();
        let last = parts.last();
        assert forall|i: int, j: int|
            0 <= i < init.len() && 0 <= j < init[i].len() implies #[trigger] init[i][j] != c by {
            assert(init[i] == parts[i]);
        }
        lemma_split_join(init, c);
        let ji = join_seq(init, seq![c]);
        assert forall|j: int| 0 <= j < last.len() implies !is_sep(
            Sep::Char(c),
            #[trigger] last[j],
        ) by {
            assert(parts[parts.len() - 1][j] != c);
        }
        lemma_split_acc_sep(ji, c, Sep::Char(c));
        assert(ji.push(c) =~= ji + seq![c]);
        lemma_split_acc_no_sep(ji + seq![c], last, Sep::Char(c));
        assert(Seq::<char>::empty() + last =~= last);
        assert(split_seq(ji, Sep::Char(c)).push(last) =~= parts);
    }
}

/// Nothing is left out of pieces that are all non-empty.
pub proof fn lemma_non_empty_all(ps: Seq<Seq<char>>)
    requires
        forall|i: int| 0 <= i < ps.len() ==> (#[trigger] ps[i]).len() > 0,
    ensures
        non_empty(ps) == ps,
    decreases ps.len(),
{
    if ps.len() > 0 {
        let init = ps.drop_last();
        assert forall|i: int| 0 <= i < init.len() implies (#[trigger] init[i]).len() > 0 by {
            assert(init[i] == ps[i]);
        }
        lemma_non_empty_all(init);
        assert(ps.last() == ps[ps.len() - 1]);
        assert(init.push(ps.last()) =~= ps);
    }
}

/// A pattern free of the separator occurs in a joined text only inside
/// one of its parts.
pub proof fn lemma_join_occurrence(parts: Seq<Seq<char>>, c: char, pat: Seq<char>, p: int)
    requires
        pat.len() > 0,
        forall|j: int| 0 <= j < pat.len() ==> #[trigger] pat[j] != c,
        occurs_at(join_seq(parts, seq![c]), pat, p),
    ensures
        exists|i: int| 0 <= i < parts.len() && contains_seq(#[trigger] parts[i], pat),
    decreases parts.len(),
{
    let js = join_seq(parts, seq![c]);
    if parts.len() == 0 {
        assert(js.len() == 0);
    } else if parts.len() == 1 {
        assert(occurs_at(parts[0], pat, p));
        assert(contains_seq(parts[0], pat));
    } else {
        let init = parts.drop_last();
        let ji = join_seq(init, seq![c]);
        let last = parts.last();
        assert(js == ji + seq![c] + last);
        if p + pat.len() <= ji.len() {
            assert(ji.subrange(p, p + pat.len()) =~= js.subrange(p, p + pat.len()));
            lemma_join_occurrence(init, c, pat, p);
            let i = choose|i: int| 0 <= i < init.len() && contains_seq(#[trigger] init[i], pat);
            assert(init[i] == parts[i]);
        } else if p >= ji.len() + 1 {
            let q = p - ji.len() - 1;
            assert(last.subrange(q, q + pat.len()) =~= js.subrange(p, p + pat.len()));
            assert(occurs_at(last, pat, q));
            assert(parts[parts.len() - 1] == last);
        } else {
            let k = ji.len() - p;
            assert(js.subrange(p, p + pat.len())[k] == js[ji.len() as int]);
            assert(pat[k] == c);
        }
    }
}


/// The decimal representation consists of digits, at least one.
pub proof fn lemma_decimal_digits(n: nat)
    ensures
        decimal(n).len() >= 1,
        forall|i: int| 0 <= i < decimal(n).len() ==> '0' <= #[trigger] decimal(n)[i] <= '9',
    decreases n,
{
    if n >= 10 {
        lemma_decimal_digits(n / 10);
        assert forall|i: int| 0 <= i < decimal(n).len() implies '0' <= #[trigger] decimal(
            n,
        )[i] <= '9' by {
            if i < decimal(n / 10).len() {
                assert(decimal(n)[i] == decimal(n / 10)[i]);
            }
        }
    }
}

/// Reading the decimal representation of a `u32` gives it back.
pub proof fn lemma_parse_decimal(n: u32)
    ensures
        parse_u32_seq(decimal(n as nat)) == Ok::<u32, IntErrorKind>(n),
{
    lemma_parse_digits_decimal(n as nat);
    lemma_decimal_digits(n as nat);
    assert('0' <= decimal(n as nat)[0] <= '9');
}

proof fn lemma_parse_digits_decimal(n: nat)
    requires
        n <= u32::MAX,
    ensures
        parse_digits(decimal(n)) == Ok::<u32, IntErrorKind>(n as u32),
    decreases n,
{
    let d = n % 10;
    assert(digit_char(d) as u32 == '0' as u32 + d);
    let c = digit_char(d);
    assert('0' <= c && c <= '9');
    assert(c as u32 - '0' as u32 == d);
    if n < 10 {
        let s = decimal(n);
        assert(s.drop_last() =~= Seq::<char>::empty());
        assert(s.last() == c);
        assert(parse_digits(s.drop_last()) == Ok::<u32, IntErrorKind>(0));
    } else {
        lemma_parse_digits_decimal(n / 10);
        let s = decimal(n);
        assert(s.drop_last() == decimal(n / 10));
        assert(s.last() == c);
        assert((n / 10) * 10 + d == n);
    }
}

/// A word surrounded by one space on each side trims to itself.
pub proof fn lemma_trim_spaced(w: Seq<char>)
    requires
        w.len() > 0,
        !is_ws(w[0]),
        !is_ws(w.last()),
    ensures
        trim_seq(seq![' '] + w + seq![' ']) == w,
{
    let s = seq![' '] + w + seq![' '];
    assert(s[0] == ' ');
    assert(s[1] == w[0]);
    lemma_trim_start_prefix(s, 1);
    let t = s.skip(1);
    assert(t =~= w + seq![' ']);
    assert(t[w.len() - 1] == w.last());
    lemma_trim_end_prefix(t, w.len() as int);
    assert(t.take(w.len() as int) =~= w);
}


/// An occurrence with none before it is the first one.
pub proof fn lemma_find_from_first(s: Seq<char>, pat: Seq<char>, i: int, k: int)
    requires
        0 <= i <= k,
        occurs_at(s, pat, k),
        forall|j: int| i <= j < k ==> !occurs_at(s, pat, j),
    ensures
        find_from(s, pat, i) == Some(k),
{
    lemma_find_from(s, pat, i);
    match find_from(s, pat, i) {
        Some(k2) => {
            if k2 < k {
                assert(!occurs_at(s, pat, k2));
            } else if k2 > k {
                assert(!occurs_at(s, pat, k));
            }
        },
        None => {
            assert(!occurs_at(s, pat, k));
        },
    }
}


/// Each character of a joined text is the separator or a character of a
/// part.
pub proof fn lemma_join_chars(parts: Seq<Seq<char>>, c: char, k: int)
    requires
        0 <= k < join_seq(parts, seq![c]).len(),
    ensures
        join_seq(parts, seq![c])[k] == c || exists|i: int, j: int|
            0 <= i < parts.len() && 0 <= j < parts[i].len() && join_seq(parts, seq![c])[k]
                == #[trigger] parts[i][j],
    decreases parts.len(),
{
    let js = join_seq(parts, seq![c]);
    if parts.len() == 1 {
        assert(js[k] == parts[0][k]);
    } else if parts.len() > 1 {
        let init = parts.drop_last();
        let ji = join_seq(init, seq![c]);
        let last = parts.last();
        if k < ji.len() {
            assert(js[k] == ji[k]);
            lemma_join_chars(init, c, k);
            if ji[k] != c {
                let (i, j) = choose|i: int, j: int|
                    0 <= i < init.len() && 0 <= j < init[i].len() && ji[k] == #[trigger] init[i][j];
                assert(init[i] == parts[i]);
            }
        } else if k > ji.len() {
            assert(js[k] == last[k - ji.len() - 1]);
            assert(parts[parts.len() - 1] == last);
        }
    }
}

} // verus!
