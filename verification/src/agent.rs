//! The managed block in `AGENTS.md`: the one discovery path of the
//! protocol.
//!
//! The block's bytes depend on the protocol version and the `started_from`
//! profile names alone; writing it again changes nothing; nothing outside
//! its markers is ever touched.

use vstd::prelude::*;
use crate::error::Error;
use crate::text::{
    cap_newline_runs, cap_newlines, chars_of, contains_seq, decimal, is_ws, push_char, eq_chars, find_from, find_in, find_seq, int_error_msg, int_error_text, join,
    join_seq, lemma_find_from, lemma_find_seq, non_empty, occurs_at, parse_u32, parse_u32_seq,
    push_decimal, push_str, split_by, split_seq, substring, trim, trim_seq, utf8_len, utf8_offset,
    views, words_seq, IntErrorKind, Sep,
};

verus! {

/// The opening marker, up to its attributes.
pub const START_PREFIX: &'static str = "<!-- skillctl:start";

/// The closing marker.
pub const END_MARKER: &'static str = "<!-- skillctl:end -->";

/// The end of the opening marker.
pub const CLOSE: &'static str = "-->";

/// The block version that this library writes.
pub const PROTOCOL_VERSION: u32 = 1;

/// The body of the block, between the two markers.
pub const BLOCK_BODY: &'static str = "## skillctl\n\nThis project uses skillctl to manage Agent skills.\n\nRules:\n- Use only project-enabled skills. Do not scan the filesystem for skills.\n- Before non-trivial work, list available skills (TSV: tier / id / summary / triggers):\n  `skillctl list --project --format tsv`\n- Inspect a skill's structured metadata before loading it:\n  `skillctl describe <skill-id> --format json`\n- Load a skill's full instructions only when needed:\n  `skillctl show <skill-id>`\n- Tier semantics:\n  - `core` skills are persistent guidance — load once at session start and\n    keep them in context for the whole session.\n  - `extra` skills are loaded on demand when their summary or triggers match\n    the current task.\n- Once loaded, do not let skill content be truncated during context\n  compaction, and do not re-load a skill already in context.\n";

/// A managed block found in a file.
#[derive(Debug)]
pub struct ManagedBlock {
    /// The `version=` attribute.
    pub version: u32,
    /// The `started_from=` profile names.
    pub started_from: Vec<String>,
    /// The block's byte range in the file, markers included, with the newline
    /// that follows the end marker when there is one.
    pub byte_range: std::ops::Range<usize>,
}

/// The attribute text of the opening marker.
pub open spec fn attr_text(version: u32, started_from: Seq<Seq<char>>) -> Seq<char> {
    if started_from.len() == 0 {
        " version="@ + decimal(version as nat)
    } else {
        " version="@ + decimal(version as nat) + " started_from="@ + join_seq(started_from, ","@)
    }
}

/// The whole block as `render_block` writes it.
pub open spec fn block_text(version: u32, started_from: Seq<Seq<char>>) -> Seq<char> {
    START_PREFIX@ + attr_text(version, started_from) + " -->\n"@ + BLOCK_BODY@ + "\n"@
        + END_MARKER@ + "\n"@
}

/// Renders the block for a protocol version and the profiles the project
/// started from.
pub fn render_block(version: u32, started_from: &[String]) -> (out: String)
    ensures
        out@ == block_text(version, views(started_from@)),
{
    let mut out = START_PREFIX.to_owned();
    push_str(&mut out, " version=");
    push_decimal(&mut out, version);
    if started_from.len() > 0 {
        push_str(&mut out, " started_from=");
        let joined = join(started_from, ",");
        push_str(&mut out, joined.as_str());
    }
    push_str(&mut out, " -->\n");
    push_str(&mut out, BLOCK_BODY);
    push_str(&mut out, "\n");
    push_str(&mut out, END_MARKER);
    push_str(&mut out, "\n");
    proof {
        assert(out@ =~= block_text(version, views(started_from@)));
    }
    out
}

/// The block of the current protocol version.
pub fn default_block(started_from: &[String]) -> (out: String)
    ensures
        out@ == block_text(PROTOCOL_VERSION, views(started_from@)),
{
    render_block(PROTOCOL_VERSION, started_from)
}

/// What a scan of a file's characters finds, in character positions.
pub enum Scan {
    /// No opening marker.
    Absent,
    /// An opening marker without its `-->`.
    NoClose,
    /// An opening marker without a closing marker after it.
    NoEnd,
    /// A block from `start` to `end` (exclusive, the newline after the end
    /// marker included when present), with its trimmed attribute text.
    Found { start: int, attrs: Seq<char>, end: int },
}

/// The first block of `c`: the first opening marker, the first `-->` after
/// its prefix, the first end marker after that.
pub open spec fn scan(c: Seq<char>) -> Scan {
    match find_seq(c, START_PREFIX@) {
        None => Scan::Absent,
        Some(st) => {
            let a = st + START_PREFIX@.len();
            match find_from(c, CLOSE@, a) {
                None => Scan::NoClose,
                Some(cl) => {
                    let he = cl + CLOSE@.len();
                    match find_from(c, END_MARKER@, he) {
                        None => Scan::NoEnd,
                        Some(e) => {
                            let be = e + END_MARKER@.len();
                            Scan::Found {
                                start: st,
                                attrs: trim_seq(c.subrange(a, cl)),
                                end: if be < c.len() && c[be] == '\n' {
                                    be + 1
                                } else {
                                    be
                                },
                            }
                        },
                    }
                },
            }
        },
    }
}

/// Reads one `key=value` attribute into the version and profile names read
/// so far; other keys, and words without `=`, are skipped.
pub open spec fn attr_step(
    acc: Result<(u32, Seq<Seq<char>>), IntErrorKind>,
    part: Seq<char>,
) -> Result<(u32, Seq<Seq<char>>), IntErrorKind> {
    match acc {
        Err(e) => Err(e),
        Ok((v, sf)) => match find_seq(part, seq!['=']) {
            None => Ok((v, sf)),
            Some(i) => {
                let key = part.take(i);
                let val = part.skip(i + 1);
                if key == "version"@ {
                    match parse_u32_seq(val) {
                        Ok(n) => Ok((n, sf)),
                        Err(e) => Err(e),
                    }
                } else if key == "started_from"@ {
                    Ok((v, non_empty(split_seq(val, Sep::Char(',')))))
                } else {
                    Ok((v, sf))
                }
            },
        },
    }
}

/// The attributes read from a sequence of words, left to right, starting
/// from the current version and no profile names.
pub open spec fn attrs_fold(parts: Seq<Seq<char>>) -> Result<(u32, Seq<Seq<char>>), IntErrorKind>
    decreases parts.len(),
{
    if parts.len() == 0 {
        Ok((PROTOCOL_VERSION, Seq::empty()))
    } else {
        attr_step(attrs_fold(parts.drop_last()), parts.last())
    }
}

/// The attributes of a trimmed attribute text.
pub open spec fn parse_attrs_spec(attrs: Seq<char>) -> Result<(u32, Seq<Seq<char>>), IntErrorKind> {
    attrs_fold(words_seq(attrs))
}

/// Reads the attributes of an opening marker.
pub fn parse_attrs(attrs: &str) -> (r: Result<(u32, Vec<String>), Error>)
    ensures
        match parse_attrs_spec(attrs@) {
            Ok((v, sf)) => r matches Ok((v2, sf2)) && v2 == v && views(sf2@) == sf,
            Err(e) => r matches Err(Error::Other(m)) && m@ == "invalid version attr: "@
                + int_error_msg(e),
        },
{
    let cs = chars_of(attrs);
    let parts = split_by(cs.as_slice(), Sep::Whitespace, true);
    let mut version: u32 = PROTOCOL_VERSION;
    let mut started_from: Vec<String> = Vec::new();
    let eq: [char; 1] = ['='];
    proof {
        assert(eq@ =~= seq!['=']);
        assert(views(parts@).take(0) =~= Seq::<Seq<char>>::empty());
        assert(views(started_from@) =~= Seq::<Seq<char>>::empty());
    }
    let mut i: usize = 0;
    while i < parts.len()
        invariant
            0 <= i <= parts@.len(),
            views(parts@) == words_seq(attrs@),
            eq@ == seq!['='],
            attrs_fold(views(parts@).take(i as int)) == Ok::<(u32, Seq<Seq<char>>), IntErrorKind>(
                (version, views(started_from@)),
            ),
        decreases parts@.len() - i,
    {
        let part = chars_of(parts[i].as_str());
        proof {
            assert(views(parts@).take(i + 1).drop_last() =~= views(parts@).take(i as int));
            assert(views(parts@).take(i + 1).last() == part@);
        }
        match find_in(part.as_slice(), &eq, 0) {
            None => {},
            Some(k) => {
                proof {
                    lemma_find_seq(part@, seq!['=']);
                    assert(occurs_at(part@, seq!['='], k as int));
                    assert(k + 1 <= part.len());
                }
                let key = &part.as_slice()[0..k];
                let val = &part.as_slice()[k + 1..part.len()];
                proof {
                    assert(key@ == part@.take(k as int));
                    assert(val@ == part@.skip(k + 1));
                }
                if eq_chars(key, "version") {
                    match parse_u32(val) {
                        Ok(n) => {
                            version = n;
                        },
                        Err(e) => {
                            proof {
                                lemma_fold_err_sticks(views(parts@), (i + 1) as int);
                            }
                            let mut m = "invalid version attr: ".to_owned();
                            push_str(&mut m, int_error_text(e));
                            return Err(Error::Other(m));
                        },
                    }
                } else if eq_chars(key, "started_from") {
                    started_from = split_by(val, Sep::Char(','), true);
                }
            },
        }
        i = i + 1;
    }
    proof {
        assert(views(parts@).take(parts@.len() as int) == views(parts@));
    }
    Ok((version, started_from))
}

/// A failure while reading some attributes fails the whole marker.
proof fn lemma_fold_err_sticks(parts: Seq<Seq<char>>, k: int)
    requires
        0 <= k <= parts.len(),
        attrs_fold(parts.take(k)) is Err,
    ensures
        attrs_fold(parts) == attrs_fold(parts.take(k)),
    decreases parts.len() - k,
{
    if k == parts.len() {
        assert(parts.take(k) == parts);
    } else {
        assert(parts.take(k + 1).drop_last() == parts.take(k));
        lemma_fold_err_sticks(parts, k + 1);
    }
}

/// A scan in executable form, in character positions.
pub enum ScanResult {
    Absent,
    NoClose,
    NoEnd,
    Found { start: usize, attrs: String, end: usize },
}

/// `r` reports what `scan` finds in `c`.
pub open spec fn scan_agrees(r: ScanResult, c: Seq<char>) -> bool {
    match scan(c) {
        Scan::Absent => r is Absent,
        Scan::NoClose => r is NoClose,
        Scan::NoEnd => r is NoEnd,
        Scan::Found { start, attrs, end } => r matches ScanResult::Found { start: s, attrs: a, end: e }
            && s == start && a@ == attrs && e == end,
    }
}

/// Scans the characters of a file for its first block.
pub fn scan_chars(cs: &[char]) -> (r: ScanResult)
    ensures
        scan_agrees(r, cs@),
        r matches ScanResult::Found { start, end, .. } ==> start <= end <= cs@.len(),
{
    let start_p = chars_of(START_PREFIX);
    let close_p = chars_of(CLOSE);
    let end_p = chars_of(END_MARKER);
    let st = match find_in(cs, start_p.as_slice(), 0) {
        None => {
            return ScanResult::Absent;
        },
        Some(st) => st,
    };
    proof {
        lemma_find_from(cs@, START_PREFIX@, 0);
        assert(occurs_at(cs@, START_PREFIX@, st as int));
        assert(st + start_p@.len() <= cs.len());
    }
    let a = st + start_p.len();
    let cl = match find_in(cs, close_p.as_slice(), a) {
        None => {
            return ScanResult::NoClose;
        },
        Some(cl) => cl,
    };
    proof {
        lemma_find_from(cs@, CLOSE@, a as int);
        assert(occurs_at(cs@, CLOSE@, cl as int));
        assert(cl + close_p@.len() <= cs.len());
    }
    let he = cl + close_p.len();
    let e = match find_in(cs, end_p.as_slice(), he) {
        None => {
            return ScanResult::NoEnd;
        },
        Some(e) => e,
    };
    proof {
        lemma_find_from(cs@, END_MARKER@, he as int);
        assert(occurs_at(cs@, END_MARKER@, e as int));
        assert(e + end_p@.len() <= cs.len());
    }
    let be = e + end_p.len();
    let end = if be < cs.len() && cs[be] == '\n' {
        be + 1
    } else {
        be
    };
    let raw = substring(cs, a, cl);
    let attrs = trim(raw.as_str());
    ScanResult::Found { start: st, attrs, end }
}

/// Finds the block in a file's contents.
pub fn find(content: &str) -> (r: Result<Option<ManagedBlock>, Error>)
    ensures
        match scan(content@) {
            Scan::Absent => r matches Ok(None),
            Scan::NoClose => r matches Err(Error::Other(m)) && m@
                == "malformed start marker: missing `-->`"@,
            Scan::NoEnd => r matches Err(Error::Other(m)) && m@
                == "malformed managed block: missing end marker"@,
            Scan::Found { start, attrs, end } => match parse_attrs_spec(attrs) {
                Err(e) => r matches Err(Error::Other(m)) && m@ == "invalid version attr: "@
                    + int_error_msg(e),
                Ok((v, sf)) => r matches Ok(Some(b)) && b.version == v && views(
                    b.started_from@,
                ) == sf && b.byte_range.start == utf8_len(content@.take(start))
                    && b.byte_range.end == utf8_len(content@.take(end)),
            },
        },
{
    let bytes = content.as_bytes();
    let nbytes = bytes.len();
    proof {
        assert(utf8_len(content@) == nbytes);
    }
    let cs = chars_of(content);
    match scan_chars(cs.as_slice()) {
        ScanResult::Absent => Ok(None),
        ScanResult::NoClose => Err(Error::Other("malformed start marker: missing `-->`".to_owned())),
        ScanResult::NoEnd => Err(
            Error::Other("malformed managed block: missing end marker".to_owned()),
        ),
        ScanResult::Found { start, attrs, end } => {
            let (version, started_from) = parse_attrs(attrs.as_str())?;
            let b0 = utf8_offset(cs.as_slice(), start);
            let b1 = utf8_offset(cs.as_slice(), end);
            Ok(Some(ManagedBlock { version, started_from, byte_range: b0..b1 }))
        },
    }
}


/// The error message that reading the first block of `c` ends in, if any.
pub open spec fn scan_failure(c: Seq<char>) -> Option<Seq<char>> {
    match scan(c) {
        Scan::NoClose => Some("malformed start marker: missing `-->`"@),
        Scan::NoEnd => Some("malformed managed block: missing end marker"@),
        Scan::Found { attrs, .. } => match parse_attrs_spec(attrs) {
            Err(e) => Some("invalid version attr: "@ + int_error_msg(e)),
            Ok(_) => None,
        },
        Scan::Absent => None,
    }
}

/// Existing content made ready for a block appended at its end: it ends in
/// an empty line.
pub open spec fn padded(o: Seq<char>) -> Seq<char> {
    let s1 = if o.len() > 0 && o.last() == '\n' {
        o
    } else {
        o.push('\n')
    };
    if s1.len() >= 2 && s1[s1.len() - 2] == '\n' {
        s1
    } else {
        s1.push('\n')
    }
}

/// The content after writing `block`: the first block replaced in place,
/// or `block` appended after an empty line (alone in an empty file).
pub open spec fn upserted(o: Seq<char>, block: Seq<char>) -> Seq<char> {
    match scan(o) {
        Scan::Found { start, end, .. } => o.take(start) + block + o.skip(end),
        _ => if o.len() == 0 {
            block
        } else {
            padded(o) + block
        },
    }
}

/// The content after removing the first block, with runs of blank lines
/// that this leaves shortened; content without a block is returned as is.
pub open spec fn removed(o: Seq<char>) -> Seq<char> {
    match scan(o) {
        Scan::Found { start, end, .. } => cap_newlines(o.take(start) + o.skip(end)),
        _ => o,
    }
}

/// The new content of a file that held `original` after writing `block`
/// into it. The caller writes it back only when it differs.
pub fn upsert(original: &str, block: &str) -> (r: Result<String, Error>)
    ensures
        scan_failure(original@) matches Some(m) ==> (r matches Err(Error::Other(e)) && e@ == m),
        scan_failure(original@) is None ==> (r matches Ok(s) && s@ == upserted(
            original@,
            block@,
        )),
{
    let cs = chars_of(original);
    let scanned = scan_chars(cs.as_slice());
    match scanned {
        ScanResult::Absent => {
            if cs.len() == 0 {
                return Ok(block.to_owned());
            }
            let mut s = original.to_owned();
            if cs[cs.len() - 1] != '\n' {
                push_char(&mut s, '\n');
            }
            let n = chars_of(s.as_str());
            if !(n.len() >= 2 && n[n.len() - 2] == '\n') {
                push_char(&mut s, '\n');
            }
            push_str(&mut s, block);
            Ok(s)
        },
        ScanResult::NoClose => Err(Error::Other("malformed start marker: missing `-->`".to_owned())),
        ScanResult::NoEnd => Err(
            Error::Other("malformed managed block: missing end marker".to_owned()),
        ),
        ScanResult::Found { start, attrs, end } => {
            let _ = parse_attrs(attrs.as_str())?;
            let mut s = substring(cs.as_slice(), 0, start);
            push_str(&mut s, block);
            let rest = substring(cs.as_slice(), end, cs.len());
            push_str(&mut s, rest.as_str());
            proof {
                assert(cs@.subrange(0, start as int) == original@.take(start as int));
                assert(cs@.subrange(end as int, cs@.len() as int) == original@.skip(end as int));
            }
            Ok(s)
        },
    }
}

/// The new content of a file that held `original` after removing its
/// block. The caller writes it back only when it differs.
pub fn remove(original: &str) -> (r: Result<String, Error>)
    ensures
        scan_failure(original@) matches Some(m) ==> (r matches Err(Error::Other(e)) && e@ == m),
        scan_failure(original@) is None ==> (r matches Ok(s) && s@ == removed(original@)),
{
    let cs = chars_of(original);
    match scan_chars(cs.as_slice()) {
        ScanResult::Absent => Ok(original.to_owned()),
        ScanResult::NoClose => Err(Error::Other("malformed start marker: missing `-->`".to_owned())),
        ScanResult::NoEnd => Err(
            Error::Other("malformed managed block: missing end marker".to_owned()),
        ),
        ScanResult::Found { start, attrs, end } => {
            let _ = parse_attrs(attrs.as_str())?;
            let mut joined: Vec<char> = Vec::new();
            let mut i: usize = 0;
            while i < cs.len()
                invariant
                    0 <= start <= end <= cs@.len(),
                    0 <= i <= cs@.len(),
                    joined@ == (if i <= start {
                        cs@.take(i as int)
                    } else if i <= end {
                        cs@.take(start as int)
                    } else {
                        cs@.take(start as int) + cs@.subrange(end as int, i as int)
                    }),
                decreases cs@.len() - i,
            {
                if i < start || i >= end {
                    joined.push(cs[i]);
                }
                proof {
                    if i < start {
                        assert(cs@.take(i + 1) == cs@.take(i as int).push(cs@[i as int]));
                    } else if i >= end {
                        assert(cs@.subrange(end as int, i + 1) == cs@.subrange(
                            end as int,
                            i as int,
                        ).push(cs@[i as int]));
                        if i == end {
                            assert(cs@.subrange(end as int, i as int) =~= Seq::<char>::empty());
                        }
                    }
                }
                i = i + 1;
            }
            proof {
                if cs@.len() <= start {
                    assert(cs@.take(cs@.len() as int) == cs@.take(start as int));
                    assert(cs@.skip(end as int) =~= Seq::<char>::empty());
                } else if cs@.len() <= end {
                    assert(cs@.skip(end as int) =~= Seq::<char>::empty());
                }
                assert(joined@ =~= original@.take(start as int) + original@.skip(end as int));
            }
            Ok(cap_newline_runs(joined.as_slice()))
        },
    }
}


/// Profile names that survive a round trip through the opening marker:
/// non-empty, without whitespace or commas, and without `-->`.
pub open spec fn entries_ok(sf: Seq<Seq<char>>) -> bool {
    forall|i: int|
        0 <= i < sf.len() ==> {
            &&& (#[trigger] sf[i]).len() > 0
            &&& forall|j: int| 0 <= j < sf[i].len() ==> !is_ws(#[trigger] sf[i][j]) && sf[i][j] != ','
            &&& !contains_seq(sf[i], CLOSE@)
        }
}

/// The attribute words of the opening marker, without the leading space.
pub open spec fn attr_words(version: u32, started_from: Seq<Seq<char>>) -> Seq<char> {
    attr_text(version, started_from).drop_first()
}

proof fn lemma_literals()
    ensures
        START_PREFIX@.len() == 19,
        START_PREFIX@[0] == '<',
        forall|k: int| 1 <= k < 19 ==> #[trigger] START_PREFIX@[k] != '<',
        CLOSE@ == seq!['-', '-', '>'],
        END_MARKER@.len() == 21,
        END_MARKER@[0] == '<',
        END_MARKER@[1] == '!',
        " -->\n"@ == seq![' ', '-', '-', '>', '\n'],
        "\n"@ == seq!['\n'],
        ","@ == seq![','],
        forall|i: int| 0 <= i < BLOCK_BODY@.len() ==> #[trigger] BLOCK_BODY@[i] != '!',
{
    reveal_strlit("<!-- skillctl:start");
    reveal_strlit("-->");
    reveal_strlit("<!-- skillctl:end -->");
    reveal_strlit(" -->\n");
    reveal_strlit("\n");
    reveal_strlit(",");
    reveal_strlit("## skillctl\n\nThis project uses skillctl to manage Agent skills.\n\nRules:\n- Use only project-enabled skills. Do not scan the filesystem for skills.\n- Before non-trivial work, list available skills (TSV: tier / id / summary / triggers):\n  `skillctl list --project --format tsv`\n- Inspect a skill's structured metadata before loading it:\n  `skillctl describe <skill-id> --format json`\n- Load a skill's full instructions only when needed:\n  `skillctl show <skill-id>`\n- Tier semantics:\n  - `core` skills are persistent guidance — load once at session start and\n    keep them in context for the whole session.\n  - `extra` skills are loaded on demand when their summary or triggers match\n    the current task.\n- Once loaded, do not let skill content be truncated during context\n  compaction, and do not re-load a skill already in context.\n");
}


/// The `version=` word.
pub open spec fn version_word(version: u32) -> Seq<char> {
    "version"@ + seq!['='] + decimal(version as nat)
}

/// The `started_from=` word.
pub open spec fn started_word(sf: Seq<Seq<char>>) -> Seq<char> {
    "started_from"@ + seq!['='] + join_seq(sf, seq![','])
}

proof fn lemma_version_word(version: u32, v0: u32, sf0: Seq<Seq<char>>)
    ensures
        version_word(version).len() > 0,
        forall|i: int|
            0 <= i < version_word(version).len() ==> !is_ws(#[trigger] version_word(version)[i]),
        attr_step(Ok((v0, sf0)), version_word(version)) == Ok::<
            (u32, Seq<Seq<char>>),
            IntErrorKind,
        >((version, sf0)),
{
    reveal_strlit("version");
    let dec = decimal(version as nat);
    crate::text::lemma_decimal_digits(version as nat);
    crate::text::lemma_parse_decimal(version);
    let p1 = version_word(version);
    assert forall|i: int| 0 <= i < p1.len() implies !is_ws(#[trigger] p1[i]) by {
        if i >= 8 {
            assert(p1[i] == dec[i - 8]);
        }
    }
    assert(occurs_at(p1, seq!['='], 7)) by {
        assert(p1.subrange(7, 8) =~= seq!['=']);
    }
    assert forall|j: int| 0 <= j < 7 implies !occurs_at(p1, seq!['='], j) by {
        assert(p1.subrange(j, j + 1)[0] == p1[j]);
    }
    crate::text::lemma_find_from_first(p1, seq!['='], 0, 7);
    assert(p1.take(7) =~= "version"@);
    assert(p1.skip(8) =~= dec);
}

proof fn lemma_started_word(sf: Seq<Seq<char>>, v0: u32, sf0: Seq<Seq<char>>)
    requires
        entries_ok(sf),
        sf.len() > 0,
    ensures
        started_word(sf).len() > 0,
        forall|i: int| 0 <= i < started_word(sf).len() ==> !is_ws(#[trigger] started_word(sf)[i]),
        attr_step(Ok((v0, sf0)), started_word(sf)) == Ok::<(u32, Seq<Seq<char>>), IntErrorKind>(
            (v0, sf),
        ),
{
    reveal_strlit("started_from");
    reveal_strlit("version");
    let js = join_seq(sf, seq![',']);
    assert forall|i: int, j: int|
        0 <= i < sf.len() && 0 <= j < sf[i].len() implies #[trigger] sf[i][j] != ',' by {}
    crate::text::lemma_split_join(sf, ',');
    crate::text::lemma_non_empty_all(sf);
    let p2 = started_word(sf);
    assert forall|i: int| 0 <= i < p2.len() implies !is_ws(#[trigger] p2[i]) by {
        if i >= 13 {
            assert(p2[i] == js[i - 13]);
            crate::text::lemma_join_chars(sf, ',', i - 13);
        }
    }
    assert(occurs_at(p2, seq!['='], 12)) by {
        assert(p2.subrange(12, 13) =~= seq!['=']);
    }
    assert forall|j: int| 0 <= j < 12 implies !occurs_at(p2, seq!['='], j) by {
        assert(p2.subrange(j, j + 1)[0] == p2[j]);
    }
    crate::text::lemma_find_from_first(p2, seq!['='], 0, 12);
    assert(p2.take(12) =~= "started_from"@);
    assert(p2.skip(13) =~= js);
    assert("started_from"@.len() != "version"@.len());
}

/// The attributes that `render_block` writes read back as the version and
/// profile names that it was given.
proof fn lemma_attrs_roundtrip(version: u32, sf: Seq<Seq<char>>)
    requires
        entries_ok(sf),
    ensures
        attr_text(version, sf) == seq![' '] + attr_words(version, sf),
        trim_seq(attr_text(version, sf) + seq![' ']) == attr_words(version, sf),
        parse_attrs_spec(attr_words(version, sf)) == Ok::<(u32, Seq<Seq<char>>), IntErrorKind>(
            (version, sf),
        ),
{
    reveal_strlit(" version=");
    reveal_strlit(" started_from=");
    reveal_strlit("version");
    reveal_strlit("started_from");
    reveal_strlit(",");
    let p1 = version_word(version);
    lemma_version_word(version, PROTOCOL_VERSION, Seq::empty());
    let words = attr_words(version, sf);
    assert(seq![p1].drop_last() =~= Seq::<Seq<char>>::empty());
    assert(attrs_fold(seq![p1]) == attr_step(attrs_fold(Seq::empty()), p1));
    if sf.len() == 0 {
        assert(attr_text(version, sf) =~= seq![' '] + p1);
        assert(words =~= p1);
        crate::text::lemma_split_single(p1, Sep::Whitespace);
        crate::text::lemma_non_empty_all(seq![p1]);
        assert(words_seq(words) == seq![p1]);
        assert(sf =~= Seq::<Seq<char>>::empty());
        crate::text::lemma_trim_spaced(p1);
    } else {
        let p2 = started_word(sf);
        lemma_started_word(sf, version, Seq::empty());
        assert(","@ =~= seq![',']);
        assert(attr_text(version, sf) =~= seq![' '] + (p1 + seq![' '] + p2));
        assert(words =~= p1 + seq![' '] + p2);
        crate::text::lemma_split_pair(p1, ' ', p2, Sep::Whitespace);
        crate::text::lemma_non_empty_all(seq![p1, p2]);
        assert(words_seq(words) == seq![p1, p2]);
        assert(seq![p1, p2].drop_last() =~= seq![p1]);
        assert(attrs_fold(seq![p1, p2]) == attr_step(attrs_fold(seq![p1]), p2));
        let w = p1 + seq![' '] + p2;
        assert(w.last() == p2.last());
        crate::text::lemma_trim_spaced(w);
    }
}


/// Where the pieces of a rendered block stand.
proof fn lemma_block_layout(version: u32, sf: Seq<Seq<char>>)
    ensures
        ({
            let at = attr_text(version, sf);
            let bd = BLOCK_BODY@;
            let n = at.len() as int;
            let m = bd.len() as int;
            let b = block_text(version, sf);
            &&& b.len() == 47 + n + m
            &&& b.subrange(0, 19) == START_PREFIX@
            &&& forall|k: int| 19 <= k < 19 + n ==> #[trigger] b[k] == at[k - 19]
            &&& b[19 + n] == ' '
            &&& b.subrange(20 + n, 23 + n) == CLOSE@
            &&& b[23 + n] == '\n'
            &&& forall|k: int|
                24 + n <= k < 24 + n + m ==> #[trigger] b[k] == bd[k - 24
                    - n]
            &&& b[24 + n + m] == '\n'
            &&& b.subrange(25 + n + m, 46 + n + m) == END_MARKER@
            &&& b[46 + n + m] == '\n'
        }),
{
    lemma_literals();
    let at = attr_text(version, sf);
    let bd = BLOCK_BODY@;
    let b = block_text(version, sf);
    let n = at.len() as int;
    let m = bd.len() as int;
    assert(b == START_PREFIX@ + at + " -->\n"@ + bd + "\n"@ + END_MARKER@ + "\n"@);
    assert(b.subrange(0, 19) =~= START_PREFIX@);
    assert(b.subrange(20 + n, 23 + n) =~= CLOSE@);
    assert(b.subrange(25 + n + m, 46 + n + m) =~= END_MARKER@);
}

/// The attribute text holds no `-->`.
proof fn lemma_attr_no_close(version: u32, sf: Seq<Seq<char>>)
    requires
        entries_ok(sf),
    ensures
        !contains_seq(attr_text(version, sf), CLOSE@),
{
    lemma_literals();
    reveal_strlit(" version=");
    reveal_strlit(" started_from=");
    let at = attr_text(version, sf);
    let dec = decimal(version as nat);
    crate::text::lemma_decimal_digits(version as nat);
    let fixed = if sf.len() == 0 {
        " version="@ + dec
    } else {
        " version="@ + dec + " started_from="@
    };
    assert forall|q: int| 0 <= q < fixed.len() implies #[trigger] fixed[q] != '-' by {
        if q >= 9 && q < 9 + dec.len() {
            assert(fixed[q] == dec[q - 9]);
        }
    }
    if sf.len() == 0 {
        assert(at =~= fixed);
    } else {
        assert(","@ =~= seq![',']);
        let js = join_seq(sf, seq![',']);
        assert(at =~= fixed + js);
        assert forall|q: int| !occurs_at(at, CLOSE@, q) by {
            if occurs_at(at, CLOSE@, q) {
                assert(at.subrange(q, q + 3)[0] == at[q]);
                if q < fixed.len() {
                    assert(at[q] == fixed[q]);
                } else {
                    let r = q - fixed.len();
                    assert(js.subrange(r, r + 3) =~= at.subrange(q, q + 3));
                    crate::text::lemma_join_occurrence(sf, ',', CLOSE@, r);
                }
            }
        }
    }
}

/// In a file that holds a rendered block after content without an opening
/// marker, the scan finds exactly that block.
#[verifier::spinoff_prover]
#[verifier::rlimit(50)]
proof fn lemma_scan_rendered(x: Seq<char>, version: u32, sf: Seq<Seq<char>>, y: Seq<char>)
    requires
        !contains_seq(x, START_PREFIX@),
        entries_ok(sf),
    ensures
        scan(x + block_text(version, sf) + y) == (Scan::Found {
            start: x.len() as int,
            attrs: attr_words(version, sf),
            end: (x.len() + block_text(version, sf).len()) as int,
        }),
{
    lemma_literals();
    lemma_block_layout(version, sf);
    lemma_attr_no_close(version, sf);
    lemma_attrs_roundtrip(version, sf);
    let b = block_text(version, sf);
    let at = attr_text(version, sf);
    let bd = BLOCK_BODY@;
    let c = x + b + y;
    let xl = x.len() as int;
    let n = at.len() as int;
    let m = bd.len() as int;
    assert forall|k: int| 0 <= k < b.len() implies #[trigger] c[xl + k] == b[k] by {}
    // The opening marker.
    assert(occurs_at(c, START_PREFIX@, xl)) by {
        assert(c.subrange(xl, xl + 19) =~= b.subrange(0, 19));
    }
    assert forall|j: int| 0 <= j < xl implies !occurs_at(c, START_PREFIX@, j) by {
        if occurs_at(c, START_PREFIX@, j) {
            if j + 19 <= xl {
                assert(x.subrange(j, j + 19) =~= c.subrange(j, j + 19));
                assert(occurs_at(x, START_PREFIX@, j));
            } else {
                let k = xl - j;
                assert(c.subrange(j, j + 19)[k] == c[xl]);
                assert(c[xl] == b[0]);
                assert(b[0] == b.subrange(0, 19)[0]);
            }
        }
    }
    crate::text::lemma_find_from_first(c, START_PREFIX@, 0, xl);
    // The end of the opening marker.
    let a = xl + 19;
    let cl = xl + 20 + n;
    assert(occurs_at(c, CLOSE@, cl)) by {
        assert(c.subrange(cl, cl + 3) =~= b.subrange(20 + n, 23 + n));
    }
    assert forall|p: int| a <= p < cl implies !occurs_at(c, CLOSE@, p) by {
        if occurs_at(c, CLOSE@, p) {
            let q = p - a;
            let w = c.subrange(p, p + 3);
            assert(w[0] == '-' && w[1] == '-' && w[2] == '>');
            if q + 3 <= n {
                assert(at.subrange(q, q + 3) =~= w);
                assert(occurs_at(at, CLOSE@, q));
            } else if q == n - 2 {
                assert(w[2] == c[xl + 19 + n]);
            } else {
                assert(w[1] == c[xl + 19 + n]);
            }
        }
    }
    crate::text::lemma_find_from_first(c, CLOSE@, a, cl);
    // The end marker.
    let he = cl + 3;
    let e = xl + 25 + n + m;
    assert(occurs_at(c, END_MARKER@, e)) by {
        assert(c.subrange(e, e + 21) =~= b.subrange(25 + n + m, 46 + n + m));
    }
    assert forall|p: int| he <= p < e implies !occurs_at(c, END_MARKER@, p) by {
        if occurs_at(c, END_MARKER@, p) {
            let w = c.subrange(p, p + 21);
            assert(w[1] == END_MARKER@[1]);
            assert(w[1] == c[p + 1]);
            if p + 1 < xl + 24 + n + m {
                assert(c[p + 1] == bd[p + 1 - xl - 24 - n]);
            } else if p + 1 == xl + 24 + n + m {
            } else {
                assert(c[p + 1] == b[25 + n + m]);
                assert(b[25 + n + m] == b.subrange(25 + n + m, 46 + n + m)[0]);
            }
        }
    }
    crate::text::lemma_find_from_first(c, END_MARKER@, he, e);
    let be = e + 21;
    assert(c[be] == '\n');
    assert(c.subrange(a, cl) =~= at + seq![' ']);
}


/// A block that `render_block` wrote, after content without an opening
/// marker, is found again whole, with the version and profile names it was
/// rendered from (the profile names being `entries_ok`).
pub proof fn law_find_rendered(x: Seq<char>, version: u32, sf: Seq<Seq<char>>)
    requires
        !contains_seq(x, START_PREFIX@),
        entries_ok(sf),
    ensures
        scan(x + block_text(version, sf)) == (Scan::Found {
            start: x.len() as int,
            attrs: attr_words(version, sf),
            end: (x.len() + block_text(version, sf).len()) as int,
        }),
        parse_attrs_spec(attr_words(version, sf)) == Ok::<(u32, Seq<Seq<char>>), IntErrorKind>(
            (version, sf),
        ),
        scan_failure(x + block_text(version, sf)) is None,
{
    let b = block_text(version, sf);
    assert(x + b + Seq::<char>::empty() =~= x + b);
    lemma_scan_rendered(x, version, sf, Seq::empty());
    lemma_attrs_roundtrip(version, sf);
}

/// Content that precedes the first opening marker holds none.
proof fn lemma_before_first_start(o: Seq<char>, start: int)
    requires
        find_seq(o, START_PREFIX@) == Some(start),
    ensures
        !contains_seq(o.take(start), START_PREFIX@),
{
    lemma_find_seq(o, START_PREFIX@);
    assert(occurs_at(o, START_PREFIX@, start));
    let x = o.take(start);
    assert(x.len() == start);
    assert forall|j: int| !occurs_at(x, START_PREFIX@, j) by {
        if occurs_at(x, START_PREFIX@, j) {
            assert(o.subrange(j, j + START_PREFIX@.len()) =~= x.subrange(
                j,
                j + START_PREFIX@.len(),
            ));
            assert(occurs_at(o, START_PREFIX@, j));
            reveal_strlit("<!-- skillctl:start");
            assert(j < start);
        }
    }
}

/// Padding adds no opening marker.
proof fn lemma_padded_no_start(o: Seq<char>)
    requires
        !contains_seq(o, START_PREFIX@),
    ensures
        !contains_seq(padded(o), START_PREFIX@),
{
    reveal_strlit("<!-- skillctl:start");
    let p = padded(o);
    assert(START_PREFIX@.len() == 19);
    assert forall|k: int| 0 <= k < 19 implies #[trigger] START_PREFIX@[k] != '\n' by {}
    assert forall|k: int| o.len() <= k < p.len() implies #[trigger] p[k] == '\n' by {}
    assert forall|k: int| 0 <= k < o.len() implies #[trigger] p[k] == o[k] by {}
    assert forall|j: int| !occurs_at(p, START_PREFIX@, j) by {
        if occurs_at(p, START_PREFIX@, j) {
            if j + 19 <= o.len() {
                assert(o.subrange(j, j + 19) =~= p.subrange(j, j + 19));
                assert(occurs_at(o, START_PREFIX@, j));
            } else {
                let k = o.len() - j;
                assert(p.subrange(j, j + 19)[k] == p[o.len() as int]);
            }
        }
    }
}

/// Writing a rendered block is idempotent: once written, writing it again
/// gives the same content (the profile names being `entries_ok`).
pub proof fn law_upsert_idempotent(o: Seq<char>, version: u32, sf: Seq<Seq<char>>)
    requires
        scan_failure(o) is None,
        entries_ok(sf),
    ensures
        scan_failure(upserted(o, block_text(version, sf))) is None,
        upserted(upserted(o, block_text(version, sf)), block_text(version, sf)) == upserted(
            o,
            block_text(version, sf),
        ),
{
    let b = block_text(version, sf);
    let r = upserted(o, b);
    lemma_attrs_roundtrip(version, sf);
    match scan(o) {
        Scan::Found { start, end, .. } => {
            let x = o.take(start);
            let y = o.skip(end);
            lemma_before_first_start(o, start);
            lemma_scan_rendered(x, version, sf, y);
            assert(r == x + b + y);
            assert(r.take(x.len() as int) =~= x);
            assert(r.skip((x.len() + b.len()) as int) =~= y);
        },
        _ => {
            lemma_find_seq(o, START_PREFIX@);
            let x = if o.len() == 0 {
                Seq::<char>::empty()
            } else {
                padded(o)
            };
            if o.len() > 0 {
                lemma_padded_no_start(o);
            } else {
                assert forall|j: int| !occurs_at(x, START_PREFIX@, j) by {
                    reveal_strlit("<!-- skillctl:start");
                }
            }
            lemma_scan_rendered(x, version, sf, Seq::empty());
            assert(r =~= x + b + Seq::<char>::empty());
            assert(r.take(x.len() as int) =~= x);
            assert(r.skip((x.len() + b.len()) as int) =~= Seq::<char>::empty());
        },
    }
}

/// Writing a block leaves everything outside its markers as it was: the
/// text before and after a replaced block, or the whole existing text when
/// the block is appended.
pub proof fn law_upsert_keeps_outside(o: Seq<char>, block: Seq<char>)
    requires
        scan_failure(o) is None,
    ensures
        scan(o) matches Scan::Found { start, end, .. } ==> {
            &&& upserted(o, block).take(start) == o.take(start)
            &&& upserted(o, block).skip(start + block.len()) == o.skip(end)
        },
        !(scan(o) is Found) ==> upserted(o, block).take(o.len() as int) == o,
{
    let r = upserted(o, block);
    match scan(o) {
        Scan::Found { start, end, .. } => {
            lemma_find_seq(o, START_PREFIX@);
            assert(r.take(start) =~= o.take(start));
            assert(r.skip(start + block.len()) =~= o.skip(end));
        },
        _ => {
            if o.len() == 0 {
                assert(r.take(0) =~= o);
            } else {
                assert forall|k: int| 0 <= k < o.len() implies #[trigger] padded(o)[k] == o[k] by {}
                assert(r.take(o.len() as int) =~= o);
            }
        },
    }
}

/// Removing a block that was just written gives what removing gave before
/// it was written; where the file held no block, the text it held (with
/// the empty line that writing added, and newline runs shortened), and no
/// block is left to find.
pub proof fn law_remove_undoes_upsert(o: Seq<char>, version: u32, sf: Seq<Seq<char>>)
    requires
        scan_failure(o) is None,
        entries_ok(sf),
    ensures
        scan_failure(upserted(o, block_text(version, sf))) is None,
        scan(o) is Found ==> removed(upserted(o, block_text(version, sf))) == removed(o),
        !(scan(o) is Found) ==> {
            &&& removed(upserted(o, block_text(version, sf))) == cap_newlines(
                if o.len() == 0 {
                    o
                } else {
                    padded(o)
                },
            )
            &&& scan(removed(upserted(o, block_text(version, sf)))) is Absent
        },
{
    let b = block_text(version, sf);
    let r = upserted(o, b);
    law_upsert_idempotent(o, version, sf);
    lemma_attrs_roundtrip(version, sf);
    match scan(o) {
        Scan::Found { start, end, .. } => {
            let x = o.take(start);
            let y = o.skip(end);
            lemma_before_first_start(o, start);
            lemma_scan_rendered(x, version, sf, y);
            assert(r == x + b + y);
            assert(r.take(x.len() as int) =~= x);
            assert(r.skip((x.len() + b.len()) as int) =~= y);
        },
        _ => {
            lemma_find_seq(o, START_PREFIX@);
            let x = if o.len() == 0 {
                o
            } else {
                padded(o)
            };
            if o.len() > 0 {
                lemma_padded_no_start(o);
            } else {
                assert forall|j: int| !occurs_at(x, START_PREFIX@, j) by {
                    reveal_strlit("<!-- skillctl:start");
                }
            }
            lemma_scan_rendered(x, version, sf, Seq::empty());
            assert(r =~= x + b + Seq::<char>::empty());
            assert(r.take(x.len() as int) =~= x);
            assert(r.skip((x.len() + b.len()) as int) =~= Seq::<char>::empty());
            assert(x + Seq::<char>::empty() =~= x);
            let out = cap_newlines(x);
            assert(removed(r) == out);
            reveal_strlit("<!-- skillctl:start");
            assert(!contains_seq(out, START_PREFIX@)) by {
                if contains_seq(out, START_PREFIX@) {
                    assert forall|k: int| 0 <= k < START_PREFIX@.len() implies #[trigger] START_PREFIX@[k]
                        != '\n' by {}
                    crate::text::lemma_cap_contains(x, START_PREFIX@);
                }
            }
            lemma_find_seq(out, START_PREFIX@);
        },
    }
}

/// No three newlines stand in a row in `s`.
pub open spec fn no_newline_run(s: Seq<char>) -> bool {
    forall|i: int|
        0 <= i && i + 2 < s.len() ==> !(#[trigger] s[i] == '\n' && s[i + 1] == '\n' && s[i + 2]
            == '\n')
}

/// Text without a run of three newlines is left as it is by shortening
/// such runs.
proof fn lemma_cap_identity(s: Seq<char>)
    requires
        no_newline_run(s),
    ensures
        cap_newlines(s) == s,
    decreases s.len(),
{
    if s.len() > 0 {
        let d = s.drop_last();
        assert(no_newline_run(d)) by {
            assert forall|i: int| 0 <= i && i + 2 < d.len() implies !(#[trigger] d[i] == '\n'
                && d[i + 1] == '\n' && d[i + 2] == '\n') by {
                assert(d[i] == s[i] && d[i + 1] == s[i + 1] && d[i + 2] == s[i + 2]);
            }
        }
        lemma_cap_identity(d);
        if s.last() == '\n' && d.len() >= 2 && d[d.len() - 1] == '\n' && d[d.len() - 2] == '\n' {
            let i = s.len() - 3;
            assert(s[i] == '\n' && s[i + 1] == '\n' && s[i + 2] == '\n');
        }
        assert(d.push(s.last()) =~= s);
    }
}

/// Padding adds no run of three newlines, and padded text needs no more
/// padding.
proof fn lemma_padded_stable(o: Seq<char>)
    requires
        o.len() > 0,
        no_newline_run(o),
    ensures
        no_newline_run(padded(o)),
        padded(padded(o)) == padded(o),
        padded(o).len() > 0,
{
    let p = padded(o);
    let n = o.len() as int;
    assert forall|k: int| 0 <= k < n implies #[trigger] p[k] == o[k] by {}
    assert forall|k: int| n <= k < p.len() implies #[trigger] p[k] == '\n' by {}
    assert(p.len() >= 2 && p[p.len() - 1] == '\n' && p[p.len() - 2] == '\n');
    assert forall|i: int| 0 <= i && i + 2 < p.len() implies !(#[trigger] p[i] == '\n' && p[i + 1]
        == '\n' && p[i + 2] == '\n') by {
        if i + 2 < n {
            assert(o[i] == p[i] && o[i + 1] == p[i + 1] && o[i + 2] == p[i + 2]);
        } else if o.last() != '\n' {
            assert(p =~= o.push('\n').push('\n'));
            assert(i + 2 >= n);
            if i < n {
                assert(p[n - 1] == o.last());
            }
        } else if n >= 2 && o[n - 2] == '\n' {
            assert(p =~= o);
        } else {
            assert(p =~= o.push('\n'));
            if n >= 2 {
                assert(p[n - 2] == o[n - 2]);
            }
        }
    }
}

/// `skillctl enable` and `disable` on a file without a block: enabling a
/// second time changes nothing; disabling a second time changes nothing
/// and succeeds; enabling after disabling gives back exactly what the first
/// enabling wrote. (The file must hold no run of three newlines, which
/// removing would shorten.)
pub proof fn law_enable_disable_cycle(o: Seq<char>, version: u32, sf: Seq<Seq<char>>)
    requires
        scan(o) is Absent,
        no_newline_run(o),
        entries_ok(sf),
    ensures
        ({
            let b = block_text(version, sf);
            let s1 = upserted(o, b);
            &&& scan_failure(s1) is None
            &&& upserted(s1, b) == s1
            &&& scan_failure(removed(s1)) is None
            &&& removed(removed(s1)) == removed(s1)
            &&& upserted(removed(s1), b) == s1
        }),
{
    let b = block_text(version, sf);
    let s1 = upserted(o, b);
    law_upsert_idempotent(o, version, sf);
    law_remove_undoes_upsert(o, version, sf);
    let r1 = removed(s1);
    assert(scan(r1) is Absent);
    assert(removed(r1) == r1);
    if o.len() == 0 {
        assert(cap_newlines(o) =~= o);
        assert(upserted(r1, b) == b);
    } else {
        lemma_padded_stable(o);
        lemma_cap_identity(padded(o));
        assert(r1 == padded(o));
        assert(upserted(r1, b) == padded(padded(o)) + b);
    }
}

} // verus!
