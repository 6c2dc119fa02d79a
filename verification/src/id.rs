//! Skill ids: `namespace/name`, the one identity on the protocol surface.

use vstd::prelude::*;
use crate::error::Error;
use crate::text::{chars_of, concat, push_char, push_str, string_from, find_seq};

verus! {

/// Longest namespace, in characters.
pub const NAMESPACE_MAX: usize = 39;

/// Longest skill name, in characters.
pub const NAME_MAX: usize = 63;

/// Longest full id, in bytes.
pub const TOTAL_MAX: usize = 100;

/// A character that may start a segment: `[a-z0-9]`.
pub open spec fn is_seg_head(c: char) -> bool {
    ('a' <= c && c <= 'z') || ('0' <= c && c <= '9')
}

/// A character that may follow inside a segment: `[a-z0-9-]`.
pub open spec fn is_seg_char(c: char) -> bool {
    is_seg_head(c) || c == '-'
}

/// `s` matches `[a-z0-9][a-z0-9-]{0,max-1}`.
pub open spec fn valid_segment(s: Seq<char>, max: nat) -> bool {
    &&& 1 <= s.len() <= max
    &&& is_seg_head(s[0])
    &&& forall|i: int| 1 <= i < s.len() ==> is_seg_char(#[trigger] s[i])
}

/// A namespace, `[a-z0-9][a-z0-9-]{0,38}`.
#[derive(Debug)]
pub struct Namespace(String);

/// A short skill name, `[a-z0-9][a-z0-9-]{0,62}`.
#[derive(Debug)]
pub struct SkillName(String);

/// A full skill id.
#[derive(Debug)]
pub struct SkillId {
    pub namespace: Namespace,
    pub name: SkillName,
}

impl View for Namespace {
    type V = Seq<char>;

    closed spec fn view(&self) -> Seq<char> {
        self.0@
    }
}

impl View for SkillName {
    type V = Seq<char>;

    closed spec fn view(&self) -> Seq<char> {
        self.0@
    }
}

impl SkillId {
    /// The id's text, `namespace/name`.
    pub open spec fn text(&self) -> Seq<char> {
        self.namespace@ + seq!['/'] + self.name@
    }
}

/// Checks `s` against the segment grammar with at most `max` characters.
pub fn is_valid_segment(s: &str, max: usize) -> (b: bool)
    ensures
        b == valid_segment(s@, max as nat),
{
    let cs = chars_of(s);
    if cs.len() == 0 || cs.len() > max {
        return false;
    }
    let first = cs[0];
    if !(('a' <= first && first <= 'z') || ('0' <= first && first <= '9')) {
        return false;
    }
    let mut i: usize = 1;
    while i < cs.len()
        invariant
            1 <= i <= cs@.len(),
            cs@ == s@,
            forall|k: int| 1 <= k < i ==> is_seg_char(#[trigger] cs@[k]),
        decreases cs@.len() - i,
    {
        let c = cs[i];
        if !(('a' <= c && c <= 'z') || ('0' <= c && c <= '9') || c == '-') {
            return false;
        }
        i = i + 1;
    }
    true
}

impl Namespace {
    /// A copy of the namespace.
    pub fn clone(&self) -> (r: Namespace)
        ensures
            r == *self,
    {
        Namespace(self.0.clone())
    }

    /// Parses a namespace.
    pub fn parse(s: &str) -> (r: Result<Namespace, Error>)
        ensures
            valid_segment(s@, NAMESPACE_MAX as nat) ==> (r matches Ok(ns) && ns@ == s@),
            !valid_segment(s@, NAMESPACE_MAX as nat) ==> (r matches Err(Error::InvalidSkillId(m))
                && m@ == "invalid namespace: "@ + s@),
    {
        if !is_valid_segment(s, NAMESPACE_MAX) {
            return Err(Error::InvalidSkillId(concat("invalid namespace: ", s)));
        }
        Ok(Namespace(s.to_owned()))
    }

    /// The namespace's text.
    pub fn as_str(&self) -> (r: &str)
        ensures
            r@ == self@,
    {
        self.0.as_str()
    }
}

impl SkillName {
    /// Parses a short skill name.
    pub fn parse(s: &str) -> (r: Result<SkillName, Error>)
        ensures
            valid_segment(s@, NAME_MAX as nat) ==> (r matches Ok(n) && n@ == s@),
            !valid_segment(s@, NAME_MAX as nat) ==> (r matches Err(Error::InvalidSkillId(m))
                && m@ == "invalid name: "@ + s@),
    {
        if !is_valid_segment(s, NAME_MAX) {
            return Err(Error::InvalidSkillId(concat("invalid name: ", s)));
        }
        Ok(SkillName(s.to_owned()))
    }

    /// The name's text.
    pub fn as_str(&self) -> (r: &str)
        ensures
            r@ == self@,
    {
        self.0.as_str()
    }
}

/// What `SkillId::parse` decides for the text `s` whose UTF-8 length is
/// `byte_len`.
pub enum IdVerdict {
    TooLong,
    MissingNamespace,
    BadNamespace(Seq<char>),
    BadName(Seq<char>),
    Valid(Seq<char>, Seq<char>),
}

/// The grammar of full ids: at most `TOTAL_MAX` bytes, split at the first
/// `/` into a valid namespace and a valid name.
pub open spec fn id_verdict(s: Seq<char>, byte_len: nat) -> IdVerdict {
    if byte_len > TOTAL_MAX {
        IdVerdict::TooLong
    } else {
        match find_seq(s, seq!['/']) {
            None => IdVerdict::MissingNamespace,
            Some(k) => {
                let ns = s.take(k);
                let name = s.skip(k + 1);
                if !valid_segment(ns, NAMESPACE_MAX as nat) {
                    IdVerdict::BadNamespace(ns)
                } else if !valid_segment(name, NAME_MAX as nat) {
                    IdVerdict::BadName(name)
                } else {
                    IdVerdict::Valid(ns, name)
                }
            },
        }
    }
}

/// The UTF-8 length of a text, as `str::len` reports it.
pub open spec fn byte_len(s: Seq<char>) -> nat {
    (crate::text::utf8_len(s) as usize) as nat
}

/// `s` is a well-formed full skill id.
pub open spec fn valid_id(s: Seq<char>) -> bool {
    id_verdict(s, byte_len(s)) is Valid
}

/// What `SkillId::parse` gives for the text `s`: the id whose parts are the
/// text's two segments, or the error that names the first fault.
pub open spec fn parse_outcome(s: Seq<char>, r: Result<SkillId, Error>) -> bool {
    match id_verdict(s, byte_len(s)) {
        IdVerdict::Valid(ns, name) => r matches Ok(id) && id.namespace@ == ns && id.name@ == name
            && id.text() == s,
        IdVerdict::TooLong => r matches Err(Error::InvalidSkillId(m)) && m@ == "id too long: "@
            + s,
        IdVerdict::MissingNamespace => r matches Err(Error::InvalidSkillId(m)) && m@
            == "missing namespace: "@ + s,
        IdVerdict::BadNamespace(ns) => r matches Err(Error::InvalidSkillId(m)) && m@
            == "invalid namespace: "@ + ns,
        IdVerdict::BadName(name) => r matches Err(Error::InvalidSkillId(m)) && m@
            == "invalid name: "@ + name,
    }
}

impl SkillId {
    /// Parses `namespace/name`.
    pub fn parse(s: &str) -> (r: Result<SkillId, Error>)
        ensures
            parse_outcome(s@, r),
    {
        assert(s.len() as nat == byte_len(s@));
        if s.len() > TOTAL_MAX {
            return Err(Error::InvalidSkillId(concat("id too long: ", s)));
        }
        let cs = chars_of(s);
        let slash: [char; 1] = ['/'];
        let found = crate::text::find_in(cs.as_slice(), &slash, 0);
        proof {
            assert(slash@ == seq!['/']);
        }
        match found {
            None => Err(Error::InvalidSkillId(concat("missing namespace: ", s))),
            Some(k) => {
                proof {
                    crate::text::lemma_find_seq(s@, seq!['/']);
                    assert(crate::text::occurs_at(s@, seq!['/'], k as int));
                    assert(k + 1 <= cs.len());
                }
                let ns_s = crate::text::substring(cs.as_slice(), 0, k);
                let name_s = crate::text::substring(cs.as_slice(), k + 1, cs.len());
                proof {
                    crate::text::lemma_find_seq(s@, seq!['/']);
                    assert(cs@.subrange(0, k as int) == s@.take(k as int));
                    assert(cs@.subrange(k + 1, cs@.len() as int) == s@.skip(k + 1));
                }
                let namespace = Namespace::parse(ns_s.as_str())?;
                let name = SkillName::parse(name_s.as_str())?;
                let id = SkillId { namespace, name };
                proof {
                    assert(s@.subrange(k as int, k + 1) == seq!['/']);
                    assert(s@ =~= s@.take(k as int) + seq!['/'] + s@.skip(k + 1));
                }
                Ok(id)
            },
        }
    }

    /// A copy of the id.
    pub fn clone(&self) -> (r: SkillId)
        ensures
            r == *self,
    {
        SkillId {
            namespace: Namespace(self.namespace.0.clone()),
            name: SkillName(self.name.0.clone()),
        }
    }

    /// The id's text, `namespace/name`.
    pub fn to_string(&self) -> (r: String)
        ensures
            r@ == self.text(),
    {
        let mut out = self.namespace.as_str().to_owned();
        push_char(&mut out, '/');
        push_str(&mut out, self.name.as_str());
        out
    }
}


/// Every full id whose text is at most `TOTAL_MAX` characters long parses
/// back into the same namespace and name: the text that `to_string` gives
/// is read by `parse` as that id.
pub proof fn law_id_text_roundtrip(s: &str, ns: Seq<char>, name: Seq<char>)
    requires
        valid_segment(ns, NAMESPACE_MAX as nat),
        valid_segment(name, NAME_MAX as nat),
        s@ == ns + seq!['/'] + name,
        s@.len() <= TOTAL_MAX,
    ensures
        id_verdict(s@, byte_len(s@)) == IdVerdict::Valid(ns, name),
{
    let t = s@;
    assert(vstd::utf8::is_ascii_chars(t)) by {
        assert forall|i: int| 0 <= i < t.len() implies '\0' <= #[trigger] t[i] <= '\u{7f}' by {
            if i < ns.len() {
                assert(t[i] == ns[i]);
                if i > 0 {
                    assert(is_seg_char(ns[i]));
                }
            } else if i == ns.len() {
            } else {
                assert(t[i] == name[i - ns.len() - 1]);
                if i > ns.len() + 1 {
                    assert(is_seg_char(name[i - ns.len() - 1]));
                }
            }
        }
    }
    vstd::utf8::is_ascii_chars_encode_utf8(t);
    assert(byte_len(t) == t.len());
    crate::text::lemma_find_seq(t, seq!['/']);
    let k = ns.len() as int;
    assert(t.subrange(k, k + 1) =~= seq!['/']);
    assert(crate::text::occurs_at(t, seq!['/'], k));
    assert forall|j: int| 0 <= j < k implies !crate::text::occurs_at(t, seq!['/'], j) by {
        assert(t.subrange(j, j + 1)[0] == ns[j]);
        if j > 0 {
            assert(is_seg_char(ns[j]));
        }
    }
    assert(find_seq(t, seq!['/']) == Some(k));
    assert(t.take(k) =~= ns);
    assert(t.skip(k + 1) =~= name);
}

} // verus!
