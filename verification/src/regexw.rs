//! Regular-expression matching, delegated to the regex crate.
//!
//! The tokenizer works over the UTF-8 bytes of a line; matching returns
//! plain byte spans and the captured bytes, and everything built on top of
//! them is ordinary verified code. What a pattern matches is a function of
//! the pattern's text and the haystack alone, so the match result carries a
//! name, `spec_captures_of`, that contracts can speak about.

use vstd::prelude::*;

verus! {

#[verifier::external_type_specification]
#[verifier::external_body]
pub struct ExRegex(regex::bytes::Regex);

/// One capture group of one match: its byte span and the bytes it covers.
pub struct ReGroup {
    pub start: usize,
    pub end: usize,
    pub text: Vec<u8>,
}

/// One match: its byte span and every capture group, the whole match first.
pub struct ReMatch {
    pub start: usize,
    pub end: usize,
    pub groups: Vec<Option<ReGroup>>,
}

/// A match as a plain mathematical value: the span and the groups' spans
/// and bytes.
pub open spec fn match_view(m: ReMatch) -> (int, int, Seq<Option<(int, int, Seq<u8>)>>) {
    (
        m.start as int,
        m.end as int,
        m.groups@.map_values(
            |g: Option<ReGroup>|
                match g {
                    Some(gg) => Some((gg.start as int, gg.end as int, gg.text@)),
                    None => None,
                },
        ),
    )
}

/// The leftmost match of a pattern's text on a byte string at or after a
/// position, as the regex crate computes it; a function of its arguments
/// alone.
pub uninterp spec fn spec_captures_of(src: Seq<char>, hay: Seq<u8>, from: int) -> Option<
    (int, int, Seq<Option<(int, int, Seq<u8>)>>),
>;

/// A compiled regular expression together with its text and its capture
/// group names, one entry per group, the unnamed whole match first. The
/// fields stay private so every value goes through `new` and the compiled
/// expression always belongs to the stored text.
pub struct Pattern {
    re: regex::bytes::Regex,
    src: String,
    names: Vec<Option<String>>,
}

/// Relies on regex::bytes::Regex::new: compiles the pattern, `None` when the
/// pattern is not a valid regular expression.
#[verifier::external_body]
fn regex_new(src: &str) -> (r: Option<regex::bytes::Regex>)
{
    regex::bytes::Regex::new(src).ok()
}

/// Relies on regex::bytes::Regex::capture_names: one entry per capture
/// group in the pattern, in group order; the implicit whole-match group
/// comes first and is always unnamed.
#[verifier::external_body]
fn regex_group_names(re: &regex::bytes::Regex) -> (r: Vec<Option<String>>)
    ensures
        r@.len() >= 1,
        r@[0] is None,
{
    re.capture_names().map(|n| n.map(|s| s.to_string())).collect()
}

/// Relies on regex::bytes::Regex::captures_at and the accessors of
/// regex::bytes::Captures and Match: the leftmost match at or after `from`,
/// with byte offsets into the haystack; group 0 is the whole match; each
/// group's bytes are the haystack bytes of its span. Matching is a function
/// of the pattern's text and the haystack, named `spec_captures_of`; the
/// compiled expression is the one `new` built from the stored text.
#[verifier::external_body]
fn regex_captures_from(p: &Pattern, hay: &[u8], from: usize) -> (r: Option<ReMatch>)
    requires
        from <= hay@.len(),
    ensures
        r matches Some(m) ==> {
            &&& from <= m.start <= m.end <= hay@.len()
            &&& m.groups@.len() >= 1
            &&& m.groups@[0] matches Some(g0) && g0.start == m.start && g0.end == m.end
            &&& forall|i: int|
                0 <= i < m.groups@.len() && m.groups@[i] is Some ==> {
                    let g = m.groups@[i]->0;
                    &&& m.start <= g.start <= g.end <= hay@.len()
                    &&& g.text@ == hay@.subrange(g.start as int, g.end as int)
                }
        },
        match r {
            Some(m) => spec_captures_of(p.spec_src(), hay@, from as int) == Some(match_view(m)),
            None => spec_captures_of(p.spec_src(), hay@, from as int) is None,
        },
{
    p.re.captures_at(hay, from).map(|c| {
        let m = c.get(0).unwrap();
        let groups = (0..c.len()).map(|i| c.get(i).map(|g| ReGroup {
            start: g.start(),
            end: g.end(),
            text: g.as_bytes().to_vec(),
        })).collect();
        ReMatch { start: m.start(), end: m.end(), groups }
    })
}

impl Pattern {
    /// The pattern's text.
    pub closed spec fn spec_src(self) -> Seq<char> {
        self.src@
    }

    /// The group names.
    pub closed spec fn spec_names(self) -> Seq<Option<String>> {
        self.names@
    }

    /// Compile a pattern and record its text and group names; `None` when
    /// the text is not a valid regular expression.
    pub fn new(src: &str) -> (r: Option<Pattern>)
        ensures
            r matches Some(p) ==> p.spec_names().len() >= 1 && p.spec_src() == src@,
    {
        match regex_new(src) {
            Some(re) => {
                let names = regex_group_names(&re);
                Some(Pattern { re, src: src.to_owned(), names })
            },
            None => None,
        }
    }

    /// The index of a named capture group, the first when names repeat.
    pub fn group_index(&self, name: &str) -> (r: Option<usize>)
        ensures
            r matches Some(i) ==> i < self.spec_names().len(),
            match r {
                Some(i) => spec_group_index(self.spec_names(), name@) == Some(i as int),
                None => spec_group_index(self.spec_names(), name@) is None,
            },
    {
        let mut i: usize = 0;
        while i < self.names.len()
            invariant
                i <= self.names@.len(),
                self.names@ == self.spec_names(),
                forall|k: int|
                    0 <= k < i ==> !((#[trigger] self.spec_names()[k]) matches Some(n) && n@
                        == name@),
            decreases self.names@.len() - i,
        {
            match &self.names[i] {
                Some(n) => {
                    if str_eq_str(n.as_str(), name) {
                        proof {
                            lemma_group_index_found(self.spec_names(), name@, i as int);
                        }
                        return Some(i);
                    }
                },
                None => (),
            }
            i = i + 1;
        }
        proof {
            lemma_group_index_none(self.spec_names(), name@);
        }
        None
    }

    /// The leftmost match at or after `from`, as plain spans and bytes; the
    /// match is `spec_captures_of` of the pattern's text and the haystack.
    pub fn captures_from(&self, hay: &[u8], from: usize) -> (r: Option<ReMatch>)
        requires
            from <= hay@.len(),
        ensures
            r matches Some(m) ==> {
                &&& from <= m.start <= m.end <= hay@.len()
                &&& m.groups@.len() >= 1
                &&& m.groups@[0] matches Some(g0) && g0.start == m.start && g0.end == m.end
                &&& forall|i: int|
                    0 <= i < m.groups@.len() && m.groups@[i] is Some ==> {
                        let g = m.groups@[i]->0;
                        &&& m.start <= g.start <= g.end <= hay@.len()
                        &&& g.text@ == hay@.subrange(g.start as int, g.end as int)
                    }
            },
            match r {
                Some(m) => spec_captures_of(self.spec_src(), hay@, from as int) == Some(
                    match_view(m),
                ),
                None => spec_captures_of(self.spec_src(), hay@, from as int) is None,
            },
    {
        regex_captures_from(self, hay, from)
    }

    /// Whether the pattern matches anywhere in the haystack.
    pub fn is_match(&self, hay: &[u8]) -> (b: bool)
        ensures
            b == (spec_captures_of(self.spec_src(), hay@, 0) is Some),
    {
        match self.captures_from(hay, 0) {
            Some(_) => true,
            None => false,
        }
    }
}

/// The first capture group carrying a name.
pub open spec fn spec_group_index(names: Seq<Option<String>>, name: Seq<char>) -> Option<int>
    decreases names.len(),
{
    if names.len() == 0 {
        None
    } else if names[0] matches Some(n) && n@ == name {
        Some(0)
    } else {
        match spec_group_index(names.drop_first(), name) {
            Some(i) => Some(i + 1),
            None => None,
        }
    }
}

/// A found first named group agrees with `spec_group_index`.
proof fn lemma_group_index_found(names: Seq<Option<String>>, name: Seq<char>, i: int)
    requires
        0 <= i < names.len(),
        names[i] matches Some(n) && n@ == name,
        forall|k: int|
            0 <= k < i ==> !((#[trigger] names[k]) matches Some(n) && n@ == name),
    ensures
        spec_group_index(names, name) == Some(i),
    decreases i,
{
    if i == 0 {
    } else {
        assert(forall|k: int|
            0 <= k < i - 1 ==> (#[trigger] names.drop_first()[k]) == names[k + 1]);
        lemma_group_index_found(names.drop_first(), name, i - 1);
    }
}

/// No group carries the name.
proof fn lemma_group_index_none(names: Seq<Option<String>>, name: Seq<char>)
    requires
        forall|k: int|
            0 <= k < names.len() ==> !((#[trigger] names[k]) matches Some(n) && n@ == name),
    ensures
        spec_group_index(names, name) is None,
    decreases names.len(),
{
    if names.len() > 0 {
        assert(forall|k: int|
            0 <= k < names.drop_first().len() ==> (#[trigger] names.drop_first()[k]) == names[k
                + 1]);
        lemma_group_index_none(names.drop_first(), name);
    }
}

/// Relies on String::from_utf8_lossy: the characters a byte string encodes;
/// well-formed UTF-8 decodes exactly, anything else is not pinned.
#[verifier::external_body]
pub fn bytes_to_string(v: &Vec<u8>) -> (r: String)
    ensures
        vstd::utf8::valid_utf8(v@) ==> r@ == vstd::utf8::decode_utf8(v@),
{
    String::from_utf8_lossy(v.as_slice()).into_owned()
}

/// Relies on str's PartialEq: whether two strings hold the same characters.
#[verifier::external_body]
pub fn str_eq_str(a: &str, b: &str) -> (r: bool)
    ensures
        r == (a@ == b@),
{
    a == b
}

} // verus!
