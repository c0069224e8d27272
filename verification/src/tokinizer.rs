//! The regex-driven tokenizer and the fixed-point rule engine.
//!
//! Categories run in a fixed order over the line's UTF-8 bytes; every match
//! tries to insert a located token, and an insertion is refused when its
//! span would overlap one already taken. Active token spans are therefore
//! pairwise non-overlapping and sorted by start, and the rule engine keeps
//! them so while strictly shrinking the number of active tokens with every
//! rule it fires.

use vstd::prelude::*;
use crate::types::{
    TokenType,
    TokenInfo,
    TokenInfoStatus,
    FieldType,
    token_type_wf,
    dup_token_type,
};
use crate::ui_token::{UiTokenCollection, UiTokenType};
use crate::rat::Rat;
use crate::datetime::ClockTime;
use crate::config::{Config, RuleHandler};
use crate::regexw::{Pattern, ReMatch, ReGroup};

verus! {

/// Spans are ordered and sorted by start; active spans are also pairwise
/// non-overlapping; payloads are well-formed.
pub open spec fn infos_wf(s: Seq<TokenInfo>) -> bool {
    &&& forall|i: int| 0 <= i < s.len() ==> (#[trigger] s[i]).wf()
    &&& forall|i: int, j: int| 0 <= i < j < s.len() ==> (#[trigger] s[i]).start <= (#[trigger] s[j]).start
    &&& forall|i: int, j: int|
        0 <= i < j < s.len() && (#[trigger] s[i]).is_active() && (#[trigger] s[j]).is_active()
            ==> s[i].end <= s[j].start
}

/// How many tokens the rule engine still considers.
pub open spec fn act_cnt(s: Seq<TokenInfo>) -> int
    decreases s.len(),
{
    if s.len() == 0 {
        0
    } else {
        act_cnt(s.drop_last()) + if s.last().is_active() {
            1int
        } else {
            0int
        }
    }
}

/// Splitting a sequence splits its active count.
pub proof fn lemma_act_cnt_add(a: Seq<TokenInfo>, b: Seq<TokenInfo>)
    ensures
        act_cnt(a + b) == act_cnt(a) + act_cnt(b),
    decreases b.len(),
{
    if b.len() == 0 {
        assert(a + b =~= a);
    } else {
        lemma_act_cnt_add(a, b.drop_last());
        assert((a + b).drop_last() =~= a + b.drop_last());
        assert((a + b).last() == b.last());
    }
}

/// The active count of a single token.
pub proof fn lemma_act_cnt_one(t: TokenInfo)
    ensures
        act_cnt(seq![t]) == if t.is_active() {
            1int
        } else {
            0int
        },
{
    assert(seq![t].drop_last() =~= Seq::<TokenInfo>::empty());
    assert(seq![t].last() == t);
    assert(act_cnt(Seq::<TokenInfo>::empty()) == 0);
}

/// The active count never exceeds the length and never goes negative.
pub proof fn lemma_act_cnt_bounds(s: Seq<TokenInfo>)
    ensures
        0 <= act_cnt(s) <= s.len(),
    decreases s.len(),
{
    if s.len() > 0 {
        lemma_act_cnt_bounds(s.drop_last());
    }
}

/// The tokenizer of one line: the line, its tokens, and the highlight spans
/// (which also carry the line's byte-to-character map).
pub struct Tokinizer {
    pub data: String,
    pub bytes: Vec<u8>,
    pub token_infos: Vec<TokenInfo>,
    pub ui_tokens: UiTokenCollection,
}

impl Tokinizer {
    /// Tokens sorted, active ones non-overlapping, highlight spans sound.
    pub open spec fn wf(self) -> bool {
        &&& infos_wf(self.token_infos@)
        &&& self.ui_tokens.wf()
    }

    /// A tokenizer over one line, with the line's character map prepared.
    pub fn new(data: &str) -> (t: Tokinizer)
        ensures
            t.wf(),
            t.token_infos@.len() == 0,
    {
        let mut ui = UiTokenCollection::new();
        ui.generate_char_map(data);
        Tokinizer {
            data: data.to_owned(),
            bytes: data.as_bytes_vec(),
            token_infos: Vec::new(),
            ui_tokens: ui,
        }
    }

    /// The character position of a byte position of the line.
    pub fn char_pos(&self, index: usize) -> (p: usize)
        requires
            self.wf(),
        ensures
            p as int == spec_char_pos(self.ui_tokens, index as int),
    {
        self.ui_tokens.get_position(index)
    }

    /// Record a located token unless its span overlaps a live one; spans the
    /// rule engine has consumed do not block. `start` and `end` are
    /// character positions. Any overlap with a live span is refused,
    /// containment included: a covers-either-endpoint test alone would let
    /// a later match swallow an earlier token whole and break the
    /// non-overlap invariant of the stream. Empty spans are never recorded.
    #[verifier::rlimit(100)]
    #[verifier::spinoff_prover]
    pub fn add_token_location(
        &mut self,
        start: usize,
        end: usize,
        token_type: Option<TokenType>,
        text: String,
    ) -> (added: bool)
        requires
            old(self).wf(),
            match token_type {
                Some(t) => token_type_wf(t),
                None => true,
            },
        ensures
            final(self).wf(),
            final(self).bytes@ == old(self).bytes@,
            final(self).ui_tokens == old(self).ui_tokens,
            !added ==> final(self).token_infos@ == old(self).token_infos@,
            added ==> act_cnt(final(self).token_infos@) == act_cnt(old(self).token_infos@) + 1,
            added == (start < end && forall|k: int|
                0 <= k < old(self).token_infos@.len() && (#[trigger] old(self).token_infos@[k]).is_active()
                    ==> (end <= old(self).token_infos@[k].start || old(self).token_infos@[k].end
                    <= start)),
            added ==> exists|i: int|
                0 <= i <= old(self).token_infos@.len() && final(self).token_infos@ == old(self).token_infos@.insert(
                    i,
                    TokenInfo {
                        start,
                        end,
                        token_type,
                        original_text: text,
                        status: TokenInfoStatus::Active,
                    },
                ),
    {
        if start >= end {
            return false;
        }
        // refuse any overlap with a live span; consumed spans do not block
        let mut k: usize = 0;
        while k < self.token_infos.len()
            invariant
                *self == *old(self),
                self.wf(),
                k <= self.token_infos@.len(),
                forall|j: int|
                    0 <= j < k && (#[trigger] self.token_infos@[j]).is_active() ==> (end
                        <= self.token_infos@[j].start || self.token_infos@[j].end <= start),
            decreases self.token_infos@.len() - k,
        {
            let item = &self.token_infos[k];
            let item_active = match item.status {
                TokenInfoStatus::Active => true,
                TokenInfoStatus::Removed => false,
            };
            if item_active && !(end <= item.start || item.end <= start) {
                return false;
            }
            k = k + 1;
        }
        // find the place that keeps the stream sorted by start
        let mut i: usize = 0;
        while i < self.token_infos.len() && self.token_infos[i].start <= start
            invariant
                *self == *old(self),
                self.wf(),
                i <= self.token_infos@.len(),
                forall|j: int| 0 <= j < i ==> (#[trigger] self.token_infos@[j]).start <= start,
            decreases self.token_infos@.len() - i,
        {
            i = i + 1;
        }
        let tok = TokenInfo {
            start,
            end,
            token_type,
            original_text: text,
            status: TokenInfoStatus::Active,
        };
        proof {
            let s = self.token_infos@;
            assert forall|j: int| i <= j < s.len() implies start <= (#[trigger] s[j]).start by {
                if i < j {
                    assert(s[i as int].start <= s[j].start);
                }
            }
            assert forall|j: int|
                0 <= j < i && (#[trigger] s[j]).is_active() implies s[j].end <= start by {
                assert(s[j].start <= start);
                assert(end <= s[j].start || s[j].end <= start);
            }
            assert forall|j: int|
                i <= j < s.len() && (#[trigger] s[j]).is_active() implies end <= s[j].start by {
                assert(start <= s[j].start);
                assert(end <= s[j].start || s[j].end <= start);
                if s[j].end <= start {
                    assert(s[j].start <= s[j].end);
                }
            }
        }
        let ghost olds = self.token_infos@;
        let ghost gtok = tok;
        self.token_infos.insert(i, tok);
        proof {
            let news = self.token_infos@;
            assert(news == olds.insert(i as int, gtok));
            assert forall|a: int| 0 <= a < news.len() implies (#[trigger] news[a]).wf() by {
                if a < i {
                    assert(news[a] == olds[a]);
                } else if a > i {
                    assert(news[a] == olds[a - 1]);
                }
            }
            assert forall|a: int, b: int| 0 <= a < b < news.len() implies (#[trigger] news[a]).start
                <= (#[trigger] news[b]).start by {
                if b < i {
                    assert(news[a] == olds[a] && news[b] == olds[b]);
                } else if a < i && b == i {
                    assert(news[a] == olds[a]);
                    assert(olds[a].start <= start);
                } else if a < i && b > i {
                    assert(news[a] == olds[a] && news[b] == olds[b - 1]);
                    assert(olds[a].start <= start);
                    assert(start <= olds[b - 1].start);
                } else if a == i {
                    assert(news[b] == olds[b - 1]);
                    assert(start <= olds[b - 1].start);
                } else {
                    assert(news[a] == olds[a - 1] && news[b] == olds[b - 1]);
                }
            }
            assert forall|a: int, b: int|
                0 <= a < b < news.len() && (#[trigger] news[a]).is_active() && (
                #[trigger] news[b]).is_active() implies news[a].end <= news[b].start by {
                if b < i {
                    assert(news[a] == olds[a] && news[b] == olds[b]);
                } else if a < i && b == i {
                    assert(news[a] == olds[a]);
                    assert(olds[a].end <= start);
                } else if a < i && b > i {
                    assert(news[a] == olds[a] && news[b] == olds[b - 1]);
                    assert(olds[a].end <= start && start <= end && end <= olds[b - 1].start);
                } else if a == i {
                    assert(news[b] == olds[b - 1]);
                    assert(end <= olds[b - 1].start);
                } else {
                    assert(news[a] == olds[a - 1] && news[b] == olds[b - 1]);
                }
            }
            assert(olds.insert(i as int, gtok) =~= olds.subrange(0, i as int) + seq![gtok]
                + olds.subrange(i as int, olds.len() as int));
            lemma_act_cnt_add(olds.subrange(0, i as int) + seq![gtok], olds.subrange(i as int, olds.len() as int));
            lemma_act_cnt_add(olds.subrange(0, i as int), seq![gtok]);
            lemma_act_cnt_one(gtok);
            lemma_act_cnt_add(olds.subrange(0, i as int), olds.subrange(i as int, olds.len() as int));
            assert(olds.subrange(0, i as int) + olds.subrange(i as int, olds.len() as int) =~= olds);
        }
        true
    }

    /// Record a located token from a regex match span, given in byte
    /// positions and translated to character positions.
    pub fn add_token(&mut self, capture: &Option<(usize, usize)>, token_type: Option<TokenType>, text: String) -> (added:
        bool)
        requires
            old(self).wf(),
            match token_type {
                Some(t) => token_type_wf(t),
                None => true,
            },
        ensures
            final(self).wf(),
            final(self).bytes@ == old(self).bytes@,
            final(self).ui_tokens == old(self).ui_tokens,
    {
        match capture {
            Some((s, e)) => {
                let cs = self.char_pos(*s);
                let ce = self.char_pos(*e);
                if cs <= ce {
                    self.add_token_location(cs, ce, token_type, text)
                } else {
                    false
                }
            },
            None => false,
        }
    }
}

/// The character position a byte position of a map translates to.
pub open spec fn spec_char_pos_map(m: Seq<usize>, index: int) -> int {
    if m.len() == 0 {
        index
    } else if index < m.len() {
        m[index] as int
    } else {
        m[m.len() - 1] as int
    }
}

/// The character position a byte position translates to: the map entry when
/// it exists, the last entry past the end, the position itself for an empty
/// map.
pub open spec fn spec_char_pos(ui: UiTokenCollection, index: int) -> int {
    let m = ui.spec_char_map();
    if m.len() == 0 {
        index
    } else if index < m.len() {
        m[index] as int
    } else {
        m[m.len() - 1] as int
    }
}

/// A byte that writes a decimal digit.
pub open spec fn is_digit(b: u8) -> bool {
    48 <= b <= 57
}

/// Scan number text from position `i`: thousands dots are dropped, one
/// comma turns into the radix point, digits accumulate into `num` while the
/// denominator follows the digits after the radix; the accumulators are
/// capped so the figure stays well inside the representable range.
pub open spec fn spec_num_scan(
    s: Seq<u8>,
    i: int,
    num: int,
    den: int,
    in_frac: bool,
) -> Option<(int, int)>
    decreases s.len() - i,
    when 0 <= i
{
    if i >= s.len() {
        Some((num, den))
    } else if s[i] == 46 {
        spec_num_scan(s, i + 1, num, den, in_frac)
    } else if s[i] == 44 {
        if in_frac {
            None
        } else {
            spec_num_scan(s, i + 1, num, den, true)
        }
    } else if is_digit(s[i]) {
        if num >= 1000000000000000 || den >= 1000000000000000 {
            None
        } else {
            spec_num_scan(
                s,
                i + 1,
                num * 10 + (s[i] - 48),
                if in_frac {
                    den * 10
                } else {
                    den
                },
                in_frac,
            )
        }
    } else {
        None
    }
}

/// The fraction a piece of number text denotes; a leading minus negates
/// it.
pub open spec fn spec_number_value(s: Seq<u8>) -> Option<(int, int)> {
    if s.len() > 0 && s[0] == 45 {
        match spec_num_scan(s, 1, 0, 1, false) {
            Some(p) => Some((-p.0, p.1)),
            None => None,
        }
    } else {
        spec_num_scan(s, 0, 0, 1, false)
    }
}

/// Parse number text into an exact fraction, as `spec_number_value` reads
/// it.
pub fn parse_number_bytes(s: &Vec<u8>) -> (r: Option<(i64, i64)>)
    ensures
        match r {
            Some(p) => spec_number_value(s@) == Some((p.0 as int, p.1 as int)) && 1 <= p.1
                && -10000000000000000 < p.0 && p.0 < 10000000000000000 && p.1
                < 10000000000000000,
            None => spec_number_value(s@) is None,
        },
{
    let mut num: i64 = 0;
    let mut den: i64 = 1;
    let mut in_frac: bool = false;
    let negative: bool = s.len() > 0 && s[0] == 45;
    let mut i: usize = if negative {
        1
    } else {
        0
    };
    while i < s.len()
        invariant
            i <= s@.len(),
            0 <= num < 10000000000000000,
            1 <= den < 10000000000000000,
            negative == (s@.len() > 0 && s@[0] == 45),
            negative ==> i >= 1,
            spec_num_scan(s@, i as int, num as int, den as int, in_frac) == (if negative {
                spec_num_scan(s@, 1, 0, 1, false)
            } else {
                spec_number_value(s@)
            }),
        decreases s@.len() - i,
    {
        let b = s[i];
        if b == 46 {
        } else if b == 44 {
            if in_frac {
                return None;
            }
            in_frac = true;
        } else if 48 <= b && b <= 57 {
            if num >= 1000000000000000 || den >= 1000000000000000 {
                return None;
            }
            num = num * 10 + ((b - 48) as i64);
            if in_frac {
                den = den * 10;
            }
        } else {
            return None;
        }
        i = i + 1;
    }
    if negative {
        Some((-num, den))
    } else {
        Some((num, den))
    }
}

/// Scan a small all-digit figure from position `i`, folding onto `acc`;
/// the figure is capped well below the representable range.
pub open spec fn spec_digit_scan(s: Seq<u8>, i: int, acc: int) -> Option<int>
    decreases s.len() - i,
    when 0 <= i
{
    if i >= s.len() {
        Some(acc)
    } else if is_digit(s[i]) {
        if acc >= 10000000 {
            None
        } else {
            spec_digit_scan(s, i + 1, acc * 10 + (s[i] - 48))
        }
    } else {
        None
    }
}

/// The figure a short all-digit byte string denotes.
pub open spec fn spec_small_digits(s: Seq<u8>) -> Option<int> {
    if 1 <= s.len() <= 9 {
        spec_digit_scan(s, 0, 0)
    } else {
        None
    }
}

/// Parse a small all-digit figure, as hours or minutes are written, exactly
/// as `spec_small_digits` reads it.
pub fn parse_small_digits(s: &Vec<u8>) -> (r: Option<u32>)
    ensures
        r is Some ==> r->0 < 1000000000,
        match r {
            Some(v) => spec_small_digits(s@) == Some(v as int),
            None => spec_small_digits(s@) is None,
        },
{
    if s.len() == 0 || s.len() > 9 {
        return None;
    }
    let mut acc: u32 = 0;
    let mut i: usize = 0;
    while i < s.len()
        invariant
            i <= s@.len(),
            1 <= s@.len() <= 9,
            acc < 100000000,
            spec_digit_scan(s@, i as int, acc as int) == spec_small_digits(s@),
        decreases s@.len() - i,
    {
        let b = s[i];
        if b < 48 || b > 57 {
            return None;
        }
        if acc >= 10000000 {
            return None;
        }
        acc = acc * 10 + ((b - 48) as u32);
        i = i + 1;
    }
    Some(acc)
}

/// ASCII letters lowered, byte for byte.
pub open spec fn spec_ascii_lower(s: Seq<u8>) -> Seq<u8> {
    s.map_values(
        |b: u8|
            if 65 <= b <= 90 {
                (b + 32) as u8
            } else {
                b
            },
    )
}

/// Lower the ASCII letters of a byte string.
pub fn ascii_lower(s: &Vec<u8>) -> (r: Vec<u8>)
    ensures
        r@ == spec_ascii_lower(s@),
{
    let mut r: Vec<u8> = Vec::new();
    let mut i: usize = 0;
    while i < s.len()
        invariant
            i <= s@.len(),
            r@.len() == i,
            forall|k: int|
                0 <= k < i ==> #[trigger] r@[k] == (if 65 <= s@[k] <= 90 {
                    (s@[k] + 32) as u8
                } else {
                    s@[k]
                }),
        decreases s@.len() - i,
    {
        let b = s[i];
        if 65 <= b && b <= 90 {
            r.push(b + 32);
        } else {
            r.push(b);
        }
        i = i + 1;
    }
    proof {
        assert(r@ =~= spec_ascii_lower(s@));
    }
    r
}

/// Whether two byte strings are equal.
pub fn bytes_eq(a: &Vec<u8>, b: &Vec<u8>) -> (r: bool)
    ensures
        r == (a@ == b@),
{
    if a.len() != b.len() {
        proof {
            assert(a@ != b@);
        }
        return false;
    }
    let mut i: usize = 0;
    while i < a.len()
        invariant
            i <= a@.len(),
            a@.len() == b@.len(),
            forall|k: int| 0 <= k < i ==> a@[k] == b@[k],
        decreases a@.len() - i,
    {
        if a[i] != b[i] {
            proof {
                assert(a@ != b@);
            }
            return false;
        }
        i = i + 1;
    }
    proof {
        assert(a@ =~= b@);
    }
    true
}

/// The power of ten a figure suffix multiplies by: `k` a thousand, then
/// `M`, `G`, `T`, `P`, `Z` and `Y` a thousand more each.
pub open spec fn spec_suffix_multiplier(b: u8) -> Option<int> {
    if b == 107 {
        Some(1000int)
    } else if b == 77 {
        Some(1000000int)
    } else if b == 71 {
        Some(1000000000int)
    } else if b == 84 {
        Some(1000000000000int)
    } else if b == 80 {
        Some(1000000000000000int)
    } else if b == 90 {
        Some(1000000000000000000int)
    } else if b == 89 {
        Some(1000000000000000000000int)
    } else {
        None
    }
}

/// The power of ten a figure suffix multiplies by.
pub fn suffix_multiplier(b: u8) -> (r: Option<i128>)
    ensures
        r matches Some(m) ==> 1000 <= m <= 1000000000000000000000,
        match r {
            Some(m) => spec_suffix_multiplier(b) == Some(m as int),
            None => spec_suffix_multiplier(b) is None,
        },
{
    if b == 107 {
        Some(1000)
    } else if b == 77 {
        Some(1000000)
    } else if b == 71 {
        Some(1000000000)
    } else if b == 84 {
        Some(1000000000000)
    } else if b == 80 {
        Some(1000000000000000)
    } else if b == 90 {
        Some(1000000000000000000)
    } else if b == 89 {
        Some(1000000000000000000000)
    } else {
        None
    }
}

/// The classified token and highlight category one match contributes.
pub struct MadeToken {
    pub token_type: Option<TokenType>,
    pub ui: Option<UiTokenType>,
}

impl Tokinizer {
    /// The line's characters between two character positions, clamped to the
    /// line.
    pub fn char_text(&self, cs: usize, ce: usize) -> (t: String) {
        let ul = self.data.unicode_len();
        let b = if ce < ul {
            ce
        } else {
            ul
        };
        let a = if cs < b {
            cs
        } else {
            b
        };
        self.data.substring_char(a, b).to_owned()
    }

    /// The group a name selects in a match.
    pub open spec fn spec_named_group(
        names: Seq<Option<String>>,
        groups: Seq<Option<ReGroup>>,
        name: Seq<char>,
    ) -> Option<ReGroup> {
        match crate::regexw::spec_group_index(names, name) {
            Some(i) => if 0 <= i < groups.len() {
                groups[i]
            } else {
                None
            },
            None => None,
        }
    }

    /// The scale factor a match's suffix group selects; one without one.
    pub open spec fn spec_suffix_factor(
        names: Seq<Option<String>>,
        groups: Seq<Option<ReGroup>>,
    ) -> int {
        match Self::spec_named_group(names, groups, "SUFFIX"@) {
            Some(sg) => if sg.text@.len() == 1 {
                match spec_suffix_multiplier(sg.text@[0]) {
                    Some(mm) => mm,
                    None => 1,
                }
            } else {
                1
            },
            None => 1,
        }
    }

    /// The single operator character a byte writes.
    pub open spec fn spec_operator_char(b: u8) -> Option<char> {
        if b == 43 {
            Some('+')
        } else if b == 45 {
            Some('-')
        } else if b == 42 {
            Some('*')
        } else if b == 47 {
            Some('/')
        } else if b == 40 {
            Some('(')
        } else if b == 41 {
            Some(')')
        } else if b == 61 {
            Some('=')
        } else if b == 37 {
            Some('%')
        } else {
            None
        }
    }

    /// The minutes a time zone name stands for.
    pub open spec fn spec_zone_base(zone: Seq<char>) -> Option<int> {
        if zone == "GMT"@ || zone == "UTC"@ {
            Some(0int)
        } else if zone == "EST"@ {
            Some(-300int)
        } else if zone == "CST"@ {
            Some(-360int)
        } else if zone == "MST"@ {
            Some(-420int)
        } else if zone == "PST"@ {
            Some(-480int)
        } else {
            None
        }
    }

    /// The signed `HH[:MM]` shift a match carries, in minutes; zero without
    /// one. Figures above two digits are ignored, a `-` sign negates.
    pub open spec fn spec_zone_shift(
        names: Seq<Option<String>>,
        groups: Seq<Option<ReGroup>>,
    ) -> int {
        let hours = match Self::spec_named_group(names, groups, "hh"@) {
            Some(hg) => match spec_small_digits(hg.text@) {
                Some(h) => if h <= 99 {
                    h * 60
                } else {
                    0int
                },
                None => 0int,
            },
            None => 0int,
        };
        let minutes = match Self::spec_named_group(names, groups, "mm"@) {
            Some(mg) => match spec_small_digits(mg.text@) {
                Some(v) => if v <= 99 {
                    v
                } else {
                    0int
                },
                None => 0int,
            },
            None => 0int,
        };
        let negative = match Self::spec_named_group(names, groups, "sign"@) {
            Some(sg) => sg.text@.len() == 1 && sg.text@[0] == 45,
            None => false,
        };
        if negative {
            -(hours + minutes)
        } else {
            hours + minutes
        }
    }

    /// What the number category owes of one match: the captured figure,
    /// scaled by the suffix, as a reduced fraction.
    pub open spec fn spec_number_content(
        names: Seq<Option<String>>,
        groups: Seq<Option<ReGroup>>,
        r: Option<MadeToken>,
    ) -> bool {
        match Self::spec_named_group(names, groups, "NUMBER"@) {
            Some(g) => match spec_number_value(g.text@) {
                Some(nd) => {
                    let scaled = nd.0 * Self::spec_suffix_factor(names, groups);
                    r matches Some(mt) && mt.token_type matches Some(TokenType::Number(q))
                        && q.n() == crate::rat::norm_n(scaled, nd.1) && q.d()
                        == crate::rat::norm_d(scaled, nd.1)
                },
                None => r is None,
            },
            None => r is None,
        }
    }

    /// What the percent category owes of one match.
    pub open spec fn spec_percent_content(
        names: Seq<Option<String>>,
        groups: Seq<Option<ReGroup>>,
        r: Option<MadeToken>,
    ) -> bool {
        match Self::spec_named_group(names, groups, "NUMBER"@) {
            Some(g) => match spec_number_value(g.text@) {
                Some(nd) => r matches Some(mt) && mt.token_type matches Some(
                    TokenType::Percent(q),
                ) && q.n() == crate::rat::norm_n(nd.0, nd.1) && q.d() == crate::rat::norm_d(
                    nd.0,
                    nd.1,
                ),
                None => r is None,
            },
            None => r is None,
        }
    }

    /// What the money category owes of one match: the captured price, and
    /// the canonical code of the lowered currency; an unknown currency
    /// yields no token.
    pub open spec fn spec_money_content(
        table: Seq<crate::config::CurrencyDef>,
        names: Seq<Option<String>>,
        groups: Seq<Option<ReGroup>>,
        r: Option<MadeToken>,
    ) -> bool {
        match (
            Self::spec_named_group(names, groups, "PRICE"@),
            Self::spec_named_group(names, groups, "CURRENCY"@),
        ) {
            (Some(pg), Some(cg)) => match spec_number_value(pg.text@) {
                Some(nd) => match spec_currency_code(table, spec_ascii_lower(cg.text@)) {
                    Some(code) => r matches Some(mt) && mt.token_type matches Some(
                        TokenType::Money(q, c),
                    ) && q.n() == crate::rat::norm_n(nd.0, nd.1) && q.d() == crate::rat::norm_d(
                        nd.0,
                        nd.1,
                    ) && c@ == code,
                    None => r is None,
                },
                None => r is None,
            },
            _ => r is None,
        }
    }

    /// What the time category owes of one match: hour (meridiem applied),
    /// minute and optional second, wrapped modulo one day.
    pub open spec fn spec_time_content(
        names: Seq<Option<String>>,
        groups: Seq<Option<ReGroup>>,
        r: Option<MadeToken>,
    ) -> bool {
        match (
            Self::spec_named_group(names, groups, "hour"@),
            Self::spec_named_group(names, groups, "minute"@),
        ) {
            (Some(hg), Some(mg)) => match (
                spec_small_digits(hg.text@),
                spec_small_digits(mg.text@),
            ) {
                (Some(h), Some(mv)) => {
                    let sec = match Self::spec_named_group(names, groups, "second"@) {
                        Some(sg) => match spec_small_digits(sg.text@) {
                            Some(v) => v,
                            None => 0int,
                        },
                        None => 0int,
                    };
                    let h2 = match Self::spec_named_group(names, groups, "meridiem"@) {
                        Some(dg) => spec_meridiem_hour(h, dg.text@),
                        None => h,
                    };
                    r matches Some(mt) && mt.token_type matches Some(TokenType::Time(t))
                        && t.secs() == (h2 * 3600 + mv * 60 + sec) % 86400
                },
                _ => r is None,
            },
            _ => r is None,
        }
    }

    /// What the operator category owes of one single-byte match.
    pub open spec fn spec_operator_content(
        bytes: Seq<u8>,
        mstart: int,
        mend: int,
        r: Option<MadeToken>,
    ) -> bool {
        if 0 <= mstart < bytes.len() && mend == mstart + 1 {
            match Self::spec_operator_char(bytes[mstart]) {
                Some(c) => r matches Some(mt) && mt.token_type == Some(TokenType::Operator(c)),
                None => r is None,
            }
        } else {
            r is None
        }
    }

    /// What the field category owes of one match: the placeholder kind from
    /// the FIELD group, its slot name from the NAME group, and for a GROUP
    /// kind the configured duration words.
    pub open spec fn spec_field_content(
        duration_group: Seq<String>,
        names: Seq<Option<String>>,
        groups: Seq<Option<ReGroup>>,
        r: Option<MadeToken>,
    ) -> bool {
        match (
            Self::spec_named_group(names, groups, "FIELD"@),
            Self::spec_named_group(names, groups, "NAME"@),
        ) {
            (Some(fg), Some(ng)) => if vstd::utf8::valid_utf8(fg.text@) && vstd::utf8::valid_utf8(
                ng.text@,
            ) {
                let kind = vstd::utf8::decode_utf8(fg.text@);
                let nm = vstd::utf8::decode_utf8(ng.text@);
                if kind == "DATE"@ {
                    r matches Some(mt) && mt.token_type matches Some(TokenType::Field(f)) && f
                        matches FieldType::Date(x) && x@ == nm
                } else if kind == "TIME"@ {
                    r matches Some(mt) && mt.token_type matches Some(TokenType::Field(f)) && f
                        matches FieldType::Time(x) && x@ == nm
                } else if kind == "NUMBER"@ {
                    r matches Some(mt) && mt.token_type matches Some(TokenType::Field(f)) && f
                        matches FieldType::Number(x) && x@ == nm
                } else if kind == "TEXT"@ {
                    r matches Some(mt) && mt.token_type matches Some(TokenType::Field(f)) && f
                        matches FieldType::Text(x) && x@ == nm
                } else if kind == "MONEY"@ {
                    r matches Some(mt) && mt.token_type matches Some(TokenType::Field(f)) && f
                        matches FieldType::Money(x) && x@ == nm
                } else if kind == "PERCENT"@ {
                    r matches Some(mt) && mt.token_type matches Some(TokenType::Field(f)) && f
                        matches FieldType::Percent(x) && x@ == nm
                } else if kind == "MONTH"@ {
                    r matches Some(mt) && mt.token_type matches Some(TokenType::Field(f)) && f
                        matches FieldType::Month(x) && x@ == nm
                } else if kind == "DURATION"@ {
                    r matches Some(mt) && mt.token_type matches Some(TokenType::Field(f)) && f
                        matches FieldType::Duration(x) && x@ == nm
                } else if kind == "NUMBER_OR_MONEY"@ {
                    r matches Some(mt) && mt.token_type matches Some(TokenType::Field(f)) && f
                        matches FieldType::NumberOrMoney(x) && x@ == nm
                } else if kind == "GROUP"@ {
                    match Self::spec_named_group(names, groups, "GROUP"@) {
                        Some(gg) => if vstd::utf8::valid_utf8(gg.text@) {
                            if vstd::utf8::decode_utf8(gg.text@) == "duration_group"@ {
                                r matches Some(mt) && mt.token_type matches Some(
                                    TokenType::Field(f),
                                ) && f matches FieldType::Group(x, words) && x@ == nm
                                    && words@.map_values(|w: String| w@)
                                    == duration_group.map_values(|w: String| w@)
                            } else {
                                r is None
                            }
                        } else {
                            true
                        },
                        None => r is None,
                    }
                } else {
                    r is None
                }
            } else {
                true
            },
            _ => r is None,
        }
    }

    /// What the time zone category owes of one match: the zone's fixed
    /// minutes plus the signed `HH[:MM]` shift, carrying the matched text.
    pub open spec fn spec_timezone_content(
        names: Seq<Option<String>>,
        groups: Seq<Option<ReGroup>>,
        r: Option<MadeToken>,
    ) -> bool {
        match Self::spec_named_group(names, groups, "name"@) {
            Some(ng) => if vstd::utf8::valid_utf8(ng.text@) {
                match Self::spec_zone_base(vstd::utf8::decode_utf8(ng.text@)) {
                    Some(base) => match groups[0] {
                        Some(g0) => if vstd::utf8::valid_utf8(g0.text@) {
                            r matches Some(mt) && mt.token_type matches Some(
                                TokenType::Timezone(z, off),
                            ) && z@ == vstd::utf8::decode_utf8(g0.text@) && off as int == base
                                + Self::spec_zone_shift(names, groups)
                        } else {
                            true
                        },
                        None => true,
                    },
                    None => r is None,
                }
            } else {
                true
            },
            None => r is None,
        }
    }

    /// What the text category owes of one match: the matched characters as
    /// an unclassified word.
    pub open spec fn spec_text_content(groups: Seq<Option<ReGroup>>, r: Option<MadeToken>) -> bool {
        match groups[0] {
            Some(g0) => if vstd::utf8::valid_utf8(g0.text@) {
                r matches Some(mt) && mt.token_type matches Some(TokenType::Text(x)) && x@
                    == vstd::utf8::decode_utf8(g0.text@)
            } else {
                true
            },
            None => true,
        }
    }

    /// Classify one match of one category's pattern. Each category's clause
    /// below pins the produced token to the match's captured bytes.
    fn make_token(&self, config: &Config, pat: &Pattern, m: &ReMatch, category: u8) -> (r: Option<
        MadeToken,
    >)
        requires
            self.wf(),
            m.groups@.len() >= 1,
        ensures
            match r {
                Some(mt) => match mt.token_type {
                    Some(t) => token_type_wf(t),
                    None => true,
                },
                None => true,
            },
            category == CAT_NUMBER ==> Self::spec_number_content(
                pat.spec_names(),
                m.groups@,
                r,
            ),
            category == CAT_PERCENT ==> Self::spec_percent_content(
                pat.spec_names(),
                m.groups@,
                r,
            ),
            category == CAT_MONEY ==> Self::spec_money_content(
                config.currency@,
                pat.spec_names(),
                m.groups@,
                r,
            ),
            category == CAT_TIME ==> Self::spec_time_content(pat.spec_names(), m.groups@, r),
            category == CAT_OPERATOR ==> Self::spec_operator_content(
                self.bytes@,
                m.start as int,
                m.end as int,
                r,
            ),
            category == CAT_FIELD ==> Self::spec_field_content(
                config.duration_group@,
                pat.spec_names(),
                m.groups@,
                r,
            ),
            category == CAT_TIMEZONE ==> Self::spec_timezone_content(
                pat.spec_names(),
                m.groups@,
                r,
            ),
            category == CAT_TEXT ==> Self::spec_text_content(m.groups@, r),
            category == CAT_WHITESPACE ==> (r matches Some(mt) && mt.token_type is None),
            category == CAT_COMMENT ==> (r matches Some(mt) && mt.token_type is None),
    {
        if category == CAT_NUMBER {
            let gi = match pat.group_index("NUMBER") {
                Some(i) => i,
                None => {
                    return None;
                },
            };
            if gi >= m.groups.len() {
                return None;
            }
            let g = match &m.groups[gi] {
                Some(g) => g,
                None => {
                    return None;
                },
            };
            let (n, d) = match parse_number_bytes(&g.text) {
                Some(p) => p,
                None => {
                    return None;
                },
            };
            let mult: i128 = match pat.group_index("SUFFIX") {
                Some(si) => {
                    if si < m.groups.len() {
                        match &m.groups[si] {
                            Some(sg) => {
                                if sg.text.len() == 1 {
                                    match suffix_multiplier(sg.text[0]) {
                                        Some(mm) => mm,
                                        None => 1,
                                    }
                                } else {
                                    1
                                }
                            },
                            None => 1,
                        }
                    } else {
                        1
                    }
                },
                None => 1,
            };
            proof {
                assert(mult as int == Self::spec_suffix_factor(pat.spec_names(), m.groups@));
                assert(-10000000000000000000000000000000000000int <= (n as int) * (mult as int)
                    <= 10000000000000000000000000000000000000int) by (nonlinear_arith)
                    requires
                        -10000000000000000 < n < 10000000000000000,
                        1 <= mult <= 1000000000000000000000,
                ;
                assert(crate::rat::fits_i128((n as int) * (mult as int)));
            }
            let value = Rat::from_parts((n as i128) * mult, d as i128);
            Some(MadeToken { token_type: Some(TokenType::Number(value)), ui: Some(UiTokenType::Number) })
        } else if category == CAT_PERCENT {
            let gi = match pat.group_index("NUMBER") {
                Some(i) => i,
                None => {
                    return None;
                },
            };
            if gi >= m.groups.len() {
                return None;
            }
            let g = match &m.groups[gi] {
                Some(g) => g,
                None => {
                    return None;
                },
            };
            let (n, d) = match parse_number_bytes(&g.text) {
                Some(p) => p,
                None => {
                    return None;
                },
            };
            Some(
                MadeToken {
                    token_type: Some(TokenType::Percent(Rat::new(n, d))),
                    ui: Some(UiTokenType::PercentageSymbol),
                },
            )
        } else if category == CAT_MONEY {
            let pi = match pat.group_index("PRICE") {
                Some(i) => i,
                None => {
                    return None;
                },
            };
            let ci = match pat.group_index("CURRENCY") {
                Some(i) => i,
                None => {
                    return None;
                },
            };
            if pi >= m.groups.len() || ci >= m.groups.len() {
                return None;
            }
            let pg = match &m.groups[pi] {
                Some(g) => g,
                None => {
                    return None;
                },
            };
            let cg = match &m.groups[ci] {
                Some(g) => g,
                None => {
                    return None;
                },
            };
            let (n, d) = match parse_number_bytes(&pg.text) {
                Some(p) => p,
                None => {
                    return None;
                },
            };
            let lowered = ascii_lower(&cg.text);
            let code = match find_currency(config, &lowered) {
                Some(c) => c,
                None => {
                    return None;
                },
            };
            Some(
                MadeToken {
                    token_type: Some(TokenType::Money(Rat::new(n, d), code)),
                    ui: Some(UiTokenType::Money),
                },
            )
        } else if category == CAT_TIME {
            let hi = match pat.group_index("hour") {
                Some(i) => i,
                None => {
                    return None;
                },
            };
            let mi = match pat.group_index("minute") {
                Some(i) => i,
                None => {
                    return None;
                },
            };
            if hi >= m.groups.len() || mi >= m.groups.len() {
                return None;
            }
            let hg = match &m.groups[hi] {
                Some(g) => g,
                None => {
                    return None;
                },
            };
            let mg = match &m.groups[mi] {
                Some(g) => g,
                None => {
                    return None;
                },
            };
            let mut hour: u32 = match parse_small_digits(&hg.text) {
                Some(v) => v,
                None => {
                    return None;
                },
            };
            let minute: u32 = match parse_small_digits(&mg.text) {
                Some(v) => v,
                None => {
                    return None;
                },
            };
            let mut second: u32 = 0;
            match pat.group_index("second") {
                Some(si) => {
                    if si < m.groups.len() {
                        match &m.groups[si] {
                            Some(sg) => {
                                match parse_small_digits(&sg.text) {
                                    Some(v) => {
                                        second = v;
                                    },
                                    None => (),
                                }
                            },
                            None => (),
                        }
                    }
                },
                None => (),
            }
            match pat.group_index("meridiem") {
                Some(di) => {
                    if di < m.groups.len() {
                        match &m.groups[di] {
                            Some(dg) => {
                                hour = apply_meridiem(hour, &dg.text);
                            },
                            None => (),
                        }
                    }
                },
                None => (),
            }
            let total: u64 = (hour as u64) * 3600 + (minute as u64) * 60 + (second as u64);
            Some(
                MadeToken {
                    token_type: Some(TokenType::Time(ClockTime::from_seconds(total))),
                    ui: Some(UiTokenType::Time),
                },
            )
        } else if category == CAT_TEXT {
            let g0 = match &m.groups[0] {
                Some(g) => g,
                None => {
                    return None;
                },
            };
            let text = crate::regexw::bytes_to_string(&g0.text);
            Some(MadeToken { token_type: Some(TokenType::Text(text)), ui: Some(UiTokenType::Text) })
        } else if category == CAT_WHITESPACE {
            Some(MadeToken { token_type: None, ui: None })
        } else if category == CAT_OPERATOR {
            if m.start >= self.bytes.len() || m.end != m.start + 1 {
                return None;
            }
            let b = self.bytes[m.start];
            let c: char = if b == 43 {
                '+'
            } else if b == 45 {
                '-'
            } else if b == 42 {
                '*'
            } else if b == 47 {
                '/'
            } else if b == 40 {
                '('
            } else if b == 41 {
                ')'
            } else if b == 61 {
                '='
            } else if b == 37 {
                '%'
            } else {
                return None;
            };
            Some(
                MadeToken {
                    token_type: Some(TokenType::Operator(c)),
                    ui: Some(UiTokenType::Operator),
                },
            )
        } else if category == CAT_COMMENT {
            Some(MadeToken { token_type: None, ui: Some(UiTokenType::Comment) })
        } else if category == CAT_FIELD {
            let fi = match pat.group_index("FIELD") {
                Some(i) => i,
                None => {
                    return None;
                },
            };
            let ni = match pat.group_index("NAME") {
                Some(i) => i,
                None => {
                    return None;
                },
            };
            if fi >= m.groups.len() || ni >= m.groups.len() {
                return None;
            }
            let fg = match &m.groups[fi] {
                Some(g) => g,
                None => {
                    return None;
                },
            };
            let ng = match &m.groups[ni] {
                Some(g) => g,
                None => {
                    return None;
                },
            };
            let kind = crate::regexw::bytes_to_string(&fg.text);
            let name = crate::regexw::bytes_to_string(&ng.text);
            let field: FieldType = if crate::regexw::str_eq_str(kind.as_str(), "DATE") {
                FieldType::Date(name)
            } else if crate::regexw::str_eq_str(kind.as_str(), "TIME") {
                FieldType::Time(name)
            } else if crate::regexw::str_eq_str(kind.as_str(), "NUMBER") {
                FieldType::Number(name)
            } else if crate::regexw::str_eq_str(kind.as_str(), "TEXT") {
                FieldType::Text(name)
            } else if crate::regexw::str_eq_str(kind.as_str(), "MONEY") {
                FieldType::Money(name)
            } else if crate::regexw::str_eq_str(kind.as_str(), "PERCENT") {
                FieldType::Percent(name)
            } else if crate::regexw::str_eq_str(kind.as_str(), "MONTH") {
                FieldType::Month(name)
            } else if crate::regexw::str_eq_str(kind.as_str(), "DURATION") {
                FieldType::Duration(name)
            } else if crate::regexw::str_eq_str(kind.as_str(), "NUMBER_OR_MONEY") {
                FieldType::NumberOrMoney(name)
            } else if crate::regexw::str_eq_str(kind.as_str(), "GROUP") {
                let gi = match pat.group_index("GROUP") {
                    Some(i) => i,
                    None => {
                        return None;
                    },
                };
                if gi >= m.groups.len() {
                    return None;
                }
                let gg = match &m.groups[gi] {
                    Some(g) => g,
                    None => {
                        return None;
                    },
                };
                let gname = crate::regexw::bytes_to_string(&gg.text);
                if crate::regexw::str_eq_str(gname.as_str(), "duration_group") {
                    FieldType::Group(name, crate::types::dup_words(&config.duration_group))
                } else {
                    return None;
                }
            } else {
                return None;
            };
            Some(MadeToken { token_type: Some(TokenType::Field(field)), ui: None })
        } else if category == CAT_TIMEZONE {
            let ni = match pat.group_index("name") {
                Some(i) => i,
                None => {
                    return None;
                },
            };
            if ni >= m.groups.len() {
                return None;
            }
            let ng = match &m.groups[ni] {
                Some(g) => g,
                None => {
                    return None;
                },
            };
            let zone = crate::regexw::bytes_to_string(&ng.text);
            let base: i32 = if crate::regexw::str_eq_str(zone.as_str(), "GMT") {
                0
            } else if crate::regexw::str_eq_str(zone.as_str(), "UTC") {
                0
            } else if crate::regexw::str_eq_str(zone.as_str(), "EST") {
                -300
            } else if crate::regexw::str_eq_str(zone.as_str(), "CST") {
                -360
            } else if crate::regexw::str_eq_str(zone.as_str(), "MST") {
                -420
            } else if crate::regexw::str_eq_str(zone.as_str(), "PST") {
                -480
            } else {
                return None;
            };
            let mut shift: i32 = 0;
            match pat.group_index("hh") {
                Some(hi) => {
                    if hi < m.groups.len() {
                        match &m.groups[hi] {
                            Some(hg) => {
                                match parse_small_digits(&hg.text) {
                                    Some(h) => {
                                        if h <= 99 {
                                            shift = (h as i32) * 60;
                                        }
                                    },
                                    None => (),
                                }
                            },
                            None => (),
                        }
                    }
                },
                None => (),
            }
            match pat.group_index("mm") {
                Some(mi2) => {
                    if mi2 < m.groups.len() {
                        match &m.groups[mi2] {
                            Some(mg) => {
                                match parse_small_digits(&mg.text) {
                                    Some(mv) => {
                                        if mv <= 99 {
                                            shift = shift + (mv as i32);
                                        }
                                    },
                                    None => (),
                                }
                            },
                            None => (),
                        }
                    }
                },
                None => (),
            }
            let mut negative: bool = false;
            match pat.group_index("sign") {
                Some(si) => {
                    if si < m.groups.len() {
                        match &m.groups[si] {
                            Some(sg) => {
                                if sg.text.len() == 1 && sg.text[0] == 45 {
                                    negative = true;
                                }
                            },
                            None => (),
                        }
                    }
                },
                None => (),
            }
            if negative {
                shift = -shift;
            }
            let g0 = match &m.groups[0] {
                Some(g) => g,
                None => {
                    return None;
                },
            };
            let whole = crate::regexw::bytes_to_string(&g0.text);
            Some(
                MadeToken {
                    token_type: Some(TokenType::Timezone(whole, base + shift)),
                    ui: Some(UiTokenType::Text),
                },
            )
        } else {
            None
        }
    }

    /// Run one category's patterns over the line, inserting a token for
    /// every match whose span is still free.
    /// Whether a classification is the one the category owes a match; the
    /// highlight half of the made token plays no part.
    pub open spec fn spec_content_ok(
        dg: Seq<String>,
        table: Seq<crate::config::CurrencyDef>,
        bytes: Seq<u8>,
        names: Seq<Option<String>>,
        m: ReMatch,
        cat: u8,
        tt: Option<TokenType>,
    ) -> bool {
        let made = Some(MadeToken { token_type: tt, ui: None });
        if cat == CAT_NUMBER {
            Self::spec_number_content(names, m.groups@, made)
        } else if cat == CAT_PERCENT {
            Self::spec_percent_content(names, m.groups@, made)
        } else if cat == CAT_MONEY {
            Self::spec_money_content(table, names, m.groups@, made)
        } else if cat == CAT_TIME {
            Self::spec_time_content(names, m.groups@, made)
        } else if cat == CAT_OPERATOR {
            Self::spec_operator_content(bytes, m.start as int, m.end as int, made)
        } else if cat == CAT_FIELD {
            Self::spec_field_content(dg, names, m.groups@, made)
        } else if cat == CAT_TIMEZONE {
            Self::spec_timezone_content(names, m.groups@, made)
        } else if cat == CAT_TEXT {
            Self::spec_text_content(m.groups@, made)
        } else if cat == CAT_WHITESPACE || cat == CAT_COMMENT {
            tt is None
        } else {
            true
        }
    }

    /// Whether a category can make no token of a match at all.
    pub open spec fn spec_content_impossible(
        dg: Seq<String>,
        table: Seq<crate::config::CurrencyDef>,
        bytes: Seq<u8>,
        names: Seq<Option<String>>,
        m: ReMatch,
        cat: u8,
    ) -> bool {
        if cat == CAT_NUMBER {
            Self::spec_number_content(names, m.groups@, None)
        } else if cat == CAT_PERCENT {
            Self::spec_percent_content(names, m.groups@, None)
        } else if cat == CAT_MONEY {
            Self::spec_money_content(table, names, m.groups@, None)
        } else if cat == CAT_TIME {
            Self::spec_time_content(names, m.groups@, None)
        } else if cat == CAT_OPERATOR {
            Self::spec_operator_content(bytes, m.start as int, m.end as int, None)
        } else if cat == CAT_FIELD {
            Self::spec_field_content(dg, names, m.groups@, None)
        } else if cat == CAT_TIMEZONE {
            Self::spec_timezone_content(names, m.groups@, None)
        } else if cat == CAT_TEXT {
            Self::spec_text_content(m.groups@, None)
        } else {
            true
        }
    }

    /// What a category pass owes of a pattern's first match: a live token
    /// over its character span carrying the owed classification stands in
    /// the stream, or another live token already holds part of that span,
    /// or the category can make nothing of the match.
    pub open spec fn spec_first_match_recorded(
        dg: Seq<String>,
        table: Seq<crate::config::CurrencyDef>,
        cmap: Seq<usize>,
        bytes: Seq<u8>,
        src: Seq<char>,
        names: Seq<Option<String>>,
        cat: u8,
        out: Seq<TokenInfo>,
    ) -> bool {
        match crate::regexw::spec_captures_of(src, bytes, 0) {
            Some(mv) => {
                let cs = spec_char_pos_map(cmap, mv.0);
                let ce = spec_char_pos_map(cmap, mv.1);
                (0 <= mv.0 < mv.1 && cs < ce) ==> ((exists|j: int, m: ReMatch|
                    0 <= j < out.len() && (#[trigger] out[j]).is_active() && out[j].start == cs
                        && out[j].end == ce && crate::regexw::match_view(m) == mv
                        && #[trigger] Self::spec_content_ok(
                        dg,
                        table,
                        bytes,
                        names,
                        m,
                        cat,
                        out[j].token_type,
                    )) || (exists|j: int|
                    0 <= j < out.len() && (#[trigger] out[j]).is_active() && !(ce <= out[j].start
                        || out[j].end <= cs)) || (exists|m: ReMatch|
                    crate::regexw::match_view(m) == mv && #[trigger] Self::spec_content_impossible(
                        dg,
                        table,
                        bytes,
                        names,
                        m,
                        cat,
                    )))
            },
            None => true,
        }
    }

    fn run_category(&mut self, config: &Config, patterns: &Vec<Pattern>, category: u8)
        requires
            old(self).wf(),
        ensures
            final(self).wf(),
            final(self).bytes@ == old(self).bytes@,
            final(self).spec_char_map_of() == old(self).spec_char_map_of(),
            forall|pi: int|
                0 <= pi < patterns@.len() ==> Self::spec_first_match_recorded(
                    config.duration_group@,
                    config.currency@,
                    final(self).spec_char_map_of(),
                    final(self).bytes@,
                    (#[trigger] patterns@[pi]).spec_src(),
                    patterns@[pi].spec_names(),
                    category,
                    final(self).token_infos@,
                ),
    {
        let mut pi: usize = 0;
        while pi < patterns.len()
            invariant
                self.wf(),
                self.bytes@ == old(self).bytes@,
                self.spec_char_map_of() == old(self).spec_char_map_of(),
                pi <= patterns@.len(),
                forall|pj: int|
                    0 <= pj < pi ==> Self::spec_first_match_recorded(
                        config.duration_group@,
                        config.currency@,
                        self.spec_char_map_of(),
                        self.bytes@,
                        (#[trigger] patterns@[pj]).spec_src(),
                        patterns@[pj].spec_names(),
                        category,
                        self.token_infos@,
                    ),
            decreases patterns@.len() - pi,
        {
            let pat = &patterns[pi];
            let mut from: usize = 0;
            let mut going: bool = true;
            while going && from <= self.bytes.len()
                invariant
                    self.wf(),
                    self.bytes@ == old(self).bytes@,
                    self.spec_char_map_of() == old(self).spec_char_map_of(),
                    pi < patterns@.len(),
                    pat == patterns@[pi as int],
                    (!going || from > 0) ==> Self::spec_first_match_recorded(
                        config.duration_group@,
                        config.currency@,
                        self.spec_char_map_of(),
                        self.bytes@,
                        pat.spec_src(),
                        pat.spec_names(),
                        category,
                        self.token_infos@,
                    ),
                    forall|pj: int|
                        0 <= pj < pi ==> Self::spec_first_match_recorded(
                            config.duration_group@,
                            config.currency@,
                            self.spec_char_map_of(),
                            self.bytes@,
                            (#[trigger] patterns@[pj]).spec_src(),
                            patterns@[pj].spec_names(),
                            category,
                            self.token_infos@,
                        ),
                decreases self.bytes@.len() + 1 - from + (if going {
                    1int
                } else {
                    0int
                }),
            {
                let ghost dg = config.duration_group@;
                let ghost table = config.currency@;
                let ghost cmap = self.spec_char_map_of();
                let ghost bts = self.bytes@;
                let ghost src = pat.spec_src();
                let ghost nms = pat.spec_names();
                let mopt = pat.captures_from(self.bytes.as_slice(), from);
                match mopt {
                    None => {
                        going = false;
                    },
                    Some(m) => {
                        let ghost gm = m;
                        let ghost mv = crate::regexw::match_view(gm);
                        if m.start < m.end {
                            match self.make_token(config, pat, &m, category) {
                                Some(mt) => {
                                    let ghost gtt = mt.token_type;
                                    let cs = self.char_pos(m.start);
                                    let ce = self.char_pos(m.end);
                                    let text = self.char_text(cs, ce);
                                    if cs <= ce {
                                        let ghost pre = self.token_infos@;
                                        let added = self.add_token_location(
                                            cs,
                                            ce,
                                            mt.token_type,
                                            text,
                                        );
                                        proof {
                                            if added {
                                                let (gi, gtok) = choose|gi: int, gtok: TokenInfo|
                                                    0 <= gi <= pre.len()
                                                        && self.token_infos@ == pre.insert(
                                                        gi,
                                                        gtok,
                                                    ) && gtok.start == cs && gtok.end == ce
                                                        && gtok.token_type == gtt
                                                        && gtok.is_active();
                                                if from == 0 {
                                                    assert(self.token_infos@[gi] == gtok);
                                                    assert(Self::spec_content_ok(
                                                        dg,
                                                        table,
                                                        bts,
                                                        nms,
                                                        gm,
                                                        category,
                                                        gtok.token_type,
                                                    ));
                                                } else {
                                                    lemma_recorded_insert(
                                                        dg,
                                                        table,
                                                        cmap,
                                                        bts,
                                                        src,
                                                        nms,
                                                        category,
                                                        pre,
                                                        self.token_infos@,
                                                        gi,
                                                        gtok,
                                                    );
                                                }
                                                assert forall|pj: int|
                                                    0 <= pj < pi implies Self::spec_first_match_recorded(
                                                    dg,
                                                    table,
                                                    cmap,
                                                    bts,
                                                    (#[trigger] patterns@[pj]).spec_src(),
                                                    patterns@[pj].spec_names(),
                                                    category,
                                                    self.token_infos@,
                                                ) by {
                                                    lemma_recorded_insert(
                                                        dg,
                                                        table,
                                                        cmap,
                                                        bts,
                                                        patterns@[pj].spec_src(),
                                                        patterns@[pj].spec_names(),
                                                        category,
                                                        pre,
                                                        self.token_infos@,
                                                        gi,
                                                        gtok,
                                                    );
                                                }
                                            } else {
                                                if from == 0 && spec_char_pos_map(cmap, mv.0)
                                                    < spec_char_pos_map(cmap, mv.1) {
                                                    assert(cs as int == spec_char_pos_map(
                                                        cmap,
                                                        mv.0,
                                                    ) && ce as int == spec_char_pos_map(
                                                        cmap,
                                                        mv.1,
                                                    ));
                                                    assert(cs < ce);
                                                    assert(exists|j: int|
                                                        0 <= j < self.token_infos@.len() && (
                                                        #[trigger] self.token_infos@[j]).is_active()
                                                            && !(ce <= self.token_infos@[j].start
                                                            || self.token_infos@[j].end <= cs));
                                                }
                                            }
                                        }
                                        if added {
                                            match mt.ui {
                                                Some(u) => {
                                                    self.ui_tokens.add_from_regex_match(
                                                        Some((m.start, m.end)),
                                                        u,
                                                    );
                                                },
                                                None => (),
                                            }
                                        }
                                    }
                                },
                                None => {
                                    proof {
                                        if from == 0 {
                                            assert(Self::spec_content_impossible(
                                                dg,
                                                table,
                                                bts,
                                                nms,
                                                gm,
                                                category,
                                            ));
                                        }
                                    }
                                },
                            }
                        }
                        proof {
                            if from == 0 {
                                assert(Self::spec_first_match_recorded(
                                    dg,
                                    table,
                                    cmap,
                                    bts,
                                    src,
                                    nms,
                                    category,
                                    self.token_infos@,
                                ));
                            }
                        }
                        if m.end > from {
                            from = m.end;
                        } else if from < usize::MAX {
                            from = from + 1;
                        } else {
                            going = false;
                        }
                    },
                }
            }
            pi = pi + 1;
        }
    }

    /// The line's byte-to-character map.
    pub open spec fn spec_char_map_of(self) -> Seq<usize> {
        self.ui_tokens.spec_char_map()
    }
}

/// The canonical code the currency table records for a symbol's bytes, by
/// the first matching entry.
pub open spec fn spec_currency_code(
    table: Seq<crate::config::CurrencyDef>,
    symbol: Seq<u8>,
) -> Option<Seq<char>>
    decreases table.len(),
{
    if table.len() == 0 {
        None
    } else if vstd::utf8::encode_utf8(table[0].symbol@) == symbol {
        Some(table[0].code@)
    } else {
        spec_currency_code(table.drop_first(), symbol)
    }
}

/// The canonical code of a money word or symbol, lowered; `None` turns the
/// match down, so an unknown currency never becomes a money token.
pub fn find_currency(config: &Config, lowered: &Vec<u8>) -> (r: Option<String>)
    ensures
        match r {
            Some(code) => spec_currency_code(config.currency@, lowered@) == Some(code@),
            None => spec_currency_code(config.currency@, lowered@) is None,
        },
{
    let mut i: usize = 0;
    proof {
        assert(config.currency@.skip(0) =~= config.currency@);
    }
    while i < config.currency.len()
        invariant
            i <= config.currency@.len(),
            spec_currency_code(config.currency@, lowered@) == spec_currency_code(
                config.currency@.skip(i as int),
                lowered@,
            ),
        decreases config.currency@.len() - i,
    {
        proof {
            assert(config.currency@.skip(i as int).len() > 0);
            assert(config.currency@.skip(i as int)[0] == config.currency@[i as int]);
            assert(config.currency@.skip(i as int).drop_first() =~= config.currency@.skip(i + 1));
        }
        let sym = config.currency[i].symbol.as_str().as_bytes_vec();
        if bytes_eq(&sym, lowered) {
            return Some(config.currency[i].code.clone());
        }
        i = i + 1;
    }
    proof {
        assert(config.currency@.skip(i as int).len() == 0);
    }
    None
}

pub const CAT_NUMBER: u8 = 1;

pub const CAT_PERCENT: u8 = 2;

pub const CAT_MONEY: u8 = 3;

pub const CAT_TIME: u8 = 4;

pub const CAT_TEXT: u8 = 5;

pub const CAT_WHITESPACE: u8 = 6;

pub const CAT_OPERATOR: u8 = 7;

pub const CAT_COMMENT: u8 = 8;

pub const CAT_FIELD: u8 = 9;

pub const CAT_TIMEZONE: u8 = 10;

/// Classify plain figures, with an optional scale suffix.
pub fn number_regex_parser(config: &Config, tokinizer: &mut Tokinizer, group: &Vec<Pattern>)
    requires
        old(tokinizer).wf(),
    ensures
        final(tokinizer).wf(),
        final(tokinizer).bytes@ == old(tokinizer).bytes@,
        final(tokinizer).spec_char_map_of() == old(tokinizer).spec_char_map_of(),
        forall|pi: int|
            0 <= pi < group@.len() ==> Tokinizer::spec_first_match_recorded(
                config.duration_group@,
                config.currency@,
                final(tokinizer).spec_char_map_of(),
                final(tokinizer).bytes@,
                (#[trigger] group@[pi]).spec_src(),
                group@[pi].spec_names(),
                CAT_NUMBER,
                final(tokinizer).token_infos@,
            ),
{
    tokinizer.run_category(config, group, CAT_NUMBER);
}

/// Classify percent figures.
pub fn percent_regex_parser(config: &Config, tokinizer: &mut Tokinizer, group: &Vec<Pattern>)
    requires
        old(tokinizer).wf(),
    ensures
        final(tokinizer).wf(),
        final(tokinizer).bytes@ == old(tokinizer).bytes@,
        final(tokinizer).spec_char_map_of() == old(tokinizer).spec_char_map_of(),
        forall|pi: int|
            0 <= pi < group@.len() ==> Tokinizer::spec_first_match_recorded(
                config.duration_group@,
                config.currency@,
                final(tokinizer).spec_char_map_of(),
                final(tokinizer).bytes@,
                (#[trigger] group@[pi]).spec_src(),
                group@[pi].spec_names(),
                CAT_PERCENT,
                final(tokinizer).token_infos@,
            ),
{
    tokinizer.run_category(config, group, CAT_PERCENT);
}

/// Classify money: a price and a currency the table can resolve.
pub fn money_regex_parser(config: &Config, tokinizer: &mut Tokinizer, group: &Vec<Pattern>)
    requires
        old(tokinizer).wf(),
    ensures
        final(tokinizer).wf(),
        final(tokinizer).bytes@ == old(tokinizer).bytes@,
        final(tokinizer).spec_char_map_of() == old(tokinizer).spec_char_map_of(),
        forall|pi: int|
            0 <= pi < group@.len() ==> Tokinizer::spec_first_match_recorded(
                config.duration_group@,
                config.currency@,
                final(tokinizer).spec_char_map_of(),
                final(tokinizer).bytes@,
                (#[trigger] group@[pi]).spec_src(),
                group@[pi].spec_names(),
                CAT_MONEY,
                final(tokinizer).token_infos@,
            ),
{
    tokinizer.run_category(config, group, CAT_MONEY);
}

/// Classify wall-clock times, with an optional meridiem.
pub fn time_regex_parser(config: &Config, tokinizer: &mut Tokinizer, group: &Vec<Pattern>)
    requires
        old(tokinizer).wf(),
    ensures
        final(tokinizer).wf(),
        final(tokinizer).bytes@ == old(tokinizer).bytes@,
        final(tokinizer).spec_char_map_of() == old(tokinizer).spec_char_map_of(),
        forall|pi: int|
            0 <= pi < group@.len() ==> Tokinizer::spec_first_match_recorded(
                config.duration_group@,
                config.currency@,
                final(tokinizer).spec_char_map_of(),
                final(tokinizer).bytes@,
                (#[trigger] group@[pi]).spec_src(),
                group@[pi].spec_names(),
                CAT_TIME,
                final(tokinizer).token_infos@,
            ),
{
    tokinizer.run_category(config, group, CAT_TIME);
}

/// Classify unclassified words.
pub fn text_regex_parser(config: &Config, tokinizer: &mut Tokinizer, group: &Vec<Pattern>)
    requires
        old(tokinizer).wf(),
    ensures
        final(tokinizer).wf(),
        final(tokinizer).bytes@ == old(tokinizer).bytes@,
        final(tokinizer).spec_char_map_of() == old(tokinizer).spec_char_map_of(),
        forall|pi: int|
            0 <= pi < group@.len() ==> Tokinizer::spec_first_match_recorded(
                config.duration_group@,
                config.currency@,
                final(tokinizer).spec_char_map_of(),
                final(tokinizer).bytes@,
                (#[trigger] group@[pi]).spec_src(),
                group@[pi].spec_names(),
                CAT_TEXT,
                final(tokinizer).token_infos@,
            ),
{
    tokinizer.run_category(config, group, CAT_TEXT);
}

/// Reserve whitespace spans; they play no semantic role.
pub fn whitespace_regex_parser(config: &Config, tokinizer: &mut Tokinizer, group: &Vec<Pattern>)
    requires
        old(tokinizer).wf(),
    ensures
        final(tokinizer).wf(),
        final(tokinizer).bytes@ == old(tokinizer).bytes@,
        final(tokinizer).spec_char_map_of() == old(tokinizer).spec_char_map_of(),
        forall|pi: int|
            0 <= pi < group@.len() ==> Tokinizer::spec_first_match_recorded(
                config.duration_group@,
                config.currency@,
                final(tokinizer).spec_char_map_of(),
                final(tokinizer).bytes@,
                (#[trigger] group@[pi]).spec_src(),
                group@[pi].spec_names(),
                CAT_WHITESPACE,
                final(tokinizer).token_infos@,
            ),
{
    tokinizer.run_category(config, group, CAT_WHITESPACE);
}

/// Classify single-character operators.
pub fn operator_regex_parser(config: &Config, tokinizer: &mut Tokinizer, group: &Vec<Pattern>)
    requires
        old(tokinizer).wf(),
    ensures
        final(tokinizer).wf(),
        final(tokinizer).bytes@ == old(tokinizer).bytes@,
        final(tokinizer).spec_char_map_of() == old(tokinizer).spec_char_map_of(),
        forall|pi: int|
            0 <= pi < group@.len() ==> Tokinizer::spec_first_match_recorded(
                config.duration_group@,
                config.currency@,
                final(tokinizer).spec_char_map_of(),
                final(tokinizer).bytes@,
                (#[trigger] group@[pi]).spec_src(),
                group@[pi].spec_names(),
                CAT_OPERATOR,
                final(tokinizer).token_infos@,
            ),
{
    tokinizer.run_category(config, group, CAT_OPERATOR);
}

/// Reserve comment spans; they play no semantic role.
pub fn comment_regex_parser(config: &Config, tokinizer: &mut Tokinizer, group: &Vec<Pattern>)
    requires
        old(tokinizer).wf(),
    ensures
        final(tokinizer).wf(),
        final(tokinizer).bytes@ == old(tokinizer).bytes@,
        final(tokinizer).spec_char_map_of() == old(tokinizer).spec_char_map_of(),
        forall|pi: int|
            0 <= pi < group@.len() ==> Tokinizer::spec_first_match_recorded(
                config.duration_group@,
                config.currency@,
                final(tokinizer).spec_char_map_of(),
                final(tokinizer).bytes@,
                (#[trigger] group@[pi]).spec_src(),
                group@[pi].spec_names(),
                CAT_COMMENT,
                final(tokinizer).token_infos@,
            ),
{
    tokinizer.run_category(config, group, CAT_COMMENT);
}

/// Classify rule-pattern placeholders, `{KIND:name}`.
pub fn field_regex_parser(config: &Config, tokinizer: &mut Tokinizer, group: &Vec<Pattern>)
    requires
        old(tokinizer).wf(),
    ensures
        final(tokinizer).wf(),
        final(tokinizer).bytes@ == old(tokinizer).bytes@,
        final(tokinizer).spec_char_map_of() == old(tokinizer).spec_char_map_of(),
        forall|pi: int|
            0 <= pi < group@.len() ==> Tokinizer::spec_first_match_recorded(
                config.duration_group@,
                config.currency@,
                final(tokinizer).spec_char_map_of(),
                final(tokinizer).bytes@,
                (#[trigger] group@[pi]).spec_src(),
                group@[pi].spec_names(),
                CAT_FIELD,
                final(tokinizer).token_infos@,
            ),
{
    tokinizer.run_category(config, group, CAT_FIELD);
}

/// Classify time zones: a zone name with an optional `HH[:MM]` offset.
pub fn timezone_regex_parser(config: &Config, tokinizer: &mut Tokinizer, group: &Vec<Pattern>)
    requires
        old(tokinizer).wf(),
    ensures
        final(tokinizer).wf(),
        final(tokinizer).bytes@ == old(tokinizer).bytes@,
        final(tokinizer).spec_char_map_of() == old(tokinizer).spec_char_map_of(),
        forall|pi: int|
            0 <= pi < group@.len() ==> Tokinizer::spec_first_match_recorded(
                config.duration_group@,
                config.currency@,
                final(tokinizer).spec_char_map_of(),
                final(tokinizer).bytes@,
                (#[trigger] group@[pi]).spec_src(),
                group@[pi].spec_names(),
                CAT_TIMEZONE,
                final(tokinizer).token_infos@,
            ),
{
    tokinizer.run_category(config, group, CAT_TIMEZONE);
}

/// One firing of the engine over `[first, last]`: every token of the run
/// is marked consumed and one fresh active token with the handler's
/// classification covers the run's whole span.
pub open spec fn spec_fired(
    s: Seq<TokenInfo>,
    first: int,
    last: int,
    tt: TokenType,
    text: String,
) -> Seq<TokenInfo> {
    let marked = s.map(
        |j: int, x: TokenInfo|
            if first <= j <= last {
                spec_marked(x)
            } else {
                x
            },
    );
    marked.insert(
        first,
        TokenInfo {
            start: s[first].start,
            end: s[last].end,
            token_type: Some(tt),
            original_text: text,
            status: TokenInfoStatus::Active,
        },
    )
}

/// A token marked as consumed, its span and classification kept.
pub open spec fn spec_marked(t: TokenInfo) -> TokenInfo {
    TokenInfo {
        start: t.start,
        end: t.end,
        token_type: t.token_type,
        original_text: t.original_text,
        status: TokenInfoStatus::Removed,
    }
}

/// A sequence of consumed tokens counts no active ones.
proof fn lemma_act_cnt_all_removed(s: Seq<TokenInfo>)
    requires
        forall|i: int| 0 <= i < s.len() ==> !(#[trigger] s[i]).is_active(),
    ensures
        act_cnt(s) == 0,
    decreases s.len(),
{
    if s.len() > 0 {
        lemma_act_cnt_all_removed(s.drop_last());
    }
}

/// A sequence with an active token at each end counts at least two.
proof fn lemma_act_cnt_two(s: Seq<TokenInfo>)
    requires
        s.len() >= 2,
        s[0].is_active(),
        s[s.len() - 1].is_active(),
    ensures
        act_cnt(s) >= 2,
    decreases s.len(),
{
    lemma_act_cnt_ge_one(s.drop_last(), 0);
}

/// A sequence with an active token counts at least one.
proof fn lemma_act_cnt_ge_one(s: Seq<TokenInfo>, i: int)
    requires
        0 <= i < s.len(),
        s[i].is_active(),
    ensures
        act_cnt(s) >= 1,
    decreases s.len(),
{
    lemma_act_cnt_bounds(s.drop_last());
    if i < s.len() - 1 {
        lemma_act_cnt_ge_one(s.drop_last(), i);
    }
}

impl Tokinizer {
    /// Consume the matched run `[first, last]` and put one fresh token with
    /// the handler's classification over its whole span. The number of
    /// active tokens strictly decreases.
    #[verifier::rlimit(100)]
    #[verifier::spinoff_prover]
    fn fire(&mut self, first: usize, last: usize, new_type: TokenType, text: String)
        requires
            old(self).wf(),
            first <= last,
            last < old(self).token_infos@.len(),
            old(self).token_infos@[first as int].is_active(),
            old(self).token_infos@[last as int].is_active(),
            token_type_wf(new_type),
        ensures
            final(self).wf(),
            final(self).bytes@ == old(self).bytes@,
            final(self).spec_char_map_of() == old(self).spec_char_map_of(),
            act_cnt(final(self).token_infos@) <= act_cnt(old(self).token_infos@),
            first < last ==> act_cnt(final(self).token_infos@) < act_cnt(
                old(self).token_infos@,
            ),
            final(self).token_infos@.len() == old(self).token_infos@.len() + 1,
            final(self).token_infos@ == spec_fired(
                old(self).token_infos@,
                first as int,
                last as int,
                new_type,
                text,
            ),
    {
        let ghost olds = self.token_infos@;
        let text_start = self.token_infos[first].start;
        let text_end = self.token_infos[last].end;
        proof {
            if first < last {
                assert(olds[first as int].end <= olds[last as int].start);
            }
            assert(olds[first as int].start <= olds[first as int].end);
            assert(olds[last as int].start <= olds[last as int].end);
        }
        let n: usize = self.token_infos.len();
        let mut k: usize = first;
        while k <= last
            invariant
                first <= k <= last + 1,
                last < n,
                n == self.token_infos@.len(),
                last < self.token_infos@.len(),
                self.token_infos@.len() == olds.len(),
                self.bytes@ == old(self).bytes@,
                self.ui_tokens == old(self).ui_tokens,
                olds == old(self).token_infos@,
                forall|j: int|
                    0 <= j < olds.len() ==> #[trigger] self.token_infos@[j] == (if first <= j < k {
                        spec_marked(olds[j])
                    } else {
                        olds[j]
                    }),
            decreases last + 1 - k,
        {
            let mut t = self.token_infos.remove(k);
            t.status = TokenInfoStatus::Removed;
            let ghost gt = t;
            self.token_infos.insert(k, t);
            proof {
                assert(self.token_infos@ =~= olds.map(
                    |j: int, x: TokenInfo|
                        if first <= j < k + 1 {
                            spec_marked(olds[j])
                        } else {
                            olds[j]
                        },
                ));
                assert forall|j: int| 0 <= j < olds.len() implies #[trigger] self.token_infos@[j]
                    == (if first <= j < k + 1 {
                    spec_marked(olds[j])
                } else {
                    olds[j]
                }) by {}
            }
            k = k + 1;
        }
        let merged = TokenInfo {
            start: text_start,
            end: text_end,
            token_type: Some(new_type),
            original_text: text,
            status: TokenInfoStatus::Active,
        };
        let ghost marked = self.token_infos@;
        let ghost gm = merged;
        self.token_infos.insert(first, merged);
        proof {
            let news = self.token_infos@;
            assert(news == marked.insert(first as int, gm));
            // the marked sequence keeps spans and sortedness
            assert forall|a: int| 0 <= a < marked.len() implies (#[trigger] marked[a]).start
                == olds[a].start && marked[a].end == olds[a].end && marked[a].wf() by {}
            assert forall|a: int|
                0 <= a < marked.len() && (#[trigger] marked[a]).is_active() implies olds[a].is_active()
                && !(first <= a <= last) by {}
            // well-formedness of the result
            assert forall|a: int| 0 <= a < news.len() implies (#[trigger] news[a]).wf() by {
                if a < first {
                    assert(news[a] == marked[a]);
                } else if a > first {
                    assert(news[a] == marked[a - 1]);
                } else {
                    assert(news[a] == gm);
                    assert(text_start <= text_end);
                }
            }
            assert forall|a: int, b: int| 0 <= a < b < news.len() implies (#[trigger] news[a]).start
                <= (#[trigger] news[b]).start by {
                if b < first {
                    assert(news[a] == marked[a] && news[b] == marked[b]);
                } else if a < first && b == first {
                    assert(news[a] == marked[a] && news[b] == gm);
                } else if a < first && b > first {
                    assert(news[a] == marked[a] && news[b] == marked[b - 1]);
                } else if a == first {
                    assert(news[a] == gm && news[b] == marked[b - 1]);
                    assert(olds[first as int].start <= olds[b - 1].start);
                } else {
                    assert(news[a] == marked[a - 1] && news[b] == marked[b - 1]);
                }
            }
            assert forall|a: int, b: int|
                0 <= a < b < news.len() && (#[trigger] news[a]).is_active() && (
                #[trigger] news[b]).is_active() implies news[a].end <= news[b].start by {
                if a < first && b == first {
                    assert(news[a] == marked[a]);
                    assert(olds[a].is_active());
                    assert(olds[a].end <= olds[first as int].start);
                } else if a < first && b > first {
                    assert(news[a] == marked[a] && news[b] == marked[b - 1]);
                } else if a == first {
                    assert(news[b] == marked[b - 1]);
                    assert(olds[b - 1].is_active() && b - 1 > last);
                    assert(olds[last as int].end <= olds[b - 1].start);
                } else if b < first {
                    assert(news[a] == marked[a] && news[b] == marked[b]);
                } else {
                    assert(news[a] == marked[a - 1] && news[b] == marked[b - 1]);
                }
            }
            // the active count strictly drops
            let ra = olds.subrange(0, first as int);
            let rm = olds.subrange(first as int, last + 1);
            let rb = olds.subrange(last + 1, olds.len() as int);
            assert(olds =~= ra + rm + rb);
            lemma_act_cnt_add(ra + rm, rb);
            lemma_act_cnt_add(ra, rm);
            let ma = marked.subrange(0, first as int);
            let mm = marked.subrange(first as int, last + 1);
            let mb = marked.subrange(last + 1, marked.len() as int);
            assert(marked =~= ma + mm + mb);
            lemma_act_cnt_add(ma + mm, mb);
            lemma_act_cnt_add(ma, mm);
            assert(ma =~= ra);
            assert(mb =~= rb);
            assert(forall|j: int| 0 <= j < mm.len() ==> !(#[trigger] mm[j]).is_active());
            lemma_act_cnt_all_removed(mm);
            assert(rm[0] == olds[first as int] && rm[rm.len() - 1] == olds[last as int]);
            if first < last {
                lemma_act_cnt_two(rm);
                assert(act_cnt(marked) <= act_cnt(olds) - 2);
            } else {
                lemma_act_cnt_ge_one(rm, 0);
                assert(act_cnt(marked) <= act_cnt(olds) - 1);
            }
            assert(news =~= marked.subrange(0, first as int) + seq![gm] + marked.subrange(
                first as int,
                marked.len() as int,
            ));
            lemma_act_cnt_add(marked.subrange(0, first as int) + seq![gm], marked.subrange(first as int, marked.len() as int));
            lemma_act_cnt_add(marked.subrange(0, first as int), seq![gm]);
            lemma_act_cnt_one(gm);
            lemma_act_cnt_add(marked.subrange(0, first as int), marked.subrange(first as int, marked.len() as int));
            assert(marked.subrange(0, first as int) + marked.subrange(first as int, marked.len() as int) =~= marked);
            assert(act_cnt(news) == act_cnt(marked) + 1);
            assert(news =~= spec_fired(olds, first as int, last as int, new_type, gm.original_text));
        }
    }
}

/// A recorded first match stays recorded when a token is inserted: the
/// witnessing token only shifts, and a blocking token keeps blocking.
proof fn lemma_recorded_insert(
    dg: Seq<String>,
    table: Seq<crate::config::CurrencyDef>,
    cmap: Seq<usize>,
    bytes: Seq<u8>,
    src: Seq<char>,
    names: Seq<Option<String>>,
    cat: u8,
    s: Seq<TokenInfo>,
    s2: Seq<TokenInfo>,
    i: int,
    tok: TokenInfo,
)
    requires
        Tokinizer::spec_first_match_recorded(dg, table, cmap, bytes, src, names, cat, s),
        0 <= i <= s.len(),
        s2 == s.insert(i, tok),
    ensures
        Tokinizer::spec_first_match_recorded(dg, table, cmap, bytes, src, names, cat, s2),
{
    match crate::regexw::spec_captures_of(src, bytes, 0) {
        Some(mv) => {
            let cs = spec_char_pos_map(cmap, mv.0);
            let ce = spec_char_pos_map(cmap, mv.1);
            if 0 <= mv.0 < mv.1 && cs < ce {
                if exists|j: int, m: ReMatch|
                    0 <= j < s.len() && (#[trigger] s[j]).is_active() && s[j].start == cs
                        && s[j].end == ce && crate::regexw::match_view(m) == mv
                        && #[trigger] Tokinizer::spec_content_ok(
                        dg,
                        table,
                        bytes,
                        names,
                        m,
                        cat,
                        s[j].token_type,
                    ) {
                    let (j, m) = choose|j: int, m: ReMatch|
                        0 <= j < s.len() && (#[trigger] s[j]).is_active() && s[j].start == cs
                            && s[j].end == ce && crate::regexw::match_view(m) == mv
                            && #[trigger] Tokinizer::spec_content_ok(
                            dg,
                            table,
                            bytes,
                            names,
                            m,
                            cat,
                            s[j].token_type,
                        );
                    let j2 = if j < i {
                        j
                    } else {
                        j + 1
                    };
                    assert(s2[j2] == s[j]);
                } else if exists|j: int|
                    0 <= j < s.len() && (#[trigger] s[j]).is_active() && !(ce <= s[j].start
                        || s[j].end <= cs) {
                    let j = choose|j: int|
                        0 <= j < s.len() && (#[trigger] s[j]).is_active() && !(ce <= s[j].start
                            || s[j].end <= cs);
                    let j2 = if j < i {
                        j
                    } else {
                        j + 1
                    };
                    assert(s2[j2] == s[j]);
                }
            }
        },
        None => (),
    }
}

/// A faithful copy of a located token.
pub fn dup_info(t: &TokenInfo) -> (r: TokenInfo)
    ensures
        r.start == t.start,
        r.end == t.end,
        r.status == t.status,
        t.wf() ==> r.wf(),
        !(t.token_type matches Some(TokenType::Field(_))) ==> r == *t,
{
    TokenInfo {
        start: t.start,
        end: t.end,
        token_type: match &t.token_type {
            Some(tt) => Some(dup_token_type(tt)),
            None => None,
        },
        original_text: t.original_text.clone(),
        status: t.status,
    }
}


/// The meridiem rule: the word `pm`, in any letter case, adds twelve to the
/// hour; every other word leaves it alone.
pub open spec fn spec_meridiem_hour(hour: int, word: Seq<u8>) -> int {
    if spec_ascii_lower(word) == seq![112u8, 109u8] {
        hour + 12
    } else {
        hour
    }
}

/// Apply the meridiem rule to a parsed hour.
pub fn apply_meridiem(hour: u32, word: &Vec<u8>) -> (h: u32)
    requires
        hour < 1000000000,
    ensures
        h as int == spec_meridiem_hour(hour as int, word@),
{
    let lowered = ascii_lower(word);
    let mut pm: Vec<u8> = Vec::new();
    pm.push(112);
    pm.push(109);
    proof {
        assert(pm@ =~= seq![112u8, 109u8]);
    }
    if bytes_eq(&lowered, &pm) {
        hour + 12
    } else {
        hour
    }
}

/// Whether a word stands in a word group, character for character.
pub open spec fn spec_contains_word(words: Seq<String>, w: Seq<char>) -> bool {
    exists|k: int| 0 <= k < words.len() && (#[trigger] words[k])@ == w
}

/// Whether a word stands in a word group.
fn contains_word(words: &Vec<String>, w: &String) -> (r: bool)
    ensures
        r == spec_contains_word(words@, w@),
{
    let mut i: usize = 0;
    while i < words.len()
        invariant
            i <= words@.len(),
            forall|k: int| 0 <= k < i ==> (#[trigger] words@[k])@ != w@,
        decreases words@.len() - i,
    {
        if words[i].eq(w) {
            return true;
        }
        i = i + 1;
    }
    false
}

/// Whether a concrete pattern token equals a stream token: by variant and
/// value, for the kinds rule patterns are written with.
pub open spec fn spec_token_eq(a: TokenType, b: TokenType) -> bool {
    match (a, b) {
        (TokenType::Operator(x), TokenType::Operator(y)) => x == y,
        (TokenType::Text(x), TokenType::Text(y)) => x@ == y@,
        (TokenType::Number(x), TokenType::Number(y)) => x.n() == y.n() && x.d() == y.d(),
        (TokenType::Month(x), TokenType::Month(y)) => x == y,
        _ => false,
    }
}

/// Whether a concrete pattern token equals a stream token.
fn token_type_eq(a: &TokenType, b: &TokenType) -> (r: bool)
    ensures
        r == spec_token_eq(*a, *b),
{
    match (a, b) {
        (TokenType::Operator(x), TokenType::Operator(y)) => *x == *y,
        (TokenType::Text(x), TokenType::Text(y)) => x.eq(y),
        (TokenType::Number(x), TokenType::Number(y)) => {
            let px = x.parts();
            let py = y.parts();
            px.0 == py.0 && px.1 == py.1
        },
        (TokenType::Month(x), TokenType::Month(y)) => *x == *y,
        _ => false,
    }
}

/// Whether a field placeholder accepts a stream token's classification.
pub open spec fn spec_field_accepts(f: FieldType, t: Option<TokenType>) -> bool {
    match t {
        Some(tt) => match f {
            FieldType::Date(_) => tt matches TokenType::Date(_),
            FieldType::Time(_) => tt matches TokenType::Time(_),
            FieldType::Number(_) => tt matches TokenType::Number(_),
            FieldType::Text(_) => tt matches TokenType::Text(_),
            FieldType::Money(_) => tt matches TokenType::Money(_, _),
            FieldType::Percent(_) => tt matches TokenType::Percent(_),
            FieldType::Month(_) => tt matches TokenType::Month(_),
            FieldType::Duration(_) => tt matches TokenType::Duration(_, _, _),
            FieldType::NumberOrMoney(_) => tt matches TokenType::Number(_) || tt
                matches TokenType::Money(_, _),
            FieldType::Group(_, words) => match tt {
                TokenType::Text(w) => spec_contains_word(words@, w@),
                _ => false,
            },
        },
        None => false,
    }
}

/// Whether a field placeholder accepts a stream token.
fn field_accepts(f: &FieldType, t: &Option<TokenType>) -> (r: bool)
    ensures
        r == spec_field_accepts(*f, *t),
{
    match t {
        Some(tt) => match f {
            FieldType::Date(_) => matches!(tt, TokenType::Date(_)),
            FieldType::Time(_) => matches!(tt, TokenType::Time(_)),
            FieldType::Number(_) => matches!(tt, TokenType::Number(_)),
            FieldType::Text(_) => matches!(tt, TokenType::Text(_)),
            FieldType::Money(_) => matches!(tt, TokenType::Money(_, _)),
            FieldType::Percent(_) => matches!(tt, TokenType::Percent(_)),
            FieldType::Month(_) => matches!(tt, TokenType::Month(_)),
            FieldType::Duration(_) => matches!(tt, TokenType::Duration(_, _, _)),
            FieldType::NumberOrMoney(_) => match tt {
                TokenType::Number(_) => true,
                TokenType::Money(_, _) => true,
                _ => false,
            },
            FieldType::Group(_, words) => match tt {
                TokenType::Text(w) => contains_word(words, w),
                _ => false,
            },
        },
        None => false,
    }
}

/// How one stream token answers one pattern token: a field placeholder
/// matches by kind, anything else by variant and value.
pub open spec fn spec_accepts(ptok: TokenInfo, t: TokenInfo) -> bool {
    match ptok.token_type {
        Some(TokenType::Field(f)) => spec_field_accepts(f, t.token_type),
        Some(other) => match t.token_type {
            Some(tt) => spec_token_eq(other, tt),
            None => false,
        },
        None => false,
    }
}

/// Whether a handler succeeds on captured fields.
pub open spec fn spec_handler_fires(
    pairs: Seq<crate::config::UnitWord>,
    handler: RuleHandler,
    fields: Seq<(String, TokenInfo)>,
) -> bool {
    match handler {
        RuleHandler::DurationParse => crate::rules::spec_duration_parse_outcome(
            pairs,
            fields,
        ) is Some,
        RuleHandler::AsDuration => crate::rules::spec_as_duration_outcome(pairs, fields) is Some,
    }
}

/// The field entry a matched pattern token captures.
pub open spec fn spec_captured(
    ptok: TokenInfo,
    t: TokenInfo,
    fields: Seq<(String, TokenInfo)>,
) -> Seq<(String, TokenInfo)> {
    match ptok.token_type {
        Some(TokenType::Field(f)) => fields.push((f.spec_name_string(), t)),
        _ => fields,
    }
}

/// The engine's scan from a position and pattern offset: whether the
/// pattern matches a run of active tokens somewhere at or after `target`
/// and its handler then succeeds. A token that fails its pattern position
/// restarts the pattern from the next stream position, as the engine does.
pub open spec fn spec_scan(
    infos: Seq<TokenInfo>,
    pattern: Seq<TokenInfo>,
    pairs: Seq<crate::config::UnitWord>,
    handler: RuleHandler,
    target: int,
    rule_ti: int,
    fields: Seq<(String, TokenInfo)>,
) -> bool
    decreases infos.len() - target,
    when 0 <= target && 0 <= rule_ti < pattern.len()
{
    if target >= infos.len() {
        false
    } else {
        let t = infos[target];
        if t.is_active() && t.token_type is Some {
            if spec_accepts(pattern[rule_ti], t) {
                let fields2 = spec_captured(pattern[rule_ti], t, fields);
                if rule_ti + 1 == pattern.len() {
                    spec_handler_fires(pairs, handler, fields2)
                } else {
                    spec_scan(infos, pattern, pairs, handler, target + 1, rule_ti + 1, fields2)
                }
            } else {
                spec_scan(infos, pattern, pairs, handler, target + 1, 0, Seq::empty())
            }
        } else {
            spec_scan(infos, pattern, pairs, handler, target + 1, rule_ti, fields)
        }
    }
}

/// Whether a rule pattern fires anywhere on a token stream; patterns of
/// fewer than two tokens never fire.
pub open spec fn spec_pattern_fires(
    infos: Seq<TokenInfo>,
    pattern: Seq<TokenInfo>,
    pairs: Seq<crate::config::UnitWord>,
    handler: RuleHandler,
) -> bool {
    pattern.len() >= 2 && spec_scan(infos, pattern, pairs, handler, 0, 0, Seq::empty())
}

/// A token a field placeholder accepted is never itself a placeholder.
proof fn lemma_accepts_not_field(ptok: TokenInfo, t: TokenInfo)
    requires
        spec_accepts(ptok, t),
    ensures
        !(t.token_type matches Some(TokenType::Field(_))),
{
}

impl Tokinizer {
    /// Scan the stream for one pattern; when it matches in full, run the
    /// handler and, on success, consume the matched run for its replacement
    /// token. Every firing strictly shrinks the number of active tokens:
    /// a match spans at least two active tokens and leaves one behind, which
    /// is why the fixed-point engine terminates.
    pub fn try_pattern(&mut self, config: &Config, handler: RuleHandler, pattern: &Vec<TokenInfo>) -> (fired:
        bool)
        requires
            old(self).wf(),
        ensures
            final(self).wf(),
            final(self).bytes@ == old(self).bytes@,
            final(self).spec_char_map_of() == old(self).spec_char_map_of(),
            fired ==> act_cnt(final(self).token_infos@) < act_cnt(old(self).token_infos@),
            !fired ==> final(self).token_infos@ == old(self).token_infos@,
            fired == spec_pattern_fires(
                old(self).token_infos@,
                pattern@,
                config.constant_pairs@,
                handler,
            ),
    {
        let total = pattern.len();
        if total < 2 {
            return false;
        }
        let mut rule_ti: usize = 0;
        let mut target: usize = 0;
        let mut first: usize = 0;
        let mut have_first: bool = false;
        let mut last: usize = 0;
        let mut fields: Vec<(String, TokenInfo)> = Vec::new();
        proof {
            assert(fields@ =~= Seq::<(String, TokenInfo)>::empty());
        }
        while target < self.token_infos.len()
            invariant
                *self == *old(self),
                self.wf(),
                target <= self.token_infos@.len(),
                rule_ti < total,
                total == pattern@.len(),
                2 <= total,
                have_first ==> first < self.token_infos@.len()
                    && self.token_infos@[first as int].is_active() && rule_ti >= 1,
                rule_ti >= 1 ==> have_first && last < self.token_infos@.len()
                    && self.token_infos@[last as int].is_active() && first <= last && last
                    < target,
                rule_ti >= 2 ==> first < last,
                spec_scan(
                    self.token_infos@,
                    pattern@,
                    config.constant_pairs@,
                    handler,
                    target as int,
                    rule_ti as int,
                    fields@,
                ) == spec_pattern_fires(
                    self.token_infos@,
                    pattern@,
                    config.constant_pairs@,
                    handler,
                ),
            decreases self.token_infos@.len() - target,
        {
            let is_active = match self.token_infos[target].status {
                TokenInfoStatus::Active => true,
                TokenInfoStatus::Removed => false,
            };
            let has_type = match &self.token_infos[target].token_type {
                Some(_) => true,
                None => false,
            };
            if is_active && has_type {
                let accepted: bool = match &pattern[rule_ti].token_type {
                    Some(TokenType::Field(f)) => field_accepts(
                        f,
                        &self.token_infos[target].token_type,
                    ),
                    Some(other) => match &self.token_infos[target].token_type {
                        Some(tt) => token_type_eq(other, tt),
                        None => false,
                    },
                    None => false,
                };
                proof {
                    assert(accepted == spec_accepts(
                        pattern@[rule_ti as int],
                        self.token_infos@[target as int],
                    ));
                }
                if accepted {
                    proof {
                        assert(self.token_infos@[target as int].is_active());
                        lemma_accepts_not_field(
                            pattern@[rule_ti as int],
                            self.token_infos@[target as int],
                        );
                    }
                    if !have_first {
                        first = target;
                        have_first = true;
                    }
                    last = target;
                    let ghost pre_fields = fields@;
                    match &pattern[rule_ti].token_type {
                        Some(TokenType::Field(f)) => {
                            fields.push((f.name().clone(), dup_info(&self.token_infos[target])));
                        },
                        _ => (),
                    }
                    proof {
                        assert(fields@ =~= spec_captured(
                            pattern@[rule_ti as int],
                            self.token_infos@[target as int],
                            pre_fields,
                        ));
                    }
                    if rule_ti + 1 == total {
                        let produced = match handler {
                            RuleHandler::DurationParse => crate::rules::duration_parse(
                                config,
                                &fields,
                            ),
                            RuleHandler::AsDuration => crate::rules::as_duration(config, &fields),
                        };
                        match produced {
                            Ok(new_type) => {
                                proof {
                                    assert(token_type_wf(new_type));
                                }
                                self.fire(first, last, new_type, String::new());
                                return true;
                            },
                            Err(_) => {
                                return false;
                            },
                        }
                    }
                    rule_ti = rule_ti + 1;
                } else {
                    rule_ti = 0;
                    have_first = false;
                    fields = Vec::new();
                    proof {
                        assert(fields@ =~= Seq::<(String, TokenInfo)>::empty());
                    }
                }
            }
            target = target + 1;
        }
        false
    }

    /// Run the rule pack to a fixed point: as long as any rule fires in a
    /// full pass, another pass runs; every firing strictly shrinks the
    /// number of active tokens, so the engine terminates.
    pub fn apply_rules(&mut self, config: &Config)
        requires
            old(self).wf(),
        ensures
            final(self).wf(),
            final(self).bytes@ == old(self).bytes@,
            final(self).spec_char_map_of() == old(self).spec_char_map_of(),
            act_cnt(final(self).token_infos@) <= act_cnt(old(self).token_infos@),
            forall|ri: int, pi: int|
                0 <= ri < config.rule@.len() && 0 <= pi < (#[trigger] config.rule@[ri]).patterns@.len()
                    ==> !spec_pattern_fires(
                    final(self).token_infos@,
                    (#[trigger] config.rule@[ri].patterns@[pi])@,
                    config.constant_pairs@,
                    config.rule@[ri].handler,
                ),
    {
        proof {
            lemma_act_cnt_bounds(self.token_infos@);
        }
        let mut execute_rules: bool = true;
        while execute_rules
            invariant
                self.wf(),
                self.bytes@ == old(self).bytes@,
                self.spec_char_map_of() == old(self).spec_char_map_of(),
                act_cnt(self.token_infos@) <= act_cnt(old(self).token_infos@),
                0 <= act_cnt(self.token_infos@),
                !execute_rules ==> forall|ri: int, pi: int|
                    0 <= ri < config.rule@.len() && 0 <= pi < (
                    #[trigger] config.rule@[ri]).patterns@.len() ==> !spec_pattern_fires(
                        self.token_infos@,
                        (#[trigger] config.rule@[ri].patterns@[pi])@,
                        config.constant_pairs@,
                        config.rule@[ri].handler,
                    ),
            decreases 2 * act_cnt(self.token_infos@) + (if execute_rules {
                1int
            } else {
                0int
            }),
        {
            execute_rules = false;
            let ghost c0 = act_cnt(self.token_infos@);
            let ghost pass_start = self.token_infos@;
            let mut ri: usize = 0;
            while ri < config.rule.len()
                invariant
                    self.wf(),
                    self.bytes@ == old(self).bytes@,
                    self.spec_char_map_of() == old(self).spec_char_map_of(),
                    act_cnt(self.token_infos@) <= act_cnt(old(self).token_infos@),
                    act_cnt(self.token_infos@) <= c0,
                    execute_rules ==> act_cnt(self.token_infos@) < c0,
                    0 <= act_cnt(self.token_infos@),
                    ri <= config.rule@.len(),
                    !execute_rules ==> self.token_infos@ == pass_start,
                    !execute_rules ==> forall|rj: int, pj: int|
                        0 <= rj < ri && 0 <= pj < (#[trigger] config.rule@[rj]).patterns@.len()
                            ==> !spec_pattern_fires(
                            self.token_infos@,
                            (#[trigger] config.rule@[rj].patterns@[pj])@,
                            config.constant_pairs@,
                            config.rule@[rj].handler,
                        ),
                decreases config.rule@.len() - ri,
            {
                let rule = &config.rule[ri];
                let mut pi: usize = 0;
                let mut advanced: bool = false;
                while !advanced && pi < rule.patterns.len()
                    invariant
                        self.wf(),
                        self.bytes@ == old(self).bytes@,
                        self.spec_char_map_of() == old(self).spec_char_map_of(),
                        act_cnt(self.token_infos@) <= act_cnt(old(self).token_infos@),
                        act_cnt(self.token_infos@) <= c0,
                        (execute_rules || advanced) ==> act_cnt(self.token_infos@) < c0,
                        0 <= act_cnt(self.token_infos@),
                        advanced ==> execute_rules,
                        ri < config.rule@.len(),
                        rule == config.rule@[ri as int],
                        pi <= rule.patterns@.len(),
                        !execute_rules ==> self.token_infos@ == pass_start,
                        !execute_rules ==> forall|rj: int, pj: int|
                            0 <= rj < ri && 0 <= pj < (
                            #[trigger] config.rule@[rj]).patterns@.len() ==> !spec_pattern_fires(
                                self.token_infos@,
                                (#[trigger] config.rule@[rj].patterns@[pj])@,
                                config.constant_pairs@,
                                config.rule@[rj].handler,
                            ),
                        !execute_rules ==> forall|pj: int|
                            0 <= pj < pi ==> !spec_pattern_fires(
                                self.token_infos@,
                                (#[trigger] rule.patterns@[pj])@,
                                config.constant_pairs@,
                                rule.handler,
                            ),
                    decreases rule.patterns@.len() - pi,
                {
                    proof {
                        lemma_act_cnt_bounds(self.token_infos@);
                    }
                    if self.try_pattern(config, rule.handler, &rule.patterns[pi]) {
                        advanced = true;
                        execute_rules = true;
                    }
                    proof {
                        lemma_act_cnt_bounds(self.token_infos@);
                    }
                    pi = pi + 1;
                }
                proof {
                    if !execute_rules {
                        assert(!advanced);
                        assert(forall|pj: int|
                            0 <= pj < rule.patterns@.len() ==> !spec_pattern_fires(
                                self.token_infos@,
                                (#[trigger] rule.patterns@[pj])@,
                                config.constant_pairs@,
                                rule.handler,
                            ));
                    }
                }
                ri = ri + 1;
            }
        }
    }
}

/// Removing one element keeps the stream well-formed.
proof fn lemma_infos_wf_remove(s: Seq<TokenInfo>, k: int)
    requires
        infos_wf(s),
        0 <= k < s.len(),
    ensures
        infos_wf(s.remove(k)),
{
    let t = s.remove(k);
    assert forall|a: int| 0 <= a < t.len() implies (#[trigger] t[a]).wf() by {
        if a < k {
            assert(t[a] == s[a]);
        } else {
            assert(t[a] == s[a + 1]);
        }
    }
    assert forall|a: int, b: int| 0 <= a < b < t.len() implies (#[trigger] t[a]).start <= (
    #[trigger] t[b]).start by {
        if b < k {
            assert(t[a] == s[a] && t[b] == s[b]);
        } else if a < k {
            assert(t[a] == s[a] && t[b] == s[b + 1]);
        } else {
            assert(t[a] == s[a + 1] && t[b] == s[b + 1]);
        }
    }
    assert forall|a: int, b: int|
        0 <= a < b < t.len() && (#[trigger] t[a]).is_active() && (#[trigger] t[b]).is_active()
            implies t[a].end <= t[b].start by {
        if b < k {
            assert(t[a] == s[a] && t[b] == s[b]);
        } else if a < k {
            assert(t[a] == s[a] && t[b] == s[b + 1]);
        } else {
            assert(t[a] == s[a + 1] && t[b] == s[b + 1]);
        }
    }
}

impl Tokinizer {
    /// Drop the tokens that carry no classification; they existed only to
    /// reserve their spans.
    pub fn retain_typed(&mut self)
        requires
            old(self).wf(),
        ensures
            final(self).wf(),
            final(self).bytes@ == old(self).bytes@,
            final(self).spec_char_map_of() == old(self).spec_char_map_of(),
            final(self).token_infos@ == old(self).token_infos@.filter(
                |t: TokenInfo| t.token_type is Some,
            ),
    {
        let ghost s0 = self.token_infos@;
        let ghost keep = |t: TokenInfo| t.token_type is Some;
        let mut index: usize = 0;
        let ghost mut p: int = 0;
        proof {
            reveal(Seq::filter);
            assert(s0.subrange(0, 0).filter(keep) =~= Seq::<TokenInfo>::empty().filter(keep));
            assert(self.token_infos@ =~= s0.subrange(0, p).filter(keep) + s0.subrange(
                p,
                s0.len() as int,
            ));
        }
        while index < self.token_infos.len()
            invariant
                self.wf(),
                self.bytes@ == old(self).bytes@,
                self.spec_char_map_of() == old(self).spec_char_map_of(),
                s0 == old(self).token_infos@,
                keep == (|t: TokenInfo| t.token_type is Some),
                0 <= p <= s0.len(),
                index as int == s0.subrange(0, p).filter(keep).len(),
                self.token_infos@ == s0.subrange(0, p).filter(keep) + s0.subrange(
                    p,
                    s0.len() as int,
                ),
            decreases s0.len() - p,
        {
            proof {
                s0.subrange(0, p).lemma_filter_len(keep);
                assert(p < s0.len());
                assert(self.token_infos@[index as int] == s0[p]);
                crate::executer::lemma_filter_push(s0.subrange(0, p), s0[p], keep);
                assert(s0.subrange(0, p + 1) =~= s0.subrange(0, p).push(s0[p]));
            }
            let has_type = match &self.token_infos[index].token_type {
                Some(_) => true,
                None => false,
            };
            if has_type {
                index = index + 1;
                proof {
                    p = p + 1;
                    assert(self.token_infos@ =~= s0.subrange(0, p).filter(keep) + s0.subrange(
                        p,
                        s0.len() as int,
                    ));
                }
            } else {
                proof {
                    lemma_infos_wf_remove(self.token_infos@, index as int);
                }
                self.token_infos.remove(index);
                proof {
                    p = p + 1;
                    assert(self.token_infos@ =~= s0.subrange(0, p).filter(keep) + s0.subrange(
                        p,
                        s0.len() as int,
                    ));
                }
            }
        }
        proof {
            s0.subrange(0, p).lemma_filter_len(keep);
            assert(p == s0.len());
            assert(s0.subrange(0, s0.len() as int) =~= s0);
            assert(s0.subrange(p, s0.len() as int) =~= Seq::<TokenInfo>::empty());
            assert(self.token_infos@ =~= s0.filter(keep));
        }
    }

    /// Run every configured category over the line, in table order, then
    /// drop the unclassified spans. Earlier categories win the spans they
    /// take.
    pub fn tokinize_with_regex(&mut self, config: &Config)
        requires
            old(self).wf(),
        ensures
            final(self).wf(),
            final(self).bytes@ == old(self).bytes@,
            final(self).spec_char_map_of() == old(self).spec_char_map_of(),
            forall|i: int|
                0 <= i < final(self).token_infos@.len() ==> (#[trigger] final(self).token_infos@[i]).token_type is Some,
    {
        let mut gi: usize = 0;
        while gi < config.token_parse_regex.len()
            invariant
                self.wf(),
                self.bytes@ == old(self).bytes@,
                self.spec_char_map_of() == old(self).spec_char_map_of(),
            decreases config.token_parse_regex@.len() - gi,
        {
            let group = &config.token_parse_regex[gi];
            let cat = group.category.as_str();
            if crate::regexw::str_eq_str(cat, "comment") {
                comment_regex_parser(config, self, &group.patterns);
            } else if crate::regexw::str_eq_str(cat, "field") {
                field_regex_parser(config, self, &group.patterns);
            } else if crate::regexw::str_eq_str(cat, "money") {
                money_regex_parser(config, self, &group.patterns);
            } else if crate::regexw::str_eq_str(cat, "timezone") {
                timezone_regex_parser(config, self, &group.patterns);
            } else if crate::regexw::str_eq_str(cat, "percent") {
                percent_regex_parser(config, self, &group.patterns);
            } else if crate::regexw::str_eq_str(cat, "time") {
                time_regex_parser(config, self, &group.patterns);
            } else if crate::regexw::str_eq_str(cat, "number") {
                number_regex_parser(config, self, &group.patterns);
            } else if crate::regexw::str_eq_str(cat, "text") {
                text_regex_parser(config, self, &group.patterns);
            } else if crate::regexw::str_eq_str(cat, "whitespace") {
                whitespace_regex_parser(config, self, &group.patterns);
            } else if crate::regexw::str_eq_str(cat, "operator") {
                operator_regex_parser(config, self, &group.patterns);
            }
            gi = gi + 1;
        }
        self.retain_typed();
        proof {
            let kept = old(self).token_infos@;
            self.token_infos@.lemma_filter_len(|t: TokenInfo| t.token_type is Some);
            assert forall|i: int|
                0 <= i < self.token_infos@.len() implies (#[trigger] self.token_infos@[i]).token_type
                is Some by {
            }
        }
    }

    /// Replace one token's classification in place; its span and lifecycle
    /// stay.
    fn replace_type(&mut self, i: usize, t: Option<TokenType>)
        requires
            old(self).wf(),
            i < old(self).token_infos@.len(),
            match t {
                Some(tt) => token_type_wf(tt),
                None => true,
            },
        ensures
            final(self).wf(),
            final(self).bytes@ == old(self).bytes@,
            final(self).spec_char_map_of() == old(self).spec_char_map_of(),
            final(self).token_infos@.len() == old(self).token_infos@.len(),
            forall|j: int|
                0 <= j < old(self).token_infos@.len() ==> (#[trigger] final(self).token_infos@[j]).start == old(self).token_infos@[j].start && final(self).token_infos@[j].end == old(self).token_infos@[j].end && final(self).token_infos@[j].status == old(self).token_infos@[j].status,
            final(self).token_infos@[i as int].token_type == t,
            forall|j: int|
                0 <= j < old(self).token_infos@.len() && j != i ==> (#[trigger] final(self).token_infos@[j]).token_type == old(self).token_infos@[j].token_type,
            final(self).token_infos@ == old(self).token_infos@.update(
                i as int,
                TokenInfo { token_type: t, ..old(self).token_infos@[i as int] },
            ),
    {
        let mut cell = self.token_infos.remove(i);
        cell.token_type = t;
        let ghost gc = cell;
        self.token_infos.insert(i, cell);
        proof {
            assert(final(self).token_infos@ =~= old(self).token_infos@.update(i as int, gc));
        }
    }

    /// Rewrite aliased words: a token whose text matches an alias pattern
    /// takes the alias's canonical classification — the single atom of its
    /// replacement text, or the replacement as a plain word.
    pub fn apply_aliases(&mut self, config: &Config)
        requires
            old(self).wf(),
        ensures
            final(self).wf(),
            final(self).bytes@ == old(self).bytes@,
            final(self).spec_char_map_of() == old(self).spec_char_map_of(),
            final(self).token_infos@.len() == old(self).token_infos@.len(),
            forall|j: int|
                0 <= j < old(self).token_infos@.len() ==> (#[trigger] final(self).token_infos@[j]).start == old(self).token_infos@[j].start && final(self).token_infos@[j].end == old(self).token_infos@[j].end && final(self).token_infos@[j].status == old(self).token_infos@[j].status && final(self).token_infos@[j].original_text == old(self).token_infos@[j].original_text,
            forall|j: int|
                0 <= j < old(self).token_infos@.len() && old(self).token_infos@[j].token_type
                    is Some ==> (#[trigger] final(self).token_infos@[j]).token_type is Some,
            forall|j: int|
                0 <= j < old(self).token_infos@.len() && spec_no_alias_match(
                    config.alias_regex@,
                    old(self).token_infos@[j].original_text@,
                ) ==> (#[trigger] final(self).token_infos@[j]).token_type == old(self).token_infos@[j].token_type,
    {
        let mut i: usize = 0;
        while i < self.token_infos.len()
            invariant
                self.wf(),
                self.bytes@ == old(self).bytes@,
                self.spec_char_map_of() == old(self).spec_char_map_of(),
                self.token_infos@.len() == old(self).token_infos@.len(),
                forall|j: int|
                    0 <= j < old(self).token_infos@.len() ==> (#[trigger] self.token_infos@[j]).start
                        == old(self).token_infos@[j].start && self.token_infos@[j].end == old(self).token_infos@[j].end && self.token_infos@[j].status == old(self).token_infos@[j].status && self.token_infos@[j].original_text == old(self).token_infos@[j].original_text,
                forall|j: int|
                    0 <= j < old(self).token_infos@.len() && old(self).token_infos@[j].token_type
                        is Some ==> (#[trigger] self.token_infos@[j]).token_type is Some,
                forall|j: int|
                    0 <= j < i && spec_no_alias_match(
                        config.alias_regex@,
                        old(self).token_infos@[j].original_text@,
                    ) ==> (#[trigger] self.token_infos@[j]).token_type == old(self).token_infos@[j].token_type,
                forall|j: int|
                    i <= j < old(self).token_infos@.len() ==> (#[trigger] self.token_infos@[j]).token_type == old(self).token_infos@[j].token_type,
            decreases self.token_infos@.len() - i,
        {
            let lowered = ascii_lower(&self.token_infos[i].original_text.as_str().as_bytes_vec());
            proof {
                assert(lowered@ == spec_ascii_lower(
                    vstd::utf8::encode_utf8(old(self).token_infos@[i as int].original_text@),
                ));
            }
            let ghost entry_infos = self.token_infos@;
            let ghost all_none = spec_no_alias_match(
                config.alias_regex@,
                old(self).token_infos@[i as int].original_text@,
            );
            let mut ai: usize = 0;
            let mut done: bool = false;
            while !done && ai < config.alias_regex.len()
                invariant
                    self.wf(),
                    i < self.token_infos@.len(),
                    self.bytes@ == old(self).bytes@,
                    self.spec_char_map_of() == old(self).spec_char_map_of(),
                    self.token_infos@.len() == old(self).token_infos@.len(),
                    lowered@ == spec_ascii_lower(
                        vstd::utf8::encode_utf8(
                            old(self).token_infos@[i as int].original_text@,
                        ),
                    ),
                    all_none == spec_no_alias_match(
                        config.alias_regex@,
                        old(self).token_infos@[i as int].original_text@,
                    ),
                    all_none ==> !done && self.token_infos@ == entry_infos,
                    entry_infos[i as int].token_type == old(self).token_infos@[i as int].token_type,
                    forall|j: int|
                        i < j < old(self).token_infos@.len() ==> (
                        #[trigger] self.token_infos@[j]).token_type == old(self).token_infos@[j].token_type,
                    forall|j: int|
                        0 <= j < old(self).token_infos@.len() ==> (
                        #[trigger] self.token_infos@[j]).start == old(self).token_infos@[j].start && self.token_infos@[j].end == old(self).token_infos@[j].end && self.token_infos@[j].status == old(self).token_infos@[j].status && self.token_infos@[j].original_text == old(self).token_infos@[j].original_text,
                    forall|j: int|
                        0 <= j < old(self).token_infos@.len() && old(self).token_infos@[j].token_type
                            is Some ==> (#[trigger] self.token_infos@[j]).token_type is Some,
                    forall|j: int|
                        0 <= j < i && spec_no_alias_match(
                            config.alias_regex@,
                            old(self).token_infos@[j].original_text@,
                        ) ==> (#[trigger] self.token_infos@[j]).token_type == old(self).token_infos@[j].token_type,
                decreases config.alias_regex@.len() - ai,
            {
                let alias = &config.alias_regex[ai];
                if alias.pattern.is_match(lowered.as_slice()) {
                    proof {
                        if all_none {
                            assert(crate::regexw::spec_captures_of(
                                config.alias_regex@[ai as int].pattern.spec_src(),
                                lowered@,
                                0,
                            ) is None);
                        }
                    }
                    let atoms = get_atom(config, &alias.replacement);
                    if atoms.len() == 1 {
                        let new_t = dup_token_type(&atoms[0]);
                        let tw = atom_wf_check(&new_t);
                        if tw {
                            self.replace_type(i, Some(new_t));
                        }
                        done = true;
                    } else if atoms.len() == 0 {
                        self.replace_type(
                            i,
                            Some(TokenType::Text(alias.replacement.clone())),
                        );
                        done = true;
                    }
                }
                ai = ai + 1;
            }
            i = i + 1;
        }
    }
}


/// Whether no alias pattern matches a token's text, lowered.
pub open spec fn spec_no_alias_match(
    aliases: Seq<crate::config::AliasDef>,
    text: Seq<char>,
) -> bool {
    forall|a: int|
        0 <= a < aliases.len() ==> crate::regexw::spec_captures_of(
            (#[trigger] aliases[a]).pattern.spec_src(),
            spec_ascii_lower(vstd::utf8::encode_utf8(text)),
            0,
        ) is None
}

/// Check at run time that a token's payload is well-formed.
pub fn atom_wf_check(t: &TokenType) -> (b: bool)
    ensures
        b == token_type_wf(*t),
{
    match t {
        TokenType::Number(q) => q.wf_check(),
        TokenType::Percent(q) => q.wf_check(),
        TokenType::Money(q, _) => q.wf_check(),
        TokenType::Time(c) => c.wf_check(),
        TokenType::Date(d) => d.wf_check(),
        TokenType::Duration(d, _, _) => d.wf_check(),
        _ => true,
    }
}

/// Re-tokenize an alias replacement through the atom category: the typed
/// tokens its text denotes.
pub fn get_atom(config: &Config, data: &String) -> (r: Vec<TokenType>)
    ensures
        forall|i: int| 0 <= i < r@.len() ==> token_type_wf(#[trigger] r@[i]),
{
    let mut out: Vec<TokenType> = Vec::new();
    let bytes = data.as_str().as_bytes_vec();
    let mut gi: usize = 0;
    while gi < config.token_parse_regex.len()
        invariant
            forall|k: int| 0 <= k < out@.len() ==> token_type_wf(#[trigger] out@[k]),
        decreases config.token_parse_regex@.len() - gi,
    {
        let group = &config.token_parse_regex[gi];
        if crate::regexw::str_eq_str(group.category.as_str(), "atom") {
            let mut pi: usize = 0;
            while pi < group.patterns.len()
                invariant
                    forall|k: int| 0 <= k < out@.len() ==> token_type_wf(#[trigger] out@[k]),
                decreases group.patterns@.len() - pi,
            {
                let pat = &group.patterns[pi];
                let mut from: usize = 0;
                let mut going: bool = true;
                while going && from <= bytes.len()
                    invariant
                        forall|k: int| 0 <= k < out@.len() ==> token_type_wf(#[trigger] out@[k]),
                    decreases bytes@.len() + 1 - from + (if going {
                        1int
                    } else {
                        0int
                    }),
                {
                    match pat.captures_from(bytes.as_slice(), from) {
                        None => {
                            going = false;
                        },
                        Some(m) => {
                            if m.start < m.end && m.start < bytes.len() {
                                let b = bytes[m.start];
                                if m.end == m.start + 1 && (b == 43 || b == 45 || b == 42 || b
                                    == 47 || b == 40 || b == 41 || b == 61 || b == 37) {
                                    let c: char = if b == 43 {
                                        '+'
                                    } else if b == 45 {
                                        '-'
                                    } else if b == 42 {
                                        '*'
                                    } else if b == 47 {
                                        '/'
                                    } else if b == 40 {
                                        '('
                                    } else if b == 41 {
                                        ')'
                                    } else if b == 61 {
                                        '='
                                    } else {
                                        '%'
                                    };
                                    out.push(TokenType::Operator(c));
                                } else {
                                    match pat.group_index("NUMBER") {
                                        Some(ni) => {
                                            if ni < m.groups.len() {
                                                match &m.groups[ni] {
                                                    Some(g) => {
                                                        match parse_number_bytes(&g.text) {
                                                            Some((n, d)) => {
                                                                out.push(
                                                                    TokenType::Number(Rat::new(n, d)),
                                                                );
                                                            },
                                                            None => (),
                                                        }
                                                    },
                                                    None => (),
                                                }
                                            }
                                        },
                                        None => (),
                                    }
                                }
                            }
                            if m.end > from {
                                from = m.end;
                            } else if from < usize::MAX {
                                from = from + 1;
                            } else {
                                going = false;
                            }
                        },
                    }
                }
                pi = pi + 1;
            }
        }
        gi = gi + 1;
    }
    out
}

/// Tokenize one line and resolve its aliases: the located tokens the rest
/// of the pipeline consumes.
pub fn token_infos(data: &str, config: &Config) -> (r: Vec<TokenInfo>)
    ensures
        infos_wf(r@),
        forall|i: int| 0 <= i < r@.len() ==> (#[trigger] r@[i]).token_type is Some,
{
    let mut t = Tokinizer::new(data);
    t.tokinize_with_regex(config);
    proof {
        assert(forall|i: int|
            0 <= i < t.token_infos@.len() ==> (#[trigger] t.token_infos@[i]).token_type is Some);
    }
    t.apply_aliases(config);
    t.token_infos
}


/// The words of the active text tokens in `[k, hi]`, joined by single
/// spaces onto `acc`; `firstw` says no word has been taken yet.
pub open spec fn spec_join(
    s: Seq<TokenInfo>,
    k: int,
    hi: int,
    acc: Seq<char>,
    firstw: bool,
) -> Seq<char>
    decreases hi + 1 - k,
    when k <= hi + 1
{
    if k > hi || k >= s.len() {
        acc
    } else {
        let t = s[k];
        if t.is_active() && (t.token_type matches Some(TokenType::Text(_))) {
            let w = match t.token_type {
                Some(TokenType::Text(w)) => w@,
                _ => Seq::empty(),
            };
            if firstw {
                spec_join(s, k + 1, hi, w, false)
            } else {
                spec_join(s, k + 1, hi, acc + seq![' '] + w, false)
            }
        } else {
            spec_join(s, k + 1, hi, acc, firstw)
        }
    }
}

/// The name a token run spells: its active words joined by single spaces.
pub open spec fn spec_joined(s: Seq<TokenInfo>, lo: int, hi: int) -> Seq<char> {
    spec_join(s, lo, hi, Seq::empty(), true)
}

/// The variable a name denotes, by the first table entry carrying it.
pub open spec fn spec_var_index(
    vars: Seq<crate::executer::VariableInfo>,
    name: Seq<char>,
) -> Option<int>
    decreases vars.len(),
{
    if vars.len() == 0 {
        None
    } else if vars[0].name@ == name {
        Some(0)
    } else {
        match spec_var_index(vars.drop_first(), name) {
            Some(i) => Some(i + 1),
            None => None,
        }
    }
}

/// Find a variable by name.
pub fn find_variable(storage: &crate::executer::Storage, name: &String) -> (r: Option<usize>)
    ensures
        r matches Some(i) ==> i < storage.variables@.len(),
        match r {
            Some(i) => spec_var_index(storage.variables@, name@) == Some(i as int),
            None => spec_var_index(storage.variables@, name@) is None,
        },
{
    let mut i: usize = 0;
    proof {
        assert(storage.variables@.skip(0) =~= storage.variables@);
    }
    while i < storage.variables.len()
        invariant
            i <= storage.variables@.len(),
            forall|k: int| 0 <= k < i ==> (#[trigger] storage.variables@[k]).name@ != name@,
        decreases storage.variables@.len() - i,
    {
        if storage.variables[i].name.eq(name) {
            proof {
                lemma_var_index_found(storage.variables@, name@, i as int);
            }
            return Some(i);
        }
        i = i + 1;
    }
    proof {
        lemma_var_index_none(storage.variables@, name@);
    }
    None
}

/// A found first name position agrees with `spec_var_index`.
proof fn lemma_var_index_found(vars: Seq<crate::executer::VariableInfo>, name: Seq<char>, i: int)
    requires
        0 <= i < vars.len(),
        vars[i].name@ == name,
        forall|k: int| 0 <= k < i ==> (#[trigger] vars[k]).name@ != name,
    ensures
        spec_var_index(vars, name) == Some(i),
    decreases i,
{
    if i == 0 {
    } else {
        assert(forall|k: int|
            0 <= k < i - 1 ==> (#[trigger] vars.drop_first()[k]) == vars[k + 1]);
        lemma_var_index_found(vars.drop_first(), name, i - 1);
    }
}

/// No table entry carries the name.
proof fn lemma_var_index_none(vars: Seq<crate::executer::VariableInfo>, name: Seq<char>)
    requires
        forall|k: int| 0 <= k < vars.len() ==> (#[trigger] vars[k]).name@ != name,
    ensures
        spec_var_index(vars, name) is None,
    decreases vars.len(),
{
    if vars.len() > 0 {
        assert(forall|k: int|
            0 <= k < vars.drop_first().len() ==> (#[trigger] vars.drop_first()[k]) == vars[k
                + 1]);
        lemma_var_index_none(vars.drop_first(), name);
    }
}


/// Find a variable by name, appending a fresh empty one when it is new.
pub fn find_or_create_variable(storage: &mut crate::executer::Storage, name: String) -> (idx:
    usize)
    requires
        crate::compiler::storage_wf(*old(storage)),
    ensures
        crate::compiler::storage_wf(*final(storage)),
        idx < final(storage).variables@.len(),
        final(storage).asts@ == old(storage).asts@,
        old(storage).variables@.len() <= final(storage).variables@.len(),
        forall|j: int|
            0 <= j < old(storage).variables@.len() ==> final(storage).variables@[j] == old(
                storage,
            ).variables@[j],
{
    match find_variable(storage, &name) {
        Some(i) => i,
        None => {
            let idx = storage.variables.len();
            storage.variables.push(
                crate::executer::VariableInfo { name, data: crate::types::AstType::Empty },
            );
            idx
        },
    }
}

impl Tokinizer {
    /// Whether the token at a position is an active word.
    fn is_active_text(&self, k: usize) -> (r: bool)
        requires
            k < self.token_infos@.len(),
        ensures
            r ==> self.token_infos@[k as int].is_active(),
    {
        let is_active = match self.token_infos[k].status {
            TokenInfoStatus::Active => true,
            TokenInfoStatus::Removed => false,
        };
        is_active && match &self.token_infos[k].token_type {
            Some(TokenType::Text(_)) => true,
            _ => false,
        }
    }

    /// The position of the first active assignment operator.
    fn find_eq_active(&self) -> (r: Option<usize>)
        ensures
            r matches Some(i) ==> i < self.token_infos@.len(),
    {
        let mut k: usize = 0;
        while k < self.token_infos.len()
            decreases self.token_infos@.len() - k,
        {
            let is_active = match self.token_infos[k].status {
                TokenInfoStatus::Active => true,
                TokenInfoStatus::Removed => false,
            };
            if is_active {
                match &self.token_infos[k].token_type {
                    Some(TokenType::Operator(c)) => {
                        if *c == '=' {
                            return Some(k);
                        }
                    },
                    _ => (),
                }
            }
            k = k + 1;
        }
        None
    }

    /// The words of the active text tokens in `[lo, hi]`, joined by single
    /// spaces.
    fn join_texts(&self, lo: usize, hi: usize) -> (r: String)
        requires
            lo <= hi,
            hi < self.token_infos@.len(),
        ensures
            r@ == spec_joined(self.token_infos@, lo as int, hi as int),
    {
        let mut name = String::new();
        let mut firstw: bool = true;
        let mut k: usize = lo;
        proof {
            assert(name@ =~= Seq::<char>::empty());
        }
        while k <= hi
            invariant
                hi < self.token_infos@.len(),
                lo <= k <= hi + 1,
                firstw ==> name@ == Seq::<char>::empty(),
                spec_join(self.token_infos@, k as int, hi as int, name@, firstw) == spec_joined(
                    self.token_infos@,
                    lo as int,
                    hi as int,
                ),
            decreases hi + 1 - k,
        {
            let is_active = match self.token_infos[k].status {
                TokenInfoStatus::Active => true,
                TokenInfoStatus::Removed => false,
            };
            if is_active {
                match &self.token_infos[k].token_type {
                    Some(TokenType::Text(w)) => {
                        proof {
                            reveal_strlit(" ");
                            assert(" "@ =~= seq![' ']);
                        }
                        if !firstw {
                            name.append(" ");
                        }
                        name.append(w.as_str());
                        firstw = false;
                    },
                    _ => (),
                }
            }
            proof {
                assert(spec_join(self.token_infos@, k as int + 1, hi as int, name@, firstw)
                    == spec_joined(self.token_infos@, lo as int, hi as int));
            }
            if k == hi {
                return name;
            }
            k = k + 1;
        }
        name
    }

    /// Whether the tokens of `[lo, hi]` name a known variable; when they do,
    /// the run becomes one variable token.
    fn try_bind(&mut self, storage: &crate::executer::Storage, lo: usize, hi: usize) -> (bound:
        bool)
        requires
            old(self).wf(),
            lo <= hi,
            hi < old(self).token_infos@.len(),
            old(self).token_infos@[lo as int].is_active(),
            old(self).token_infos@[hi as int].is_active(),
        ensures
            final(self).wf(),
            final(self).bytes@ == old(self).bytes@,
            final(self).spec_char_map_of() == old(self).spec_char_map_of(),
            !bound ==> final(self).token_infos@ == old(self).token_infos@,
            bound && lo == hi ==> final(self).token_infos@.len() == old(self).token_infos@.len()
                && act_cnt(final(self).token_infos@) == act_cnt(old(self).token_infos@),
            bound && lo < hi ==> final(self).token_infos@.len() == old(self).token_infos@.len()
                + 1 && act_cnt(final(self).token_infos@) < act_cnt(old(self).token_infos@),
            ({
                let name = spec_joined(old(self).token_infos@, lo as int, hi as int);
                match spec_var_index(storage.variables@, name) {
                    Some(idx) => bound && (if lo == hi {
                        final(self).token_infos@ == old(self).token_infos@.update(
                            lo as int,
                            TokenInfo {
                                token_type: Some(TokenType::Variable(idx as usize)),
                                ..old(self).token_infos@[lo as int]
                            },
                        )
                    } else {
                        exists|txt: String|
                            (#[trigger] txt@) == Seq::<char>::empty() && final(self).token_infos@
                                == spec_fired(
                                old(self).token_infos@,
                                lo as int,
                                hi as int,
                                TokenType::Variable(idx as usize),
                                txt,
                            )
                    }),
                    None => !bound,
                }
            }),
    {
        let name = self.join_texts(lo, hi);
        match find_variable(storage, &name) {
            Some(idx) => {
                if lo == hi {
                    self.replace_type(lo, Some(TokenType::Variable(idx)));
                    proof {
                        lemma_act_cnt_same_status(old(self).token_infos@, self.token_infos@);
                    }
                } else {
                    let txt = String::new();
                    let ghost gtxt = txt;
                    self.fire(lo, hi, TokenType::Variable(idx), txt);
                    proof {
                        assert(gtxt@ =~= Seq::<char>::empty());
                        assert(self.token_infos@ == spec_fired(
                            old(self).token_infos@,
                            lo as int,
                            hi as int,
                            TokenType::Variable(idx),
                            gtxt,
                        ));
                    }
                }
                true
            },
            None => false,
        }
    }

    /// Bind variables: the words before an assignment operator name the
    /// variable being defined (created when new); after it — or everywhere
    /// on a line without one — word runs that name a known variable become
    /// references to it.
    pub fn update_for_variable(&mut self, storage: &mut crate::executer::Storage)
        requires
            old(self).wf(),
            crate::compiler::storage_wf(*old(storage)),
        ensures
            final(self).wf(),
            final(self).bytes@ == old(self).bytes@,
            final(self).spec_char_map_of() == old(self).spec_char_map_of(),
            crate::compiler::storage_wf(*final(storage)),
            final(storage).asts@ == old(storage).asts@,
            old(storage).variables@.len() <= final(storage).variables@.len(),
            forall|j: int|
                0 <= j < old(storage).variables@.len() ==> final(storage).variables@[j] == old(
                    storage,
                ).variables@[j],
    {
        // definition: the words before the first assignment operator
        match self.find_eq_active() {
            Some(eq_pos) => {
                if eq_pos >= 1 {
                    let mut all_text: bool = true;
                    let mut fa: usize = 0;
                    let mut la: usize = 0;
                    let mut any: bool = false;
                    let mut k: usize = 0;
                    while k < eq_pos
                        invariant
                            *self == *old(self),
                            self.wf(),
                            eq_pos < self.token_infos@.len(),
                            any ==> fa <= la < eq_pos && la < k
                                && self.token_infos@[fa as int].is_active()
                                && self.token_infos@[la as int].is_active(),
                        decreases eq_pos - k,
                    {
                        let is_active = match self.token_infos[k].status {
                            TokenInfoStatus::Active => true,
                            TokenInfoStatus::Removed => false,
                        };
                        if is_active {
                            let is_text = match &self.token_infos[k].token_type {
                                Some(TokenType::Text(_)) => true,
                                _ => false,
                            };
                            if is_text {
                                proof {
                                    assert(self.token_infos@[k as int].is_active());
                                }
                                if !any {
                                    fa = k;
                                }
                                la = k;
                                any = true;
                            } else {
                                all_text = false;
                            }
                        }
                        k = k + 1;
                    }
                    if all_text && any {
                        let name = self.join_texts(fa, la);
                        let idx = find_or_create_variable(storage, name);
                        if fa == la {
                            self.replace_type(fa, Some(TokenType::Variable(idx)));
                        } else {
                            self.fire(fa, la, TokenType::Variable(idx), String::new());
                        }
                    }
                }
            },
            None => (),
        }
        // references: word runs that name a known variable
        let nn: usize = self.token_infos.len();
        let start: usize = match self.find_eq_active() {
            Some(p) => if p < nn {
                p + 1
            } else {
                nn
            },
            None => 0,
        };
        let mut i: usize = start;
        proof {
            lemma_act_cnt_bounds(self.token_infos@);
        }
        while i < self.token_infos.len()
            invariant
                self.wf(),
                self.bytes@ == old(self).bytes@,
                self.spec_char_map_of() == old(self).spec_char_map_of(),
                0 <= act_cnt(self.token_infos@),
                crate::compiler::storage_wf(*storage),
            decreases self.token_infos@.len() - i + act_cnt(self.token_infos@),
        {
            let is_active = match self.token_infos[i].status {
                TokenInfoStatus::Active => true,
                TokenInfoStatus::Removed => false,
            };
            let is_text = is_active && match &self.token_infos[i].token_type {
                Some(TokenType::Text(_)) => true,
                _ => false,
            };
            if is_text {
                // the run of consecutive active words
                let n2: usize = self.token_infos.len();
                proof {
                    assert(self.token_infos@[i as int].is_active());
                }
                let mut run_end: usize = i;
                while run_end + 1 < n2 && self.is_active_text(run_end + 1)
                    invariant
                        self.wf(),
                        n2 == self.token_infos@.len(),
                        i <= run_end < self.token_infos@.len(),
                        forall|k: int|
                            i <= k <= run_end ==> (#[trigger] self.token_infos@[k]).is_active(),
                    decreases self.token_infos@.len() - run_end,
                {
                    run_end = run_end + 1;
                }
                let ghost pre = self.token_infos@;
                let mut j: usize = run_end;
                let mut matched: bool = self.try_bind(storage, i, j);
                while !matched && j > i
                    invariant
                        self.wf(),
                        self.bytes@ == old(self).bytes@,
                        self.spec_char_map_of() == old(self).spec_char_map_of(),
                        i <= j,
                        !matched ==> j < self.token_infos@.len(),
                        !matched ==> self.token_infos@ == pre,
                        !matched ==> forall|k: int|
                            i <= k <= j ==> (#[trigger] self.token_infos@[k]).is_active(),
                        matched ==> ((self.token_infos@.len() == pre.len() && act_cnt(
                            self.token_infos@,
                        ) == act_cnt(pre)) || (self.token_infos@.len() == pre.len() + 1
                            && act_cnt(self.token_infos@) < act_cnt(pre))),
                    decreases j - i,
                {
                    j = j - 1;
                    matched = self.try_bind(storage, i, j);
                }
            }
            i = i + 1;
            proof {
                lemma_act_cnt_bounds(self.token_infos@);
            }
        }
    }
}

/// Two streams with pointwise equal statuses count the same active tokens.
proof fn lemma_act_cnt_same_status(a: Seq<TokenInfo>, b: Seq<TokenInfo>)
    requires
        a.len() == b.len(),
        forall|i: int| 0 <= i < a.len() ==> (#[trigger] a[i]).status == (#[trigger] b[i]).status,
    ensures
        act_cnt(a) == act_cnt(b),
    decreases a.len(),
{
    if a.len() > 0 {
        lemma_act_cnt_same_status(a.drop_last(), b.drop_last());
    }
}

} // verus!
