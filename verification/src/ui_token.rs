//! Categorized spans for syntax highlighting.
//!
//! The collection keeps its tokens sorted by start and pairwise
//! non-overlapping, and addresses character (not byte) positions through a
//! byte-to-character map of the line.

use vstd::prelude::*;
use vstd::string::StringSliceAdditionalSpecFns;

verus! {

/// The highlight category of a span.
#[derive(Debug, Clone, Copy, PartialEq, Eq, Structural)]
pub enum UiTokenType {
    Text,
    Number,
    Money,
    MoneySymbol,
    PercentageSymbol,
    Time,
    Operator,
    Comment,
    VariableDefination,
    VariableUse,
}

/// A categorized span, in character positions.
#[derive(Debug, Clone, Copy, PartialEq, Eq, Structural)]
pub struct UiToken {
    pub start: usize,
    pub end: usize,
    pub ui_type: UiTokenType,
}

/// Spans are ordered, sorted by start and pairwise non-overlapping.
pub open spec fn ui_tokens_wf(s: Seq<UiToken>) -> bool {
    &&& forall|i: int| 0 <= i < s.len() ==> #[trigger] s[i].start <= s[i].end
    &&& forall|i: int, j: int| 0 <= i < j < s.len() ==> #[trigger] s[i].end <= #[trigger] s[j].start
}


/// The character position a byte position of the map translates to.
pub open spec fn spec_position(m: Seq<usize>, index: int) -> int {
    if m.len() == 0 {
        index
    } else if index < m.len() {
        m[index] as int
    } else {
        m[m.len() - 1] as int
    }
}

/// The first span that begins at a position.
pub open spec fn spec_first_with_start(s: Seq<UiToken>, us: int) -> Option<int>
    decreases s.len(),
{
    if s.len() == 0 {
        None
    } else if s[0].start == us {
        Some(0)
    } else {
        match spec_first_with_start(s.drop_first(), us) {
            Some(i) => Some(i + 1),
            None => None,
        }
    }
}

/// The first span that ends at a position.
pub open spec fn spec_first_with_end(s: Seq<UiToken>, ue: int) -> Option<int>
    decreases s.len(),
{
    if s.len() == 0 {
        None
    } else if s[0].end == ue {
        Some(0)
    } else {
        match spec_first_with_end(s.drop_first(), ue) {
            Some(i) => Some(i + 1),
            None => None,
        }
    }
}

/// What `update_tokens` owes: when a span begins at the start position, a
/// span ends at the end position, and the two are ordered, the run between
/// them becomes one span of the new category; otherwise nothing changes.
pub open spec fn spec_updated(
    s: Seq<UiToken>,
    us: int,
    ue: int,
    new_type: UiTokenType,
) -> Seq<UiToken> {
    match (spec_first_with_start(s, us), spec_first_with_end(s, ue)) {
        (Some(i), Some(j)) => if i <= j {
            s.subrange(0, i) + seq![
                UiToken { start: us as usize, end: ue as usize, ui_type: new_type },
            ] + s.subrange(j + 1, s.len() as int)
        } else {
            s
        },
        _ => s,
    }
}

/// A found first-start position agrees with `spec_first_with_start`.
proof fn lemma_first_start(s: Seq<UiToken>, us: int, i: int)
    requires
        0 <= i < s.len(),
        s[i].start == us,
        forall|k: int| 0 <= k < i ==> (#[trigger] s[k]).start != us,
    ensures
        spec_first_with_start(s, us) == Some(i),
    decreases i,
{
    if i == 0 {
    } else {
        assert(forall|k: int|
            0 <= k < i - 1 ==> (#[trigger] s.drop_first()[k]) == s[k + 1]);
        lemma_first_start(s.drop_first(), us, i - 1);
    }
}

/// No span starts at the position.
proof fn lemma_first_start_none(s: Seq<UiToken>, us: int)
    requires
        forall|k: int| 0 <= k < s.len() ==> (#[trigger] s[k]).start != us,
    ensures
        spec_first_with_start(s, us) is None,
    decreases s.len(),
{
    if s.len() > 0 {
        assert(forall|k: int|
            0 <= k < s.drop_first().len() ==> (#[trigger] s.drop_first()[k]) == s[k + 1]);
        lemma_first_start_none(s.drop_first(), us);
    }
}

/// A found first-end position agrees with `spec_first_with_end`.
proof fn lemma_first_end(s: Seq<UiToken>, ue: int, j: int)
    requires
        0 <= j < s.len(),
        s[j].end == ue,
        forall|k: int| 0 <= k < j ==> (#[trigger] s[k]).end != ue,
    ensures
        spec_first_with_end(s, ue) == Some(j),
    decreases j,
{
    if j == 0 {
    } else {
        assert(forall|k: int|
            0 <= k < j - 1 ==> (#[trigger] s.drop_first()[k]) == s[k + 1]);
        lemma_first_end(s.drop_first(), ue, j - 1);
    }
}

/// No span ends at the position.
proof fn lemma_first_end_none(s: Seq<UiToken>, ue: int)
    requires
        forall|k: int| 0 <= k < s.len() ==> (#[trigger] s[k]).end != ue,
    ensures
        spec_first_with_end(s, ue) is None,
    decreases s.len(),
{
    if s.len() > 0 {
        assert(forall|k: int|
            0 <= k < s.drop_first().len() ==> (#[trigger] s.drop_first()[k]) == s[k + 1]);
        lemma_first_end_none(s.drop_first(), ue);
    }
}

/// The sorted, non-overlapping highlight spans of one line, with the line's
/// byte-to-character map.
pub struct UiTokenCollection {
    tokens: Vec<UiToken>,
    char_sizes: Vec<usize>,
}

impl UiTokenCollection {
    /// The spans.
    pub closed spec fn spec_tokens(self) -> Seq<UiToken> {
        self.tokens@
    }

    /// The byte-to-character map: entry `i` counts the characters that start
    /// strictly before byte `i`.
    pub closed spec fn spec_char_map(self) -> Seq<usize> {
        self.char_sizes@
    }

    /// Spans sorted and non-overlapping; the map non-decreasing.
    pub open spec fn wf(self) -> bool {
        &&& ui_tokens_wf(self.spec_tokens())
        &&& forall|i: int, j: int|
            0 <= i <= j < self.spec_char_map().len() ==> #[trigger] self.spec_char_map()[i]
                <= #[trigger] self.spec_char_map()[j]
    }

    /// An empty collection with an empty character map.
    pub fn new() -> (c: UiTokenCollection)
        ensures
            c.wf(),
            c.spec_tokens().len() == 0,
            c.spec_char_map().len() == 0,
    {
        UiTokenCollection { tokens: Vec::new(), char_sizes: Vec::new() }
    }

    /// How many spans the collection holds.
    pub fn len(&self) -> (n: usize)
        ensures
            n == self.spec_tokens().len(),
    {
        self.tokens.len()
    }

    /// The spans, sorted by start.
    pub fn iter(&self) -> (r: &Vec<UiToken>)
        ensures
            r@ == self.spec_tokens(),
    {
        &self.tokens
    }

    /// Whether a byte begins a character in UTF-8: continuation bytes lie in
    /// [128, 192).
    pub open spec fn spec_is_char_start(b: u8) -> bool {
        b < 128 || b >= 192
    }

    /// Walk the line once and record, for every byte position, how many
    /// characters start strictly before it. A byte below 128 or at 192 and
    /// above starts a character in UTF-8.
    pub fn generate_char_map(&mut self, data: &str)
        requires
            old(self).wf(),
        ensures
            final(self).wf(),
            final(self).spec_tokens() == old(self).spec_tokens(),
            final(self).spec_char_map().len() == data.spec_bytes().len() + 1,
            final(self).spec_char_map()[0] == 0,
            forall|i: int|
                0 <= i < data.spec_bytes().len() ==> (#[trigger] final(self).spec_char_map()[i
                    + 1]) as int == final(self).spec_char_map()[i] as int + (
                if Self::spec_is_char_start(data.spec_bytes()[i]) {
                    1int
                } else {
                    0int
                }),
    {
        let bytes: Vec<u8> = data.as_bytes_vec();
        self.char_sizes = Vec::new();
        let mut count: usize = 0;
        self.char_sizes.push(0);
        let mut i: usize = 0;
        while i < bytes.len()
            invariant
                self.tokens@ == old(self).spec_tokens(),
                ui_tokens_wf(self.tokens@),
                bytes@ == data.spec_bytes(),
                self.char_sizes@.len() == i + 1,
                i <= bytes@.len(),
                count <= i,
                self.char_sizes@[i as int] == count,
                self.char_sizes@[0] == 0,
                forall|a: int|
                    0 <= a < i ==> (#[trigger] self.char_sizes@[a + 1]) as int
                        == self.char_sizes@[a] as int + (if Self::spec_is_char_start(bytes@[a]) {
                        1int
                    } else {
                        0int
                    }),
                forall|a: int, b: int|
                    0 <= a <= b < self.char_sizes@.len() ==> #[trigger] self.char_sizes@[a]
                        <= #[trigger] self.char_sizes@[b],
            decreases bytes@.len() - i,
        {
            let b = bytes[i];
            if b < 128 || b >= 192 {
                count = count + 1;
            }
            self.char_sizes.push(count);
            i = i + 1;
        }
    }

    /// The character position of a byte position; positions beyond the map
    /// clamp to its last entry, an empty map answers the position itself.
    pub fn get_position(&self, index: usize) -> (p: usize)
        ensures
            self.spec_char_map().len() == 0 ==> p == index,
            self.spec_char_map().len() > 0 && index < self.spec_char_map().len() ==> p
                == self.spec_char_map()[index as int],
            self.spec_char_map().len() > 0 && index >= self.spec_char_map().len() ==> p
                == self.spec_char_map()[self.spec_char_map().len() - 1],
    {
        if self.char_sizes.len() == 0 {
            index
        } else if index < self.char_sizes.len() {
            self.char_sizes[index]
        } else {
            self.char_sizes[self.char_sizes.len() - 1]
        }
    }

    /// True when the span `[start, end)` touches no recorded span. The test
    /// refuses every overlap, containment included: a covers-either-endpoint
    /// test alone would let a span swallow a recorded one whole and break
    /// the non-overlap invariant the collection keeps.
    pub fn check_collision(&self, start_position: usize, end_position: usize) -> (free: bool)
        ensures
            free == forall|k: int|
                0 <= k < self.spec_tokens().len() ==> (end_position <= #[trigger] self.spec_tokens()[k].start
                    || self.spec_tokens()[k].end <= start_position),
    {
        let mut i: usize = 0;
        while i < self.tokens.len()
            invariant
                i <= self.tokens@.len(),
                forall|k: int|
                    0 <= k < i ==> (end_position <= #[trigger] self.tokens@[k].start
                        || self.tokens@[k].end <= start_position),
            decreases self.tokens@.len() - i,
        {
            let item = &self.tokens[i];
            if !(end_position <= item.start || item.end <= start_position) {
                return false;
            }
            i = i + 1;
        }
        true
    }

    /// Record a span unless it would overlap one already recorded; the new
    /// span goes to its place in the start order.
    pub fn add(&mut self, start: usize, end: usize, ui_type: UiTokenType)
        requires
            old(self).wf(),
        ensures
            final(self).wf(),
            final(self).spec_char_map() == old(self).spec_char_map(),
            if start <= end && (forall|k: int|
                0 <= k < old(self).spec_tokens().len() ==> (end
                    <= #[trigger] old(self).spec_tokens()[k].start || old(
                    self,
                ).spec_tokens()[k].end <= start)) {
                exists|i: int|
                    0 <= i <= old(self).spec_tokens().len() && final(self).spec_tokens() == old(
                        self,
                    ).spec_tokens().insert(i, UiToken { start, end, ui_type })
            } else {
                final(self).spec_tokens() == old(self).spec_tokens()
            },
    {
        if start > end {
            return ;
        }
        if !self.check_collision(start, end) {
            return ;
        }
        let mut i: usize = 0;
        while i < self.tokens.len() && self.tokens[i].end <= start
            invariant
                i <= self.tokens@.len(),
                forall|k: int| 0 <= k < i ==> #[trigger] self.tokens@[k].end <= start,
            decreases self.tokens@.len() - i,
        {
            i = i + 1;
        }
        proof {
            let s = self.tokens@;
            assert forall|j: int| i <= j < s.len() implies end <= #[trigger] s[j].start by {
                assert(end <= s[i as int].start || s[i as int].end <= start);
                if i < j {
                    assert(s[i as int].end <= s[j].start);
                }
            }
        }
        let ghost olds = self.tokens@;
        self.tokens.insert(i, UiToken { start, end, ui_type });
        proof {
            let news = self.tokens@;
            assert(news == olds.insert(i as int, UiToken { start, end, ui_type }));
            assert forall|a: int| 0 <= a < news.len() implies #[trigger] news[a].start
                <= news[a].end by {
                if a < i {
                    assert(news[a] == olds[a]);
                } else if a > i {
                    assert(news[a] == olds[a - 1]);
                }
            }
            assert forall|a: int, b: int| 0 <= a < b < news.len() implies #[trigger] news[a].end
                <= #[trigger] news[b].start by {
                if a < i && b == i {
                } else if a == i && b > i {
                } else if a < i && b > i {
                    assert(news[a] == olds[a] && news[b] == olds[b - 1]);
                    assert(olds[a].end <= start);
                    assert(end <= olds[b - 1].start);
                    assert(start <= end);
                } else if b < i {
                    assert(news[a] == olds[a] && news[b] == olds[b]);
                } else {
                    assert(news[a] == olds[a - 1] && news[b] == olds[b - 1]);
                }
            }
            assert forall|a: int, b: int|
                0 <= a <= b < self.char_sizes@.len() implies #[trigger] self.char_sizes@[a]
                <= #[trigger] self.char_sizes@[b] by {
                assert(old(self).spec_char_map()[a] <= old(self).spec_char_map()[b]);
            }
        }
    }

    /// Record the span of a regular-expression match, given in byte
    /// positions, translated to character positions; empty captures are
    /// ignored.
    pub fn add_from_regex_match(&mut self, capture: Option<(usize, usize)>, token_type: UiTokenType)
        requires
            old(self).wf(),
        ensures
            final(self).wf(),
            final(self).spec_char_map() == old(self).spec_char_map(),
    {
        match capture {
            Some((s, e)) => {
                if s < e {
                    let cs = self.get_position(s);
                    let ce = self.get_position(e);
                    if cs <= ce {
                        self.add(cs, ce, token_type);
                    }
                }
            },
            None => (),
        }
    }

    /// Replace the run of spans that begins exactly at the character
    /// position of `position_start` and ends exactly at the character
    /// position of `position_end` (both given in byte positions) with one
    /// span of the new category. Without such a run the collection is
    /// unchanged.
    #[verifier::rlimit(100)]
    #[verifier::spinoff_prover]
    pub fn update_tokens(&mut self, position_start: usize, position_end: usize, new_type: UiTokenType)
        requires
            old(self).wf(),
        ensures
            final(self).wf(),
            final(self).spec_char_map() == old(self).spec_char_map(),
            final(self).spec_tokens() == spec_updated(
                old(self).spec_tokens(),
                spec_position(old(self).spec_char_map(), position_start as int),
                spec_position(old(self).spec_char_map(), position_end as int),
                new_type,
            ),
    {
        let us = self.get_position(position_start);
        let ue = self.get_position(position_end);
        let mut start_index: usize = 0;
        let mut found_start: bool = false;
        let mut k: usize = 0;
        while k < self.tokens.len()
            invariant
                *self == *old(self),
                k <= self.tokens@.len(),
                found_start ==> start_index < k && self.tokens@[start_index as int].start == us
                    && forall|q: int|
                    0 <= q < start_index ==> (#[trigger] self.tokens@[q]).start != us,
                !found_start ==> forall|q: int|
                    0 <= q < k ==> (#[trigger] self.tokens@[q]).start != us,
            decreases self.tokens@.len() - k,
        {
            if !found_start && self.tokens[k].start == us {
                start_index = k;
                found_start = true;
            }
            k = k + 1;
        }
        if !found_start {
            proof {
                lemma_first_start_none(self.tokens@, us as int);
            }
            return ;
        }
        proof {
            lemma_first_start(self.tokens@, us as int, start_index as int);
        }
        let mut end_index: usize = 0;
        let mut found_end: bool = false;
        let mut k2: usize = 0;
        while k2 < self.tokens.len()
            invariant
                *self == *old(self),
                k2 <= self.tokens@.len(),
                found_end ==> end_index < k2 && self.tokens@[end_index as int].end == ue
                    && forall|q: int|
                    0 <= q < end_index ==> (#[trigger] self.tokens@[q]).end != ue,
                !found_end ==> forall|q: int|
                    0 <= q < k2 ==> (#[trigger] self.tokens@[q]).end != ue,
            decreases self.tokens@.len() - k2,
        {
            if !found_end && self.tokens[k2].end == ue {
                end_index = k2;
                found_end = true;
            }
            k2 = k2 + 1;
        }
        if !found_end {
            proof {
                lemma_first_end_none(self.tokens@, ue as int);
            }
            return ;
        }
        proof {
            lemma_first_end(self.tokens@, ue as int, end_index as int);
        }
        if end_index < start_index {
            return ;
        }
        // remove the run and put one merged span in its place
        let mut removed: usize = 0;
        let total: usize = end_index - start_index + 1;
        while removed < total
            invariant
                old(self).wf(),
                removed <= total,
                total <= old(self).spec_tokens().len() - start_index,
                start_index + (total - removed) <= self.tokens@.len(),
                self.tokens@ == old(self).spec_tokens().subrange(
                    0,
                    start_index as int,
                ) + old(self).spec_tokens().subrange(
                    start_index + removed,
                    old(self).spec_tokens().len() as int,
                ),
                self.char_sizes@ == old(self).spec_char_map(),
            decreases total - removed,
        {
            proof {
                assert(self.tokens@.len() > start_index);
            }
            self.tokens.remove(start_index);
            removed = removed + 1;
            proof {
                assert(self.tokens@ =~= old(self).spec_tokens().subrange(0, start_index as int)
                    + old(self).spec_tokens().subrange(
                    start_index + removed,
                    old(self).spec_tokens().len() as int,
                ));
            }
        }
        proof {
            let olds = old(self).spec_tokens();
            assert(us <= ue) by {
                assert(olds[start_index as int].start <= olds[start_index as int].end);
                if start_index < end_index {
                    assert(olds[start_index as int].end <= olds[end_index as int].start);
                    assert(olds[end_index as int].start <= olds[end_index as int].end);
                }
            }
            assert(forall|j: int|
                0 <= j < start_index ==> #[trigger] olds[j].end <= us) by {
                assert forall|j: int| 0 <= j < start_index implies #[trigger] olds[j].end <= us by {
                    assert(olds[j].end <= olds[start_index as int].start);
                }
            }
            assert(forall|j: int|
                end_index < j < olds.len() ==> ue <= #[trigger] olds[j].start) by {
                assert forall|j: int|
                    end_index < j < olds.len() implies ue <= #[trigger] olds[j].start by {
                    assert(olds[end_index as int].end <= olds[j].start);
                }
            }
        }
        self.tokens.insert(start_index, UiToken { start: us, end: ue, ui_type: new_type });
        proof {
            assert(self.tokens@ =~= spec_updated(
                old(self).spec_tokens(),
                us as int,
                ue as int,
                new_type,
            ));
        }
    }
}

} // verus!
