//! Score, level, highest combo and highscore of a game.

use vstd::prelude::*;

use crate::errors::Error;
use crate::rendering::decimal_repr;

verus! {

/// What a scoring holds.
pub struct ScoringState {
    pub level: u32,
    pub score: u32,
    pub max_combo: u32,
    pub highscore: u32,
    pub accumulated_points: u32,
    pub cascade_count: u8,
}

/// Score, level, highest combo and highscore, with the points gathered by the
/// current cascade of matches.
pub struct Scoring {
    level: u32,
    score: u32,
    max_combo: u32,
    highscore: u32,
    accumulated_points: u32,
    cascade_count: u8,
}

impl View for Scoring {
    type V = ScoringState;

    closed spec fn view(&self) -> ScoringState {
        ScoringState {
            level: self.level,
            score: self.score,
            max_combo: self.max_combo,
            highscore: self.highscore,
            accumulated_points: self.accumulated_points,
            cascade_count: self.cascade_count,
        }
    }
}

/// `a + b`, held at `u32::MAX`.
pub open spec fn saturating_sum(a: u32, b: u32) -> u32 {
    if a + b > u32::MAX {
        u32::MAX
    } else {
        (a + b) as u32
    }
}

/// `a * b`, held at `u32::MAX`.
pub open spec fn saturating_times(a: u32, b: u32) -> u32 {
    if a * b > u32::MAX {
        u32::MAX
    } else {
        (a * b) as u32
    }
}

/// The multiplier of the `n`-th match of a cascade: 1, 3, 4, 5, ...
pub open spec fn cascade_multiplier(n: int) -> u32 {
    if n == 1 {
        1
    } else {
        (1 + n) as u32
    }
}

/// The level reached with `score` points: 1 below 50, 2 below 150, 3 below
/// 300, 4 below 500, then one more level every 250 points.
pub open spec fn level_for(score: u32) -> u32 {
    if score < 50 {
        1
    } else if score < 150 {
        2
    } else if score < 300 {
        3
    } else if score < 500 {
        4
    } else {
        (5 + (score - 500) / 250) as u32
    }
}

/// What adding the points of one match does.
pub open spec fn after_add(s: ScoringState, match_points: u32) -> ScoringState {
    let count = s.cascade_count.wrapping_add(1);
    let calculated = saturating_times(match_points, cascade_multiplier(count as int));
    let accumulated = saturating_sum(s.accumulated_points, calculated);
    let score = saturating_sum(s.score, accumulated);
    ScoringState {
        level: s.level,
        score,
        max_combo: if accumulated > s.max_combo {
            accumulated
        } else {
            s.max_combo
        },
        highscore: if score > s.highscore {
            score
        } else {
            s.highscore
        },
        accumulated_points: accumulated,
        cascade_count: count,
    }
}

/// Whether a character is white space in the sense of Unicode's
/// `White_Space` property.
pub open spec fn is_white_space(c: char) -> bool {
    ('\u{9}' <= c <= '\u{d}') || c == ' ' || c == '\u{85}' || c == '\u{a0}' || c == '\u{1680}' || ('\u{2000}'
        <= c <= '\u{200a}') || c == '\u{2028}' || c == '\u{2029}' || c == '\u{202f}' || c == '\u{205f}'
        || c == '\u{3000}'
}

/// Whether a character is an ASCII digit.
pub open spec fn is_digit(c: char) -> bool {
    '0' <= c <= '9'
}

/// Reads the digits `s[i..]` after the value `value` read so far: the first
/// character that is not a digit fails, and so does a value past `u32::MAX`.
pub open spec fn parse_digits(s: Seq<char>, i: int, value: u32) -> Result<u32, Error>
    decreases s.len() - i,
{
    if i >= s.len() || i < 0 {
        Ok(value)
    } else if !is_digit(s[i]) {
        Err(Error::ParseIntInvalidDigit)
    } else if value * 10 + (s[i] as int - '0' as int) > u32::MAX {
        Err(Error::ParseIntPosOverflow)
    } else {
        parse_digits(s, i + 1, (value * 10 + (s[i] as int - '0' as int)) as u32)
    }
}

/// Reads a decimal number with an optional leading `+`, as `str::parse::<u32>`
/// does.
pub open spec fn parse_u32(s: Seq<char>) -> Result<u32, Error> {
    if s.len() == 0 {
        Err(Error::ParseIntEmpty)
    } else {
        let start: int = if s[0] == '+' {
            1
        } else {
            0
        };
        if start == s.len() {
            Err(Error::ParseIntInvalidDigit)
        } else {
            parse_digits(s, start, 0)
        }
    }
}

/// Index of the first character that is not white space, from `i` on.
pub open spec fn trim_start_from(s: Seq<char>, i: int) -> int
    decreases s.len() - i,
{
    if i >= s.len() || i < 0 {
        s.len() as int
    } else if is_white_space(s[i]) {
        trim_start_from(s, i + 1)
    } else {
        i
    }
}

/// One past the last character before `end` that is not white space, not
/// going below `start`.
pub open spec fn trim_end_from(s: Seq<char>, start: int, end: int) -> int
    decreases end - start,
{
    if end <= start {
        start
    } else if is_white_space(s[end - 1]) {
        trim_end_from(s, start, end - 1)
    } else {
        end
    }
}

/// `s` without its leading and trailing white space.
pub open spec fn trimmed(s: Seq<char>) -> Seq<char> {
    let start = trim_start_from(s, 0);
    s.subrange(start, trim_end_from(s, start, s.len() as int))
}

/// The highscore stored as `text`, or the error of reading it.
pub open spec fn highscore_from_storage(text: Option<&str>) -> Result<u32, Error> {
    match text {
        None => Ok(0),
        Some(t) => parse_u32(trimmed(t@)),
    }
}

proof fn lemma_trim_start_bounds(s: Seq<char>, i: int)
    requires
        0 <= i <= s.len(),
    ensures
        i <= trim_start_from(s, i) <= s.len(),
    decreases s.len() - i,
{
    if i < s.len() && is_white_space(s[i]) {
        lemma_trim_start_bounds(s, i + 1);
    }
}

proof fn lemma_parse_digits_subrange(s: Seq<char>, lo: int, hi: int, i: int, value: u32)
    requires
        0 <= lo <= i <= hi <= s.len(),
    ensures
        parse_digits(s.subrange(lo, hi), i - lo, value) == parse_digits_upto(s, hi, i, value),
    decreases hi - i,
{
    if i < hi {
        let d = s[i] as int - '0' as int;
        if is_digit(s[i]) && value * 10 + d <= u32::MAX {
            lemma_parse_digits_subrange(s, lo, hi, i + 1, (value * 10 + d) as u32);
        }
    }
}

/// Reads the digits `s[i..hi]` after the value `value` read so far.
pub open spec fn parse_digits_upto(s: Seq<char>, hi: int, i: int, value: u32) -> Result<u32, Error>
    decreases hi - i,
{
    if i >= hi || i < 0 {
        Ok(value)
    } else if !is_digit(s[i]) {
        Err(Error::ParseIntInvalidDigit)
    } else if value * 10 + (s[i] as int - '0' as int) > u32::MAX {
        Err(Error::ParseIntPosOverflow)
    } else {
        parse_digits_upto(s, hi, i + 1, (value * 10 + (s[i] as int - '0' as int)) as u32)
    }
}

impl Scoring {
    /// Every scoring's level is one its score has reached.
    #[verifier::type_invariant]
    spec fn level_reached(self) -> bool {
        level_consistent(self@)
    }

    /// The scoring of a new game: level 1, nothing scored, and the highscore
    /// read from `stored_highscore` (white space around it is ignored), or 0
    /// where nothing is stored. Fails with the parse error where the stored
    /// text is not a number that fits in 32 bits.
    pub fn new(stored_highscore: Option<&str>) -> (r: Result<Scoring, Error>)
        ensures
            match r {
                Ok(s) => {
                    &&& highscore_from_storage(stored_highscore) == Ok::<u32, Error>(s@.highscore)
                    &&& s@.level == 1
                    &&& s@.score == 0
                    &&& s@.max_combo == 0
                    &&& s@.accumulated_points == 0
                    &&& s@.cascade_count == 0
                },
                Err(e) => highscore_from_storage(stored_highscore) == Err::<u32, Error>(e),
            },
    {
        let highscore = match stored_highscore {
            None => 0,
            Some(text) => {
                match Self::read_trimmed(text) {
                    Ok(value) => value,
                    Err(e) => {
                        return Err(e);
                    },
                }
            },
        };
        Ok(Scoring { level: 1, score: 0, max_combo: 0, highscore, accumulated_points: 0, cascade_count: 0 })
    }

    /// Reads the number in `text` with the white space around it ignored.
    fn read_trimmed(text: &str) -> (r: Result<u32, Error>)
        ensures
            r == parse_u32(trimmed(text@)),
    {
        let len = text.unicode_len();
        let mut start: usize = 0;
        while start < len && is_white_space_char(text.get_char(start))
            invariant
                len == text@.len(),
                start <= len,
                trim_start_from(text@, 0) == trim_start_from(text@, start as int),
            decreases len - start,
        {
            start = start + 1;
        }
        let mut end: usize = len;
        while end > start && is_white_space_char(text.get_char(end - 1))
            invariant
                len == text@.len(),
                start <= end <= len,
                start as int == trim_start_from(text@, 0),
                trim_end_from(text@, start as int, len as int) == trim_end_from(text@, start as int, end as int),
            decreases end - start,
        {
            end = end - 1;
        }
        proof {
            lemma_trim_start_bounds(text@, 0);
        }
        let r = Self::parse_range(text, start, end);
        proof {
            let t = trimmed(text@);
            assert(t =~= text@.subrange(start as int, end as int));
            if t.len() > 0 {
                let s0: int = if t[0] == '+' {
                    1
                } else {
                    0
                };
                lemma_parse_digits_subrange(text@, start as int, end as int, start + s0, 0);
            }
        }
        r
    }

    /// Reads the characters `text[start..end]` as a number.
    fn parse_range(text: &str, start: usize, end: usize) -> (r: Result<u32, Error>)
        requires
            start <= end <= text@.len(),
        ensures
            r == (if start == end {
                Err::<u32, Error>(Error::ParseIntEmpty)
            } else {
                let s0: int = if text@[start as int] == '+' {
                    1
                } else {
                    0
                };
                if start + s0 == end {
                    Err::<u32, Error>(Error::ParseIntInvalidDigit)
                } else {
                    parse_digits_upto(text@, end as int, start + s0, 0)
                }
            }),
    {
        if start == end {
            return Err(Error::ParseIntEmpty);
        }
        let mut index = start;
        if text.get_char(start) == '+' {
            index = index + 1;
        }
        if index == end {
            return Err(Error::ParseIntInvalidDigit);
        }
        let mut value: u32 = 0;
        while index < end
            invariant
                start < index <= end || (start == index && index < end),
                end <= text@.len(),
                parse_digits_upto(text@, end as int, index as int, value) == (if start == end {
                    Err::<u32, Error>(Error::ParseIntEmpty)
                } else {
                    let s0: int = if text@[start as int] == '+' {
                        1
                    } else {
                        0
                    };
                    parse_digits_upto(text@, end as int, start + s0, 0)
                }),
            decreases end - index,
        {
            let c = text.get_char(index);
            if !('0' <= c && c <= '9') {
                return Err(Error::ParseIntInvalidDigit);
            }
            let digit = (c as u32) - ('0' as u32);
            let next = match value.checked_mul(10) {
                Some(v) => v.checked_add(digit),
                None => None,
            };
            match next {
                Some(v) => {
                    value = v;
                },
                None => {
                    return Err(Error::ParseIntPosOverflow);
                },
            }
            index = index + 1;
        }
        Ok(value)
    }

    /// Reads a decimal number with an optional leading `+`; fails as
    /// `str::parse::<u32>` does: on empty text, on a character that is not a
    /// digit, and on a value past `u32::MAX`.
    pub fn parse_highscore(input: &str) -> (r: Result<u32, Error>)
        ensures
            r == parse_u32(input@),
    {
        let len = input.unicode_len();
        let r = Self::parse_range(input, 0, len);
        proof {
            assert(input@.subrange(0, len as int) =~= input@);
            if len > 0 {
                let s0: int = if input@[0] == '+' {
                    1
                } else {
                    0
                };
                lemma_parse_digits_subrange(input@, 0, len as int, s0, 0);
            }
        }
        r
    }

    /// Adds the points of a match, multiplied by the cascade multiplier (1 for
    /// the first match of a cascade, then 3, 4, 5, ...), to the points of the
    /// cascade, and adds those to the score; the highest combo and the
    /// highscore follow. Sums and products are held at `u32::MAX`.
    pub fn add(&mut self, match_points: u32)
        ensures
            final(self)@ == after_add(old(self)@, match_points),
    {
        proof {
            use_type_invariant(&*self);
        }
        let multiplier = self.calculate_cascade_multiplier();
        let calculated_points = match match_points.checked_mul(multiplier) {
            Some(p) => p,
            None => u32::MAX,
        };
        self.accumulated_points = self.accumulated_points.saturating_add(calculated_points);
        self.add_accumulated_points();
        self.update_highscore();
    }

    /// Raises the level to the one the score has reached, and reports whether
    /// it went up.
    pub fn is_level_increased(&mut self) -> (increased: bool)
        ensures
            increased == (level_for(old(self)@.score) > old(self)@.level),
            final(self)@ == (ScoringState {
                level: if increased {
                    level_for(old(self)@.score)
                } else {
                    old(self)@.level
                },
                ..old(self)@
            }),
    {
        proof {
            use_type_invariant(&*self);
        }
        let calculated_level = Self::calculate_level(self.score);
        if calculated_level > self.level {
            self.level = calculated_level;
            true
        } else {
            false
        }
    }

    /// The level.
    pub fn level(&self) -> (r: u32)
        ensures
            r == self@.level,
            level_consistent(self@),
    {
        proof {
            use_type_invariant(self);
        }
        self.level
    }

    /// The score.
    pub fn score(&self) -> (r: u32)
        ensures
            r == self@.score,
    {
        self.score
    }

    /// The highest points gathered by one cascade.
    pub fn max_combo(&self) -> (r: u32)
        ensures
            r == self@.max_combo,
    {
        self.max_combo
    }

    /// The highscore.
    pub fn highscore(&self) -> (r: u32)
        ensures
            r == self@.highscore,
    {
        self.highscore
    }

    /// Ends the current cascade: its points and its count start again from 0.
    pub fn break_cascade_sequence(&mut self)
        ensures
            final(self)@ == (ScoringState { accumulated_points: 0, cascade_count: 0, ..old(self)@ }),
    {
        proof {
            use_type_invariant(&*self);
        }
        self.accumulated_points = 0;
        self.cascade_count = 0;
    }

    /// Counts one more match in the cascade (the count wraps around after
    /// 255, as the release build of the game does) and gives its multiplier.
    fn calculate_cascade_multiplier(&mut self) -> (m: u32)
        ensures
            final(self)@ == (ScoringState { cascade_count: old(self)@.cascade_count.wrapping_add(1), ..old(self)@ }),
            m == cascade_multiplier(old(self)@.cascade_count.wrapping_add(1) as int),
    {
        proof {
            use_type_invariant(&*self);
        }
        self.cascade_count = self.cascade_count.wrapping_add(1);
        if self.cascade_count == 1 {
            return 1;
        }
        1 + self.cascade_count as u32
    }

    /// Adds the points of the cascade to the score and keeps the highest
    /// combo.
    fn add_accumulated_points(&mut self)
        ensures
            final(self)@ == (ScoringState {
                score: saturating_sum(old(self)@.score, old(self)@.accumulated_points),
                max_combo: if old(self)@.accumulated_points > old(self)@.max_combo {
                    old(self)@.accumulated_points
                } else {
                    old(self)@.max_combo
                },
                ..old(self)@
            }),
    {
        proof {
            use_type_invariant(&*self);
            lemma_level_for_monotone(self.score, saturating_sum(self.score, self.accumulated_points));
        }
        self.score = self.score.saturating_add(self.accumulated_points);
        if self.accumulated_points > self.max_combo {
            self.max_combo = self.accumulated_points;
        }
    }

    /// Raises the highscore to the score where the score is higher.
    fn update_highscore(&mut self)
        ensures
            final(self)@ == (ScoringState {
                highscore: if old(self)@.score > old(self)@.highscore {
                    old(self)@.score
                } else {
                    old(self)@.highscore
                },
                ..old(self)@
            }),
    {
        proof {
            use_type_invariant(&*self);
        }
        if self.score > self.highscore {
            self.highscore = self.score;
        }
    }

    /// The level reached with `score` points.
    pub fn calculate_level(score: u32) -> (level: u32)
        ensures
            level == level_for(score),
    {
        if score < 50 {
            1
        } else if score < 150 {
            2
        } else if score < 300 {
            3
        } else if score < 500 {
            4
        } else {
            5 + (score - 500) / 250
        }
    }
}

/// Whether a character is white space in the sense of Unicode's
/// `White_Space` property.
fn is_white_space_char(c: char) -> (r: bool)
    ensures
        r == is_white_space(c),
{
    ('\u{9}' <= c && c <= '\u{d}') || c == ' ' || c == '\u{85}' || c == '\u{a0}' || c == '\u{1680}' || ('\u{2000}'
        <= c && c <= '\u{200a}') || c == '\u{2028}' || c == '\u{2029}' || c == '\u{202f}' || c == '\u{205f}'
        || c == '\u{3000}'
}

/// Adding the points of a match never lowers the score, the highest combo or
/// the highscore, and the highscore stays at least the score.
pub proof fn lemma_add_keeps_order(s: ScoringState, match_points: u32)
    requires
        s.score <= s.highscore,
    ensures
        after_add(s, match_points).score >= s.score,
        after_add(s, match_points).highscore >= after_add(s, match_points).score,
        after_add(s, match_points).highscore >= s.highscore,
        after_add(s, match_points).max_combo >= s.max_combo,
        after_add(s, match_points).max_combo >= after_add(s, match_points).accumulated_points,
{
}

/// A higher score never gives a lower level.
pub proof fn lemma_level_for_monotone(a: u32, b: u32)
    requires
        a <= b,
    ensures
        level_for(a) <= level_for(b),
{
    if a >= 500 {
        vstd::arithmetic::div_mod::lemma_div_is_ordered((a - 500) as int, (b - 500) as int, 250);
    } else if b >= 500 {
        assert((b - 500) / 250 >= 0) by (nonlinear_arith)
            requires
                b >= 500,
        ;
    }
}

/// Each match of a cascade is worth more than the one before it: the
/// multipliers run 1, 3, 4, 5, ... up to the count's wrap-around.
pub proof fn lemma_cascade_multiplier_grows(n: int)
    requires
        1 <= n < 255,
    ensures
        cascade_multiplier(n) < cascade_multiplier(n + 1),
        cascade_multiplier(1) == 1,
        cascade_multiplier(2) == 3,
{
}

/// The decimal digits of `value`, most significant first, with no leading
/// zero: the text a highscore is stored as.
pub open spec fn decimal_chars(value: nat) -> Seq<char>
    decreases value,
{
    if value < 10 {
        seq![(48 + value) as char]
    } else {
        decimal_chars(value / 10).push((48 + value % 10) as char)
    }
}

/// One more character read after the value `w` read so far.
pub open spec fn digit_step(w: u32, c: char) -> Result<u32, Error> {
    if !is_digit(c) {
        Err(Error::ParseIntInvalidDigit)
    } else if w * 10 + (c as int - '0' as int) > u32::MAX {
        Err(Error::ParseIntPosOverflow)
    } else {
        Ok((w * 10 + (c as int - '0' as int)) as u32)
    }
}

proof fn lemma_parse_digits_upto_snoc(s: Seq<char>, hi: int, i: int, value: u32)
    requires
        0 <= i <= hi < s.len(),
    ensures
        parse_digits_upto(s, hi + 1, i, value) == match parse_digits_upto(s, hi, i, value) {
            Ok(w) => digit_step(w, s[hi]),
            Err(e) => Err(e),
        },
    decreases hi - i,
{
    if i < hi {
        let d = s[i] as int - '0' as int;
        if is_digit(s[i]) && value * 10 + d <= u32::MAX {
            lemma_parse_digits_upto_snoc(s, hi, i + 1, (value * 10 + d) as u32);
        }
    } else {
        let d = s[hi] as int - '0' as int;
        if is_digit(s[hi]) && value * 10 + d <= u32::MAX {
            let w = (value * 10 + d) as u32;
            assert(parse_digits_upto(s, hi + 1, hi + 1, w) == Ok::<u32, Error>(w));
        }
    }
}

proof fn lemma_parse_digits_upto_prefix(s1: Seq<char>, s2: Seq<char>, hi: int, i: int, value: u32)
    requires
        0 <= i <= hi <= s1.len(),
        hi <= s2.len(),
        forall|k: int| 0 <= k < hi ==> s1[k] == s2[k],
    ensures
        parse_digits_upto(s1, hi, i, value) == parse_digits_upto(s2, hi, i, value),
    decreases hi - i,
{
    if i < hi {
        let d = s1[i] as int - '0' as int;
        if is_digit(s1[i]) && value * 10 + d <= u32::MAX {
            lemma_parse_digits_upto_prefix(s1, s2, hi, i + 1, (value * 10 + d) as u32);
        }
    }
}

proof fn lemma_decimal_chars_parse(n: u32)
    ensures
        decimal_chars(n as nat).len() >= 1,
        forall|k: int| 0 <= k < decimal_chars(n as nat).len() ==> #[trigger] is_digit(decimal_chars(n as nat)[k]),
        parse_digits_upto(decimal_chars(n as nat), decimal_chars(n as nat).len() as int, 0, 0) == Ok::<u32, Error>(n),
    decreases n,
{
    let s = decimal_chars(n as nat);
    if n < 10 {
        assert(parse_digits_upto(s, 0, 0, 0) == Ok::<u32, Error>(0));
        lemma_parse_digits_upto_snoc(s, 0, 0, 0);
    } else {
        let m = (n / 10) as u32;
        lemma_decimal_chars_parse(m);
        let t = decimal_chars(m as nat);
        let c = (48 + n % 10) as char;
        assert(s == t.push(c));
        lemma_parse_digits_upto_prefix(t, s, t.len() as int, 0, 0);
        lemma_parse_digits_upto_snoc(s, t.len() as int, 0, 0);
        assert(m * 10 + (n % 10) == n);
        assert forall|k: int| 0 <= k < s.len() implies #[trigger] is_digit(s[k]) by {
            if k < t.len() {
                assert(s[k] == t[k]);
            }
        }
    }
}

/// A highscore stored as its decimal digits is read back as the same number.
pub proof fn lemma_stored_highscore_reads_back(highscore: u32, text: &str)
    requires
        text@ == decimal_chars(highscore as nat),
    ensures
        highscore_from_storage(Some(text)) == Ok::<u32, Error>(highscore),
{
    let s = text@;
    lemma_decimal_chars_parse(highscore);
    assert(is_digit(s[0]));
    assert(is_digit(s[s.len() - 1]));
    assert(trim_start_from(s, 0) == 0);
    assert(trim_end_from(s, 0, s.len() as int) == s.len());
    assert(trimmed(s) =~= s);
    lemma_parse_digits_subrange(s, 0, s.len() as int, 0, 0);
    assert(s.subrange(0, s.len() as int) =~= s);
}

/// The bytes that [`crate::rendering::decimal_text`] gives for a number are,
/// read as characters, the text a highscore is stored as.
pub proof fn lemma_decimal_bytes_are_decimal_chars(value: nat)
    ensures
        decimal_repr(value).len() == decimal_chars(value).len(),
        forall|k: int| 0 <= k < decimal_chars(value).len() ==> (#[trigger] decimal_repr(value)[k]) as char == decimal_chars(value)[k],
    decreases value,
{
    if value >= 10 {
        lemma_decimal_bytes_are_decimal_chars(value / 10);
        let a = decimal_repr(value / 10);
        let b = decimal_chars(value / 10);
        assert forall|k: int| 0 <= k < decimal_chars(value).len() implies (#[trigger] decimal_repr(value)[k]) as char
            == decimal_chars(value)[k] by {
            if k < b.len() {
                assert(decimal_repr(value)[k] == a[k]);
                assert(decimal_chars(value)[k] == b[k]);
            }
        }
    }
}

/// Whether a scoring's level is one its score has reached: at least 1 and at
/// most the level of the score.
pub open spec fn level_consistent(s: ScoringState) -> bool {
    1 <= s.level <= level_for(s.score)
}

/// The scoring after a level check: the level raised to that of the score
/// where it is higher (see [`Scoring::is_level_increased`]).
pub open spec fn leveled_up(s: ScoringState) -> ScoringState {
    ScoringState { level: if level_for(s.score) > s.level { level_for(s.score) } else { s.level }, ..s }
}

/// The level never falls: adding points and ending a cascade keep it, and a
/// level check only raises it. Each keeps the level one the score has reached
/// (which every [`Scoring`] holds, see [`Scoring::level`]), and a new scoring,
/// at level 1 with no score, starts so.
pub proof fn lemma_level_stays_consistent(s: ScoringState, match_points: u32)
    ensures
        after_add(s, match_points).level == s.level,
        leveled_up(s).level >= s.level,
        (ScoringState { accumulated_points: 0, cascade_count: 0, ..s }).level == s.level,
        level_consistent(ScoringState { level: 1, score: 0, ..s }),
        level_consistent(s) ==> level_consistent(after_add(s, match_points)),
        level_consistent(s) ==> level_consistent(leveled_up(s)),
        level_consistent(s) ==> level_consistent(ScoringState { accumulated_points: 0, cascade_count: 0, ..s }),
{
    assert(after_add(s, match_points).score >= s.score);
    lemma_level_for_monotone(s.score, after_add(s, match_points).score);
}

/// The levels by score: level 1 below 50 points, 2 from 50, 3 from 150, 4
/// from 300 and 5 from 500; past 500 every 250 more points give one more
/// level.
pub proof fn lemma_level_thresholds(score: u32)
    ensures
        score < 50 ==> level_for(score) == 1,
        50 <= score < 150 ==> level_for(score) == 2,
        150 <= score < 300 ==> level_for(score) == 3,
        300 <= score < 500 ==> level_for(score) == 4,
        500 <= score < 750 ==> level_for(score) == 5,
        500 <= score <= u32::MAX - 250 ==> level_for((score + 250) as u32) == level_for(score) + 1,
        level_for(score) >= 1,
{
    if score >= 500 {
        assert((score - 500) / 250 >= 0 && (score + 250 - 500) / 250 == (score - 500) / 250 + 1) by (nonlinear_arith)
            requires
                score >= 500,
        ;
        if score < 750 {
            assert((score - 500) / 250 == 0) by (nonlinear_arith)
                requires
                    500 <= score < 750,
            ;
        }
    }
}

} // verus!
