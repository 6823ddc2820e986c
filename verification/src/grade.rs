//! A student's year of study: the degree pursued and the year within it.

use vstd::prelude::*;
use vstd::string::StrSliceExecFns;
use vstd::string::StringExecFns;
use crate::degree::lemma_degree_round_trip;
use crate::degree::Degree;
use crate::text::decimal;
use crate::text::is_ascii_digit;
use crate::text::is_digit;
use crate::text::lemma_decimal_round_trip;
use crate::text::parse_u16;
use crate::text::parsed_u16;
use crate::text::to_chars;
use crate::text::u16_to_string;

verus! {

/// A student's year of study.
#[derive(Debug, Clone, Copy, PartialEq, Eq, Structural)]
pub struct Grade {
    /// The degree the student is working towards.
    pub degree_step: Degree,
    /// The year within that degree.
    pub nth: u16,
}

/// The number of characters before the first decimal digit of a text, which is
/// the whole length where the text has no digit.
pub open spec fn split_index(s: Seq<char>) -> int
    decreases s.len(),
{
    if s.len() == 0 || is_digit(s[0]) {
        0
    } else {
        1 + split_index(s.skip(1))
    }
}

/// The split point is the one position up to which no digit stands and at
/// which, unless it is the end, a digit stands.
pub proof fn lemma_split_index(s: Seq<char>, k: int)
    ensures
        0 <= split_index(s) <= s.len(),
        (0 <= k <= s.len() && (forall|i: int| 0 <= i < k ==> !is_digit(#[trigger] s[i])) && (k
            < s.len() ==> is_digit(s[k]))) <==> k == split_index(s),
    decreases s.len(),
{
    if s.len() == 0 || is_digit(s[0]) {
        if k > 0 && s.len() > 0 {
            assert(is_digit(s[0]));
        }
    } else {
        let t = s.skip(1);
        lemma_split_index(t, k - 1);
        assert(forall|i: int| 0 <= i < t.len() ==> t[i] == s[i + 1]);
        if k == split_index(s) {
            assert forall|i: int| 0 <= i < k implies !is_digit(#[trigger] s[i]) by {
                if i > 0 {
                    assert(t[i - 1] == s[i]);
                }
            }
        }
        if 0 <= k <= s.len() && (forall|i: int| 0 <= i < k ==> !is_digit(#[trigger] s[i])) && (k
            < s.len() ==> is_digit(s[k])) {
            assert(k >= 1);
            assert forall|i: int| 0 <= i < k - 1 implies !is_digit(#[trigger] t[i]) by {
                assert(t[i] == s[i + 1]);
            }
        }
    }
}

/// Cuts a text in two before its first decimal digit: what stands before it,
/// and the rest. A text without a digit is all first part.
pub fn split_alpha_numeric(s: &str) -> (r: (&str, &str))
    ensures
        r.0@ == s@.take(split_index(s@)),
        r.1@ == s@.skip(split_index(s@)),
{
    let chars = to_chars(s);
    let n = chars.len();
    let mut k: usize = 0;
    while k < n && !is_ascii_digit(chars[k])
        invariant
            chars@ == s@,
            n == chars@.len(),
            k <= n,
            forall|i: int| 0 <= i < k ==> !is_digit(#[trigger] s@[i]),
        decreases n - k,
    {
        k += 1;
    }
    proof {
        lemma_split_index(s@, k as int);
    }
    let alpha = s.substring_char(0, k);
    let numeric = s.substring_char(k, n);
    (alpha, numeric)
}

/// A text with every occurrence of the two characters `a`, `b` in a row taken
/// out, found from the left and not overlapping.
pub open spec fn without_pair(s: Seq<char>, a: char, b: char) -> Seq<char>
    decreases s.len(),
{
    if s.len() < 2 {
        s
    } else if s[0] == a && s[1] == b {
        without_pair(s.skip(2), a, b)
    } else {
        seq![s[0]] + without_pair(s.skip(1), a, b)
    }
}

fn remove_pair(s: &Vec<char>, a: char, b: char) -> (r: Vec<char>)
    ensures
        r@ == without_pair(s@, a, b),
{
    let n = s.len();
    let mut out: Vec<char> = Vec::new();
    let mut i: usize = 0;
    proof {
        assert(s@.skip(0) =~= s@);
        assert(out@ + without_pair(s@, a, b) =~= without_pair(s@, a, b));
    }
    while i < n
        invariant
            n == s@.len(),
            i <= n,
            without_pair(s@, a, b) == out@ + without_pair(s@.skip(i as int), a, b),
        decreases n - i,
    {
        let ghost rest = s@.skip(i as int);
        if i + 1 < n && s[i] == a && s[i + 1] == b {
            proof {
                assert(rest.skip(2) =~= s@.skip(i + 2));
            }
            i += 2;
        } else {
            proof {
                assert(rest.skip(1) =~= s@.skip(i + 1));
                if rest.len() < 2 {
                    assert(rest =~= seq![rest[0]]);
                    assert(s@.skip(i + 1).len() == 0);
                    assert(without_pair(rest, a, b) =~= seq![rest[0]] + without_pair(
                        s@.skip(i + 1),
                        a,
                        b,
                    ));
                }
                assert(out@.push(s@[i as int]) + without_pair(s@.skip(i + 1), a, b) =~= out@ + (
                seq![rest[0]] + without_pair(s@.skip(i + 1), a, b)));
            }
            out.push(s[i]);
            i += 1;
        }
    }
    proof {
        assert(s@.skip(n as int) =~= Seq::<char>::empty());
        assert(out@ + Seq::<char>::empty() =~= out@);
    }
    out
}

impl Grade {
    /// A high-school year as the source records write it, with the words for
    /// "high school" and, where the text ends in them, for "year" taken out.
    pub open spec fn high_school_core(s: Seq<char>) -> Seq<char> {
        let t = without_pair(s, '高', '校');
        if t.len() >= 2 && t[t.len() - 2] == '年' && t[t.len() - 1] == '生' {
            without_pair(t, '年', '生')
        } else {
            t
        }
    }

    /// The year that a high-school core names, in either kind of numeral.
    pub open spec fn high_school_year(core: Seq<char>) -> Option<u16> {
        if core == seq!['1'] || core == seq!['一'] {
            Some(1u16)
        } else if core == seq!['2'] || core == seq!['二'] {
            Some(2u16)
        } else if core == seq!['3'] || core == seq!['三'] {
            Some(3u16)
        } else {
            None
        }
    }

    /// What a text reads as: a grade, or the message of the refusal.
    ///
    /// A text that starts with the character for "high" must name one of the
    /// three high-school years. Any other text is a degree code followed by a
    /// year in decimal digits; the texts written for alumni start with two
    /// letters and so never carry a degree code.
    pub open spec fn parsed(s: Seq<char>) -> Result<Grade, Seq<char>> {
        if s.len() > 0 && s[0] == '高' {
            match Grade::high_school_year(Grade::high_school_core(s)) {
                Some(n) => Ok(Grade { degree_step: Degree::HighSchool, nth: n }),
                None => Err("invalid grade"@),
            }
        } else {
            let k = split_index(s);
            match Degree::parsed(s.take(k)) {
                None => Err("invalid degree step"@),
                Some(d) => match parsed_u16(s.skip(k)) {
                    None => Err("invalid grade"@),
                    Some(n) => Ok(Grade { degree_step: d, nth: n }),
                },
            }
        }
    }

    /// The text of a grade: the degree code, then the year.
    pub open spec fn text(self) -> Seq<char> {
        self.degree_step.code() + decimal(self.nth as nat)
    }

    /// Reads a grade as the source records write it.
    pub fn from_str(s: &str) -> (r: Result<Grade, String>)
        ensures
            match Grade::parsed(s@) {
                Ok(g) => r == Ok::<Grade, String>(g),
                Err(msg) => r is Err && r->Err_0@ == msg,
            },
    {
        let chars = to_chars(s);
        if chars.len() > 0 && chars[0] == '高' {
            let mut core = remove_pair(&chars, '高', '校');
            let m = core.len();
            if m >= 2 && core[m - 2] == '年' && core[m - 1] == '生' {
                core = remove_pair(&core, '年', '生');
            }
            assert(core@ == Grade::high_school_core(s@));
            if core.len() != 1 {
                return Err(String::from_str("invalid grade"));
            }
            let c = core[0];
            assert(core@ =~= seq![c]);
            let year: u16 = if c == '1' || c == '一' {
                1
            } else if c == '2' || c == '二' {
                2
            } else if c == '3' || c == '三' {
                3
            } else {
                assert(seq!['1'][0] == '1' && seq!['一'][0] == '一' && seq!['2'][0] == '2'
                    && seq!['二'][0] == '二' && seq!['3'][0] == '3' && seq!['三'][0] == '三');
                return Err(String::from_str("invalid grade"));
            };
            Ok(Grade { degree_step: Degree::HighSchool, nth: year })
        } else {
            let (alpha, numeric) = split_alpha_numeric(s);
            let degree_step = match Degree::from_str(alpha) {
                Ok(d) => d,
                Err(_) => {
                    return Err(String::from_str("invalid degree step"));
                },
            };
            match parse_u16(numeric) {
                Some(nth) => Ok(Grade { degree_step, nth }),
                None => Err(String::from_str("invalid grade")),
            }
        }
    }

    /// The degree code followed by the year, as in `B3`.
    pub fn to_string(&self) -> (r: String)
        ensures
            r@ == self.text(),
    {
        let mut out = self.degree_step.to_string();
        let year = u16_to_string(self.nth);
        out.append(year.as_str());
        out
    }
}

/// Reading the text of a grade gives the grade back.
pub proof fn lemma_grade_round_trip(g: Grade)
    ensures
        Grade::parsed(g.text()) == Ok::<Grade, Seq<char>>(g),
{
    let code = g.degree_step.code();
    let year = decimal(g.nth as nat);
    let text = g.text();
    lemma_decimal_round_trip(g.nth as nat);
    lemma_degree_round_trip(g.degree_step);
    assert(code.len() == 1);
    assert(text[0] == code[0]);
    assert(text[1] == year[0]);
    assert(is_digit(year[0]));
    assert(!is_digit(code[0]));
    lemma_split_index(text, 1);
    assert(text.take(1) =~= code);
    assert(text.skip(1) =~= year);
}

} // verus!
