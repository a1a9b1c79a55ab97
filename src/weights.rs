use vstd::prelude::*;
use vstd::string::*;
use regex::Regex;
use crate::text::{same_text, slice_text};
use crate::error::LoadError;

verus! {

#[verifier::external_type_specification]
#[verifier::external_body]
pub struct ExRegex(Regex);

#[verifier::external_type_specification]
#[verifier::external_body]
pub struct ExRegexError(regex::Error);

/// Whether `regex::Regex::new` accepts a pattern.
pub uninterp spec fn regex_compiles(pattern: Seq<char>) -> bool;

/// The pattern text that a compiled regex was built from (`Regex::as_str`).
pub uninterp spec fn regex_source(re: Regex) -> Seq<char>;

/// Whether the regex compiled from `pattern` matches somewhere in `text`.
pub uninterp spec fn regex_accepts(pattern: Seq<char>, text: Seq<char>) -> bool;

/// Relies on `regex::Regex::new`: success depends on the pattern alone, and the
/// regex it builds keeps that pattern as its source text.
#[verifier::external_body]
fn compile_regex(pattern: &str) -> (r: Result<Regex, regex::Error>)
    ensures
        r is Ok == regex_compiles(pattern@),
        r is Ok ==> regex_source(r->Ok_0) == pattern@,
{
    Regex::new(pattern)
}

/// Relies on `regex::Regex::is_match`: the answer depends on the regex's source
/// and the text alone.
#[verifier::external_body]
fn regex_is_match(re: &Regex, text: &str) -> (r: bool)
    ensures
        r == regex_accepts(regex_source(*re), text@),
{
    re.is_match(text)
}

/// A probability of one, in parts per billion.
pub const CERTAIN: u32 = 1000000000;

/// How likely a selector is to be taken.
///
/// `Sometimes(p)` holds the probability in parts per billion (`0..=CERTAIN`);
/// between variants it is also the relative weight.
#[derive(Clone, Copy, PartialEq, Eq, Debug, Structural)]
pub enum Weight {
    Always,
    Sometimes(u32),
}

/// What a weight contributes to a weighted draw.
pub open spec fn share(w: Weight) -> nat {
    match w {
        Weight::Always => 0,
        Weight::Sometimes(p) => p as nat,
    }
}

pub open spec fn is_digit(c: char) -> bool {
    '0' <= c && c <= '9'
}

pub open spec fn digit_value(c: char) -> nat {
    (c as nat - '0' as nat) as nat
}

pub open spec fn all_digits(s: Seq<char>) -> bool {
    forall|i: int| 0 <= i < s.len() ==> is_digit(#[trigger] s[i])
}

/// The number that a run of decimal digits writes.
pub open spec fn digits_value(s: Seq<char>) -> nat
    decreases s.len(),
{
    if s.len() == 0 {
        0
    } else {
        digits_value(s.drop_last()) * 10 + digit_value(s.last())
    }
}

pub open spec fn pow10(n: nat) -> nat
    decreases n,
{
    if n == 0 {
        1
    } else {
        10 * pow10((n - 1) as nat)
    }
}

/// Position of the first `c` in `s`, or `s.len()` when there is none.
pub open spec fn index_of(s: Seq<char>, c: char) -> nat
    decreases s.len(),
{
    if s.len() == 0 {
        0
    } else if s[0] == c {
        0
    } else {
        1 + index_of(s.drop_first(), c)
    }
}

/// The first nine digits after the point, in parts per billion (later digits are dropped).
pub open spec fn fraction_ppb(f: Seq<char>) -> nat {
    let k: nat = if f.len() < 9 { f.len() } else { 9 };
    digits_value(f.take(k as int)) * pow10((9 - k) as nat)
}

/// A probability written `digits[.digits]` (at least one digit), at most one,
/// in parts per billion.
pub open spec fn probability_of(s: Seq<char>) -> Option<u32> {
    let d = index_of(s, '.');
    let whole = s.take(d as int);
    let frac = if d < s.len() { s.skip(d + 1 as int) } else { Seq::<char>::empty() };
    let value = digits_value(whole) * 1000000000 + fraction_ppb(frac);
    if all_digits(whole) && all_digits(frac) && whole.len() + frac.len() > 0 && value
        <= 1000000000 {
        Some(value as u32)
    } else {
        None
    }
}

/// The weight that the text after `|` writes: `always`, or a probability.
pub open spec fn weight_of(s: Seq<char>) -> Option<Weight> {
    if s == "always"@ {
        Some(Weight::Always)
    } else {
        match probability_of(s) {
            Some(p) => Some(Weight::Sometimes(p)),
            None => None,
        }
    }
}

pub proof fn lemma_index_of(s: Seq<char>, c: char)
    ensures
        index_of(s, c) <= s.len(),
        forall|j: int| 0 <= j < index_of(s, c) ==> s[j] != c,
        index_of(s, c) < s.len() ==> s[index_of(s, c) as int] == c,
    decreases s.len(),
{
    if s.len() > 0 && s[0] != c {
        lemma_index_of(s.drop_first(), c);
        assert forall|j: int| 0 <= j < index_of(s, c) implies s[j] != c by {
            if j > 0 {
                assert(s[j] == s.drop_first()[j - 1]);
            }
        }
    }
}

proof fn lemma_digits_bound(s: Seq<char>)
    requires
        all_digits(s),
    ensures
        digits_value(s) < pow10(s.len()),
    decreases s.len(),
{
    if s.len() > 0 {
        let t = s.drop_last();
        assert(all_digits(t)) by {
            assert forall|i: int| 0 <= i < t.len() implies is_digit(#[trigger] t[i]) by {
                assert(t[i] == s[i]);
            }
        }
        lemma_digits_bound(t);
        assert(is_digit(s[s.len() - 1]));
        assert(digits_value(s) == digits_value(t) * 10 + digit_value(s.last()));
        assert(pow10(s.len()) == 10 * pow10(t.len()));
    }
}

/// Position of the first `c` in `s`, or its length.
pub fn find_char_in(s: &str, c: char) -> (r: usize)
    ensures
        r == index_of(s@, c),
        r <= s@.len(),
{
    proof {
        lemma_index_of(s@, c);
    }
    let n = s.unicode_len();
    let mut i: usize = 0;
    while i < n
        invariant
            n == s@.len(),
            i <= n,
            i <= index_of(s@, c),
            forall|j: int| 0 <= j < index_of(s@, c) ==> s@[j] != c,
            index_of(s@, c) < s@.len() ==> s@[index_of(s@, c) as int] == c,
        decreases n - i,
    {
        if s.get_char(i) == c {
            return i;
        }
        i = i + 1;
    }
    i
}

/// The value of a run of decimal digits, capped at two, or `None` if a
/// character is not a digit.
fn whole_part(s: &str) -> (r: Option<u32>)
    ensures
        r is Some == all_digits(s@),
        r is Some ==> r->Some_0 == (if digits_value(s@) < 2 { digits_value(s@) } else { 2 }),
{
    let n = s.unicode_len();
    let mut v: u32 = 0;
    let mut i: usize = 0;
    while i < n
        invariant
            n == s@.len(),
            i <= n,
            all_digits(s@.take(i as int)),
            v == (if digits_value(s@.take(i as int)) < 2 { digits_value(s@.take(i as int)) } else { 2 }),
        decreases n - i,
    {
        let c = s.get_char(i);
        if !('0' <= c && c <= '9') {
            assert(!all_digits(s@)) by {
                assert(!is_digit(s@[i as int]));
            }
            return None;
        }
        let d = (c as u32) - ('0' as u32);
        let ghost prev = s@.take(i as int);
        assert(s@.take(i + 1).drop_last() =~= prev);
        assert(digits_value(s@.take(i + 1)) == digits_value(prev) * 10 + digit_value(c));
        v = if v >= 2 { 2 } else if v * 10 + d >= 2 { 2 } else { v * 10 + d };
        assert(all_digits(s@.take(i + 1))) by {
            assert forall|j: int| 0 <= j < i + 1 implies is_digit(#[trigger] s@.take(i + 1)[j]) by {
                if j < i {
                    assert(s@.take(i + 1)[j] == prev[j]);
                }
            }
        }
        i = i + 1;
    }
    assert(s@.take(n as int) =~= s@);
    Some(v)
}

/// The digits after the point in parts per billion, or `None` if a character
/// is not a digit.
fn fraction_part(s: &str) -> (r: Option<u32>)
    ensures
        r is Some == all_digits(s@),
        r is Some ==> r->Some_0 == fraction_ppb(s@),
{
    let n = s.unicode_len();
    let mut v: u32 = 0;
    let mut i: usize = 0;
    while i < n
        invariant
            n == s@.len(),
            i <= n,
            all_digits(s@.take(i as int)),
            v == digits_value(s@.take(if i < 9 { i as int } else { 9 })),
            v < pow10(if i < 9 { i as nat } else { 9 }),
        decreases n - i,
    {
        let c = s.get_char(i);
        if !('0' <= c && c <= '9') {
            assert(!all_digits(s@)) by {
                assert(!is_digit(s@[i as int]));
            }
            return None;
        }
        let ghost prev = s@.take(i as int);
        if i < 9 {
            let d = (c as u32) - ('0' as u32);
            assert(s@.take(i + 1).drop_last() =~= prev);
            assert(digits_value(s@.take(i + 1)) == digits_value(prev) * 10 + digit_value(c));
            assert(pow10((i + 1) as nat) == 10 * pow10(i as nat));
            proof {
                lemma_pow10_small();
                lemma_pow10_mono(i as nat, 8);
            }
            v = v * 10 + d;
        }
        assert(all_digits(s@.take(i + 1))) by {
            assert forall|j: int| 0 <= j < i + 1 implies is_digit(#[trigger] s@.take(i + 1)[j]) by {
                if j < i {
                    assert(s@.take(i + 1)[j] == prev[j]);
                }
            }
        }
        i = i + 1;
    }
    let mut k: usize = if n < 9 { n } else { 9 };
    let ghost base = v as nat;
    assert(pow10(0) == 1);
    assert(k - (if n < 9 { n } else { 9 }) == 0);
    assert(base * pow10(0) == base);
    proof { lemma_pow10_small(); }
    while k < 9
        invariant
            k <= 9,
            v == base * pow10((k - (if n < 9 { n } else { 9 })) as nat),
            v < pow10(k as nat),
            n < 9 ==> n <= k,
            n >= 9 ==> k == 9,
            pow10(9) == 1000000000,
        decreases 9 - k,
    {
        assert(pow10((k + 1) as nat) == 10 * pow10(k as nat));
        let ghost e = (k - (if n < 9 { n } else { 9 })) as nat;
        assert(pow10(e + 1) == 10 * pow10(e));
        assert(base * pow10(e + 1) == (base * pow10(e)) * 10) by (nonlinear_arith)
            requires pow10(e + 1) == 10 * pow10(e);
        assert(pow10(k as nat) <= pow10(8)) by {
            lemma_pow10_mono(k as nat, 8);
        }
        proof { lemma_pow10_small(); }
        v = v * 10;
        k = k + 1;
    }
    assert(s@.take(n as int) =~= s@);
    Some(v)
}

proof fn lemma_pow10_small()
    ensures
        pow10(8) == 100000000,
        pow10(9) == 1000000000,
{
    reveal_with_fuel(pow10, 10);
}

proof fn lemma_pow10_mono(a: nat, b: nat)
    requires
        a <= b,
    ensures
        pow10(a) <= pow10(b),
    decreases b,
{
    if a < b {
        lemma_pow10_mono(a, (b - 1) as nat);
    }
}

/// Reads a probability written as decimal digits with an optional point.
pub fn parse_probability(s: &str) -> (r: Option<u32>)
    ensures
        r == probability_of(s@),
{
    let n = s.unicode_len();
    let d = find_char_in(s, '.');
    proof {
        lemma_index_of(s@, '.');
    }
    let whole = s.substring_char(0, d);
    let frac = if d < n { s.substring_char(d + 1, n) } else { s.substring_char(n, n) };
    assert(frac@ =~= (if d < s@.len() { s@.skip(d + 1) } else { Seq::<char>::empty() }));
    let w = whole_part(whole);
    let f = fraction_part(frac);
    match (w, f) {
        (Some(w), Some(f)) => {
            if d == 0 && d + 1 >= n {
                return None;
            }
            assert(whole@.len() + frac@.len() > 0);
            if w >= 2 {
                return None;
            }
            proof {
                lemma_digits_bound(frac@.take(if frac@.len() < 9 { frac@.len() as int } else { 9 }));
            }
            let total: u64 = (w as u64) * 1000000000 + (f as u64);
            if total > 1000000000 {
                None
            } else {
                Some(total as u32)
            }
        },
        _ => None,
    }
}

/// Reads the weight after `|`: `always` or a probability.
pub fn parse_weight(s: &str) -> (r: Option<Weight>)
    ensures
        r == weight_of(s@),
{
    if same_text(s, "always") {
        Some(Weight::Always)
    } else {
        match parse_probability(s) {
            Some(p) => Some(Weight::Sometimes(p)),
            None => None,
        }
    }
}

/// Position of the last `c` in `s`, if any.
pub open spec fn last_index_of(s: Seq<char>, c: char) -> Option<nat>
    decreases s.len(),
{
    if s.len() == 0 {
        None
    } else if s.last() == c {
        Some((s.len() - 1) as nat)
    } else {
        last_index_of(s.drop_last(), c)
    }
}

/// Blank lines and `#` comments carry no rule.
pub open spec fn is_ignored_line(l: Seq<char>) -> bool {
    l.len() == 0 || l[0] == '#'
}

/// The rule that a line `<regex>|<weight>` writes: split at the last `|`.
pub open spec fn rule_of(l: Seq<char>) -> Option<(Seq<char>, Weight)> {
    match last_index_of(l, '|') {
        None => None,
        Some(k) => match weight_of(l.skip(k + 1 as int)) {
            Some(w) => if regex_compiles(l.take(k as int)) {
                Some((l.take(k as int), w))
            } else {
                None
            },
            None => None,
        },
    }
}

/// Every line is blank, a comment, or a rule.
pub open spec fn lines_ok(ls: Seq<Seq<char>>) -> bool {
    forall|i: int| 0 <= i < ls.len() ==> is_ignored_line(#[trigger] ls[i]) || rule_of(ls[i]) is Some
}

/// The rules that the lines write, in file order.
pub open spec fn rules_of(ls: Seq<Seq<char>>) -> Seq<(Seq<char>, Weight)>
    decreases ls.len(),
{
    if ls.len() == 0 {
        Seq::empty()
    } else if is_ignored_line(ls.last()) {
        rules_of(ls.drop_last())
    } else {
        rules_of(ls.drop_last()).push(rule_of(ls.last())->Some_0)
    }
}

/// The weight of the first rule whose pattern matches `path`; a path that no
/// rule matches is always taken.
pub open spec fn weight_for(rules: Seq<(Seq<char>, Weight)>, path: Seq<char>) -> Weight
    decreases rules.len(),
{
    if rules.len() == 0 {
        Weight::Sometimes(CERTAIN)
    } else if regex_accepts(rules[0].0, path) {
        rules[0].1
    } else {
        weight_for(rules.drop_first(), path)
    }
}

pub open spec fn line_views(lines: Seq<String>) -> Seq<Seq<char>> {
    lines.map_values(|l: String| l@)
}

/// One line of the weights file, compiled.
pub struct Rule {
    pattern: String,
    re: Regex,
    weight: Weight,
}

/// The ordered rules of a weights file.
pub struct Weights {
    rules: Vec<Rule>,
}

impl View for Weights {
    type V = Seq<(Seq<char>, Weight)>;

    closed spec fn view(&self) -> Seq<(Seq<char>, Weight)> {
        self.rules@.map_values(|r: Rule| (r.pattern@, r.weight))
    }
}

/// Position of the last `c` in `s`, if any.
pub fn find_last_char_in(s: &str, c: char) -> (r: Option<usize>)
    ensures
        last_index_of(s@, c) == (match r {
            Some(k) => Some(k as nat),
            None => None::<nat>,
        }),
        r is Some ==> r->Some_0 < s@.len(),
{
    let n = s.unicode_len();
    let mut i: usize = n;
    assert(s@.take(n as int) =~= s@);
    while i > 0
        invariant
            i <= n,
            n == s@.len(),
            last_index_of(s@, c) == last_index_of(s@.take(i as int), c),
        decreases i,
    {
        let ghost t = s@.take(i as int);
        assert(t.drop_last() =~= s@.take(i - 1));
        if s.get_char(i - 1) == c {
            return Some(i - 1);
        }
        i = i - 1;
    }
    None
}

impl Weights {
    pub closed spec fn wf(&self) -> bool {
        forall|i: int| 0 <= i < self.rules@.len() ==> {
            &&& regex_source(#[trigger] self.rules@[i].re) == self.rules@[i].pattern@
            &&& share(self.rules@[i].weight) <= CERTAIN
        }
    }

    /// Reads the rules from the lines of a weights file.
    pub fn new(lines: &Vec<String>) -> (r: Result<Weights, LoadError>)
        ensures
            r is Ok == lines_ok(line_views(lines@)),
            r matches Ok(w) ==> w.wf() && w@ == rules_of(line_views(lines@)),
            r matches Err(e) ==> e == LoadError::InvalidWeight,
    {
        let mut rules: Vec<Rule> = Vec::new();
        let mut i: usize = 0;
        while i < lines.len()
            invariant
                i <= lines@.len(),
                lines_ok(line_views(lines@).take(i as int)),
                forall|j: int| 0 <= j < rules@.len() ==> {
                    &&& regex_source(#[trigger] rules@[j].re) == rules@[j].pattern@
                    &&& share(rules@[j].weight) <= CERTAIN
                },
                rules@.map_values(|r: Rule| (r.pattern@, r.weight)) == rules_of(
                    line_views(lines@).take(i as int),
                ),
            decreases lines@.len() - i,
        {
            let line: &str = lines[i].as_str();
            let ghost ls = line_views(lines@);
            assert(ls.take(i + 1).drop_last() =~= ls.take(i as int));
            assert(ls[i as int] == line@);
            let ignored = line.unicode_len() == 0 || line.get_char(0) == '#';
            if !ignored {
                match find_last_char_in(line, '|') {
                    None => {
                        assert(!lines_ok(ls)) by {
                            assert(!is_ignored_line(ls[i as int]));
                        }
                        return Err(LoadError::InvalidWeight);
                    },
                    Some(k) => {
                        let n = line.unicode_len();
                        let pattern = slice_text(line, 0, k);
                        let weight_text = line.substring_char(k + 1, n);
                        assert(weight_text@ =~= line@.skip(k + 1));
                        match parse_weight(weight_text) {
                            None => {
                                assert(!lines_ok(ls)) by {
                                    assert(!is_ignored_line(ls[i as int]));
                                }
                                return Err(LoadError::InvalidWeight);
                            },
                            Some(weight) => match compile_regex(pattern.as_str()) {
                                Err(_) => {
                                    assert(!lines_ok(ls)) by {
                                        assert(!is_ignored_line(ls[i as int]));
                                    }
                                    return Err(LoadError::InvalidWeight);
                                },
                                Ok(re) => {
                                    rules.push(Rule { pattern, re, weight });
                                },
                            },
                        }
                    },
                }
            }
            assert(rules@.map_values(|r: Rule| (r.pattern@, r.weight)) =~= rules_of(
                ls.take(i + 1),
            ));
            assert(lines_ok(ls.take(i + 1))) by {
                assert forall|j: int| 0 <= j < i + 1 implies is_ignored_line(
                    #[trigger] ls.take(i + 1)[j],
                ) || rule_of(ls.take(i + 1)[j]) is Some by {
                    if j < i {
                        assert(ls.take(i + 1)[j] == ls.take(i as int)[j]);
                    }
                }
            }
            i = i + 1;
        }
        assert(line_views(lines@).take(i as int) =~= line_views(lines@));
        Ok(Weights { rules })
    }

    /// The weight of `path`: that of the first rule that matches it, else
    /// `Sometimes(CERTAIN)`.
    pub fn for_path(&self, path: &str) -> (r: Weight)
        requires
            self.wf(),
        ensures
            r == weight_for(self@, path@),
            share(r) <= CERTAIN,
    {
        let ghost rs = self@;
        let mut i: usize = 0;
        assert(rs.skip(0) =~= rs);
        while i < self.rules.len()
            invariant
                self.wf(),
                rs == self@,
                i <= rs.len(),
                rs.len() == self.rules@.len(),
                weight_for(rs, path@) == weight_for(rs.skip(i as int), path@),
            decreases rs.len() - i,
        {
            let rule = &self.rules[i];
            assert(rs.skip(i as int)[0] == rs[i as int]);
            assert(rs.skip(i as int).drop_first() =~= rs.skip(i + 1));
            if regex_is_match(&rule.re, path) {
                return rule.weight;
            }
            i = i + 1;
        }
        Weight::Sometimes(CERTAIN)
    }
}

} // verus!
