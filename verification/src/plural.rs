//! Parsing, compilation and rendering of plural placeholders.
//!
//! A plural placeholder body reads `id|selector:text|selector:text|...|text`.

use vstd::prelude::*;
use crate::arg::{Arg, arg_text, spec_abs_trunc, spec_is_float, spec_is_numeric};
use crate::text::{
    chars_of, find_char, index_of_from, is_ident, is_identifier_chars, lemma_index_of_from,
    string_of, sub_chars,
};

verus! {

/// Selector byte of the `.` rule: float inputs.
pub const OP_FLOAT: u8 = 46;

/// Selector byte of the `=` rule: absolute integer value.
pub const OP_EXACT: u8 = 61;

/// Selector byte of the `~` rule: absolute value, floats included.
pub const OP_ANY: u8 = 126;

/// Selector byte of the `%` rule: value modulo 10.
pub const OP_MOD10: u8 = 37;

/// Selector byte of the `#` rule: value modulo 100.
pub const OP_MOD100: u8 = 35;

/// Marks an absent operator or bound; as `hi` it makes a range open-ended.
pub const NONE: u8 = 255;

/// What a compiled rule holds.
pub struct RuleModel {
    pub op: u8,
    pub lo: u8,
    pub hi: u8,
    pub text: Seq<char>,
    pub replace: bool,
}

/// A plural rule.
pub struct Rule {
    /// The selector operator: `.`, `=`, `~`, `%` or `#`; any other value always matches.
    op: u8,
    /// Lower range bound of the selector.
    lo: u8,
    /// Upper range bound of the selector; `NONE` leaves the range open.
    hi: u8,
    /// The text value of the rule.
    text: String,
    /// The text replaces the number instead of following it.
    replace: bool,
}

impl View for Rule {
    type V = RuleModel;

    closed spec fn view(&self) -> RuleModel {
        RuleModel {
            op: self.op,
            lo: self.lo,
            hi: self.hi,
            text: self.text@,
            replace: self.replace,
        }
    }
}

/// The plural rules of a plural placeholder.
pub struct Ruleset {
    /// The compiled rules, in the order they are tried.
    rules: Vec<Rule>,
}

impl View for Ruleset {
    type V = Seq<RuleModel>;

    closed spec fn view(&self) -> Seq<RuleModel> {
        self.rules@.map_values(|r: Rule| r@)
    }
}

/// Whether a rule selects a numeric argument.
///
/// `.` selects float inputs; `=` and `~` compare the truncated absolute value,
/// `%` that value modulo 10, `#` modulo 100; only `~` may select a float input;
/// any other operator selects everything.
pub open spec fn rule_matches(r: RuleModel, a: Arg) -> bool {
    let i = spec_abs_trunc(a);
    if r.op == OP_FLOAT {
        spec_is_float(a)
    } else if r.op == OP_EXACT || r.op == OP_ANY || r.op == OP_MOD10 || r.op == OP_MOD100 {
        let x = if r.op == OP_MOD10 {
            i % 10
        } else if r.op == OP_MOD100 {
            i % 100
        } else {
            i
        };
        if spec_is_float(a) && r.op != OP_ANY {
            false
        } else if r.hi == NONE {
            r.lo <= x
        } else {
            r.lo <= x && x <= r.hi
        }
    } else {
        true
    }
}

/// Position of the first rule at or after `from` that selects `a`, or `rules.len()`.
pub open spec fn first_match(rules: Seq<RuleModel>, a: Arg, from: int) -> int
    decreases rules.len() - from,
{
    if from >= rules.len() {
        rules.len() as int
    } else if rule_matches(rules[from], a) {
        from
    } else {
        first_match(rules, a, from + 1)
    }
}

/// The text a plural placeholder renders for `a`.
///
/// A non-numeric argument, or one that no rule selects, is written as is;
/// otherwise the first selecting rule's text follows the number, or replaces
/// it when the rule is a replacing one.
pub open spec fn plural_text(rules: Seq<RuleModel>, a: Arg) -> Seq<char> {
    if !spec_is_numeric(a) {
        arg_text(a)
    } else {
        let k = first_match(rules, a, 0);
        if k >= rules.len() {
            arg_text(a)
        } else if rules[k].replace {
            rules[k].text
        } else {
            arg_text(a) + rules[k].text
        }
    }
}

/// Value of a non-empty run of decimal digits.
pub open spec fn digits_value(d: Seq<char>) -> nat
    decreases d.len(),
{
    if d.len() == 0 {
        0
    } else {
        digits_value(d.drop_last()) * 10 + ((d.last() as u32) - 48) as nat
    }
}

/// Whether `c` is an ASCII decimal digit.
pub open spec fn is_digit(c: char) -> bool {
    '0' <= c && c <= '9'
}

/// Whether every character of `d` is an ASCII decimal digit.
pub open spec fn all_digits(d: Seq<char>) -> bool {
    forall|k: int| 0 <= k < d.len() ==> #[trigger] is_digit(d[k])
}

/// The digits of a `u8` literal: the text after one optional leading `+`.
pub open spec fn u8_digits(s: Seq<char>) -> Seq<char> {
    if s.len() > 0 && s[0] == '+' {
        s.skip(1)
    } else {
        s
    }
}

/// A `u8` read from text the way `str::parse::<u8>` reads it: one optional
/// leading `+`, then one or more decimal digits, of value at most 255.
pub open spec fn spec_parse_u8(s: Seq<char>) -> Option<u8> {
    if s.len() == 0 || (s.len() == 1 && s[0] == '+') {
        None
    } else if all_digits(u8_digits(s)) && digits_value(u8_digits(s)) <= 255 {
        Some(digits_value(u8_digits(s)) as u8)
    } else {
        None
    }
}

/// The operator and bounds of a selector; `None` where a bound does not parse.
///
/// An empty selector is `(NONE, NONE, NONE)`; `.` alone is `(OP_FLOAT, NONE, NONE)`;
/// otherwise the first character is the operator and the rest reads `lo+`,
/// `lo-hi` or `n`.
pub open spec fn spec_selector(s: Seq<char>) -> Option<(u8, u8, u8)> {
    if s.len() == 0 {
        Some((NONE, NONE, NONE))
    } else if s.len() == 1 && s[0] == '.' {
        Some((OP_FLOAT, NONE, NONE))
    } else if (s[0] as u32) >= 128 {
        None
    } else {
        let op = (s[0] as u32) as u8;
        let range = s.skip(1);
        if range.len() > 0 && range.last() == '+' {
            match spec_parse_u8(range.drop_last()) {
                Some(lo) => Some((op, lo, NONE)),
                None => None,
            }
        } else {
            let d = index_of_from(range, '-', 0);
            if d < range.len() {
                match (spec_parse_u8(range.take(d)), spec_parse_u8(range.skip(d + 1))) {
                    (Some(lo), Some(hi)) => Some((op, lo, hi)),
                    _ => None,
                }
            } else {
                match spec_parse_u8(range) {
                    Some(n) => Some((op, n, n)),
                    None => None,
                }
            }
        }
    }
}

/// The rule that one `|`-separated piece compiles to; `None` where its selector
/// does not parse.
///
/// The piece is `selector:text`, or only `text` (a rule that always matches).
/// A text that starts with `=` replaces the number; the `=` is dropped.
pub open spec fn spec_rule(p: Seq<char>) -> Option<RuleModel> {
    let k = index_of_from(p, ':', 0);
    let sel = if k < p.len() {
        spec_selector(p.take(k))
    } else {
        Some((NONE, NONE, NONE))
    };
    let text = if k < p.len() {
        p.skip(k + 1)
    } else {
        p
    };
    match sel {
        None => None,
        Some((op, lo, hi)) => {
            let replace = text.len() > 0 && text[0] == '=';
            Some(
                RuleModel {
                    op,
                    lo,
                    hi,
                    text: if replace {
                        text.skip(1)
                    } else {
                        text
                    },
                    replace,
                },
            )
        },
    }
}

/// The pieces of `s[start..]` between `|` separators, empty pieces included.
pub open spec fn split_from(s: Seq<char>, start: int) -> Seq<Seq<char>>
    decreases s.len() - start,
{
    let e = index_of_from(s, '|', start);
    if e >= s.len() || e < start {
        seq![s.subrange(start, s.len() as int)]
    } else {
        seq![s.subrange(start, e)] + split_from(s, e + 1)
    }
}

/// The pieces of `s` between `|` separators.
pub open spec fn split_bar(s: Seq<char>) -> Seq<Seq<char>> {
    split_from(s, 0)
}

/// What compiling `input` as a plural placeholder body gives: its name and
/// rules, or `None` where the first piece is not a placeholder name or some
/// selector's bounds do not parse.
pub open spec fn spec_compile(input: Seq<char>) -> Option<(Seq<char>, Seq<RuleModel>)> {
    let pieces = split_bar(input);
    if !is_ident(pieces[0]) {
        None
    } else if exists|k: int| 1 <= k < pieces.len() && #[trigger] spec_rule(pieces[k]) is None {
        None
    } else {
        Some((pieces[0], pieces.skip(1).map_values(|p: Seq<char>| spec_rule(p)->0)))
    }
}

/// Whether an executable result is what `spec_compile` describes.
pub open spec fn compiled_as(r: Option<(String, Ruleset)>, m: Option<(Seq<char>, Seq<RuleModel>)>) -> bool {
    match (r, m) {
        (Some((name, rules)), Some((n, rs))) => name@ == n && rules@ == rs,
        (None, None) => true,
        _ => false,
    }
}

impl Rule {
    /// Matches the rule against a numeric argument.
    ///
    /// See the Pluralization section of the README for details.
    fn matches(&self, n: &Arg) -> (b: bool)
        requires
            spec_is_numeric(*n),
        ensures
            b == rule_matches(self@, *n),
    {
        let i = n.abs_trunc();
        let x: u64;
        if self.op == OP_FLOAT {
            return n.is_float();
        } else if self.op == OP_EXACT || self.op == OP_ANY {
            x = i;
        } else if self.op == OP_MOD10 {
            x = i % 10;
        } else if self.op == OP_MOD100 {
            x = i % 100;
        } else {
            return true;
        }
        if n.is_float() && self.op != OP_ANY {
            return false;
        }
        if self.hi == NONE {
            self.lo as u64 <= x
        } else {
            self.lo as u64 <= x && x <= self.hi as u64
        }
    }
}

impl Ruleset {
    /// Position of the first rule that matches a numeric argument.
    fn select(&self, n: &Arg) -> (r: Option<usize>)
        requires
            spec_is_numeric(*n),
        ensures
            match r {
                Some(k) => k == first_match(self@, *n, 0) && k < self@.len(),
                None => first_match(self@, *n, 0) >= self@.len(),
            },
    {
        let len = self.rules.len();
        let mut k: usize = 0;
        while k < len
            invariant
                len == self@.len(),
                k <= len,
                spec_is_numeric(*n),
                first_match(self@, *n, k as int) == first_match(self@, *n, 0),
            decreases len - k,
        {
            assert(self@[k as int] == self.rules@[k as int]@);
            if self.rules[k].matches(n) {
                return Some(k);
            }
            k = k + 1;
        }
        None
    }

    /// Renders the rule matching the value of an argument.
    ///
    /// The rendered text is appended to `output`. A non-numeric argument is
    /// written as is.
    pub fn render(&self, output: &mut String, arg: &Arg<'_>)
        ensures
            final(output)@ == old(output)@ + plural_text(self@, *arg),
    {
        if !arg.is_numeric() {
            arg.write_to(output);
            return;
        }
        match self.select(arg) {
            None => {
                arg.write_to(output);
            },
            Some(k) => {
                let rule = &self.rules[k];
                assert(self@[k as int] == rule@);
                if rule.replace {
                    output.append(rule.text.as_str());
                } else {
                    arg.write_to(output);
                    output.append(rule.text.as_str());
                    assert(final(output)@ =~= old(output)@ + (arg_text(*arg) + rule.text@));
                }
            },
        }
    }
}

/// Proof that a run of digits is worth at least any of its prefixes.
proof fn lemma_digits_value_prefix(d: Seq<char>, k: int)
    requires
        0 <= k <= d.len(),
    ensures
        digits_value(d) >= digits_value(d.take(k)),
    decreases d.len(),
{
    if k < d.len() {
        lemma_digits_value_prefix(d.drop_last(), k);
        assert(d.drop_last().take(k) =~= d.take(k));
    } else {
        assert(d.take(k) =~= d);
    }
}

/// Reads a `u8` the way `str::parse::<u8>` does; `None` where that fails.
fn parse_u8(s: &Vec<char>) -> (r: Option<u8>)
    ensures
        r == spec_parse_u8(s@),
{
    let len = s.len();
    if len == 0 || (len == 1 && s[0] == '+') {
        return None;
    }
    let start: usize = if s[0] == '+' {
        1
    } else {
        0
    };
    let ghost d = u8_digits(s@);
    assert(d =~= s@.subrange(start as int, len as int));
    let mut acc: u32 = 0;
    let mut k: usize = start;
    while k < len
        invariant
            start <= k <= len,
            len == s@.len(),
            len > 0,
            !(len == 1 && s@[0] == '+'),
            d == u8_digits(s@),
            d == s@.subrange(start as int, len as int),
            acc == digits_value(d.take(k - start)),
            acc <= 255,
            forall|j: int| 0 <= j < k - start ==> #[trigger] is_digit(d[j]),
        decreases len - k,
    {
        let c = s[k];
        if !('0' <= c && c <= '9') {
            assert(!is_digit(d[k - start]));
            assert(!all_digits(d));
            return None;
        }
        assert(d.take(k + 1 - start).drop_last() =~= d.take(k - start));
        acc = acc * 10 + ((c as u32) - 48);
        k = k + 1;
        if acc > 255 {
            proof {
                lemma_digits_value_prefix(d, k - start);
            }
            return None;
        }
    }
    assert(d.take(len - start) =~= d);
    Some(acc as u8)
}

/// Parses a plural rule selector into its operator and bounds; `None` where
/// a bound does not parse.
fn selector(s: &Vec<char>) -> (r: Option<(u8, u8, u8)>)
    ensures
        r == spec_selector(s@),
{
    let len = s.len();
    if len == 0 {
        return Some((NONE, NONE, NONE));
    }
    if len == 1 && s[0] == '.' {
        return Some((OP_FLOAT, NONE, NONE));
    }
    let c = s[0];
    if (c as u32) >= 128 {
        return None;
    }
    let op = (c as u32) as u8;
    let range = sub_chars(s, 1, len);
    assert(range@ =~= s@.skip(1));
    let rlen = range.len();
    if rlen > 0 && range[rlen - 1] == '+' {
        let lo_text = sub_chars(&range, 0, rlen - 1);
        assert(lo_text@ =~= range@.drop_last());
        return match parse_u8(&lo_text) {
            Some(lo) => Some((op, lo, NONE)),
            None => None,
        };
    }
    let d = find_char(&range, '-', 0);
    proof {
        lemma_index_of_from(range@, '-', 0);
    }
    if d < rlen {
        let lo_text = sub_chars(&range, 0, d);
        let hi_text = sub_chars(&range, d + 1, rlen);
        assert(lo_text@ =~= range@.take(d as int));
        assert(hi_text@ =~= range@.skip(d + 1));
        let lo = parse_u8(&lo_text);
        let hi = parse_u8(&hi_text);
        match (lo, hi) {
            (Some(lo), Some(hi)) => Some((op, lo, hi)),
            _ => None,
        }
    } else {
        match parse_u8(&range) {
            Some(n) => Some((op, n, n)),
            None => None,
        }
    }
}

/// Compiles one `|`-separated piece into a rule; `None` where its selector
/// does not parse.
fn parse_rule(p: &Vec<char>) -> (r: Option<Rule>)
    ensures
        match r {
            Some(rule) => spec_rule(p@) == Some(rule@),
            None => spec_rule(p@) is None,
        },
{
    let len = p.len();
    let k = find_char(p, ':', 0);
    proof {
        lemma_index_of_from(p@, ':', 0);
    }
    let sel = if k < len {
        let s = sub_chars(p, 0, k);
        assert(s@ =~= p@.take(k as int));
        selector(&s)
    } else {
        Some((NONE, NONE, NONE))
    };
    let text_from: usize = if k < len {
        k + 1
    } else {
        0
    };
    let ghost text = if k < len {
        p@.skip(k + 1)
    } else {
        p@
    };
    assert(text =~= p@.subrange(text_from as int, len as int));
    match sel {
        None => None,
        Some((op, lo, hi)) => {
            let replace = text_from < len && p[text_from] == '=';
            let text = if replace {
                let t = string_of(p, text_from + 1, len);
                assert(t@ =~= text.skip(1));
                t
            } else {
                string_of(p, text_from, len)
            };
            let rule = Rule { op, lo, hi, text, replace };
            Some(rule)
        },
    }
}

/// Compiles a plural placeholder body held as characters.
pub(crate) fn compile_chars(chars: &Vec<char>) -> (r: Option<(String, Ruleset)>)
    ensures
        compiled_as(r, spec_compile(chars@)),
{
    let n = chars.len();
    let ghost s = chars@;
    let e = find_char(chars, '|', 0);
    proof {
        lemma_index_of_from(s, '|', 0);
    }
    let name_chars = sub_chars(chars, 0, e);
    assert(split_bar(s)[0] == name_chars@);
    if !is_identifier_chars(&name_chars) {
        return None;
    }
    let name = string_of(chars, 0, e);
    let mut rules: Vec<Rule> = Vec::new();
    let ghost mut done: Seq<Seq<char>> = seq![];
    let mut more = e < n;
    let mut start: usize = if e < n {
        e + 1
    } else {
        n
    };
    proof {
        if e < n {
            assert(split_bar(s) =~= seq![name_chars@] + done + split_from(s, start as int));
        } else {
            assert(split_bar(s) =~= seq![name_chars@] + done);
        }
    }
    while more
        invariant
            n == s.len(),
            chars@ == s,
            start <= n,
            name@ == name_chars@,
            is_ident(name_chars@),
            more ==> split_bar(s) == seq![name_chars@] + done + split_from(s, start as int),
            !more ==> split_bar(s) == seq![name_chars@] + done,
            rules@.len() == done.len(),
            forall|j: int|
                0 <= j < done.len() ==> spec_rule(#[trigger] done[j]) == Some(rules@[j]@),
        decreases n - start + (if more { 1int } else { 0int }),
    {
        let e = find_char(chars, '|', start);
        proof {
            lemma_index_of_from(s, '|', start as int);
        }
        let piece = sub_chars(chars, start, e);
        let ghost tail = split_from(s, start as int);
        assert(tail[0] == piece@);
        match parse_rule(&piece) {
            None => {
                let ghost pieces = split_bar(s);
                assert(tail.len() > 0);
                assert(pieces.len() == done.len() + 1 + tail.len());
                assert(pieces[(done.len() + 1) as int] == piece@);
                assert(spec_rule(pieces[(done.len() + 1) as int]) is None);
                return None;
            },
            Some(rule) => {
                rules.push(rule);
                proof {
                    if e < n {
                        assert(tail =~= seq![piece@] + split_from(s, e + 1));
                    } else {
                        assert(tail =~= seq![piece@]);
                    }
                    done = done.push(piece@);
                }
                if e < n {
                    start = e + 1;
                    proof {
                        assert(split_bar(s) =~= seq![name_chars@] + done + split_from(
                            s,
                            start as int,
                        ));
                    }
                } else {
                    more = false;
                    start = n;
                    proof {
                        assert(split_bar(s) =~= seq![name_chars@] + done);
                    }
                }
            },
        }
    }
    let ghost pieces = split_bar(s);
    assert(pieces.skip(1) =~= done);
    assert(!exists|k: int| 1 <= k < pieces.len() && #[trigger] spec_rule(pieces[k]) is None) by {
        assert forall|k: int| 1 <= k < pieces.len() implies #[trigger] spec_rule(pieces[k]) is Some by {
            assert(pieces[k] == done[k - 1]);
        }
    }
    let ruleset = Ruleset { rules };
    assert(ruleset@ =~= pieces.skip(1).map_values(|p: Seq<char>| spec_rule(p)->0));
    Some((name, ruleset))
}

/// Compiles a plural placeholder from its body.
///
/// On success, returns the identifier and the compiled [`Ruleset`].
/// Returns `None` if the body is not a valid plural placeholder body: the first
/// `|`-separated piece is not a placeholder name, or a selector's bounds do not
/// parse as `u8` numbers.
pub fn compile(input: &str) -> (r: Option<(String, Ruleset)>)
    ensures
        compiled_as(r, spec_compile(input@)),
{
    let chars = chars_of(input);
    compile_chars(&chars)
}

} // verus!
