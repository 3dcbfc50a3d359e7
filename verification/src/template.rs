//! Compilation of translation strings into parts, and their rendering.

use vstd::prelude::*;
use vstd::utf8::encode_utf8;
use crate::arg::{Arg, arg_text};
use crate::plural::{
    compile_chars, plural_text, spec_compile, RuleModel, Ruleset,
};
use crate::text::{
    chars_of, find_char, index_of_from, is_ident, is_identifier_chars, lemma_index_of_from,
    push_char, str_eq, string_of,
};

verus! {

broadcast use vstd::string::group_string_axioms;

/// Approximate maximal size of a rendered placeholder.
pub const ESTIMATED_ARG_LEN: usize = 32;

/// What a compiled part holds.
pub enum PartModel {
    Text(Seq<char>),
    Variable(Seq<char>),
    Plural(Seq<char>, Seq<RuleModel>),
}

/// A compiled segment of a translation text.
pub enum Part {
    /// Plain text part.
    Text(String),
    /// Regular placeholder.
    Variable { name: String },
    /// Plural placeholder.
    Plural { name: String, rules: Ruleset },
}

impl View for Part {
    type V = PartModel;

    open spec fn view(&self) -> PartModel {
        match self {
            Part::Text(t) => PartModel::Text(t@),
            Part::Variable { name } => PartModel::Variable(name@),
            Part::Plural { name, rules } => PartModel::Plural(name@, rules@),
        }
    }
}

/// Number of consecutive backslashes right before position `i`, counting back
/// no further than `start`.
pub open spec fn backslashes_before(s: Seq<char>, start: int, i: int) -> nat
    decreases i - start,
{
    if i <= start {
        0
    } else if s[i - 1] == '\\' {
        1 + backslashes_before(s, start, i - 1)
    } else {
        0
    }
}

/// Position `i` holds a `{` that an even number of backslashes precedes.
pub open spec fn is_open_at(s: Seq<char>, start: int, i: int) -> bool {
    s[i] == '{' && backslashes_before(s, start, i) % 2 == 0
}

/// The first unescaped `{` at or after `i` in the text that begins at `start`,
/// or `s.len()`.
pub open spec fn first_open_from(s: Seq<char>, start: int, i: int) -> int
    decreases s.len() - i,
{
    if i >= s.len() {
        s.len() as int
    } else if is_open_at(s, start, i) {
        i
    } else {
        first_open_from(s, start, i + 1)
    }
}

/// Text with every `\{` turned into `{`, scanning from the left.
pub open spec fn unescape(t: Seq<char>) -> Seq<char>
    decreases t.len(),
{
    if t.len() < 2 {
        t
    } else if t[0] == '\\' && t[1] == '{' {
        seq!['{'] + unescape(t.skip(2))
    } else {
        seq![t[0]] + unescape(t.skip(1))
    }
}

/// The message for a placeholder without its closing brace.
pub open spec fn unclosed_message() -> Seq<char> {
    "unclosed placeholder"@
}

/// The message for a placeholder body that is neither a name nor a plural.
pub open spec fn bad_placeholder_message() -> Seq<char> {
    "unable to parse placeholder"@
}

/// A placeholder body is a name, or else a valid plural placeholder body;
/// `None` for anything else.
pub open spec fn spec_placeholder(body: Seq<char>) -> Option<PartModel> {
    if is_ident(body) {
        Some(PartModel::Variable(body))
    } else {
        match spec_compile(body) {
            Some((n, rs)) => Some(PartModel::Plural(n, rs)),
            None => None,
        }
    }
}

/// What parsing the next part of `s[start..]` gives.
pub enum NextModel {
    /// The part, and where the rest begins.
    Part(PartModel, int),
    /// The message of a template error.
    Fail(Seq<char>),
}

/// The next part of the text that begins at `start` (`start < s.len()`).
///
/// Text runs up to the first unescaped `{`; there a placeholder runs up to the
/// first `}` after it.
pub open spec fn spec_parse_next(s: Seq<char>, start: int) -> NextModel {
    let i = first_open_from(s, start, start);
    if i == start {
        let j = index_of_from(s, '}', start + 1);
        if j >= s.len() {
            NextModel::Fail(unclosed_message())
        } else {
            match spec_placeholder(s.subrange(start + 1, j)) {
                Some(p) => NextModel::Part(p, j + 1),
                None => NextModel::Fail(bad_placeholder_message()),
            }
        }
    } else {
        NextModel::Part(PartModel::Text(unescape(s.subrange(start, i))), i)
    }
}

/// What compiling a translation string gives.
pub enum TemplateModel {
    /// The parts, in order.
    Done(Seq<PartModel>),
    /// The message of the first template error.
    Fail(Seq<char>),
}

/// The parts of `s[start..]`, parsed one after the other.
pub open spec fn spec_compile_from(s: Seq<char>, start: int) -> TemplateModel
    decreases s.len() - start,
{
    if start >= s.len() {
        TemplateModel::Done(seq![])
    } else {
        match spec_parse_next(s, start) {
            NextModel::Part(p, k) => if k <= start || k > s.len() {
                TemplateModel::Fail(seq![])
            } else {
                match spec_compile_from(s, k) {
                    TemplateModel::Done(ps) => TemplateModel::Done(seq![p] + ps),
                    other => other,
                }
            },
            NextModel::Fail(m) => TemplateModel::Fail(m),
        }
    }
}

/// What compiling the translation string `s` gives.
pub open spec fn spec_template(s: Seq<char>) -> TemplateModel {
    spec_compile_from(s, 0)
}

/// Size estimate of one part: the UTF-8 length of a text (as `str::len`
/// gives it), or
/// `ESTIMATED_ARG_LEN` for a placeholder.
pub open spec fn part_size(p: PartModel) -> nat {
    match p {
        PartModel::Text(t) => (encode_utf8(t).len() as usize) as nat,
        _ => ESTIMATED_ARG_LEN as nat,
    }
}

/// Sum of the size estimates of `parts`.
pub open spec fn parts_size(parts: Seq<PartModel>) -> nat
    decreases parts.len(),
{
    if parts.len() == 0 {
        0
    } else {
        parts_size(parts.drop_last()) + part_size(parts.last())
    }
}

/// The buffer size estimate of a template with these parts, at most `usize::MAX`.
pub open spec fn spec_bufsize(parts: Seq<PartModel>) -> nat {
    if parts_size(parts) > usize::MAX {
        usize::MAX as nat
    } else {
        parts_size(parts)
    }
}

/// Position of the first argument named `name` at or after `from`, or `args.len()`.
pub open spec fn find_arg_from(args: Seq<(&str, Arg)>, name: Seq<char>, from: int) -> int
    decreases args.len() - from,
{
    if from >= args.len() {
        args.len() as int
    } else if args[from].0@ == name {
        from
    } else {
        find_arg_from(args, name, from + 1)
    }
}

/// What one part renders to with `args`; a placeholder without an argument of
/// its name renders to nothing.
pub open spec fn part_text(p: PartModel, args: Seq<(&str, Arg)>) -> Seq<char> {
    match p {
        PartModel::Text(t) => t,
        PartModel::Variable(n) => {
            let k = find_arg_from(args, n, 0);
            if k < args.len() {
                arg_text(args[k].1)
            } else {
                seq![]
            }
        },
        PartModel::Plural(n, rs) => {
            let k = find_arg_from(args, n, 0);
            if k < args.len() {
                plural_text(rs, args[k].1)
            } else {
                seq![]
            }
        },
    }
}

/// What the parts render to with `args`: their texts one after the other.
pub open spec fn render_parts(parts: Seq<PartModel>, args: Seq<(&str, Arg)>) -> Seq<char>
    decreases parts.len(),
{
    if parts.len() == 0 {
        seq![]
    } else {
        render_parts(parts.drop_last(), args) + part_text(parts.last(), args)
    }
}

impl Part {
    /// Parse a placeholder from its body: a name, or a plural placeholder body.
    pub fn parse_placeholder(source: &str) -> (r: Result<Self, String>)
        ensures
            match spec_placeholder(source@) {
                Some(m) => r matches Ok(p) && p@ == m,
                None => r matches Err(e) && e@ == bad_placeholder_message(),
            },
    {
        let chars = chars_of(source);
        if is_identifier_chars(&chars) {
            return Ok(Part::Variable { name: source.to_owned() });
        }
        match compile_chars(&chars) {
            Some((name, rules)) => Ok(Part::Plural { name, rules }),
            None => Err("unable to parse placeholder".to_owned()),
        }
    }

    /// Parse the first part of the text that begins at `start`, along with
    /// where the rest begins.
    pub fn parse_next(chars: &Vec<char>, start: usize) -> (r: Result<(Self, usize), String>)
        requires
            start < chars@.len(),
        ensures
            match spec_parse_next(chars@, start as int) {
                NextModel::Part(m, j) => r matches Ok((p, k)) && p@ == m && k == j && start < k
                    <= chars@.len(),
                NextModel::Fail(m) => r matches Err(e) && e@ == m,
            },
    {
        let n = chars.len();
        let ghost s = chars@;
        let mut k = start;
        let mut run: usize = 0;
        while k < n && !(chars[k] == '{' && run % 2 == 0)
            invariant
                n == s.len(),
                chars@ == s,
                start <= k <= n,
                run <= k - start,
                run == backslashes_before(s, start as int, k as int),
                first_open_from(s, start as int, k as int) == first_open_from(
                    s,
                    start as int,
                    start as int,
                ),
            decreases n - k,
        {
            if chars[k] == '\\' {
                run = run + 1;
            } else {
                run = 0;
            }
            k = k + 1;
        }
        if k == start {
            let j = find_char(chars, '}', start + 1);
            proof {
                lemma_index_of_from(s, '}', start + 1);
            }
            if j == n {
                return Err("unclosed placeholder".to_owned());
            }
            let body = string_of(chars, start + 1, j);
            match Part::parse_placeholder(body.as_str()) {
                Ok(p) => Ok((p, j + 1)),
                Err(e) => Err(e),
            }
        } else {
            let text = unescape_range(chars, start, k);
            Ok((Part::Text(text), k))
        }
    }
}

/// The text `v[from..to]` with every `\{` turned into `{`.
fn unescape_range(v: &Vec<char>, from: usize, to: usize) -> (s: String)
    requires
        from <= to <= v@.len(),
    ensures
        s@ == unescape(v@.subrange(from as int, to as int)),
{
    let mut out = String::new();
    let mut i = from;
    while i < to
        invariant
            from <= i <= to <= v@.len(),
            out@ + unescape(v@.subrange(i as int, to as int)) == unescape(
                v@.subrange(from as int, to as int),
            ),
        decreases to - i,
    {
        let ghost t = v@.subrange(i as int, to as int);
        if i + 1 < to && v[i] == '\\' && v[i + 1] == '{' {
            assert(t.skip(2) =~= v@.subrange(i + 2, to as int));
            push_char(&mut out, '{');
            i = i + 2;
        } else {
            assert(t.skip(1) =~= v@.subrange(i + 1, to as int));
            push_char(&mut out, v[i]);
            i = i + 1;
        }
    }
    assert(v@.subrange(to as int, to as int).len() == 0);
    out
}


/// `done` followed by what the rest of the string compiles to.
pub open spec fn after_parts(done: Seq<PartModel>, rest: TemplateModel) -> TemplateModel {
    match rest {
        TemplateModel::Done(ps) => TemplateModel::Done(done + ps),
        other => other,
    }
}

/// A compiled representation of a translation string.
pub struct Template {
    /// The compiled template parts.
    parts: Vec<Part>,
    /// Estimated size of a rendered template, used as the capacity of the
    /// buffer in [`Template::render`].
    bufsize: usize,
}

impl View for Template {
    type V = Seq<PartModel>;

    closed spec fn view(&self) -> Seq<PartModel> {
        self.parts@.map_values(|p: Part| p@)
    }
}

impl Template {
    /// The buffer size estimate.
    pub closed spec fn spec_capacity(&self) -> nat {
        self.bufsize as nat
    }
}

impl Template {
    /// Parse a translation string and compile its segments to a list of parts.
    ///
    /// Calculates the approximate size of the rendered text by adding the
    /// UTF-8 length of the text parts to the amount of placeholders multiplied
    /// by [`ESTIMATED_ARG_LEN`].
    pub fn compile(translation: &str) -> (r: Result<Self, String>)
        ensures
            match spec_template(translation@) {
                TemplateModel::Done(ps) => r matches Ok(t) && t@ == ps && t.spec_capacity()
                    == spec_bufsize(ps),
                TemplateModel::Fail(m) => r matches Err(e) && e@ == m,
            },
    {
        let chars = chars_of(translation);
        let n = chars.len();
        let ghost s = chars@;
        let mut parts: Vec<Part> = Vec::new();
        let mut bufsize: usize = 0;
        let mut start: usize = 0;
        assert(after_parts(seq![], spec_compile_from(s, 0)) == spec_compile_from(s, 0)) by {
            match spec_compile_from(s, 0) {
                TemplateModel::Done(ps) => {
                    assert(Seq::<PartModel>::empty() + ps =~= ps);
                },
                _ => {},
            }
        }
        while start < n
            invariant
                n == s.len(),
                chars@ == s,
                s == translation@,
                start <= n,
                spec_template(s) == after_parts(
                    parts@.map_values(|p: Part| p@),
                    spec_compile_from(s, start as int),
                ),
                bufsize == spec_bufsize(parts@.map_values(|p: Part| p@)),
            decreases n - start,
        {
            let ghost done = parts@.map_values(|p: Part| p@);
            match Part::parse_next(&chars, start) {
                Ok((p, k)) => {
                    let size: usize = match &p {
                        Part::Text(text) => text.as_str().len(),
                        _ => ESTIMATED_ARG_LEN,
                    };
                    assert(size == part_size(p@));
                    let ghost pm = p@;
                    parts.push(p);
                    bufsize = bufsize.saturating_add(size);
                    start = k;
                    proof {
                        let now = parts@.map_values(|p: Part| p@);
                        assert(now =~= done.push(pm));
                        assert(now.drop_last() =~= done);
                        match spec_compile_from(s, start as int) {
                            TemplateModel::Done(ps) => {
                                assert(done + (seq![pm] + ps) =~= now + ps);
                            },
                            _ => {},
                        }
                    }
                },
                Err(m) => {
                    assert(spec_compile_from(s, start as int) == TemplateModel::Fail(m@));
                    return Err(m);
                },
            }
        }
        proof {
            let done = parts@.map_values(|p: Part| p@);
            assert(done + Seq::<PartModel>::empty() =~= done);
        }
        Ok(Template { parts, bufsize })
    }

    /// Render a template.
    ///
    /// Walks through the parts and appends each one's text to the output:
    /// a text as is, a placeholder as the first argument of its name.
    pub fn render(&self, args: &[(&str, Arg<'_>)]) -> (out: String)
        ensures
            out@ == render_parts(self@, args@),
    {
        let capacity = if self.bufsize <= isize::MAX as usize {
            self.bufsize
        } else {
            isize::MAX as usize
        };
        let mut output = string_with_capacity(capacity);
        let len = self.parts.len();
        let mut i: usize = 0;
        while i < len
            invariant
                len == self@.len(),
                i <= len,
                output@ == render_parts(self@.take(i as int), args@),
            decreases len - i,
        {
            let part = &self.parts[i];
            assert(self@[i as int] == part@);
            let ghost before = output@;
            match part {
                Part::Text(text) => {
                    output.append(text.as_str());
                },
                Part::Variable { name } => {
                    if let Some(k) = find_arg(args, name.as_str()) {
                        args[k].1.write_to(&mut output);
                    }
                },
                Part::Plural { name, rules } => {
                    if let Some(k) = find_arg(args, name.as_str()) {
                        rules.render(&mut output, &args[k].1);
                    }
                },
            }
            assert(output@ == before + part_text(self@[i as int], args@));
            assert(self@.take(i + 1).drop_last() =~= self@.take(i as int));
            i = i + 1;
        }
        assert(self@.take(len as int) =~= self@);
        output
    }
}

/// Position of the first argument named `name`.
fn find_arg(args: &[(&str, Arg<'_>)], name: &str) -> (r: Option<usize>)
    ensures
        match r {
            Some(k) => k == find_arg_from(args@, name@, 0) && k < args@.len(),
            None => find_arg_from(args@, name@, 0) >= args@.len(),
        },
{
    let len = args.len();
    let mut k: usize = 0;
    while k < len
        invariant
            len == args@.len(),
            k <= len,
            find_arg_from(args@, name@, k as int) == find_arg_from(args@, name@, 0),
        decreases len - k,
    {
        if str_eq(args[k].0, name) {
            return Some(k);
        }
        k = k + 1;
    }
    None
}

/// An empty string with room for `capacity` bytes.
///
/// Calls `String::with_capacity`, which std documents as creating an empty
/// string, and as panicking where the capacity exceeds `isize::MAX` bytes.
#[verifier::external_body]
fn string_with_capacity(capacity: usize) -> (s: String)
    requires
        capacity <= isize::MAX,
    ensures
        s@ == Seq::<char>::empty(),
{
    String::with_capacity(capacity)
}

} // verus!
